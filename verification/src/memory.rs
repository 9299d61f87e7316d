//! Picking the game's process and the JVM module in it by name, among the
//! processes and modules that the system lists.
use vstd::prelude::*;
use vstd::string::StringSliceAdditionalSpecFns;

verus! {

/// `needle` occurs in `s` from index `i` on.
pub open spec fn occurs_at(s: Seq<u8>, needle: Seq<u8>, i: int) -> bool {
    0 <= i && i + needle.len() <= s.len() && s.subrange(i, i + needle.len()) == needle
}

/// `s` ends with `suffix`.
pub open spec fn ends_with(s: Seq<u8>, suffix: Seq<u8>) -> bool {
    suffix.len() <= s.len() && occurs_at(s, suffix, s.len() - suffix.len())
}

/// `needle` occurs somewhere in `s`.
pub open spec fn contains(s: Seq<u8>, needle: Seq<u8>) -> bool {
    exists|i: int| #[trigger] occurs_at(s, needle, i)
}

/// Whether `needle` occurs in `s` from index `i` on.
fn matches_at(s: &[u8], needle: &[u8], i: usize) -> (r: bool)
    requires
        i + needle@.len() <= s@.len(),
    ensures
        r == occurs_at(s@, needle@, i as int),
{
    let mut j: usize = 0;
    assert(s@.len() == s.len());
    while j < needle.len()
        invariant
            i + needle@.len() <= s@.len(),
            s@.len() <= usize::MAX,
            j <= needle@.len(),
            forall|k: int| 0 <= k < j ==> s@[i + k] == needle@[k],
        decreases needle@.len() - j,
    {
        if s[i + j] != needle[j] {
            assert(s@.subrange(i as int, i + needle@.len())[j as int] != needle@[j as int]);
            return false;
        }
        j += 1;
    }
    assert(s@.subrange(i as int, i + needle@.len()) =~= needle@);
    true
}

/// Whether the path `path` ends with `name`.
pub fn path_ends_with(path: &[u8], name: &[u8]) -> (r: bool)
    ensures
        r == ends_with(path@, name@),
{
    if name.len() > path.len() {
        return false;
    }
    matches_at(path, name, path.len() - name.len())
}

/// Whether `name` occurs in the path `path`.
pub fn path_contains(path: &[u8], name: &[u8]) -> (r: bool)
    ensures
        r == contains(path@, name@),
{
    if name.len() > path.len() {
        assert forall|i: int| !#[trigger] occurs_at(path@, name@, i) by {}
        return false;
    }
    let last = path.len() - name.len();
    let mut i: usize = 0;
    loop
        invariant
            last + name@.len() == path@.len(),
            i <= last,
            forall|k: int| 0 <= k < i ==> !#[trigger] occurs_at(path@, name@, k),
        decreases last - i,
    {
        if matches_at(path, name, i) {
            return true;
        }
        if i == last {
            assert forall|k: int| !#[trigger] occurs_at(path@, name@, k) by {
                if 0 <= k < i {
                }
            }
            return false;
        }
        i += 1;
    }
}

/// A process the system lists: its id and the path of its image, as UTF-8.
pub struct ProcessEntry {
    pub id: u32,
    pub path: Vec<u8>,
}

/// A module loaded in a process: its base address and the path of its file,
/// as UTF-8.
pub struct ModuleEntry {
    pub base: u64,
    pub path: Vec<u8>,
}

/// The id of the first listed process whose image path ends with `name`.
pub fn get_process_pid_by_name(processes: &Vec<ProcessEntry>, name: &str) -> (r: Option<u32>)
    ensures
        match r {
            Some(id) => exists|i: int|
                0 <= i < processes@.len() && #[trigger] processes@[i].id == id && ends_with(
                    processes@[i].path@,
                    name.spec_bytes(),
                ) && forall|j: int| 0 <= j < i ==> !ends_with(#[trigger] processes@[j].path@, name.spec_bytes()),
            None => forall|i: int|
                0 <= i < processes@.len() ==> !ends_with(#[trigger] processes@[i].path@, name.spec_bytes()),
        },
{
    let needle = name.as_bytes();
    let mut i: usize = 0;
    while i < processes.len()
        invariant
            needle@ == name.spec_bytes(),
            i <= processes@.len(),
            forall|j: int| 0 <= j < i ==> !ends_with(#[trigger] processes@[j].path@, needle@),
        decreases processes@.len() - i,
    {
        if path_ends_with(processes[i].path.as_slice(), needle) {
            assert(processes@[i as int].id == processes[i as int].id);
            return Some(processes[i].id);
        }
        i += 1;
    }
    None
}

/// The base address of the first listed module whose file path contains
/// `module_name`.
pub fn get_module_address_by_name(modules: &Vec<ModuleEntry>, module_name: &str) -> (r: Option<u64>)
    ensures
        match r {
            Some(base) => exists|i: int|
                0 <= i < modules@.len() && #[trigger] modules@[i].base == base && contains(
                    modules@[i].path@,
                    module_name.spec_bytes(),
                ) && forall|j: int| 0 <= j < i ==> !contains(#[trigger] modules@[j].path@, module_name.spec_bytes()),
            None => forall|i: int|
                0 <= i < modules@.len() ==> !contains(#[trigger] modules@[i].path@, module_name.spec_bytes()),
        },
{
    let needle = module_name.as_bytes();
    let mut i: usize = 0;
    while i < modules.len()
        invariant
            needle@ == module_name.spec_bytes(),
            i <= modules@.len(),
            forall|j: int| 0 <= j < i ==> !contains(#[trigger] modules@[j].path@, needle@),
        decreases modules@.len() - i,
    {
        if path_contains(modules[i].path.as_slice(), needle) {
            assert(modules@[i as int].base == modules[i as int].base);
            return Some(modules[i].base);
        }
        i += 1;
    }
    None
}

} // verus!
