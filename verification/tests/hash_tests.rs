use hestia::jvm::hashcode;
use hestia::memory::{get_module_address_by_name, get_process_pid_by_name, path_contains, path_ends_with, ModuleEntry, ProcessEntry};
use hestia::utils::LastTarget;

#[test]
fn hashcode_matches_java_string_hash() {
    assert_eq!(hashcode(""), 0);
    assert_eq!(hashcode("a"), 97);
    assert_eq!(hashcode("hello"), 99162322);
    assert_eq!(hashcode("Hello, World"), 3789126028);
    assert_eq!(hashcode("com/craftrise/gM"), 1810519418);
    assert_eq!(hashcode("java/lang/Byte"), 202917116);
}

#[test]
fn hashcode_hashes_utf8_bytes() {
    assert_eq!(hashcode("é"), 6214);
}

#[test]
fn hashcode_of_concatenation() {
    let a = "java/lang/";
    let b = "Byte";
    let expected = hashcode(a).wrapping_mul(31u32.wrapping_pow(b.len() as u32)).wrapping_add(hashcode(b));
    assert_eq!(hashcode("java/lang/Byte"), expected);
}

#[test]
fn matches_paths() {
    assert!(path_ends_with(b"C:\\Games\\craftrise-x64.exe", b"craftrise-x64.exe"));
    assert!(!path_ends_with(b"craftrise-x64.exe.bak", b"craftrise-x64.exe"));
    assert!(path_ends_with(b"abc", b""));
    assert!(!path_ends_with(b"ab", b"abc"));
    assert!(path_contains(b"C:\\jdk\\bin\\server\\jvm.dll", b"jvm.dll"));
    assert!(path_contains(b"jvm.dll", b"jvm.dll"));
    assert!(!path_contains(b"C:\\jdk\\bin\\java.dll", b"jvm.dll"));
    assert!(path_contains(b"", b""));
}

#[test]
fn picks_the_first_matching_process() {
    let procs = vec![
        ProcessEntry { id: 4, path: b"C:\\Windows\\explorer.exe".to_vec() },
        ProcessEntry { id: 8, path: b"D:\\cr\\craftrise-x64.exe".to_vec() },
        ProcessEntry { id: 9, path: b"E:\\craftrise-x64.exe".to_vec() },
    ];
    assert_eq!(get_process_pid_by_name(&procs, "craftrise-x64.exe"), Some(8));
    assert_eq!(get_process_pid_by_name(&procs, "notepad.exe"), None);
    assert_eq!(get_process_pid_by_name(&vec![], "x"), None);
}

#[test]
fn picks_the_first_matching_module() {
    let mods = vec![
        ModuleEntry { base: 0x1000, path: b"C:\\jdk\\bin\\java.exe".to_vec() },
        ModuleEntry { base: 0x7ff0_0000, path: b"C:\\jdk\\bin\\server\\jvm.dll".to_vec() },
        ModuleEntry { base: 0x8000_0000, path: b"C:\\other\\jvm.dll".to_vec() },
    ];
    assert_eq!(get_module_address_by_name(&mods, "jvm.dll"), Some(0x7ff0_0000));
    assert_eq!(get_module_address_by_name(&mods, "kernel32.dll"), None);
}

#[test]
fn last_target_elapsed() {
    let t = LastTarget::new_at(42, 1000);
    assert_eq!(t.target, 42);
    assert_eq!(t.elapsed(1000), Some(0));
    assert_eq!(t.elapsed(1750), Some(750));
    assert_eq!(t.elapsed(999), None);
    let d = LastTarget::default();
    assert_eq!(d.target, 0);
    assert_eq!(d.time, 0);
}

#[test]
fn last_target_by_the_clock() {
    let t = LastTarget::new(7).unwrap();
    assert_eq!(t.target, 7);
    assert!(t.time > 1_600_000_000_000);
    let since = t.time_since().unwrap();
    assert!(since < 60_000);
}
