//! Lookups in the memory of a HotSpot JVM.
use crate::game::{
    lemma_value_read_own_write, mem_value, read_seq, read_value, read_value_at, store, takes_write,
    write_seq, GameProcess, JavaValue, JvmOffsets, Readable, Writable,
};
use vstd::prelude::*;
use vstd::string::StringSliceAdditionalSpecFns;
use vstd::utf8::valid_utf8;
use vstd::arithmetic::power::pow;
use vstd::arithmetic::div_mod::{lemma_add_mod_noop_right, lemma_mul_mod_noop_left};

verus! {

/// Java's `String.hashCode` recurrence, taken over the bytes of a name and
/// reduced modulo 2^32 at every step.
pub open spec fn java_hash(s: Seq<u8>) -> u32
    decreases s.len(),
{
    if s.len() == 0 {
        0
    } else {
        ((java_hash(s.drop_last()) as int * 31 + s.last() as int) % 0x1_0000_0000) as u32
    }
}

/// Hashing a concatenation: the hash of `a + b` is the hash of `a` scaled by
/// `31^|b|` plus the hash of `b`, modulo 2^32.
pub proof fn lemma_java_hash_concat(a: Seq<u8>, b: Seq<u8>)
    ensures
        java_hash(a + b) as int == (java_hash(a) as int * pow(31, b.len()) + java_hash(b) as int)
            % 0x1_0000_0000,
    decreases b.len(),
{
    let m: int = 0x1_0000_0000;
    reveal(pow);
    if b.len() == 0 {
        assert(a + b =~= a);
        assert(java_hash(a) as int * pow(31, 0) == java_hash(a) as int);
    } else {
        let b1 = b.drop_last();
        let c = b.last() as int;
        assert((a + b).drop_last() =~= a + b1);
        assert((a + b).last() == b.last());
        lemma_java_hash_concat(a, b1);
        let ha = java_hash(a) as int;
        let hb1 = java_hash(b1) as int;
        let p1 = pow(31, b1.len());
        let x = ha * p1 + hb1;
        assert(pow(31, b.len()) == 31 * p1);
        // hash(a + b) = ((x % m) * 31 + c) % m = (x * 31 + c) % m
        lemma_add_mod_noop_right(c, (x % m) * 31, m);
        lemma_mul_mod_noop_left(x, 31, m);
        lemma_add_mod_noop_right(c, x * 31, m);
        assert(java_hash(a + b) as int == (x * 31 + c) % m);
        // hash(b) = (hb1 * 31 + c) % m, so the right side is (x * 31 + c) % m too
        lemma_add_mod_noop_right(ha * (31 * p1), hb1 * 31 + c, m);
        assert(x * 31 + c == ha * (31 * p1) + (hb1 * 31 + c)) by (nonlinear_arith)
            requires
                x == ha * p1 + hb1,
        ;
    }
}

/// The hash that HotSpot's symbol table files a name under: `h = 31 * h + b`
/// over the name's UTF-8 bytes, with wrapping 32-bit arithmetic.
pub fn hashcode(name: &str) -> (h: u32)
    ensures
        h == java_hash(name.spec_bytes()),
{
    let bytes = name.as_bytes();
    let mut h: u32 = 0;
    let mut i: usize = 0;
    while i < bytes.len()
        invariant
            0 <= i <= bytes@.len(),
            bytes@ == name.spec_bytes(),
            h == java_hash(bytes@.take(i as int)),
        decreases bytes@.len() - i,
    {
        let b = bytes[i];
        let ghost prev = h;
        h = h.wrapping_mul(31).wrapping_add(b as u32);
        proof {
            assert(bytes@.take(i + 1).drop_last() =~= bytes@.take(i as int));
            lemma_step(prev, b);
        }
        i += 1;
    }
    assert(bytes@.take(bytes@.len() as int) =~= bytes@);
    h
}

proof fn lemma_step(h: u32, b: u8)
    ensures
        vstd::wrapping::u32_specs::wrapping_add(
            vstd::wrapping::u32_specs::wrapping_mul(h, 31),
            b as u32,
        ) == ((h as int * 31 + b as int) % 0x1_0000_0000) as u32,
{
    let m = (h as int * 31) % 0x1_0000_0000;
    assert(0 <= m < 0x1_0000_0000);
    assert((m + b as int) % 0x1_0000_0000 == if m + b as int > u32::MAX { m + b as int - 0x1_0000_0000 } else { m + b as int });
    assert((h as int * 31 + b as int) % 0x1_0000_0000 == (m + b as int) % 0x1_0000_0000) by (nonlinear_arith)
        requires m == (h as int * 31) % 0x1_0000_0000;
}


/// The `u64` at `a`.
pub open spec fn rd64(mem: Map<int, u8>, a: int) -> Option<u64> {
    mem_value::<u64>(mem, a)
}

/// The `u32` at `a`.
pub open spec fn rd32(mem: Map<int, u8>, a: int) -> Option<u32> {
    mem_value::<u32>(mem, a)
}

/// The `u16` at `a`.
pub open spec fn rd16(mem: Map<int, u8>, a: int) -> Option<u16> {
    mem_value::<u16>(mem, a)
}

/// What one entry of a symbol-table bucket says about `name`. `None`: the
/// entry cannot be read, or its symbol has the right hash and length but
/// different bytes that are not UTF-8. `Some(Some(sym))`: the entry's symbol
/// `sym` spells `name`. `Some(None)`: it does not.
pub open spec fn symbol_entry(mem: Map<int, u8>, entry: u64, hash: u32, name: Seq<u8>) -> Option<
    Option<u64>,
> {
    let h = rd32(mem, entry as int);
    if h is None {
        None
    } else if h->0 != hash {
        Some(None)
    } else {
        let sym = rd64(mem, entry + 0x10);
        if sym is None {
            None
        } else {
            let len = rd16(mem, sym->0 as int);
            if len is None {
                None
            } else if len->0 as int != name.len() % 0x10000 {
                Some(None)
            } else {
                let bytes = read_seq(mem, sym->0 + 8, len->0 as nat);
                if bytes is None {
                    None
                } else if bytes->0 == name {
                    Some(Some(sym->0))
                } else if valid_utf8(bytes->0) {
                    Some(None)
                } else {
                    None
                }
            }
        }
    }
}

/// The symbol for `name` in the bucket chain that starts at `entry`, looking at
/// no more than `fuel` entries; entries link through the `u64` at offset 8,
/// and 0 ends the chain.
pub open spec fn symbol_chain(mem: Map<int, u8>, entry: u64, hash: u32, name: Seq<u8>, fuel: nat) -> Option<u64>
    decreases fuel,
{
    if entry == 0 || fuel == 0 {
        None
    } else {
        let here = symbol_entry(mem, entry, hash, name);
        if here is None {
            None
        } else if here->0 is Some {
            here->0
        } else {
            let next = rd64(mem, entry + 8);
            if next is None {
                None
            } else {
                symbol_chain(mem, next->0, hash, name, (fuel - 1) as nat)
            }
        }
    }
}

/// The address of the symbol that spells `name` in the JVM's symbol table:
/// the table (whose seed must be 0) holds a bucket count and a bucket array,
/// and `name` is filed in bucket `java_hash(name) % count`.
pub open spec fn symbol_lookup(mem: Map<int, u8>, jvm: u64, o: JvmOffsets, name: Seq<u8>) -> Option<u64> {
    let seed = rd64(mem, jvm + o.symbol_table_seed);
    let table = rd64(mem, jvm + o.symbol_table);
    if seed is None || seed->0 != 0 || table is None {
        None
    } else {
        let len = rd64(mem, table->0 as int);
        let buckets = rd64(mem, table->0 + 8);
        if len is None || buckets is None || len->0 == 0 {
            None
        } else {
            let hash = java_hash(name);
            let first = rd64(mem, buckets->0 + (hash as int % len->0 as int) * 8);
            if first is None {
                None
            } else {
                symbol_chain(mem, first->0, hash, name, u64::MAX as nat)
            }
        }
    }
}

/// Widens a compressed pointer `v`. When the flag at `jvm + flag` is clear
/// the pointer is `v` itself; when it is set, it is `(v << shift) + base`
/// with `base` and `shift` read next to the flag; `None` when a read fails,
/// the shift is outside `0..64` or the sum overflows.
pub open spec fn decode_compressed(
    mem: Map<int, u8>,
    jvm: u64,
    flag: u64,
    base: u64,
    shift: u64,
    v: u32,
) -> Option<u64> {
    let f = mem_value::<bool>(mem, jvm + flag);
    if f is None {
        None
    } else if !f->0 {
        Some(v as u64)
    } else {
        let b = rd64(mem, jvm + base);
        let s = mem_value::<i32>(mem, jvm + shift);
        if b is None || s is None || s->0 < 0 || s->0 >= 64 {
            None
        } else {
            let shifted = (v as u64) << (s->0 as u64);
            if shifted + b->0 > u64::MAX {
                None
            } else {
                Some((shifted + b->0) as u64)
            }
        }
    }
}

/// Narrows a pointer `p`. When the flag is clear this is `p` truncated to 32
/// bits; when it is set, `(p + base)` truncated to 32 bits and shifted right
/// by `shift`; `None` when a read fails, the sum overflows or the shift is
/// outside `0..32`.
pub open spec fn encode_compressed(
    mem: Map<int, u8>,
    jvm: u64,
    flag: u64,
    base: u64,
    shift: u64,
    p: u64,
) -> Option<u32> {
    let f = mem_value::<bool>(mem, jvm + flag);
    if f is None {
        None
    } else if !f->0 {
        Some(p as u32)
    } else {
        let b = rd64(mem, jvm + base);
        let s = mem_value::<i32>(mem, jvm + shift);
        if b is None || s is None || p + b->0 > u64::MAX || s->0 < 0 || s->0 >= 32 {
            None
        } else {
            Some((((p + b->0) as u64) as u32) >> (s->0 as u32))
        }
    }
}

/// An object pointer widened with the JVM's compressed-oops settings.
pub open spec fn decode_oop_at(mem: Map<int, u8>, jvm: u64, o: JvmOffsets, v: u32) -> Option<u64> {
    decode_compressed(mem, jvm, o.use_compressed_oops, o.compressed_oops_base, o.compressed_oops_shift, v)
}

/// An object pointer narrowed with the JVM's compressed-oops settings.
pub open spec fn encode_oop_at(mem: Map<int, u8>, jvm: u64, o: JvmOffsets, p: u64) -> Option<u32> {
    encode_compressed(mem, jvm, o.use_compressed_oops, o.compressed_oops_base, o.compressed_oops_shift, p)
}

/// A klass pointer widened with the JVM's compressed-class-pointer settings.
pub open spec fn decode_klass_at(mem: Map<int, u8>, jvm: u64, o: JvmOffsets, v: u32) -> Option<u64> {
    decode_compressed(
        mem,
        jvm,
        o.use_compressed_class_pointers,
        o.compressed_class_pointers_base,
        o.compressed_class_pointers_shift,
        v,
    )
}

/// A klass pointer narrowed with the JVM's compressed-class-pointer settings.
pub open spec fn encode_klass_at(mem: Map<int, u8>, jvm: u64, o: JvmOffsets, p: u64) -> Option<u32> {
    encode_compressed(
        mem,
        jvm,
        o.use_compressed_class_pointers,
        o.compressed_class_pointers_base,
        o.compressed_class_pointers_shift,
        p,
    )
}

/// The klass whose dictionary entry carries `hash`, in the chain that starts
/// at `entry`, looking at no more than `fuel` entries. An entry holds its hash
/// (a `u64`), the next entry at offset 8 and the klass at offset 0x10.
pub open spec fn dictionary_chain(mem: Map<int, u8>, entry: u64, hash: u32, fuel: nat) -> Option<u64>
    decreases fuel,
{
    if entry == 0 || fuel == 0 {
        None
    } else {
        let h = rd64(mem, entry as int);
        if h is None {
            None
        } else if h->0 == hash as u64 {
            rd64(mem, entry + 0x10)
        } else {
            let next = rd64(mem, entry + 8);
            if next is None {
                None
            } else {
                dictionary_chain(mem, next->0, hash, (fuel - 1) as nat)
            }
        }
    }
}

/// The hash a class is filed under in the system dictionary: the symbol's
/// own hash (at offset 4), mixed with bits 8..39 of the loader's first word
/// when a loader is given.
pub open spec fn loader_hash(mem: Map<int, u8>, symbol: u64, loader: u64) -> Option<u32> {
    let h = rd32(mem, symbol + 4);
    if h is None {
        None
    } else if loader == 0 {
        h
    } else {
        let data = rd64(mem, loader as int);
        if data is None {
            None
        } else {
            Some(h->0 ^ (((data->0 >> 8u64) & 0x7fff_ffffu64) as u32))
        }
    }
}

/// The klass named `name` that `loader` defined, found through the system
/// dictionary; `Some(0)` when the name's symbol is at address 0.
pub open spec fn class_lookup(mem: Map<int, u8>, jvm: u64, o: JvmOffsets, name: Seq<u8>, loader: u64) -> Option<u64> {
    let symbol = symbol_lookup(mem, jvm, o, name);
    if symbol is None {
        None
    } else if symbol->0 == 0 {
        Some(0)
    } else {
        let hash = loader_hash(mem, symbol->0, loader);
        let dict = rd64(mem, jvm + o.system_dictionary);
        if hash is None || dict is None {
            None
        } else {
            let len = rd64(mem, dict->0 as int);
            let table = rd64(mem, dict->0 + 8);
            if len is None || table is None || len->0 == 0 {
                None
            } else {
                let first = rd64(mem, table->0 + (hash->0 as int % len->0 as int) * 8);
                if first is None {
                    None
                } else {
                    dictionary_chain(mem, first->0, hash->0, u64::MAX as nat)
                }
            }
        }
    }
}

/// The system class loader.
pub open spec fn system_loader(mem: Map<int, u8>, jvm: u64, o: JvmOffsets) -> Option<u64> {
    rd64(mem, jvm + o.system_class_loader)
}

/// The klass named `name` that the system class loader defined.
#[verifier::opaque]
pub open spec fn class_by_name(mem: Map<int, u8>, jvm: u64, o: JvmOffsets, name: Seq<u8>) -> Option<u64> {
    let loader = system_loader(mem, jvm, o);
    if loader is None {
        None
    } else {
        class_lookup(mem, jvm, o, name, loader->0)
    }
}

/// The offset (in units of 4 bytes) of the first field among entries
/// `i..count` of a field table at `fields` whose name and signature symbols
/// are `ns` and `ss`; 0 when none is. An entry takes 12 bytes and holds the
/// constant-pool indices of its name (at 2) and signature (at 4) and its byte
/// offset (at 8).
pub open spec fn local_field_scan(
    mem: Map<int, u8>,
    o: JvmOffsets,
    constants: u64,
    fields: int,
    count: u64,
    i: int,
    ns: u64,
    ss: u64,
) -> Option<u16>
    decreases count - i,
{
    if i < 0 || i >= count {
        Some(0)
    } else {
        let field = fields + i * 12;
        let nid = rd16(mem, field + 2);
        let sid = rd16(mem, field + 4);
        if nid is None || sid is None {
            None
        } else {
            let np = rd64(mem, constants + o.cp_base + nid->0 * 8);
            let sp = rd64(mem, constants + o.cp_base + sid->0 * 8);
            if np is None || sp is None {
                None
            } else if np->0 == ns && sp->0 == ss {
                let off = rd16(mem, field + 8);
                if off is None {
                    None
                } else {
                    Some(off->0 >> 2u16)
                }
            } else {
                local_field_scan(mem, o, constants, fields, count, i + 1, ns, ss)
            }
        }
    }
}

/// The field of `klass` itself named by the symbols `ns` and `ss`.
pub open spec fn local_field(mem: Map<int, u8>, o: JvmOffsets, klass: u64, ns: u64, ss: u64) -> Option<u16> {
    let constants = rd64(mem, klass + o.klass_constants);
    let fields = rd64(mem, klass + o.klass_fields);
    let count = rd64(mem, klass + o.klass_fields_count);
    if constants is None || fields is None || count is None || fields->0 + 4 > u64::MAX {
        None
    } else {
        local_field_scan(mem, o, constants->0, fields->0 + 4, count->0, 0, ns, ss)
    }
}

/// The field named by `ns` and `ss` in the interfaces of `klass`, searched
/// depth first, with at most `fuel` levels of nesting.
pub open spec fn interface_field(mem: Map<int, u8>, o: JvmOffsets, klass: u64, ns: u64, ss: u64, fuel: nat) -> Option<u16>
    decreases fuel, 0int,
{
    if fuel == 0 {
        None
    } else {
        let list = rd64(mem, klass + o.klass_interfaces);
        if list is None {
            None
        } else {
            let size = mem_value::<i32>(mem, list->0 as int);
            if size is None || list->0 + 8 > u64::MAX {
                None
            } else {
                interface_scan(mem, o, list->0 + 8, size->0 as int, 0, ns, ss, (fuel - 1) as nat)
            }
        }
    }
}

/// The search of `interface_field` over entries `i..size` of an interface list
/// at `items`.
pub open spec fn interface_scan(
    mem: Map<int, u8>,
    o: JvmOffsets,
    items: int,
    size: int,
    i: int,
    ns: u64,
    ss: u64,
    fuel: nat,
) -> Option<u16>
    decreases fuel, size - i,
{
    if i < 0 || i >= size {
        Some(0)
    } else {
        let iface = rd64(mem, items + i * 8);
        if iface is None {
            None
        } else {
            let local = local_field(mem, o, iface->0, ns, ss);
            if local is None {
                None
            } else if local->0 != 0 {
                local
            } else {
                let inner = interface_field(mem, o, iface->0, ns, ss, fuel);
                if inner is None {
                    None
                } else if inner->0 != 0 {
                    inner
                } else {
                    interface_scan(mem, o, items, size, i + 1, ns, ss, fuel)
                }
            }
        }
    }
}

/// The field named by `ns` and `ss` as `klass` sees it: its own, else its
/// interfaces', else its superclass's; at most `fuel` superclasses up.
pub open spec fn field_lookup(mem: Map<int, u8>, o: JvmOffsets, klass: u64, ns: u64, ss: u64, fuel: nat) -> Option<u16>
    decreases fuel,
{
    if fuel == 0 {
        None
    } else {
        let local = local_field(mem, o, klass, ns, ss);
        if local is None {
            None
        } else if local->0 != 0 {
            local
        } else {
            let inner = interface_field(mem, o, klass, ns, ss, u64::MAX as nat);
            if inner is None {
                None
            } else if inner->0 != 0 {
                inner
            } else {
                let sup = rd64(mem, klass + o.klass_super);
                if sup is None {
                    None
                } else if sup->0 == 0 {
                    Some(0)
                } else {
                    field_lookup(mem, o, sup->0, ns, ss, (fuel - 1) as nat)
                }
            }
        }
    }
}

/// The id of the field of `klass` called `name` with signature `sig`; `None`
/// also when there is no such field.
#[verifier::opaque]
pub open spec fn field_id(mem: Map<int, u8>, jvm: u64, o: JvmOffsets, klass: u64, name: Seq<u8>, sig: Seq<u8>) -> Option<u16> {
    let s = symbol_lookup(mem, jvm, o, sig);
    let n = symbol_lookup(mem, jvm, o, name);
    if s is None || n is None {
        None
    } else {
        let id = field_lookup(mem, o, klass, n->0, s->0, u64::MAX as nat);
        if id is None || id->0 == 0 {
            None
        } else {
            id
        }
    }
}

/// The object that the reference field `id` of `oop` points to.
pub open spec fn object_field(mem: Map<int, u8>, jvm: u64, o: JvmOffsets, oop: u64, id: u16) -> Option<u64> {
    let v = rd32(mem, oop + id);
    if v is None {
        None
    } else {
        decode_oop_at(mem, jvm, o, v->0)
    }
}

/// The object that the static reference field `id` of `klass` points to; static
/// fields live in the klass's mirror object.
pub open spec fn static_object_field(mem: Map<int, u8>, jvm: u64, o: JvmOffsets, klass: u64, id: u16) -> Option<u64> {
    let mirror = rd64(mem, klass + o.klass_java_mirror);
    if mirror is None {
        None
    } else {
        object_field(mem, jvm, o, mirror->0, id)
    }
}

/// The primitive field `id` of `oop`.
pub open spec fn value_field<T: JavaValue>(mem: Map<int, u8>, oop: u64, id: u16) -> Option<T> {
    mem_value::<T>(mem, oop + id)
}

/// The primitive static field `id` of `klass`.
pub open spec fn static_value_field<T: JavaValue>(mem: Map<int, u8>, o: JvmOffsets, klass: u64, id: u16) -> Option<T> {
    let mirror = rd64(mem, klass + o.klass_java_mirror);
    if mirror is None {
        None
    } else {
        value_field::<T>(mem, mirror->0, id)
    }
}

/// The first `n` elements of the object array `array`: compressed references
/// of 4 bytes each from `array + array_base` on, each widened.
pub open spec fn array_elements(mem: Map<int, u8>, jvm: u64, o: JvmOffsets, array: u64, n: nat) -> Option<Seq<u64>>
    decreases n,
{
    if n == 0 {
        Some(Seq::empty())
    } else {
        let front = array_elements(mem, jvm, o, array, (n - 1) as nat);
        let raw = rd32(mem, array + o.array_base + (n - 1) * 4);
        if front is None || raw is None {
            None
        } else {
            let e = decode_oop_at(mem, jvm, o, raw->0);
            if e is None {
                None
            } else {
                Some(front->0.push(e->0))
            }
        }
    }
}


/// Once a prefix of an array cannot be read, no longer prefix can be.
proof fn lemma_array_elements_fail_extends(mem: Map<int, u8>, jvm: u64, o: JvmOffsets, array: u64, k: nat, n: nat)
    requires
        k <= n,
    ensures
        array_elements(mem, jvm, o, array, k) is None ==> array_elements(mem, jvm, o, array, n) is None,
    decreases n - k,
{
    if k < n {
        lemma_array_elements_fail_extends(mem, jvm, o, array, k, (n - 1) as nat);
    }
}

/// Whether two byte strings are equal.
fn bytes_equal(a: &[u8], b: &[u8]) -> (r: bool)
    ensures
        r == (a@ == b@),
{
    if a.len() != b.len() {
        return false;
    }
    let mut i: usize = 0;
    while i < a.len()
        invariant
            a@.len() == b@.len(),
            i <= a@.len(),
            forall|j: int| 0 <= j < i ==> a@[j] == b@[j],
        decreases a@.len() - i,
    {
        if a[i] != b[i] {
            return false;
        }
        i += 1;
    }
    assert(a@ =~= b@);
    true
}

/// Whether `bytes` are valid UTF-8, as `std::str::from_utf8` decides it.
#[verifier::external_body]
fn is_utf8(bytes: &[u8]) -> (r: bool)
    ensures
        r == valid_utf8(bytes@),
{
    std::str::from_utf8(bytes).is_ok()
}

/// The lookups that walk a HotSpot JVM's structures in the memory of the
/// process that runs it. Each comes in two forms. `try_` answers `None` when a
/// read fails, an address computation overflows, or what it looks for is not
/// there (a missing symbol, class or field, an unusable symbol table or
/// dictionary); the client's modules call that form with `?`. The plain form
/// is for a caller that knows the lookup succeeds: it asks exactly that of its
/// caller and gives back the value itself.
#[allow(non_camel_case_types)]
pub trait JVM_Control {
    /// The memory the JVM lives in.
    spec fn jvm_memory(&self) -> Map<int, u8>;

    /// The base address of the JVM's module.
    spec fn jvm_base(&self) -> u64;

    /// The layout of the JVM's structures.
    spec fn jvm_offsets(&self) -> JvmOffsets;

    /// The system class loader.
    fn try_system_class_loader(&self) -> (r: Option<u64>)
        ensures
            r == system_loader(self.jvm_memory(), self.jvm_base(), self.jvm_offsets()),
    ;

    /// The system class loader. Asks that the lookup succeed.
    fn system_class_loader(&self) -> (r: u64)
        requires
            system_loader(self.jvm_memory(), self.jvm_base(), self.jvm_offsets()) is Some,
        ensures
            Some(r) == system_loader(self.jvm_memory(), self.jvm_base(), self.jvm_offsets()),
    ;

    /// The symbol that spells `name`.
    fn try_find_symbol(&self, name: &str) -> (r: Option<u64>)
        ensures
            r == symbol_lookup(self.jvm_memory(), self.jvm_base(), self.jvm_offsets(), name.spec_bytes()),
    ;

    /// The symbol that spells `name`. Asks that the lookup succeed.
    fn find_symbol(&self, name: &str) -> (r: u64)
        requires
            symbol_lookup(self.jvm_memory(), self.jvm_base(), self.jvm_offsets(), name.spec_bytes()) is Some,
        ensures
            Some(r) == symbol_lookup(self.jvm_memory(), self.jvm_base(), self.jvm_offsets(), name.spec_bytes()),
    ;

    /// Widens a compressed object pointer.
    fn try_decode_oop(&self, oop: u32) -> (r: Option<u64>)
        ensures
            r == decode_oop_at(self.jvm_memory(), self.jvm_base(), self.jvm_offsets(), oop),
    ;

    /// Widens a compressed object pointer. Asks that the lookup succeed.
    fn decode_oop(&self, oop: u32) -> (r: u64)
        requires
            decode_oop_at(self.jvm_memory(), self.jvm_base(), self.jvm_offsets(), oop) is Some,
        ensures
            Some(r) == decode_oop_at(self.jvm_memory(), self.jvm_base(), self.jvm_offsets(), oop),
    ;

    /// Narrows an object pointer.
    fn try_encode_oop(&self, oop: u64) -> (r: Option<u32>)
        ensures
            r == encode_oop_at(self.jvm_memory(), self.jvm_base(), self.jvm_offsets(), oop),
    ;

    /// Narrows an object pointer. Asks that the lookup succeed.
    fn encode_oop(&self, oop: u64) -> (r: u32)
        requires
            encode_oop_at(self.jvm_memory(), self.jvm_base(), self.jvm_offsets(), oop) is Some,
        ensures
            Some(r) == encode_oop_at(self.jvm_memory(), self.jvm_base(), self.jvm_offsets(), oop),
    ;

    /// Widens a compressed klass pointer.
    fn try_decode_klass(&self, klass: u32) -> (r: Option<u64>)
        ensures
            r == decode_klass_at(self.jvm_memory(), self.jvm_base(), self.jvm_offsets(), klass),
    ;

    /// Widens a compressed klass pointer. Asks that the lookup succeed.
    fn decode_klass(&self, klass: u32) -> (r: u64)
        requires
            decode_klass_at(self.jvm_memory(), self.jvm_base(), self.jvm_offsets(), klass) is Some,
        ensures
            Some(r) == decode_klass_at(self.jvm_memory(), self.jvm_base(), self.jvm_offsets(), klass),
    ;

    /// Narrows a klass pointer.
    fn try_encode_klass(&self, klass: u64) -> (r: Option<u32>)
        ensures
            r == encode_klass_at(self.jvm_memory(), self.jvm_base(), self.jvm_offsets(), klass),
    ;

    /// Narrows a klass pointer. Asks that the lookup succeed.
    fn encode_klass(&self, klass: u64) -> (r: u32)
        requires
            encode_klass_at(self.jvm_memory(), self.jvm_base(), self.jvm_offsets(), klass) is Some,
        ensures
            Some(r) == encode_klass_at(self.jvm_memory(), self.jvm_base(), self.jvm_offsets(), klass),
    ;

    /// The klass named `name` that `loader` defined.
    fn try_find_class_from_classloader(&self, name: &str, loader: u64) -> (r: Option<u64>)
        ensures
            r == class_lookup(self.jvm_memory(), self.jvm_base(), self.jvm_offsets(), name.spec_bytes(), loader),
    ;

    /// The klass named `name` that `loader` defined. Asks that the lookup succeed.
    fn find_class_from_classloader(&self, name: &str, loader: u64) -> (r: u64)
        requires
            class_lookup(self.jvm_memory(), self.jvm_base(), self.jvm_offsets(), name.spec_bytes(), loader) is Some,
        ensures
            Some(r) == class_lookup(self.jvm_memory(), self.jvm_base(), self.jvm_offsets(), name.spec_bytes(), loader),
    ;

    /// The klass named `name` that the system class loader defined.
    fn try_find_class(&self, name: &str) -> (r: Option<u64>)
        ensures
            r == class_by_name(self.jvm_memory(), self.jvm_base(), self.jvm_offsets(), name.spec_bytes()),
    ;

    /// The klass named `name` that the system class loader defined. Asks that the lookup succeed.
    fn find_class(&self, name: &str) -> (r: u64)
        requires
            class_by_name(self.jvm_memory(), self.jvm_base(), self.jvm_offsets(), name.spec_bytes()) is Some,
        ensures
            Some(r) == class_by_name(self.jvm_memory(), self.jvm_base(), self.jvm_offsets(), name.spec_bytes()),
    ;

    /// The offset of a field that `klass` itself declares; 0 when it declares none so named.
    fn try_find_local_field(&self, klass: u64, namesym: u64, sigsym: u64) -> (r: Option<u16>)
        ensures
            r == local_field(self.jvm_memory(), self.jvm_offsets(), klass, namesym, sigsym),
    ;

    /// The offset of a field that `klass` itself declares; 0 when it declares none so named. Asks that the lookup succeed.
    fn find_local_field(&self, klass: u64, namesym: u64, sigsym: u64) -> (r: u16)
        requires
            local_field(self.jvm_memory(), self.jvm_offsets(), klass, namesym, sigsym) is Some,
        ensures
            Some(r) == local_field(self.jvm_memory(), self.jvm_offsets(), klass, namesym, sigsym),
    ;

    /// The offset of a field that one of the interfaces of `klass` declares; 0 when none does.
    fn try_find_interface_field(&self, klass: u64, namesym: u64, sigsym: u64) -> (r: Option<u16>)
        ensures
            r == interface_field(self.jvm_memory(), self.jvm_offsets(), klass, namesym, sigsym, u64::MAX as nat),
    ;

    /// The offset of a field that one of the interfaces of `klass` declares; 0 when none does. Asks that the lookup succeed.
    fn find_interface_field(&self, klass: u64, namesym: u64, sigsym: u64) -> (r: u16)
        requires
            interface_field(self.jvm_memory(), self.jvm_offsets(), klass, namesym, sigsym, u64::MAX as nat) is Some,
        ensures
            Some(r) == interface_field(self.jvm_memory(), self.jvm_offsets(), klass, namesym, sigsym, u64::MAX as nat),
    ;

    /// The offset of a field of `klass`, its interfaces or its superclasses; 0 when there is none.
    fn try_find_field(&self, klass: u64, name_sym: u64, sig_sym: u64) -> (r: Option<u16>)
        ensures
            r == field_lookup(self.jvm_memory(), self.jvm_offsets(), klass, name_sym, sig_sym, u64::MAX as nat),
    ;

    /// The offset of a field of `klass`, its interfaces or its superclasses; 0 when there is none. Asks that the lookup succeed.
    fn find_field(&self, klass: u64, name_sym: u64, sig_sym: u64) -> (r: u16)
        requires
            field_lookup(self.jvm_memory(), self.jvm_offsets(), klass, name_sym, sig_sym, u64::MAX as nat) is Some,
        ensures
            Some(r) == field_lookup(self.jvm_memory(), self.jvm_offsets(), klass, name_sym, sig_sym, u64::MAX as nat),
    ;

    /// The id of the field of `klass` called `name` with signature `sig`.
    fn try_get_field_id(&self, klass: u64, name: &str, sig: &str) -> (r: Option<u16>)
        ensures
            r == field_id(self.jvm_memory(), self.jvm_base(), self.jvm_offsets(), klass, name.spec_bytes(), sig.spec_bytes()),
    ;

    /// The id of the field of `klass` called `name` with signature `sig`. Asks that the lookup succeed.
    fn get_field_id(&self, klass: u64, name: &str, sig: &str) -> (r: u16)
        requires
            field_id(self.jvm_memory(), self.jvm_base(), self.jvm_offsets(), klass, name.spec_bytes(), sig.spec_bytes()) is Some,
        ensures
            Some(r) == field_id(self.jvm_memory(), self.jvm_base(), self.jvm_offsets(), klass, name.spec_bytes(), sig.spec_bytes()),
    ;

    /// The object a static reference field of `klass` points to.
    fn try_get_static_object_field(&self, klass: u64, field_id: u16) -> (r: Option<u64>)
        ensures
            r == static_object_field(self.jvm_memory(), self.jvm_base(), self.jvm_offsets(), klass, field_id),
    ;

    /// The object a static reference field of `klass` points to. Asks that the lookup succeed.
    fn get_static_object_field(&self, klass: u64, field_id: u16) -> (r: u64)
        requires
            static_object_field(self.jvm_memory(), self.jvm_base(), self.jvm_offsets(), klass, field_id) is Some,
        ensures
            Some(r) == static_object_field(self.jvm_memory(), self.jvm_base(), self.jvm_offsets(), klass, field_id),
    ;

    /// The object a reference field of `oop` points to.
    fn try_get_object_field(&self, oop: u64, field_id: u16) -> (r: Option<u64>)
        ensures
            r == object_field(self.jvm_memory(), self.jvm_base(), self.jvm_offsets(), oop, field_id),
    ;

    /// The object a reference field of `oop` points to. Asks that the lookup succeed.
    fn get_object_field(&self, oop: u64, field_id: u16) -> (r: u64)
        requires
            object_field(self.jvm_memory(), self.jvm_base(), self.jvm_offsets(), oop, field_id) is Some,
        ensures
            Some(r) == object_field(self.jvm_memory(), self.jvm_base(), self.jvm_offsets(), oop, field_id),
    ;

    /// A primitive static field of `klass`.
    fn try_get_static_value_field<T: JavaValue>(&self, klass: u64, field_id: u16) -> (r: Option<T>)
        ensures
            r == static_value_field::<T>(self.jvm_memory(), self.jvm_offsets(), klass, field_id),
    ;

    /// A primitive static field of `klass`. Asks that the lookup succeed.
    fn get_static_value_field<T: JavaValue>(&self, klass: u64, field_id: u16) -> (r: T)
        requires
            static_value_field::<T>(self.jvm_memory(), self.jvm_offsets(), klass, field_id) is Some,
        ensures
            Some(r) == static_value_field::<T>(self.jvm_memory(), self.jvm_offsets(), klass, field_id),
    ;

    /// A primitive field of `oop`.
    fn try_get_value_field<T: JavaValue>(&self, oop: u64, field_id: u16) -> (r: Option<T>)
        ensures
            r == value_field::<T>(self.jvm_memory(), oop, field_id),
    ;

    /// A primitive field of `oop`. Asks that the lookup succeed.
    fn get_value_field<T: JavaValue>(&self, oop: u64, field_id: u16) -> (r: T)
        requires
            value_field::<T>(self.jvm_memory(), oop, field_id) is Some,
        ensures
            Some(r) == value_field::<T>(self.jvm_memory(), oop, field_id),
    ;

    /// The first `count` elements of the object array `array`.
    fn get_object_array_elements(&self, array: u64, count: usize) -> (r: Option<Vec<u64>>)
        ensures
            r matches Some(v) ==> v@.len() == count,
            match r {
                Some(v) => array_elements(
                    self.jvm_memory(),
                    self.jvm_base(),
                    self.jvm_offsets(),
                    array,
                    count as nat,
                ) == Some(v@),
                None => array_elements(
                    self.jvm_memory(),
                    self.jvm_base(),
                    self.jvm_offsets(),
                    array,
                    count as nat,
                ) is None,
            },
    ;
}


impl<M: Readable> GameProcess<M> {
    /// `symbol_entry` for the entry at `entry`.
    fn symbol_at(&self, entry: u64, hash: u32, name: &[u8]) -> (r: Option<Option<u64>>)
        ensures
            r == symbol_entry(self.process.memory(), entry, hash, name@),
    {
        let p = &self.process;
        let h: u32 = read_value(p, entry)?;
        if h != hash {
            return Some(None);
        }
        let sym: u64 = read_value_at(p, entry, 0x10)?;
        let len: u16 = read_value(p, sym)?;
        if len as usize != name.len() % 0x10000 {
            return Some(None);
        }
        let start = match sym.checked_add(8) {
            Some(a) => a,
            None => return None,
        };
        let bytes = p.read_bytes(start, len as usize)?;
        if bytes_equal(bytes.as_slice(), name) {
            Some(Some(sym))
        } else if is_utf8(bytes.as_slice()) {
            Some(None)
        } else {
            None
        }
    }

    /// `symbol_chain` from `first`.
    fn walk_symbols(&self, first: u64, hash: u32, name: &[u8]) -> (r: Option<u64>)
        ensures
            r == symbol_chain(self.process.memory(), first, hash, name@, u64::MAX as nat),
    {
        let ghost mem = self.process.memory();
        let mut entry = first;
        let mut fuel: u64 = u64::MAX;
        loop
            invariant
                mem == self.process.memory(),
                symbol_chain(mem, entry, hash, name@, fuel as nat) == symbol_chain(
                    mem,
                    first,
                    hash,
                    name@,
                    u64::MAX as nat,
                ),
            decreases fuel,
        {
            if entry == 0 || fuel == 0 {
                return None;
            }
            match self.symbol_at(entry, hash, name) {
                None => {
                    return None;
                },
                Some(Some(sym)) => {
                    return Some(sym);
                },
                Some(None) => {},
            }
            let next: Option<u64> = read_value_at(&self.process, entry, 8);
            match next {
                None => {
                    return None;
                },
                Some(n) => {
                    entry = n;
                },
            }
            fuel = fuel - 1;
        }
    }

    /// `dictionary_chain` from `first`.
    fn walk_dictionary(&self, first: u64, hash: u32) -> (r: Option<u64>)
        ensures
            r == dictionary_chain(self.process.memory(), first, hash, u64::MAX as nat),
    {
        let ghost mem = self.process.memory();
        let mut entry = first;
        let mut fuel: u64 = u64::MAX;
        loop
            invariant
                mem == self.process.memory(),
                dictionary_chain(mem, entry, hash, fuel as nat) == dictionary_chain(
                    mem,
                    first,
                    hash,
                    u64::MAX as nat,
                ),
            decreases fuel,
        {
            if entry == 0 || fuel == 0 {
                return None;
            }
            let h: Option<u64> = read_value(&self.process, entry);
            match h {
                None => {
                    return None;
                },
                Some(h) => {
                    if h == hash as u64 {
                        return read_value_at(&self.process, entry, 0x10);
                    }
                },
            }
            let next: Option<u64> = read_value_at(&self.process, entry, 8);
            match next {
                None => {
                    return None;
                },
                Some(n) => {
                    entry = n;
                },
            }
            fuel = fuel - 1;
        }
    }

    /// `local_field` for `klass`.
    fn local_field_of(&self, klass: u64, ns: u64, ss: u64) -> (r: Option<u16>)
        ensures
            r == local_field(self.process.memory(), self.offsets, klass, ns, ss),
    {
        let ghost mem = self.process.memory();
        let p = &self.process;
        let o = self.offsets;
        let constants: u64 = read_value_at(p, klass, o.klass_constants)?;
        let fields: u64 = read_value_at(p, klass, o.klass_fields)?;
        let count: u64 = read_value_at(p, klass, o.klass_fields_count)?;
        let fields = fields.checked_add(4)?;
        let mut i: u64 = 0;
        while i < count
            invariant
                mem == self.process.memory(),
                o == self.offsets,
                i <= count,
                local_field(mem, o, klass, ns, ss) == local_field_scan(
                    mem,
                    o,
                    constants,
                    fields as int,
                    count,
                    i as int,
                    ns,
                    ss,
                ),
            decreases count - i,
        {
            let field = fields.checked_add(i.checked_mul(12)?)?;
            let nid: u16 = read_value_at(&self.process, field, 2)?;
            let sid: u16 = read_value_at(&self.process, field, 4)?;
            let pool = constants.checked_add(o.cp_base)?;
            let np: u64 = read_value_at(&self.process, pool, (nid as u64) * 8)?;
            let sp: u64 = read_value_at(&self.process, pool, (sid as u64) * 8)?;
            if ns == np && ss == sp {
                let off: u16 = read_value_at(&self.process, field, 8)?;
                return Some(off >> 2u16);
            }
            i = i + 1;
        }
        Some(0)
    }

    /// `interface_field` for `klass` with `fuel` levels.
    fn interface_field_of(&self, klass: u64, ns: u64, ss: u64, fuel: u64) -> (r: Option<u16>)
        ensures
            r == interface_field(self.process.memory(), self.offsets, klass, ns, ss, fuel as nat),
        decreases fuel,
    {
        let ghost mem = self.process.memory();
        let o = self.offsets;
        if fuel == 0 {
            return None;
        }
        let list: u64 = read_value_at(&self.process, klass, o.klass_interfaces)?;
        let size: i32 = read_value(&self.process, list)?;
        let items = list.checked_add(8)?;
        let mut i: i32 = 0;
        while i < size
            invariant
                mem == self.process.memory(),
                o == self.offsets,
                0 <= i,
                i <= size || size < 0,
                fuel > 0,
                interface_field(mem, o, klass, ns, ss, fuel as nat) == interface_scan(
                    mem,
                    o,
                    items as int,
                    size as int,
                    i as int,
                    ns,
                    ss,
                    (fuel - 1) as nat,
                ),
            decreases size - i,
        {
            let slot = items.checked_add((i as u64) * 8)?;
            let iface: u64 = read_value(&self.process, slot)?;
            let local = self.local_field_of(iface, ns, ss)?;
            if local != 0 {
                return Some(local);
            }
            let inner = self.interface_field_of(iface, ns, ss, fuel - 1)?;
            if inner != 0 {
                return Some(inner);
            }
            i = i + 1;
        }
        Some(0)
    }

    /// `field_lookup` from `klass` up its superclasses.
    fn field_of(&self, klass: u64, ns: u64, ss: u64) -> (r: Option<u16>)
        ensures
            r == field_lookup(self.process.memory(), self.offsets, klass, ns, ss, u64::MAX as nat),
    {
        let ghost mem = self.process.memory();
        let o = self.offsets;
        let mut k = klass;
        let mut fuel: u64 = u64::MAX;
        loop
            invariant
                mem == self.process.memory(),
                o == self.offsets,
                field_lookup(mem, o, k, ns, ss, fuel as nat) == field_lookup(
                    mem,
                    o,
                    klass,
                    ns,
                    ss,
                    u64::MAX as nat,
                ),
            decreases fuel,
        {
            if fuel == 0 {
                return None;
            }
            let local = self.local_field_of(k, ns, ss)?;
            if local != 0 {
                return Some(local);
            }
            let inner = self.interface_field_of(k, ns, ss, u64::MAX)?;
            if inner != 0 {
                return Some(inner);
            }
            let sup: u64 = read_value_at(&self.process, k, o.klass_super)?;
            if sup == 0 {
                return Some(0);
            }
            k = sup;
            fuel = fuel - 1;
        }
    }

    /// `decode_compressed` with the settings at the given offsets.
    fn decode_with(&self, flag: u64, base: u64, shift: u64, v: u32) -> (r: Option<u64>)
        ensures
            r == decode_compressed(self.process.memory(), self.jvm_ptr, flag, base, shift, v),
    {
        let p = &self.process;
        let f: bool = read_value_at(p, self.jvm_ptr, flag)?;
        if !f {
            return Some(v as u64);
        }
        let b: u64 = read_value_at(p, self.jvm_ptr, base)?;
        let s: i32 = read_value_at(p, self.jvm_ptr, shift)?;
        if s < 0 || s >= 64 {
            return None;
        }
        let shifted = (v as u64) << (s as u64);
        shifted.checked_add(b)
    }

    /// `encode_compressed` with the settings at the given offsets.
    fn encode_with(&self, flag: u64, base: u64, shift: u64, ptr: u64) -> (r: Option<u32>)
        ensures
            r == encode_compressed(self.process.memory(), self.jvm_ptr, flag, base, shift, ptr),
    {
        let p = &self.process;
        let f: bool = read_value_at(p, self.jvm_ptr, flag)?;
        if !f {
            return Some(ptr as u32);
        }
        let b: u64 = read_value_at(p, self.jvm_ptr, base)?;
        let s: i32 = read_value_at(p, self.jvm_ptr, shift)?;
        let sum = ptr.checked_add(b)?;
        if s < 0 || s >= 32 {
            return None;
        }
        Some((sum as u32) >> (s as u32))
    }
}


impl<M: Readable> JVM_Control for GameProcess<M> {
    open spec fn jvm_memory(&self) -> Map<int, u8> {
        self.process.memory()
    }

    open spec fn jvm_base(&self) -> u64 {
        self.jvm_ptr
    }

    open spec fn jvm_offsets(&self) -> JvmOffsets {
        self.offsets
    }

    fn try_system_class_loader(&self) -> (r: Option<u64>) {
        read_value_at(&self.process, self.jvm_ptr, self.offsets.system_class_loader)
    }

    fn try_find_symbol(&self, name: &str) -> (r: Option<u64>) {
        let p = &self.process;
        let o = self.offsets;
        let seed: u64 = read_value_at(p, self.jvm_ptr, o.symbol_table_seed)?;
        if seed != 0 {
            return None;
        }
        let bytes = name.as_bytes();
        let hash = hashcode(name);
        let table: u64 = read_value_at(p, self.jvm_ptr, o.symbol_table)?;
        let len: u64 = read_value(p, table)?;
        let buckets: u64 = read_value_at(p, table, 8)?;
        if len == 0 {
            return None;
        }
        let index = (hash as u64) % len;
        let first: u64 = read_value_at(p, buckets, index.checked_mul(8)?)?;
        self.walk_symbols(first, hash, bytes)
    }

    fn try_decode_oop(&self, oop: u32) -> (r: Option<u64>) {
        let o = self.offsets;
        self.decode_with(o.use_compressed_oops, o.compressed_oops_base, o.compressed_oops_shift, oop)
    }

    fn try_encode_oop(&self, oop: u64) -> (r: Option<u32>) {
        let o = self.offsets;
        self.encode_with(o.use_compressed_oops, o.compressed_oops_base, o.compressed_oops_shift, oop)
    }

    fn try_decode_klass(&self, klass: u32) -> (r: Option<u64>) {
        let o = self.offsets;
        self.decode_with(
            o.use_compressed_class_pointers,
            o.compressed_class_pointers_base,
            o.compressed_class_pointers_shift,
            klass,
        )
    }

    fn try_encode_klass(&self, klass: u64) -> (r: Option<u32>) {
        let o = self.offsets;
        self.encode_with(
            o.use_compressed_class_pointers,
            o.compressed_class_pointers_base,
            o.compressed_class_pointers_shift,
            klass,
        )
    }

    fn try_find_class_from_classloader(&self, name: &str, loader: u64) -> (r: Option<u64>) {
        let p = &self.process;
        let symbol = self.try_find_symbol(name)?;
        if symbol == 0 {
            return Some(0);
        }
        let mut hash: u32 = read_value_at(p, symbol, 4)?;
        if loader != 0 {
            let data: u64 = read_value(p, loader)?;
            hash = hash ^ (((data >> 8u64) & 0x7fff_ffffu64) as u32);
        }
        let dict: u64 = read_value_at(p, self.jvm_ptr, self.offsets.system_dictionary)?;
        let len: u64 = read_value(p, dict)?;
        if len == 0 {
            return None;
        }
        let table: u64 = read_value_at(p, dict, 8)?;
        let index = (hash as u64) % len;
        let first: u64 = read_value_at(p, table, index.checked_mul(8)?)?;
        self.walk_dictionary(first, hash)
    }

    fn try_find_class(&self, name: &str) -> (r: Option<u64>) {
        reveal(class_by_name);
        let loader = self.try_system_class_loader()?;
        self.try_find_class_from_classloader(name, loader)
    }

    fn try_find_local_field(&self, klass: u64, namesym: u64, sigsym: u64) -> (r: Option<u16>) {
        self.local_field_of(klass, namesym, sigsym)
    }

    fn try_find_interface_field(&self, klass: u64, namesym: u64, sigsym: u64) -> (r: Option<u16>) {
        self.interface_field_of(klass, namesym, sigsym, u64::MAX)
    }

    fn try_find_field(&self, klass: u64, name_sym: u64, sig_sym: u64) -> (r: Option<u16>) {
        self.field_of(klass, name_sym, sig_sym)
    }

    fn try_get_field_id(&self, klass: u64, name: &str, sig: &str) -> (r: Option<u16>) {
        reveal(field_id);
        let sig_symbol = self.try_find_symbol(sig)?;
        let name_symbol = self.try_find_symbol(name)?;
        let id = self.try_find_field(klass, name_symbol, sig_symbol)?;
        if id == 0 {
            return None;
        }
        Some(id)
    }

    fn try_get_static_object_field(&self, klass: u64, field_id: u16) -> (r: Option<u64>) {
        let mirror: u64 = read_value_at(&self.process, klass, self.offsets.klass_java_mirror)?;
        self.try_get_object_field(mirror, field_id)
    }

    fn try_get_object_field(&self, oop: u64, field_id: u16) -> (r: Option<u64>) {
        let value: u32 = read_value_at(&self.process, oop, field_id as u64)?;
        self.try_decode_oop(value)
    }

    fn try_get_static_value_field<T: JavaValue>(&self, klass: u64, field_id: u16) -> (r: Option<T>) {
        let mirror: u64 = read_value_at(&self.process, klass, self.offsets.klass_java_mirror)?;
        read_value_at(&self.process, mirror, field_id as u64)
    }

    fn try_get_value_field<T: JavaValue>(&self, oop: u64, field_id: u16) -> (r: Option<T>) {
        read_value_at(&self.process, oop, field_id as u64)
    }

    fn get_object_array_elements(&self, array: u64, count: usize) -> (r: Option<Vec<u64>>) {
        let ghost mem = self.process.memory();
        let o = self.offsets;
        let mut out: Vec<u64> = Vec::new();
        let mut i: usize = 0;
        while i < count
            invariant
                mem == self.process.memory(),
                o == self.offsets,
                i <= count,
                out@.len() == i,
                array_elements(mem, self.jvm_ptr, o, array, i as nat) == Some(out@),
            decreases count - i,
        {
            proof {
                lemma_array_elements_fail_extends(mem, self.jvm_ptr, o, array, (i + 1) as nat, count as nat);
            }
            let start = array.checked_add(o.array_base)?;
            let off = (i as u64).checked_mul(4)?;
            let raw: u32 = read_value_at(&self.process, start, off)?;
            let e = self.try_decode_oop(raw)?;
            out.push(e);
            i = i + 1;
        }
        Some(out)
    }

    fn system_class_loader(&self) -> (r: u64) {
        self.try_system_class_loader().unwrap()
    }

    fn find_symbol(&self, name: &str) -> (r: u64) {
        self.try_find_symbol(name).unwrap()
    }

    fn decode_oop(&self, oop: u32) -> (r: u64) {
        self.try_decode_oop(oop).unwrap()
    }

    fn encode_oop(&self, oop: u64) -> (r: u32) {
        self.try_encode_oop(oop).unwrap()
    }

    fn decode_klass(&self, klass: u32) -> (r: u64) {
        self.try_decode_klass(klass).unwrap()
    }

    fn encode_klass(&self, klass: u64) -> (r: u32) {
        self.try_encode_klass(klass).unwrap()
    }

    fn find_class_from_classloader(&self, name: &str, loader: u64) -> (r: u64) {
        self.try_find_class_from_classloader(name, loader).unwrap()
    }

    fn find_class(&self, name: &str) -> (r: u64) {
        self.try_find_class(name).unwrap()
    }

    fn find_local_field(&self, klass: u64, namesym: u64, sigsym: u64) -> (r: u16) {
        self.try_find_local_field(klass, namesym, sigsym).unwrap()
    }

    fn find_interface_field(&self, klass: u64, namesym: u64, sigsym: u64) -> (r: u16) {
        self.try_find_interface_field(klass, namesym, sigsym).unwrap()
    }

    fn find_field(&self, klass: u64, name_sym: u64, sig_sym: u64) -> (r: u16) {
        self.try_find_field(klass, name_sym, sig_sym).unwrap()
    }

    fn get_field_id(&self, klass: u64, name: &str, sig: &str) -> (r: u16) {
        self.try_get_field_id(klass, name, sig).unwrap()
    }

    fn get_static_object_field(&self, klass: u64, field_id: u16) -> (r: u64) {
        self.try_get_static_object_field(klass, field_id).unwrap()
    }

    fn get_object_field(&self, oop: u64, field_id: u16) -> (r: u64) {
        self.try_get_object_field(oop, field_id).unwrap()
    }

    fn get_static_value_field<T: JavaValue>(&self, klass: u64, field_id: u16) -> (r: T) {
        self.try_get_static_value_field(klass, field_id).unwrap()
    }

    fn get_value_field<T: JavaValue>(&self, oop: u64, field_id: u16) -> (r: T) {
        self.try_get_value_field(oop, field_id).unwrap()
    }
}


impl<M: Writable> GameProcess<M> {
    /// Stores `value` in the primitive field `field_id` of `oop`. It succeeds
    /// exactly when the field's address fits in the address space, every byte
    /// of the field is present and the memory takes the write there; then the
    /// field reads back as `value`. On failure the memory is unchanged.
    pub fn write_field<T: JavaValue>(&mut self, oop: u64, field_id: u16, value: T) -> (ok: bool)
        ensures
            ok == takes_write(old(self).process, oop + field_id, T::width()),
            final(self).process.memory() == store(old(self).process.memory(), ok, oop + field_id, value.encode()),
            forall|a: int, l: nat|
                #[trigger] final(self).process.accepts_write(a, l) == old(self).process.accepts_write(a, l),
            final(self).jvm_ptr == old(self).jvm_ptr,
            final(self).offsets == old(self).offsets,
            ok ==> read_seq(old(self).process.memory(), oop + field_id, T::width()) is Some,
            ok ==> final(self).process.memory() == write_seq(
                old(self).process.memory(),
                oop + field_id,
                value.encode(),
            ),
            !ok ==> final(self).process.memory() == old(self).process.memory(),
            ok ==> value_field::<T>(final(self).process.memory(), oop, field_id) == Some(value),
    {
        let ghost before = self.process.memory();
        match oop.checked_add(field_id as u64) {
            None => false,
            Some(addr) => {
                let bytes = value.to_le();
                let ok = self.process.write_bytes(addr, bytes.as_slice());
                proof {
                    if ok {
                        lemma_field_read_own_write(before, self.process.memory(), oop, field_id, value);
                    }
                }
                ok
            },
        }
    }
}


/// With pointer compression off, narrowing a pointer below 4 GiB and widening
/// it again gives it back, and widening then narrowing any compressed value
/// gives it back.
pub proof fn lemma_uncompressed_round_trip(mem: Map<int, u8>, jvm: u64, flag: u64, base: u64, shift: u64, p: u64, v: u32)
    requires
        mem_value::<bool>(mem, jvm + flag) == Some(false),
    ensures
        p < 0x1_0000_0000 ==> encode_compressed(mem, jvm, flag, base, shift, p) == Some(p as u32),
        p < 0x1_0000_0000 ==> decode_compressed(mem, jvm, flag, base, shift, p as u32) == Some(p),
        decode_compressed(mem, jvm, flag, base, shift, v) == Some(v as u64),
        encode_compressed(mem, jvm, flag, base, shift, v as u64) == Some(v),
{
}

/// With pointer compression on, a zero base and a shift `s` below 32,
/// narrowing a pointer below 4 GiB whose low `s` bits are clear and widening
/// it again gives it back.
pub proof fn lemma_compressed_round_trip(mem: Map<int, u8>, jvm: u64, flag: u64, base: u64, shift: u64, p: u64, s: i32)
    requires
        mem_value::<bool>(mem, jvm + flag) == Some(true),
        rd64(mem, jvm + base) == Some(0u64),
        mem_value::<i32>(mem, jvm + shift) == Some(s),
        0 <= s < 32,
        p < 0x1_0000_0000,
        (p >> (s as u64)) << (s as u64) == p,
    ensures
        encode_compressed(mem, jvm, flag, base, shift, p) == Some(((p as u32) >> (s as u32))),
        decode_compressed(mem, jvm, flag, base, shift, (p as u32) >> (s as u32)) == Some(p),
{
    let su = s as u64;
    assert((((p as u32) >> (su as u32)) as u64) << su == p && ((((p as u32) >> (su as u32)) as u64) << su) + 0u64 <= u64::MAX) by (bit_vector)
        requires
            p < 0x1_0000_0000,
            su < 32,
            (p >> su) << su == p,
    ;
    assert(((p + 0u64) as u64) as u32 == p as u32);
}


/// A field write that took is what the next read of the field gives.
pub proof fn lemma_field_read_own_write<T: JavaValue>(before: Map<int, u8>, after: Map<int, u8>, oop: u64, id: u16, v: T)
    requires
        read_seq(before, oop + id, T::width()) is Some,
        after == write_seq(before, oop + id, v.encode()),
    ensures
        value_field::<T>(after, oop, id) == Some(v),
{
    lemma_value_read_own_write(before, oop + id, v);
}


/// The symbol at `s` spells `name`: its length field holds the length of
/// `name`, and its bytes are those of `name`.
pub open spec fn symbol_spells(mem: Map<int, u8>, s: u64, name: Seq<u8>) -> bool {
    &&& rd16(mem, s as int) matches Some(len) && len as int == name.len()
    &&& read_seq(mem, s + 8, name.len()) == Some(name)
}

/// Whatever a bucket chain yields spells the name looked up.
pub proof fn lemma_symbol_chain_sound(mem: Map<int, u8>, entry: u64, hash: u32, name: Seq<u8>, fuel: nat)
    ensures
        symbol_chain(mem, entry, hash, name, fuel) matches Some(s) ==> symbol_spells(mem, s, name),
    decreases fuel,
{
    if entry != 0 && fuel != 0 {
        let here = symbol_entry(mem, entry, hash, name);
        if here is Some && here->0 is None {
            let next = rd64(mem, entry + 8);
            if next is Some {
                lemma_symbol_chain_sound(mem, next->0, hash, name, (fuel - 1) as nat);
            }
        }
    }
}

/// A symbol that the symbol table yields for `name` spells `name`.
pub proof fn lemma_find_symbol_sound(mem: Map<int, u8>, jvm: u64, o: JvmOffsets, name: Seq<u8>)
    ensures
        symbol_lookup(mem, jvm, o, name) matches Some(s) ==> symbol_spells(mem, s, name),
{
    let table = rd64(mem, jvm + o.symbol_table);
    if table is Some {
        let len = rd64(mem, table->0 as int);
        let buckets = rd64(mem, table->0 + 8);
        if len is Some && buckets is Some && len->0 != 0 {
            let hash = java_hash(name);
            let first = rd64(mem, buckets->0 + (hash as int % len->0 as int) * 8);
            if first is Some {
                lemma_symbol_chain_sound(mem, first->0, hash, name, u64::MAX as nat);
            }
        }
    }
}


/// Entry `i` of the field table at `fields` names the field by the symbols
/// `ns` and `ss` and stores the offset `id` (in units of 4 bytes).
pub open spec fn field_entry_declares(
    mem: Map<int, u8>,
    o: JvmOffsets,
    constants: u64,
    fields: int,
    i: int,
    ns: u64,
    ss: u64,
    id: u16,
) -> bool {
    let field = fields + i * 12;
    &&& rd16(mem, field + 2) matches Some(nid) && rd64(mem, constants + o.cp_base + nid * 8) == Some(ns)
    &&& rd16(mem, field + 4) matches Some(sid) && rd64(mem, constants + o.cp_base + sid * 8) == Some(ss)
    &&& rd16(mem, field + 8) matches Some(off) && off >> 2u16 == id
}

/// A nonzero id that a scan of a field table yields comes from an entry of
/// the scanned range that declares it.
pub proof fn lemma_local_field_scan_sound(
    mem: Map<int, u8>,
    o: JvmOffsets,
    constants: u64,
    fields: int,
    count: u64,
    i: int,
    ns: u64,
    ss: u64,
)
    requires
        0 <= i,
    ensures
        ({
            let r = local_field_scan(mem, o, constants, fields, count, i, ns, ss);
            r is Some && r->0 != 0 ==> exists|j: int|
                i <= j < count && #[trigger] field_entry_declares(mem, o, constants, fields, j, ns, ss, r->0)
        }),
    decreases count - i,
{
    if i < count {
        lemma_local_field_scan_sound(mem, o, constants, fields, count, i + 1, ns, ss);
        let r = local_field_scan(mem, o, constants, fields, count, i, ns, ss);
        if r is Some && r->0 != 0 {
            let id = r->0;
            let field = fields + i * 12;
            let nid = rd16(mem, field + 2);
            let sid = rd16(mem, field + 4);
            if nid is Some && sid is Some {
                let np = rd64(mem, constants + o.cp_base + nid->0 * 8);
                let sp = rd64(mem, constants + o.cp_base + sid->0 * 8);
                if np is Some && sp is Some && np->0 == ns && sp->0 == ss {
                    assert(field_entry_declares(mem, o, constants, fields, i, ns, ss, id));
                }
            }
        }
    }
}

/// A field that a klass's own table yields is declared there: some entry of
/// the table names it by the given symbols and stores its offset.
pub proof fn lemma_local_field_sound(mem: Map<int, u8>, o: JvmOffsets, klass: u64, ns: u64, ss: u64)
    ensures
        ({
            let r = local_field(mem, o, klass, ns, ss);
            let constants = rd64(mem, klass + o.klass_constants)->0;
            let fields = rd64(mem, klass + o.klass_fields)->0 + 4;
            let count = rd64(mem, klass + o.klass_fields_count)->0;
            r is Some && r->0 != 0 ==> exists|j: int|
                0 <= j < count && #[trigger] field_entry_declares(mem, o, constants, fields, j, ns, ss, r->0)
        }),
{
    let constants = rd64(mem, klass + o.klass_constants);
    let fields = rd64(mem, klass + o.klass_fields);
    let count = rd64(mem, klass + o.klass_fields_count);
    if constants is Some && fields is Some && count is Some && fields->0 + 4 <= u64::MAX {
        lemma_local_field_scan_sound(mem, o, constants->0, fields->0 + 4, count->0, 0, ns, ss);
    }
}


/// The `n`-th superclass of `klass` (`klass` itself for 0), each read at the
/// klass's superclass slot.
pub open spec fn superclass_at(mem: Map<int, u8>, o: JvmOffsets, klass: u64, n: nat) -> Option<u64>
    decreases n,
{
    if n == 0 {
        Some(klass)
    } else {
        match rd64(mem, klass + o.klass_super) {
            Some(sup) => superclass_at(mem, o, sup, (n - 1) as nat),
            None => None,
        }
    }
}

/// A field is found however far up the superclasses it is declared: when the
/// superclasses `k1 .. kn` of `klass = k0` are all present and nonzero, none
/// of `k0 .. k(n-1)` has the field itself or through its interfaces, and `kn`
/// has it with a nonzero id (itself, or else through its interfaces), the
/// lookup from `klass` gives that id (for every `fuel` beyond `n`, in
/// particular the one the lookups use).
pub proof fn lemma_field_found_up_the_superclasses(
    mem: Map<int, u8>,
    o: JvmOffsets,
    klass: u64,
    ns: u64,
    ss: u64,
    n: nat,
    id: u16,
    fuel: nat,
)
    requires
        n < fuel,
        forall|i: nat| 1 <= i <= n ==> (#[trigger] superclass_at(mem, o, klass, i) matches Some(k) && k != 0),
        forall|i: nat|
            i < n ==> {
                let k = (#[trigger] superclass_at(mem, o, klass, i))->0;
                &&& local_field(mem, o, k, ns, ss) == Some(0u16)
                &&& interface_field(mem, o, k, ns, ss, u64::MAX as nat) == Some(0u16)
            },
        superclass_at(mem, o, klass, n) matches Some(k) && (local_field(mem, o, k, ns, ss) == Some(id) || (
        local_field(mem, o, k, ns, ss) == Some(0u16) && interface_field(mem, o, k, ns, ss, u64::MAX as nat) == Some(
            id,
        ))),
        id != 0,
    ensures
        field_lookup(mem, o, klass, ns, ss, fuel) == Some(id),
    decreases n,
{
    assert(superclass_at(mem, o, klass, 0) == Some(klass));
    if n > 0 {
        assert(superclass_at(mem, o, klass, 1) is Some);
        let sup = rd64(mem, klass + o.klass_super)->0;
        assert(superclass_at(mem, o, klass, 1) == superclass_at(mem, o, sup, 0));
        assert forall|i: nat| 1 <= i <= (n - 1) as nat implies (#[trigger] superclass_at(mem, o, sup, i) matches Some(
            k,
        ) && k != 0) by {
            assert(superclass_at(mem, o, klass, i + 1) == superclass_at(mem, o, sup, i));
        }
        assert forall|i: nat| i < (n - 1) as nat implies {
            let k = (#[trigger] superclass_at(mem, o, sup, i))->0;
            &&& local_field(mem, o, k, ns, ss) == Some(0u16)
            &&& interface_field(mem, o, k, ns, ss, u64::MAX as nat) == Some(0u16)
        } by {
            assert(superclass_at(mem, o, klass, i + 1) == superclass_at(mem, o, sup, i));
        }
        assert(superclass_at(mem, o, klass, n) == superclass_at(mem, o, sup, (n - 1) as nat));
        lemma_field_found_up_the_superclasses(mem, o, sup, ns, ss, (n - 1) as nat, id, (fuel - 1) as nat);
    }
}

/// Entry `j` of the interface list of `klass`.
pub open spec fn interface_entry(mem: Map<int, u8>, o: JvmOffsets, klass: u64, j: int) -> Option<u64> {
    match rd64(mem, klass + o.klass_interfaces) {
        Some(list) => rd64(mem, list + 8 + j * 8),
        None => None,
    }
}

/// The number of entries of the interface list of `klass`.
pub open spec fn interface_count(mem: Map<int, u8>, o: JvmOffsets, klass: u64) -> Option<i32> {
    match rd64(mem, klass + o.klass_interfaces) {
        Some(list) => mem_value::<i32>(mem, list as int),
        None => None,
    }
}

/// The interface `e` has the field neither itself nor through its own
/// interfaces (searched `fuel` levels deep).
pub open spec fn interface_lacks(mem: Map<int, u8>, o: JvmOffsets, e: Option<u64>, ns: u64, ss: u64, fuel: nat) -> bool {
    match e {
        Some(e) => local_field(mem, o, e, ns, ss) == Some(0u16) && interface_field(mem, o, e, ns, ss, fuel) == Some(
            0u16,
        ),
        None => false,
    }
}

/// The interface `e` has the field with id `id`: itself, or, when it does not
/// declare it, through its own interfaces (searched `fuel` levels deep).
pub open spec fn interface_has(
    mem: Map<int, u8>,
    o: JvmOffsets,
    e: Option<u64>,
    ns: u64,
    ss: u64,
    fuel: nat,
    id: u16,
) -> bool {
    match e {
        Some(e) => local_field(mem, o, e, ns, ss) == Some(id) || (local_field(mem, o, e, ns, ss) == Some(0u16)
            && interface_field(mem, o, e, ns, ss, fuel) == Some(id)),
        None => false,
    }
}

/// Every entry of a klass's interface list is searched, in order: when entry
/// `j` (at any position in the list) has the field with a nonzero id, and no
/// entry before it has the field, the interface lookup gives that id.
pub proof fn lemma_interface_field_found_at_any_entry(
    mem: Map<int, u8>,
    o: JvmOffsets,
    klass: u64,
    ns: u64,
    ss: u64,
    j: int,
    id: u16,
    fuel: nat,
)
    requires
        fuel > 0,
        interface_count(mem, o, klass) matches Some(size) && 0 <= j < size,
        forall|i: int|
            0 <= i < j ==> interface_lacks(mem, o, #[trigger] interface_entry(mem, o, klass, i), ns, ss, (fuel - 1) as nat),
        interface_has(mem, o, interface_entry(mem, o, klass, j), ns, ss, (fuel - 1) as nat, id),
        id != 0,
    ensures
        interface_field(mem, o, klass, ns, ss, fuel) == Some(id),
{
    let list = rd64(mem, klass + o.klass_interfaces)->0;
    let size = interface_count(mem, o, klass)->0;
    assert(list + 8 <= u64::MAX);
    lemma_interface_scan_reaches(mem, o, klass, list + 8, size as int, 0, ns, ss, j, id, (fuel - 1) as nat);
}

/// When no entry of a klass's interface list has the field, the interface
/// lookup answers 0.
pub proof fn lemma_interface_field_absent(mem: Map<int, u8>, o: JvmOffsets, klass: u64, ns: u64, ss: u64, fuel: nat)
    requires
        fuel > 0,
        rd64(mem, klass + o.klass_interfaces) matches Some(list) && list + 8 <= u64::MAX,
        interface_count(mem, o, klass) is Some,
        forall|i: int|
            0 <= i < interface_count(mem, o, klass)->0 ==> interface_lacks(
                mem,
                o,
                #[trigger] interface_entry(mem, o, klass, i),
                ns,
                ss,
                (fuel - 1) as nat,
            ),
    ensures
        interface_field(mem, o, klass, ns, ss, fuel) == Some(0u16),
{
    let list = rd64(mem, klass + o.klass_interfaces)->0;
    let size = interface_count(mem, o, klass)->0;
    lemma_interface_scan_absent(mem, o, klass, list + 8, size as int, 0, ns, ss, (fuel - 1) as nat);
}

/// `interface_scan` from entry `i` reaches entry `j`.
proof fn lemma_interface_scan_reaches(
    mem: Map<int, u8>,
    o: JvmOffsets,
    klass: u64,
    items: int,
    size: int,
    i: int,
    ns: u64,
    ss: u64,
    j: int,
    id: u16,
    fuel: nat,
)
    requires
        rd64(mem, klass + o.klass_interfaces) matches Some(list) && items == list + 8,
        0 <= i <= j < size,
        forall|k: int| 0 <= k < j ==> interface_lacks(mem, o, #[trigger] interface_entry(mem, o, klass, k), ns, ss, fuel),
        interface_has(mem, o, interface_entry(mem, o, klass, j), ns, ss, fuel, id),
        id != 0,
    ensures
        interface_scan(mem, o, items, size, i, ns, ss, fuel) == Some(id),
    decreases j - i,
{
    assert(interface_entry(mem, o, klass, i) == rd64(mem, items + i * 8));
    if i < j {
        lemma_interface_scan_reaches(mem, o, klass, items, size, i + 1, ns, ss, j, id, fuel);
    }
}

/// `interface_scan` from entry `i` finds nothing when no entry from `i` on
/// has the field.
proof fn lemma_interface_scan_absent(
    mem: Map<int, u8>,
    o: JvmOffsets,
    klass: u64,
    items: int,
    size: int,
    i: int,
    ns: u64,
    ss: u64,
    fuel: nat,
)
    requires
        rd64(mem, klass + o.klass_interfaces) matches Some(list) && items == list + 8,
        0 <= i,
        forall|k: int| 0 <= k < size ==> interface_lacks(mem, o, #[trigger] interface_entry(mem, o, klass, k), ns, ss, fuel),
    ensures
        interface_scan(mem, o, items, size, i, ns, ss, fuel) == Some(0u16),
    decreases size - i,
{
    if i < size {
        assert(interface_entry(mem, o, klass, i) == rd64(mem, items + i * 8));
        lemma_interface_scan_absent(mem, o, klass, items, size, i + 1, ns, ss, fuel);
    }
}

/// A klass's own interfaces are searched before its superclass: when the
/// klass does not declare the field itself but its interfaces have it, the
/// field lookup gives that id, whatever the superclasses hold.
pub proof fn lemma_field_from_interfaces_before_superclass(
    mem: Map<int, u8>,
    o: JvmOffsets,
    klass: u64,
    ns: u64,
    ss: u64,
    id: u16,
    fuel: nat,
)
    requires
        fuel > 0,
        local_field(mem, o, klass, ns, ss) == Some(0u16),
        interface_field(mem, o, klass, ns, ss, u64::MAX as nat) == Some(id),
        id != 0,
    ensures
        field_lookup(mem, o, klass, ns, ss, fuel) == Some(id),
{
}

/// When neither `klass` nor any of its superclasses `k1 .. kn` (the last of
/// which has no superclass) has the field, itself or through its interfaces,
/// the field lookup answers 0.
pub proof fn lemma_field_absent_up_the_superclasses(
    mem: Map<int, u8>,
    o: JvmOffsets,
    klass: u64,
    ns: u64,
    ss: u64,
    n: nat,
    fuel: nat,
)
    requires
        n < fuel,
        forall|i: nat| 1 <= i <= n ==> (#[trigger] superclass_at(mem, o, klass, i) matches Some(k) && k != 0),
        forall|i: nat|
            i <= n ==> {
                let k = (#[trigger] superclass_at(mem, o, klass, i))->0;
                &&& local_field(mem, o, k, ns, ss) == Some(0u16)
                &&& interface_field(mem, o, k, ns, ss, u64::MAX as nat) == Some(0u16)
            },
        superclass_at(mem, o, klass, n + 1) == Some(0u64),
    ensures
        field_lookup(mem, o, klass, ns, ss, fuel) == Some(0u16),
    decreases n,
{
    assert(superclass_at(mem, o, klass, 0) == Some(klass));
    let sup = rd64(mem, klass + o.klass_super)->0;
    assert(superclass_at(mem, o, klass, 1) is Some);
    assert(superclass_at(mem, o, klass, 1) == superclass_at(mem, o, sup, 0));
    if n > 0 {
        assert forall|i: nat| 1 <= i <= (n - 1) as nat implies (#[trigger] superclass_at(mem, o, sup, i) matches Some(
            k,
        ) && k != 0) by {
            assert(superclass_at(mem, o, klass, i + 1) == superclass_at(mem, o, sup, i));
        }
        assert forall|i: nat| i <= (n - 1) as nat implies {
            let k = (#[trigger] superclass_at(mem, o, sup, i))->0;
            &&& local_field(mem, o, k, ns, ss) == Some(0u16)
            &&& interface_field(mem, o, k, ns, ss, u64::MAX as nat) == Some(0u16)
        } by {
            assert(superclass_at(mem, o, klass, i + 1) == superclass_at(mem, o, sup, i));
        }
        assert(superclass_at(mem, o, klass, n + 1) == superclass_at(mem, o, sup, n));
        lemma_field_absent_up_the_superclasses(mem, o, sup, ns, ss, (n - 1) as nat, (fuel - 1) as nat);
    }
}

/// Entry `i` of a bucket chain that starts at `first`, following the link at
/// offset 8 of each entry.
pub open spec fn chain_entry(mem: Map<int, u8>, first: u64, i: nat) -> Option<u64>
    decreases i,
{
    if i == 0 {
        Some(first)
    } else {
        match rd64(mem, first + 8) {
            Some(next) => chain_entry(mem, next, (i - 1) as nat),
            None => None,
        }
    }
}

/// The chain entry `e` is present, nonzero, and carries a 32-bit hash other
/// than `hash`.
pub open spec fn other_symbol_entry(mem: Map<int, u8>, e: Option<u64>, hash: u32) -> bool {
    match e {
        Some(e) => e != 0 && match rd32(mem, e as int) {
            Some(h) => h != hash,
            None => false,
        },
        None => false,
    }
}

/// The entries `0 .. i` of the chain at `first` are present, nonzero, and
/// carry a 32-bit hash other than `hash`.
pub open spec fn symbol_chain_skips(mem: Map<int, u8>, first: u64, hash: u32, i: nat) -> bool {
    forall|k: nat| k < i ==> other_symbol_entry(mem, #[trigger] chain_entry(mem, first, k), hash)
}

/// A symbol chain walk reaches entry `i` past entries of other hashes.
proof fn lemma_symbol_chain_reaches(
    mem: Map<int, u8>,
    first: u64,
    hash: u32,
    name: Seq<u8>,
    i: nat,
    s: u64,
    fuel: nat,
)
    requires
        i < fuel,
        symbol_chain_skips(mem, first, hash, i),
        chain_entry(mem, first, i) matches Some(entry) && entry != 0 && rd32(mem, entry as int) == Some(hash)
            && rd64(mem, entry + 0x10) == Some(s),
        symbol_spells(mem, s, name),
    ensures
        symbol_chain(mem, first, hash, name, fuel) == Some(s),
    decreases i,
{
    assert(chain_entry(mem, first, 0) == Some(first));
    if i == 0 {
        assert(symbol_entry(mem, first, hash, name) == Some(Some(s)));
    } else {
        let next = rd64(mem, first + 8)->0;
        assert(chain_entry(mem, first, 1) == chain_entry(mem, next, 0));
        assert(symbol_entry(mem, first, hash, name) == Some(None::<u64>));
        assert forall|k: nat| k < (i - 1) as nat implies other_symbol_entry(
            mem,
            #[trigger] chain_entry(mem, next, k),
            hash,
        ) by {
            assert(chain_entry(mem, first, k + 1) == chain_entry(mem, next, k));
        }
        assert(chain_entry(mem, first, i) == chain_entry(mem, next, (i - 1) as nat));
        lemma_symbol_chain_reaches(mem, next, hash, name, (i - 1) as nat, s, (fuel - 1) as nat);
    }
}

/// The symbol table is searched in bucket `java_hash(name) mod n`, for a
/// table of any length `n > 0` whose seed is 0, along that bucket's chain:
/// when entry `i` of the chain carries the name's hash and a symbol that
/// spells the name, and the entries before it carry other hashes, the lookup
/// yields that symbol.
pub proof fn lemma_find_symbol_in_its_bucket(
    mem: Map<int, u8>,
    jvm: u64,
    o: JvmOffsets,
    name: Seq<u8>,
    table: u64,
    n: u64,
    buckets: u64,
    first: u64,
    i: nat,
    s: u64,
)
    requires
        rd64(mem, jvm + o.symbol_table_seed) == Some(0u64),
        rd64(mem, jvm + o.symbol_table) == Some(table),
        rd64(mem, table as int) == Some(n),
        n > 0,
        rd64(mem, table + 8) == Some(buckets),
        rd64(mem, buckets + (java_hash(name) as int % n as int) * 8) == Some(first),
        i < u64::MAX,
        symbol_chain_skips(mem, first, java_hash(name), i),
        chain_entry(mem, first, i) matches Some(entry) && entry != 0 && rd32(mem, entry as int) == Some(
            java_hash(name),
        ) && rd64(mem, entry + 0x10) == Some(s),
        symbol_spells(mem, s, name),
    ensures
        symbol_lookup(mem, jvm, o, name) == Some(s),
{
    lemma_symbol_chain_reaches(mem, first, java_hash(name), name, i, s, u64::MAX as nat);
}

/// The symbol table's seed must be 0: with any other seed nothing is found.
pub proof fn lemma_find_symbol_needs_zero_seed(mem: Map<int, u8>, jvm: u64, o: JvmOffsets, name: Seq<u8>)
    requires
        rd64(mem, jvm + o.symbol_table_seed) matches Some(seed) && seed != 0,
    ensures
        symbol_lookup(mem, jvm, o, name) is None,
{
}

/// The dictionary entry `e` is present, nonzero, and carries a hash other
/// than `hash`.
pub open spec fn other_dictionary_entry(mem: Map<int, u8>, e: Option<u64>, hash: u32) -> bool {
    match e {
        Some(e) => e != 0 && match rd64(mem, e as int) {
            Some(h) => h != hash as u64,
            None => false,
        },
        None => false,
    }
}

/// The entries `0 .. i` of the dictionary chain at `first` are present,
/// nonzero, and carry a hash other than `hash`.
pub open spec fn dictionary_chain_skips(mem: Map<int, u8>, first: u64, hash: u32, i: nat) -> bool {
    forall|k: nat| k < i ==> other_dictionary_entry(mem, #[trigger] chain_entry(mem, first, k), hash)
}

/// A dictionary chain walk reaches entry `i` past entries of other hashes.
proof fn lemma_dictionary_chain_reaches(mem: Map<int, u8>, first: u64, hash: u32, i: nat, klass: u64, fuel: nat)
    requires
        i < fuel,
        dictionary_chain_skips(mem, first, hash, i),
        chain_entry(mem, first, i) matches Some(entry) && entry != 0 && rd64(mem, entry as int) == Some(
            hash as u64,
        ) && rd64(mem, entry + 0x10) == Some(klass),
    ensures
        dictionary_chain(mem, first, hash, fuel) == Some(klass),
    decreases i,
{
    assert(chain_entry(mem, first, 0) == Some(first));
    if i > 0 {
        let next = rd64(mem, first + 8)->0;
        assert(chain_entry(mem, first, 1) == chain_entry(mem, next, 0));
        assert forall|k: nat| k < (i - 1) as nat implies other_dictionary_entry(
            mem,
            #[trigger] chain_entry(mem, next, k),
            hash,
        ) by {
            assert(chain_entry(mem, first, k + 1) == chain_entry(mem, next, k));
        }
        assert(chain_entry(mem, first, i) == chain_entry(mem, next, (i - 1) as nat));
        lemma_dictionary_chain_reaches(mem, next, hash, (i - 1) as nat, klass, (fuel - 1) as nat);
    }
}

/// The system dictionary is searched in bucket `hash mod n`, for a dictionary
/// of any length `n > 0`, along that bucket's chain. `hash` is the symbol's
/// own hash (at offset 4), mixed with bits 8..39 of the loader's first word
/// `loader_word` when a loader is given. When entry `i` of the chain carries
/// `hash` and the entries before it carry other hashes, the lookup yields the
/// klass entry `i` holds.
pub proof fn lemma_find_class_in_its_bucket(
    mem: Map<int, u8>,
    jvm: u64,
    o: JvmOffsets,
    name: Seq<u8>,
    loader: u64,
    loader_word: u64,
    symbol: u64,
    symbol_hash: u32,
    hash: u32,
    dict: u64,
    n: u64,
    table: u64,
    first: u64,
    i: nat,
    klass: u64,
)
    requires
        symbol_lookup(mem, jvm, o, name) == Some(symbol),
        symbol != 0,
        rd32(mem, symbol + 4) == Some(symbol_hash),
        loader == 0 ==> hash == symbol_hash,
        loader != 0 ==> rd64(mem, loader as int) == Some(loader_word) && hash == symbol_hash ^ (((loader_word
            >> 8u64) & 0x7fff_ffffu64) as u32),
        rd64(mem, jvm + o.system_dictionary) == Some(dict),
        rd64(mem, dict as int) == Some(n),
        n > 0,
        rd64(mem, dict + 8) == Some(table),
        rd64(mem, table + (hash as int % n as int) * 8) == Some(first),
        i < u64::MAX,
        dictionary_chain_skips(mem, first, hash, i),
        chain_entry(mem, first, i) matches Some(entry) && entry != 0 && rd64(mem, entry as int) == Some(
            hash as u64,
        ) && rd64(mem, entry + 0x10) == Some(klass),
    ensures
        class_lookup(mem, jvm, o, name, loader) == Some(klass),
{
    assert(loader_hash(mem, symbol, loader) == Some(hash));
    lemma_dictionary_chain_reaches(mem, first, hash, i, klass, u64::MAX as nat);
}

} // verus!
