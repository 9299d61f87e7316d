//! The text form of a JVM layout: the eighteen offsets of `JvmOffsets`, in
//! the order of its fields, written as decimal or `0x` hexadecimal numbers
//! and separated by spaces, tabs or line breaks.
use crate::game::JvmOffsets;
use vstd::prelude::*;

verus! {

/// Whether `c` separates two numbers: a space, a tab, a line feed or a
/// carriage return.
pub open spec fn is_space(c: u8) -> bool {
    c == 0x20 || c == 0x09 || c == 0x0a || c == 0x0d
}

/// The value of the digit `c` in base `base` (10 or 16; hexadecimal digits in
/// either case).
pub open spec fn digit(c: u8, base: nat) -> Option<nat> {
    if 0x30 <= c <= 0x39 {
        Some((c - 0x30) as nat)
    } else if base == 16 && 0x61 <= c <= 0x66 {
        Some((c - 0x61 + 10) as nat)
    } else if base == 16 && 0x41 <= c <= 0x46 {
        Some((c - 0x41 + 10) as nat)
    } else {
        None
    }
}

/// Whether every byte of `t` is a digit in base `base`.
pub open spec fn all_digits(t: Seq<u8>, base: nat) -> bool {
    forall|i: int| 0 <= i < t.len() ==> #[trigger] digit(t[i], base) is Some
}

/// The number the digits `t` spell in base `base`.
pub open spec fn digits_value(t: Seq<u8>, base: nat) -> nat
    decreases t.len(),
{
    if t.len() == 0 {
        0
    } else {
        digits_value(t.drop_last(), base) * base + digit(t.last(), base)->0
    }
}

/// The number a token spells: `0x` and hexadecimal digits, or decimal
/// digits; `None` when it spells none or one above `u64::MAX`.
pub open spec fn number(t: Seq<u8>) -> Option<u64> {
    let hex = t.len() >= 2 && t[0] == 0x30 && t[1] == 0x78;
    let ds = if hex { t.subrange(2, t.len() as int) } else { t };
    let base: nat = if hex { 16 } else { 10 };
    if ds.len() > 0 && all_digits(ds, base) && digits_value(ds, base) <= u64::MAX {
        Some(digits_value(ds, base) as u64)
    } else {
        None
    }
}

/// A longer run of digits never spells a smaller number.
proof fn lemma_digits_value_grows(t: Seq<u8>, base: nat, k: int)
    requires
        base >= 1,
        0 <= k <= t.len(),
    ensures
        digits_value(t.take(k), base) <= digits_value(t, base),
    decreases t.len(),
{
    if k < t.len() {
        lemma_digits_value_grows(t.drop_last(), base, k);
        assert(t.drop_last().take(k) =~= t.take(k));
        let v = digits_value(t.drop_last(), base);
        assert(v * base >= v) by (nonlinear_arith)
            requires
                base >= 1,
        ;
    } else {
        assert(t.take(k) =~= t);
    }
}

/// The number spelled by `s[start..end]`.
fn parse_number(s: &[u8], start: usize, end: usize) -> (r: Option<u64>)
    requires
        start <= end <= s@.len(),
    ensures
        r == number(s@.subrange(start as int, end as int)),
{
    let ghost t = s@.subrange(start as int, end as int);
    let hex = end - start >= 2 && s[start] == 0x30 && s[start + 1] == 0x78;
    assert(hex == (t.len() >= 2 && t[0] == 0x30 && t[1] == 0x78));
    let first: usize = if hex { start + 2 } else { start };
    let base: u64 = if hex { 16 } else { 10 };
    let ghost ds = s@.subrange(first as int, end as int);
    assert(ds =~= (if hex { t.subrange(2, t.len() as int) } else { t }));
    if first == end {
        return None;
    }
    let mut acc: u64 = 0;
    let mut k: usize = first;
    while k < end
        invariant
            first <= k <= end <= s@.len(),
            t == s@.subrange(start as int, end as int),
            ds == s@.subrange(first as int, end as int),
            ds == (if hex { t.subrange(2, t.len() as int) } else { t }),
            hex == (t.len() >= 2 && t[0] == 0x30 && t[1] == 0x78),
            base == (if hex { 16u64 } else { 10u64 }),
            ds.len() > 0,
            all_digits(ds.take(k - first), base as nat),
            acc == digits_value(ds.take(k - first), base as nat),
        decreases end - k,
    {
        let c = s[k];
        let d: u64 = if 0x30 <= c && c <= 0x39 {
            (c - 0x30) as u64
        } else if base == 16 && 0x61 <= c && c <= 0x66 {
            (c - 0x61 + 10) as u64
        } else if base == 16 && 0x41 <= c && c <= 0x46 {
            (c - 0x41 + 10) as u64
        } else {
            assert(ds[k - first] == c);
            assert(digit(ds[k - first], base as nat) is None);
            return None;
        };
        let ghost next = ds.take(k + 1 - first);
        assert(next.drop_last() =~= ds.take(k - first));
        assert(next.last() == c);
        assert(digit(c, base as nat) == Some(d as nat));
        let lim: u64 = (u64::MAX - d) / base;
        if acc > lim {
            assert(acc * base + d > u64::MAX) by (nonlinear_arith)
                requires
                    acc > lim,
                    lim as int == (u64::MAX as int - d as int) / (base as int),
                    base > 0,
            ;
            proof {
                lemma_digits_value_grows(ds, base as nat, k + 1 - first);
                assert(digits_value(next, base as nat) == acc * base + d);
            }
            return None;
        }
        assert(acc * base + d <= u64::MAX) by (nonlinear_arith)
            requires
                acc <= lim,
                lim as int == (u64::MAX as int - d as int) / (base as int),
                base > 0,
                d <= u64::MAX,
        ;
        assert forall|i: int| 0 <= i < next.len() implies #[trigger] digit(next[i], base as nat) is Some by {
            if i < next.len() - 1 {
                assert(next[i] == ds.take(k - first)[i]);
            }
        }
        acc = acc * base + d;
        k = k + 1;
    }
    assert(ds.take(end - first) =~= ds);
    Some(acc)
}

/// Reading `s` from the left: the tokens (maximal runs of bytes that are not
/// separators) that are complete, and the one still being read at its end.
pub open spec fn scan(s: Seq<u8>) -> (Seq<Seq<u8>>, Seq<u8>)
    decreases s.len(),
{
    if s.len() == 0 {
        (Seq::empty(), Seq::empty())
    } else {
        let before = scan(s.drop_last());
        if !is_space(s.last()) {
            (before.0, before.1.push(s.last()))
        } else if before.1.len() == 0 {
            before
        } else {
            (before.0.push(before.1), Seq::empty())
        }
    }
}

/// The tokens of `s`, in order.
pub open spec fn tokens(s: Seq<u8>) -> Seq<Seq<u8>> {
    let r = scan(s);
    if r.1.len() == 0 {
        r.0
    } else {
        r.0.push(r.1)
    }
}

/// The layout whose fields, in declaration order, are `v[0]` to `v[17]`.
pub open spec fn offsets_from(v: Seq<u64>) -> JvmOffsets {
    JvmOffsets {
        system_class_loader: v[0],
        symbol_table_seed: v[1],
        symbol_table: v[2],
        system_dictionary: v[3],
        use_compressed_oops: v[4],
        compressed_oops_base: v[5],
        compressed_oops_shift: v[6],
        use_compressed_class_pointers: v[7],
        compressed_class_pointers_base: v[8],
        compressed_class_pointers_shift: v[9],
        klass_constants: v[10],
        klass_fields: v[11],
        klass_fields_count: v[12],
        klass_interfaces: v[13],
        klass_super: v[14],
        klass_java_mirror: v[15],
        cp_base: v[16],
        array_base: v[17],
    }
}

/// The layout that `text` writes down: exactly eighteen tokens, each a number.
pub open spec fn layout_of(text: Seq<u8>) -> Option<JvmOffsets> {
    let ts = tokens(text);
    if ts.len() == 18 && forall|k: int| 0 <= k < 18 ==> #[trigger] number(ts[k]) is Some {
        Some(offsets_from(Seq::new(18, |k: int| number(ts[k])->0)))
    } else {
        None
    }
}

/// The numbers of the tokens `ts`, where every one is a number.
spec fn all_numbers(ts: Seq<Seq<u8>>) -> bool {
    forall|k: int| 0 <= k < ts.len() ==> #[trigger] number(ts[k]) is Some
}

/// Reads a layout in its text form; `None` unless the text holds exactly
/// eighteen tokens and each is a number that fits in 64 bits.
pub fn parse_offsets(text: &[u8]) -> (r: Option<JvmOffsets>)
    ensures
        r == layout_of(text@),
{
    let mut values: Vec<u64> = Vec::new();
    let mut all_ok: bool = true;
    let mut start: usize = 0;
    let mut i: usize = 0;
    while i < text.len()
        invariant
            start <= i <= text@.len(),
            scan(text@.take(i as int)).1 == text@.subrange(start as int, i as int),
            values@.len() == scan(text@.take(i as int)).0.len(),
            all_ok == all_numbers(scan(text@.take(i as int)).0),
            forall|k: int|
                0 <= k < values@.len() && #[trigger] number(scan(text@.take(i as int)).0[k]) is Some
                    ==> number(scan(text@.take(i as int)).0[k]) == Some(values@[k]),
        decreases text@.len() - i,
    {
        let ghost before = scan(text@.take(i as int));
        let ghost now = text@.take(i + 1);
        assert(now.drop_last() =~= text@.take(i as int));
        assert(now.last() == text@[i as int]);
        let c = text[i];
        if c == 0x20 || c == 0x09 || c == 0x0a || c == 0x0d {
            if start < i {
                let n = parse_number(text, start, i);
                match n {
                    Some(v) => values.push(v),
                    None => {
                        values.push(0);
                        all_ok = false;
                    },
                }
                proof {
                    let after = before.0.push(before.1);
                    assert(scan(now).0 == after);
                    assert forall|k: int| 0 <= k < values@.len() && #[trigger] number(after[k]) is Some
                        implies number(after[k]) == Some(values@[k]) by {
                        if k < values@.len() - 1 {
                            assert(after[k] == before.0[k]);
                        }
                    }
                    if all_ok {
                        assert forall|k: int| 0 <= k < after.len() implies #[trigger] number(after[k]) is Some by {
                            if k < after.len() - 1 {
                                assert(after[k] == before.0[k]);
                            }
                        }
                    } else {
                        if n is None {
                            assert(number(after[after.len() - 1]) is None);
                        } else {
                            let k0 = choose|k: int| 0 <= k < before.0.len() && !(number(before.0[k]) is Some);
                            assert(after[k0] == before.0[k0]);
                        }
                    }
                }
            }
            start = i + 1;
        } else {
            proof {
                assert(text@.subrange(start as int, i + 1) =~= text@.subrange(start as int, i as int).push(c));
            }
        }
        i = i + 1;
    }
    assert(text@.take(text@.len() as int) =~= text@);
    if start < text.len() {
        let ghost before = scan(text@);
        let n = parse_number(text, start, text.len());
        match n {
            Some(v) => values.push(v),
            None => {
                values.push(0);
                all_ok = false;
            },
        }
        proof {
            let after = before.0.push(before.1);
            assert(tokens(text@) == after);
            assert forall|k: int| 0 <= k < values@.len() && #[trigger] number(after[k]) is Some
                implies number(after[k]) == Some(values@[k]) by {
                if k < values@.len() - 1 {
                    assert(after[k] == before.0[k]);
                }
            }
            if all_ok {
                assert forall|k: int| 0 <= k < after.len() implies #[trigger] number(after[k]) is Some by {
                    if k < after.len() - 1 {
                        assert(after[k] == before.0[k]);
                    }
                }
            } else {
                if n is None {
                    assert(number(after[after.len() - 1]) is None);
                } else {
                    let k0 = choose|k: int| 0 <= k < before.0.len() && !(number(before.0[k]) is Some);
                    assert(after[k0] == before.0[k0]);
                }
            }
        }
    }
    let ghost ts = tokens(text@);
    assert(values@.len() == ts.len());
    assert(all_ok == all_numbers(ts));
    if !all_ok || values.len() != 18 {
        return None;
    }
    let r = JvmOffsets {
        system_class_loader: values[0],
        symbol_table_seed: values[1],
        symbol_table: values[2],
        system_dictionary: values[3],
        use_compressed_oops: values[4],
        compressed_oops_base: values[5],
        compressed_oops_shift: values[6],
        use_compressed_class_pointers: values[7],
        compressed_class_pointers_base: values[8],
        compressed_class_pointers_shift: values[9],
        klass_constants: values[10],
        klass_fields: values[11],
        klass_fields_count: values[12],
        klass_interfaces: values[13],
        klass_super: values[14],
        klass_java_mirror: values[15],
        cp_base: values[16],
        array_base: values[17],
    };
    proof {
        let v = Seq::new(18, |k: int| number(ts[k])->0);
        assert forall|k: int| 0 <= k < 18 implies #[trigger] v[k] == values@[k] by {
            assert(number(ts[k]) is Some);
        }
        assert(v =~= values@);
    }
    Some(r)
}

} // verus!
