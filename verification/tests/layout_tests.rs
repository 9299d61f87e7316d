use hestia::layout::parse_offsets;

const SAMPLE: &str = "0x100\n0x108\n0x110\n0x118\n0x120\n0x128\n0x130\n0x138\n0x140\n0x148\n\
                      8 16 24 32 40 48 64 16\n";

#[test]
fn parses_eighteen_numbers_in_field_order() {
    let o = parse_offsets(SAMPLE.as_bytes()).unwrap();
    assert_eq!(o.system_class_loader, 0x100);
    assert_eq!(o.symbol_table_seed, 0x108);
    assert_eq!(o.symbol_table, 0x110);
    assert_eq!(o.system_dictionary, 0x118);
    assert_eq!(o.use_compressed_oops, 0x120);
    assert_eq!(o.compressed_oops_base, 0x128);
    assert_eq!(o.compressed_oops_shift, 0x130);
    assert_eq!(o.use_compressed_class_pointers, 0x138);
    assert_eq!(o.compressed_class_pointers_base, 0x140);
    assert_eq!(o.compressed_class_pointers_shift, 0x148);
    assert_eq!(o.klass_constants, 8);
    assert_eq!(o.klass_fields, 16);
    assert_eq!(o.klass_fields_count, 24);
    assert_eq!(o.klass_interfaces, 32);
    assert_eq!(o.klass_super, 40);
    assert_eq!(o.klass_java_mirror, 48);
    assert_eq!(o.cp_base, 64);
    assert_eq!(o.array_base, 16);
}

#[test]
fn accepts_any_separators_and_hex_case() {
    let text = "\t 0xAbC\r\n1 2 3 4 5 6 7 8 9 10 11 12 13 14 15 16 0x11";
    let o = parse_offsets(text.as_bytes()).unwrap();
    assert_eq!(o.system_class_loader, 0xabc);
    assert_eq!(o.symbol_table_seed, 1);
    assert_eq!(o.array_base, 0x11);
}

#[test]
fn takes_the_largest_u64_and_refuses_more() {
    let mut text = String::from("18446744073709551615 0xffffffffffffffff");
    for _ in 0..16 {
        text.push_str(" 0");
    }
    let o = parse_offsets(text.as_bytes()).unwrap();
    assert_eq!(o.system_class_loader, u64::MAX);
    assert_eq!(o.symbol_table_seed, u64::MAX);
    let over = text.replacen("18446744073709551615", "18446744073709551616", 1);
    assert_eq!(parse_offsets(over.as_bytes()).map(|o| o.cp_base), None);
    let over_hex = text.replacen("0xffffffffffffffff", "0x10000000000000000", 1);
    assert_eq!(parse_offsets(over_hex.as_bytes()).map(|o| o.cp_base), None);
}

#[test]
fn refuses_the_wrong_count_or_a_bad_token() {
    let seventeen = "1 2 3 4 5 6 7 8 9 10 11 12 13 14 15 16 17";
    assert!(parse_offsets(seventeen.as_bytes()).is_none());
    let nineteen = "1 2 3 4 5 6 7 8 9 10 11 12 13 14 15 16 17 18 19";
    assert!(parse_offsets(nineteen.as_bytes()).is_none());
    let bad = "1 2 3 4 5 6 7 8 9 10 11 12 13 14 15 16 17 1g";
    assert!(parse_offsets(bad.as_bytes()).is_none());
    let bare_prefix = "0x 2 3 4 5 6 7 8 9 10 11 12 13 14 15 16 17 18";
    assert!(parse_offsets(bare_prefix.as_bytes()).is_none());
    let hex_without_prefix = "ff 2 3 4 5 6 7 8 9 10 11 12 13 14 15 16 17 18";
    assert!(parse_offsets(hex_without_prefix.as_bytes()).is_none());
    assert!(parse_offsets(b"").is_none());
}
