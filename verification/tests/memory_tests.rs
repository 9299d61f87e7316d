use hestia::game::{read_value, read_value_at, MemoryImage, Readable, Writable};

fn image() -> MemoryImage {
    MemoryImage::new(0x100, (0u8..32).collect()).unwrap()
}

#[test]
fn reads_inside_the_image() {
    let m = image();
    assert_eq!(m.read_bytes(0x100, 4), Some(vec![0, 1, 2, 3]));
    assert_eq!(m.read_bytes(0x11c, 4), Some(vec![28, 29, 30, 31]));
    assert_eq!(m.read_bytes(0x5000, 0), Some(vec![]));
}

#[test]
fn refuses_reads_outside_the_image() {
    let m = image();
    assert_eq!(m.read_bytes(0xff, 2), None);
    assert_eq!(m.read_bytes(0x11d, 4), None);
    assert_eq!(m.read_bytes(0x200, 1), None);
}

#[test]
fn decodes_little_endian_values() {
    let m = image();
    assert_eq!(read_value::<MemoryImage, u64>(&m, 0x100), Some(0x0706050403020100));
    assert_eq!(read_value::<MemoryImage, u32>(&m, 0x104), Some(0x07060504));
    assert_eq!(read_value::<MemoryImage, u16>(&m, 0x10a), Some(0x0b0a));
    assert_eq!(read_value::<MemoryImage, i8>(&m, 0x101), Some(1));
    assert_eq!(read_value::<MemoryImage, bool>(&m, 0x100), Some(false));
    assert_eq!(read_value::<MemoryImage, bool>(&m, 0x102), Some(true));
    assert_eq!(read_value_at::<MemoryImage, i32>(&m, 0x100, 0x10), Some(0x13121110));
    assert_eq!(read_value_at::<MemoryImage, u64>(&m, u64::MAX, 1), None);
}

#[test]
fn reads_back_what_was_written() {
    let mut m = image();
    assert!(m.write_bytes(0x108, &[0xaa, 0xbb]));
    assert_eq!(m.read_bytes(0x107, 4), Some(vec![7, 0xaa, 0xbb, 10]));
    assert!(!m.write_bytes(0x11f, &[1, 2]));
    assert_eq!(m.read_bytes(0x11f, 1), Some(vec![31]));
    assert!(m.write_bytes(0x400, &[]));
}

#[test]
fn negative_values_round_trip() {
    let mut m = image();
    assert!(m.write_bytes(0x110, &(-2i32).to_le_bytes()));
    assert_eq!(read_value::<MemoryImage, i32>(&m, 0x110), Some(-2));
    assert!(m.write_bytes(0x118, &[0xfe]));
    assert_eq!(read_value::<MemoryImage, i8>(&m, 0x118), Some(-2));
}

#[test]
fn image_must_fit_the_address_space() {
    assert!(MemoryImage::new(u64::MAX - 4, vec![0; 4]).is_some());
    assert!(MemoryImage::new(u64::MAX - 4, vec![0; 5]).is_none());
}
