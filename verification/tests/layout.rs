use binrw::{BinReaderExt, BinWrite};
use fsblob::codec::CodecKind;
use fsblob::entry::entry_length;
use fsblob::layout::{get_be32, put_be32, END_MARK, FILL_BYTE, HEADER_LEN, NAME_LEN};
use fsblob::name::make_name_field;
use fsblob::pack::append_entry;
use fsblob::unpack::{read_entry, Step};
use std::io::Cursor;

#[test]
fn the_numbers_of_the_format() {
    assert_eq!(HEADER_LEN, 0x10);
    assert_eq!(NAME_LEN, 12);
    assert_eq!(END_MARK, 0xFFFF_FFFF);
    assert_eq!(FILL_BYTE, 0xFF);
}

#[test]
fn put_be32_writes_the_most_significant_byte_first() {
    let mut out = vec![0xEE];
    put_be32(&mut out, 0x1234_5678);
    assert_eq!(out, [0xEE, 0x12, 0x34, 0x56, 0x78]);
}

#[test]
fn put_be32_of_the_extremes() {
    let mut out = Vec::new();
    put_be32(&mut out, 0);
    put_be32(&mut out, u32::MAX);
    put_be32(&mut out, 0x10);
    assert_eq!(out, [0, 0, 0, 0, 0xFF, 0xFF, 0xFF, 0xFF, 0, 0, 0, 0x10]);
}

#[test]
fn get_be32_reads_at_the_position() {
    let data = [0xEE, 0x12, 0x34, 0x56, 0x78, 0xEE];
    assert_eq!(get_be32(&data, 1), 0x1234_5678);
    assert_eq!(get_be32(&data, 0), 0xEE12_3456);
    assert_eq!(get_be32(&data, 2), 0x3456_78EE);
}

#[test]
fn get_be32_reads_back_what_put_be32_wrote() {
    let values = [
        0u32,
        1,
        0x10,
        0xFF,
        0x100,
        0xFFFF,
        0x1_0000,
        0x00FF_FF00,
        0x8000_0000,
        u32::MAX - 1,
        u32::MAX,
    ];
    for v in values {
        let mut out = Vec::new();
        put_be32(&mut out, v);
        assert_eq!(out.len(), 4);
        assert_eq!(get_be32(&out, 0), v);
    }
}

#[test]
fn put_be32_writes_what_binrw_writes() {
    for v in [0u32, 0x10, 0x1234_5678, 0xDEAD_BEEF, u32::MAX] {
        let mut ours = Vec::new();
        put_be32(&mut ours, v);
        let mut theirs = Cursor::new(Vec::new());
        v.write_be(&mut theirs).unwrap();
        assert_eq!(ours, theirs.into_inner());
    }
}

#[test]
fn get_be32_reads_what_binrw_reads() {
    let data = [0x01u8, 0x02, 0x03, 0x04, 0xFF, 0xFE, 0xFD, 0xFC];
    let mut cursor = Cursor::new(&data);
    let first: u32 = cursor.read_be().unwrap();
    let second: u32 = cursor.read_be().unwrap();
    assert_eq!(get_be32(&data, 0), first);
    assert_eq!(get_be32(&data, 4), second);
}

#[test]
fn entry_length_adds_sixteen() {
    assert_eq!(entry_length(0), Some(0x10));
    assert_eq!(entry_length(1), Some(0x11));
    assert_eq!(entry_length(0x1234), Some(0x1244));
}

#[test]
fn entry_length_stays_below_the_end_mark() {
    assert_eq!(entry_length(0xFFFF_FFEE), Some(0xFFFF_FFFE));
    assert_eq!(entry_length(0xFFFF_FFEF), None);
    assert_eq!(entry_length(0xFFFF_FFF0), None);
    assert_eq!(entry_length(usize::MAX), None);
}

#[test]
fn an_entry_starts_with_what_binrw_writes_for_length_and_name() {
    let payload = [9u8, 8, 7, 6, 5];
    let name = make_name_field("hello.txt");
    let mut theirs = Cursor::new(Vec::new());
    (payload.len() as u32 + 0x10).write_be(&mut theirs).unwrap();
    name.write_be(&mut theirs).unwrap();
    let mut expected = theirs.into_inner();
    assert_eq!(expected.len(), 16);
    expected.extend_from_slice(&payload);

    let mut ours = Vec::new();
    assert_eq!(append_entry(&mut ours, "hello.txt", &payload, CodecKind::InProcess), Some(0x15));
    assert_eq!(ours, expected);
}

#[test]
fn read_entry_reads_length_and_name_as_binrw_does() {
    let mut data = Vec::new();
    append_entry(&mut data, "some-name.bin", &[1, 2, 3], CodecKind::InProcess);
    let mut cursor = Cursor::new(&data);
    let length: u32 = cursor.read_be().unwrap();
    let name: [u8; 12] = cursor.read_be().unwrap();
    match read_entry(&data, 0) {
        Step::Entry(entry) => {
            assert_eq!(entry.length, length);
            assert_eq!(entry.name, name);
            assert_eq!(entry.payload, &data[cursor.position() as usize..]);
        }
        Step::Stop(stop) => panic!("no entry read: {:?}", stop),
    }
}
