use fsblob::codec::CodecKind;
use fsblob::pack::{append_entry, build_fs, pad_to, PackedFile};

fn file(name: &str, payload: &[u8]) -> PackedFile {
    PackedFile { name: name.to_string(), payload: payload.to_vec() }
}

#[test]
fn append_entry_writes_length_name_and_payload() {
    let mut out = vec![0x55];
    let length = append_entry(&mut out, "a.txt", &[1, 2, 3], CodecKind::InProcess);
    assert_eq!(length, Some(0x13));
    let mut expected = vec![0x55, 0, 0, 0, 0x13];
    expected.extend_from_slice(b"a.txt\0\0\0\0\0\0\0");
    expected.extend_from_slice(&[1, 2, 3]);
    assert_eq!(out, expected);
}

#[test]
fn append_entry_with_empty_payload_has_length_sixteen() {
    let mut out = Vec::new();
    assert_eq!(append_entry(&mut out, "e", &[], CodecKind::InProcess), Some(0x10));
    assert_eq!(out, b"\0\0\0\x10e\0\0\0\0\0\0\0\0\0\0\0");
}

#[test]
fn pad_to_fills_with_ff() {
    let mut out = vec![1, 2];
    pad_to(&mut out, 5);
    assert_eq!(out, [1, 2, 0xFF, 0xFF, 0xFF]);
}

#[test]
fn pad_to_leaves_a_long_enough_buffer_alone() {
    let mut out = vec![1, 2, 3];
    pad_to(&mut out, 3);
    assert_eq!(out, [1, 2, 3]);
    pad_to(&mut out, 2);
    assert_eq!(out, [1, 2, 3]);
    pad_to(&mut out, 0);
    assert_eq!(out, [1, 2, 3]);
}

#[test]
fn build_of_no_files_is_empty() {
    assert_eq!(build_fs(&[], None, CodecKind::InProcess), Ok(Vec::new()));
}

#[test]
fn build_of_no_files_with_minimum_size_is_all_fill() {
    assert_eq!(build_fs(&[], Some(4), CodecKind::InProcess), Ok(vec![0xFF; 4]));
}

#[test]
fn build_of_one_file() {
    let files = [file("hello.txt", &[0xDE, 0xAD, 0xBE, 0xEF])];
    let built = build_fs(&files, None, CodecKind::InProcess);
    let mut expected = vec![0, 0, 0, 0x14];
    expected.extend_from_slice(b"hello.txt\0\0\0");
    expected.extend_from_slice(&[0xDE, 0xAD, 0xBE, 0xEF]);
    assert_eq!(built, Ok(expected));
}

#[test]
fn build_keeps_the_order_of_the_files() {
    let files = [file("b", &[2, 2]), file("a", &[1]), file("c", &[])];
    let built = build_fs(&files, None, CodecKind::InProcess).unwrap();
    let mut expected = Vec::new();
    expected.extend_from_slice(b"\0\0\0\x12b\0\0\0\0\0\0\0\0\0\0\0\x02\x02");
    expected.extend_from_slice(b"\0\0\0\x11a\0\0\0\0\0\0\0\0\0\0\0\x01");
    expected.extend_from_slice(b"\0\0\0\x10c\0\0\0\0\0\0\0\0\0\0\0");
    assert_eq!(built, expected);
}

#[test]
fn build_with_a_large_payload_stores_its_length_big_endian() {
    let payload = vec![7u8; 0x0102_03];
    let built = build_fs(&[file("big", &payload)], None, CodecKind::InProcess).unwrap();
    assert_eq!(built.len(), 16 + 0x0102_03);
    assert_eq!(&built[..4], &[0x00, 0x01, 0x02, 0x13]);
    assert_eq!(&built[16..], &payload[..]);
}

#[test]
fn build_with_minimum_size_above_the_content_is_exactly_that_long() {
    let built = build_fs(&[file("a", &[1, 2])], Some(64), CodecKind::InProcess).unwrap();
    assert_eq!(built.len(), 64);
    assert_eq!(&built[..18], b"\0\0\0\x12a\0\0\0\0\0\0\0\0\0\0\0\x01\x02");
    assert!(built[18..].iter().all(|&b| b == 0xFF));
}

#[test]
fn build_with_minimum_size_one_above_the_content_adds_one_fill_byte() {
    let built = build_fs(&[file("a", &[1, 2])], Some(19), CodecKind::InProcess).unwrap();
    assert_eq!(built.len(), 19);
    assert_eq!(built[18], 0xFF);
}

#[test]
fn build_with_minimum_size_at_or_below_the_content_adds_nothing() {
    let plain = build_fs(&[file("a", &[1, 2])], None, CodecKind::InProcess).unwrap();
    assert_eq!(plain.len(), 18);
    assert_eq!(build_fs(&[file("a", &[1, 2])], Some(18), CodecKind::InProcess).unwrap(), plain);
    assert_eq!(build_fs(&[file("a", &[1, 2])], Some(5), CodecKind::InProcess).unwrap(), plain);
    assert_eq!(build_fs(&[file("a", &[1, 2])], Some(0), CodecKind::InProcess).unwrap(), plain);
}

#[test]
fn build_cuts_a_long_name_to_twelve_bytes() {
    let files = [file("a-very-long-file-name.bin", &[9])];
    let built = build_fs(&files, None, CodecKind::InProcess).unwrap();
    assert_eq!(built, b"\0\0\0\x11a-very-long-\x09");
}

#[test]
fn build_under_the_subprocess_codec_patches_the_legacy_name() {
    let built = build_fs(&[file("tile1.tg~", &[1])], None, CodecKind::Subprocess).unwrap();
    assert_eq!(built, b"\0\0\0\x11tile1.tg~\0\x6C\0\x01");
    // bytes 10 and 11 of the name field, which starts at 4
    assert_eq!(built[4 + 10], 0x6C);
    assert_eq!(built[4 + 11], 0x00);
}

#[test]
fn build_under_the_in_process_codec_does_not_patch_the_legacy_name() {
    let built = build_fs(&[file("tile1.tg~", &[1])], None, CodecKind::InProcess).unwrap();
    assert_eq!(built, b"\0\0\0\x11tile1.tg~\0\0\0\x01");
}

#[test]
fn build_under_the_subprocess_codec_patches_no_other_name() {
    let files = [file("tile1.tg", &[1]), file("tile1.tg~", &[2]), file("tile1.tg~x", &[3])];
    let built = build_fs(&files, None, CodecKind::Subprocess).unwrap();
    let mut expected = Vec::new();
    expected.extend_from_slice(b"\0\0\0\x11tile1.tg\0\0\0\0\x01");
    expected.extend_from_slice(b"\0\0\0\x11tile1.tg~\0\x6C\0\x02");
    expected.extend_from_slice(b"\0\0\0\x11tile1.tg~x\0\0\x03");
    assert_eq!(built, expected);
}

#[test]
fn build_stores_files_of_the_same_name_one_after_the_other() {
    let files = [file("same", &[1]), file("same", &[2, 2])];
    let built = build_fs(&files, None, CodecKind::InProcess).unwrap();
    let mut expected = Vec::new();
    expected.extend_from_slice(b"\0\0\0\x11same\0\0\0\0\0\0\0\0\x01");
    expected.extend_from_slice(b"\0\0\0\x12same\0\0\0\0\0\0\0\0\x02\x02");
    assert_eq!(built, expected);
}
