//! What holds of packing and unpacking together.

use crate::codec::CodecKind;
use crate::entry::{entries_bytes, entry_name, fits, lemma_entry_for_wf, EntryView};
use crate::find::lemma_first_index;
use crate::layout::{
    be32, be32_value, lemma_be32_of_be32_value, lemma_be32_value_of_be32, END_MARK, FILL_BYTE,
    HEADER_LEN, NAME_LEN,
};
use crate::name::{legacy_name, name_field, storable, stored_name};
use crate::pack::{archive_bytes, entries_of, filled, PackedFile};
use crate::unpack::{lemma_step_entry, scan, scan_from, step_at, ScanView, StepView, Stop};
use vstd::prelude::*;
use vstd::utf8::{encode_utf8, is_ascii_chars, is_ascii_chars_encode_utf8};

verus! {

/// A name of twelve bytes or more is stored as its first twelve bytes.
pub proof fn lemma_long_name_is_cut(name: Seq<u8>)
    requires
        name.len() >= NAME_LEN,
    ensures
        name_field(name) == name.take(NAME_LEN as int),
{
}

/// A name shorter than twelve bytes is stored followed by zero bytes up to
/// twelve.
pub proof fn lemma_short_name_is_padded(name: Seq<u8>)
    requires
        name.len() < NAME_LEN,
    ensures
        name_field(name) == name + Seq::new((NAME_LEN - name.len()) as nat, |i: int| 0u8),
{
    assert(name_field(name) =~= name + Seq::new((NAME_LEN - name.len()) as nat, |i: int| 0u8));
}

/// A name of at most twelve bytes, none of them zero, is read back from its
/// name field as it was.
pub proof fn lemma_name_is_recovered(name: Seq<u8>)
    requires
        storable(name),
    ensures
        stored_name(name_field(name)) == name,
{
    let field = name_field(name);
    assert(field.len() == NAME_LEN);
    assert forall|k: int| 0 <= k < name.len() implies field[k] != 0 by {
        assert(field[k] == name[k]);
    }
    lemma_first_index(field, 0u8, name.len() as int);
    assert(field.take(name.len() as int) =~= name);
}

/// An ASCII name of at most twelve characters, none of them NUL, is stored
/// byte for character and read back as it was.
pub proof fn lemma_ascii_name_is_recovered(name: Seq<char>)
    requires
        is_ascii_chars(name),
        name.len() <= NAME_LEN,
        forall|k: int| 0 <= k < name.len() ==> name[k] != '\0',
    ensures
        encode_utf8(name) == Seq::new(name.len(), |k: int| name[k] as u8),
        storable(encode_utf8(name)),
        stored_name(name_field(encode_utf8(name))) == encode_utf8(name),
{
    is_ascii_chars_encode_utf8(name);
    let bytes = encode_utf8(name);
    assert(bytes =~= Seq::new(name.len(), |k: int| name[k] as u8));
    assert forall|k: int| 0 <= k < bytes.len() implies bytes[k] != 0 by {
        assert(name[k] != '\0');
        assert(bytes[k] == name[k] as u8);
    }
    lemma_name_is_recovered(bytes);
}

/// The legacy patch does not change the name that is read back: the name
/// field of `tile1.tg~` holds a zero byte before the patched bytes.
pub proof fn lemma_patch_keeps_name(codec: CodecKind)
    ensures
        stored_name(entry_name(legacy_name(), codec)) == legacy_name(),
{
    let name = legacy_name();
    let field = entry_name(name, codec);
    assert(field.len() == NAME_LEN);
    assert forall|k: int| 0 <= k < name.len() implies field[k] != 0 by {
        assert(field[k] == name[k]);
    }
    assert(field[9] == 0);
    lemma_first_index(field, 0u8, 9);
    assert(field.take(9) =~= name);
}

/// What stands at a position of an archive depends only on the bytes from
/// that position on.
pub proof fn lemma_step_shift(front: Seq<u8>, data: Seq<u8>, pos: int)
    requires
        0 <= pos,
    ensures
        step_at(front + data, front.len() + pos) == step_at(data, pos),
{
    let all = front + data;
    let at = front.len() + pos;
    if data.len() - pos >= HEADER_LEN {
        assert(all.subrange(at, at + 4) =~= data.subrange(pos, pos + 4));
        let length = be32_value(data.subrange(pos, pos + 4));
        assert(all.subrange(at + 4, at + HEADER_LEN) =~= data.subrange(pos + 4, pos + HEADER_LEN));
        if HEADER_LEN <= length <= data.len() - pos {
            assert(all.subrange(at + HEADER_LEN, at + length) =~= data.subrange(
                pos + HEADER_LEN,
                pos + length,
            ));
        }
    }
}

/// A scan depends only on the bytes from its starting position on: bytes
/// put in front move the place where it stops and change nothing else.
pub proof fn lemma_scan_shift(front: Seq<u8>, data: Seq<u8>, pos: int)
    requires
        0 <= pos,
    ensures
        scan_from(front + data, front.len() + pos) == (ScanView {
            entries: scan_from(data, pos).entries,
            stop: scan_from(data, pos).stop,
            stopped_at: front.len() + scan_from(data, pos).stopped_at,
        }),
    decreases data.len() - pos,
{
    lemma_step_shift(front, data, pos);
    match step_at(data, pos) {
        StepView::Stop(_) => {},
        StepView::Entry(entry) => {
            lemma_scan_shift(front, data, pos + entry.length);
        },
    }
}

/// An archive that starts with a well-formed entry is unpacked into that
/// entry and what the bytes behind it are unpacked into.
pub proof fn lemma_scan_entry_first(entry: EntryView, rest: Seq<u8>)
    requires
        entry.wf(),
    ensures
        scan(entry.bytes() + rest) == (ScanView {
            entries: seq![entry] + scan(rest).entries,
            stop: scan(rest).stop,
            stopped_at: entry.length + scan(rest).stopped_at,
        }),
{
    let data = entry.bytes() + rest;
    assert(entry.bytes().len() == entry.length);
    assert(data.subrange(0, 4) =~= be32(entry.length));
    lemma_be32_value_of_be32(entry.length);
    assert(data.subrange(4, HEADER_LEN as int) =~= entry.name);
    assert(data.subrange(HEADER_LEN as int, entry.length as int) =~= entry.payload);
    assert(step_at(data, 0) == StepView::Entry(entry));
    lemma_scan_shift(entry.bytes(), rest, 0);
}

/// Unpacking what was packed: a run of well-formed entries, followed by any
/// bytes, is unpacked into those entries and what the bytes behind them are
/// unpacked into.
pub proof fn lemma_scan_entries(entries: Seq<EntryView>, rest: Seq<u8>)
    requires
        forall|i: int| 0 <= i < entries.len() ==> (#[trigger] entries[i]).wf(),
    ensures
        scan(entries_bytes(entries) + rest) == (ScanView {
            entries: entries + scan(rest).entries,
            stop: scan(rest).stop,
            stopped_at: entries_bytes(entries).len() + scan(rest).stopped_at,
        }),
    decreases entries.len(),
{
    if entries.len() == 0 {
        assert(entries_bytes(entries) + rest =~= rest);
        assert(entries + scan(rest).entries =~= scan(rest).entries);
    } else {
        let first = entries[0];
        let others = entries.drop_first();
        let tail = entries_bytes(others) + rest;
        assert(entries_bytes(entries) + rest =~= first.bytes() + tail);
        lemma_scan_entries(others, rest);
        lemma_scan_entry_first(first, tail);
        assert(seq![first] + (others + scan(rest).entries) =~= entries + scan(rest).entries);
    }
}

/// A scan leaves nothing out: the entries that it reads are, laid out one
/// behind the other, the archive from where the scan started to where it
/// stopped.
pub proof fn lemma_scan_is_contiguous(data: Seq<u8>, pos: int)
    requires
        0 <= pos <= data.len(),
    ensures
        pos <= scan_from(data, pos).stopped_at <= data.len(),
        entries_bytes(scan_from(data, pos).entries) == data.subrange(
            pos,
            scan_from(data, pos).stopped_at,
        ),
    decreases data.len() - pos,
{
    match step_at(data, pos) {
        StepView::Stop(_) => {
            assert(data.subrange(pos, pos) =~= Seq::<u8>::empty());
        },
        StepView::Entry(entry) => {
            lemma_step_entry(data, pos);
            let next = pos + entry.length;
            let rest = scan_from(data, next);
            lemma_scan_is_contiguous(data, next);
            lemma_be32_of_be32_value(data.subrange(pos, pos + 4));
            assert(entry.bytes() =~= data.subrange(pos, next));
            let all = seq![entry] + rest.entries;
            assert(all[0] == entry);
            assert(all.drop_first() =~= rest.entries);
            assert(entries_bytes(all) =~= data.subrange(pos, rest.stopped_at));
        },
    }
}

/// An archive whose entries are followed by a header with the end mark as
/// its length is unpacked into those entries and no more: the scan stops at
/// that header, whatever stands in its name field and behind it.
pub proof fn lemma_end_mark_stops(entries: Seq<EntryView>, name: Seq<u8>, rest: Seq<u8>)
    requires
        forall|i: int| 0 <= i < entries.len() ==> (#[trigger] entries[i]).wf(),
        name.len() == NAME_LEN,
    ensures
        scan(entries_bytes(entries) + (be32(END_MARK) + name + rest)) == (ScanView {
            entries,
            stop: Stop::EndMark,
            stopped_at: entries_bytes(entries).len() as int,
        }),
{
    let head = be32(END_MARK);
    let tail = head + name + rest;
    lemma_be32_value_of_be32(END_MARK);
    assert(tail.len() >= HEADER_LEN);
    assert(tail.subrange(0, 4) =~= head);
    assert(step_at(tail, 0) == StepView::Stop(Stop::EndMark));
    lemma_scan_entries(entries, tail);
    assert(entries + Seq::<EntryView>::empty() =~= entries);
}

/// Filling reaches the minimum size: bytes filled up to a size that they
/// fall short of are exactly that many, start as before, and are `0xFF`
/// from there on.
pub proof fn lemma_filled(bytes: Seq<u8>, min_size: usize)
    requires
        bytes.len() < min_size,
    ensures
        filled(bytes, Some(min_size)).len() == min_size,
        filled(bytes, Some(min_size)).take(bytes.len() as int) == bytes,
        forall|k: int|
            bytes.len() <= k < min_size ==> filled(bytes, Some(min_size))[k] == FILL_BYTE,
{
    assert(filled(bytes, Some(min_size)).take(bytes.len() as int) =~= bytes);
}

/// An archive built with a minimum size above the size of its entries is
/// exactly that long: its entries, then `0xFF` up to the end.
pub proof fn lemma_padding(files: Seq<PackedFile>, min_size: usize, codec: CodecKind)
    requires
        entries_bytes(entries_of(files, codec)).len() < min_size,
    ensures
        archive_bytes(files, Some(min_size), codec).len() == min_size,
        archive_bytes(files, Some(min_size), codec).take(
            entries_bytes(entries_of(files, codec)).len() as int,
        ) == entries_bytes(entries_of(files, codec)),
        forall|k: int|
            entries_bytes(entries_of(files, codec)).len() <= k < min_size ==> archive_bytes(
                files,
                Some(min_size),
                codec,
            )[k] == FILL_BYTE,
{
    lemma_filled(entries_bytes(entries_of(files, codec)), min_size);
}

/// Fill bytes hold no entry: a scan of them stops at once, cleanly.
pub proof fn lemma_scan_fill(fill: Seq<u8>)
    requires
        forall|k: int| 0 <= k < fill.len() ==> fill[k] == FILL_BYTE,
    ensures
        scan(fill).entries == Seq::<EntryView>::empty(),
        scan(fill).stopped_at == 0,
        scan(fill).stop == if fill.len() < HEADER_LEN {
            Stop::EndOfData
        } else {
            Stop::EndMark
        },
{
    if fill.len() >= HEADER_LEN {
        let head = fill.subrange(0, 4);
        assert(head[0] == FILL_BYTE && head[1] == FILL_BYTE && head[2] == FILL_BYTE && head[3]
            == FILL_BYTE);
        assert(be32_value(head) == END_MARK);
    }
}

/// Packing and then unpacking gives back what was packed.
///
/// Where every payload can be stored, the archive built from `files`, with
/// or without a minimum size, is unpacked without failure into one entry
/// for each file, in the same order, with the payload of that file. A name
/// of at most twelve bytes, none of them zero, is read back as it was; so
/// is, then, an ASCII name of at most twelve characters without NUL.
pub proof fn lemma_round_trip(files: Seq<PackedFile>, min_size: Option<usize>, codec: CodecKind)
    requires
        forall|i: int| 0 <= i < files.len() ==> fits((#[trigger] files[i]).payload@.len()),
    ensures
        scan(archive_bytes(files, min_size, codec)).entries == entries_of(files, codec),
        scan(archive_bytes(files, min_size, codec)).stop != Stop::TruncatedPayload,
        scan(archive_bytes(files, min_size, codec)).stopped_at == entries_bytes(
            entries_of(files, codec),
        ).len(),
        forall|i: int|
            0 <= i < files.len() ==> (#[trigger] entries_of(files, codec)[i]).payload
                == files[i].payload@,
        forall|i: int|
            0 <= i < files.len() && storable(encode_utf8(files[i].name@)) ==> (
            #[trigger] entries_of(files, codec)[i]).file_name() == encode_utf8(files[i].name@),
        forall|i: int|
            0 <= i < files.len() && is_ascii_chars(files[i].name@) && files[i].name@.len()
                <= NAME_LEN && !files[i].name@.contains('\0') ==> (#[trigger] entries_of(
                files,
                codec,
            )[i]).file_name() == Seq::new(files[i].name@.len(), |k: int| files[i].name@[k] as u8),
{
    let entries = entries_of(files, codec);
    let packed = entries_bytes(entries);
    let archive = archive_bytes(files, min_size, codec);
    let fill = archive.skip(packed.len() as int);
    assert(archive =~= packed + fill);
    assert forall|k: int| 0 <= k < fill.len() implies fill[k] == FILL_BYTE by {
        assert(fill[k] == archive[packed.len() + k]);
    }
    lemma_scan_fill(fill);
    assert forall|i: int| 0 <= i < entries.len() implies (#[trigger] entries[i]).wf() by {
        lemma_entry_for_wf(encode_utf8(files[i].name@), files[i].payload@, codec);
    }
    lemma_scan_entries(entries, fill);
    assert(entries + Seq::<EntryView>::empty() =~= entries);
    assert forall|i: int|
        0 <= i < files.len() && storable(encode_utf8(files[i].name@)) implies (
    #[trigger] entries[i]).file_name() == encode_utf8(files[i].name@) by {
        let name = encode_utf8(files[i].name@);
        lemma_name_is_recovered(name);
        if name == legacy_name() {
            lemma_patch_keeps_name(codec);
        }
    }
    assert forall|i: int|
        0 <= i < files.len() && is_ascii_chars(files[i].name@) && files[i].name@.len() <= NAME_LEN
            && !files[i].name@.contains('\0') implies (#[trigger] entries[i]).file_name()
        == Seq::new(files[i].name@.len(), |k: int| files[i].name@[k] as u8) by {
        let name = files[i].name@;
        assert forall|k: int| 0 <= k < name.len() implies name[k] != '\0' by {
            assert(name.contains(name[k]));
        }
        lemma_ascii_name_is_recovered(name);
    }
}

/// Packing and unpacking with a codec gives back the files byte for byte.
///
/// Let `encode` and `decode` stand for a codec, `contents` for the files as
/// they are on disk, and let each of `files` hold the encoded content of
/// the file at its place. Where `decode` undoes `encode` on these contents
/// and every payload can be stored, decoding the payloads unpacked from
/// the archive built from `files` gives `contents` back.
pub proof fn lemma_round_trip_with_codec(
    contents: Seq<Seq<u8>>,
    encode: spec_fn(Seq<u8>) -> Seq<u8>,
    decode: spec_fn(Seq<u8>) -> Seq<u8>,
    files: Seq<PackedFile>,
    min_size: Option<usize>,
    codec: CodecKind,
)
    requires
        files.len() == contents.len(),
        forall|i: int|
            0 <= i < files.len() ==> (#[trigger] files[i]).payload@ == encode(contents[i]),
        forall|i: int|
            0 <= i < contents.len() ==> decode(encode(#[trigger] contents[i])) == contents[i],
        forall|i: int| 0 <= i < files.len() ==> fits((#[trigger] files[i]).payload@.len()),
    ensures
        scan(archive_bytes(files, min_size, codec)).entries.len() == contents.len(),
        forall|i: int|
            0 <= i < contents.len() ==> decode(
                (#[trigger] scan(archive_bytes(files, min_size, codec)).entries[i]).payload,
            ) == contents[i],
{
    lemma_round_trip(files, min_size, codec);
    let entries = scan(archive_bytes(files, min_size, codec)).entries;
    assert forall|i: int| 0 <= i < contents.len() implies decode((#[trigger] entries[i]).payload)
        == contents[i] by {
        assert(entries[i] == entries_of(files, codec)[i]);
        assert(files[i].payload@ == encode(contents[i]));
    }
}

} // verus!
