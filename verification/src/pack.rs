//! Packing files into an archive.

use crate::codec::CodecKind;
use crate::entry::{
    entries_bytes, entry_for, entry_length, fits, lemma_entries_bytes_push, make_entry_name,
    EntryView,
};
use crate::layout::{put_be32, FILL_BYTE};
use vstd::prelude::*;
use vstd::string::StringSliceAdditionalSpecFns;
use vstd::utf8::encode_utf8;

verus! {

/// A file ready to be packed: the name to store it under and its bytes as
/// the codec left them.
#[derive(Debug, PartialEq, Eq)]
pub struct PackedFile {
    /// The name to store the file under.
    pub name: String,
    /// The compressed bytes of the file.
    pub payload: Vec<u8>,
}

/// The mathematical content of a [`PackedFile`].
pub struct PackedFileView {
    /// The name to store the file under.
    pub name: Seq<char>,
    /// The compressed bytes of the file.
    pub payload: Seq<u8>,
}

impl View for PackedFile {
    type V = PackedFileView;

    open spec fn view(&self) -> PackedFileView {
        PackedFileView { name: self.name@, payload: self.payload@ }
    }
}

impl Clone for PackedFile {
    fn clone(&self) -> (copy: Self)
        ensures
            copy@ == self@,
    {
        PackedFile { name: self.name.clone(), payload: self.payload.clone() }
    }
}

/// Why an archive could not be built.
#[derive(Clone, Copy, Debug, PartialEq, Eq)]
pub enum BuildError {
    /// The payload of the file at `index` is too long for a length field.
    PayloadTooLarge { index: usize },
}

/// The entry that stores `file`.
pub open spec fn entry_of(file: PackedFileView, codec: CodecKind) -> EntryView {
    entry_for(encode_utf8(file.name), file.payload, codec)
}

/// The entries that store `files`, in their order.
pub open spec fn entries_of(files: Seq<PackedFile>, codec: CodecKind) -> Seq<EntryView> {
    Seq::new(files.len(), |i: int| entry_of(files[i]@, codec))
}

/// `bytes`, followed by fill bytes up to `min_size` where it is shorter.
pub open spec fn filled(bytes: Seq<u8>, min_size: Option<usize>) -> Seq<u8> {
    match min_size {
        Some(size) if bytes.len() < size => bytes + Seq::new(
            (size - bytes.len()) as nat,
            |i: int| FILL_BYTE,
        ),
        _ => bytes,
    }
}

/// The archive that holds `files` in their order, filled up to `min_size`.
pub open spec fn archive_bytes(
    files: Seq<PackedFile>,
    min_size: Option<usize>,
    codec: CodecKind,
) -> Seq<u8> {
    filled(entries_bytes(entries_of(files, codec)), min_size)
}

/// Appends to `out` the entry that stores `payload` under `name`, and
/// returns its length field. A payload too long to store leaves `out` as it
/// was.
pub fn append_entry(out: &mut Vec<u8>, name: &str, payload: &[u8], codec: CodecKind) -> (length:
    Option<u32>)
    ensures
        length is Some <==> fits(payload@.len()),
        length matches Some(n) ==> n == entry_for(name.spec_bytes(), payload@, codec).length,
        final(out)@ == if fits(payload@.len()) {
            old(out)@ + entry_for(name.spec_bytes(), payload@, codec).bytes()
        } else {
            old(out)@
        },
{
    match entry_length(payload.len()) {
        None => None,
        Some(length) => {
            let field = make_entry_name(name, codec);
            put_be32(out, length);
            out.extend_from_slice(field.as_slice());
            out.extend_from_slice(payload);
            assert(out@ =~= old(out)@ + entry_for(name.spec_bytes(), payload@, codec).bytes());
            Some(length)
        },
    }
}

/// Appends fill bytes to `out` until it is `min_size` bytes long. An `out`
/// that is as long or longer stays as it was.
pub fn pad_to(out: &mut Vec<u8>, min_size: usize)
    ensures
        final(out)@ == filled(old(out)@, Some(min_size)),
{
    while out.len() < min_size
        invariant
            out@.len() >= old(out)@.len(),
            out@.len() <= min_size || out@.len() == old(out)@.len(),
            out@.take(old(out)@.len() as int) == old(out)@,
            forall|k: int| old(out)@.len() <= k < out@.len() ==> out@[k] == FILL_BYTE,
        decreases min_size - out@.len(),
    {
        out.push(FILL_BYTE);
    }
    assert(out@ =~= filled(old(out)@, Some(min_size)));
}

/// Builds the archive that holds `files` in their order.
///
/// Each file becomes one entry: the big-endian length of its payload plus
/// sixteen, its name field, its payload. With a `min_size`, an archive that
/// comes out shorter is filled up to it with `0xFF`. Nothing is built if a
/// payload is too long for a length field: the error names the first such
/// file.
pub fn build_fs(files: &[PackedFile], min_size: Option<usize>, codec: CodecKind) -> (built: Result<
    Vec<u8>,
    BuildError,
>)
    ensures
        match built {
            Ok(bytes) => {
                &&& forall|k: int|
                    0 <= k < files@.len() ==> fits((#[trigger] files@[k]).payload@.len())
                &&& bytes@ == archive_bytes(files@, min_size, codec)
            },
            Err(BuildError::PayloadTooLarge { index }) => {
                &&& index < files@.len()
                &&& !fits(files@[index as int].payload@.len())
                &&& forall|k: int| 0 <= k < index ==> fits((#[trigger] files@[k]).payload@.len())
            },
        },
{
    let mut out: Vec<u8> = Vec::new();
    let mut i: usize = 0;
    while i < files.len()
        invariant
            i <= files@.len(),
            forall|k: int| 0 <= k < i ==> fits((#[trigger] files@[k]).payload@.len()),
            out@ == entries_bytes(entries_of(files@.take(i as int), codec)),
        decreases files@.len() - i,
    {
        let file = &files[i];
        let ghost before = entries_of(files@.take(i as int), codec);
        let ghost entry = entry_of(file@, codec);
        match append_entry(&mut out, file.name.as_str(), file.payload.as_slice(), codec) {
            None => {
                return Err(BuildError::PayloadTooLarge { index: i });
            },
            Some(_) => {
                proof {
                    lemma_entries_bytes_push(before, entry);
                    assert(entries_of(files@.take(i + 1), codec) =~= before.push(entry));
                }
            },
        }
        i += 1;
    }
    assert(files@.take(i as int) =~= files@);
    match min_size {
        Some(size) => pad_to(&mut out, size),
        None => {},
    }
    Ok(out)
}

} // verus!
