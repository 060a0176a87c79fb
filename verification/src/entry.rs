//! One record of an archive: length, name field, payload.

use crate::codec::CodecKind;
use crate::layout::{be32, END_MARK, HEADER_LEN, NAME_LEN};
use crate::name::{
    apply_legacy_patch, is_legacy_name, legacy_name, legacy_patched, make_name_field, name_field,
    read_name, stored_name,
};
use vstd::prelude::*;
use vstd::string::StringSliceAdditionalSpecFns;

verus! {

/// The mathematical content of an entry.
pub struct EntryView {
    /// The stored length: that of the payload plus sixteen.
    pub length: u32,
    /// The twelve bytes of the name field.
    pub name: Seq<u8>,
    /// The stored bytes of the file.
    pub payload: Seq<u8>,
}

impl EntryView {
    /// The name field is twelve bytes wide, and the length counts the
    /// payload plus sixteen without reaching the end mark.
    pub open spec fn wf(self) -> bool {
        &&& self.name.len() == NAME_LEN
        &&& HEADER_LEN <= self.length < END_MARK
        &&& self.payload.len() == self.length - HEADER_LEN
    }

    /// The entry as it lies in an archive.
    pub open spec fn bytes(self) -> Seq<u8> {
        be32(self.length) + self.name + self.payload
    }

    /// The name under which the entry is unpacked.
    pub open spec fn file_name(self) -> Seq<u8> {
        stored_name(self.name)
    }
}

/// A run of entries as it lies in an archive, one behind the other.
pub open spec fn entries_bytes(entries: Seq<EntryView>) -> Seq<u8>
    decreases entries.len(),
{
    if entries.len() == 0 {
        Seq::empty()
    } else {
        entries[0].bytes() + entries_bytes(entries.drop_first())
    }
}

/// Adding an entry at the end of a run adds its bytes at the end.
pub proof fn lemma_entries_bytes_push(entries: Seq<EntryView>, entry: EntryView)
    ensures
        entries_bytes(entries.push(entry)) == entries_bytes(entries) + entry.bytes(),
    decreases entries.len(),
{
    let all = entries.push(entry);
    if entries.len() == 0 {
        assert(all.drop_first() =~= entries);
        assert(entries_bytes(all) == entry.bytes() + entries_bytes(entries));
        assert(entries_bytes(entries) =~= Seq::<u8>::empty());
        assert(entries_bytes(all) =~= entries_bytes(entries) + entry.bytes());
    } else {
        assert(all.drop_first() =~= entries.drop_first().push(entry));
        lemma_entries_bytes_push(entries.drop_first(), entry);
        assert(entries_bytes(all) =~= entries_bytes(entries) + entry.bytes());
    }
}

/// Whether a payload of `payload_len` bytes can be stored: its length plus
/// sixteen has to fit the length field and stay below the end mark.
pub open spec fn fits(payload_len: nat) -> bool {
    payload_len + HEADER_LEN < END_MARK
}

/// The name field written for a file called `name` (as bytes): the plain
/// name field, but for `tile1.tg~` under the subprocess codec, whose last
/// two bytes are patched.
pub open spec fn entry_name(name: Seq<u8>, codec: CodecKind) -> Seq<u8> {
    if codec == CodecKind::Subprocess && name == legacy_name() {
        legacy_patched(name_field(name))
    } else {
        name_field(name)
    }
}

/// The entry that stores `payload` under `name` (as bytes).
pub open spec fn entry_for(name: Seq<u8>, payload: Seq<u8>, codec: CodecKind) -> EntryView {
    EntryView {
        length: (payload.len() + HEADER_LEN) as u32,
        name: entry_name(name, codec),
        payload,
    }
}

/// An entry made for a payload that fits is well formed.
pub proof fn lemma_entry_for_wf(name: Seq<u8>, payload: Seq<u8>, codec: CodecKind)
    requires
        fits(payload.len()),
    ensures
        entry_for(name, payload, codec).wf(),
{
}

/// One record of an archive.
#[derive(Debug, PartialEq, Eq)]
pub struct Entry {
    /// The stored length: that of the payload plus sixteen.
    pub length: u32,
    /// The name field.
    pub name: [u8; 12],
    /// The stored bytes of the file.
    pub payload: Vec<u8>,
}

impl View for Entry {
    type V = EntryView;

    open spec fn view(&self) -> EntryView {
        EntryView { length: self.length, name: self.name@, payload: self.payload@ }
    }
}

impl Clone for Entry {
    fn clone(&self) -> (copy: Self)
        ensures
            copy@ == self@,
    {
        Entry { length: self.length, name: self.name, payload: self.payload.clone() }
    }
}

impl Entry {
    /// The name under which the entry is unpacked: the name field up to its
    /// first zero byte, or all twelve bytes if none is zero.
    pub fn file_name(&self) -> (name: Vec<u8>)
        ensures
            name@ == self@.file_name(),
    {
        read_name(&self.name)
    }
}

/// The length field for a payload of `payload_len` bytes, if there is one.
pub fn entry_length(payload_len: usize) -> (length: Option<u32>)
    ensures
        length == if fits(payload_len as nat) {
            Some((payload_len + HEADER_LEN) as u32)
        } else {
            None::<u32>
        },
{
    if payload_len < (END_MARK - HEADER_LEN) as usize {
        Some(payload_len as u32 + HEADER_LEN)
    } else {
        None
    }
}

/// Builds the name field written for a file called `name`.
pub fn make_entry_name(name: &str, codec: CodecKind) -> (field: [u8; 12])
    ensures
        field@ == entry_name(name.spec_bytes(), codec),
{
    let mut field = make_name_field(name);
    if codec == CodecKind::Subprocess && is_legacy_name(name) {
        apply_legacy_patch(&mut field);
    }
    field
}

} // verus!
