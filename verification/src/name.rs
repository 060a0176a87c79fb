//! The twelve-byte name field of an entry.

use crate::find::{first_index, lemma_first_index};
use crate::layout::NAME_LEN;
use vstd::prelude::*;
use vstd::string::StringSliceAdditionalSpecFns;

verus! {

/// `dest` with its front overwritten by `src`: the bytes of `src` that fit
/// replace the first bytes of `dest`, the rest of `dest` stays.
pub open spec fn overlay(dest: Seq<u8>, src: Seq<u8>) -> Seq<u8> {
    if src.len() >= dest.len() {
        src.take(dest.len() as int)
    } else {
        src + dest.skip(src.len() as int)
    }
}

/// Copies the bytes of `src` over the front of `dest`.
///
/// A `src` longer than `dest` is cut to the length of `dest`; where it is
/// shorter, the bytes of `dest` behind it are left as they were.
pub fn copy_from_str(dest: &mut [u8], src: &str)
    ensures
        final(dest)@ == overlay(old(dest)@, src.spec_bytes()),
{
    let bytes = src.as_bytes();
    let n: usize = if dest.len() < bytes.len() {
        dest.len()
    } else {
        bytes.len()
    };
    let mut i: usize = 0;
    while i < n
        invariant
            i <= n,
            n <= bytes@.len(),
            n <= dest@.len(),
            dest@.len() == old(dest)@.len(),
            forall|k: int| 0 <= k < i ==> dest@[k] == bytes@[k],
            forall|k: int| i <= k < dest@.len() ==> dest@[k] == old(dest)@[k],
        decreases n - i,
    {
        dest[i] = bytes[i];
        i += 1;
    }
    assert(dest@ =~= overlay(old(dest)@, src.spec_bytes()));
}

/// The name field that stores `name`: its first twelve bytes, or all of it
/// followed by zero bytes up to twelve.
pub open spec fn name_field(name: Seq<u8>) -> Seq<u8> {
    overlay(Seq::new(NAME_LEN as nat, |i: int| 0u8), name)
}

/// Builds the name field that stores `name`.
pub fn make_name_field(name: &str) -> (field: [u8; 12])
    ensures
        field@ == name_field(name.spec_bytes()),
{
    let mut field = [0u8; 12];
    assert(field@ =~= Seq::new(NAME_LEN as nat, |i: int| 0u8));
    copy_from_str(&mut field, name);
    field
}

/// Position of the first zero byte of `field`, or its length if it has none.
pub open spec fn name_end(field: Seq<u8>) -> int {
    first_index(field, 0u8)
}

/// The name that a name field holds: what stands before its first zero
/// byte, or the whole field if no byte of it is zero.
pub open spec fn stored_name(field: Seq<u8>) -> Seq<u8> {
    field.take(name_end(field))
}

/// Whether a name field holds `name` whole and gives it back: it has at
/// most twelve bytes and none of them is zero.
pub open spec fn storable(name: Seq<u8>) -> bool {
    &&& name.len() <= NAME_LEN
    &&& forall|k: int| 0 <= k < name.len() ==> name[k] != 0
}

/// Reads the name that a name field holds.
pub fn read_name(field: &[u8; 12]) -> (name: Vec<u8>)
    ensures
        name@ == stored_name(field@),
{
    let mut name: Vec<u8> = Vec::new();
    let mut i: usize = 0;
    while i < NAME_LEN && field[i] != 0
        invariant
            i <= NAME_LEN,
            field@.len() == NAME_LEN,
            name@ == field@.take(i as int),
            forall|k: int| 0 <= k < i ==> field@[k] != 0,
        decreases NAME_LEN - i,
    {
        name.push(field[i]);
        i += 1;
        assert(name@ =~= field@.take(i as int));
    }
    proof {
        lemma_first_index(field@, 0u8, i as int);
    }
    name
}

/// The bytes of the one file name that gets the legacy layout of its name
/// field: `tile1.tg~`.
pub open spec fn legacy_name() -> Seq<u8> {
    seq![
        't' as u8,
        'i' as u8,
        'l' as u8,
        'e' as u8,
        '1' as u8,
        '.' as u8,
        't' as u8,
        'g' as u8,
        '~' as u8,
    ]
}

/// Whether `name` is exactly `tile1.tg~`.
pub fn is_legacy_name(name: &str) -> (legacy: bool)
    ensures
        legacy == (name.spec_bytes() == legacy_name()),
{
    let b = name.as_bytes();
    let legacy = b.len() == 9 && b[0] == 't' as u8 && b[1] == 'i' as u8 && b[2] == 'l' as u8
        && b[3] == 'e' as u8 && b[4] == '1' as u8 && b[5] == '.' as u8 && b[6] == 't' as u8
        && b[7] == 'g' as u8 && b[8] == '~' as u8;
    assert(legacy ==> b@ =~= legacy_name());
    legacy
}

/// A name field with its last two bytes replaced by `0x6C`, `0x00`.
pub open spec fn legacy_patched(field: Seq<u8>) -> Seq<u8> {
    field.update(NAME_LEN - 2, 0x6Cu8).update(NAME_LEN - 1, 0x00u8)
}

/// Writes `0x6C`, `0x00` over the last two bytes of a name field.
pub fn apply_legacy_patch(field: &mut [u8; 12])
    ensures
        final(field)@ == legacy_patched(old(field)@),
{
    field[NAME_LEN - 2] = 0x6C;
    field[NAME_LEN - 1] = 0x00;
}

} // verus!
