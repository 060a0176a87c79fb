//! What the container format has to know of the codec that compresses the
//! payloads.
//!
//! The codec itself is the caller's: it is a routine linked into the
//! program, or an external compressor run as `<executable> e <input>
//! <output>` to compress and `<executable> d <input> <output>` to expand.

use vstd::prelude::*;

verus! {

/// How the payloads of an archive are compressed. The container format does
/// not look into a payload; the one thing that depends on the codec is the
/// layout of the name field of `tile1.tg~`.
#[derive(Clone, Copy, Debug, PartialEq, Eq, Structural)]
pub enum CodecKind {
    /// A compression routine linked into the program.
    InProcess,
    /// An external compressor run as a child process.
    Subprocess,
}

/// What is asked of a codec.
#[derive(Clone, Copy, Debug, PartialEq, Eq, Structural)]
pub enum Operation {
    /// Compress the bytes of a file into a payload.
    Encode,
    /// Expand a payload into the bytes of the file.
    Decode,
}

/// The first argument that tells an external compressor what to do: `e` to
/// compress, `d` to expand. The paths of its input and of its output follow.
pub fn operation_flag(operation: Operation) -> (flag: &'static str)
    ensures
        flag@ == match operation {
            Operation::Encode => seq!['e'],
            Operation::Decode => seq!['d'],
        },
{
    proof {
        reveal_strlit("e");
        reveal_strlit("d");
    }
    match operation {
        Operation::Encode => {
            assert("e"@ =~= seq!['e']);
            "e"
        },
        Operation::Decode => {
            assert("d"@ =~= seq!['d']);
            "d"
        },
    }
}

} // verus!
