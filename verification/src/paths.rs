//! What is asked of the paths that packing and unpacking are given, before
//! anything is read or written.
//!
//! The caller looks at the file system and says what it found at a path;
//! the functions here say whether the work may go on.

use vstd::prelude::*;

verus! {

/// What stands at a path.
#[derive(Clone, Copy, Debug, PartialEq, Eq, Structural)]
pub enum PathState {
    /// Nothing.
    Missing,
    /// A regular file.
    File,
    /// A directory.
    Directory,
    /// Something else.
    Other,
}

/// Why a path cannot be used.
#[derive(Clone, Copy, Debug, PartialEq, Eq, Structural)]
pub enum PathError {
    /// A file to read is missing or is no regular file.
    NotAFile,
    /// The file to write exists and is no regular file.
    ExistsAndNotAFile,
    /// The directory to unpack into exists and is no directory.
    ExistsAndNotADirectory,
}

/// What to do about the directory to unpack into.
#[derive(Clone, Copy, Debug, PartialEq, Eq, Structural)]
pub enum DirAction {
    /// It is there: use it.
    Use,
    /// It is missing: create it, with the directories above it.
    Create,
}

/// A file to read, be it a file to pack or an archive to unpack, has to be
/// there and be a regular file.
pub fn check_input(state: PathState) -> (checked: Result<(), PathError>)
    ensures
        checked == if state == PathState::File {
            Ok::<(), PathError>(())
        } else {
            Err::<(), PathError>(PathError::NotAFile)
        },
{
    match state {
        PathState::File => Ok(()),
        _ => Err(PathError::NotAFile),
    }
}

/// The archive to write may be missing or be a regular file, which is then
/// overwritten.
pub fn check_output_file(state: PathState) -> (checked: Result<(), PathError>)
    ensures
        checked == if state == PathState::Missing || state == PathState::File {
            Ok::<(), PathError>(())
        } else {
            Err::<(), PathError>(PathError::ExistsAndNotAFile)
        },
{
    match state {
        PathState::Missing | PathState::File => Ok(()),
        _ => Err(PathError::ExistsAndNotAFile),
    }
}

/// The directory to unpack into is used if it is there and created if it is
/// missing; anything else at its path is an error.
pub fn check_output_dir(state: PathState) -> (checked: Result<DirAction, PathError>)
    ensures
        checked == match state {
            PathState::Directory => Ok::<DirAction, PathError>(DirAction::Use),
            PathState::Missing => Ok::<DirAction, PathError>(DirAction::Create),
            _ => Err::<DirAction, PathError>(PathError::ExistsAndNotADirectory),
        },
{
    match state {
        PathState::Directory => Ok(DirAction::Use),
        PathState::Missing => Ok(DirAction::Create),
        _ => Err(PathError::ExistsAndNotADirectory),
    }
}

} // verus!
