//! From a file reference given by the user to the path to read and the name
//! to store.
//!
//! A reference is a path, or a path and a display name with `@` between
//! them. The display name is written with the quoting of a shell, so that it
//! can hold spaces and other characters that are awkward on a command line.
//! Paths are taken with `/` between their components.

use crate::find::{first_index, lemma_first_index, lemma_first_index_is_first};
use vstd::prelude::*;
use vstd::std_specs::iter::IteratorSpec;
use vstd::string::StrSliceExecFns;

verus! {

/// The error of `snailquote::unescape`: opaque here, it only tells that the
/// text was not validly escaped.
#[verifier::external_type_specification]
#[verifier::external_body]
pub struct ExUnescapeError(snailquote::UnescapeError);

/// What `snailquote::unescape` makes of `escaped`: the text with its quotes
/// and escapes removed, or nothing where an escape in it is invalid.
pub uninterp spec fn unescaped(escaped: Seq<char>) -> Option<Seq<char>>;

/// `snailquote::unescape` computes its result from the characters of its
/// argument alone: the same text gives the same result. It returns the
/// unescaped text, or an error where an escape between double quotes is
/// none of those it knows.
pub assume_specification[ snailquote::unescape ](s: &str) -> (result: Result<
    String,
    snailquote::UnescapeError,
>)
    ensures
        match result {
            Ok(text) => unescaped(s@) == Some(text@),
            Err(_) => unescaped(s@) is None,
        },
;

/// The path to read a file from and the name to store it under.
#[derive(Debug, PartialEq, Eq)]
pub struct NamePair {
    /// Where the file is read from.
    pub source_path: String,
    /// The name under which the file goes into the archive.
    pub stored_name: String,
}

/// The mathematical content of a [`NamePair`].
pub struct NamePairView {
    /// Where the file is read from.
    pub source_path: Seq<char>,
    /// The name under which the file goes into the archive.
    pub stored_name: Seq<char>,
}

impl View for NamePair {
    type V = NamePairView;

    open spec fn view(&self) -> NamePairView {
        NamePairView { source_path: self.source_path@, stored_name: self.stored_name@ }
    }
}

impl Clone for NamePair {
    fn clone(&self) -> (copy: Self)
        ensures
            copy@ == self@,
    {
        NamePair { source_path: self.source_path.clone(), stored_name: self.stored_name.clone() }
    }
}

/// A reference that did not resolve: its position among the references
/// given, and why.
#[derive(Clone, Copy, Debug, PartialEq, Eq, Structural)]
pub struct Unresolved {
    /// Position of the reference.
    pub index: usize,
    /// Why it gives no name to store.
    pub error: ResolveError,
}

/// Why a reference gives no name to store.
#[derive(Clone, Copy, Debug, PartialEq, Eq, Structural)]
pub enum ResolveError {
    /// A reference without display name whose path has no file name.
    NoFileName,
    /// A display name that is not validly escaped.
    InvalidEscape,
}

/// Position behind the last `/` of `path`, which is where its last
/// component starts; 0 if it holds no `/`.
pub open spec fn last_component_start(path: Seq<char>) -> int
    decreases path.len(),
{
    if path.len() == 0 || path.last() == '/' {
        path.len() as int
    } else {
        last_component_start(path.drop_last())
    }
}

/// `last_component_start` is the one position with no `/` from it on that
/// is the start of `path` or stands behind a `/`.
pub proof fn lemma_last_component_start(path: Seq<char>, start: int)
    requires
        0 <= start <= path.len(),
        forall|k: int| start <= k < path.len() ==> path[k] != '/',
        start == 0 || path[start - 1] == '/',
    ensures
        last_component_start(path) == start,
    decreases path.len(),
{
    if start < path.len() {
        lemma_last_component_start(path.drop_last(), start);
    }
}

/// The last component of `path` starts within it or at its end.
pub proof fn lemma_last_component_start_bounds(path: Seq<char>)
    ensures
        0 <= last_component_start(path) <= path.len(),
    decreases path.len(),
{
    if path.len() != 0 && path.last() != '/' {
        lemma_last_component_start_bounds(path.drop_last());
    }
}

/// The file name of `path`: its last component, not counting empty
/// components and `.` at its end. There is none where no component is left,
/// as in `/` or `.`, and where that component is `..`.
pub open spec fn file_name_of(path: Seq<char>) -> Option<Seq<char>>
    decreases path.len(),
{
    let start = last_component_start(path);
    let last = path.skip(start);
    if last.len() == 0 || last == seq!['.'] {
        if start == 0 {
            None
        } else {
            proof {
                lemma_last_component_start_bounds(path);
            }
            file_name_of(path.take(start - 1))
        }
    } else if last == seq!['.', '.'] {
        None
    } else {
        Some(last)
    }
}

/// Whether a reference holds a display name: whether it holds an `@`.
pub open spec fn has_display_name(reference: Seq<char>) -> bool {
    first_index(reference, '@') < reference.len()
}

/// The path of a reference: what stands before its first `@`, or all of it.
pub open spec fn path_part(reference: Seq<char>) -> Seq<char> {
    reference.take(first_index(reference, '@'))
}

/// The display name of a reference as it is written: what stands behind
/// its first `@`.
pub open spec fn display_part(reference: Seq<char>) -> Seq<char> {
    reference.skip(first_index(reference, '@') + 1)
}

/// What a reference resolves to, given what its display name is when
/// unescaped (`display`, which counts only where it has one).
///
/// With a display name, the path is what stands before the `@` and the
/// stored name is the unescaped display name. Without one, the path is the
/// reference and the stored name is its file name.
pub open spec fn resolved_with(reference: Seq<char>, display: Option<Seq<char>>) -> Result<
    NamePairView,
    ResolveError,
> {
    if has_display_name(reference) {
        match display {
            Some(name) => Ok(
                NamePairView { source_path: path_part(reference), stored_name: name },
            ),
            None => Err(ResolveError::InvalidEscape),
        }
    } else {
        match file_name_of(reference) {
            Some(name) => Ok(NamePairView { source_path: reference, stored_name: name }),
            None => Err(ResolveError::NoFileName),
        }
    }
}

/// What a reference resolves to.
pub open spec fn resolved(reference: Seq<char>) -> Result<NamePairView, ResolveError> {
    resolved_with(reference, unescaped(display_part(reference)))
}

/// The characters of `s`.
fn chars_of(s: &str) -> (chars: Vec<char>)
    ensures
        chars@ == s@,
{
    let mut chars: Vec<char> = Vec::new();
    for c in it: s.chars()
        invariant
            it.seq() == s@,
            chars@ == s@.take(it.index() as int),
    {
        chars.push(c);
        assert(chars@ =~= s@.take(it.index() + 1));
    }
    assert(chars@ =~= s@);
    chars
}

/// Finds where the last component of the first `end` characters starts.
fn component_start(chars: &Vec<char>, end: usize) -> (start: usize)
    requires
        end <= chars@.len(),
    ensures
        start == last_component_start(chars@.take(end as int)),
        start <= end,
{
    let mut start: usize = end;
    while start > 0 && chars[start - 1] != '/'
        invariant
            start <= end <= chars@.len(),
            forall|k: int| start <= k < end ==> chars@[k] != '/',
        decreases start,
    {
        start -= 1;
    }
    proof {
        lemma_last_component_start(chars@.take(end as int), start as int);
    }
    start
}

/// Finds the file name of `path`.
pub fn base_name(path: &str) -> (name: Option<String>)
    ensures
        match name {
            Some(text) => file_name_of(path@) == Some(text@),
            None => file_name_of(path@) is None,
        },
{
    let chars = chars_of(path);
    let mut end: usize = chars.len();
    assert(path@.take(end as int) =~= path@);
    loop
        invariant
            end <= chars@.len(),
            chars@ == path@,
            file_name_of(path@) == file_name_of(path@.take(end as int)),
        decreases end,
    {
        let start = component_start(&chars, end);
        let len = end - start;
        let ghost front = path@.take(end as int);
        assert(front.skip(start as int) =~= path@.subrange(start as int, end as int));
        if len == 0 || (len == 1 && chars[start] == '.') {
            assert(len == 1 ==> front.skip(start as int) =~= seq!['.']);
            if start == 0 {
                return None;
            }
            assert(front.take(start - 1) =~= path@.take(start - 1));
            end = start - 1;
        } else if len == 2 && chars[start] == '.' && chars[start + 1] == '.' {
            assert(front.skip(start as int) =~= seq!['.', '.']);
            return None;
        } else {
            assert(front.skip(start as int) != seq!['.']) by {
                if len == 1 {
                    assert(front.skip(start as int)[0] == chars@[start as int]);
                }
            }
            assert(front.skip(start as int) != seq!['.', '.']) by {
                if len == 2 {
                    assert(front.skip(start as int)[0] == chars@[start as int]);
                    assert(front.skip(start as int)[1] == chars@[start + 1]);
                }
            }
            return Some(path.substring_char(start, end).to_owned());
        }
    }
}

/// Splits a reference at its first `@` into its path and, if it has one,
/// its display name as written.
pub fn split_reference(reference: &str) -> (parts: (String, Option<String>))
    ensures
        parts.0@ == path_part(reference@),
        match parts.1 {
            Some(display) => has_display_name(reference@) && display@ == display_part(reference@),
            None => !has_display_name(reference@),
        },
{
    let chars = chars_of(reference);
    let mut at: usize = 0;
    while at < chars.len() && chars[at] != '@'
        invariant
            at <= chars@.len(),
            forall|k: int| 0 <= k < at ==> chars@[k] != '@',
        decreases chars@.len() - at,
    {
        at += 1;
    }
    proof {
        lemma_first_index(reference@, '@', at as int);
    }
    let path = reference.substring_char(0, at).to_owned();
    if at < chars.len() {
        let display = reference.substring_char(at + 1, chars.len()).to_owned();
        (path, Some(display))
    } else {
        (path, None)
    }
}

/// Pairs a path with its display name as `snailquote::unescape` returned
/// it: the unescaped text becomes the stored name, and an error of
/// `snailquote::unescape` becomes [`ResolveError::InvalidEscape`].
pub fn named_pair(source_path: String, display: Result<String, snailquote::UnescapeError>) -> (pair:
    Result<NamePair, ResolveError>)
    ensures
        match display {
            Ok(name) => pair == Ok::<NamePair, ResolveError>(
                NamePair { source_path, stored_name: name },
            ),
            Err(_) => pair == Err::<NamePair, ResolveError>(ResolveError::InvalidEscape),
        },
{
    match display {
        Ok(name) => Ok(NamePair { source_path, stored_name: name }),
        Err(_) => Err(ResolveError::InvalidEscape),
    }
}

/// Pairs a path that comes without display name with its file name, which
/// becomes the stored name.
pub fn plain_pair(source_path: String) -> (pair: Result<NamePair, ResolveError>)
    ensures
        match pair {
            Ok(found) => found.source_path == source_path && file_name_of(source_path@) == Some(
                found.stored_name@,
            ),
            Err(error) => error == ResolveError::NoFileName && file_name_of(source_path@) is None,
        },
{
    match base_name(source_path.as_str()) {
        Some(name) => Ok(NamePair { source_path, stored_name: name }),
        None => Err(ResolveError::NoFileName),
    }
}

/// Resolves a reference to the path to read and the name to store.
///
/// `P@D` is split at its first `@`: the path is `P`, and the stored name is
/// `D` with its quotes and escapes removed by `snailquote::unescape`; it is
/// an error if `D` is not validly escaped. A reference without `@` is the
/// path, and the stored name is its file name; it is an error if it has
/// none. No file is looked at.
pub fn resolve_reference(reference: &str) -> (pair: Result<NamePair, ResolveError>)
    ensures
        match pair {
            Ok(found) => resolved(reference@) == Ok::<NamePairView, ResolveError>(found@),
            Err(error) => resolved(reference@) == Err::<NamePairView, ResolveError>(error),
        },
{
    let (path, display) = split_reference(reference);
    match display {
        Some(escaped) => {
            let display = snailquote::unescape(escaped.as_str());
            named_pair(path, display)
        },
        None => {
            proof {
                lemma_first_index_is_first(reference@, '@');
                assert(path_part(reference@) =~= reference@);
            }
            plain_pair(path)
        },
    }
}

/// Resolves references in their order, before any file is looked at: one
/// pair for each, or the first reference that does not resolve.
pub fn resolve_all(references: &[String]) -> (pairs: Result<Vec<NamePair>, Unresolved>)
    ensures
        match pairs {
            Ok(found) => {
                &&& found@.len() == references@.len()
                &&& forall|k: int|
                    0 <= k < references@.len() ==> resolved(references@[k]@) == Ok::<
                        NamePairView,
                        ResolveError,
                    >((#[trigger] found@[k])@)
            },
            Err(failed) => {
                &&& failed.index < references@.len()
                &&& resolved(references@[failed.index as int]@) == Err::<
                    NamePairView,
                    ResolveError,
                >(failed.error)
                &&& forall|k: int|
                    0 <= k < failed.index ==> resolved((#[trigger] references@[k])@) is Ok
            },
        },
{
    let mut found: Vec<NamePair> = Vec::new();
    let mut i: usize = 0;
    while i < references.len()
        invariant
            i <= references@.len(),
            found@.len() == i,
            forall|k: int|
                0 <= k < i ==> resolved(references@[k]@) == Ok::<NamePairView, ResolveError>(
                    (#[trigger] found@[k])@,
                ),
            forall|k: int| 0 <= k < i ==> resolved((#[trigger] references@[k])@) is Ok,
        decreases references@.len() - i,
    {
        match resolve_reference(references[i].as_str()) {
            Ok(pair) => found.push(pair),
            Err(error) => {
                return Err(Unresolved { index: i, error });
            },
        }
        i += 1;
    }
    Ok(found)
}

} // verus!
