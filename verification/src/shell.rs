//! The shell-style splitter for renderer command lines.  The split itself
//! is done by an outside library; its result is given a name here, and the
//! engine's contracts speak of that name.

use vstd::prelude::*;

verus! {

/// What `shlex::split` returns for a command line: the POSIX-style words,
/// or nothing when the input is erroneous (an unclosed quote).  The result
/// depends on the characters alone.
pub uninterp spec fn shell_split_of(s: Seq<char>) -> Option<Seq<Seq<char>>>;

/// Relies on shlex::split: splits a command line into words with
/// POSIX-style quoting, returning `None` on erroneous input.
#[verifier::external_body]
pub(crate) fn shlex_split(s: &str) -> (r: Option<Vec<String>>)
    ensures
        match r {
            Option::Some(v) => shell_split_of(s@) == Option::Some(v.deep_view()),
            Option::None => shell_split_of(s@) is None,
        },
{
    shlex::split(s)
}

} // verus!
