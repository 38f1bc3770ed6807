//! Text helpers over `str`, with contracts over the characters.
use vstd::prelude::*;

verus! {

/// Index of the first occurrence of `ch` in `c`.
pub open spec fn find_char(c: Seq<char>, ch: char) -> Option<int>
    decreases c.len(),
{
    if c.len() == 0 {
        None
    } else if c[0] == ch {
        Some(0)
    } else {
        match find_char(c.skip(1), ch) {
            Some(i) => Some(i + 1),
            None => None,
        }
    }
}

/// The lines of `c`: the pieces between newline characters.
pub open spec fn lines_of(c: Seq<char>) -> Seq<Seq<char>>
    decreases c.len(),
{
    match find_char(c, '\n') {
        Some(i) => if 0 <= i < c.len() {
            seq![c.take(i)] + lines_of(c.skip(i + 1))
        } else {
            seq![c]
        },
        None => seq![c],
    }
}

pub proof fn lemma_find_char_bounds(c: Seq<char>, ch: char)
    ensures
        find_char(c, ch) matches Some(i) ==> 0 <= i < c.len() && c[i] == ch,
    decreases c.len(),
{
    if c.len() > 0 && c[0] != ch {
        lemma_find_char_bounds(c.skip(1), ch);
    }
}

/// Relies on `str::split_once` with a `char` pattern: the text before and
/// after the first occurrence of `sep`, or `None` when there is none.
#[verifier::external_body]
pub(crate) fn split_once_char<'a>(s: &'a str, sep: char) -> (r: Option<(&'a str, &'a str)>)
    ensures
        match find_char(s@, sep) {
            None => r is None,
            Some(i) => r matches Some(p) && p.0@ == s@.take(i) && p.1@ == s@.skip(i + 1),
        },
{
    s.split_once(sep)
}

/// Relies on `str::strip_prefix`: the rest of `s` when it starts with `prefix`.
#[verifier::external_body]
pub(crate) fn strip_prefix<'a>(s: &'a str, prefix: &str) -> (r: Option<&'a str>)
    ensures
        r is Some == prefix@.is_prefix_of(s@),
        r matches Some(t) ==> t@ == s@.skip(prefix@.len() as int),
{
    s.strip_prefix(prefix)
}

} // verus!
