//! What a stored value must offer: an exact copy, parsing from text, and,
//! for merging, an associative combine.
use vstd::prelude::*;

verus! {

/// Whether `d` is a non-empty run of ASCII decimal digits.
pub open spec fn all_digits(d: Seq<char>) -> bool {
    d.len() > 0 && forall|i: int| 0 <= i < d.len() ==> '0' <= #[trigger] d[i] && d[i] <= '9'
}

/// The number that a run of decimal digits spells.
pub open spec fn digits_value(d: Seq<char>) -> int
    decreases d.len(),
{
    if d.len() == 0 {
        0
    } else {
        digits_value(d.drop_last()) * 10 + (d.last() as int - '0' as int)
    }
}

/// What `str::parse::<i32>` yields: an optional `+` or `-` sign followed by
/// decimal digits only, whose value fits an `i32`.
pub open spec fn i32_text_value(s: Seq<char>) -> Option<i32> {
    let neg = s.len() > 0 && s[0] == '-';
    let digits = if s.len() > 0 && (s[0] == '-' || s[0] == '+') { s.skip(1) } else { s };
    let v = if neg { -digits_value(digits) } else { digits_value(digits) };
    if all_digits(digits) && i32::MIN <= v <= i32::MAX {
        Some(v as i32)
    } else {
        None
    }
}

/// Relies on `<i32 as FromStr>::from_str`, which reads an optional sign and
/// decimal digits, and fails on anything else or on overflow.
#[verifier::external_body]
pub(crate) fn parse_i32(s: &str) -> (r: Option<i32>)
    ensures
        r == i32_text_value(s@),
{
    s.parse::<i32>().ok()
}

/// A value that a store can hold.
pub trait StorageValue: Sized {
    /// Whether `text` is the textual form of `v`.
    spec fn parses_to(text: Seq<char>, v: Self) -> bool;

    /// Whether `text` is the textual form of some value.
    spec fn parses(text: Seq<char>) -> bool;

    /// An exact copy.
    fn duplicate(&self) -> (r: Self)
        ensures
            r == *self;

    /// Reads a value from its textual form.
    fn parse_text(text: &str) -> (r: Option<Self>)
        ensures
            r.is_some() == Self::parses(text@),
            r matches Some(v) ==> Self::parses_to(text@, v);
}

/// A combine operation, used to reconcile two values of one key.
pub trait Monoid: Sized {
    spec fn combine_spec(a: Self, b: Self) -> Self;

    fn combine(a: &Self, b: &Self) -> (r: Self)
        ensures
            r == Self::combine_spec(*a, *b);
}

impl StorageValue for String {
    open spec fn parses_to(text: Seq<char>, v: String) -> bool {
        v@ == text
    }

    open spec fn parses(text: Seq<char>) -> bool {
        true
    }

    fn duplicate(&self) -> (r: String) {
        self.clone()
    }

    fn parse_text(text: &str) -> (r: Option<String>) {
        Some(text.to_owned())
    }
}

impl StorageValue for i32 {
    open spec fn parses_to(text: Seq<char>, v: i32) -> bool {
        i32_text_value(text) == Some(v)
    }

    open spec fn parses(text: Seq<char>) -> bool {
        i32_text_value(text).is_some()
    }

    fn duplicate(&self) -> (r: i32) {
        *self
    }

    fn parse_text(text: &str) -> (r: Option<i32>) {
        parse_i32(text)
    }
}

/// Integers combine to the larger of the two.
impl Monoid for i32 {
    open spec fn combine_spec(a: i32, b: i32) -> i32 {
        if a >= b {
            a
        } else {
            b
        }
    }

    fn combine(a: &i32, b: &i32) -> (r: i32) {
        if *a >= *b {
            *a
        } else {
            *b
        }
    }
}

/// Taking the larger integer is commutative, idempotent and associative, so
/// stores of integers merge independently of order and repetition.
pub proof fn lemma_i32_combine_laws()
    ensures
        forall|x: i32, y: i32| #[trigger] i32::combine_spec(x, y) == i32::combine_spec(y, x),
        forall|x: i32| #[trigger] i32::combine_spec(x, x) == x,
        forall|x: i32, y: i32, z: i32|
            #[trigger] i32::combine_spec(i32::combine_spec(x, y), z) == i32::combine_spec(x, i32::combine_spec(y, z)),
{
}

} // verus!
