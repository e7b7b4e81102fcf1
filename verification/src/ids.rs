//! Thread identifiers: 128-bit values with a textual form.

use vstd::prelude::*;

use crate::text;

verus! {

/// The value of the identifier that a text writes, or the message of the error.
pub uninterp spec fn uuid_outcome(s: Seq<char>) -> Result<u128, Seq<char>>;

/// The value of the identifier that a text writes, where it writes one.
pub open spec fn uuid_value(s: Seq<char>) -> Option<u128> {
    match uuid_outcome(s) {
        Ok(v) => Some(v),
        Err(_) => None,
    }
}

/// What reading a text gave, with the message in characters.
pub open spec fn read_view(r: Result<u128, String>) -> Result<u128, Seq<char>> {
    match r {
        Ok(v) => Ok(v),
        Err(e) => Err(e@),
    }
}

/// The small hexadecimal digit of a number below sixteen.
pub open spec fn hex_digit(n: int) -> char {
    if n < 10 {
        ('0' as int + n) as char
    } else {
        ('a' as int + n - 10) as char
    }
}

/// Whether a hyphen stands at this place in the canonical text.
pub open spec fn is_hyphen_at(i: int) -> bool {
    i == 8 || i == 13 || i == 18 || i == 23
}

/// How many digits stand before this place in the canonical text.
pub open spec fn digits_before(i: int) -> int {
    if i <= 8 {
        i
    } else if i <= 13 {
        i - 1
    } else if i <= 18 {
        i - 2
    } else if i <= 23 {
        i - 3
    } else {
        i - 4
    }
}

/// The canonical text of an identifier: the thirty-two hexadecimal digits of
/// the value, in groups of eight, four, four, four and twelve.
#[verifier::opaque]
pub open spec fn uuid_text(v: u128) -> Seq<char> {
    Seq::new(
        36,
        |i: int|
            if is_hyphen_at(i) {
                '-'
            } else {
                hex_digit((v as int / vstd::arithmetic::power::pow(16, (31 - digits_before(i)) as nat)) % 16)
            },
    )
}

/// `uuid::Uuid::parse_str`: what the crate reads in `s` is a function of the
/// characters of `s` alone, the message of the error too, and is named
/// `uuid_outcome`.
#[verifier::external_body]
pub(crate) fn parse_uuid(s: &str) -> (r: Result<u128, String>)
    ensures
        read_view(r) == uuid_outcome(s@),
{
    uuid::Uuid::parse_str(s).map(|id| id.as_u128()).map_err(|err| err.to_string())
}

/// The `Display` form of `uuid::Uuid`: the digits of the value with hyphens
/// between them, which `parse_str` reads back.
#[verifier::external_body]
fn display_uuid(v: u128) -> (r: String)
    ensures
        r@ == uuid_text(v),
        uuid_outcome(r@) == read_view(Ok(v)),
{
    uuid::Uuid::from_u128(v).to_string()
}

/// The canonical text of an identifier: thirty-six characters, each a small
/// hexadecimal digit or a hyphen.
pub(crate) fn format_uuid(v: u128) -> (r: String)
    ensures
        r@ == uuid_text(v),
        r@.len() == 36,
        forall|i: int| 0 <= i < 36 ==> is_uuid_char(#[trigger] r@[i]),
        uuid_outcome(r@) == read_view(Ok(v)),
{
    proof {
        reveal(uuid_text);
    }
    display_uuid(v)
}

/// The characters of a canonical identifier text.
pub open spec fn is_uuid_char(c: char) -> bool {
    '0' <= c <= '9' || 'a' <= c <= 'f' || c == '-'
}

/// Identifies one thread.
#[derive(Clone, Copy, Debug, PartialEq, Eq, PartialOrd, Ord, Hash, Structural)]
pub struct ThreadId {
    pub value: u128,
}

impl ThreadId {
    /// The identifier with the given value.
    pub fn from_u128(value: u128) -> (r: ThreadId)
        ensures
            r.value == value,
    {
        ThreadId { value }
    }

    /// Reads an identifier.
    pub fn from_string(s: &str) -> (r: Result<ThreadId, String>)
        ensures
            match r {
                Ok(id) => uuid_outcome(s@) == read_view(Ok(id.value)),
                Err(e) => uuid_outcome(s@) == read_view(Err(e)),
            },
    {
        match parse_uuid(s) {
            Ok(value) => Ok(ThreadId { value }),
            Err(e) => Err(e),
        }
    }

    /// The canonical text, which `from_string` reads back.
    pub fn text(&self) -> (r: String)
        ensures
            r@ == uuid_text(self.value),
            uuid_value(r@) == Some(self.value),
    {
        format_uuid(self.value)
    }
}

} // verus!
