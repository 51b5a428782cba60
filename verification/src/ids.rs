//! Edit identities: UUIDs held as 128-bit numbers, and their text.

use vstd::prelude::*;

use crate::library::hex_digit;

verus! {

/// Hexadecimal digit `i` of a 128-bit number, counting from the most
/// significant one (`0 <= i < 32`).
pub open spec fn nibble(v: u128, i: int) -> nat {
    ((v >> ((124 - 4 * i) as u128)) & 15u128) as nat
}

/// The 32 lowercase hexadecimal digits of a UUID, most significant first.
pub open spec fn uuid_simple(v: u128) -> Seq<char> {
    Seq::new(32, |i: int| hex_digit(nibble(v, i)))
}

/// The hyphenated form of a UUID: its digits in groups of 8, 4, 4, 4 and 12
/// separated by hyphens.
pub open spec fn uuid_hyphenated(v: u128) -> Seq<char> {
    let s = uuid_simple(v);
    s.subrange(0, 8) + seq!['-'] + s.subrange(8, 12) + seq!['-'] + s.subrange(12, 16) + seq!['-']
        + s.subrange(16, 20) + seq!['-'] + s.subrange(20, 32)
}

/// Calls `uuid::Uuid::from_u128(v).to_string()`.  Claimed: the text is the
/// hyphenated lowercase form (the crate formats `Display` as its lower hex,
/// which is the hyphenated form of the big-endian bytes of `v`).
#[verifier::external_body]
pub(crate) fn uuid_string(v: u128) -> (s: String)
    ensures
        s@ == uuid_hyphenated(v),
{
    uuid::Uuid::from_u128(v).to_string()
}

/// What `uuid::Uuid::parse_str` makes of a text, as a 128-bit number, or
/// `None` where it refuses the text.
pub uninterp spec fn parsed_uuid(s: Seq<char>) -> Option<u128>;

/// Calls `uuid::Uuid::parse_str(s)` and takes the number of the UUID.
/// Claimed: the result is what `parsed_uuid` names, and the hyphenated form
/// of any UUID parses back to that UUID (the crate documents that every form
/// it writes is accepted).
#[verifier::external_body]
pub(crate) fn parse_uuid(s: &str) -> (r: Option<u128>)
    ensures
        r == parsed_uuid(s@),
        forall|v: u128| s@ == uuid_hyphenated(v) ==> r == Some(v),
{
    match uuid::Uuid::parse_str(s) {
        Ok(u) => Some(u.as_u128()),
        Err(_) => None,
    }
}

/// The first eight characters of a UUID's text, as shown beside an edit.
pub fn short_uuid(v: u128) -> (s: String)
    ensures
        s@ == uuid_hyphenated(v).take(8),
{
    let full = uuid_string(v);
    let text = full.as_str();
    let mut s = String::new();
    let mut i: usize = 0;
    while i < 8
        invariant
            i <= 8,
            text@ == uuid_hyphenated(v),
            text@.len() == 36,
            s@ == text@.take(i as int),
        decreases 8 - i,
    {
        let c = text.get_char(i);
        crate::text::push_char(&mut s, c);
        proof {
            assert(text@.take(i as int + 1) =~= text@.take(i as int).push(c));
        }
        i = i + 1;
    }
    s
}

} // verus!
