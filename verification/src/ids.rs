//! Identifiers: 128-bit UUIDs held as integers, in the order of their bytes.

use vstd::arithmetic::power::pow;
use vstd::prelude::*;
use vstd::string::*;

verus! {

pub type Id = u128;

/// The lower-case hexadecimal digit for a value below sixteen.
pub open spec fn hex_digit(value: int) -> char {
    if 0 <= value < 10 {
        (('0' as u32) + value) as char
    } else {
        (('a' as u32) + value - 10) as char
    }
}

/// The thirty-two lower-case hexadecimal digits of an id, most significant first.
pub open spec fn simple_id(id: Id) -> Seq<char> {
    Seq::new(32, |i: int| hex_digit((id as int / pow(16, (31 - i) as nat)) % 16))
}

/// The digits of an id in groups of 8, 4, 4, 4 and 12 with hyphens between them.
pub open spec fn hyphenated_id(id: Id) -> Seq<char> {
    let digits = simple_id(id);
    digits.subrange(0, 8).push('-') + digits.subrange(8, 12).push('-') + digits.subrange(
        12,
        16,
    ).push('-') + digits.subrange(16, 20).push('-') + digits.subrange(20, 32)
}

/// The first eight digits of an id, which stand for it in listings.
pub open spec fn short_id(id: Id) -> Seq<char> {
    simple_id(id).subrange(0, 8)
}

/// Whether an id has the version (4) and the variant bits (binary 10) of one that was drawn.
#[verifier::opaque]
pub open spec fn is_drawn(id: Id) -> bool {
    &&& (id / 0x1_0000_0000_0000_0000_000) % 16 == 4
    &&& (id / 0x4000_0000_0000_0000) % 4 == 2
}

/// `Uuid::new_v4` draws a random UUID: of its value only the version (4) and the
/// variant bits (binary 10) are known.
#[verifier::external_body]
pub(crate) fn new_id() -> (id: Id)
    ensures
        is_drawn(id),
{
    uuid::Uuid::new_v4().as_u128()
}

/// `Uuid::simple` prints the thirty-two lower-case hexadecimal digits of the UUID
/// whose big-endian bytes form `id`.
#[verifier::external_body]
pub(crate) fn simple_text(id: Id) -> (text: String)
    ensures
        text@ == simple_id(id),
{
    uuid::Uuid::from_u128(id).simple().to_string()
}

/// What `Uuid::parse_str` makes of a text: the id, or the words of its error.
pub uninterp spec fn uuid_value(text: Seq<char>) -> Result<u128, Seq<char>>;

/// `Uuid::parse_str` reads an id in any of the formats that UUIDs are printed in, and says in
/// words what is wrong with a text that holds none.
#[verifier::external_body]
pub(crate) fn read_id(text: &str) -> (r: Result<Id, String>)
    ensures
        match uuid_value(text@) {
            Ok(id) => r == Ok::<Id, String>(id),
            Err(words) => r matches Err(e) && e@ == words,
        },
{
    uuid::Uuid::parse_str(text).map(|id| id.as_u128()).map_err(|error| error.to_string())
}

/// `Uuid`'s `Display` prints those digits in hyphenated groups, which `Uuid::parse_str` reads
/// back.
#[verifier::external_body]
pub(crate) fn hyphenated_text(id: Id) -> (text: String)
    ensures
        text@ == hyphenated_id(id),
        uuid_value(text@) is Ok && uuid_value(text@)->Ok_0 == id,
{
    uuid::Uuid::from_u128(id).to_string()
}

/// The eight digits that stand for an id in listings.
pub fn short_task_id(id: Id) -> (text: String)
    ensures
        text@ == short_id(id),
{
    let digits = simple_text(id);
    digits.as_str().substring_char(0, 8).to_owned()
}

} // verus!
