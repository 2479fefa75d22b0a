//! Identifiers: UUIDs as 128-bit numbers, conversations and views.

use vstd::prelude::*;

verus! {

/// The lower-case hexadecimal digit of a number below 16.
pub open spec fn hex_digit(n: int) -> char {
    if n < 10 {
        (0x30 + n) as char
    } else {
        (0x57 + n) as char
    }
}

/// The hexadecimal digit `k` of a 128-bit number, from the most significant.
pub open spec fn nibble(id: u128, k: int) -> char {
    hex_digit(((id >> ((124 - 4 * k) as u128)) & 0xf) as int)
}

/// The hyphenated form of a UUID: 32 hexadecimal digits in groups of 8, 4, 4,
/// 4 and 12.
pub open spec fn hyphenated(id: u128) -> Seq<char> {
    Seq::new(
        36,
        |i: int|
            if i == 8 || i == 13 || i == 18 || i == 23 {
                '-'
            } else if i < 8 {
                nibble(id, i)
            } else if i < 13 {
                nibble(id, i - 1)
            } else if i < 18 {
                nibble(id, i - 2)
            } else if i < 23 {
                nibble(id, i - 3)
            } else {
                nibble(id, i - 4)
            },
    )
}

/// The UUID that a text denotes, or what is wrong with the text.
pub uninterp spec fn parsed_uuid(s: Seq<char>) -> Result<u128, Seq<char>>;

/// A result with the text of its error.
pub open spec fn uuid_result(r: Result<u128, String>) -> Result<u128, Seq<char>> {
    match r {
        Ok(id) => Ok(id),
        Err(e) => Err(e@),
    }
}

/// `uuid::Uuid::parse_str` reads a UUID in one of its textual forms; the
/// outcome, with the text of the error, depends on the text alone.
#[verifier::external_body]
pub(crate) fn parse_uuid(s: &str) -> (r: Result<u128, String>)
    ensures
        uuid_result(r) == parsed_uuid(s@),
{
    uuid::Uuid::parse_str(s).map(|id| id.as_u128()).map_err(|error| error.to_string())
}

/// `uuid::Uuid`'s `Display` writes the hyphenated lower-case form, which
/// `uuid::Uuid::parse_str` reads back.
#[verifier::external_body]
pub(crate) fn uuid_text(id: u128) -> (r: String)
    ensures
        r@ == hyphenated(id),
        parsed_uuid(r@) is Ok,
        parsed_uuid(r@)->Ok_0 == id,
{
    uuid::Uuid::from_u128(id).to_string()
}

/// Whether a number is a random UUID: its version field is 4 and its variant
/// is the one of RFC 9562.
pub open spec fn is_v4(id: u128) -> bool {
    id & 0xf000_c000_0000_0000_0000 == 0x4000_8000_0000_0000_0000
}

/// Whether a text is the hyphenated form of a random UUID.
pub open spec fn is_v4_text(s: Seq<char>) -> bool {
    exists|id: u128| is_v4(id) && s == #[trigger] hyphenated(id)
}

/// `uuid::Uuid::new_v4` makes a random UUID: its version field is 4 and its
/// variant is the one of RFC 9562. Nothing else is known of it.
#[verifier::external_body]
pub(crate) fn random_uuid() -> (r: u128)
    ensures
        is_v4(r),
{
    uuid::Uuid::new_v4().as_u128()
}

/// A fresh random UUID in its hyphenated form.
pub(crate) fn random_uuid_text() -> (r: String)
    ensures
        is_v4_text(r@),
{
    let id: u128 = random_uuid();
    let r = uuid_text(id);
    assert(is_v4(id) && r@ == hyphenated(id));
    r
}

/// The identity of a conversation.
#[derive(Clone, Copy, Debug, PartialEq, Eq, Hash, Structural)]
pub struct AIConversationId(pub u128);

impl AIConversationId {
    /// A fresh random identity.
    pub fn new() -> (r: Self)
        ensures
            is_v4(r.0),
    {
        AIConversationId(random_uuid())
    }

    /// The textual form, which names the conversation in messages.
    pub fn text(&self) -> (r: String)
        ensures
            r@ == hyphenated(self.0),
    {
        uuid_text(self.0)
    }
}

/// The identity of a view or of a terminal surface within the process.
#[derive(Clone, Copy, Debug, PartialEq, Eq, Hash, Structural)]
pub struct EntityId(pub usize);

} // verus!
