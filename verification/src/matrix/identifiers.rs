//! The identifiers of rooms.

use vstd::prelude::*;

verus! {

/// A text is the ID or an alias of a room.
pub uninterp spec fn is_room_id_or_alias(text: Seq<char>) -> bool;

/// `RoomIdOrAliasId::try_from` of the crate behind `ruma_client::identifiers`
/// takes a text that is a room ID or a room alias, and nothing else; the text of
/// what it makes is the text that it took.
#[verifier::external_body]
pub(crate) fn room_id_or_alias(text: &str) -> (r: Option<String>)
    ensures
        match r {
            Some(id) => is_room_id_or_alias(text@) && id@ == text@,
            None => !is_room_id_or_alias(text@),
        },
{
    ruma_client::identifiers::RoomIdOrAliasId::try_from(text).ok().map(String::from)
}

} // verus!
