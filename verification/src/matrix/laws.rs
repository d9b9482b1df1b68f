//! What holds of a session whatever the homeserver answers.

use crate::matrix::json::json_string;
use crate::matrix::json_reading::{
    blanks_skipped, law_members_read_back, lemma_plain_string, members_read, object_read,
};
use crate::matrix::models::Room;
use crate::matrix::protocol::{Event, EventView, JoinedRoomSyncResponse, SyncResponse};
use crate::matrix::{
    echoes_dropped, is_echo, known_room, message_json, message_members, rooms_updated,
    text_message_request, transaction_id, without_echoes,
};
use vstd::prelude::*;

verus! {

/// A message that this gateway sends is told apart when it comes back: an event
/// with the transaction of any text message request is an echo.
pub proof fn law_own_messages_are_echoes(
    room_id: Seq<char>,
    body: Seq<char>,
    number: nat,
    event: EventView,
)
    requires
        event.transaction_id == Some(text_message_request(room_id, body, number).txn_id),
    ensures
        is_echo(event),
{
    let prefix = "mircd-"@;
    assert(transaction_id(number).take(prefix.len() as int) =~= prefix);
}

proof fn lemma_message_text(msgtype: Seq<char>, body: Seq<char>)
    ensures
        message_json(msgtype, body) == seq!['{'] + (json_string("msgtype"@) + seq![':']
            + json_string(msgtype) + (seq![','] + (json_string("body"@) + seq![':'] + json_string(
            body,
        ) + seq!['}']))),
        "msgtype"@ != "body"@,
{
    reveal_strlit("msgtype");
    reveal_strlit("body");
    reveal_strlit("{\"msgtype\":");
    reveal_strlit(",\"body\":");
    reveal_strlit("}");
    lemma_plain_string("msgtype"@);
    lemma_plain_string("body"@);
    assert("msgtype"@.len() != "body"@.len());
    let quote = seq!['"'];
    assert("{\"msgtype\":"@ =~= seq!['{'] + (quote + "msgtype"@ + quote) + seq![':']);
    assert(",\"body\":"@ =~= seq![','] + (quote + "body"@ + quote) + seq![':']);
    assert("}"@ =~= seq!['}']);
    assert(message_json(msgtype, body) =~= seq!['{'] + (json_string("msgtype"@) + seq![':']
        + json_string(msgtype) + (seq![','] + (json_string("body"@) + seq![':'] + json_string(body)
        + seq!['}']))));
}

/// The JSON text of a message is an object with two members, which read back as
/// they were: the type and the text of the message.
pub proof fn law_messages_read_back(msgtype: Seq<char>, body: Seq<char>)
    ensures
        object_read(message_json(msgtype, body)) == Some(message_members(msgtype, body)),
        message_members(msgtype, body).dom() == set!["msgtype"@, "body"@],
        message_members(msgtype, body)["msgtype"@] == msgtype,
        message_members(msgtype, body)["body"@] == body,
{
    let (type_key, body_key) = ("msgtype"@, "body"@);
    lemma_message_text(msgtype, body);
    let end = seq!['}'];
    let second = json_string(body_key) + seq![':'] + json_string(body) + end;
    let rest = seq![','] + second;
    let inside = json_string(type_key) + seq![':'] + json_string(msgtype) + rest;
    let json = seq!['{'] + inside;
    assert(blanks_skipped(json) == json);
    assert(json.skip(1) =~= inside);
    assert(inside[0] == '"');
    assert(blanks_skipped(inside) == inside);
    law_members_read_back(type_key, msgtype, rest);
    assert(blanks_skipped(rest) == rest);
    assert(rest.skip(1) =~= second);
    law_members_read_back(body_key, body, end);
    assert(blanks_skipped(end) == end);
    assert(blanks_skipped(end.skip(1)) == end.skip(1));
    let none = Map::<Seq<char>, Seq<char>>::empty();
    assert(members_read(second, none.insert(type_key, msgtype)) == Some(
        none.insert(type_key, msgtype).insert(body_key, body),
    ));
    assert(members_read(inside, none) == members_read(second, none.insert(type_key, msgtype)));
}

/// The JSON text of a message tells which message it is.
pub proof fn law_messages_are_told_apart(
    msgtype: Seq<char>,
    body: Seq<char>,
    other_msgtype: Seq<char>,
    other_body: Seq<char>,
)
    requires
        message_json(msgtype, body) == message_json(other_msgtype, other_body),
    ensures
        msgtype == other_msgtype,
        body == other_body,
{
    law_messages_read_back(msgtype, body);
    law_messages_read_back(other_msgtype, other_body);
    reveal_strlit("msgtype");
    reveal_strlit("body");
    let (members, others) = (
        message_members(msgtype, body),
        message_members(other_msgtype, other_body),
    );
    assert("msgtype"@.len() != "body"@.len());
    assert(members["msgtype"@] == others["msgtype"@]);
    assert(members["body"@] == others["body"@]);
}

/// No echo is left in an answer that was taken in, and nothing else is missing:
/// each event that is no echo is still there.
pub proof fn law_only_echoes_are_dropped(response: SyncResponse, kept: SyncResponse, i: int)
    requires
        echoes_dropped(response, kept),
        0 <= i < response.rooms.join@.len(),
    ensures
        forall|event: Event| #[trigger]
            kept.rooms.join@[i].1.timeline.events@.contains(event) <==> {
                &&& response.rooms.join@[i].1.timeline.events@.contains(event)
                &&& !is_echo(event@)
            },
{
    let all = response.rooms.join@[i].1.timeline.events@;
    let left = kept.rooms.join@[i].1.timeline.events@;
    assert(left == without_echoes(all));
    let keep = |event: Event| !is_echo(event@);
    assert forall|event: Event| #[trigger] left.contains(event) <==> all.contains(event)
        && !is_echo(event@) by {
        if left.contains(event) {
            let j = choose|j: int| 0 <= j < left.len() && left[j] == event;
            all.lemma_filter_contains_rev(keep, event);
            all.lemma_filter_pred(keep, j);
        }
        if all.contains(event) && keep(event) {
            let j = choose|j: int| 0 <= j < all.len() && all[j] == event;
            all.lemma_filter_contains(keep, j);
        }
    }
}

/// Every room that an answer speaks of is known afterwards, and what is known of
/// all other rooms stays as it was.
pub proof fn law_synced_rooms_are_known<
    F: Fn(Option<Room>, &String, &JoinedRoomSyncResponse) -> Room,
>(
    update: F,
    before: Map<Seq<char>, Room>,
    join: Seq<(String, JoinedRoomSyncResponse)>,
    after: Map<Seq<char>, Room>,
)
    requires
        rooms_updated(update, before, join, after),
    ensures
        forall|i: int| 0 <= i < join.len() ==> after.contains_key((#[trigger] join[i]).0@),
        forall|room_id: Seq<char>|
            (forall|i: int| 0 <= i < join.len() ==> (#[trigger] join[i]).0@ != room_id)
                ==> #[trigger] known_room(after, room_id) == known_room(before, room_id),
    decreases join.len(),
{
    if join.len() > 0 {
        let (last_id, sync) = join.last();
        let front = join.drop_last();
        let (mid, room) = choose|mid: Map<Seq<char>, Room>, room: Room|
            {
                &&& rooms_updated(update, before, front, mid)
                &&& #[trigger] call_ensures(
                    update,
                    (known_room(mid, last_id@), &last_id, &sync),
                    room,
                )
                &&& after == mid.insert(last_id@, room)
            };
        law_synced_rooms_are_known(update, before, front, mid);
        assert forall|i: int| 0 <= i < join.len() implies after.contains_key(
            (#[trigger] join[i]).0@,
        ) by {
            if i < front.len() {
                assert(join[i] == front[i]);
            }
        }
        assert forall|room_id: Seq<char>|
            (forall|i: int| 0 <= i < join.len() ==> (#[trigger] join[i]).0@
                != room_id) implies #[trigger] known_room(after, room_id) == known_room(
            before,
            room_id,
        ) by {
            assert(join[join.len() - 1].0@ != room_id);
            assert forall|i: int| 0 <= i < front.len() implies (#[trigger] front[i]).0@
                != room_id by {
                assert(join[i] == front[i]);
            }
            assert(known_room(mid, room_id) == known_room(before, room_id));
        }
    }
}

} // verus!
