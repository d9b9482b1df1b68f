//! What is asked of a homeserver, and what is made of its answers.

use crate::io_error::{io_error, IoErrorKind};
use crate::matrix::json::string_members;
use crate::matrix::json_reading::object_read;
use crate::matrix::laws::{law_messages_read_back, law_synced_rooms_are_known};
use crate::matrix::media::{is_two_parts, media_link, mxc_path, parse_mxc, url_join};
use crate::matrix::models::Room;
use crate::matrix::protocol::{Event, JoinedRoomSyncResponse, SyncResponse};
use crate::matrix::{
    known_room, make_message_request, rooms_updated, without_echoes, JoinRequest, JsonPostError,
    LoginRequest, MatrixClient, MessageRequest, SyncAction, SyncEvent, TextMessage,
};
use crate::poll::Polled;
use crate::text::{begins_with, decimal};
use vstd::prelude::*;

verus! {

/// A login is asked for with the very name and password, and with the name of this
/// program as the device's.
pub proof fn law_logins_are_requested(user: String, password: String, r: LoginRequest)
    requires
        call_ensures(MatrixClient::login, (user, password), r),
    ensures
        r.user@ == user@,
        r.password@ == password@,
        r.device_id is None,
        r.initial_device_display_name is Some,
        r.initial_device_display_name->0@ == seq![
            'm',
            'a',
            't',
            'r',
            'i',
            'x',
            '-',
            'i',
            'r',
            'c',
            'd',
        ],
{
    reveal_strlit("matrix-ircd");
}

/// A session begins with its user and its homeserver, and knows no room.
pub proof fn law_sessions_begin(user_id: String, url: String, r: MatrixClient, logged_in: MatrixClient)
    requires
        call_ensures(MatrixClient::new, (user_id, url), r),
        call_ensures(MatrixClient::logged_in, (url, Some(user_id)), logged_in),
    ensures
        r@.user_id == user_id@,
        r@.url == url@,
        forall|room_id: Seq<char>| !r@.rooms.contains_key(room_id),
        !r@.streaming,
        logged_in@ == r@,
{
}

/// A room is asked to be joined by the very ID or alias.
pub proof fn law_joins_are_requested(client: MatrixClient, room_id: String, r: JoinRequest)
    requires
        call_ensures(MatrixClient::join_room, (&client, room_id), r),
    ensures
        r.room_id@ == room_id@,
        r.third_party_signed is None,
{
}

/// A text reads as a JSON object with a type and a body, and no other members.
pub open spec fn reads_as_message(json: Seq<char>, msgtype: Seq<char>, body: Seq<char>) -> bool {
    let members = object_read(json);
    &&& members is Some
    &&& members->0.dom() == set!["msgtype"@, "body"@]
    &&& members->0["msgtype"@] == msgtype
    &&& members->0["body"@] == body
}

/// A message of a user is text with the very words, and its JSON text reads back so.
pub proof fn law_messages_keep_their_text(
    text: String,
    message: TextMessage,
    r: Result<String, serde_json::Error>,
)
    requires
        call_ensures(TextMessage::new, (text,), message),
        call_ensures(TextMessage::raw_json, (message,), r),
    ensures
        r is Ok,
        reads_as_message(r->Ok_0@, seq!['m', '.', 't', 'e', 'x', 't'], text@),
{
    reveal_strlit("m.text");
    assert("m.text"@ =~= seq!['m', '.', 't', 'e', 'x', 't']);
    law_messages_read_back(message.msgtype@, message.body@);
}

/// A request asks to send a text to a room, in a transaction with this number.
pub open spec fn asks_to_send(
    request: MessageRequest,
    room_id: Seq<char>,
    text: Seq<char>,
    number: nat,
) -> bool {
    &&& request.room_id@ == room_id
    &&& request.event_type@ == "m.room.message"@
    &&& request.txn_id@ == seq!['m', 'i', 'r', 'c', 'd', '-'] + decimal(number)
    &&& reads_as_message(request.data@, seq!['m', '.', 't', 'e', 'x', 't'], text)
}

/// What contracts call the request for a text message asks to send it.
pub proof fn lemma_asks_to_send(
    request: MessageRequest,
    room_id: Seq<char>,
    text: Seq<char>,
    number: nat,
)
    requires
        request@ == crate::matrix::text_message_request(room_id, text, number),
    ensures
        asks_to_send(request, room_id, text, number),
{
    reveal_strlit("m.text");
    assert("m.text"@ =~= seq!['m', '.', 't', 'e', 'x', 't']);
    reveal_strlit("mircd-");
    assert("mircd-"@ =~= seq!['m', 'i', 'r', 'c', 'd', '-']);
    law_messages_read_back("m.text"@, text);
}

/// The request for a message names the room, the kind of event and the transaction, and
/// holds the very text.
pub proof fn law_messages_are_requested(
    room_id: String,
    text: String,
    number: u16,
    r: Result<MessageRequest, serde_json::Error>,
)
    requires
        call_ensures(make_message_request, (room_id, text, number), r),
    ensures
        r is Ok,
        asks_to_send(r->Ok_0, room_id@, text@, number as nat),
{
    lemma_asks_to_send(r->Ok_0, room_id@, text@, number as nat);
}

/// A session asks for a message with the very text to be sent to the very room, in some
/// transaction.
pub proof fn law_sessions_request_messages(
    client: MatrixClient,
    room_id: String,
    text: String,
    r: Result<MessageRequest, serde_json::Error>,
)
    requires
        call_ensures(MatrixClient::send_text_message, (&client, room_id, text), r),
    ensures
        r is Ok,
        exists|number: u16| #[trigger] asks_to_send(r->Ok_0, room_id@, text@, number as nat),
{
    let number = choose|number: u16|
        r->Ok_0@ == #[trigger] crate::matrix::text_message_request(
            room_id@,
            text@,
            number as nat,
        );
    lemma_asks_to_send(r->Ok_0, room_id@, text@, number as nat);
}

/// The event was sent by this gateway: it came with a transaction ID that begins so.
pub open spec fn came_from_here(event: Event) -> bool {
    event.unsigned.transaction_id is Some && seq!['m', 'i', 'r', 'c', 'd', '-'].is_prefix_of(
        event.unsigned.transaction_id->0@,
    )
}

/// The answer `kept` is the answer `response` without the events that came from here:
/// the rooms are the same, and of each room all other events are there, in order.
pub open spec fn keeps_the_rest(response: SyncResponse, kept: SyncResponse) -> bool {
    &&& kept.next_batch == response.next_batch
    &&& kept.rooms.join@.len() == response.rooms.join@.len()
    &&& forall|i: int|
        0 <= i < kept.rooms.join@.len() ==> {
            let (room, asked) = (#[trigger] kept.rooms.join@[i], response.rooms.join@[i]);
            let (left, all) = (room.1.timeline.events@, asked.1.timeline.events@);
            &&& room.0 == asked.0
            &&& left == all.filter(|event: Event| !came_from_here(event))
            &&& forall|event: Event| #[trigger]
                left.contains(event) <==> all.contains(event) && !came_from_here(event)
        }
}

proof fn lemma_echoes(events: Seq<Event>)
    ensures
        without_echoes(events) == events.filter(|event: Event| !came_from_here(event)),
        forall|event: Event| #[trigger]
            without_echoes(events).contains(event) <==> events.contains(event) && !came_from_here(
                event,
            ),
{
    let keep = |event: Event| !crate::matrix::is_echo(event@);
    let rest = |event: Event| !came_from_here(event);
    reveal_strlit("mircd-");
    let prefix = "mircd-"@;
    assert(prefix =~= seq!['m', 'i', 'r', 'c', 'd', '-']);
    assert forall|event: Event| #[trigger] keep(event) == rest(event) by {
        if let Some(id) = event.unsigned.transaction_id {
            if begins_with(id@, prefix) {
                assert(prefix =~= id@.subrange(0, prefix.len() as int));
            }
            if prefix.is_prefix_of(id@) {
                assert(id@.take(prefix.len() as int) =~= prefix);
            }
        }
    }
    assert(keep =~= rest);
    let left = events.filter(rest);
    assert forall|event: Event| #[trigger] left.contains(event) <==> events.contains(event)
        && rest(event) by {
        if left.contains(event) {
            let j = choose|j: int| 0 <= j < left.len() && left[j] == event;
            events.lemma_filter_contains_rev(rest, event);
            events.lemma_filter_pred(rest, j);
        }
        if events.contains(event) && rest(event) {
            let j = choose|j: int| 0 <= j < events.len() && events[j] == event;
            events.lemma_filter_contains(rest, j);
        }
    }
}

/// The rooms in an answer are all different.
pub open spec fn distinct_rooms(join: Seq<(String, JoinedRoomSyncResponse)>) -> bool {
    forall|i: int, j: int|
        0 <= i < j < join.len() ==> (#[trigger] join[i]).0@ != (#[trigger] join[j]).0@
}

proof fn lemma_rooms_updated<F: Fn(Option<Room>, &String, &JoinedRoomSyncResponse) -> Room>(
    update: F,
    before: Map<Seq<char>, Room>,
    join: Seq<(String, JoinedRoomSyncResponse)>,
    after: Map<Seq<char>, Room>,
    i: int,
)
    requires
        rooms_updated(update, before, join, after),
        distinct_rooms(join),
        0 <= i < join.len(),
    ensures
        after.contains_key(join[i].0@),
        call_ensures(
            update,
            (known_room(before, join[i].0@), &join[i].0, &join[i].1),
            after[join[i].0@],
        ),
    decreases join.len(),
{
    let (last_id, sync) = join.last();
    let front = join.drop_last();
    let (mid, room) = choose|mid: Map<Seq<char>, Room>, room: Room|
        {
            &&& rooms_updated(update, before, front, mid)
            &&& #[trigger] call_ensures(
                update,
                (known_room(mid, last_id@), &last_id, &sync),
                room,
            )
            &&& after == mid.insert(last_id@, room)
        };
    if i < front.len() {
        assert(distinct_rooms(front)) by {
            assert forall|k: int, j: int| 0 <= k < j < front.len() implies (
            #[trigger] front[k]).0@ != (#[trigger] front[j]).0@ by {
                assert(front[k] == join[k] && front[j] == join[j]);
            }
        }
        lemma_rooms_updated(update, before, front, mid, i);
        assert(front[i] == join[i]);
        assert(join[i].0@ != join[join.len() - 1].0@);
    } else {
        law_synced_rooms_are_known(update, before, front, mid);
        assert forall|k: int| 0 <= k < front.len() implies (#[trigger] front[k]).0@ != last_id@ by {
            assert(front[k] == join[k]);
            assert(join[k].0@ != join[join.len() - 1].0@);
        }
        assert(known_room(mid, last_id@) == known_room(before, last_id@));
    }
}

/// What each step towards the next answer comes to. The stream is opened once. An
/// answer is given back without the events that came from here, and with all others;
/// what is new in each of its rooms is worked into what was known of that room, and
/// nothing happens to other rooms. An error, the end of the stream, and that there is
/// nothing yet are given back as they are, and change nothing.
pub proof fn law_steps_of_syncing<
    E,
    F: Fn(Option<Room>, &String, &JoinedRoomSyncResponse) -> Room,
>(client: &mut MatrixClient, update: F, event: SyncEvent<E>, action: SyncAction<E>)
    requires
        call_ensures(MatrixClient::poll_sync::<E, F>, (client, &update, event), action),
    ensures
        ({
            let (c, d) = (old(client)@, final(client)@);
            &&& d.user_id == c.user_id
            &&& d.url == c.url
            &&& match event {
                SyncEvent::Start => {
                    &&& d.rooms == c.rooms
                    &&& d.streaming
                    &&& c.streaming ==> action is PollStream
                    &&& !c.streaming ==> action is OpenStream
                },
                SyncEvent::Item(Polled::Ready(Some(Ok(response)))) => {
                    &&& d.streaming == c.streaming
                    &&& action matches SyncAction::Return(Polled::Ready(Some(Ok(kept))))
                    &&& keeps_the_rest(response, kept)
                    &&& distinct_rooms(response.rooms.join@) ==> forall|i: int|
                        0 <= i < kept.rooms.join@.len() ==> {
                            let (id, sync) = #[trigger] kept.rooms.join@[i];
                            let known = if c.rooms.contains_key(id@) {
                                Some(c.rooms[id@])
                            } else {
                                None
                            };
                            &&& d.rooms.contains_key(id@)
                            &&& call_ensures(update, (known, &id, &sync), d.rooms[id@])
                        }
                    &&& forall|id: Seq<char>|
                        (forall|i: int|
                            0 <= i < kept.rooms.join@.len() ==> (
                            #[trigger] kept.rooms.join@[i]).0@ != id) ==> {
                            &&& #[trigger] d.rooms.contains_key(id) <==> c.rooms.contains_key(id)
                            &&& c.rooms.contains_key(id) ==> d.rooms[id] == c.rooms[id]
                        }
                },
                SyncEvent::Item(item) => d == c && action == SyncAction::<E>::Return(item),
            }
        }),
{
    let (c, d) = (old(client)@, final(client)@);
    if let SyncEvent::Item(Polled::Ready(Some(Ok(response)))) = event {
        let kept = action->Return_0->Ready_0->0->Ok_0;
        let join = kept.rooms.join@;
        assert forall|i: int| 0 <= i < join.len() implies {
            let (room, asked) = (#[trigger] join[i], response.rooms.join@[i]);
            let (left, all) = (room.1.timeline.events@, asked.1.timeline.events@);
            &&& room.0 == asked.0
            &&& left == all.filter(|event: Event| !came_from_here(event))
            &&& forall|event: Event| #[trigger]
                left.contains(event) <==> all.contains(event) && !came_from_here(event)
        } by {
            lemma_echoes(response.rooms.join@[i].1.timeline.events@);
        }
        assert(keeps_the_rest(response, kept));
        law_synced_rooms_are_known(update, c.rooms, join, d.rooms);
        if distinct_rooms(response.rooms.join@) {
            assert(distinct_rooms(join)) by {
                assert forall|i: int, j: int| 0 <= i < j < join.len() implies (
                #[trigger] join[i]).0@ != (#[trigger] join[j]).0@ by {
                    assert(response.rooms.join@[i].0@ != response.rooms.join@[j].0@);
                }
            }
            assert forall|i: int| 0 <= i < join.len() implies {
                let (id, sync) = #[trigger] join[i];
                &&& d.rooms.contains_key(id@)
                &&& call_ensures(update, (known_room(c.rooms, id@), &id, &sync), d.rooms[id@])
            } by {
                lemma_rooms_updated(update, c.rooms, join, d.rooms, i);
            }
        }
        assert forall|id: Seq<char>|
            (forall|i: int| 0 <= i < join.len() ==> (#[trigger] join[i]).0@ != id) implies {
            &&& #[trigger] d.rooms.contains_key(id) <==> c.rooms.contains_key(id)
            &&& c.rooms.contains_key(id) ==> d.rooms[id] == c.rooms[id]
        } by {
            assert(known_room(d.rooms, id) == known_room(c.rooms, id));
        }
    }
}

/// A room is found by its ID as it is known.
pub proof fn law_rooms_are_found(client: MatrixClient, room_id: &str, r: Option<&Room>)
    requires
        call_ensures(MatrixClient::get_room, (&client, room_id), r),
    ensures
        r is Some <==> client@.rooms.contains_key(room_id@),
        r is Some ==> *r->0 == client@.rooms[room_id@],
{
}

/// The user's ID is that of the session.
pub proof fn law_users_are_known(client: MatrixClient, r: &String)
    requires
        call_ensures(MatrixClient::get_user_id, (&client,), r),
    ensures
        r@ == client@.user_id,
{
}

/// Contracts see a room with all that is known of it, each in its place.
pub proof fn law_rooms_are_seen_as_they_are(room: Room)
    ensures
        room@.room_id == room.room_id@,
        room@.canonical_alias is Some <==> room.canonical_alias is Some,
        room.canonical_alias is Some ==> room@.canonical_alias->0 == room.canonical_alias->0@,
        room@.name is Some <==> room.name is Some,
        room.name is Some ==> room@.name->0 == room.name->0@,
        room@.topic is Some <==> room.topic is Some,
        room.topic is Some ==> room@.topic->0 == room.topic->0@,
        room@.members.len() == room.members@.len(),
        forall|i: int|
            0 <= i < room.members@.len() ==> {
                let (seen, member) = (#[trigger] room@.members[i], room.members@[i]);
                &&& seen.user_id == member.user_id@
                &&& seen.display_name == member.display_name@
                &&& seen.moderator == member.moderator
            },
{
}

/// The link is an `mxc` link to a file with this ID on this server.
pub open spec fn is_mxc(url: Seq<char>, server: Seq<char>, file: Seq<char>) -> bool {
    &&& url == seq!['m', 'x', 'c', ':', '/', '/'] + server + seq!['/'] + file
    &&& server.len() > 0
    &&& file.len() > 0
    &&& !server.contains('/')
    &&& !file.contains('/')
}

proof fn lemma_mxc(url: Seq<char>)
    ensures
        forall|server: Seq<char>, file: Seq<char>| #[trigger]
            is_mxc(url, server, file) ==> mxc_path(url) == Some(server + seq!['/'] + file),
        mxc_path(url) is Some ==> exists|server: Seq<char>, file: Seq<char>| #[trigger]
            is_mxc(url, server, file) && mxc_path(url) == Some(server + seq!['/'] + file),
{
    reveal_strlit("mxc://");
    let head = "mxc://"@;
    assert(head =~= seq!['m', 'x', 'c', ':', '/', '/']);
    let path = url.skip(6);
    assert forall|server: Seq<char>, file: Seq<char>| #[trigger]
        is_mxc(url, server, file) implies mxc_path(url) == Some(server + seq!['/'] + file) by {
        assert(url.take(6) =~= head);
        assert(path =~= server + seq!['/'] + file);
        let at = server.len() as int;
        assert forall|i: int| 0 <= i < path.len() && i != at implies path[i] != '/' by {
            if i < at {
                assert(path[i] == server[i]);
                assert(server.contains(server[i]));
            } else {
                assert(path[i] == file[i - at - 1]);
                assert(file.contains(file[i - at - 1]));
            }
        }
        assert(is_two_parts(path, at));
    }
    if mxc_path(url) is Some {
        let at = choose|at: int| is_two_parts(path, at);
        let server = path.take(at);
        let file = path.skip(at + 1);
        assert(path =~= server + seq!['/'] + file);
        assert(url =~= url.take(6) + path);
        assert(url =~= seq!['m', 'x', 'c', ':', '/', '/'] + server + seq!['/'] + file);
        assert(is_mxc(url, server, file));
    }
}

/// An `mxc` link is read as the server and the file, with a slash between them; nothing
/// is read out of any other link.
pub proof fn law_mxc_links_are_read(url: &str, r: Option<String>)
    requires
        call_ensures(parse_mxc, (url,), r),
    ensures
        forall|server: Seq<char>, file: Seq<char>| #[trigger]
            is_mxc(url@, server, file) ==> r is Some && r->0@ == server + seq!['/'] + file,
        r is Some ==> exists|server: Seq<char>, file: Seq<char>| #[trigger]
            is_mxc(url@, server, file),
{
    lemma_mxc(url@);
}

/// A link leads to a file: an `mxc` link to the homeserver's download of it, and any
/// other link to where it leads by itself. Where the download cannot be named, there
/// is no link.
pub open spec fn leads_to(homeserver: Seq<char>, url: Seq<char>, link: Option<Seq<char>>) -> bool {
    &&& forall|server: Seq<char>, file: Seq<char>| #[trigger]
        is_mxc(url, server, file) ==> {
            let downloads = url_join(homeserver, "/_matrix/media/v1/download/"@);
            &&& downloads is None ==> link is None
            &&& downloads is Some ==> link == url_join(downloads->0, server + seq!['/'] + file)
        }
    &&& (forall|server: Seq<char>, file: Seq<char>| !(#[trigger] is_mxc(url, server, file)))
        ==> link == Some(url)
}

/// What contracts call the link of a file is where it leads.
pub proof fn lemma_media_links(homeserver: Seq<char>, url: Seq<char>)
    ensures
        leads_to(homeserver, url, media_link(homeserver, url)),
{
    lemma_mxc(url);
}

/// A link leads to one place only.
pub proof fn lemma_media_links_are_one(homeserver: Seq<char>, url: Seq<char>)
    ensures
        forall|link: Option<Seq<char>>| #[trigger]
            leads_to(homeserver, url, link) <==> link == media_link(homeserver, url),
{
    lemma_mxc(url);
    lemma_media_links(homeserver, url);
    if mxc_path(url) is Some {
        let (server, file) = choose|server: Seq<char>, file: Seq<char>| #[trigger]
            is_mxc(url, server, file) && mxc_path(url) == Some(server + seq!['/'] + file);
        assert(is_mxc(url, server, file));
    }
}

/// A file is found where its link leads.
pub proof fn law_files_are_found(client: MatrixClient, url: &str, r: String, tried: Option<String>)
    requires
        call_ensures(MatrixClient::media_url, (&client, url), r),
        call_ensures(MatrixClient::try_media_url, (&client, url), tried),
    ensures
        tried is Some ==> leads_to(client@.url, url@, Some(r@)) && tried->0@ == r@,
        tried is None ==> leads_to(client@.url, url@, None),
{
    lemma_media_links(client@.url, url@);
}

/// A failed request is the I/O error that it failed with, or one that gives the status
/// code.
pub proof fn law_failed_requests(failure: JsonPostError, r: std::io::Error)
    requires
        call_ensures(JsonPostError::into_io_error, (failure,), r),
    ensures
        failure is Io ==> r == failure->Io_0,
        failure is ErrorResponse ==> r == io_error(
            IoErrorKind::Other,
            "Received "@ + decimal(failure->ErrorResponse_0 as nat) + " response"@,
        ),
{
}

/// An I/O error is a failed request as it is, and comes out of it again.
pub proof fn law_io_errors_come_through(
    err: std::io::Error,
    failure: JsonPostError,
    r: std::io::Error,
)
    requires
        call_ensures(<JsonPostError as From<std::io::Error>>::from, (err,), failure),
        call_ensures(JsonPostError::into_io_error, (failure,), r),
    ensures
        failure is Io,
        r == err,
{
}

/// Contracts see an event with all that is read of it, each in its place.
pub proof fn law_events_are_seen_as_they_are(event: Event)
    ensures
        event@.etype == event.etype@,
        event@.sender == event.sender@,
        event@.content == string_members(event.content),
        event@.transaction_id is Some <==> event.unsigned.transaction_id is Some,
        event.unsigned.transaction_id is Some ==> event@.transaction_id->0
            == event.unsigned.transaction_id->0@,
{
}

} // verus!
