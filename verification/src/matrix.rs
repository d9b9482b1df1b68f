//! The Matrix side of the gateway: one session with a homeserver. It knows
//! nothing about IRC.
//!
//! Nothing here talks to the homeserver. What is to be requested of it is
//! handed out, and its answers are taken in.

pub mod identifiers;
pub mod json;
pub mod json_reading;
pub mod laws;
pub mod media;
pub mod models;
pub mod protocol;
pub mod session_laws;

use crate::io_error::{io_error, new_io_error, IoErrorKind};
use crate::matrix::json::{json_string, to_json_string};
use crate::matrix::json_reading::object_read;
use crate::matrix::laws::law_messages_read_back;
use crate::matrix::media::{join_url, media_link, parse_mxc};
use crate::matrix::models::Room;
use crate::matrix::protocol::{Event, EventView, JoinedRoomSyncResponse, SyncResponse};
use crate::poll::Polled;
use crate::table::Table;
use crate::text::{begins_with, decimal, joined, starts_with, to_decimal};
use vstd::prelude::*;
use vstd::string::StringExecFns;

verus! {

/// A plain text message.
#[derive(Debug)]
pub struct TextMessage {
    pub msgtype: String,
    pub body: String,
}

/// The JSON text of a message.
pub open spec fn message_json(msgtype: Seq<char>, body: Seq<char>) -> Seq<char> {
    "{\"msgtype\":"@ + json_string(msgtype) + ",\"body\":"@ + json_string(body) + "}"@
}

/// The members of a message as a JSON object.
pub open spec fn message_members(msgtype: Seq<char>, body: Seq<char>) -> Map<Seq<char>, Seq<char>> {
    Map::empty().insert("msgtype"@, msgtype).insert("body"@, body)
}

impl TextMessage {
    /// A message with this text.
    pub fn new(text: String) -> (r: TextMessage)
        ensures
            r.msgtype@ == "m.text"@,
            r.body == text,
    {
        TextMessage { msgtype: "m.text".to_owned(), body: text }
    }

    /// The message as JSON text.
    pub fn raw_json(self) -> (r: Result<String, serde_json::Error>)
        ensures
            r is Ok,
            r->Ok_0@ == message_json(self.msgtype@, self.body@),
            object_read(r->Ok_0@) == Some(message_members(self.msgtype@, self.body@)),
    {
        proof {
            law_messages_read_back(self.msgtype@, self.body@);
        }
        let msgtype: String = match to_json_string(self.msgtype.as_str()) {
            Ok(json) => json,
            Err(e) => return Err(e),
        };
        let body: String = match to_json_string(self.body.as_str()) {
            Ok(json) => json,
            Err(e) => return Err(e),
        };
        let mut json: String = joined("{\"msgtype\":", msgtype.as_str());
        json.append(",\"body\":");
        json.append(body.as_str());
        json.append("}");
        Ok(json)
    }
}

/// A request to log in.
#[derive(Debug)]
pub struct LoginRequest {
    pub user: String,
    pub password: String,
    pub device_id: Option<String>,
    pub initial_device_display_name: Option<String>,
}

/// A request to send an event to a room.
#[derive(Debug)]
pub struct MessageRequest {
    pub room_id: String,
    pub event_type: String,
    pub txn_id: String,
    /// The content of the event, in JSON.
    pub data: String,
}

/// A request to send an event, as contracts see it.
#[verifier::ext_equal]
pub ghost struct MessageRequestView {
    pub room_id: Seq<char>,
    pub event_type: Seq<char>,
    pub txn_id: Seq<char>,
    pub data: Seq<char>,
}

impl View for MessageRequest {
    type V = MessageRequestView;

    open spec fn view(&self) -> MessageRequestView {
        MessageRequestView {
            room_id: self.room_id@,
            event_type: self.event_type@,
            txn_id: self.txn_id@,
            data: self.data@,
        }
    }
}

/// A request to join a room.
#[derive(Debug)]
pub struct JoinRequest {
    pub room_id: String,
    pub third_party_signed: Option<String>,
}

/// The name of a transaction of this gateway.
pub open spec fn transaction_id(number: nat) -> Seq<char> {
    "mircd-"@ + decimal(number)
}

/// The request to send a text message.
pub open spec fn text_message_request(
    room_id: Seq<char>,
    body: Seq<char>,
    number: nat,
) -> MessageRequestView {
    MessageRequestView {
        room_id,
        event_type: "m.room.message"@,
        txn_id: transaction_id(number),
        data: message_json("m.text"@, body),
    }
}

/// Makes the request to send a text message in the transaction with a number.
pub fn make_message_request(room_id: String, body: String, number: u16) -> (r: Result<
    MessageRequest,
    serde_json::Error,
>)
    ensures
        r is Ok,
        r->Ok_0@ == text_message_request(room_id@, body@, number as nat),
{
    let digits: String = to_decimal(number as u128);
    let txn_id: String = joined("mircd-", digits.as_str());
    match TextMessage::new(body).raw_json() {
        Ok(data) => Ok(
            MessageRequest { room_id, event_type: "m.room.message".to_owned(), txn_id, data },
        ),
        Err(e) => Err(e),
    }
}

/// [`rand::thread_rng`] and [`rand::Rng::gen`] give some number; nothing is said
/// of which.
#[verifier::external_body]
fn random_number() -> u16 {
    rand::Rng::gen::<u16>(&mut rand::thread_rng())
}

/// The event is one that this gateway has sent itself.
pub open spec fn is_echo(event: EventView) -> bool {
    match event.transaction_id {
        Some(id) => begins_with(id, "mircd-"@),
        None => false,
    }
}

/// The events that this gateway has not sent itself.
pub open spec fn without_echoes(events: Seq<Event>) -> Seq<Event> {
    events.filter(|event: Event| !is_echo(event@))
}

/// The answer `kept` is the answer `response` without this gateway's own events.
pub open spec fn echoes_dropped(response: SyncResponse, kept: SyncResponse) -> bool {
    &&& kept.next_batch == response.next_batch
    &&& kept.rooms.join@.len() == response.rooms.join@.len()
    &&& forall|i: int|
        #![trigger kept.rooms.join@[i]]
        0 <= i < kept.rooms.join@.len() ==> {
            &&& kept.rooms.join@[i].0 == response.rooms.join@[i].0
            &&& kept.rooms.join@[i].1.timeline.events@ == without_echoes(
                response.rooms.join@[i].1.timeline.events@,
            )
        }
}

/// What is known of a room, if anything is.
pub open spec fn known_room(rooms: Map<Seq<char>, Room>, room_id: Seq<char>) -> Option<Room> {
    if rooms.contains_key(room_id) {
        Some(rooms[room_id])
    } else {
        None
    }
}

/// The rooms `after` are the rooms `before`, with `update` applied for what is new
/// in each of `join`, in order.
pub open spec fn rooms_updated<F: Fn(Option<Room>, &String, &JoinedRoomSyncResponse) -> Room>(
    update: F,
    before: Map<Seq<char>, Room>,
    join: Seq<(String, JoinedRoomSyncResponse)>,
    after: Map<Seq<char>, Room>,
) -> bool
    decreases join.len(),
{
    if join.len() == 0 {
        after == before
    } else {
        let (room_id, sync) = join.last();
        exists|mid: Map<Seq<char>, Room>, room: Room|
            {
                &&& rooms_updated(update, before, join.drop_last(), mid)
                &&& #[trigger] call_ensures(
                    update,
                    (known_room(mid, room_id@), &room_id, &sync),
                    room,
                )
                &&& after == mid.insert(room_id@, room)
            }
    }
}

/// What the last step towards the next answer of the homeserver came to.
pub enum SyncEvent<E> {
    /// No step was taken yet, or the stream of answers was just opened.
    Start,
    /// The stream of answers was asked for the next one.
    Item(Polled<Option<Result<SyncResponse, E>>>),
}

/// The next step towards the next answer of the homeserver.
pub enum SyncAction<E> {
    /// Open the stream of answers, without a filter, from the start, as an online
    /// user.
    OpenStream,
    /// Ask the stream for the next answer.
    PollStream,
    /// Stop, with this result.
    Return(Polled<Option<Result<SyncResponse, E>>>),
}

/// A session, as contracts see it.
#[verifier::ext_equal]
pub ghost struct ClientView {
    /// The Matrix ID of the user.
    pub user_id: Seq<char>,
    /// The URL of the homeserver.
    pub url: Seq<char>,
    /// The rooms that are known, by their IDs.
    pub rooms: Map<Seq<char>, Room>,
    /// The stream of answers is open.
    pub streaming: bool,
}

/// One step towards the next answer of the homeserver, from `c` to `d`.
pub open spec fn sync_step<E, F: Fn(Option<Room>, &String, &JoinedRoomSyncResponse) -> Room>(
    update: F,
    c: ClientView,
    event: SyncEvent<E>,
    d: ClientView,
    action: SyncAction<E>,
) -> bool {
    match event {
        SyncEvent::Start => if c.streaming {
            d == c && action == SyncAction::<E>::PollStream
        } else {
            d == ClientView { streaming: true, ..c } && action == SyncAction::<E>::OpenStream
        },
        SyncEvent::Item(Polled::Ready(Some(Ok(response)))) => match action {
            SyncAction::Return(Polled::Ready(Some(Ok(kept)))) => {
                &&& echoes_dropped(response, kept)
                &&& rooms_updated(update, c.rooms, kept.rooms.join@, d.rooms)
                &&& d == ClientView { rooms: d.rooms, ..c }
            },
            _ => false,
        },
        SyncEvent::Item(item) => d == c && action == SyncAction::<E>::Return(item),
    }
}

/// Drops the events that this gateway has sent itself.
fn drop_echoes(events: &mut Vec<Event>)
    ensures
        final(events)@ == without_echoes(old(events)@),
{
    let ghost all = events@;
    let ghost keep = |event: Event| !is_echo(event@);
    let ghost mut seen: int = 0;
    let mut i: usize = 0;
    proof {
        assert(all.take(0).filter(keep) =~= Seq::empty());
        assert(events@ =~= all.take(0).filter(keep) + all.skip(0));
    }
    while i < events.len()
        invariant
            keep == (|event: Event| !is_echo(event@)),
            0 <= seen <= all.len(),
            i == all.take(seen).filter(keep).len(),
            events@ == all.take(seen).filter(keep) + all.skip(seen),
        decreases all.len() - seen,
    {
        proof {
            assert(events@[i as int] == all[seen]);
            assert(all.take(seen + 1).drop_last() =~= all.take(seen));
            assert(all.take(seen + 1).last() == all[seen]);
            reveal(Seq::filter);
        }
        let echo: bool = match &events[i].unsigned.transaction_id {
            Some(id) => starts_with(id.as_str(), "mircd-"),
            None => false,
        };
        if echo {
            let _ = events.remove(i);
            assert(events@ =~= all.take(seen + 1).filter(keep) + all.skip(seen + 1));
        } else {
            i = i + 1;
            assert(events@ =~= all.take(seen + 1).filter(keep) + all.skip(seen + 1));
        }
        proof {
            seen = seen + 1;
        }
    }
    assert(seen == all.len()) by {
        assert(events@.len() == all.take(seen).filter(keep).len() + (all.len() - seen));
    }
    assert(all.take(seen) =~= all);
    assert(events@ =~= all.filter(keep));
}

/// A single Matrix session.
pub struct MatrixClient {
    user_id: String,
    rooms: Table<Room>,
    url: String,
    streaming: bool,
}

impl View for MatrixClient {
    type V = ClientView;

    closed spec fn view(&self) -> ClientView {
        ClientView {
            user_id: self.user_id@,
            url: self.url@,
            rooms: self.rooms@,
            streaming: self.streaming,
        }
    }
}

impl MatrixClient {
    /// A session of a user with the homeserver at a URL.
    pub fn new(user_id: String, url: String) -> (r: MatrixClient)
        ensures
            r@ == (ClientView {
                user_id: user_id@,
                url: url@,
                rooms: Map::empty(),
                streaming: false,
            }),
    {
        MatrixClient { user_id, rooms: Table::new(), url, streaming: false }
    }

    /// The user ID associated with this session.
    pub fn get_user_id(&self) -> (r: &String)
        ensures
            r@ == self@.user_id,
    {
        &self.user_id
    }

    /// What to request to create a session with a user name and a password.
    pub fn login(user: String, password: String) -> (r: LoginRequest)
        ensures
            r.user == user,
            r.password == password,
            r.device_id is None,
            r.initial_device_display_name is Some,
            r.initial_device_display_name->0@ == "matrix-ircd"@,
    {
        LoginRequest {
            user,
            password,
            device_id: None,
            initial_device_display_name: Some("matrix-ircd".to_owned()),
        }
    }

    /// The session that a successful login creates; the answer to it names the
    /// user.
    pub fn logged_in(url: String, user_id: Option<String>) -> (r: MatrixClient)
        requires
            user_id is Some,
        ensures
            r@ == (ClientView {
                user_id: user_id->0@,
                url: url@,
                rooms: Map::empty(),
                streaming: false,
            }),
    {
        MatrixClient::new(user_id.unwrap(), url)
    }

    /// What to request to send a text message, in a transaction of its own.
    pub fn send_text_message(&self, room_id: String, body: String) -> (r: Result<
        MessageRequest,
        serde_json::Error,
    >)
        ensures
            r is Ok,
            exists|number: u16|
                r->Ok_0@ == #[trigger] text_message_request(room_id@, body@, number as nat),
    {
        let number: u16 = random_number();
        make_message_request(room_id, body, number)
    }

    /// What to request to join a room.
    pub fn join_room(&self, room_id: String) -> (r: JoinRequest)
        ensures
            r.room_id == room_id,
            r.third_party_signed is None,
    {
        JoinRequest { room_id, third_party_signed: None }
    }

    /// Looks a room up by its ID.
    pub fn get_room(&self, room_id: &str) -> (r: Option<&Room>)
        ensures
            match r {
                Some(room) => self@.rooms.contains_key(room_id@) && self@.rooms[room_id@] == *room,
                None => !self@.rooms.contains_key(room_id@),
            },
    {
        self.rooms.get(room_id)
    }

    /// The link under which the user finds a media file.
    pub fn media_url(&self, url: &str) -> (r: String)
        requires
            media_link(self@.url, url@) is Some,
        ensures
            media_link(self@.url, url@) == Some(r@),
    {
        match parse_mxc(url) {
            Some(path) => {
                let downloads: String = join_url(
                    self.url.as_str(),
                    "/_matrix/media/v1/download/",
                ).unwrap();
                join_url(downloads.as_str(), path.as_str()).unwrap()
            },
            None => url.to_owned(),
        }
    }

    /// The link under which the user finds a media file, if there is one.
    pub fn try_media_url(&self, url: &str) -> (r: Option<String>)
        ensures
            match r {
                Some(link) => media_link(self@.url, url@) == Some(link@),
                None => media_link(self@.url, url@) is None,
            },
    {
        if let Some(path) = parse_mxc(url) {
            match join_url(self.url.as_str(), "/_matrix/media/v1/download/") {
                None => return None,
                Some(downloads) => {
                    if join_url(downloads.as_str(), path.as_str()).is_none() {
                        return None;
                    }
                },
            }
        }
        Some(self.media_url(url))
    }

    /// Goes on towards the next answer of the homeserver, given what the last
    /// step came to.
    ///
    /// `update` works what is new in a room into what is known of it, if anything
    /// is. Events that this gateway has sent itself are dropped first.
    pub fn poll_sync<E, F: Fn(Option<Room>, &String, &JoinedRoomSyncResponse) -> Room>(
        &mut self,
        update: &F,
        event: SyncEvent<E>,
    ) -> (action: SyncAction<E>)
        requires
            forall|known: Option<Room>, room_id: &String, sync: &JoinedRoomSyncResponse| #[trigger]
                call_requires(*update, (known, room_id, sync)),
        ensures
            sync_step(*update, old(self)@, event, final(self)@, action),
    {
        match event {
            SyncEvent::Start => {
                if self.streaming {
                    SyncAction::PollStream
                } else {
                    self.streaming = true;
                    SyncAction::OpenStream
                }
            },
            SyncEvent::Item(Polled::Ready(Some(Ok(response)))) => {
                let kept: SyncResponse = self.take_in(update, response);
                SyncAction::Return(Polled::Ready(Some(Ok(kept))))
            },
            SyncEvent::Item(item) => SyncAction::Return(item),
        }
    }

    fn take_in<F: Fn(Option<Room>, &String, &JoinedRoomSyncResponse) -> Room>(
        &mut self,
        update: &F,
        response: SyncResponse,
    ) -> (kept: SyncResponse)
        requires
            forall|known: Option<Room>, room_id: &String, sync: &JoinedRoomSyncResponse| #[trigger]
                call_requires(*update, (known, room_id, sync)),
        ensures
            echoes_dropped(response, kept),
            rooms_updated(*update, old(self)@.rooms, kept.rooms.join@, final(self)@.rooms),
            final(self)@ == (ClientView { rooms: final(self)@.rooms, ..old(self)@ }),
    {
        let mut kept: SyncResponse = response;
        let n: usize = kept.rooms.join.len();
        let ghost start = self@;
        let mut i: usize = 0;
        proof {
            assert(kept.rooms.join@.take(0) =~= Seq::empty());
        }
        while i < n
            invariant
                i <= n == kept.rooms.join@.len() == response.rooms.join@.len(),
                forall|known: Option<Room>, room_id: &String, sync: &JoinedRoomSyncResponse|
                    #[trigger] call_requires(*update, (known, room_id, sync)),
                self@ == (ClientView { rooms: self@.rooms, ..start }),
                kept.next_batch == response.next_batch,
                forall|j: int|
                    #![trigger kept.rooms.join@[j]]
                    0 <= j < i ==> {
                        &&& kept.rooms.join@[j].0 == response.rooms.join@[j].0
                        &&& kept.rooms.join@[j].1.timeline.events@ == without_echoes(
                            response.rooms.join@[j].1.timeline.events@,
                        )
                    },
                forall|j: int|
                    i <= j < n ==> #[trigger] kept.rooms.join@[j] == response.rooms.join@[j],
                rooms_updated(*update, start.rooms, kept.rooms.join@.take(i as int), self@.rooms),
            decreases n - i,
        {
            let ghost before = kept.rooms.join@;
            let ghost mid = self@.rooms;
            drop_echoes(&mut kept.rooms.join[i].1.timeline.events);
            assert(kept.rooms.join@.take(i as int) =~= before.take(i as int));
            let entry: &(String, JoinedRoomSyncResponse) = &kept.rooms.join[i];
            let known: Option<Room> = self.rooms.remove(entry.0.as_str());
            let room: Room = update(known, &entry.0, &entry.1);
            self.rooms.insert(entry.0.clone(), room);
            proof {
                assert(mid.remove(entry.0@).insert(entry.0@, room) =~= mid.insert(entry.0@, room));
                let join = kept.rooms.join@.take(i + 1);
                assert(join.drop_last() =~= kept.rooms.join@.take(i as int));
                assert(join.last() == *entry);
                let (room_id, sync) = join.last();
                assert(call_ensures(*update, (known_room(mid, room_id@), &room_id, &sync), room));
                assert(self@.rooms == mid.insert(room_id@, room));
            }
            i = i + 1;
        }
        assert(kept.rooms.join@.take(n as int) =~= kept.rooms.join@);
        kept
    }
}

/// Why a request with a JSON body failed.
pub enum JsonPostError {
    /// The request could not be made.
    Io(std::io::Error),
    /// The server's answer was not a success; this is its status code.
    ErrorResponse(u16),
}

impl From<std::io::Error> for JsonPostError {
    fn from(err: std::io::Error) -> (r: JsonPostError) {
        JsonPostError::Io(err)
    }
}

impl vstd::std_specs::convert::FromSpecImpl<std::io::Error> for JsonPostError {
    open spec fn obeys_from_spec() -> bool {
        true
    }

    open spec fn from_spec(err: std::io::Error) -> JsonPostError {
        JsonPostError::Io(err)
    }
}

impl JsonPostError {
    /// The failure as an I/O error.
    pub fn into_io_error(self) -> (r: std::io::Error)
        ensures
            r == match self {
                JsonPostError::Io(err) => err,
                JsonPostError::ErrorResponse(code) => io_error(
                    IoErrorKind::Other,
                    "Received "@ + decimal(code as nat) + " response"@,
                ),
            },
    {
        match self {
            JsonPostError::Io(err) => err,
            JsonPostError::ErrorResponse(code) => {
                let digits: String = to_decimal(code as u128);
                let mut message: String = joined("Received ", digits.as_str());
                message.append(" response");
                new_io_error(IoErrorKind::Other, message)
            },
        }
    }
}

} // verus!
