//! What a homeserver sends about the rooms that the user is in.

use crate::matrix::json::string_members;
use crate::matrix::models::optional_text;
use vstd::prelude::*;

verus! {

/// What is said about an event beside its content.
#[derive(Debug)]
pub struct EventUnsigned {
    /// The transaction with which this session sent the event, if it did.
    pub transaction_id: Option<String>,
}

/// An event in a room.
#[derive(Debug)]
pub struct Event {
    /// The type of the event.
    pub etype: String,
    /// The Matrix ID of the user who sent the event.
    pub sender: String,
    /// The content, whose form depends on the type.
    pub content: serde_json::Value,
    /// What is said about the event beside its content.
    pub unsigned: EventUnsigned,
}

/// An event, as contracts see it.
pub ghost struct EventView {
    pub etype: Seq<char>,
    pub sender: Seq<char>,
    /// The members of the content that are strings.
    pub content: Map<Seq<char>, Seq<char>>,
    pub transaction_id: Option<Seq<char>>,
}

impl View for Event {
    type V = EventView;

    open spec fn view(&self) -> EventView {
        EventView {
            etype: self.etype@,
            sender: self.sender@,
            content: string_members(self.content),
            transaction_id: optional_text(self.unsigned.transaction_id),
        }
    }
}

/// A list of events, as contracts see it.
pub open spec fn event_views(events: Seq<Event>) -> Seq<EventView> {
    events.map_values(|event: Event| event@)
}

/// The events of a room since the last answer.
#[derive(Debug)]
pub struct Timeline {
    pub events: Vec<Event>,
}

/// What is new in a room that the user is in.
#[derive(Debug)]
pub struct JoinedRoomSyncResponse {
    pub timeline: Timeline,
}

/// What is new in rooms.
#[derive(Debug)]
pub struct RoomsSyncResponse {
    /// The rooms that the user is in, by their IDs.
    pub join: Vec<(String, JoinedRoomSyncResponse)>,
}

/// What is new since the last answer.
#[derive(Debug)]
pub struct SyncResponse {
    /// Where the next answer will start.
    pub next_batch: String,
    /// What is new in rooms.
    pub rooms: RoomsSyncResponse,
}

/// What is new in one room, as contracts see it.
pub ghost struct JoinView {
    pub room_id: Seq<char>,
    pub events: Seq<EventView>,
}

/// What is new in the rooms that the user is in, as contracts see it.
pub open spec fn join_views(join: Seq<(String, JoinedRoomSyncResponse)>) -> Seq<JoinView> {
    join.map_values(
        |entry: (String, JoinedRoomSyncResponse)|
            JoinView { room_id: entry.0@, events: event_views(entry.1.timeline.events@) },
    )
}

} // verus!
