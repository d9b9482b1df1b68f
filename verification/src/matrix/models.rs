//! What the gateway knows of the Matrix rooms that the user is in.

use vstd::prelude::*;

verus! {

/// A text that may be missing, as contracts see it.
pub open spec fn optional_text(text: Option<String>) -> Option<Seq<char>> {
    match text {
        Some(text) => Some(text@),
        None => None,
    }
}

/// A member of a room.
#[derive(Debug)]
pub struct Member {
    /// The member's Matrix ID.
    pub user_id: String,
    /// The name that the member goes by.
    pub display_name: String,
    /// The member may moderate the room.
    pub moderator: bool,
}

/// A member, as contracts see it.
pub ghost struct MemberView {
    pub user_id: Seq<char>,
    pub display_name: Seq<char>,
    pub moderator: bool,
}

impl View for Member {
    type V = MemberView;

    open spec fn view(&self) -> MemberView {
        MemberView {
            user_id: self.user_id@,
            display_name: self.display_name@,
            moderator: self.moderator,
        }
    }
}

/// A room.
#[derive(Debug)]
pub struct Room {
    /// The room's Matrix ID.
    pub room_id: String,
    /// The alias that the room's state names as the main one.
    pub canonical_alias: Option<String>,
    /// The room's name.
    pub name: Option<String>,
    /// What the room is about.
    pub topic: Option<String>,
    /// Those who are in the room.
    pub members: Vec<Member>,
}

/// A room, as contracts see it.
pub ghost struct RoomView {
    pub room_id: Seq<char>,
    pub canonical_alias: Option<Seq<char>>,
    pub name: Option<Seq<char>>,
    pub topic: Option<Seq<char>>,
    pub members: Seq<MemberView>,
}

/// A list of members, as contracts see it.
pub open spec fn member_views(members: Seq<Member>) -> Seq<MemberView> {
    members.map_values(|member: Member| member@)
}

impl View for Room {
    type V = RoomView;

    open spec fn view(&self) -> RoomView {
        RoomView {
            room_id: self.room_id@,
            canonical_alias: optional_text(self.canonical_alias),
            name: optional_text(self.name),
            topic: optional_text(self.topic),
            members: member_views(self.members@),
        }
    }
}

} // verus!
