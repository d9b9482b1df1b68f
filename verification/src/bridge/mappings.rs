//! The names under which IRC and Matrix know the same rooms and users.

use crate::irc::user::{IrcUserConnection, UserView};
use crate::irc::transport::member_texts;
use crate::matrix::models::{member_views, Member, MemberView, Room, RoomView};
use crate::table::{lemma_texts_insert, texts, unused_name, Table};
use crate::text::{joined, strip, stripped};
use vstd::prelude::*;
use vstd::utf8::encode_utf8;

verus! {

/// The mappings, as contracts see them.
#[verifier::ext_equal]
pub ghost struct MappingsView {
    pub channel_to_room_id: Map<Seq<char>, Seq<char>>,
    pub room_id_to_channel: Map<Seq<char>, Seq<char>>,
    pub matrix_uid_to_nick: Map<Seq<char>, Seq<char>>,
    pub nick_matrix_uid: Map<Seq<char>, Seq<char>>,
}

impl MappingsView {
    /// Nothing is mapped.
    pub open spec fn empty() -> MappingsView {
        MappingsView {
            channel_to_room_id: Map::empty(),
            room_id_to_channel: Map::empty(),
            matrix_uid_to_nick: Map::empty(),
            nick_matrix_uid: Map::empty(),
        }
    }

    /// With a nick and a user mapped onto each other.
    pub open spec fn with_nick(self, nick: Seq<char>, user_id: Seq<char>) -> MappingsView {
        MappingsView {
            matrix_uid_to_nick: self.matrix_uid_to_nick.insert(user_id, nick),
            nick_matrix_uid: self.nick_matrix_uid.insert(nick, user_id),
            ..self
        }
    }

    /// With a channel and a room mapped onto each other.
    pub open spec fn with_channel(self, channel: Seq<char>, room_id: Seq<char>) -> MappingsView {
        MappingsView {
            room_id_to_channel: self.room_id_to_channel.insert(room_id, channel),
            channel_to_room_id: self.channel_to_room_id.insert(channel, room_id),
            ..self
        }
    }
}

/// The nick that a user would like: the display name, or the Matrix ID where
/// less than three bytes are left of the name.
pub open spec fn nick_base(user_id: Seq<char>, display_name: Seq<char>) -> Seq<char> {
    if encode_utf8(stripped(display_name)).len() < 3 {
        stripped(user_id)
    } else {
        stripped(display_name)
    }
}

/// The nick that a user has, or is given.
pub open spec fn nick_for(
    m: MappingsView,
    irc: UserView,
    user_id: Seq<char>,
    display_name: Seq<char>,
) -> Seq<char> {
    if m.matrix_uid_to_nick.contains_key(user_id) {
        m.matrix_uid_to_nick[user_id]
    } else {
        unused_name(nick_base(user_id, display_name), irc.nicks)
    }
}

/// The mappings and the IRC side once a user has a nick.
pub open spec fn with_member(
    m: MappingsView,
    irc: UserView,
    user_id: Seq<char>,
    display_name: Seq<char>,
) -> (MappingsView, UserView) {
    if m.matrix_uid_to_nick.contains_key(user_id) {
        (m, irc)
    } else {
        let nick = nick_for(m, irc, user_id, display_name);
        (m.with_nick(nick, user_id), irc.with_user(nick, user_id))
    }
}

/// The mappings and the IRC side once the members of a room have nicks.
pub open spec fn with_members(m: MappingsView, irc: UserView, members: Seq<MemberView>) -> (
    MappingsView,
    UserView,
)
    decreases members.len(),
{
    if members.len() == 0 {
        (m, irc)
    } else {
        let (m1, irc1) = with_members(m, irc, members.drop_last());
        with_member(m1, irc1, members.last().user_id, members.last().display_name)
    }
}

/// The nicks of the members of a room, with a mark for moderators.
pub open spec fn member_nicks(m: MappingsView, irc: UserView, members: Seq<MemberView>) -> Seq<
    (Seq<char>, bool),
>
    decreases members.len(),
{
    if members.len() == 0 {
        Seq::empty()
    } else {
        let (m1, irc1) = with_members(m, irc, members.drop_last());
        member_nicks(m, irc, members.drop_last()).push(
            (
                nick_for(m1, irc1, members.last().user_id, members.last().display_name),
                members.last().moderator,
            ),
        )
    }
}

/// The channel that a room would like: its alias, else its name, else its ID.
pub open spec fn channel_base(room: RoomView) -> Seq<char> {
    match room.canonical_alias {
        Some(alias) => alias,
        None => match room.name {
            Some(name) => if stripped(name).len() > 0 {
                "#"@ + stripped(name)
            } else {
                "#"@ + room.room_id
            },
            None => "#"@ + room.room_id,
        },
    }
}

/// The channel that a room has, or is given.
pub open spec fn channel_for(m: MappingsView, irc: UserView, room: RoomView) -> Seq<char> {
    if m.room_id_to_channel.contains_key(room.room_id) {
        m.room_id_to_channel[room.room_id]
    } else {
        unused_name(channel_base(room), irc.channels)
    }
}

/// The topic of a room; a room without one has an empty topic.
pub open spec fn topic_of(room: RoomView) -> Seq<char> {
    match room.topic {
        Some(topic) => topic,
        None => ""@,
    }
}

/// The mappings and the IRC side once a room has a channel.
pub open spec fn with_room(m: MappingsView, irc: UserView, room: RoomView) -> (
    MappingsView,
    UserView,
) {
    if m.room_id_to_channel.contains_key(room.room_id) {
        (m, irc)
    } else {
        let channel = channel_for(m, irc, room);
        let m1 = m.with_channel(channel, room.room_id);
        let (m2, irc2) = with_members(m1, irc, room.members);
        (m2, irc2.with_channel(channel, topic_of(room), member_nicks(m1, irc, room.members)))
    }
}

/// Handles mapping various IRC and Matrix IDs onto each other.
pub struct MappingStore {
    channel_to_room_id: Table<String>,
    room_id_to_channel: Table<String>,
    matrix_uid_to_nick: Table<String>,
    nick_matrix_uid: Table<String>,
}

impl View for MappingStore {
    type V = MappingsView;

    closed spec fn view(&self) -> MappingsView {
        MappingsView {
            channel_to_room_id: texts(self.channel_to_room_id@),
            room_id_to_channel: texts(self.room_id_to_channel@),
            matrix_uid_to_nick: texts(self.matrix_uid_to_nick@),
            nick_matrix_uid: texts(self.nick_matrix_uid@),
        }
    }
}

impl Default for MappingStore {
    fn default() -> (r: MappingStore)
        ensures
            r@ == MappingsView::empty(),
    {
        let r = MappingStore {
            channel_to_room_id: Table::new(),
            room_id_to_channel: Table::new(),
            matrix_uid_to_nick: Table::new(),
            nick_matrix_uid: Table::new(),
        };
        assert(r@ =~= MappingsView::empty());
        r
    }
}

impl MappingStore {
    /// Maps a nick and a user onto each other, and adds the user on the IRC side.
    pub fn insert_nick(&mut self, irc_server: &mut IrcUserConnection, nick: String, user_id: String)
        ensures
            final(self)@ == old(self)@.with_nick(nick@, user_id@),
            final(irc_server)@ == old(irc_server)@.with_user(nick@, user_id@),
    {
        proof {
            lemma_texts_insert(self.matrix_uid_to_nick@, user_id@, nick);
            lemma_texts_insert(self.nick_matrix_uid@, nick@, user_id);
        }
        self.matrix_uid_to_nick.insert(user_id.clone(), nick.clone());
        self.nick_matrix_uid.insert(nick.clone(), user_id.clone());
        irc_server.create_user(nick, user_id);
    }

    /// The room behind a channel.
    pub fn channel_to_room_id(&self, channel: &str) -> (r: Option<&String>)
        ensures
            match r {
                Some(room_id) => {
                    &&& self@.channel_to_room_id.contains_key(channel@)
                    &&& self@.channel_to_room_id[channel@] == room_id@
                },
                None => !self@.channel_to_room_id.contains_key(channel@),
            },
    {
        self.channel_to_room_id.get(channel)
    }

    /// The channel for a room.
    pub fn room_id_to_channel(&self, room_id: &str) -> (r: Option<&String>)
        ensures
            match r {
                Some(channel) => {
                    &&& self@.room_id_to_channel.contains_key(room_id@)
                    &&& self@.room_id_to_channel[room_id@] == channel@
                },
                None => !self@.room_id_to_channel.contains_key(room_id@),
            },
    {
        self.room_id_to_channel.get(room_id)
    }

    /// The nick of a Matrix user.
    pub fn get_nick_from_matrix(&self, user_id: &str) -> (r: Option<&String>)
        ensures
            match r {
                Some(nick) => {
                    &&& self@.matrix_uid_to_nick.contains_key(user_id@)
                    &&& self@.matrix_uid_to_nick[user_id@] == nick@
                },
                None => !self@.matrix_uid_to_nick.contains_key(user_id@),
            },
    {
        self.matrix_uid_to_nick.get(user_id)
    }

    /// The nick of a Matrix user, who is given one if need be.
    pub fn create_or_get_nick_from_matrix(
        &mut self,
        irc_server: &mut IrcUserConnection,
        user_id: &str,
        display_name: &str,
    ) -> (r: String)
        ensures
            (final(self)@, final(irc_server)@) == with_member(
                old(self)@,
                old(irc_server)@,
                user_id@,
                display_name@,
            ),
            r@ == nick_for(old(self)@, old(irc_server)@, user_id@, display_name@),
    {
        if let Some(nick) = self.matrix_uid_to_nick.get(user_id) {
            return nick.clone();
        }
        let mut nick: String = strip(display_name);
        if nick.as_str().as_bytes().len() < 3 {
            nick = strip(user_id);
        }
        let nick: String = irc_server.unused_nick(nick);
        self.insert_nick(irc_server, nick.clone(), user_id.to_owned());
        nick
    }

    /// The channel for a room, which is given one if need be; tells whether it was.
    pub fn create_or_get_channel_name_from_matrix(
        &mut self,
        irc_server: &mut IrcUserConnection,
        room: &Room,
    ) -> (r: (String, bool))
        ensures
            (final(self)@, final(irc_server)@) == with_room(
                old(self)@,
                old(irc_server)@,
                room@,
            ),
            r.0@ == channel_for(old(self)@, old(irc_server)@, room@),
            r.1 == !old(self)@.room_id_to_channel.contains_key(room@.room_id),
    {
        if let Some(channel) = self.room_id_to_channel.get(room.room_id.as_str()) {
            return (channel.clone(), false);
        }
        let base: String = match &room.canonical_alias {
            Some(alias) => alias.clone(),
            None => match &room.name {
                Some(name) => {
                    let stripped_name: String = strip(name.as_str());
                    if !stripped_name.as_str().is_empty() {
                        joined("#", stripped_name.as_str())
                    } else {
                        joined("#", room.room_id.as_str())
                    }
                },
                None => joined("#", room.room_id.as_str()),
            },
        };
        let channel: String = irc_server.unused_channel(base);
        proof {
            lemma_texts_insert(self.room_id_to_channel@, room.room_id@, channel);
            lemma_texts_insert(self.channel_to_room_id@, channel@, room.room_id);
        }
        self.room_id_to_channel.insert(room.room_id.clone(), channel.clone());
        self.channel_to_room_id.insert(channel.clone(), room.room_id.clone());
        let members: Vec<(String, bool)> = self.member_names(irc_server, &room.members);
        let topic: String = match &room.topic {
            Some(topic) => topic.clone(),
            None => "".to_owned(),
        };
        irc_server.add_channel(channel.clone(), topic, members);
        (channel, true)
    }

    fn member_names(&mut self, irc_server: &mut IrcUserConnection, members: &Vec<Member>) -> (r: Vec<
        (String, bool),
    >)
        ensures
            (final(self)@, final(irc_server)@) == with_members(
                old(self)@,
                old(irc_server)@,
                member_views(members@),
            ),
            member_texts(r@) == member_nicks(
                old(self)@,
                old(irc_server)@,
                member_views(members@),
            ),
    {
        let ghost m = self@;
        let ghost irc = irc_server@;
        let ghost all = member_views(members@);
        let mut names: Vec<(String, bool)> = Vec::new();
        let mut i: usize = 0;
        proof {
            assert(all.take(0) =~= Seq::empty());
            assert(member_texts(names@) =~= Seq::empty());
        }
        while i < members.len()
            invariant
                i <= members@.len(),
                all == member_views(members@),
                (self@, irc_server@) == with_members(m, irc, all.take(i as int)),
                member_texts(names@) == member_nicks(m, irc, all.take(i as int)),
            decreases members@.len() - i,
        {
            let member: &Member = &members[i];
            proof {
                assert(all.take(i + 1).drop_last() =~= all.take(i as int));
                assert(all.take(i + 1).last() == member@);
            }
            let ghost before = names@;
            let nick: String = self.create_or_get_nick_from_matrix(
                irc_server,
                member.user_id.as_str(),
                member.display_name.as_str(),
            );
            names.push((nick, member.moderator));
            assert(member_texts(names@) =~= member_texts(before).push((nick@, member.moderator)));
            i = i + 1;
        }
        assert(all.take(i as int) =~= all);
        names
    }
}

} // verus!
