//! Which nicks and channels are given, and what the IRC user is told of it.

use crate::bridge::mappings::{
    channel_for, member_nicks, nick_for, with_member, with_members, with_room, MappingStore,
    MappingsView,
};
use crate::irc::user::{
    law_names_in_use_are_finite, IrcUserConnection, OutputView, UserView,
};
use crate::matrix::models::{member_views, Member, Room};
use crate::table::{is_least_free, lemma_least_free_is_there, numbered, unused_name};
use crate::text::{decimal, stripped};
use vstd::prelude::*;
use vstd::utf8::encode_utf8;

verus! {

/// A name was given in place of the one that was asked for: that one where it is free,
/// and else that one with the least number behind it, in square brackets, with which it
/// is free.
pub open spec fn given(asked: Seq<char>, taken: Set<Seq<char>>, name: Seq<char>) -> bool {
    &&& !taken.contains(name)
    &&& !taken.contains(asked) ==> name == asked
    &&& taken.contains(asked) ==> exists|n: nat|
        n >= 1 && name == asked + seq!['['] + #[trigger] decimal(n) + seq![']'] && forall|m: nat|
            1 <= m < n ==> taken.contains(asked + seq!['['] + #[trigger] decimal(m) + seq![']'])
}

proof fn lemma_given(asked: Seq<char>, taken: Set<Seq<char>>)
    requires
        taken.finite(),
    ensures
        given(asked, taken, unused_name(asked, taken)),
{
    if taken.contains(asked) {
        lemma_least_free_is_there(asked, taken);
        let n = choose|n: nat| is_least_free(asked, taken, n);
        assert forall|m: nat| 1 <= m < n implies taken.contains(
            asked + seq!['['] + #[trigger] decimal(m) + seq![']'],
        ) by {
            assert(taken.contains(numbered(asked, m)));
        }
        assert(unused_name(asked, taken) == asked + seq!['['] + decimal(n) + seq![']']);
    }
}

/// A user was found a nick, from the mappings `m` and the IRC side `irc` to `m1` and
/// `irc1`. A user who has one keeps it, and nothing happens. Another user is given the
/// display name without its reserved characters, where three bytes or more are left of
/// it, and else the Matrix ID without them; user and nick are mapped onto each other,
/// and the user appears on the IRC side.
pub open spec fn nick_found(
    m: MappingsView,
    irc: UserView,
    user_id: Seq<char>,
    display_name: Seq<char>,
    nick: Seq<char>,
    m1: MappingsView,
    irc1: UserView,
) -> bool {
    if m.matrix_uid_to_nick.contains_key(user_id) {
        nick == m.matrix_uid_to_nick[user_id] && m1 == m && irc1 == irc
    } else {
        &&& encode_utf8(stripped(display_name)).len() >= 3 ==> given(
            stripped(display_name),
            irc.nicks,
            nick,
        )
        &&& encode_utf8(stripped(display_name)).len() < 3 ==> given(
            stripped(user_id),
            irc.nicks,
            nick,
        )
        &&& m1.matrix_uid_to_nick == m.matrix_uid_to_nick.insert(user_id, nick)
        &&& m1.nick_matrix_uid == m.nick_matrix_uid.insert(nick, user_id)
        &&& m1.room_id_to_channel == m.room_id_to_channel
        &&& m1.channel_to_room_id == m.channel_to_room_id
        &&& irc1.nicks == irc.nicks.insert(nick)
        &&& irc1.outputs == irc.outputs.push(OutputView::CreateUser { nick, user_id })
        &&& irc1 == UserView { nicks: irc1.nicks, outputs: irc1.outputs, ..irc }
    }
}

proof fn lemma_nick_found(
    m: MappingsView,
    irc: UserView,
    user_id: Seq<char>,
    display_name: Seq<char>,
)
    requires
        irc.nicks.finite(),
    ensures
        nick_found(
            m,
            irc,
            user_id,
            display_name,
            nick_for(m, irc, user_id, display_name),
            with_member(m, irc, user_id, display_name).0,
            with_member(m, irc, user_id, display_name).1,
        ),
        with_member(m, irc, user_id, display_name).1.nicks.finite(),
        with_member(m, irc, user_id, display_name).1.channels == irc.channels,
{
    lemma_given(stripped(display_name), irc.nicks);
    lemma_given(stripped(user_id), irc.nicks);
}

/// Which nick a user is found.
pub proof fn law_nicks_are_found(
    store: &mut MappingStore,
    irc: &mut IrcUserConnection,
    user_id: &str,
    display_name: &str,
    r: String,
)
    requires
        call_ensures(
            MappingStore::create_or_get_nick_from_matrix,
            (store, irc, user_id, display_name),
            r,
        ),
    ensures
        nick_found(
            old(store)@,
            old(irc)@,
            user_id@,
            display_name@,
            r@,
            final(store)@,
            final(irc)@,
        ),
{
    law_names_in_use_are_finite(*old(irc));
    lemma_nick_found(old(store)@, old(irc)@, user_id@, display_name@);
}

/// Members of a room were found nicks, one after the other, with `steps` what the
/// mappings and the IRC side were in between.
pub open spec fn nicks_found(
    members: Seq<Member>,
    nicks: Seq<Seq<char>>,
    steps: Seq<(MappingsView, UserView)>,
) -> bool {
    &&& nicks.len() == members.len()
    &&& steps.len() == members.len() + 1
    &&& forall|i: int|
        0 <= i < members.len() ==> nick_found(
            steps[i].0,
            steps[i].1,
            (#[trigger] members[i]).user_id@,
            members[i].display_name@,
            nicks[i],
            steps[i + 1].0,
            steps[i + 1].1,
        )
}

/// A room was found a channel, from the mappings `m` and the IRC side `irc` to `m1` and
/// `irc1`. A room that has one keeps it, and nothing happens. Another room is given its
/// alias, where it has one; else a `#` and its name without the reserved characters,
/// where anything is left of it; else a `#` and its ID. Room and channel are mapped onto
/// each other, all of the room's members are found nicks, and the user is put into the
/// channel, with the room's topic and those nicks, and a mark for moderators.
pub open spec fn channel_found(
    m: MappingsView,
    irc: UserView,
    room: Room,
    channel: Seq<char>,
    m1: MappingsView,
    irc1: UserView,
) -> bool {
    let room_id = room.room_id@;
    if m.room_id_to_channel.contains_key(room_id) {
        channel == m.room_id_to_channel[room_id] && m1 == m && irc1 == irc
    } else {
        &&& room.canonical_alias is Some ==> given(room.canonical_alias->0@, irc.channels, channel)
        &&& room.canonical_alias is None && room.name is Some && stripped(room.name->0@).len() > 0
            ==> given(seq!['#'] + stripped(room.name->0@), irc.channels, channel)
        &&& room.canonical_alias is None && (room.name is None || stripped(room.name->0@).len()
            == 0) ==> given(seq!['#'] + room_id, irc.channels, channel)
        &&& exists|nicks: Seq<Seq<char>>, steps: Seq<(MappingsView, UserView)>|
            {
                let output = irc1.outputs.last();
                &&& #[trigger] nicks_found(room.members@, nicks, steps)
                &&& steps[0].0 == MappingsView {
                    room_id_to_channel: m.room_id_to_channel.insert(room_id, channel),
                    channel_to_room_id: m.channel_to_room_id.insert(channel, room_id),
                    ..m
                }
                &&& steps[0].1 == irc
                &&& m1 == steps.last().0
                &&& irc1 == UserView {
                    channels: irc.channels.insert(channel),
                    outputs: steps.last().1.outputs.push(output),
                    ..steps.last().1
                }
                &&& output is AddChannel
                &&& output->AddChannel_channel == channel
                &&& room.topic is Some ==> output->topic == room.topic->0@
                &&& room.topic is None ==> output->topic.len() == 0
                &&& output->members.len() == nicks.len()
                &&& forall|i: int|
                    0 <= i < nicks.len() ==> #[trigger] output->members[i] == (
                        nicks[i],
                        room.members@[i].moderator,
                    )
            }
    }
}

proof fn lemma_nicks_found(m: MappingsView, irc: UserView, members: Seq<Member>) -> (r: (
    Seq<Seq<char>>,
    Seq<(MappingsView, UserView)>,
))
    requires
        irc.nicks.finite(),
    ensures
        nicks_found(members, r.0, r.1),
        r.1[0] == (m, irc),
        r.1.last() == with_members(m, irc, member_views(members)),
        r.1.last().1.nicks.finite(),
        r.1.last().1.channels == irc.channels,
        member_nicks(m, irc, member_views(members)).len() == members.len(),
        forall|i: int|
            0 <= i < members.len() ==> #[trigger] member_nicks(m, irc, member_views(members))[i]
                == (r.0[i], members[i].moderator),
    decreases members.len(),
{
    let views = member_views(members);
    if members.len() == 0 {
        (Seq::empty(), seq![(m, irc)])
    } else {
        let front = members.drop_last();
        let (nicks, steps) = lemma_nicks_found(m, irc, front);
        assert(views.drop_last() =~= member_views(front));
        let (m1, irc1) = steps.last();
        let last = members.last();
        lemma_nick_found(m1, irc1, last.user_id@, last.display_name@);
        let nick = nick_for(m1, irc1, last.user_id@, last.display_name@);
        let all_nicks = nicks.push(nick);
        let all_steps = steps.push(with_member(m1, irc1, last.user_id@, last.display_name@));
        assert forall|i: int| 0 <= i < members.len() implies nick_found(
            all_steps[i].0,
            all_steps[i].1,
            (#[trigger] members[i]).user_id@,
            members[i].display_name@,
            all_nicks[i],
            all_steps[i + 1].0,
            all_steps[i + 1].1,
        ) by {
            if i < front.len() {
                assert(members[i] == front[i]);
            }
        }
        assert forall|i: int| 0 <= i < members.len() implies #[trigger] member_nicks(
            m,
            irc,
            views,
        )[i] == (all_nicks[i], members[i].moderator) by {
            if i < front.len() {
                assert(members[i] == front[i]);
                assert(member_nicks(m, irc, member_views(front))[i] == (
                    nicks[i],
                    front[i].moderator,
                ));
            }
        }
        (all_nicks, all_steps)
    }
}

/// What contracts say of giving a room a channel is that one was found for it.
pub proof fn lemma_channel_found(m: MappingsView, irc: UserView, room: Room)
    requires
        irc.nicks.finite(),
        irc.channels.finite(),
    ensures
        channel_found(
            m,
            irc,
            room,
            channel_for(m, irc, room@),
            with_room(m, irc, room@).0,
            with_room(m, irc, room@).1,
        ),
        with_room(m, irc, room@).1.nicks.finite(),
        with_room(m, irc, room@).1.channels.finite(),
{
    let room_id = room.room_id@;
    if !m.room_id_to_channel.contains_key(room_id) {
        reveal_strlit("#");
        assert("#"@ =~= seq!['#']);
        reveal_strlit("");
        let channel = channel_for(m, irc, room@);
        lemma_given(crate::bridge::mappings::channel_base(room@), irc.channels);
        let m0 = m.with_channel(channel, room_id);
        let (nicks, steps) = lemma_nicks_found(m0, irc, room.members@);
        assert(nicks_found(room.members@, nicks, steps));
    }
}

/// Which channel a room is found, and whether it is new.
pub proof fn law_channels_are_found(
    store: &mut MappingStore,
    irc: &mut IrcUserConnection,
    room: Room,
    r: (String, bool),
)
    requires
        call_ensures(
            MappingStore::create_or_get_channel_name_from_matrix,
            (store, irc, &room),
            r,
        ),
    ensures
        channel_found(old(store)@, old(irc)@, room, r.0@, final(store)@, final(irc)@),
        r.1 <==> !old(store)@.room_id_to_channel.contains_key(room.room_id@),
{
    law_names_in_use_are_finite(*old(irc));
    lemma_channel_found(old(store)@, old(irc)@, room);
}

/// A room without a channel is given its alias, whatever its name, where no channel has
/// that name yet.
pub proof fn law_channels_are_named_after_the_alias(
    store: &mut MappingStore,
    irc: &mut IrcUserConnection,
    room: Room,
    r: (String, bool),
)
    requires
        call_ensures(
            MappingStore::create_or_get_channel_name_from_matrix,
            (store, irc, &room),
            r,
        ),
        !old(store)@.room_id_to_channel.contains_key(room.room_id@),
        room.canonical_alias is Some,
        !old(irc)@.channels.contains(room.canonical_alias->0@),
    ensures
        r.0@ == room.canonical_alias->0@,
        final(store)@.room_id_to_channel[room.room_id@] == room.canonical_alias->0@,
        final(store)@.channel_to_room_id[room.canonical_alias->0@] == room.room_id@,
{
    law_channels_are_found(store, irc, room, r);
    crate::bridge::laws::law_rooms_have_the_channel_found(old(store)@, old(irc)@, room@);
    crate::bridge::laws::law_nicks_are_kept(
        old(store)@.with_channel(r.0@, room.room_id@),
        old(irc)@,
        room@.members,
    );
}

/// A room that has neither a channel nor an alias is given a `#` and its name without
/// reserved characters, or its ID where nothing is left of the name, where no channel
/// has that name yet.
pub proof fn law_channels_are_named_after_the_room(
    store: &mut MappingStore,
    irc: &mut IrcUserConnection,
    room: Room,
    r: (String, bool),
    asked: Seq<char>,
)
    requires
        call_ensures(
            MappingStore::create_or_get_channel_name_from_matrix,
            (store, irc, &room),
            r,
        ),
        !old(store)@.room_id_to_channel.contains_key(room.room_id@),
        room.canonical_alias is None,
        asked == seq!['#'] + (if room.name is Some && stripped(room.name->0@).len() > 0 {
            stripped(room.name->0@)
        } else {
            room.room_id@
        }),
        !old(irc)@.channels.contains(asked),
    ensures
        r.0@ == asked,
{
    law_channels_are_found(store, irc, room, r);
}

/// A nick and a user are mapped onto each other, and the user appears under the nick.
pub proof fn law_nicks_are_inserted(
    store: &mut MappingStore,
    irc: &mut IrcUserConnection,
    nick: String,
    user_id: String,
)
    requires
        call_ensures(MappingStore::insert_nick, (store, irc, nick, user_id), ()),
    ensures
        final(store)@.matrix_uid_to_nick == old(store)@.matrix_uid_to_nick.insert(user_id@, nick@),
        final(store)@.nick_matrix_uid == old(store)@.nick_matrix_uid.insert(nick@, user_id@),
        final(store)@.room_id_to_channel == old(store)@.room_id_to_channel,
        final(store)@.channel_to_room_id == old(store)@.channel_to_room_id,
        final(irc)@.nicks == old(irc)@.nicks.insert(nick@),
        final(irc)@.outputs == old(irc)@.outputs.push(
            OutputView::CreateUser { nick: nick@, user_id: user_id@ },
        ),
        final(irc)@ == (UserView {
            nicks: final(irc)@.nicks,
            outputs: final(irc)@.outputs,
            ..old(irc)@
        }),
{
}

/// What was mapped is found again, and nothing else; at first nothing is mapped.
pub proof fn law_mappings_are_found(
    store: MappingStore,
    name: &str,
    room_id: Option<&String>,
    channel: Option<&String>,
    nick: Option<&String>,
    none: MappingStore,
)
    requires
        call_ensures(MappingStore::channel_to_room_id, (&store, name), room_id),
        call_ensures(MappingStore::room_id_to_channel, (&store, name), channel),
        call_ensures(MappingStore::get_nick_from_matrix, (&store, name), nick),
        call_ensures(<MappingStore as Default>::default, (), none),
    ensures
        room_id is Some <==> store@.channel_to_room_id.contains_key(name@),
        room_id is Some ==> room_id->0@ == store@.channel_to_room_id[name@],
        channel is Some <==> store@.room_id_to_channel.contains_key(name@),
        channel is Some ==> channel->0@ == store@.room_id_to_channel[name@],
        nick is Some <==> store@.matrix_uid_to_nick.contains_key(name@),
        nick is Some ==> nick->0@ == store@.matrix_uid_to_nick[name@],
        !none@.channel_to_room_id.contains_key(name@),
        !none@.room_id_to_channel.contains_key(name@),
        !none@.matrix_uid_to_nick.contains_key(name@),
        !none@.nick_matrix_uid.contains_key(name@),
{
}

/// Names that are not in use are found by the same rule for nicks and for channels.
pub proof fn law_unused_nicks_and_channels(
    irc: IrcUserConnection,
    base: String,
    nick: String,
    channel: String,
)
    requires
        call_ensures(IrcUserConnection::unused_nick, (&irc, base), nick),
        call_ensures(IrcUserConnection::unused_channel, (&irc, base), channel),
    ensures
        given(base@, irc@.nicks, nick@),
        given(base@, irc@.channels, channel@),
{
    law_names_in_use_are_finite(irc);
    lemma_given(base@, irc@.nicks);
    lemma_given(base@, irc@.channels);
}

} // verus!
