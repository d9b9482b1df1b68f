//! What holds of a bridge whatever is said on either side.

use crate::bridge::mappings::{
    channel_for, nick_base, nick_for, with_member, with_members, with_room, MappingsView,
};
use crate::bridge::{
    all_passed, command_handled, greeted, join_answered, new_bridge, poll_irc_step,
    poll_matrix_step, response_handled, room_entered, room_synced, rooms_synced, BridgeView,
    IrcCmdAction, PollIrcAction, PollIrcEvent, PollMatrixAction, PollMatrixEvent,
    ANSWERS_PER_POLL,
};
use crate::irc::protocol::IrcCommand;
use crate::irc::user::{OutputView, UserView};
use crate::matrix::models::{MemberView, RoomView};
use crate::matrix::protocol::{EventView, JoinView, SyncResponse};
use crate::matrix::ClientView;
use crate::poll::Polled;
use crate::table::{is_least_free, lemma_unused_name_is_unused};
use crate::text::{decimal, digit, is_reserved, stripped};
use vstd::prelude::*;

verus! {

/// Two maps lead back and forth between the same things.
pub open spec fn mutual(there: Map<Seq<char>, Seq<char>>, back: Map<Seq<char>, Seq<char>>) -> bool {
    &&& forall|a: Seq<char>| #[trigger]
        there.contains_key(a) ==> back.contains_key(there[a]) && back[there[a]] == a
    &&& forall|b: Seq<char>| #[trigger]
        back.contains_key(b) ==> there.contains_key(back[b]) && there[back[b]] == b
}

/// Rooms and channels are mapped onto each other, and mapped channels are in use.
pub open spec fn channels_consistent(m: MappingsView, channels: Set<Seq<char>>) -> bool {
    &&& mutual(m.room_id_to_channel, m.channel_to_room_id)
    &&& m.channel_to_room_id.dom().subset_of(channels)
    &&& channels.finite()
}

/// Users and nicks are mapped onto each other, and mapped nicks are in use.
pub open spec fn nicks_consistent(m: MappingsView, nicks: Set<Seq<char>>) -> bool {
    &&& mutual(m.matrix_uid_to_nick, m.nick_matrix_uid)
    &&& m.nick_matrix_uid.dom().subset_of(nicks)
    &&& nicks.finite()
}

/// The mappings are one to one, and agree with the names in use.
pub open spec fn consistent(m: MappingsView, irc: UserView) -> bool {
    channels_consistent(m, irc.channels) && nicks_consistent(m, irc.nicks)
}

proof fn lemma_mutual_insert(
    there: Map<Seq<char>, Seq<char>>,
    back: Map<Seq<char>, Seq<char>>,
    a: Seq<char>,
    b: Seq<char>,
)
    requires
        mutual(there, back),
        !there.contains_key(a),
        !back.contains_key(b),
    ensures
        mutual(there.insert(a, b), back.insert(b, a)),
{
    let there1 = there.insert(a, b);
    let back1 = back.insert(b, a);
    assert forall|x: Seq<char>| #[trigger] there1.contains_key(x) implies back1.contains_key(
        there1[x],
    ) && back1[there1[x]] == x by {
        if x != a {
            assert(there.contains_key(x));
        }
    }
    assert forall|y: Seq<char>| #[trigger] back1.contains_key(y) implies there1.contains_key(
        back1[y],
    ) && there1[back1[y]] == y by {
        if y != b {
            assert(back.contains_key(y));
        }
    }
}

/// A user has the nick that was found; nobody else's nick changes, and the channels
/// are not touched.
pub proof fn law_users_have_the_nick_found(
    m: MappingsView,
    irc: UserView,
    user_id: Seq<char>,
    display_name: Seq<char>,
)
    ensures
        ({
            let (m1, irc1) = with_member(m, irc, user_id, display_name);
            let nick = nick_for(m, irc, user_id, display_name);
            &&& m1.matrix_uid_to_nick == m.matrix_uid_to_nick.insert(user_id, nick)
            &&& m.matrix_uid_to_nick.submap_of(m1.matrix_uid_to_nick)
            &&& m1.room_id_to_channel == m.room_id_to_channel
            &&& m1.channel_to_room_id == m.channel_to_room_id
            &&& irc1.channels == irc.channels
        }),
{
    let m1 = with_member(m, irc, user_id, display_name).0;
    let nick = nick_for(m, irc, user_id, display_name);
    assert(m1.matrix_uid_to_nick =~= m.matrix_uid_to_nick.insert(user_id, nick));
}

/// Giving a user a nick keeps users and nicks one to one, and afterwards the nick
/// leads to the user.
pub proof fn law_nicks_stay_consistent(
    m: MappingsView,
    irc: UserView,
    user_id: Seq<char>,
    display_name: Seq<char>,
)
    requires
        nicks_consistent(m, irc.nicks),
    ensures
        ({
            let (m1, irc1) = with_member(m, irc, user_id, display_name);
            let nick = nick_for(m, irc, user_id, display_name);
            &&& nicks_consistent(m1, irc1.nicks)
            &&& m1.nick_matrix_uid.contains_key(nick)
            &&& m1.nick_matrix_uid[nick] == user_id
        }),
{
    if !m.matrix_uid_to_nick.contains_key(user_id) {
        let nick = nick_for(m, irc, user_id, display_name);
        lemma_unused_name_is_unused(nick_base(user_id, display_name), irc.nicks);
        assert(!m.nick_matrix_uid.contains_key(nick)) by {
            if m.nick_matrix_uid.dom().contains(nick) {
                assert(irc.nicks.contains(nick));
            }
        }
        lemma_mutual_insert(m.matrix_uid_to_nick, m.nick_matrix_uid, user_id, nick);
    }
}

/// Giving users nicks never takes a nick away or changes one, and leaves nobody but
/// them with a new nick.
pub proof fn law_nicks_are_kept(m: MappingsView, irc: UserView, members: Seq<MemberView>)
    ensures
        ({
            let (m1, irc1) = with_members(m, irc, members);
            &&& m.matrix_uid_to_nick.submap_of(m1.matrix_uid_to_nick)
            &&& forall|i: int|
                0 <= i < members.len() ==> m1.matrix_uid_to_nick.contains_key(
                    (#[trigger] members[i]).user_id,
                )
            &&& forall|user_id: Seq<char>| #[trigger]
                m1.matrix_uid_to_nick.contains_key(user_id) ==> {
                    ||| m.matrix_uid_to_nick.contains_key(user_id)
                    ||| exists|i: int|
                        0 <= i < members.len() && (#[trigger] members[i]).user_id == user_id
                }
            &&& m1.room_id_to_channel == m.room_id_to_channel
            &&& m1.channel_to_room_id == m.channel_to_room_id
            &&& irc1.channels == irc.channels
        }),
    decreases members.len(),
{
    if members.len() > 0 {
        let front = members.drop_last();
        let last = members.last();
        law_nicks_are_kept(m, irc, front);
        let (m1, irc1) = with_members(m, irc, front);
        law_users_have_the_nick_found(m1, irc1, last.user_id, last.display_name);
        let (m2, irc2) = with_members(m, irc, members);
        lemma_submap_transitive(
            m.matrix_uid_to_nick,
            m1.matrix_uid_to_nick,
            m2.matrix_uid_to_nick,
        );
        assert forall|i: int| 0 <= i < members.len() implies m2.matrix_uid_to_nick.contains_key(
            (#[trigger] members[i]).user_id,
        ) by {
            if i < front.len() {
                assert(members[i] == front[i]);
            }
        }
        assert forall|user_id: Seq<char>| #[trigger]
            m2.matrix_uid_to_nick.contains_key(user_id) implies {
            ||| m.matrix_uid_to_nick.contains_key(user_id)
            ||| exists|i: int| 0 <= i < members.len() && (#[trigger] members[i]).user_id == user_id
        } by {
            if m1.matrix_uid_to_nick.contains_key(user_id) {
                if !m.matrix_uid_to_nick.contains_key(user_id) {
                    let i = choose|i: int|
                        0 <= i < front.len() && (#[trigger] front[i]).user_id == user_id;
                    assert(members[i].user_id == user_id);
                }
            } else {
                assert(members[members.len() - 1].user_id == user_id);
            }
        }
    }
}

/// Giving users nicks keeps users and nicks one to one.
pub proof fn law_members_stay_consistent(m: MappingsView, irc: UserView, members: Seq<MemberView>)
    requires
        nicks_consistent(m, irc.nicks),
    ensures
        nicks_consistent(
            with_members(m, irc, members).0,
            with_members(m, irc, members).1.nicks,
        ),
    decreases members.len(),
{
    if members.len() > 0 {
        law_members_stay_consistent(m, irc, members.drop_last());
        let (m1, irc1) = with_members(m, irc, members.drop_last());
        law_nicks_stay_consistent(
            m1,
            irc1,
            members.last().user_id,
            members.last().display_name,
        );
    }
}

/// A room has the channel that was found; no other room's channel changes, and
/// nobody loses a nick.
pub proof fn law_rooms_have_the_channel_found(m: MappingsView, irc: UserView, room: RoomView)
    ensures
        ({
            let m1 = with_room(m, irc, room).0;
            let channel = channel_for(m, irc, room);
            &&& m1.room_id_to_channel == m.room_id_to_channel.insert(room.room_id, channel)
            &&& m.room_id_to_channel.submap_of(m1.room_id_to_channel)
            &&& m.matrix_uid_to_nick.submap_of(m1.matrix_uid_to_nick)
        }),
{
    let channel = channel_for(m, irc, room);
    law_nicks_are_kept(m.with_channel(channel, room.room_id), irc, room.members);
    let m1 = with_room(m, irc, room).0;
    assert(m1.room_id_to_channel =~= m.room_id_to_channel.insert(room.room_id, channel));
}

/// Giving a room a channel keeps the mappings one to one, and afterwards the room
/// and its channel lead to each other: what is said in the channel goes to this
/// room, and what is said in the room shows up in this channel.
pub proof fn law_rooms_and_channels_lead_to_each_other(m: MappingsView, irc: UserView, room: RoomView)
    requires
        consistent(m, irc),
    ensures
        ({
            let (m1, irc1) = with_room(m, irc, room);
            let channel = channel_for(m, irc, room);
            &&& consistent(m1, irc1)
            &&& m1.room_id_to_channel.contains_key(room.room_id)
            &&& m1.room_id_to_channel[room.room_id] == channel
            &&& m1.channel_to_room_id.contains_key(channel)
            &&& m1.channel_to_room_id[channel] == room.room_id
            &&& m.channel_to_room_id.submap_of(m1.channel_to_room_id)
        }),
{
    if !m.room_id_to_channel.contains_key(room.room_id) {
        let channel = channel_for(m, irc, room);
        lemma_unused_name_is_unused(crate::bridge::mappings::channel_base(room), irc.channels);
        assert(!m.channel_to_room_id.contains_key(channel)) by {
            if m.channel_to_room_id.dom().contains(channel) {
                assert(irc.channels.contains(channel));
            }
        }
        lemma_mutual_insert(
            m.room_id_to_channel,
            m.channel_to_room_id,
            room.room_id,
            channel,
        );
        let m1 = m.with_channel(channel, room.room_id);
        law_nicks_are_kept(m1, irc, room.members);
        law_members_stay_consistent(m1, irc, room.members);
        let (m2, irc2) = with_room(m, irc, room);
        assert(m2.channel_to_room_id.dom().subset_of(irc2.channels)) by {
            assert forall|c: Seq<char>| m2.channel_to_room_id.dom().contains(
                c,
            ) implies irc2.channels.contains(c) by {
                if c != channel {
                    assert(m.channel_to_room_id.dom().contains(c));
                }
            }
        }
    } else {
        assert(m.room_id_to_channel.contains_key(room.room_id));
    }
}

/// When a room is given its channel, all of its members have nicks, so that what
/// they say in it can be passed on.
pub proof fn law_members_of_new_rooms_have_nicks(m: MappingsView, irc: UserView, room: RoomView)
    requires
        !m.room_id_to_channel.contains_key(room.room_id),
    ensures
        forall|i: int|
            0 <= i < room.members.len() ==> with_room(
                m,
                irc,
                room,
            ).0.matrix_uid_to_nick.contains_key((#[trigger] room.members[i]).user_id),
{
    let m1 = m.with_channel(channel_for(m, irc, room), room.room_id);
    law_nicks_are_kept(m1, irc, room.members);
}

proof fn lemma_decimal_not_reserved(n: nat)
    ensures
        forall|i: int| 0 <= i < decimal(n).len() ==> !is_reserved(#[trigger] decimal(n)[i]),
    decreases n,
{
    if n >= 10 {
        lemma_decimal_not_reserved(n / 10);
        assert forall|i: int| 0 <= i < decimal(n).len() implies !is_reserved(
            #[trigger] decimal(n)[i],
        ) by {
            if i < decimal(n / 10).len() {
                assert(decimal(n)[i] == decimal(n / 10)[i]);
            } else {
                assert(decimal(n)[i] == digit(n % 10));
            }
        }
    } else {
        assert(decimal(n)[0] == digit(n));
    }
}

/// A nick that a user is given holds no reserved character.
pub proof fn law_given_nicks_are_clean(
    m: MappingsView,
    irc: UserView,
    user_id: Seq<char>,
    display_name: Seq<char>,
)
    requires
        !m.matrix_uid_to_nick.contains_key(user_id),
    ensures
        forall|i: int|
            0 <= i < nick_for(m, irc, user_id, display_name).len() ==> !is_reserved(
                #[trigger] nick_for(m, irc, user_id, display_name)[i],
            ),
{
    let base = nick_base(user_id, display_name);
    let nick = nick_for(m, irc, user_id, display_name);
    lemma_stripped_is_clean(user_id);
    lemma_stripped_is_clean(display_name);
    if nick != base {
        let n = choose|n: nat| is_least_free(base, irc.nicks, n);
        lemma_decimal_not_reserved(n);
        assert forall|i: int| 0 <= i < nick.len() implies !is_reserved(#[trigger] nick[i]) by {
            let k = base.len() as int;
            if i < k {
                assert(nick[i] == base[i]);
            } else if k < i < nick.len() - 1 {
                assert(nick[i] == decimal(n)[i - k - 1]);
            }
        }
    }
}

proof fn lemma_stripped_is_clean(s: Seq<char>)
    ensures
        forall|i: int| 0 <= i < stripped(s).len() ==> !is_reserved(#[trigger] stripped(s)[i]),
{
    assert forall|i: int| 0 <= i < stripped(s).len() implies !is_reserved(
        #[trigger] stripped(s)[i],
    ) by {
        s.lemma_filter_pred(|c: char| !is_reserved(c), i);
    }
}

/// In a bridge that was just set up the user's own nick and Matrix ID lead to each
/// other; with only so many names in use it is consistent.
pub proof fn law_new_bridges_are_consistent(irc: UserView, client: ClientView)
    ensures
        ({
            let b = new_bridge(irc, client);
            &&& irc.nicks.finite() && irc.channels.finite() ==> consistent(b.mappings, b.irc)
            &&& b.mappings.matrix_uid_to_nick[client.user_id] == irc.nick
            &&& b.mappings.nick_matrix_uid[irc.nick] == client.user_id
        }),
{
    let empty = Map::<Seq<char>, Seq<char>>::empty();
    assert(mutual(empty, empty));
    lemma_mutual_insert(empty, empty, client.user_id, irc.nick);
}

/// A bridge after something happened on it: no output was taken back, no room lost
/// its channel, nobody lost a nick, and the first sync was not undone. A bridge that
/// was consistent still is, and its channels still lead to their rooms.
pub open spec fn kept(b: BridgeView, d: BridgeView) -> bool {
    &&& b.irc.outputs.is_prefix_of(d.irc.outputs)
    &&& b.mappings.room_id_to_channel.submap_of(d.mappings.room_id_to_channel)
    &&& b.mappings.matrix_uid_to_nick.submap_of(d.mappings.matrix_uid_to_nick)
    &&& d.is_first_sync ==> b.is_first_sync
    &&& b.closed == d.closed
    &&& b.client == d.client
    &&& consistent(b.mappings, b.irc) ==> {
        &&& consistent(d.mappings, d.irc)
        &&& b.mappings.channel_to_room_id.submap_of(d.mappings.channel_to_room_id)
    }
}

/// Taking in the answer to a join takes no output back, loses no mapping, and keeps a
/// bridge consistent.
pub proof fn law_joins_keep_bridges_consistent(
    b: BridgeView,
    channel: Seq<char>,
    joined: Option<Seq<char>>,
)
    ensures
        kept(b, join_answered(b, channel, joined)),
{
}

proof fn lemma_members_outputs(m: MappingsView, irc: UserView, members: Seq<MemberView>)
    ensures
        irc.outputs.is_prefix_of(with_members(m, irc, members).1.outputs),
    decreases members.len(),
{
    if members.len() > 0 {
        lemma_members_outputs(m, irc, members.drop_last());
    }
}

/// Passing on what is new in a room takes no output back, loses no mapping, and keeps
/// a bridge consistent.
pub proof fn law_room_syncs_keep_bridges_consistent(
    b: BridgeView,
    room_id: Seq<char>,
    events: Seq<EventView>,
)
    ensures
        kept(b, room_synced(b, room_id, events)),
{
    if b.client.rooms.contains_key(room_id) {
        let room = b.client.rooms[room_id]@;
        law_rooms_have_the_channel_found(b.mappings, b.irc, room);
        if consistent(b.mappings, b.irc) {
            law_rooms_and_channels_lead_to_each_other(b.mappings, b.irc, room);
        }
        lemma_members_outputs(
            b.mappings.with_channel(channel_for(b.mappings, b.irc, room), room.room_id),
            b.irc,
            room.members,
        );
    }
}

/// What was kept twice in a row was kept.
pub proof fn lemma_kept_transitive(b: BridgeView, c: BridgeView, d: BridgeView)
    requires
        kept(b, c),
        kept(c, d),
    ensures
        kept(b, d),
{
    let (x, y, z) = (b.irc.outputs, c.irc.outputs, d.irc.outputs);
    assert forall|i: int| 0 <= i < x.len() implies x[i] == z[i] by {
        assert(x[i] == y.subrange(0, x.len() as int)[i]);
        assert(y[i] == z.subrange(0, y.len() as int)[i]);
    }
    assert(x =~= z.subrange(0, x.len() as int));
    lemma_submap_transitive(
        b.mappings.room_id_to_channel,
        c.mappings.room_id_to_channel,
        d.mappings.room_id_to_channel,
    );
    if consistent(b.mappings, b.irc) {
        lemma_submap_transitive(
            b.mappings.channel_to_room_id,
            c.mappings.channel_to_room_id,
            d.mappings.channel_to_room_id,
        );
    }
    lemma_submap_transitive(
        b.mappings.matrix_uid_to_nick,
        c.mappings.matrix_uid_to_nick,
        d.mappings.matrix_uid_to_nick,
    );
}

/// What a map holds, every map that holds that map holds.
pub proof fn lemma_submap_transitive(
    a: Map<Seq<char>, Seq<char>>,
    b: Map<Seq<char>, Seq<char>>,
    c: Map<Seq<char>, Seq<char>>,
)
    requires
        a.submap_of(b),
        b.submap_of(c),
    ensures
        a.submap_of(c),
{
    assert forall|k: Seq<char>| #[trigger] a.dom().contains(k) implies c.dom().contains(k) && a[k]
        == c[k] by {
        assert(b.dom().contains(k));
    }
}

/// Passing on what is new in some rooms keeps what one room keeps.
pub proof fn lemma_rooms_kept(b: BridgeView, join: Seq<JoinView>)
    ensures
        kept(b, rooms_synced(b, join)),
    decreases join.len(),
{
    if join.len() > 0 {
        lemma_rooms_kept(b, join.drop_last());
        let m = rooms_synced(b, join.drop_last());
        law_room_syncs_keep_bridges_consistent(m, join.last().room_id, join.last().events);
        lemma_kept_transitive(b, m, rooms_synced(b, join));
    }
}

/// Working through an answer of the homeserver takes no output back, loses no mapping,
/// and keeps a bridge consistent; once it is worked through, the first sync is over.
pub proof fn law_answers_keep_bridges_consistent(b: BridgeView, join: Seq<JoinView>)
    ensures
        kept(b, response_handled(b, join)),
        !response_handled(b, join).is_first_sync,
{
    let g = greeted(b);
    assert(kept(b, g));
    lemma_rooms_kept(g, join);
    lemma_kept_transitive(b, g, rooms_synced(g, join));
}

/// Nobody is greeted by the outputs from this one on.
pub open spec fn no_greeting_from(n: int, outputs: Seq<OutputView>) -> bool {
    forall|i: int| n <= i < outputs.len() ==> !(#[trigger] outputs[i] is Welcome)
}

proof fn lemma_members_do_not_greet(
    n: int,
    m: MappingsView,
    irc: UserView,
    members: Seq<MemberView>,
)
    requires
        0 <= n,
        no_greeting_from(n, irc.outputs),
    ensures
        no_greeting_from(n, with_members(m, irc, members).1.outputs),
    decreases members.len(),
{
    if members.len() > 0 {
        lemma_members_do_not_greet(n, m, irc, members.drop_last());
    }
}

proof fn lemma_messages_do_not_greet(
    m: MappingsView,
    homeserver: Seq<char>,
    channel: Seq<char>,
    events: Seq<EventView>,
)
    ensures
        no_greeting_from(0, all_passed(m, homeserver, channel, events)),
    decreases events.len(),
{
    if events.len() > 0 {
        lemma_messages_do_not_greet(m, homeserver, channel, events.drop_last());
    }
}

proof fn lemma_rooms_do_not_greet(n: int, b: BridgeView, join: Seq<JoinView>)
    requires
        0 <= n,
        no_greeting_from(n, b.irc.outputs),
    ensures
        no_greeting_from(n, rooms_synced(b, join).irc.outputs),
    decreases join.len(),
{
    if join.len() > 0 {
        lemma_rooms_do_not_greet(n, b, join.drop_last());
        let m = rooms_synced(b, join.drop_last());
        let room_id = join.last().room_id;
        if m.client.rooms.contains_key(room_id) {
            let room = m.client.rooms[room_id]@;
            let channel = channel_for(m.mappings, m.irc, room);
            lemma_members_do_not_greet(
                n,
                m.mappings.with_channel(channel, room.room_id),
                m.irc,
                room.members,
            );
            lemma_messages_do_not_greet(
                room_entered(m, room_id).mappings,
                m.client.url,
                channel,
                join.last().events,
            );
        }
    }
}

/// The user is greeted before anything else of the first answer is passed on, only
/// once, and by no later answer.
pub proof fn law_greeted_first_and_once(b: BridgeView, join: Seq<JoinView>)
    ensures
        ({
            let n = b.irc.outputs.len() as int;
            let outputs = response_handled(b, join).irc.outputs;
            if b.is_first_sync {
                &&& b.irc.outputs.push(OutputView::Welcome).push(
                    OutputView::Ping { data: "HELLO"@ },
                ).is_prefix_of(outputs)
                &&& no_greeting_from(n + 1, outputs)
            } else {
                no_greeting_from(n, outputs)
            }
        }),
{
    let n = b.irc.outputs.len() as int;
    lemma_rooms_kept(greeted(b), join);
    lemma_rooms_do_not_greet(
        if b.is_first_sync {
            n + 1
        } else {
            n
        },
        greeted(b),
        join,
    );
}

/// It does not matter whether the answer to a join or the room itself comes first:
/// either way the user is told of another channel than the one asked for, once, and
/// nothing is left waiting.
///
/// It does matter where the room is already waited for under a wrong channel: what
/// the user is told of that one is then told before, after, or not at all.
pub proof fn law_join_and_sync_may_come_in_either_order(
    b: BridgeView,
    room_id: Seq<char>,
    channel: Seq<char>,
)
    requires
        b.client.rooms.contains_key(room_id),
        b.client.rooms[room_id]@.room_id == room_id,
        b.joining.contains_key(room_id) ==> {
            let found = channel_for(b.mappings, b.irc, b.client.rooms[room_id]@);
            let waiting = b.joining[room_id];
            ||| waiting == found
            ||| b.mappings.room_id_to_channel.contains_key(room_id) && (channel == found || channel
                == waiting)
        },
    ensures
        ({
            let join_first = room_entered(join_answered(b, channel, Some(room_id)), room_id);
            let room_first = join_answered(room_entered(b, room_id), channel, Some(room_id));
            &&& join_first == room_first
            &&& !join_first.joining.contains_key(room_id)
            &&& join_first.mappings.room_id_to_channel.contains_key(room_id)
            &&& join_first.mappings.room_id_to_channel[room_id] == channel_for(
                b.mappings,
                b.irc,
                b.client.rooms[room_id]@,
            )
        }),
{
    let room = b.client.rooms[room_id]@;
    law_rooms_have_the_channel_found(b.mappings, b.irc, room);
    let join_first = room_entered(join_answered(b, channel, Some(room_id)), room_id);
    let room_first = join_answered(room_entered(b, room_id), channel, Some(room_id));
    assert(b.joining.insert(room_id, channel).remove(room_id) =~= b.joining.remove(room_id));
    assert(join_first =~= room_first);
}

/// Something that happens in a session.
pub ghost enum SessionStep {
    /// A join of a channel was answered.
    JoinAnswered { channel: Seq<char>, joined: Option<Seq<char>> },
    /// An answer of the homeserver was worked through.
    Answered(Seq<JoinView>),
    /// The IRC user has left.
    Left,
    /// What the IRC user is to be told was taken.
    OutputsTaken,
    /// The Matrix side learned something.
    ClientChanged(ClientView),
}

/// The bridge after one step.
pub open spec fn after_session_step(b: BridgeView, step: SessionStep) -> BridgeView {
    match step {
        SessionStep::JoinAnswered { channel, joined } => join_answered(b, channel, joined),
        SessionStep::Answered(join) => response_handled(b, join),
        SessionStep::Left => BridgeView { closed: true, ..b },
        SessionStep::OutputsTaken => BridgeView {
            irc: UserView { outputs: Seq::empty(), ..b.irc },
            ..b
        },
        SessionStep::ClientChanged(client) => BridgeView { client, ..b },
    }
}

/// The bridge after some steps.
pub open spec fn after_session(b: BridgeView, steps: Seq<SessionStep>) -> BridgeView
    decreases steps.len(),
{
    if steps.len() == 0 {
        b
    } else {
        after_session_step(after_session(b, steps.drop_last()), steps.last())
    }
}

/// What no step of a session undoes: rooms keep their channels and users their nicks,
/// and in a consistent bridge channels keep their rooms.
proof fn lemma_sessions_keep_names(b: BridgeView, steps: Seq<SessionStep>)
    ensures
        ({
            let (m, d) = (b.mappings, after_session(b, steps));
            &&& m.room_id_to_channel.submap_of(d.mappings.room_id_to_channel)
            &&& m.matrix_uid_to_nick.submap_of(d.mappings.matrix_uid_to_nick)
            &&& consistent(m, b.irc) ==> {
                &&& consistent(d.mappings, d.irc)
                &&& m.channel_to_room_id.submap_of(d.mappings.channel_to_room_id)
            }
        }),
    decreases steps.len(),
{
    if steps.len() > 0 {
        lemma_sessions_keep_names(b, steps.drop_last());
        let c = after_session(b, steps.drop_last());
        let d = after_session(b, steps);
        match steps.last() {
            SessionStep::JoinAnswered { channel, joined } => {
                law_joins_keep_bridges_consistent(c, channel, joined);
            },
            SessionStep::Answered(join) => {
                law_answers_keep_bridges_consistent(c, join);
            },
            _ => {},
        }
        lemma_submap_transitive(
            b.mappings.room_id_to_channel,
            c.mappings.room_id_to_channel,
            d.mappings.room_id_to_channel,
        );
        lemma_submap_transitive(
            b.mappings.matrix_uid_to_nick,
            c.mappings.matrix_uid_to_nick,
            d.mappings.matrix_uid_to_nick,
        );
        if consistent(b.mappings, b.irc) {
            lemma_submap_transitive(
                b.mappings.channel_to_room_id,
                c.mappings.channel_to_room_id,
                d.mappings.channel_to_room_id,
            );
        }
    }
}

/// A room that was given a channel keeps it: whatever happens in between, and whatever
/// its name, its alias or its members have become, asking again changes nothing and
/// gives the same channel.
pub proof fn law_a_channel_is_given_once(
    b: BridgeView,
    room: RoomView,
    steps: Seq<SessionStep>,
    later: RoomView,
)
    requires
        later.room_id == room.room_id,
    ensures
        ({
            let (mappings, irc) = with_room(b.mappings, b.irc, room);
            let d = after_session(BridgeView { mappings, irc, ..b }, steps);
            &&& channel_for(d.mappings, d.irc, later) == channel_for(b.mappings, b.irc, room)
            &&& with_room(d.mappings, d.irc, later) == (d.mappings, d.irc)
        }),
{
    law_rooms_have_the_channel_found(b.mappings, b.irc, room);
    let (mappings, irc) = with_room(b.mappings, b.irc, room);
    let c = BridgeView { mappings, irc, ..b };
    lemma_sessions_keep_names(c, steps);
    assert(c.mappings.room_id_to_channel.dom().contains(room.room_id));
}

/// A user who was given a nick keeps it: whatever happens in between, and whatever
/// display name the user has taken, asking again changes nothing and gives the same
/// nick.
pub proof fn law_a_nick_is_given_once(
    b: BridgeView,
    user_id: Seq<char>,
    display_name: Seq<char>,
    steps: Seq<SessionStep>,
    later_name: Seq<char>,
)
    ensures
        ({
            let (mappings, irc) = with_member(b.mappings, b.irc, user_id, display_name);
            let d = after_session(BridgeView { mappings, irc, ..b }, steps);
            &&& nick_for(d.mappings, d.irc, user_id, later_name) == nick_for(
                b.mappings,
                b.irc,
                user_id,
                display_name,
            )
            &&& with_member(d.mappings, d.irc, user_id, later_name) == (d.mappings, d.irc)
        }),
{
    law_users_have_the_nick_found(b.mappings, b.irc, user_id, display_name);
    let (mappings, irc) = with_member(b.mappings, b.irc, user_id, display_name);
    let c = BridgeView { mappings, irc, ..b };
    lemma_sessions_keep_names(c, steps);
    assert(c.mappings.matrix_uid_to_nick.dom().contains(user_id));
}

/// What the IRC user says in the channel of a room goes to that room, whatever has
/// happened since the room was given the channel.
pub proof fn law_messages_go_to_the_room_of_their_channel(
    b: BridgeView,
    room_id: Seq<char>,
    events: Seq<EventView>,
    steps: Seq<SessionStep>,
    line: IrcCommand,
    action: IrcCmdAction,
)
    requires
        consistent(b.mappings, b.irc),
        b.client.rooms.contains_key(room_id),
        b.client.rooms[room_id]@.room_id == room_id,
        line is PrivMsg,
        line->PrivMsg_channel@ == channel_for(b.mappings, b.irc, b.client.rooms[room_id]@),
        command_handled(after_session(room_synced(b, room_id, events), steps), line, action),
    ensures
        action is SendMessage,
        action->SendMessage_0@.room_id == room_id,
{
    law_rooms_and_channels_lead_to_each_other(b.mappings, b.irc, b.client.rooms[room_id]@);
    let c = room_synced(b, room_id, events);
    law_room_syncs_keep_bridges_consistent(b, room_id, events);
    lemma_sessions_keep_names(c, steps);
    assert(c.mappings.channel_to_room_id.dom().contains(line->PrivMsg_channel@));
}

/// At every moment of a session the mappings are one to one and agree with the
/// names in use: no two rooms share a channel, and no two users share a nick.
pub proof fn law_sessions_are_always_consistent(
    irc: UserView,
    client: ClientView,
    steps: Seq<SessionStep>,
)
    requires
        irc.nicks.finite(),
        irc.channels.finite(),
    ensures
        ({
            let b = after_session(new_bridge(irc, client), steps);
            &&& consistent(b.mappings, b.irc)
            &&& forall|x: Seq<char>, y: Seq<char>|
                {
                    &&& #[trigger] b.mappings.room_id_to_channel.contains_key(x)
                    &&& #[trigger] b.mappings.room_id_to_channel.contains_key(y)
                    &&& b.mappings.room_id_to_channel[x] == b.mappings.room_id_to_channel[y]
                } ==> x == y
            &&& forall|x: Seq<char>, y: Seq<char>|
                {
                    &&& #[trigger] b.mappings.matrix_uid_to_nick.contains_key(x)
                    &&& #[trigger] b.mappings.matrix_uid_to_nick.contains_key(y)
                    &&& b.mappings.matrix_uid_to_nick[x] == b.mappings.matrix_uid_to_nick[y]
                } ==> x == y
        }),
    decreases steps.len(),
{
    if steps.len() == 0 {
        law_new_bridges_are_consistent(irc, client);
    } else {
        law_sessions_are_always_consistent(irc, client, steps.drop_last());
        let b = after_session(new_bridge(irc, client), steps.drop_last());
        match steps.last() {
            SessionStep::JoinAnswered { channel, joined } => {
                law_joins_keep_bridges_consistent(b, channel, joined);
            },
            SessionStep::Answered(join) => {
                law_answers_keep_bridges_consistent(b, join);
            },
            _ => {},
        }
    }
}

/// No command of the IRC client is asked for, let alone handled, until the first
/// answer of the homeserver was worked through.
pub proof fn law_no_command_before_the_first_sync<E>(b: BridgeView)
    requires
        b.is_first_sync,
    ensures
        poll_irc_step(b, PollIrcEvent::<E>::Start) == (b, PollIrcAction::<E>::Return(Ok(()))),
{
}

/// Polling the IRC client changes nothing but that a bridge whose client has left
/// is closed, and it stays closed.
pub proof fn law_polling_irc_only_closes<E>(b: BridgeView, event: PollIrcEvent<E>)
    ensures
        ({
            let d = poll_irc_step(b, event).0;
            &&& d == BridgeView { closed: d.closed, ..b }
            &&& b.closed ==> d.closed
            &&& d.closed && !b.closed ==> event == PollIrcEvent::<E>::Polled(
                Ok(Polled::Ready(None::<IrcCommand>)),
            )
        }),
{
}

/// The count of answers worked through after polling the homeserver from the start
/// with these answers, as long as polling goes on.
pub open spec fn answers_counted<E>(b: BridgeView, answers: Seq<Option<Result<SyncResponse, E>>>) -> (
    BridgeView,
    int,
    PollMatrixAction<E>,
)
    decreases answers.len(),
{
    if answers.len() == 0 {
        poll_matrix_step(b, 0, PollMatrixEvent::<E>::Start)
    } else {
        let (m, handled, action) = answers_counted(b, answers.drop_last());
        if action is Next {
            poll_matrix_step(m, handled, PollMatrixEvent::Next(answers.last()))
        } else {
            (m, handled, action)
        }
    }
}

/// One go of polling the homeserver works through thirty-one answers at most: while
/// more are asked for, one was worked through for each that came, and no more than
/// thirty.
pub proof fn law_one_poll_is_bounded<E>(
    b: BridgeView,
    answers: Seq<Option<Result<SyncResponse, E>>>,
)
    ensures
        ({
            let (d, handled, action) = answers_counted(b, answers);
            &&& 0 <= handled <= ANSWERS_PER_POLL + 1
            &&& action is Next ==> handled == answers.len() <= ANSWERS_PER_POLL
        }),
    decreases answers.len(),
{
    if answers.len() > 0 {
        law_one_poll_is_bounded(b, answers.drop_last());
    }
}

} // verus!
