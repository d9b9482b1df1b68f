//! What passes over a bridge in either direction, whatever is said on it.

use crate::bridge::laws::{
    kept, law_members_of_new_rooms_have_nicks, law_room_syncs_keep_bridges_consistent,
    law_rooms_have_the_channel_found, lemma_kept_transitive, lemma_rooms_kept,
};
use crate::bridge::mappings::{channel_for, with_room, MappingsView};
use crate::bridge::name_laws::{channel_found, lemma_channel_found};
use crate::bridge::{
    all_passed, greeted, is_stuck, law_bridged_names_are_finite, passed, read_message,
    response_handled, room_entered, room_resolves, room_synced, rooms_resolve, rooms_synced, Bridge,
    BridgeView, CreateError, IrcCmdAction, Message, PollIrcAction, PollIrcEvent, PollMatrixAction,
    PollMatrixEvent,
};
use crate::irc::protocol::IrcCommand;
use crate::irc::user::{IrcUserConnection, OutputView, UserView};
use crate::matrix::identifiers::is_room_id_or_alias;
use crate::matrix::json::string_members;
use crate::matrix::media::media_link;
use crate::matrix::models::Room;
use crate::matrix::protocol::{
    event_views, join_views, Event, JoinView, JoinedRoomSyncResponse, SyncResponse,
};
use crate::matrix::session_laws::{asks_to_send, leads_to, lemma_asks_to_send, lemma_media_links, lemma_media_links_are_one};
use crate::matrix::{LoginRequest, MatrixClient};
use crate::poll::Polled;
use vstd::prelude::*;

verus! {

/// A kind of message that shares a file.
pub open spec fn shares_a_file(msgtype: Seq<char>) -> bool {
    msgtype == "m.image"@ || msgtype == "m.file"@ || msgtype == "m.video"@ || msgtype == "m.audio"@
}

/// The message is read so out of a body, a type and a link: nothing where the body or
/// the type is missing, or a file has no link; what is said, what is done, and what is
/// shared, in the very words; and what is said for types that are not known.
pub proof fn law_messages_are_read(
    body: Option<String>,
    msgtype: Option<String>,
    url: Option<String>,
    r: Message,
)
    requires
        call_ensures(read_message, (body, msgtype, url), r),
    ensures
        body is None || msgtype is None ==> r is Nothing,
        body is Some && msgtype is Some ==> {
            let t = msgtype->0@;
            &&& t == "m.emote"@ ==> r is Emote && r->Emote_0@ == body->0@
            &&& shares_a_file(t) && url is Some ==> r is Media && r->Media_0@ == url->0@
            &&& shares_a_file(t) && url is None ==> r is Nothing
            &&& t != "m.emote"@ && !shares_a_file(t) ==> r is Text && r->Text_0@ == body->0@
        },
{
    reveal_strlit("m.text");
    reveal_strlit("m.emote");
    reveal_strlit("m.image");
    reveal_strlit("m.file");
    reveal_strlit("m.video");
    reveal_strlit("m.audio");
    assert("m.text"@.len() == 6 && "m.emote"@.len() == 7 && "m.image"@.len() == 7);
    assert("m.file"@[2] == 'f' && "m.text"@[2] == 't');
    assert("m.emote"@[2] == 'e' && "m.image"@[2] == 'i' && "m.video"@[2] == 'v');
    assert("m.audio"@[2] == 'a');
}

/// The event is told on IRC: it is a message of a user who has a nick, its body and its
/// type are texts, and so is the link where it shares a file.
pub open spec fn is_told(m: MappingsView, event: Event) -> bool {
    let content = string_members(event.content);
    &&& event.etype@ == "m.room.message"@
    &&& m.matrix_uid_to_nick.contains_key(event.sender@)
    &&& content.contains_key("body"@)
    &&& content.contains_key("msgtype"@)
    &&& shares_a_file(content["msgtype"@]) ==> content.contains_key("url"@)
}

/// What is told of an event: that its sender, by the nick, does its very body, shares
/// what its link leads to, or says its very body, in the channel.
pub open spec fn tells(
    m: MappingsView,
    homeserver: Seq<char>,
    channel: Seq<char>,
    event: Event,
    output: OutputView,
) -> bool {
    let content = string_members(event.content);
    let sender = m.matrix_uid_to_nick[event.sender@];
    let body = content["body"@];
    let msgtype = content["msgtype"@];
    &&& msgtype == "m.emote"@ ==> output == OutputView::Action { channel, sender, body }
    &&& shares_a_file(msgtype) ==> {
        &&& output is Message
        &&& output->Message_channel == channel
        &&& output->Message_sender == sender
        &&& exists|link: Option<Seq<char>>| #[trigger]
            leads_to(homeserver, content["url"@], link) && (link is Some
                ==> output->Message_body == link->0)
    }
    &&& msgtype != "m.emote"@ && !shares_a_file(msgtype) ==> output == OutputView::Message {
        channel,
        sender,
        body,
    }
}

/// Of some events, all that are to be told were told in the channel, in order, and
/// nothing else: `told` gives their places, and `after` is `before` with what was told
/// of each behind it.
pub open spec fn all_told(
    m: MappingsView,
    homeserver: Seq<char>,
    channel: Seq<char>,
    events: Seq<Event>,
    told: Seq<int>,
    before: Seq<OutputView>,
    after: Seq<OutputView>,
) -> bool {
    &&& before.is_prefix_of(after)
    &&& after.len() == before.len() + told.len()
    &&& forall|k: int| 0 <= k < told.len() ==> 0 <= #[trigger] told[k] < events.len()
    &&& forall|j: int, k: int|
        0 <= j < k < told.len() ==> #[trigger] told[j] < #[trigger] told[k]
    &&& forall|i: int|
        0 <= i < events.len() ==> (is_told(m, #[trigger] events[i]) <==> told.contains(i))
    &&& forall|k: int|
        0 <= k < told.len() ==> tells(
            m,
            homeserver,
            channel,
            events[#[trigger] told[k]],
            after[before.len() + k],
        )
}

proof fn lemma_passed(
    m: MappingsView,
    homeserver: Seq<char>,
    channel: Seq<char>,
    event: Event,
)
    ensures
        is_told(m, event) <==> passed(m, homeserver, channel, event@) is Some,
        is_told(m, event) ==> tells(
            m,
            homeserver,
            channel,
            event,
            passed(m, homeserver, channel, event@)->0,
        ),
{
    reveal_strlit("m.text");
    reveal_strlit("m.emote");
    reveal_strlit("m.image");
    reveal_strlit("m.file");
    reveal_strlit("m.video");
    reveal_strlit("m.audio");
    assert("m.text"@.len() == 6 && "m.emote"@.len() == 7 && "m.image"@.len() == 7);
    assert("m.file"@[2] == 'f' && "m.text"@[2] == 't');
    assert("m.emote"@[2] == 'e' && "m.image"@[2] == 'i' && "m.video"@[2] == 'v');
    assert("m.audio"@[2] == 'a');
    let content = string_members(event.content);
    if content.contains_key("url"@) {
        lemma_media_links(homeserver, content["url"@]);
        assert(leads_to(homeserver, content["url"@], media_link(homeserver, content["url"@])));
    }
}

proof fn lemma_all_told(
    m: MappingsView,
    homeserver: Seq<char>,
    channel: Seq<char>,
    events: Seq<Event>,
    before: Seq<OutputView>,
) -> (told: Seq<int>)
    ensures
        all_told(
            m,
            homeserver,
            channel,
            events,
            told,
            before,
            before + all_passed(m, homeserver, channel, event_views(events)),
        ),
    decreases events.len(),
{
    let views = event_views(events);
    let outputs = all_passed(m, homeserver, channel, views);
    let after = before + outputs;
    assert(before =~= after.subrange(0, before.len() as int));
    if events.len() == 0 {
        Seq::empty()
    } else {
        let front = events.drop_last();
        let n = front.len() as int;
        let told = lemma_all_told(m, homeserver, channel, front, before);
        assert(views.drop_last() =~= event_views(front));
        let mid = before + all_passed(m, homeserver, channel, event_views(front));
        let last = events.last();
        lemma_passed(m, homeserver, channel, last);
        let r = if is_told(m, last) {
            told.push(n)
        } else {
            told
        };
        assert forall|k: int| 0 <= k < told.len() implies after[before.len() + k] == mid[
        before.len() + k] && events[#[trigger] told[k]] == front[told[k]] by {}
        assert forall|i: int| 0 <= i < events.len() implies (is_told(m, #[trigger] events[i])
            <==> r.contains(i)) by {
            if i < n {
                assert(events[i] == front[i]);
                if told.contains(i) {
                    let k = choose|k: int| 0 <= k < told.len() && told[k] == i;
                    assert(r[k] == i);
                }
                if r.contains(i) {
                    let k = choose|k: int| 0 <= k < r.len() && r[k] == i;
                    assert(k < told.len());
                    assert(told[k] == i);
                }
            } else {
                if is_told(m, last) {
                    assert(r[told.len() as int] == i);
                } else if r.contains(i) {
                    let k = choose|k: int| 0 <= k < r.len() && r[k] == i;
                    assert(told[k] < n);
                }
            }
        }
        assert forall|k: int| 0 <= k < r.len() implies tells(
            m,
            homeserver,
            channel,
            events[#[trigger] r[k]],
            after[before.len() + k],
        ) by {
            if k < told.len() {
                assert(r[k] == told[k]);
            }
        }
        r
    }
}

/// What is new in a room was passed on, from `c` to `d`. Nothing happens for a room that
/// is not known. For any other one the room was found a channel; whoever asked for it
/// under another one was told so, and nobody waits for it any more; and then all of its
/// events that are to be told were told in that channel, be it new or not.
pub open spec fn room_passed_on(
    c: BridgeView,
    room_id: Seq<char>,
    events: Seq<Event>,
    d: BridgeView,
) -> bool {
    if !c.client.rooms.contains_key(room_id) {
        d == c
    } else {
        exists|channel: Seq<char>, irc: UserView, entered: Seq<OutputView>, told: Seq<int>|
            {
                let asked = c.joining[room_id];
                &&& entered == if c.joining.contains_key(room_id) && asked != channel {
                    irc.outputs.push(OutputView::RedirectJoin { from: asked, to: channel })
                } else {
                    irc.outputs
                }
                &&& #[trigger] channel_found(
                    c.mappings,
                    c.irc,
                    c.client.rooms[room_id],
                    channel,
                    d.mappings,
                    irc,
                )
                &&& #[trigger] all_told(
                    d.mappings,
                    c.client.url,
                    channel,
                    events,
                    told,
                    entered,
                    d.irc.outputs,
                )
                &&& d.irc == UserView { outputs: d.irc.outputs, ..irc }
                &&& d.joining == c.joining.remove(room_id)
                &&& d == BridgeView {
                    irc: d.irc,
                    mappings: d.mappings,
                    joining: d.joining,
                    ..c
                }
            }
    }
}

proof fn lemma_room_passed_on(b: BridgeView, room_id: Seq<char>, events: Seq<Event>)
    requires
        b.irc.nicks.finite(),
        b.irc.channels.finite(),
    ensures
        room_passed_on(b, room_id, events, room_synced(b, room_id, event_views(events))),
        room_synced(b, room_id, event_views(events)).irc.nicks.finite(),
        room_synced(b, room_id, event_views(events)).irc.channels.finite(),
{
    if b.client.rooms.contains_key(room_id) {
        let room = b.client.rooms[room_id];
        lemma_channel_found(b.mappings, b.irc, room);
        let channel = channel_for(b.mappings, b.irc, room@);
        let (mappings, irc) = with_room(b.mappings, b.irc, room@);
        let entered = room_entered(b, room_id);
        let d = room_synced(b, room_id, event_views(events));
        let told = lemma_all_told(
            mappings,
            b.client.url,
            channel,
            events,
            entered.irc.outputs,
        );
        assert(d.irc.outputs == entered.irc.outputs + all_passed(
            mappings,
            b.client.url,
            channel,
            event_views(events),
        ));
        assert(channel_found(b.mappings, b.irc, room, channel, d.mappings, irc));
        assert(all_told(
            d.mappings,
            b.client.url,
            channel,
            events,
            told,
            entered.irc.outputs,
            d.irc.outputs,
        ));
    }
}

/// What is new in a room is passed on.
pub proof fn law_rooms_are_passed_on(
    bridge: &mut Bridge,
    room_id: &str,
    sync: JoinedRoomSyncResponse,
)
    requires
        call_ensures(Bridge::handle_room_sync, (bridge, room_id, &sync), ()),
    ensures
        room_passed_on(old(bridge)@, room_id@, sync.timeline.events@, final(bridge)@),
{
    law_bridged_names_are_finite(*old(bridge));
    lemma_room_passed_on(old(bridge)@, room_id@, sync.timeline.events@);
}

/// An answer of the homeserver was worked through, from `c` to `d`, with `steps` the
/// bridge before each of its rooms and after the last one: at first the user is greeted,
/// if no answer came before; then what is new in each room is passed on; and then the
/// first sync is over.
pub open spec fn answer_passed_on(
    c: BridgeView,
    response: SyncResponse,
    steps: Seq<BridgeView>,
    d: BridgeView,
) -> bool {
    let join = response.rooms.join@;
    &&& steps.len() == join.len() + 1
    &&& steps[0] == (if c.is_first_sync {
        BridgeView {
            irc: UserView {
                outputs: c.irc.outputs.push(OutputView::Welcome).push(
                    OutputView::Ping { data: seq!['H', 'E', 'L', 'L', 'O'] },
                ),
                ..c.irc
            },
            ..c
        }
    } else {
        c
    })
    &&& forall|k: int|
        0 <= k < join.len() ==> room_passed_on(
            steps[k],
            (#[trigger] join[k]).0@,
            join[k].1.timeline.events@,
            steps[k + 1],
        )
    &&& d == BridgeView { is_first_sync: false, ..steps.last() }
}

proof fn lemma_rooms_passed_on(
    start: BridgeView,
    join: Seq<(String, JoinedRoomSyncResponse)>,
    k: int,
)
    requires
        start.irc.nicks.finite(),
        start.irc.channels.finite(),
        0 <= k < join.len(),
    ensures
        ({
            let views = join_views(join);
            room_passed_on(
                rooms_synced(start, views.take(k)),
                join[k].0@,
                join[k].1.timeline.events@,
                rooms_synced(start, views.take(k + 1)),
            )
        }),
{
    let views = join_views(join);
    lemma_rooms_finite(start, join, k);
    assert(views.take(k + 1).drop_last() =~= views.take(k));
    assert(views.take(k + 1).last() == views[k]);
    lemma_room_passed_on(
        rooms_synced(start, views.take(k)),
        join[k].0@,
        join[k].1.timeline.events@,
    );
}

proof fn lemma_rooms_finite(
    start: BridgeView,
    join: Seq<(String, JoinedRoomSyncResponse)>,
    k: int,
)
    requires
        start.irc.nicks.finite(),
        start.irc.channels.finite(),
        0 <= k <= join.len(),
    ensures
        rooms_synced(start, join_views(join).take(k)).irc.nicks.finite(),
        rooms_synced(start, join_views(join).take(k)).irc.channels.finite(),
    decreases k,
{
    let views = join_views(join);
    if k > 0 {
        lemma_rooms_finite(start, join, k - 1);
        assert(views.take(k).drop_last() =~= views.take(k - 1));
        assert(views.take(k).last() == views[k - 1]);
        lemma_room_passed_on(
            rooms_synced(start, views.take(k - 1)),
            join[k - 1].0@,
            join[k - 1].1.timeline.events@,
        );
    }
}

/// The bridge before each room of an answer, and after the last one.
spec fn answer_steps(c: BridgeView, response: SyncResponse) -> Seq<BridgeView> {
    let join = response.rooms.join@;
    Seq::new(join.len() + 1, |k: int| rooms_synced(greeted(c), join_views(join).take(k)))
}

proof fn lemma_answer_passed_on(c: BridgeView, response: SyncResponse)
    requires
        c.irc.nicks.finite(),
        c.irc.channels.finite(),
    ensures
        answer_passed_on(
            c,
            response,
            answer_steps(c, response),
            response_handled(c, join_views(response.rooms.join@)),
        ),
{
    let join = response.rooms.join@;
    let views = join_views(join);
    let steps = answer_steps(c, response);
    reveal_strlit("HELLO");
    assert("HELLO"@ =~= seq!['H', 'E', 'L', 'L', 'O']);
    assert(views.take(0) =~= Seq::empty());
    assert(views.take(join.len() as int) =~= views);
    assert forall|k: int| 0 <= k < join.len() implies room_passed_on(
        steps[k],
        (#[trigger] join[k]).0@,
        join[k].1.timeline.events@,
        steps[k + 1],
    ) by {
        lemma_rooms_passed_on(greeted(c), join, k);
    }
}

/// Every answer of the homeserver is worked through.
pub proof fn law_answers_are_passed_on(bridge: &mut Bridge, response: SyncResponse)
    requires
        call_ensures(Bridge::handle_sync_response, (bridge, &response), ()),
    ensures
        exists|steps: Seq<BridgeView>|
            answer_passed_on(old(bridge)@, response, steps, final(bridge)@),
{
    law_bridged_names_are_finite(*old(bridge));
    lemma_answer_passed_on(old(bridge)@, response);
}

proof fn lemma_later_rooms_keep(start: BridgeView, join: Seq<JoinView>, k: int)
    requires
        0 <= k <= join.len(),
    ensures
        kept(rooms_synced(start, join.take(k)), rooms_synced(start, join)),
    decreases join.len(),
{
    if k == join.len() {
        assert(join.take(k) =~= join);
        lemma_rooms_kept(rooms_synced(start, join), Seq::empty());
    } else {
        let front = join.drop_last();
        lemma_later_rooms_keep(start, front, k);
        assert(front.take(k) =~= join.take(k));
        let m = rooms_synced(start, front);
        law_room_syncs_keep_bridges_consistent(m, join.last().room_id, join.last().events);
        lemma_kept_transitive(
            rooms_synced(start, join.take(k)),
            m,
            rooms_synced(start, join),
        );
    }
}

/// Rooms are known under their own IDs.
pub open spec fn rooms_have_their_ids(rooms: Map<Seq<char>, Room>) -> bool {
    forall|room_id: Seq<char>| #[trigger]
        rooms.contains_key(room_id) ==> rooms[room_id].room_id@ == room_id
}

proof fn lemma_only_rooms_of_the_answer(
    start: BridgeView,
    join: Seq<JoinView>,
    k: int,
    room_id: Seq<char>,
)
    requires
        0 <= k <= join.len(),
        rooms_have_their_ids(start.client.rooms),
        !start.mappings.room_id_to_channel.contains_key(room_id),
        forall|j: int| 0 <= j < k ==> (#[trigger] join[j]).room_id != room_id,
    ensures
        !rooms_synced(start, join.take(k)).mappings.room_id_to_channel.contains_key(room_id),
        rooms_synced(start, join.take(k)).client == start.client,
    decreases k,
{
    if k > 0 {
        lemma_only_rooms_of_the_answer(start, join, k - 1, room_id);
        assert(join.take(k).drop_last() =~= join.take(k - 1));
        assert(join.take(k).last() == join[k - 1]);
        let m = rooms_synced(start, join.take(k - 1));
        let id = join[k - 1].room_id;
        if m.client.rooms.contains_key(id) {
            law_rooms_have_the_channel_found(m.mappings, m.irc, m.client.rooms[id]@);
        }
    }
}

/// What is said in a room reaches the IRC user: of an answer that was worked through,
/// each text message in a room that is known is told in the channel of that room, under
/// the nick of its sender and in its very words. This holds of senders who had a nick
/// before, and of all members of a room that is new on IRC.
pub proof fn law_text_messages_reach_irc(bridge: &mut Bridge, response: SyncResponse, k: int, i: int)
    requires
        call_ensures(Bridge::handle_sync_response, (bridge, &response), ()),
        0 <= k < response.rooms.join@.len(),
        ({
            let c = old(bridge)@;
            let join = response.rooms.join@;
            let (room_id, events) = (join[k].0@, join[k].1.timeline.events@);
            let room = c.client.rooms[room_id];
            let content = string_members(events[i].content);
            &&& 0 <= i < events.len()
            &&& c.client.rooms.contains_key(room_id)
            &&& events[i].etype@ == "m.room.message"@
            &&& content.contains_key("msgtype"@)
            &&& content["msgtype"@] == "m.text"@
            &&& content.contains_key("body"@)
            &&& c.mappings.matrix_uid_to_nick.contains_key(events[i].sender@) || {
                &&& !c.mappings.room_id_to_channel.contains_key(room.room_id@)
                &&& exists|j: int|
                    0 <= j < room.members@.len() && (#[trigger] room.members@[j]).user_id@
                        == events[i].sender@
                &&& rooms_have_their_ids(c.client.rooms)
                &&& forall|j: int| 0 <= j < k ==> (#[trigger] join[j]).0@ != room_id
            }
        }),
    ensures
        ({
            let (c, d) = (old(bridge)@, final(bridge)@);
            let (id, sync) = response.rooms.join@[k];
            let room = c.client.rooms[id@];
            let event = sync.timeline.events@[i];
            &&& d.mappings.room_id_to_channel.contains_key(room.room_id@)
            &&& d.mappings.matrix_uid_to_nick.contains_key(event.sender@)
            &&& exists|j: int|
                c.irc.outputs.len() <= j < d.irc.outputs.len() && #[trigger] d.irc.outputs[j]
                    == (OutputView::Message {
                    channel: d.mappings.room_id_to_channel[room.room_id@],
                    sender: d.mappings.matrix_uid_to_nick[event.sender@],
                    body: string_members(event.content)["body"@],
                })
        }),
{
    let (c, d) = (old(bridge)@, final(bridge)@);
    let join = response.rooms.join@;
    let views = join_views(join);
    let start = greeted(c);
    let (room_id, events) = (join[k].0@, join[k].1.timeline.events@);
    let event = events[i];
    let room = c.client.rooms[room_id];
    let before = rooms_synced(start, views.take(k));
    let after = rooms_synced(start, views.take(k + 1));
    lemma_rooms_kept(start, views.take(k));
    assert(views.take(k + 1).drop_last() =~= views.take(k));
    assert(views.take(k + 1).last() == views[k]);
    assert(views[k].events == event_views(events));
    law_room_syncs_keep_bridges_consistent(before, room_id, event_views(events));
    lemma_later_rooms_keep(start, views, k + 1);
    let entered = room_entered(before, room_id);
    law_rooms_have_the_channel_found(before.mappings, before.irc, room@);
    let channel = channel_for(before.mappings, before.irc, room@);
    if c.mappings.matrix_uid_to_nick.contains_key(event.sender@) {
        assert(start.mappings.matrix_uid_to_nick.dom().contains(event.sender@));
        assert(before.mappings.matrix_uid_to_nick.dom().contains(event.sender@));
        assert(after.mappings.matrix_uid_to_nick.dom().contains(event.sender@));
    } else {
        assert forall|j: int| 0 <= j < k implies (#[trigger] views[j]).room_id != room_id by {
            assert(join[j].0@ != room_id);
        }
        lemma_only_rooms_of_the_answer(start, views, k, room_id);
        law_members_of_new_rooms_have_nicks(before.mappings, before.irc, room@);
        let j = choose|j: int|
            0 <= j < room.members@.len() && (#[trigger] room.members@[j]).user_id@ == event.sender@;
        assert(room@.members[j].user_id == event.sender@);
    }
    lemma_text_is_no_file();
    assert(is_told(after.mappings, event));
    let told = lemma_all_told(
        after.mappings,
        c.client.url,
        channel,
        events,
        entered.irc.outputs,
    );
    assert(after.irc.outputs == entered.irc.outputs + all_passed(
        after.mappings,
        c.client.url,
        channel,
        event_views(events),
    ));
    assert(told.contains(i));
    let at = choose|at: int| 0 <= at < told.len() && told[at] == i;
    let j = entered.irc.outputs.len() + at;
    lemma_passed(after.mappings, c.client.url, channel, event);
    assert(tells(after.mappings, c.client.url, channel, events[told[at]], after.irc.outputs[j]));
    lemma_room_entered_keeps(before, room_id);
    assert(d.irc.outputs.subrange(0, after.irc.outputs.len() as int)[j] == after.irc.outputs[j]);
    assert(after.mappings.room_id_to_channel.dom().contains(room.room_id@));
    assert(after.mappings.matrix_uid_to_nick.dom().contains(event.sender@));
    assert(d.irc.outputs[j] == after.irc.outputs[j]);
    assert(start.irc.outputs.len() <= before.irc.outputs.len());
    assert(c.irc.outputs.len() <= j);
    lemma_kept_names(after, rooms_synced(start, views), room.room_id@, event.sender@);
    assert(d.mappings.room_id_to_channel[room.room_id@] == channel);
    assert(d.mappings.matrix_uid_to_nick[event.sender@]
        == after.mappings.matrix_uid_to_nick[event.sender@]);
    assert(d.irc.outputs[j] == (OutputView::Message {
        channel,
        sender: after.mappings.matrix_uid_to_nick[event.sender@],
        body: string_members(event.content)["body"@],
    }));
}

proof fn lemma_kept_names(b: BridgeView, d: BridgeView, room_id: Seq<char>, user_id: Seq<char>)
    requires
        kept(b, d),
        b.mappings.room_id_to_channel.contains_key(room_id),
        b.mappings.matrix_uid_to_nick.contains_key(user_id),
    ensures
        d.mappings.room_id_to_channel.contains_key(room_id),
        d.mappings.room_id_to_channel[room_id] == b.mappings.room_id_to_channel[room_id],
        d.mappings.matrix_uid_to_nick.contains_key(user_id),
        d.mappings.matrix_uid_to_nick[user_id] == b.mappings.matrix_uid_to_nick[user_id],
{
    assert(b.mappings.room_id_to_channel.dom().contains(room_id));
    assert(b.mappings.matrix_uid_to_nick.dom().contains(user_id));
}

proof fn lemma_text_is_no_file()
    ensures
        "m.text"@ != "m.emote"@,
        !shares_a_file("m.text"@),
{
    reveal_strlit("m.text");
    reveal_strlit("m.emote");
    reveal_strlit("m.image");
    reveal_strlit("m.file");
    reveal_strlit("m.video");
    reveal_strlit("m.audio");
    assert("m.text"@.len() == 6 && "m.emote"@.len() == 7 && "m.image"@.len() == 7);
    assert("m.video"@.len() == 7 && "m.audio"@.len() == 7);
    assert("m.file"@[2] == 'f' && "m.text"@[2] == 't');
}

proof fn lemma_room_entered_keeps(b: BridgeView, room_id: Seq<char>)
    ensures
        b.client.rooms.contains_key(room_id) ==> b.irc.outputs.len() <= room_entered(
            b,
            room_id,
        ).irc.outputs.len(),
{
    law_room_syncs_keep_bridges_consistent(b, room_id, Seq::empty());
}

/// What a command of the IRC user comes to: a message to a channel that has a room asks
/// to send its very text to that room; a join asks to join what was named; nothing comes
/// of a message to any other channel, nor of any other command.
pub open spec fn command_passed_on(b: BridgeView, line: IrcCommand, action: IrcCmdAction) -> bool {
    match line {
        IrcCommand::PrivMsg { channel, text } => {
            &&& b.mappings.channel_to_room_id.contains_key(channel@) ==> {
                &&& action is SendMessage
                &&& exists|number: u16| #[trigger]
                    asks_to_send(
                        action->SendMessage_0,
                        b.mappings.channel_to_room_id[channel@],
                        text@,
                        number as nat,
                    )
            }
            &&& !b.mappings.channel_to_room_id.contains_key(channel@) ==> action is Ignore
        },
        IrcCommand::Join { channel } => {
            &&& action is JoinRoom
            &&& action->channel@ == channel@
            &&& action->request.room_id@ == channel@
            &&& action->request.third_party_signed is None
        },
        IrcCommand::Other { .. } => action is Ignore,
    }
}

proof fn lemma_command_passed_on(b: BridgeView, line: IrcCommand, action: IrcCmdAction)
    requires
        crate::bridge::command_handled(b, line, action),
    ensures
        command_passed_on(b, line, action),
{
    if let IrcCommand::PrivMsg { channel, text } = line {
        if b.mappings.channel_to_room_id.contains_key(channel@) {
            let room_id = b.mappings.channel_to_room_id[channel@];
            let request = action->SendMessage_0;
            let number = choose|number: u16|
                request@ == #[trigger] crate::matrix::text_message_request(
                    room_id,
                    text@,
                    number as nat,
                );
            lemma_asks_to_send(request, room_id, text@, number as nat);
        }
    }
}

/// What the IRC user says reaches the room behind the channel, in the very words, and
/// what the user asks to join is asked for.
pub proof fn law_commands_are_passed_on(bridge: Bridge, line: IrcCommand, action: IrcCmdAction)
    requires
        call_ensures(Bridge::handle_irc_cmd, (&bridge, line), action),
    ensures
        command_passed_on(bridge@, line, action),
{
    lemma_command_passed_on(bridge@, line, action);
}

/// The same comes of a command that may ask for a channel which no room can have, but
/// that nothing comes of such a one.
pub proof fn law_commands_are_tried(
    bridge: Bridge,
    line: IrcCommand,
    action: Option<IrcCmdAction>,
)
    requires
        call_ensures(Bridge::try_handle_irc_cmd, (&bridge, line), action),
    ensures
        action is None <==> line is Join && !is_room_id_or_alias(line->Join_channel@),
        action is Some ==> command_passed_on(bridge@, line, action->0),
{
    if let Some(action) = action {
        lemma_command_passed_on(bridge@, line, action);
    }
}

/// What the answer to a join comes to: where the room has a channel, the user is told of
/// it if it is another one than was asked for; where it has none yet, it is waited for
/// under the channel that was asked for; and a join that failed comes to nothing.
pub proof fn law_joins_are_finished(bridge: &mut Bridge, channel: String, joined: Option<String>)
    requires
        call_ensures(Bridge::finish_join, (bridge, channel, joined), ()),
    ensures
        ({
            let (c, d) = (old(bridge)@, final(bridge)@);
            &&& joined is None ==> d == c
            &&& joined is Some ==> {
                let room_id = joined->0@;
                let mapped = c.mappings.room_id_to_channel[room_id];
                if !c.mappings.room_id_to_channel.contains_key(room_id) {
                    &&& d.joining == c.joining.insert(room_id, channel@)
                    &&& d == BridgeView { joining: d.joining, ..c }
                } else if mapped == channel@ {
                    d == c
                } else {
                    &&& d.irc.outputs == c.irc.outputs.push(
                        OutputView::RedirectJoin { from: channel@, to: mapped },
                    )
                    &&& d.irc == UserView { outputs: d.irc.outputs, ..c.irc }
                    &&& d == BridgeView { irc: d.irc, ..c }
                }
            }
        }),
{
}

/// A bridge is set up with the name and the password of the IRC user, or not at all if
/// the IRC user or the homeserver did not come in. The user's own nick and Matrix ID are
/// mapped onto each other, and the user appears; nothing else is mapped, nothing is
/// waited for, and no answer was worked through yet.
pub proof fn law_bridges_are_set_up<M>(
    irc_login: Result<IrcUserConnection, std::io::Error>,
    begun: Result<(IrcUserConnection, LoginRequest), CreateError<M>>,
    irc_conn: IrcUserConnection,
    matrix_login: Result<MatrixClient, M>,
    r: Result<Bridge, CreateError<M>>,
)
    requires
        call_ensures(Bridge::begin_create::<M>, (irc_login,), begun),
        call_ensures(Bridge::create::<M>, (irc_conn, matrix_login), r),
    ensures
        irc_login is Ok ==> {
            &&& begun is Ok
            &&& begun->Ok_0.0 == irc_login->Ok_0
            &&& begun->Ok_0.1.user@ == irc_login->Ok_0@.user
            &&& begun->Ok_0.1.password@ == irc_login->Ok_0@.password
            &&& begun->Ok_0.1.device_id is None
            &&& begun->Ok_0.1.initial_device_display_name is Some
            &&& begun->Ok_0.1.initial_device_display_name->0@ == "matrix-ircd"@
        },
        irc_login is Err ==> begun is Err && begun->Err_0 is Io && begun->Err_0->Io_0
            == irc_login->Err_0,
        matrix_login is Err ==> r is Err && r->Err_0 is MatrixError && r->Err_0->MatrixError_0
            == matrix_login->Err_0,
        matrix_login is Ok ==> r is Ok && ({
            let (b, irc, client) = (r->Ok_0@, irc_conn@, matrix_login->Ok_0@);
            &&& b.client == client
            &&& b.is_first_sync
            &&& !b.closed
            &&& b.joining == Map::<Seq<char>, Seq<char>>::empty()
            &&& b.mappings.matrix_uid_to_nick == map![client.user_id => irc.nick]
            &&& b.mappings.nick_matrix_uid == map![irc.nick => client.user_id]
            &&& b.mappings.room_id_to_channel == Map::<Seq<char>, Seq<char>>::empty()
            &&& b.mappings.channel_to_room_id == Map::<Seq<char>, Seq<char>>::empty()
            &&& b.irc.outputs == irc.outputs.push(
                OutputView::CreateUser { nick: irc.nick, user_id: client.user_id },
            )
            &&& b.irc.nicks == irc.nicks.insert(irc.nick)
            &&& b.irc == UserView { outputs: b.irc.outputs, nicks: b.irc.nicks, ..irc }
        }),
{
}

/// Polling goes on until it fails or the IRC user has left.
pub proof fn law_polling_goes_on<E>(bridge: Bridge, polled: Result<(), E>, again: bool)
    requires
        call_ensures(Bridge::run::<E>, (&bridge, &polled), again),
    ensures
        polled is Err ==> !again,
        bridge@.closed ==> !again,
        polled is Ok && !bridge@.closed ==> again,
{
}

/// What each step of polling the IRC user comes to. Before the first answer of the
/// homeserver nobody is polled; each command is handled, and then the next one is asked
/// for; when there is none yet it is over for now, and when the user has left the bridge
/// is closed. Nothing else changes.
pub proof fn law_steps_of_polling_irc<E>(
    bridge: &mut Bridge,
    event: PollIrcEvent<E>,
    action: PollIrcAction<E>,
)
    requires
        call_ensures(Bridge::poll_irc::<E>, (bridge, event), action),
    ensures
        ({
            let (c, d) = (old(bridge)@, final(bridge)@);
            &&& d == BridgeView { closed: d.closed, ..c }
            &&& d.closed <==> c.closed || (event is Polled && event->Polled_0 is Ok
                && event->Polled_0->Ok_0 is Ready && event->Polled_0->Ok_0->Ready_0 is None)
            &&& match event {
                PollIrcEvent::Start => {
                    &&& c.is_first_sync ==> action == PollIrcAction::<E>::Return(Ok(()))
                    &&& !c.is_first_sync ==> action is Poll
                },
                PollIrcEvent::Handled => action is Poll,
                PollIrcEvent::Polled(Err(e)) => action == PollIrcAction::Return(Err(e)),
                PollIrcEvent::Polled(Ok(Polled::Ready(Some(line)))) => action
                    == PollIrcAction::<E>::Handle(line),
                PollIrcEvent::Polled(Ok(_)) => action == PollIrcAction::<E>::Return(Ok(())),
            }
        }),
{
}

/// What a step of polling the homeserver comes to, from `c` to `d`: an answer is worked
/// through and counted, and polling goes on up to thirty of them; it is over with the
/// session, or with its error.
pub open spec fn goes_on_polling<E>(
    c: BridgeView,
    handled: int,
    event: PollMatrixEvent<E>,
    d: BridgeView,
    count: int,
    action: PollMatrixAction<E>,
) -> bool {
    match event {
        PollMatrixEvent::Start => d == c && count == 0 && action is Next,
        PollMatrixEvent::Next(None) => {
            d == c && count == handled && action == PollMatrixAction::<E>::Return(Ok(()))
        },
        PollMatrixEvent::Next(Some(Err(e))) => {
            d == c && count == handled && action == PollMatrixAction::Return(Err(e))
        },
        PollMatrixEvent::Next(Some(Ok(response))) => {
            &&& exists|steps: Seq<BridgeView>| answer_passed_on(c, response, steps, d)
            &&& count == handled + 1
            &&& count <= 30 ==> action is Next
            &&& count > 30 ==> action == PollMatrixAction::<E>::Return(Ok(()))
        },
    }
}

/// What each step of polling the homeserver comes to.
pub proof fn law_steps_of_polling_matrix<E>(
    bridge: &mut Bridge,
    handled: u32,
    event: PollMatrixEvent<E>,
    r: (u32, PollMatrixAction<E>),
)
    requires
        call_ensures(Bridge::poll_matrix::<E>, (bridge, handled, event), r),
    ensures
        goes_on_polling(
            old(bridge)@,
            handled as int,
            event,
            final(bridge)@,
            r.0 as int,
            r.1,
        ),
{
    law_bridged_names_are_finite(*old(bridge));
    if let PollMatrixEvent::Next(Some(Ok(response))) = event {
        lemma_answer_passed_on(old(bridge)@, response);
    }
}

/// The same comes of a step whose answer may hold links that lead nowhere, but that
/// nothing comes of such an answer.
pub proof fn law_steps_of_polling_matrix_are_tried<E>(
    bridge: &mut Bridge,
    handled: u32,
    event: PollMatrixEvent<E>,
    r: Option<(u32, PollMatrixAction<E>)>,
)
    requires
        call_ensures(Bridge::try_poll_matrix::<E>, (bridge, handled, event), r),
    ensures
        r matches Some(step) ==> goes_on_polling(
            old(bridge)@,
            handled as int,
            event,
            final(bridge)@,
            step.0 as int,
            step.1,
        ),
        r is None ==> final(bridge)@ == old(bridge)@,
        match event {
            PollMatrixEvent::Next(Some(Ok(response))) => exists|
                steps: Seq<BridgeView>,
                d: BridgeView,
            | #[trigger]
                answer_passed_on(old(bridge)@, response, steps, d) && (r is Some
                    <==> all_lead_somewhere(old(bridge)@, response, steps)),
            _ => r is Some,
        },
{
    law_bridged_names_are_finite(*old(bridge));
    if let PollMatrixEvent::Next(Some(Ok(response))) = event {
        lemma_answer_passed_on(old(bridge)@, response);
        lemma_all_lead_somewhere(old(bridge)@, response);
    }
}

/// The links of all events that are told when an answer is worked through by these steps
/// lead somewhere.
pub open spec fn all_lead_somewhere(
    c: BridgeView,
    response: SyncResponse,
    steps: Seq<BridgeView>,
) -> bool {
    forall|k: int, i: int|
        0 <= k < response.rooms.join@.len() && c.client.rooms.contains_key(
            response.rooms.join@[k].0@,
        ) && 0 <= i < response.rooms.join@[k].1.timeline.events@.len() ==> {
            let event = #[trigger] response.rooms.join@[k].1.timeline.events@[i];
            let content = string_members(event.content);
            is_told(steps[k + 1].mappings, event) && shares_a_file(content["msgtype"@])
                ==> !leads_to(c.client.url, content["url"@], None)
        }
}

proof fn lemma_stuck(m: MappingsView, homeserver: Seq<char>, event: Event)
    ensures
        ({
            let content = string_members(event.content);
            is_stuck(m, homeserver, event@) <==> is_told(m, event) && shares_a_file(
                content["msgtype"@],
            ) && leads_to(homeserver, content["url"@], None)
        }),
{
    lemma_passed(m, homeserver, Seq::empty(), event);
    lemma_media_links_are_one(homeserver, string_members(event.content)["url"@]);
    reveal_strlit("m.text");
    reveal_strlit("m.emote");
    reveal_strlit("m.image");
    reveal_strlit("m.file");
    reveal_strlit("m.video");
    reveal_strlit("m.audio");
    assert("m.text"@.len() == 6 && "m.emote"@.len() == 7 && "m.image"@.len() == 7);
    assert("m.file"@[2] == 'f' && "m.text"@[2] == 't');
    assert("m.emote"@[2] == 'e' && "m.image"@[2] == 'i' && "m.video"@[2] == 'v');
    assert("m.audio"@[2] == 'a');
}

/// The links in one of some rooms lead somewhere.
#[verifier::opaque]
spec fn resolves_at(start: BridgeView, join: Seq<JoinView>, k: int) -> bool {
    room_resolves(rooms_synced(start, join.take(k)), join[k].room_id, join[k].events)
}

proof fn lemma_rooms_resolve(start: BridgeView, join: Seq<JoinView>, n: int)
    requires
        0 <= n <= join.len(),
    ensures
        rooms_resolve(start, join.take(n)) <==> forall|k: int|
            0 <= k < n ==> #[trigger] resolves_at(start, join, k),
    decreases n,
{
    if n > 0 {
        lemma_rooms_resolve(start, join, n - 1);
        assert(join.take(n).drop_last() =~= join.take(n - 1));
        assert(join.take(n).last() == join[n - 1]);
        assert(rooms_resolve(start, join.take(n)) <==> rooms_resolve(start, join.take(n - 1))
            && resolves_at(start, join, n - 1)) by {
            reveal(resolves_at);
        }
    }
}

proof fn lemma_all_lead_somewhere(c: BridgeView, response: SyncResponse)
    ensures
        crate::bridge::response_resolves(c, join_views(response.rooms.join@))
            <==> all_lead_somewhere(c, response, answer_steps(c, response)),
{
    let join = response.rooms.join@;
    let views = join_views(join);
    let start = greeted(c);
    let steps = answer_steps(c, response);
    lemma_rooms_resolve(start, views, join.len() as int);
    assert(views.take(join.len() as int) =~= views);
    assert forall|k: int| 0 <= k < join.len() implies steps[k].client == c.client && (
    c.client.rooms.contains_key(join[k].0@) ==> (#[trigger] steps[k + 1]).mappings
        == room_entered(steps[k], join[k].0@).mappings) by {
        lemma_rooms_kept(start, views.take(k));
        assert(views.take(k + 1).drop_last() =~= views.take(k));
        assert(views.take(k + 1).last() == views[k]);
    }
    assert forall|k: int, i: int|
        0 <= k < join.len() && 0 <= i < join[k].1.timeline.events@.len() implies is_stuck(
        steps[k + 1].mappings,
        c.client.url,
        (#[trigger] join[k].1.timeline.events@[i])@,
    ) <==> {
        let event = join[k].1.timeline.events@[i];
        let content = string_members(event.content);
        is_told(steps[k + 1].mappings, event) && shares_a_file(content["msgtype"@]) && leads_to(
            c.client.url,
            content["url"@],
            None,
        )
    } by {
        lemma_stuck(steps[k + 1].mappings, c.client.url, join[k].1.timeline.events@[i]);
    }
    if all_lead_somewhere(c, response, steps) {
        assert forall|k: int| 0 <= k < join.len() implies #[trigger] resolves_at(
            start,
            views,
            k,
        ) by {
            reveal(resolves_at);
            assert(steps[k + 1].mappings == steps[k + 1].mappings);
            if c.client.rooms.contains_key(join[k].0@) {
                assert forall|i: int| 0 <= i < views[k].events.len() implies !is_stuck(
                    steps[k + 1].mappings,
                    c.client.url,
                    #[trigger] views[k].events[i],
                ) by {
                    let event = join[k].1.timeline.events@[i];
                    assert(views[k].events[i] == event@);
                }
            }
        }
    }
    if rooms_resolve(start, views) {
        assert forall|k: int, i: int|
            0 <= k < join.len() && c.client.rooms.contains_key(join[k].0@) && 0 <= i
                < join[k].1.timeline.events@.len() implies {
            let event = #[trigger] join[k].1.timeline.events@[i];
            let content = string_members(event.content);
            is_told(steps[k + 1].mappings, event) && shares_a_file(content["msgtype"@])
                ==> !leads_to(c.client.url, content["url"@], None)
        } by {
            reveal(resolves_at);
            assert(resolves_at(start, views, k));
            assert(steps[k + 1].mappings == steps[k + 1].mappings);
            assert(views[k].events[i] == join[k].1.timeline.events@[i]@);
        }
    }
}

/// It is foreseen whether all links lead somewhere that would be told if the answer were
/// worked through.
pub proof fn law_links_are_foreseen(bridge: Bridge, response: SyncResponse, r: bool)
    requires
        call_ensures(Bridge::links_lead_somewhere, (&bridge, &response), r),
    ensures
        exists|steps: Seq<BridgeView>, d: BridgeView| #[trigger]
            answer_passed_on(bridge@, response, steps, d) && (r <==> all_lead_somewhere(
                bridge@,
                response,
                steps,
            )),
{
    law_bridged_names_are_finite(bridge);
    lemma_answer_passed_on(bridge@, response);
    lemma_all_lead_somewhere(bridge@, response);
}

/// What is done to either side of a bridge is done to that side alone.
pub proof fn law_sides_are_reached(
    bridge: &mut Bridge,
    irc: &mut IrcUserConnection,
    other: &mut Bridge,
    client: &mut MatrixClient,
)
    requires
        call_ensures(Bridge::irc_conn, (bridge,), irc),
        call_ensures(Bridge::matrix_client, (other,), client),
    ensures
        old(irc)@ == old(bridge)@.irc,
        final(bridge)@ == (BridgeView { irc: final(irc)@, ..old(bridge)@ }),
        old(client)@ == old(other)@.client,
        final(other)@ == (BridgeView { client: final(client)@, ..old(other)@ }),
{
}

} // verus!
