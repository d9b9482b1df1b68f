//! The part that maps IRC and Matrix onto each other.
//!
//! A [`Bridge`] decides; what it decides to ask of the IRC client or of the
//! homeserver is handed out, and the answers are taken in.

pub mod laws;
pub mod mappings;
pub mod message_laws;
pub mod name_laws;

use crate::bridge::laws::{consistent, law_new_bridges_are_consistent};
use crate::bridge::mappings::{channel_for, with_members, with_room, MappingStore, MappingsView};
use crate::irc::protocol::IrcCommand;
use crate::irc::user::{law_names_in_use_are_finite, IrcUserConnection, OutputView, UserView};
use crate::matrix::identifiers::{is_room_id_or_alias, room_id_or_alias};
use crate::matrix::json::string_member;
use crate::matrix::media::media_link;
use crate::matrix::models::{member_views, optional_text, Member, MemberView, RoomView};
use crate::matrix::protocol::{
    event_views, join_views, Event, EventView, JoinView, JoinedRoomSyncResponse, SyncResponse,
};
use crate::matrix::{
    text_message_request, ClientView, JoinRequest, LoginRequest, MatrixClient, MessageRequest,
};
use crate::poll::Polled;
use crate::table::{lemma_texts_insert, lemma_texts_remove, texts, NameSet, Table};
use crate::text::same_text;
use vstd::prelude::*;

verus! {

/// Why a bridge could not be set up.
pub enum CreateError<M> {
    /// The IRC side failed.
    Io(std::io::Error),
    /// The Matrix side failed.
    MatrixError(M),
}

/// What a message in a room says.
#[derive(Debug)]
pub enum Message {
    /// Nothing that can be passed on.
    Nothing,
    /// The sender says something.
    Text(String),
    /// The sender does something.
    Emote(String),
    /// The sender shares a file, found under a link.
    Media(String),
}

/// What a message says, as contracts see it.
pub ghost enum MessageView {
    Nothing,
    Text(Seq<char>),
    Emote(Seq<char>),
    Media(Seq<char>),
}

impl View for Message {
    type V = MessageView;

    open spec fn view(&self) -> MessageView {
        match *self {
            Message::Nothing => MessageView::Nothing,
            Message::Text(body) => MessageView::Text(body@),
            Message::Emote(body) => MessageView::Emote(body@),
            Message::Media(url) => MessageView::Media(url@),
        }
    }
}

/// The types of message that share a file.
pub open spec fn is_media_type(msgtype: Seq<char>) -> bool {
    ||| msgtype == "m.image"@
    ||| msgtype == "m.file"@
    ||| msgtype == "m.video"@
    ||| msgtype == "m.audio"@
}

/// What a message with this content says. Without a body or a type it says
/// nothing, nor does a file without a link; a message of a type that is not
/// known is text.
pub open spec fn message_of(
    body: Option<Seq<char>>,
    msgtype: Option<Seq<char>>,
    url: Option<Seq<char>>,
) -> MessageView {
    match (body, msgtype) {
        (Some(body), Some(msgtype)) => if msgtype == "m.text"@ {
            MessageView::Text(body)
        } else if msgtype == "m.emote"@ {
            MessageView::Emote(body)
        } else if is_media_type(msgtype) {
            match url {
                Some(url) => MessageView::Media(url),
                None => MessageView::Nothing,
            }
        } else {
            MessageView::Text(body)
        },
        _ => MessageView::Nothing,
    }
}

/// Tells what a message with this content says.
pub fn read_message(body: Option<String>, msgtype: Option<String>, url: Option<String>) -> (r:
    Message)
    ensures
        r@ == message_of(optional_text(body), optional_text(msgtype), optional_text(url)),
{
    let body: String = match body {
        Some(body) => body,
        None => return Message::Nothing,
    };
    let msgtype: String = match msgtype {
        Some(msgtype) => msgtype,
        None => return Message::Nothing,
    };
    let t: &str = msgtype.as_str();
    if same_text(t, "m.text") {
        Message::Text(body)
    } else if same_text(t, "m.emote") {
        Message::Emote(body)
    } else if same_text(t, "m.image") || same_text(t, "m.file") || same_text(t, "m.video")
        || same_text(t, "m.audio") {
        match url {
            Some(url) => Message::Media(url),
            None => Message::Nothing,
        }
    } else {
        Message::Text(body)
    }
}

/// A member of an event's content that is a string.
pub open spec fn content_text(event: EventView, key: Seq<char>) -> Option<Seq<char>> {
    if event.content.contains_key(key) {
        Some(event.content[key])
    } else {
        None
    }
}

/// What an event says as a message.
pub open spec fn event_message(event: EventView) -> MessageView {
    message_of(
        content_text(event, "body"@),
        content_text(event, "msgtype"@),
        content_text(event, "url"@),
    )
}

/// What the IRC user is told of an event in the channel of its room: only messages
/// of users who have a nick are passed on.
pub open spec fn passed(
    m: MappingsView,
    homeserver: Seq<char>,
    channel: Seq<char>,
    event: EventView,
) -> Option<OutputView> {
    if event.etype != "m.room.message"@ || !m.matrix_uid_to_nick.contains_key(event.sender) {
        None
    } else {
        let sender = m.matrix_uid_to_nick[event.sender];
        match event_message(event) {
            MessageView::Nothing => None,
            MessageView::Text(body) => Some(OutputView::Message { channel, sender, body }),
            MessageView::Emote(body) => Some(OutputView::Action { channel, sender, body }),
            MessageView::Media(url) => Some(
                OutputView::Message { channel, sender, body: media_link(homeserver, url)->0 },
            ),
        }
    }
}

/// The event is to be passed on, but the link in it leads nowhere.
pub open spec fn is_stuck(m: MappingsView, homeserver: Seq<char>, event: EventView) -> bool {
    &&& event.etype == "m.room.message"@
    &&& m.matrix_uid_to_nick.contains_key(event.sender)
    &&& match event_message(event) {
        MessageView::Media(url) => media_link(homeserver, url) is None,
        _ => false,
    }
}

/// What the IRC user is told of some events.
pub open spec fn all_passed(
    m: MappingsView,
    homeserver: Seq<char>,
    channel: Seq<char>,
    events: Seq<EventView>,
) -> Seq<OutputView>
    decreases events.len(),
{
    if events.len() == 0 {
        Seq::empty()
    } else {
        let outputs = all_passed(m, homeserver, channel, events.drop_last());
        match passed(m, homeserver, channel, events.last()) {
            Some(output) => outputs.push(output),
            None => outputs,
        }
    }
}

/// A bridge, as contracts see it.
#[verifier::ext_equal]
pub ghost struct BridgeView {
    /// The IRC side.
    pub irc: UserView,
    /// The Matrix side.
    pub client: ClientView,
    /// The IRC user has left.
    pub closed: bool,
    /// The names that are mapped onto each other.
    pub mappings: MappingsView,
    /// No answer of the homeserver was worked through yet.
    pub is_first_sync: bool,
    /// The rooms that were joined and are yet to show up, with the channels under
    /// which they were asked for.
    pub joining: Map<Seq<char>, Seq<char>>,
}

/// A bridge that was just set up: the user's own nick and Matrix ID are mapped
/// onto each other.
pub open spec fn new_bridge(irc: UserView, client: ClientView) -> BridgeView {
    BridgeView {
        irc: irc.with_user(irc.nick, client.user_id),
        client,
        closed: false,
        mappings: MappingsView::empty().with_nick(irc.nick, client.user_id),
        is_first_sync: true,
        joining: Map::empty(),
    }
}

/// The bridge once the homeserver has answered a join of a channel.
pub open spec fn join_answered(
    b: BridgeView,
    channel: Seq<char>,
    joined: Option<Seq<char>>,
) -> BridgeView {
    match joined {
        None => b,
        Some(room_id) => if b.mappings.room_id_to_channel.contains_key(room_id) {
            let mapped = b.mappings.room_id_to_channel[room_id];
            if mapped == channel {
                b
            } else {
                BridgeView {
                    irc: b.irc.with_output(OutputView::RedirectJoin { from: channel, to: mapped }),
                    ..b
                }
            }
        } else {
            BridgeView { joining: b.joining.insert(room_id, channel), ..b }
        },
    }
}

/// The bridge once a room that is known has a channel, and whoever asked for the
/// room under another channel was told so.
pub open spec fn room_entered(b: BridgeView, room_id: Seq<char>) -> BridgeView {
    let room = b.client.rooms[room_id]@;
    let channel = channel_for(b.mappings, b.irc, room);
    let (mappings, irc) = with_room(b.mappings, b.irc, room);
    BridgeView {
        mappings,
        irc: if b.joining.contains_key(room_id) && b.joining[room_id] != channel {
            irc.with_output(OutputView::RedirectJoin { from: b.joining[room_id], to: channel })
        } else {
            irc
        },
        joining: b.joining.remove(room_id),
        ..b
    }
}

/// The bridge once what is new in a room was passed on. A room that is not known is
/// passed over.
pub open spec fn room_synced(
    b: BridgeView,
    room_id: Seq<char>,
    events: Seq<EventView>,
) -> BridgeView {
    if !b.client.rooms.contains_key(room_id) {
        b
    } else {
        let channel = channel_for(b.mappings, b.irc, b.client.rooms[room_id]@);
        let entered = room_entered(b, room_id);
        let outputs = all_passed(entered.mappings, b.client.url, channel, events);
        BridgeView {
            irc: UserView { outputs: entered.irc.outputs + outputs, ..entered.irc },
            ..entered
        }
    }
}

/// The links in what is new in a room all lead somewhere, as far as they are looked
/// at.
pub open spec fn room_resolves(b: BridgeView, room_id: Seq<char>, events: Seq<EventView>) -> bool {
    b.client.rooms.contains_key(room_id) ==> forall|i: int|
        0 <= i < events.len() ==> !is_stuck(
            room_entered(b, room_id).mappings,
            b.client.url,
            #[trigger] events[i],
        )
}

/// The bridge once what is new in some rooms was passed on.
pub open spec fn rooms_synced(b: BridgeView, join: Seq<JoinView>) -> BridgeView
    decreases join.len(),
{
    if join.len() == 0 {
        b
    } else {
        room_synced(rooms_synced(b, join.drop_last()), join.last().room_id, join.last().events)
    }
}

/// The links in what is new in some rooms all lead somewhere, as far as they are
/// looked at.
pub open spec fn rooms_resolve(b: BridgeView, join: Seq<JoinView>) -> bool
    decreases join.len(),
{
    join.len() > 0 ==> {
        &&& rooms_resolve(b, join.drop_last())
        &&& room_resolves(
            rooms_synced(b, join.drop_last()),
            join.last().room_id,
            join.last().events,
        )
    }
}

/// The bridge with the user greeted, when that is still to be done.
pub open spec fn greeted(b: BridgeView) -> BridgeView {
    if b.is_first_sync {
        BridgeView {
            irc: b.irc.with_output(OutputView::Welcome).with_output(
                OutputView::Ping { data: "HELLO"@ },
            ),
            ..b
        }
    } else {
        b
    }
}

/// The bridge once an answer of the homeserver was worked through.
pub open spec fn response_handled(b: BridgeView, join: Seq<JoinView>) -> BridgeView {
    BridgeView { is_first_sync: false, ..rooms_synced(greeted(b), join) }
}

/// The links in an answer of the homeserver all lead somewhere, as far as they are
/// looked at.
pub open spec fn response_resolves(b: BridgeView, join: Seq<JoinView>) -> bool {
    rooms_resolve(greeted(b), join)
}

/// What to do about a command from the IRC client.
pub enum IrcCmdAction {
    /// Send a message.
    SendMessage(MessageRequest),
    /// Join a room, and then say what came of it.
    JoinRoom { channel: String, request: JoinRequest },
    /// Nothing.
    Ignore,
}

/// What is to be done about a command from the IRC client: a message to a channel
/// goes to its room, a join is passed on, and anything else is ignored.
pub open spec fn command_handled(b: BridgeView, line: IrcCommand, action: IrcCmdAction) -> bool {
    match line {
        IrcCommand::PrivMsg { channel, text } => if b.mappings.channel_to_room_id.contains_key(
            channel@,
        ) {
            match action {
                IrcCmdAction::SendMessage(request) => exists|number: u16|
                    request@ == #[trigger] text_message_request(
                        b.mappings.channel_to_room_id[channel@],
                        text@,
                        number as nat,
                    ),
                _ => false,
            }
        } else {
            action == IrcCmdAction::Ignore
        },
        IrcCommand::Join { channel } => match action {
            IrcCmdAction::JoinRoom { channel: asked, request } => {
                &&& asked@ == channel@
                &&& request.room_id@ == channel@
                &&& request.third_party_signed is None
            },
            _ => false,
        },
        IrcCommand::Other { command } => action == IrcCmdAction::Ignore,
    }
}

/// A command that asks for a channel which no room can have.
pub open spec fn is_bad_join(line: IrcCommand) -> bool {
    match line {
        IrcCommand::Join { channel } => !is_room_id_or_alias(channel@),
        _ => false,
    }
}

/// What the last step of polling the IRC client came to.
pub enum PollIrcEvent<E> {
    /// No step was taken yet.
    Start,
    /// The connection was polled for the next command.
    Polled(Result<Polled<Option<IrcCommand>>, E>),
    /// The command was handled.
    Handled,
}

/// The next step of polling the IRC client.
pub enum PollIrcAction<E> {
    /// Poll the connection for the next command.
    Poll,
    /// Handle a command.
    Handle(IrcCommand),
    /// Stop, with this result.
    Return(Result<(), E>),
}

/// One step of polling the IRC client. Nothing is polled before the first answer
/// of the homeserver was worked through.
pub open spec fn poll_irc_step<E>(b: BridgeView, event: PollIrcEvent<E>) -> (
    BridgeView,
    PollIrcAction<E>,
) {
    match event {
        PollIrcEvent::Start => if b.is_first_sync {
            (b, PollIrcAction::Return(Ok(())))
        } else {
            (b, PollIrcAction::Poll)
        },
        PollIrcEvent::Polled(Err(e)) => (b, PollIrcAction::Return(Err(e))),
        PollIrcEvent::Polled(Ok(Polled::Pending)) => (b, PollIrcAction::Return(Ok(()))),
        PollIrcEvent::Polled(Ok(Polled::Ready(Some(line)))) => (b, PollIrcAction::Handle(line)),
        PollIrcEvent::Polled(Ok(Polled::Ready(None))) => {
            (BridgeView { closed: true, ..b }, PollIrcAction::Return(Ok(())))
        },
        PollIrcEvent::Handled => (b, PollIrcAction::Poll),
    }
}

/// A poll of the homeserver ends once it has worked through more answers than this.
pub const ANSWERS_PER_POLL: u32 = 30;

/// What the last step of polling the homeserver came to.
pub enum PollMatrixEvent<E> {
    /// No step was taken yet.
    Start,
    /// The session was asked for the next answer; there is none when it is over.
    Next(Option<Result<SyncResponse, E>>),
}

/// The next step of polling the homeserver.
pub enum PollMatrixAction<E> {
    /// Ask the session for the next answer.
    Next,
    /// Stop, with this result.
    Return(Result<(), E>),
}

/// One step of polling the homeserver, with the count of answers worked through.
pub open spec fn poll_matrix_step<E>(b: BridgeView, handled: int, event: PollMatrixEvent<E>) -> (
    BridgeView,
    int,
    PollMatrixAction<E>,
) {
    match event {
        PollMatrixEvent::Start => (b, 0, PollMatrixAction::Next),
        PollMatrixEvent::Next(None) => (b, handled, PollMatrixAction::Return(Ok(()))),
        PollMatrixEvent::Next(Some(Err(e))) => (b, handled, PollMatrixAction::Return(Err(e))),
        PollMatrixEvent::Next(Some(Ok(response))) => {
            let d = response_handled(b, join_views(response.rooms.join@));
            if handled + 1 > ANSWERS_PER_POLL {
                (d, handled + 1, PollMatrixAction::Return(Ok(())))
            } else {
                (d, handled + 1, PollMatrixAction::Next)
            }
        },
    }
}

/// The links in what the homeserver was polled for all lead somewhere, as far as
/// they are looked at.
pub open spec fn poll_resolves<E>(b: BridgeView, event: PollMatrixEvent<E>) -> bool {
    match event {
        PollMatrixEvent::Next(Some(Ok(response))) => response_resolves(
            b,
            join_views(response.rooms.join@),
        ),
        _ => true,
    }
}

/// Bridges a single IRC connection with a Matrix session.
pub struct Bridge {
    irc_conn: IrcUserConnection,
    matrix_client: MatrixClient,
    closed: bool,
    mappings: MappingStore,
    is_first_sync: bool,
    joining_map: Table<String>,
}

impl View for Bridge {
    type V = BridgeView;

    closed spec fn view(&self) -> BridgeView {
        BridgeView {
            irc: self.irc_conn@,
            client: self.matrix_client@,
            closed: self.closed,
            mappings: self.mappings@,
            is_first_sync: self.is_first_sync,
            joining: texts(self.joining_map@),
        }
    }
}

/// Only so many nicks and channels are in use on the IRC side of a bridge.
pub proof fn law_bridged_names_are_finite(bridge: Bridge)
    ensures
        bridge@.irc.nicks.finite(),
        bridge@.irc.channels.finite(),
{
    law_names_in_use_are_finite(bridge.irc_conn);
}

impl Bridge {
    /// The first step of setting up a bridge, when the IRC client has logged in
    /// or failed to: what to log in to the homeserver with.
    pub fn begin_create<M>(irc_login: Result<IrcUserConnection, std::io::Error>) -> (r: Result<
        (IrcUserConnection, LoginRequest),
        CreateError<M>,
    >)
        ensures
            match irc_login {
                Ok(irc_conn) => {
                    &&& r is Ok
                    &&& r->Ok_0.0 == irc_conn
                    &&& r->Ok_0.1.user@ == irc_conn@.user
                    &&& r->Ok_0.1.password@ == irc_conn@.password
                    &&& r->Ok_0.1.device_id is None
                    &&& r->Ok_0.1.initial_device_display_name is Some
                    &&& r->Ok_0.1.initial_device_display_name->0@ == "matrix-ircd"@
                },
                Err(e) => r == Err::<(IrcUserConnection, LoginRequest), _>(CreateError::<M>::Io(e)),
            },
    {
        match irc_login {
            Ok(irc_conn) => {
                let request: LoginRequest = MatrixClient::login(
                    irc_conn.user().clone(),
                    irc_conn.password().clone(),
                );
                Ok((irc_conn, request))
            },
            Err(e) => Err(CreateError::Io(e)),
        }
    }

    /// The last step of setting up a bridge, when the homeserver has let the user
    /// in or refused to.
    ///
    /// The bridge won't process any IRC commands until the initial sync has
    /// finished.
    pub fn create<M>(irc_conn: IrcUserConnection, matrix_login: Result<MatrixClient, M>) -> (r:
        Result<Bridge, CreateError<M>>)
        ensures
            match matrix_login {
                Ok(matrix_client) => {
                    &&& r is Ok
                    &&& r->Ok_0@ == new_bridge(irc_conn@, matrix_client@)
                    &&& consistent(r->Ok_0@.mappings, r->Ok_0@.irc)
                },
                Err(e) => r == Err::<Bridge, _>(CreateError::MatrixError(e)),
            },
    {
        match matrix_login {
            Ok(matrix_client) => {
                proof {
                    law_names_in_use_are_finite(irc_conn);
                    law_new_bridges_are_consistent(irc_conn@, matrix_client@);
                }
                let mut irc_conn: IrcUserConnection = irc_conn;
                let mut mappings: MappingStore = MappingStore::default();
                let own_nick: String = irc_conn.nick().clone();
                let own_user_id: String = matrix_client.get_user_id().clone();
                mappings.insert_nick(&mut irc_conn, own_nick, own_user_id);
                let bridge = Bridge {
                    irc_conn,
                    matrix_client,
                    closed: false,
                    mappings,
                    is_first_sync: true,
                    joining_map: Table::new(),
                };
                assert(bridge@.joining =~= Map::empty());
                Ok(bridge)
            },
            Err(e) => Err(CreateError::MatrixError(e)),
        }
    }

    /// The IRC side.
    pub fn irc_conn(&mut self) -> (r: &mut IrcUserConnection)
        ensures
            r@ == old(self)@.irc,
            final(self)@ == (BridgeView { irc: final(r)@, ..old(self)@ }),
    {
        &mut self.irc_conn
    }

    /// The Matrix side.
    pub fn matrix_client(&mut self) -> (r: &mut MatrixClient)
        ensures
            r@ == old(self)@.client,
            final(self)@ == (BridgeView { client: final(r)@, ..old(self)@ }),
    {
        &mut self.matrix_client
    }

    /// What to do about a command from the IRC client.
    pub fn handle_irc_cmd(&self, line: IrcCommand) -> (action: IrcCmdAction)
        requires
            !is_bad_join(line),
        ensures
            command_handled(self@, line, action),
    {
        match line {
            IrcCommand::PrivMsg { channel, text } => {
                match self.mappings.channel_to_room_id(channel.as_str()) {
                    Some(room_id) => {
                        match self.matrix_client.send_text_message(room_id.clone(), text) {
                            Ok(request) => IrcCmdAction::SendMessage(request),
                            Err(_) => IrcCmdAction::Ignore,
                        }
                    },
                    None => IrcCmdAction::Ignore,
                }
            },
            IrcCommand::Join { channel } => {
                let room: String = room_id_or_alias(channel.as_str()).unwrap();
                IrcCmdAction::JoinRoom { channel, request: self.matrix_client.join_room(room) }
            },
            IrcCommand::Other { command } => IrcCmdAction::Ignore,
        }
    }

    /// What to do about a command from the IRC client; nothing can be done about
    /// a join of a channel which no room can have.
    pub fn try_handle_irc_cmd(&self, line: IrcCommand) -> (action: Option<IrcCmdAction>)
        ensures
            match action {
                Some(action) => !is_bad_join(line) && command_handled(self@, line, action),
                None => is_bad_join(line),
            },
    {
        if let IrcCommand::Join { channel } = &line {
            if room_id_or_alias(channel.as_str()).is_none() {
                return None;
            }
        }
        Some(self.handle_irc_cmd(line))
    }

    /// Takes in what came of joining a room for a channel: the ID of the room, or
    /// nothing when it could not be joined.
    pub fn finish_join(&mut self, channel: String, joined: Option<String>)
        ensures
            final(self)@ == join_answered(old(self)@, channel@, optional_text(joined)),
    {
        if let Some(room_id) = joined {
            match self.mappings.room_id_to_channel(room_id.as_str()) {
                Some(mapped_channel) => {
                    if !same_text(mapped_channel.as_str(), channel.as_str()) {
                        self.irc_conn.write_redirect_join(
                            channel.as_str(),
                            mapped_channel.as_str(),
                        );
                    }
                },
                None => {
                    proof {
                        lemma_texts_insert(self.joining_map@, room_id@, channel);
                    }
                    self.joining_map.insert(room_id, channel);
                },
            }
        }
    }

    /// Works through an answer of the homeserver. The first one also has the user
    /// greeted.
    pub fn handle_sync_response(&mut self, response: &SyncResponse)
        requires
            response_resolves(old(self)@, join_views(response.rooms.join@)),
        ensures
            final(self)@ == response_handled(old(self)@, join_views(response.rooms.join@)),
    {
        if self.is_first_sync {
            self.irc_conn.welcome();
            self.irc_conn.send_ping("HELLO");
        }
        let ghost start = self@;
        assert(start == greeted(old(self)@));
        let ghost join = join_views(response.rooms.join@);
        let mut i: usize = 0;
        assert(join.take(0) =~= Seq::empty());
        while i < response.rooms.join.len()
            invariant
                i <= response.rooms.join@.len(),
                join == join_views(response.rooms.join@),
                rooms_resolve(start, join),
                self@ == rooms_synced(start, join.take(i as int)),
            decreases response.rooms.join@.len() - i,
        {
            let entry: &(String, JoinedRoomSyncResponse) = &response.rooms.join[i];
            proof {
                assert(join.take(i + 1).drop_last() =~= join.take(i as int));
                assert(join.take(i + 1).last() == join[i as int]);
                lemma_rooms_resolve_before(start, join, i + 1);
            }
            self.handle_room_sync(entry.0.as_str(), &entry.1);
            i = i + 1;
        }
        assert(join.take(i as int) =~= join);
        self.is_first_sync = false;
    }

    /// Passes on what is new in a room.
    pub fn handle_room_sync(&mut self, room_id: &str, sync: &JoinedRoomSyncResponse)
        requires
            room_resolves(old(self)@, room_id@, event_views(sync.timeline.events@)),
        ensures
            final(self)@ == room_synced(
                old(self)@,
                room_id@,
                event_views(sync.timeline.events@),
            ),
    {
        let ghost b = self@;
        let (channel, _new): (String, bool) = match self.matrix_client.get_room(room_id) {
            Some(room) => self.mappings.create_or_get_channel_name_from_matrix(
                &mut self.irc_conn,
                room,
            ),
            None => return,
        };
        proof {
            lemma_texts_remove(self.joining_map@, room_id@);
        }
        if let Some(attempt_channel) = self.joining_map.remove(room_id) {
            if !same_text(attempt_channel.as_str(), channel.as_str()) {
                self.irc_conn.write_redirect_join(attempt_channel.as_str(), channel.as_str());
            }
        }
        let ghost entered = self@;
        assert(entered == room_entered(b, room_id@));
        let ghost events = event_views(sync.timeline.events@);
        let mut i: usize = 0;
        proof {
            assert(events.take(0) =~= Seq::empty());
            assert(entered.irc.outputs + Seq::<OutputView>::empty() =~= entered.irc.outputs);
        }
        while i < sync.timeline.events.len()
            invariant
                i <= sync.timeline.events@.len(),
                events == event_views(sync.timeline.events@),
                b.client.url == entered.client.url,
                forall|j: int|
                    0 <= j < events.len() ==> !is_stuck(
                        entered.mappings,
                        b.client.url,
                        #[trigger] events[j],
                    ),
                self@ == (BridgeView {
                    irc: UserView {
                        outputs: entered.irc.outputs + all_passed(
                            entered.mappings,
                            b.client.url,
                            channel@,
                            events.take(i as int),
                        ),
                        ..entered.irc
                    },
                    ..entered
                }),
            decreases sync.timeline.events@.len() - i,
        {
            let event: &Event = &sync.timeline.events[i];
            let ghost before = all_passed(
                entered.mappings,
                b.client.url,
                channel@,
                events.take(i as int),
            );
            proof {
                assert(events[i as int] == event@);
                assert(events.take(i + 1).drop_last() =~= events.take(i as int));
                assert(events.take(i + 1).last() == event@);
                if let Some(output) = passed(entered.mappings, b.client.url, channel@, event@) {
                    assert((entered.irc.outputs + before).push(output) =~= entered.irc.outputs
                        + before.push(output));
                }
            }
            self.pass_on(channel.as_str(), event);
            i = i + 1;
        }
        assert(events.take(i as int) =~= events);
    }

    /// Passes one event on to a channel.
    fn pass_on(&mut self, channel: &str, event: &Event)
        requires
            !is_stuck(old(self)@.mappings, old(self)@.client.url, event@),
        ensures
            match passed(old(self)@.mappings, old(self)@.client.url, channel@, event@) {
                Some(output) => final(self)@ == (BridgeView {
                    irc: old(self)@.irc.with_output(output),
                    ..old(self)@
                }),
                None => final(self)@ == old(self)@,
            },
    {
        if !same_text(event.etype.as_str(), "m.room.message") {
            return;
        }
        let sender_nick: &String = match self.mappings.get_nick_from_matrix(
            event.sender.as_str(),
        ) {
            Some(nick) => nick,
            None => return,
        };
        match message_in(event) {
            Message::Nothing => {},
            Message::Text(body) => {
                self.irc_conn.send_message(channel, sender_nick.as_str(), body.as_str());
            },
            Message::Emote(body) => {
                self.irc_conn.send_action(channel, sender_nick.as_str(), body.as_str());
            },
            Message::Media(url) => {
                let link: String = self.matrix_client.media_url(url.as_str());
                self.irc_conn.send_message(channel, sender_nick.as_str(), link.as_str());
            },
        }
    }

    /// Tells whether the links in an answer of the homeserver all lead somewhere, as
    /// far as they would be looked at.
    pub fn links_lead_somewhere(&self, response: &SyncResponse) -> (r: bool)
        ensures
            r == response_resolves(self@, join_views(response.rooms.join@)),
    {
        let ghost start = greeted(self@);
        let ghost join = join_views(response.rooms.join@);
        let mut users: NameSet = NameSet::new();
        let mut rooms: NameSet = NameSet::new();
        let mut i: usize = 0;
        assert(join.take(0) =~= Seq::empty());
        while i < response.rooms.join.len()
            invariant
                i <= response.rooms.join@.len(),
                start == greeted(self@),
                join == join_views(response.rooms.join@),
                rooms_resolve(start, join.take(i as int)),
                foreseen(self@, rooms_synced(start, join.take(i as int)), users@, rooms@),
            decreases response.rooms.join@.len() - i,
        {
            let entry: &(String, JoinedRoomSyncResponse) = &response.rooms.join[i];
            let ghost b = rooms_synced(start, join.take(i as int));
            proof {
                assert(join.take(i + 1).drop_last() =~= join.take(i as int));
                assert(join.take(i + 1).last() == join[i as int]);
            }
            if let Some(room) = self.matrix_client.get_room(entry.0.as_str()) {
                if self.mappings.room_id_to_channel(room.room_id.as_str()).is_none()
                    && !rooms.contains(room.room_id.as_str()) {
                    rooms.insert(room.room_id.clone());
                    add_members(&mut users, &room.members);
                }
                proof {
                    lemma_room_foreseen(b.mappings, b.irc, room@);
                }
                let ok: bool = self.events_lead_somewhere(&users, &entry.1.timeline.events);
                proof {
                    let events = event_views(entry.1.timeline.events@);
                    let m = room_entered(b, entry.0@).mappings;
                    assert forall|j: int| 0 <= j < events.len() implies is_stuck(
                        m,
                        b.client.url,
                        #[trigger] events[j],
                    ) == would_stick(self@, users@, events[j]) by {}
                    if !ok {
                        let j = choose|j: int|
                            0 <= j < events.len() && would_stick(
                                self@,
                                users@,
                                #[trigger] events[j],
                            );
                        assert(is_stuck(m, b.client.url, events[j]));
                        assert(!rooms_resolve(start, join.take(i + 1)));
                        if rooms_resolve(start, join) {
                            lemma_rooms_resolve_before(start, join, i + 1);
                        }
                    }
                }
                if !ok {
                    return false;
                }
            }
            i = i + 1;
        }
        assert(join.take(i as int) =~= join);
        true
    }

    fn events_lead_somewhere(&self, users: &NameSet, events: &Vec<Event>) -> (r: bool)
        ensures
            r == forall|j: int|
                0 <= j < events@.len() ==> !would_stick(
                    self@,
                    users@,
                    #[trigger] event_views(events@)[j],
                ),
    {
        let ghost all = event_views(events@);
        let mut i: usize = 0;
        while i < events.len()
            invariant
                i <= events@.len(),
                all == event_views(events@),
                forall|j: int| 0 <= j < i ==> !would_stick(self@, users@, #[trigger] all[j]),
            decreases events@.len() - i,
        {
            let event: &Event = &events[i];
            assert(all[i as int] == event@);
            if same_text(event.etype.as_str(), "m.room.message") && (
            self.mappings.get_nick_from_matrix(event.sender.as_str()).is_some() || users.contains(
                event.sender.as_str(),
            )) {
                if let Message::Media(url) = message_in(event) {
                    if self.matrix_client.try_media_url(url.as_str()).is_none() {
                        assert(would_stick(self@, users@, all[i as int]));
                        return false;
                    }
                }
            }
            i = i + 1;
        }
        true
    }

    /// Tells whether polling goes on, given what the last poll came to: it ends
    /// with an error, or when the IRC user has left.
    pub fn run<E>(&self, polled: &Result<(), E>) -> (again: bool)
        ensures
            again == (polled is Ok && !self@.closed),
    {
        match polled {
            Ok(_) => !self.closed,
            Err(_) => false,
        }
    }

    /// Goes on polling the IRC client, given what the last step came to.
    pub fn poll_irc<E>(&mut self, event: PollIrcEvent<E>) -> (action: PollIrcAction<E>)
        ensures
            (final(self)@, action) == poll_irc_step(old(self)@, event),
    {
        match event {
            PollIrcEvent::Start => {
                if self.is_first_sync {
                    PollIrcAction::Return(Ok(()))
                } else {
                    PollIrcAction::Poll
                }
            },
            PollIrcEvent::Polled(Err(e)) => PollIrcAction::Return(Err(e)),
            PollIrcEvent::Polled(Ok(Polled::Pending)) => PollIrcAction::Return(Ok(())),
            PollIrcEvent::Polled(Ok(Polled::Ready(Some(line)))) => PollIrcAction::Handle(line),
            PollIrcEvent::Polled(Ok(Polled::Ready(None))) => {
                self.closed = true;
                PollIrcAction::Return(Ok(()))
            },
            PollIrcEvent::Handled => PollIrcAction::Poll,
        }
    }

    /// Goes on polling the homeserver, given how many of its answers were worked
    /// through and what the last step came to.
    pub fn poll_matrix<E>(&mut self, handled: u32, event: PollMatrixEvent<E>) -> (r: (
        u32,
        PollMatrixAction<E>,
    ))
        requires
            handled <= ANSWERS_PER_POLL,
            poll_resolves(old(self)@, event),
        ensures
            (final(self)@, r.0 as int, r.1) == poll_matrix_step(old(self)@, handled as int, event),
    {
        match event {
            PollMatrixEvent::Start => (0, PollMatrixAction::Next),
            PollMatrixEvent::Next(None) => (handled, PollMatrixAction::Return(Ok(()))),
            PollMatrixEvent::Next(Some(Err(e))) => (handled, PollMatrixAction::Return(Err(e))),
            PollMatrixEvent::Next(Some(Ok(response))) => {
                self.handle_sync_response(&response);
                let handled: u32 = handled + 1;
                if handled > ANSWERS_PER_POLL {
                    (handled, PollMatrixAction::Return(Ok(())))
                } else {
                    (handled, PollMatrixAction::Next)
                }
            },
        }
    }

    /// Goes on polling the homeserver, unless a link in its answer leads nowhere.
    pub fn try_poll_matrix<E>(&mut self, handled: u32, event: PollMatrixEvent<E>) -> (r: Option<
        (u32, PollMatrixAction<E>),
    >)
        requires
            handled <= ANSWERS_PER_POLL,
        ensures
            match r {
                Some(r) => {
                    &&& poll_resolves(old(self)@, event)
                    &&& (final(self)@, r.0 as int, r.1) == poll_matrix_step(
                        old(self)@,
                        handled as int,
                        event,
                    )
                },
                None => !poll_resolves(old(self)@, event) && final(self)@ == old(self)@,
            },
    {
        if let PollMatrixEvent::Next(Some(Ok(response))) = &event {
            if !self.links_lead_somewhere(response) {
                return None;
            }
        }
        Some(self.poll_matrix(handled, event))
    }
}

/// Reads the message that an event holds.
fn message_in(event: &Event) -> (r: Message)
    ensures
        r@ == event_message(event@),
{
    let body: Option<String> = string_member(&event.content, "body");
    let msgtype: Option<String> = string_member(&event.content, "msgtype");
    let url: Option<String> = string_member(&event.content, "url");
    read_message(body, msgtype, url)
}

/// The bridge `d` knows the users and rooms of the bridge `b`, with these users and
/// rooms besides.
spec fn foreseen(
    b: BridgeView,
    d: BridgeView,
    users: Set<Seq<char>>,
    rooms: Set<Seq<char>>,
) -> bool {
    &&& d.client == b.client
    &&& forall|user_id: Seq<char>| #[trigger]
        d.mappings.matrix_uid_to_nick.contains_key(user_id)
            <==> b.mappings.matrix_uid_to_nick.contains_key(user_id) || users.contains(user_id)
    &&& forall|room_id: Seq<char>| #[trigger]
        d.mappings.room_id_to_channel.contains_key(room_id)
            <==> b.mappings.room_id_to_channel.contains_key(room_id) || rooms.contains(room_id)
}

/// The event would get stuck once these users have nicks besides.
spec fn would_stick(b: BridgeView, users: Set<Seq<char>>, event: EventView) -> bool {
    &&& event.etype == "m.room.message"@
    &&& b.mappings.matrix_uid_to_nick.contains_key(event.sender) || users.contains(event.sender)
    &&& match event_message(event) {
        MessageView::Media(url) => media_link(b.client.url, url) is None,
        _ => false,
    }
}

/// The Matrix IDs of members.
spec fn member_ids(members: Seq<MemberView>) -> Set<Seq<char>> {
    members.map_values(|member: MemberView| member.user_id).to_set()
}

/// Adds the Matrix IDs of members to a set.
fn add_members(users: &mut NameSet, members: &Vec<Member>)
    ensures
        final(users)@ == old(users)@.union(member_ids(member_views(members@))),
{
    let ghost all = member_views(members@);
    let mut i: usize = 0;
    assert(users@ =~= users@.union(member_ids(all.take(0))));
    while i < members.len()
        invariant
            i <= members@.len(),
            all == member_views(members@),
            users@ == old(users)@.union(member_ids(all.take(i as int))),
        decreases members@.len() - i,
    {
        proof {
            assert(all[i as int] == members@[i as int]@);
            lemma_member_ids_push(all.take(i as int), all[i as int]);
            assert(all.take(i as int).push(all[i as int]) =~= all.take(i + 1));
        }
        users.insert(members[i].user_id.clone());
        assert(users@ =~= old(users)@.union(member_ids(all.take(i + 1))));
        i = i + 1;
    }
    assert(all.take(i as int) =~= all);
}

proof fn lemma_member_ids_push(members: Seq<MemberView>, member: MemberView)
    ensures
        member_ids(members.push(member)) == member_ids(members).insert(member.user_id),
{
    let f = |member: MemberView| member.user_id;
    let before = members.map_values(f);
    let after = members.push(member).map_values(f);
    assert(after =~= before.push(member.user_id));
    assert forall|id: Seq<char>| after.to_set().contains(id) <==> before.to_set().insert(
        member.user_id,
    ).contains(id) by {
        if before.contains(id) {
            let i = choose|i: int| 0 <= i < before.len() && before[i] == id;
            assert(after[i] == id);
        }
        assert(after[before.len() as int] == member.user_id);
        if after.contains(id) {
            let i = choose|i: int| 0 <= i < after.len() && after[i] == id;
            if i < before.len() {
                assert(before[i] == id);
            }
        }
    }
    assert(after.to_set() =~= before.to_set().insert(member.user_id));
}

/// Which users have nicks once the members of a room do.
proof fn lemma_members_foreseen(m: MappingsView, irc: UserView, members: Seq<MemberView>)
    ensures
        with_members(m, irc, members).0.room_id_to_channel == m.room_id_to_channel,
        forall|user_id: Seq<char>| #[trigger]
            with_members(m, irc, members).0.matrix_uid_to_nick.contains_key(user_id)
                <==> m.matrix_uid_to_nick.contains_key(user_id) || member_ids(members).contains(
                user_id,
            ),
    decreases members.len(),
{
    if members.len() > 0 {
        lemma_members_foreseen(m, irc, members.drop_last());
        lemma_member_ids_push(members.drop_last(), members.last());
        assert(members.drop_last().push(members.last()) =~= members);
    }
}

/// Which rooms have channels, and which users have nicks, once a room has a channel.
proof fn lemma_room_foreseen(m: MappingsView, irc: UserView, room: RoomView)
    ensures
        ({
            let d = with_room(m, irc, room).0;
            let new = !m.room_id_to_channel.contains_key(room.room_id);
            &&& forall|room_id: Seq<char>| #[trigger]
                d.room_id_to_channel.contains_key(room_id) <==> m.room_id_to_channel.contains_key(
                    room_id,
                ) || room_id == room.room_id
            &&& forall|user_id: Seq<char>| #[trigger]
                d.matrix_uid_to_nick.contains_key(user_id) <==> {
                    ||| m.matrix_uid_to_nick.contains_key(user_id)
                    ||| new && member_ids(room.members).contains(user_id)
                }
        }),
{
    if !m.room_id_to_channel.contains_key(room.room_id) {
        lemma_members_foreseen(
            m.with_channel(channel_for(m, irc, room), room.room_id),
            irc,
            room.members,
        );
    }
}

/// Where all links in some rooms lead somewhere, so do those in the first of them.
proof fn lemma_rooms_resolve_before(b: BridgeView, join: Seq<JoinView>, n: int)
    requires
        0 <= n <= join.len(),
        rooms_resolve(b, join),
    ensures
        rooms_resolve(b, join.take(n)),
    decreases join.len() - n,
{
    if n < join.len() {
        lemma_rooms_resolve_before(b, join, n + 1);
        assert(join.take(n + 1).drop_last() =~= join.take(n));
    } else {
        assert(join.take(n) =~= join);
    }
}

} // verus!
