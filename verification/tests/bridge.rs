use matrix_ircd::bridge::{
    Bridge, CreateError, IrcCmdAction, PollIrcAction, PollIrcEvent, PollMatrixAction,
    PollMatrixEvent,
};
use matrix_ircd::bridge::mappings::MappingStore;
use matrix_ircd::irc::protocol::IrcCommand;
use matrix_ircd::irc::user::{IrcOutput, IrcUserConnection};
use matrix_ircd::matrix::models::{Member, Room};
use matrix_ircd::matrix::protocol::{
    Event, EventUnsigned, JoinedRoomSyncResponse, RoomsSyncResponse, SyncResponse, Timeline,
};
use matrix_ircd::matrix::{MatrixClient, SyncEvent};
use matrix_ircd::poll::Polled;

fn member(user_id: &str, display_name: &str, moderator: bool) -> Member {
    Member {
        user_id: user_id.to_string(),
        display_name: display_name.to_string(),
        moderator,
    }
}

fn room(room_id: &str, alias: Option<&str>, name: Option<&str>, members: Vec<Member>) -> Room {
    Room {
        room_id: room_id.to_string(),
        canonical_alias: alias.map(str::to_string),
        name: name.map(str::to_string),
        topic: None,
        members,
    }
}

fn user() -> IrcUserConnection {
    IrcUserConnection::new("me".to_string(), "login".to_string(), "secret".to_string())
}

fn bridge() -> Bridge {
    let client = MatrixClient::new("@me:hs".to_string(), "https://hs/".to_string());
    match Bridge::create::<String>(user(), Ok(client)) {
        Ok(bridge) => bridge,
        Err(_) => panic!("not created"),
    }
}

fn event(sender: &str, content: &str) -> Event {
    Event {
        etype: "m.room.message".to_string(),
        sender: sender.to_string(),
        content: serde_json::from_str(content).unwrap(),
        unsigned: EventUnsigned { transaction_id: None },
    }
}

fn sync(events: Vec<Event>) -> JoinedRoomSyncResponse {
    JoinedRoomSyncResponse { timeline: Timeline { events } }
}

fn response(rooms: Vec<(&str, Vec<Event>)>) -> SyncResponse {
    SyncResponse {
        next_batch: "s".to_string(),
        rooms: RoomsSyncResponse {
            join: rooms.into_iter().map(|(id, events)| (id.to_string(), sync(events))).collect(),
        },
    }
}

/// Lets the Matrix side know a room.
fn know(bridge: &mut Bridge, room_id: &str, make: fn(&str) -> Room) {
    let update = |_: Option<Room>, id: &String, _: &JoinedRoomSyncResponse| make(id);
    let _ = bridge.matrix_client().poll_sync(
        &update,
        SyncEvent::<()>::Item(Polled::Ready(Some(Ok(response(vec![(room_id, vec![])]))))),
    );
}

fn tavern(id: &str) -> Room {
    room(id, None, Some("The Tavern"), vec![member("@alice:hs", "Alice", true), member("@bo:hs", "Bo", false)])
}

fn outputs(bridge: &mut Bridge) -> Vec<String> {
    bridge.irc_conn().take_outputs().iter().map(shown).collect()
}

fn shown(output: &IrcOutput) -> String {
    match output {
        IrcOutput::Welcome => "welcome".to_string(),
        IrcOutput::Ping { data } => format!("ping {}", data),
        IrcOutput::CreateUser { nick, user_id } => format!("user {} {}", nick, user_id),
        IrcOutput::AddChannel { channel, topic, members } => {
            format!("channel {} {:?} {:?}", channel, topic, members)
        }
        IrcOutput::RedirectJoin { from, to } => format!("redirect {} {}", from, to),
        IrcOutput::Message { channel, sender, body } => format!("{} <{}> {}", channel, sender, body),
        IrcOutput::Action { channel, sender, body } => format!("{} * {} {}", channel, sender, body),
    }
}

#[test]
fn nicks_come_from_display_names() {
    let mut store = MappingStore::default();
    let mut irc = user();
    assert_eq!(store.create_or_get_nick_from_matrix(&mut irc, "@alice:hs", "Alice L."), "AliceL.");
    assert_eq!(store.create_or_get_nick_from_matrix(&mut irc, "@alice:hs", "Other"), "AliceL.");
    assert_eq!(store.create_or_get_nick_from_matrix(&mut irc, "@bob:hs", "@b"), "bob:hs");
    assert_eq!(store.create_or_get_nick_from_matrix(&mut irc, "@c:hs", "Alice L."), "AliceL.[1]");
    assert_eq!(store.create_or_get_nick_from_matrix(&mut irc, "@d:hs", "Alice L."), "AliceL.[2]");
    // Two bytes are too few, whatever they spell; three are enough.
    assert_eq!(store.create_or_get_nick_from_matrix(&mut irc, "@e:hs", "\u{e9}"), "e:hs");
    assert_eq!(store.create_or_get_nick_from_matrix(&mut irc, "@f:hs", "\u{20ac}"), "\u{20ac}");
    assert_eq!(store.get_nick_from_matrix("@c:hs"), Some(&"AliceL.[1]".to_string()));
    assert_eq!(store.get_nick_from_matrix("@nobody:hs"), None);
}

#[test]
fn channels_come_from_alias_name_or_id() {
    let mut store = MappingStore::default();
    let mut irc = user();
    let mut channel = |room: Room| store.create_or_get_channel_name_from_matrix(&mut irc, &room);
    assert_eq!(channel(room("!a:hs", Some("#main:hs"), Some("Main"), vec![])), ("#main:hs".to_string(), true));
    assert_eq!(channel(room("!b:hs", None, Some("Main Room"), vec![])), ("#MainRoom".to_string(), true));
    assert_eq!(channel(room("!c:hs", None, Some("Main Room"), vec![])), ("#MainRoom[1]".to_string(), true));
    assert_eq!(channel(room("!d:hs", None, Some(" # "), vec![])), ("#!d:hs".to_string(), true));
    assert_eq!(channel(room("!e:hs", None, None, vec![])), ("#!e:hs".to_string(), true));
    assert_eq!(channel(room("!b:hs", Some("#new:hs"), None, vec![])), ("#MainRoom".to_string(), false));
    assert_eq!(store.channel_to_room_id("#MainRoom[1]"), Some(&"!c:hs".to_string()));
    assert_eq!(store.room_id_to_channel("!c:hs"), Some(&"#MainRoom[1]".to_string()));
    assert_eq!(store.channel_to_room_id("#none"), None);
    assert_eq!(store.room_id_to_channel("!none"), None);
}

#[test]
fn a_new_channel_has_its_members() {
    let mut store = MappingStore::default();
    let mut irc = user();
    store.insert_nick(&mut irc, "me".to_string(), "@me:hs".to_string());
    let mut tavern = tavern("!t:hs");
    tavern.topic = Some("ale".to_string());
    let _ = store.create_or_get_channel_name_from_matrix(&mut irc, &tavern);
    let shown: Vec<String> = irc.take_outputs().iter().map(shown).collect();
    assert_eq!(
        shown,
        [
            "user me @me:hs",
            "user Alice @alice:hs",
            "user bo:hs @bo:hs",
            "channel #TheTavern \"ale\" [(\"Alice\", true), (\"bo:hs\", false)]",
        ]
    );
    assert_eq!(irc.take_outputs().len(), 0);
}

#[test]
fn creation_logs_in_and_maps_the_user() {
    let request = match Bridge::begin_create::<()>(Ok(user())) {
        Ok((_, request)) => request,
        Err(_) => panic!("refused"),
    };
    assert_eq!((request.user.as_str(), request.password.as_str()), ("login", "secret"));
    assert_eq!(request.initial_device_display_name, Some("matrix-ircd".to_string()));
    let error = std::io::Error::new(std::io::ErrorKind::Other, "gone");
    assert!(matches!(Bridge::begin_create::<()>(Err(error)), Err(CreateError::Io(_))));
    assert!(matches!(Bridge::create(user(), Err("no")), Err(CreateError::MatrixError("no"))));
    let mut bridge = bridge();
    assert_eq!(outputs(&mut bridge), ["user me @me:hs"]);
}

#[test]
fn the_first_answer_greets() {
    let mut bridge = bridge();
    let _ = outputs(&mut bridge);
    assert!(matches!(
        bridge.poll_irc(PollIrcEvent::<()>::Start),
        PollIrcAction::Return(Ok(()))
    ));
    bridge.handle_sync_response(&response(vec![]));
    assert_eq!(outputs(&mut bridge), ["welcome", "ping HELLO"]);
    assert!(matches!(bridge.poll_irc(PollIrcEvent::<()>::Start), PollIrcAction::Poll));
    bridge.handle_sync_response(&response(vec![]));
    assert_eq!(outputs(&mut bridge).len(), 0);
}

#[test]
fn messages_are_passed_on_to_irc() {
    let mut bridge = bridge();
    know(&mut bridge, "!t:hs", tavern);
    bridge.handle_room_sync("!t:hs", &sync(vec![]));
    let _ = outputs(&mut bridge);
    let mut other = event("@alice:hs", r#"{"body":"x","msgtype":"m.text"}"#);
    other.etype = "m.room.topic".to_string();
    let events = vec![
        event("@alice:hs", r#"{"body":"hello","msgtype":"m.text"}"#),
        event("@bo:hs", r#"{"body":"waves","msgtype":"m.emote"}"#),
        event("@alice:hs", r#"{"body":"a.png","msgtype":"m.image","url":"mxc://hs/abc"}"#),
        event("@alice:hs", r#"{"body":"a.mp4","msgtype":"m.video","url":"https://x/y"}"#),
        event("@alice:hs", r#"{"body":"a.txt","msgtype":"m.file"}"#),
        event("@alice:hs", r#"{"body":"well","msgtype":"m.notice"}"#),
        event("@alice:hs", r#"{"body":"well"}"#),
        event("@alice:hs", r#"{"msgtype":"m.text"}"#),
        event("@alice:hs", r#"{"body":7,"msgtype":"m.text"}"#),
        event("@alice:hs", "[]"),
        event("@stranger:hs", r#"{"body":"hello","msgtype":"m.text"}"#),
        other,
    ];
    bridge.handle_room_sync("!t:hs", &sync(events));
    assert_eq!(
        outputs(&mut bridge),
        [
            "#TheTavern <Alice> hello",
            "#TheTavern * bo:hs waves",
            "#TheTavern <Alice> https://hs/_matrix/media/v1/download/hs/abc",
            "#TheTavern <Alice> https://x/y",
            "#TheTavern <Alice> well",
        ]
    );
}

#[test]
fn rooms_that_are_not_known_are_passed_over() {
    let mut bridge = bridge();
    let _ = outputs(&mut bridge);
    let events = vec![event("@me:hs", r#"{"body":"hello","msgtype":"m.text"}"#)];
    bridge.handle_room_sync("!x:hs", &sync(events));
    assert_eq!(outputs(&mut bridge).len(), 0);
}

#[test]
fn a_link_that_leads_nowhere_is_foreseen() {
    let mut bridge = bridge();
    know(&mut bridge, "!t:hs", tavern);
    let _ = outputs(&mut bridge);
    let bad = r#"{"body":"b","msgtype":"m.audio","url":"mxc://http:/["}"#;
    // Nobody will know this sender, so the link would never be looked at.
    let stranger = response(vec![("!t:hs", vec![event("@stranger:hs", bad)])]);
    assert!(bridge.links_lead_somewhere(&stranger));
    // This room is not known, so neither would its links be.
    let elsewhere = response(vec![("!x:hs", vec![event("@bo:hs", bad)])]);
    assert!(bridge.links_lead_somewhere(&elsewhere));
    // This sender gets a nick with the room.
    let events = || {
        vec![
            event("@bo:hs", r#"{"body":"one","msgtype":"m.text"}"#),
            event("@bo:hs", bad),
        ]
    };
    assert!(!bridge.links_lead_somewhere(&response(vec![("!t:hs", events())])));
    let answer = response(vec![("!t:hs", vec![]), ("!x:hs", vec![]), ("!t:hs", events())]);
    assert!(!bridge.links_lead_somewhere(&answer));
    let next = PollMatrixEvent::<()>::Next(Some(Ok(answer)));
    assert!(bridge.try_poll_matrix(3, next).is_none());
    assert_eq!(outputs(&mut bridge).len(), 0);

    let next = PollMatrixEvent::<()>::Next(Some(Ok(stranger)));
    assert!(matches!(bridge.try_poll_matrix(3, next), Some((4, PollMatrixAction::Next))));
    assert!(!bridge.links_lead_somewhere(&response(vec![("!t:hs", events())])));
    assert!(matches!(
        bridge.try_poll_matrix(3, PollMatrixEvent::<()>::Next(None)),
        Some((3, PollMatrixAction::Return(Ok(()))))
    ));
}

#[test]
fn commands_become_requests() {
    let mut bridge = bridge();
    know(&mut bridge, "!t:hs", tavern);
    bridge.handle_room_sync("!t:hs", &sync(vec![]));
    let say = |channel: &str| IrcCommand::PrivMsg {
        channel: channel.to_string(),
        text: "hi".to_string(),
    };
    match bridge.handle_irc_cmd(say("#TheTavern")) {
        IrcCmdAction::SendMessage(request) => {
            assert_eq!(request.room_id, "!t:hs");
            assert!(request.txn_id.starts_with("mircd-"));
            assert_eq!(request.data, r#"{"msgtype":"m.text","body":"hi"}"#);
        }
        _ => panic!("not sent"),
    }
    assert!(matches!(bridge.handle_irc_cmd(say("#else")), IrcCmdAction::Ignore));
    let join = IrcCommand::Join { channel: "#ruma:example.com".to_string() };
    match bridge.try_handle_irc_cmd(join) {
        Some(IrcCmdAction::JoinRoom { channel, request }) => {
            assert_eq!(channel, "#ruma:example.com");
            assert_eq!(request.room_id, "#ruma:example.com");
        }
        _ => panic!("not joined"),
    }
    for bad in ["#ruma", "ruma:example.com", "#ruma:", "", "@ruma:example.com"] {
        let join = IrcCommand::Join { channel: bad.to_string() };
        assert!(bridge.try_handle_irc_cmd(join).is_none());
    }
    let part = IrcCommand::Other { command: "PART".to_string() };
    assert!(matches!(bridge.try_handle_irc_cmd(part), Some(IrcCmdAction::Ignore)));
}

#[test]
fn joins_are_redirected_in_either_order() {
    let mut join_first = bridge();
    know(&mut join_first, "!t:hs", tavern);
    let _ = outputs(&mut join_first);
    join_first.finish_join("#asked:hs".to_string(), Some("!t:hs".to_string()));
    assert_eq!(outputs(&mut join_first).len(), 0);
    join_first.handle_room_sync("!t:hs", &sync(vec![]));
    let one = outputs(&mut join_first);

    let mut room_first = bridge();
    know(&mut room_first, "!t:hs", tavern);
    let _ = outputs(&mut room_first);
    room_first.handle_room_sync("!t:hs", &sync(vec![]));
    room_first.finish_join("#asked:hs".to_string(), Some("!t:hs".to_string()));
    let other = outputs(&mut room_first);

    assert_eq!(one, other);
    assert_eq!(one.last().unwrap(), "redirect #asked:hs #TheTavern");
    room_first.finish_join("#TheTavern".to_string(), Some("!t:hs".to_string()));
    room_first.finish_join("#asked:hs".to_string(), None);
    assert_eq!(outputs(&mut room_first).len(), 0);
    join_first.handle_room_sync("!t:hs", &sync(vec![]));
    assert_eq!(outputs(&mut join_first).len(), 0);
}

#[test]
fn polling_irc_ends_with_the_client() {
    let mut bridge = bridge();
    assert!(bridge.run(&Ok::<(), ()>(())));
    assert!(!bridge.run(&Err::<(), ()>(())));
    let join = IrcCommand::Join { channel: "#a:b".to_string() };
    assert!(matches!(
        bridge.poll_irc(PollIrcEvent::<()>::Polled(Ok(Polled::Ready(Some(join))))),
        PollIrcAction::Handle(IrcCommand::Join { .. })
    ));
    assert!(matches!(bridge.poll_irc(PollIrcEvent::<()>::Handled), PollIrcAction::Poll));
    assert!(matches!(
        bridge.poll_irc(PollIrcEvent::<()>::Polled(Ok(Polled::Pending))),
        PollIrcAction::Return(Ok(()))
    ));
    assert!(matches!(
        bridge.poll_irc(PollIrcEvent::Polled(Err("lost"))),
        PollIrcAction::Return(Err("lost"))
    ));
    assert!(bridge.run(&Ok::<(), ()>(())));
    assert!(matches!(
        bridge.poll_irc(PollIrcEvent::<()>::Polled(Ok(Polled::Ready(None)))),
        PollIrcAction::Return(Ok(()))
    ));
    assert!(!bridge.run(&Ok::<(), ()>(())));
}

#[test]
fn one_poll_works_through_thirty_one_answers() {
    let mut bridge = bridge();
    let (mut handled, action) = bridge.poll_matrix(0, PollMatrixEvent::<()>::Start);
    assert!(matches!(action, PollMatrixAction::Next));
    for i in 1..=31 {
        let answer = PollMatrixEvent::<()>::Next(Some(Ok(response(vec![]))));
        let (next, action) = bridge.poll_matrix(handled, answer);
        handled = next;
        assert_eq!(handled, i);
        assert_eq!(matches!(action, PollMatrixAction::Next), i < 31);
    }
    let (_, action) = bridge.poll_matrix(3, PollMatrixEvent::<()>::Next(None));
    assert!(matches!(action, PollMatrixAction::Return(Ok(()))));
    let (_, action) = bridge.poll_matrix(3, PollMatrixEvent::Next(Some(Err("down"))));
    assert!(matches!(action, PollMatrixAction::Return(Err("down"))));
}

#[test]
fn names_are_never_shared() {
    let mut bridge = bridge();
    let twin = |id: &str| room(id, None, Some("Same"), vec![member(&format!("@x{}", id), "Twin", false)]);
    let rooms = ["!1:hs", "!2:hs", "!3:hs"];
    let update = |_: Option<Room>, id: &String, _: &JoinedRoomSyncResponse| twin(id);
    for id in rooms {
        let answer = response(vec![(id, vec![])]);
        let _ = bridge
            .matrix_client()
            .poll_sync(&update, SyncEvent::<()>::Item(Polled::Ready(Some(Ok(answer)))));
    }
    let answer = response(rooms.iter().map(|id| (*id, vec![])).collect());
    bridge.handle_sync_response(&answer);
    bridge.handle_sync_response(&answer);
    assert_eq!(
        outputs(&mut bridge)[3..],
        [
            "user Twin @x!1:hs",
            "channel #Same \"\" [(\"Twin\", false)]",
            "user Twin[1] @x!2:hs",
            "channel #Same[1] \"\" [(\"Twin[1]\", false)]",
            "user Twin[2] @x!3:hs",
            "channel #Same[2] \"\" [(\"Twin[2]\", false)]",
        ]
    );
}

#[test]
fn channels_and_nicks_are_given_once() {
    let mut bridge = bridge();
    know(&mut bridge, "!t:hs", tavern);
    bridge.handle_sync_response(&response(vec![("!t:hs", vec![])]));
    let renamed = |id: &str| {
        room(id, Some("#inn:hs"), Some("The Inn"), vec![member("@alice:hs", "Alicia", false)])
    };
    know(&mut bridge, "!t:hs", renamed);
    know(&mut bridge, "!u:hs", tavern);
    let _ = outputs(&mut bridge);
    let hello = event("@alice:hs", r#"{"body":"hello","msgtype":"m.text"}"#);
    bridge.handle_sync_response(&response(vec![("!u:hs", vec![]), ("!t:hs", vec![hello])]));
    assert_eq!(
        outputs(&mut bridge),
        [
            "channel #TheTavern[1] \"\" [(\"Alice\", true), (\"bo:hs\", false)]",
            "#TheTavern <Alice> hello",
        ]
    );
    let line = IrcCommand::PrivMsg { channel: "#TheTavern".to_string(), text: "hi".to_string() };
    match bridge.try_handle_irc_cmd(line) {
        Some(IrcCmdAction::SendMessage(request)) => assert_eq!(request.room_id, "!t:hs"),
        _ => panic!("no message"),
    }
}
