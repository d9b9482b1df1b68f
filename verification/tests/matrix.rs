use matrix_ircd::matrix::media::parse_mxc;
use matrix_ircd::matrix::models::Room;
use matrix_ircd::matrix::protocol::{
    Event, EventUnsigned, JoinedRoomSyncResponse, RoomsSyncResponse, SyncResponse, Timeline,
};
use matrix_ircd::matrix::{
    make_message_request, JsonPostError, MatrixClient, SyncAction, SyncEvent, TextMessage,
};
use matrix_ircd::poll::Polled;
use regex::Regex;

fn event(etype: &str, transaction_id: Option<&str>) -> Event {
    Event {
        etype: etype.to_string(),
        sender: "@alice:example.com".to_string(),
        content: serde_json::Value::Null,
        unsigned: EventUnsigned { transaction_id: transaction_id.map(str::to_string) },
    }
}

fn response(rooms: Vec<(&str, Vec<Event>)>) -> SyncResponse {
    SyncResponse {
        next_batch: "s1".to_string(),
        rooms: RoomsSyncResponse {
            join: rooms
                .into_iter()
                .map(|(id, events)| {
                    (id.to_string(), JoinedRoomSyncResponse { timeline: Timeline { events } })
                })
                .collect(),
        },
    }
}

/// Keeps the count of syncs and of events as the name of a room.
fn counting(known: Option<Room>, room_id: &String, sync: &JoinedRoomSyncResponse) -> Room {
    let before = known.and_then(|room| room.name).unwrap_or_default();
    Room {
        room_id: room_id.clone(),
        canonical_alias: None,
        name: Some(format!("{}+{}", before, sync.timeline.events.len())),
        topic: None,
        members: Vec::new(),
    }
}

#[test]
fn matrix_login() {
    let username = "sample_username".to_string();
    let password = "sample_password".to_string();
    let request = MatrixClient::login(username, password);
    assert_eq!(request.user, "sample_username");
    assert_eq!(request.password, "sample_password");
    assert_eq!(request.device_id, None);
    assert_eq!(request.initial_device_display_name, Some("matrix-ircd".to_string()));
    let client =
        MatrixClient::logged_in("http://hs/".to_string(), Some("@u:hs".to_string()));
    assert_eq!(client.get_user_id(), "@u:hs");
    assert!(client.get_room("!a:hs").is_none());
}

#[test]
fn send_text_message() {
    let client = MatrixClient::new("sample_user_id".to_string(), "http://hs/".to_string());
    let room_id = "room_id";
    let matcher =
        Regex::new(r"^/_matrix/client/r0/rooms/(.+)/send/m.room.message/mircd-(\d+)$").unwrap();
    for _ in 0..50 {
        let request =
            client.send_text_message(room_id.to_string(), "sample_body".to_string()).unwrap();
        let path = format!(
            "/_matrix/client/r0/rooms/{}/send/{}/{}",
            request.room_id, request.event_type, request.txn_id
        );
        assert!(matcher.is_match(&path));
        assert_eq!(request.data, r#"{"msgtype":"m.text","body":"sample_body"}"#);
    }
}

#[test]
fn message_requests_are_exact() {
    let request = make_message_request("!r:hs".to_string(), "hi".to_string(), 65535).unwrap();
    assert_eq!(request.room_id, "!r:hs");
    assert_eq!(request.event_type, "m.room.message");
    assert_eq!(request.txn_id, "mircd-65535");
    assert_eq!(request.data, r#"{"msgtype":"m.text","body":"hi"}"#);
}

#[test]
fn message_json_reads_back() {
    let mut all: String = (0u8..128).map(char::from).collect();
    all.push_str("\u{e9}\u{2028}\u{1f600}");
    let json = TextMessage::new(all.clone()).raw_json().unwrap();
    let value: serde_json::Value = serde_json::from_str(&json).unwrap();
    assert_eq!(value.get("msgtype").and_then(|v| v.as_str()), Some("m.text"));
    assert_eq!(value.get("body").and_then(|v| v.as_str()), Some(all.as_str()));
    assert_eq!(value.as_object().map(|members| members.len()), Some(2));
    let json = TextMessage::new("\"\\\u{8}\t\n\u{c}\r\u{1}\u{1f}\u{7f}".to_string());
    assert_eq!(
        json.raw_json().unwrap(),
        "{\"msgtype\":\"m.text\",\"body\":\"\\\"\\\\\\b\\t\\n\\f\\r\\u0001\\u001f\u{7f}\"}"
    );
}

#[test]
fn join_requests_name_the_room() {
    let client = MatrixClient::new("@u:hs".to_string(), "http://hs/".to_string());
    let request = client.join_room("#r:hs".to_string());
    assert_eq!(request.room_id, "#r:hs");
    assert_eq!(request.third_party_signed, None);
}

#[test]
fn mxc_links_are_read_as_the_pattern_says() {
    let pattern = Regex::new("^mxc://([^/]+/[^/]+)$").unwrap();
    let parts = ["", "/", "//", "a", "a/", "/a", "a/b", "a/b/", "a/b/c", "\u{e9}/\n", "a\n/b", "a/b\n", ":/x"];
    for head in ["mxc://", "MXC://", "mxc:/", "", "x mxc://", "mxc:///"] {
        for part in parts {
            let url = format!("{}{}", head, part);
            let expected = pattern.captures(&url).map(|found| found[1].to_string());
            assert_eq!(parse_mxc(&url), expected, "{:?}", url);
        }
    }
}

#[test]
fn media_links_lead_to_the_homeserver() {
    let client = MatrixClient::new("@u:hs".to_string(), "https://hs.example/base".to_string());
    assert_eq!(
        client.media_url("mxc://example.com/AbC"),
        "https://hs.example/_matrix/media/v1/download/example.com/AbC"
    );
    assert_eq!(client.media_url("https://elsewhere/a.png"), "https://elsewhere/a.png");
    assert_eq!(client.media_url("mxc://one-part"), "mxc://one-part");
    assert_eq!(
        client.try_media_url("mxc://example.com/AbC"),
        Some("https://hs.example/_matrix/media/v1/download/example.com/AbC".to_string())
    );
    assert_eq!(client.try_media_url("mxc://http:/["), None);
    let lost = MatrixClient::new("@u:hs".to_string(), "not a url".to_string());
    assert_eq!(lost.try_media_url("mxc://a/b"), None);
    assert_eq!(lost.try_media_url("a/b"), Some("a/b".to_string()));
}

#[test]
fn syncs_open_the_stream_once() {
    let mut client = MatrixClient::new("@u:hs".to_string(), "http://hs/".to_string());
    let start = || SyncEvent::<String>::Start;
    assert!(matches!(client.poll_sync(&counting, start()), SyncAction::OpenStream));
    assert!(matches!(client.poll_sync(&counting, start()), SyncAction::PollStream));
    assert!(matches!(
        client.poll_sync(&counting, SyncEvent::<String>::Item(Polled::Pending)),
        SyncAction::Return(Polled::Pending)
    ));
    assert!(matches!(
        client.poll_sync(&counting, SyncEvent::<String>::Item(Polled::Ready(None))),
        SyncAction::Return(Polled::Ready(None))
    ));
    match client.poll_sync(
        &counting,
        SyncEvent::Item(Polled::Ready(Some(Err("bad".to_string())))),
    ) {
        SyncAction::Return(Polled::Ready(Some(Err(e)))) => assert_eq!(e, "bad"),
        _ => panic!("no error"),
    }
}

#[test]
fn syncs_drop_echoes_and_keep_rooms() {
    let mut client = MatrixClient::new("@u:hs".to_string(), "http://hs/".to_string());
    let first = response(vec![
        (
            "!a:hs",
            vec![
                event("one", None),
                event("two", Some("mircd-17")),
                event("three", Some("other-mircd-17")),
                event("four", Some("mircd-")),
            ],
        ),
        ("!b:hs", vec![]),
    ]);
    let kept = match client
        .poll_sync(&counting, SyncEvent::<()>::Item(Polled::Ready(Some(Ok(first)))))
    {
        SyncAction::Return(Polled::Ready(Some(Ok(kept)))) => kept,
        _ => panic!("no answer"),
    };
    let types: Vec<&str> =
        kept.rooms.join[0].1.timeline.events.iter().map(|e| e.etype.as_str()).collect();
    assert_eq!(types, ["one", "three"]);
    assert_eq!(kept.next_batch, "s1");
    assert_eq!(kept.rooms.join.len(), 2);
    let second = response(vec![("!a:hs", vec![event("five", None)])]);
    let _ = client.poll_sync(&counting, SyncEvent::<()>::Item(Polled::Ready(Some(Ok(second)))));
    assert_eq!(client.get_room("!a:hs").unwrap().name, Some("+2+1".to_string()));
    assert_eq!(client.get_room("!b:hs").unwrap().name, Some("+0".to_string()));
    assert!(client.get_room("!c:hs").is_none());
}

#[test]
fn own_messages_come_back_as_echoes() {
    let mut client = MatrixClient::new("@u:hs".to_string(), "http://hs/".to_string());
    let request = client.send_text_message("!a:hs".to_string(), "hi".to_string()).unwrap();
    let answer = response(vec![("!a:hs", vec![event("m.room.message", Some(&request.txn_id))])]);
    match client.poll_sync(&counting, SyncEvent::<()>::Item(Polled::Ready(Some(Ok(answer))))) {
        SyncAction::Return(Polled::Ready(Some(Ok(kept)))) => {
            assert_eq!(kept.rooms.join[0].1.timeline.events.len(), 0)
        }
        _ => panic!("no answer"),
    }
}

#[test]
fn post_errors_become_io_errors() {
    let e = JsonPostError::ErrorResponse(404).into_io_error();
    assert_eq!(e.kind(), std::io::ErrorKind::Other);
    assert_eq!(e.to_string(), "Received 404 response");
    let inner = std::io::Error::new(std::io::ErrorKind::TimedOut, "late");
    let e = JsonPostError::Io(inner).into_io_error();
    assert_eq!(e.kind(), std::io::ErrorKind::TimedOut);
    assert_eq!(e.to_string(), "late");
    let inner = std::io::Error::new(std::io::ErrorKind::NotFound, "gone");
    match JsonPostError::from(inner) {
        JsonPostError::Io(e) => assert_eq!(e.to_string(), "gone"),
        JsonPostError::ErrorResponse(_) => panic!("no I/O error"),
    }
}
