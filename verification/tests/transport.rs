use matrix_ircd::io_error::IoErrorKind;
use matrix_ircd::irc::protocol::Numeric;
use matrix_ircd::irc::transport::{
    IrcServerConnection, NextAction, NextEvent, ReadAction, ReadEvent, WriteAction, WriteEvent,
    READ_LIMIT,
};
use matrix_ircd::poll::Polled;

/// Lets the socket take all that is queued, `chunk` bytes at a time.
fn drain(conn: &mut IrcServerConnection, chunk: usize) -> Vec<u8> {
    let mut sent: Vec<u8> = Vec::new();
    let mut event = WriteEvent::Start;
    loop {
        match conn.poll_write(event) {
            WriteAction::Write => {
                let pending = conn.pending_bytes();
                let n = chunk.min(pending.len());
                sent.extend_from_slice(&pending[..n]);
                event = WriteEvent::Written(Polled::Ready(Ok(n)));
            }
            WriteAction::Flush => event = WriteEvent::Flushed(Polled::Ready(Ok(()))),
            WriteAction::Return(Polled::Ready(Ok(()))) => return sent,
            WriteAction::Return(other) => panic!("{:?}", other),
        }
    }
}

fn sent(conn: &mut IrcServerConnection) -> String {
    String::from_utf8(drain(conn, 7)).unwrap()
}

fn numbers(line: &str) -> Option<u32> {
    line.parse().ok()
}

#[test]
fn numerics_have_their_codes() {
    let mut conn = IrcServerConnection::new("srv".to_string());
    conn.write_numeric(Numeric::RplTopic, "alice", "rest");
    assert_eq!(sent(&mut conn), ":srv 332 alice rest\n");
    conn.write_invalid_password("alice");
    assert_eq!(sent(&mut conn), ":srv 464 alice :Invalid password\n");
    conn.write_password_required("alice");
    assert_eq!(sent(&mut conn), ":srv 461 alice PASS :Password required\n");
}

#[test]
fn greets_in_six_lines() {
    let mut conn = IrcServerConnection::new("srv".to_string());
    conn.welcome("al");
    assert_eq!(
        sent(&mut conn),
        ":srv 001 al :Welcome to the Matrix Internet Relay Network\n\
         :srv 375 al :- srv Message of the day -\n\
         :srv 372 al :-\n\
         :srv 372 al :- This is a bridge into Matrix\n\
         :srv 372 al :-\n\
         :srv 376 al :End of MOTD\n"
    );
}

#[test]
fn joins_and_topics() {
    let mut conn = IrcServerConnection::new("srv".to_string());
    conn.write_join("al", "#room");
    conn.write_topic("al", "#room", "all sorts");
    assert_eq!(sent(&mut conn), ":al JOIN #room\n:srv 332 al #room :all sorts\n");
}

#[test]
fn names_go_ten_to_a_line() {
    let mut conn = IrcServerConnection::new("srv".to_string());
    let names: Vec<(String, bool)> = (0..11).map(|i| (format!("n{}", i), i == 1)).collect();
    conn.write_names("al", "#r", &names);
    assert_eq!(
        sent(&mut conn),
        ":srv 353 al @ #r :n0 @n1 n2 n3 n4 n5 n6 n7 n8 n9\n\
         :srv 353 al @ #r :n10\n\
         :srv 366 al #r :End of /NAMES\n"
    );
}

#[test]
fn no_names_leave_only_the_end() {
    let mut conn = IrcServerConnection::new("srv".to_string());
    conn.write_names("al", "#r", &Vec::new());
    assert_eq!(sent(&mut conn), ":srv 366 al #r :End of /NAMES\n");
}

#[test]
fn bytes_leave_once_and_in_order() {
    for chunk in 1..40 {
        let mut conn = IrcServerConnection::new("srv".to_string());
        conn.write_line("h\u{e9}llo");
        conn.write_line("world");
        assert_eq!(drain(&mut conn, chunk), "h\u{e9}llo\nworld\n".as_bytes());
        assert_eq!(drain(&mut conn, chunk), b"");
    }
}

#[test]
fn a_line_queued_while_writing_comes_after() {
    let mut conn = IrcServerConnection::new("srv".to_string());
    conn.write_line("abc");
    assert!(matches!(conn.poll_write(WriteEvent::Start), WriteAction::Write));
    assert!(matches!(
        conn.poll_write(WriteEvent::Written(Polled::Ready(Ok(2)))),
        WriteAction::Flush
    ));
    assert!(matches!(
        conn.poll_write(WriteEvent::Flushed(Polled::Pending)),
        WriteAction::Return(Polled::Pending)
    ));
    conn.write_line("d");
    assert_eq!(drain(&mut conn, 100), b"c\nd\n");
}

#[test]
fn write_errors_are_passed_on() {
    let mut conn = IrcServerConnection::new("srv".to_string());
    conn.write_line("abc");
    let broken = || std::io::Error::new(std::io::ErrorKind::BrokenPipe, "broken");
    match conn.poll_write(WriteEvent::Written(Polled::Ready(Err(broken())))) {
        WriteAction::Return(Polled::Ready(Err(e))) => {
            assert_eq!(e.kind(), std::io::ErrorKind::BrokenPipe)
        }
        _ => panic!("no error"),
    }
    assert!(matches!(
        conn.poll_write(WriteEvent::Flushed(Polled::Ready(Err(broken())))),
        WriteAction::Return(Polled::Ready(Err(_)))
    ));
    assert!(matches!(
        conn.poll_write(WriteEvent::Written(Polled::Pending)),
        WriteAction::Return(Polled::Pending)
    ));
}

#[test]
fn reads_commands_and_passes_other_lines_over() {
    let mut conn = IrcServerConnection::new("srv".to_string());
    assert!(matches!(
        conn.poll_read(&numbers, ReadEvent::Start),
        ReadAction::Read(READ_LIMIT)
    ));
    let bytes = b"nonsense\r\n12 \r\n\n34\n5".to_vec();
    assert!(matches!(
        conn.poll_read(&numbers, ReadEvent::Read(bytes)),
        ReadAction::Return(Polled::Ready(Ok(12)))
    ));
    assert!(matches!(
        conn.poll_read(&numbers, ReadEvent::Start),
        ReadAction::Return(Polled::Ready(Ok(34)))
    ));
    assert!(matches!(conn.poll_read(&numbers, ReadEvent::Start), ReadAction::Read(2047)));
    assert!(matches!(
        conn.poll_read(&numbers, ReadEvent::Read(b"6\n".to_vec())),
        ReadAction::Return(Polled::Ready(Ok(56)))
    ));
}

#[test]
fn split_reads_agree() {
    let mut one = IrcServerConnection::new("srv".to_string());
    let mut two = IrcServerConnection::new("srv".to_string());
    assert!(matches!(
        one.poll_read(&numbers, ReadEvent::Read(b"12\n".to_vec())),
        ReadAction::Return(Polled::Ready(Ok(12)))
    ));
    assert!(matches!(
        two.poll_read(&numbers, ReadEvent::Read(b"1".to_vec())),
        ReadAction::Read(2047)
    ));
    assert!(matches!(
        two.poll_read(&numbers, ReadEvent::Read(b"2\n".to_vec())),
        ReadAction::Return(Polled::Ready(Ok(12)))
    ));
}

#[test]
fn a_line_that_is_not_utf8_is_an_error() {
    let mut conn = IrcServerConnection::new("srv".to_string());
    match conn.poll_read(&numbers, ReadEvent::Read(b"\xff\n7\n".to_vec())) {
        ReadAction::Return(Polled::Ready(Err(e))) => {
            assert_eq!(e.kind(), std::io::ErrorKind::InvalidData);
            assert_eq!(e.to_string(), "Invalid UTF-8");
        }
        _ => panic!("no error"),
    }
    assert!(matches!(
        conn.poll_read(&numbers, ReadEvent::Start),
        ReadAction::Return(Polled::Ready(Ok(7)))
    ));
}

#[test]
fn a_line_that_is_too_long_is_an_error() {
    let mut conn = IrcServerConnection::new("srv".to_string());
    match conn.poll_read(&numbers, ReadEvent::Read(vec![b'a'; 2048])) {
        ReadAction::Return(Polled::Ready(Err(e))) => {
            assert_eq!(e.kind(), std::io::ErrorKind::InvalidData);
            assert_eq!(e.to_string(), "Line too long");
        }
        _ => panic!("no error"),
    }
}

#[test]
fn a_pending_read_fills_the_buffer() {
    let mut conn = IrcServerConnection::new("srv".to_string());
    assert!(matches!(
        conn.poll_read(&numbers, ReadEvent::Pending),
        ReadAction::Return(Polled::Pending)
    ));
    match conn.poll_read(&numbers, ReadEvent::Start) {
        ReadAction::Return(Polled::Ready(Err(e))) => assert_eq!(e.to_string(), "Line too long"),
        _ => panic!("no error"),
    }
}

#[test]
fn a_read_that_would_block_leaves_the_buffer() {
    let mut conn = IrcServerConnection::new("srv".to_string());
    let error = std::io::Error::new(std::io::ErrorKind::WouldBlock, "later");
    assert!(matches!(
        conn.poll_read(&numbers, ReadEvent::Failed { kind: IoErrorKind::WouldBlock, error }),
        ReadAction::Return(Polled::Pending)
    ));
    assert!(matches!(conn.poll_read(&numbers, ReadEvent::Start), ReadAction::Read(2048)));
    let error = std::io::Error::new(std::io::ErrorKind::ConnectionReset, "reset");
    match conn.poll_read(&numbers, ReadEvent::Failed { kind: IoErrorKind::Other, error }) {
        ReadAction::Return(Polled::Ready(Err(e))) => assert_eq!(e.to_string(), "reset"),
        _ => panic!("no error"),
    }
}

#[test]
fn next_command_writes_first_and_ends_with_the_client() {
    let mut conn = IrcServerConnection::new("srv".to_string());
    conn.write_line("hi");
    assert!(matches!(conn.poll_next(&numbers, NextEvent::Start), NextAction::Write));
    assert!(matches!(
        conn.poll_next(&numbers, NextEvent::Write(WriteEvent::Written(Polled::Ready(Ok(3))))),
        NextAction::Flush
    ));
    assert!(matches!(
        conn.poll_next(&numbers, NextEvent::Write(WriteEvent::Flushed(Polled::Ready(Ok(()))))),
        NextAction::Read(2048)
    ));
    assert!(matches!(
        conn.poll_next(&numbers, NextEvent::Read(ReadEvent::Read(b"9\n".to_vec()))),
        NextAction::Return(Polled::Ready(Some(Ok(9))))
    ));
    assert!(matches!(
        conn.poll_next(&numbers, NextEvent::Read(ReadEvent::Read(Vec::new()))),
        NextAction::Return(Polled::Ready(None))
    ));
    assert!(matches!(
        conn.poll_next(&numbers, NextEvent::Start),
        NextAction::Return(Polled::Ready(None))
    ));
}

#[test]
fn commands_do_not_depend_on_the_pieces() {
    let bytes = b"1\nx\n22\r\n\n\xc3\xa9\n333\n";
    for size in 1..=bytes.len() {
        let mut conn = IrcServerConnection::new("srv".to_string());
        let mut found: Vec<u32> = Vec::new();
        for piece in bytes.chunks(size) {
            let mut event = ReadEvent::Read(piece.to_vec());
            while let ReadAction::Return(Polled::Ready(command)) = conn.poll_read(&numbers, event) {
                found.push(command.unwrap());
                event = ReadEvent::Start;
            }
        }
        assert_eq!(found, [1, 22, 333]);
    }
}
