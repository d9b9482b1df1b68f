//! What goes over the wire to an IRC client, whatever it is told.

use crate::irc::protocol::Numeric;
use crate::irc::transport::{
    listed, member_texts, name_chunks, names_lines, names_text, numeric_line, welcome_lines, wire,
    write_step, ConnectionView, IrcServerConnection, WriteAction, WriteEvent,
};
use crate::poll::Polled;
use crate::text::trimmed;
use vstd::prelude::*;
use vstd::utf8::encode_utf8;

verus! {

/// Some bytes were queued behind those already queued, and nothing else changed.
pub open spec fn only_queued(before: ConnectionView, after: ConnectionView, bytes: Seq<u8>) -> bool {
    &&& after.outgoing == before.outgoing + bytes
    &&& after.written == before.written
    &&& after.incoming == before.incoming
    &&& after.closed == before.closed
    &&& after.server_name == before.server_name
}

/// A connection that is new has nothing queued and nothing read.
pub proof fn law_new_connections(server_name: String, r: IrcServerConnection)
    requires
        call_ensures(IrcServerConnection::new, (server_name,), r),
    ensures
        r@.server_name == server_name@,
        r@.incoming.len() == 0,
        r@.outgoing.len() == 0,
        r@.written == 0,
        !r@.closed,
{
}

/// A line is queued as its own bytes and a line feed.
pub proof fn law_lines_are_queued(conn: &mut IrcServerConnection, line: &str)
    requires
        call_ensures(IrcServerConnection::write_line, (conn, line), ()),
    ensures
        only_queued(old(conn)@, final(conn)@, encode_utf8(line@) + seq![10u8]),
{
    assert(encode_utf8(line@) + seq![10u8] =~= encode_utf8(line@).push(10u8));
}

/// The numbers of the replies.
pub proof fn law_reply_numbers(numeric: Numeric, r: &'static str)
    requires
        call_ensures(Numeric::as_str, (&numeric,), r),
    ensures
        r@ == numeric.code(),
        r@ == match numeric {
            Numeric::RplWelcome => seq!['0', '0', '1'],
            Numeric::RplTopic => seq!['3', '3', '2'],
            Numeric::RplNamreply => seq!['3', '5', '3'],
            Numeric::RplEndofnames => seq!['3', '6', '6'],
            Numeric::RplMotd => seq!['3', '7', '2'],
            Numeric::RplMotdstart => seq!['3', '7', '5'],
            Numeric::RplEndofmotd => seq!['3', '7', '6'],
            Numeric::ErrNeedmoreparams => seq!['4', '6', '1'],
            Numeric::ErrPasswdmismatch => seq!['4', '6', '4'],
        },
{
    reveal_strlit("001");
    reveal_strlit("332");
    reveal_strlit("353");
    reveal_strlit("366");
    reveal_strlit("372");
    reveal_strlit("375");
    reveal_strlit("376");
    reveal_strlit("461");
    reveal_strlit("464");
}

/// The bytes of a numeric reply: a colon and the server's name, the number of the
/// reply, the nick, and the rest, with a blank between each two, and a line feed.
pub open spec fn reply_bytes(
    server_name: Seq<char>,
    code: Seq<char>,
    nick: Seq<char>,
    rest: Seq<char>,
) -> Seq<u8> {
    encode_utf8(
        seq![':'] + server_name + seq![' '] + code + seq![' '] + nick + seq![' '] + rest,
    ) + seq![10u8]
}

proof fn lemma_reply(
    server_name: Seq<char>,
    numeric: Numeric,
    nick: Seq<char>,
    rest: Seq<char>,
)
    ensures
        encode_utf8(numeric_line(server_name, numeric, nick, rest)).push(10u8) == reply_bytes(
            server_name,
            numeric.code(),
            nick,
            rest,
        ),
{
    reveal_strlit(":");
    reveal_strlit(" ");
    assert(":"@ =~= seq![':']);
    assert(" "@ =~= seq![' ']);
    let line = numeric_line(server_name, numeric, nick, rest);
    assert(encode_utf8(line).push(10u8) =~= encode_utf8(line) + seq![10u8]);
}

/// A numeric reply is queued with the server's name, its number, the nick and the rest
/// of the line, none of them changed.
pub proof fn law_replies_are_queued(
    conn: &mut IrcServerConnection,
    numeric: Numeric,
    nick: &str,
    rest: &str,
)
    requires
        call_ensures(IrcServerConnection::write_numeric, (conn, numeric, nick, rest), ()),
    ensures
        only_queued(
            old(conn)@,
            final(conn)@,
            reply_bytes(old(conn)@.server_name, numeric.code(), nick@, rest@),
        ),
{
    lemma_reply(old(conn)@.server_name, numeric, nick@, rest@);
}

/// A wrong password is answered with the reply for it.
pub proof fn law_wrong_passwords_are_answered(conn: &mut IrcServerConnection, nick: &str)
    requires
        call_ensures(IrcServerConnection::write_invalid_password, (conn, nick), ()),
    ensures
        only_queued(
            old(conn)@,
            final(conn)@,
            reply_bytes(old(conn)@.server_name, "464"@, nick@, ":Invalid password"@),
        ),
{
    lemma_reply(
        old(conn)@.server_name,
        Numeric::ErrPasswdmismatch,
        nick@,
        ":Invalid password"@,
    );
}

/// A missing password is answered with the reply for it.
pub proof fn law_missing_passwords_are_answered(conn: &mut IrcServerConnection, nick: &str)
    requires
        call_ensures(IrcServerConnection::write_password_required, (conn, nick), ()),
    ensures
        only_queued(
            old(conn)@,
            final(conn)@,
            reply_bytes(old(conn)@.server_name, "461"@, nick@, "PASS :Password required"@),
        ),
{
    lemma_reply(
        old(conn)@.server_name,
        Numeric::ErrNeedmoreparams,
        nick@,
        "PASS :Password required"@,
    );
}

/// A topic is queued with the channel and the very topic.
pub proof fn law_topics_are_queued(
    conn: &mut IrcServerConnection,
    nick: &str,
    channel: &str,
    topic: &str,
)
    requires
        call_ensures(IrcServerConnection::write_topic, (conn, nick, channel, topic), ()),
    ensures
        only_queued(
            old(conn)@,
            final(conn)@,
            reply_bytes(
                old(conn)@.server_name,
                "332"@,
                nick@,
                channel@ + seq![' ', ':'] + topic@,
            ),
        ),
{
    reveal_strlit(" :");
    assert(" :"@ =~= seq![' ', ':']);
    lemma_reply(
        old(conn)@.server_name,
        Numeric::RplTopic,
        nick@,
        channel@ + " :"@ + topic@,
    );
}

/// A join is queued with the nick and the channel, neither of them changed.
pub proof fn law_joins_are_queued(conn: &mut IrcServerConnection, nick: &str, channel: &str)
    requires
        call_ensures(IrcServerConnection::write_join, (conn, nick, channel), ()),
    ensures
        only_queued(
            old(conn)@,
            final(conn)@,
            encode_utf8(
                seq![':'] + nick@ + seq![' ', 'J', 'O', 'I', 'N', ' '] + channel@,
            ) + seq![10u8],
        ),
{
    reveal_strlit(":");
    reveal_strlit(" JOIN ");
    assert(":"@ =~= seq![':']);
    assert(" JOIN "@ =~= seq![' ', 'J', 'O', 'I', 'N', ' ']);
    let line = ":"@ + nick@ + " JOIN "@ + channel@;
    assert(encode_utf8(line).push(10u8) =~= encode_utf8(line) + seq![10u8]);
}

proof fn lemma_wire(lines: Seq<Seq<char>>)
    ensures
        wire(lines) == lines.map_values(|line: Seq<char>| encode_utf8(line) + seq![10u8])
            .flatten_alt(),
    decreases lines.len(),
{
    let f = |line: Seq<char>| encode_utf8(line) + seq![10u8];
    if lines.len() > 0 {
        lemma_wire(lines.drop_last());
        assert(lines.map_values(f).drop_last() =~= lines.drop_last().map_values(f));
        assert(encode_utf8(lines.last()).push(10u8) =~= encode_utf8(lines.last()) + seq![10u8]);
    }
}

/// The greeting is six replies: the welcome, and the message of the day.
pub proof fn law_the_greeting_is_queued(conn: &mut IrcServerConnection, nick: &str)
    requires
        call_ensures(IrcServerConnection::welcome, (conn, nick), ()),
    ensures
        ({
            let server_name = old(conn)@.server_name;
            only_queued(
                old(conn)@,
                final(conn)@,
                seq![
                    reply_bytes(
                        server_name,
                        "001"@,
                        nick@,
                        ":Welcome to the Matrix Internet Relay Network"@,
                    ),
                    reply_bytes(
                        server_name,
                        "375"@,
                        nick@,
                        ":- "@ + server_name + " Message of the day -"@,
                    ),
                    reply_bytes(server_name, "372"@, nick@, ":-"@),
                    reply_bytes(server_name, "372"@, nick@, ":- This is a bridge into Matrix"@),
                    reply_bytes(server_name, "372"@, nick@, ":-"@),
                    reply_bytes(server_name, "376"@, nick@, ":End of MOTD"@),
                ].flatten_alt(),
            )
        }),
{
    let server_name = old(conn)@.server_name;
    let lines = welcome_lines(server_name, nick@);
    let f = |line: Seq<char>| encode_utf8(line) + seq![10u8];
    lemma_wire(lines);
    assert forall|line: Seq<char>| #[trigger] f(line) == encode_utf8(line).push(10u8) by {
        assert(f(line) =~= encode_utf8(line).push(10u8));
    }
    lemma_reply(
        server_name,
        Numeric::RplWelcome,
        nick@,
        ":Welcome to the Matrix Internet Relay Network"@,
    );
    lemma_reply(
        server_name,
        Numeric::RplMotdstart,
        nick@,
        ":- "@ + server_name + " Message of the day -"@,
    );
    lemma_reply(server_name, Numeric::RplMotd, nick@, ":-"@);
    lemma_reply(server_name, Numeric::RplMotd, nick@, ":- This is a bridge into Matrix"@);
    lemma_reply(server_name, Numeric::RplEndofmotd, nick@, ":End of MOTD"@);
    let expected = seq![
        reply_bytes(
            server_name,
            "001"@,
            nick@,
            ":Welcome to the Matrix Internet Relay Network"@,
        ),
        reply_bytes(
            server_name,
            "375"@,
            nick@,
            ":- "@ + server_name + " Message of the day -"@,
        ),
        reply_bytes(server_name, "372"@, nick@, ":-"@),
        reply_bytes(server_name, "372"@, nick@, ":- This is a bridge into Matrix"@),
        reply_bytes(server_name, "372"@, nick@, ":-"@),
        reply_bytes(server_name, "376"@, nick@, ":End of MOTD"@),
    ];
    assert(lines.map_values(f) =~= expected);
}

proof fn lemma_listed(names: Seq<(Seq<char>, bool)>)
    ensures
        listed(names) == names.map_values(
            |name: (Seq<char>, bool)|
                (if name.1 {
                    seq!['@']
                } else {
                    Seq::empty()
                }) + name.0 + seq![' '],
        ).flatten_alt(),
    decreases names.len(),
{
    reveal_strlit("@");
    reveal_strlit("");
    reveal_strlit(" ");
    assert("@"@ =~= seq!['@']);
    assert(""@ =~= Seq::empty());
    assert(" "@ =~= seq![' ']);
    let f = |name: (Seq<char>, bool)|
        (if name.1 {
            seq!['@']
        } else {
            Seq::empty()
        }) + name.0 + seq![' '];
    if names.len() > 0 {
        lemma_listed(names.drop_last());
        assert(names.map_values(f).drop_last() =~= names.drop_last().map_values(f));
        assert(listed(names) =~= listed(names.drop_last()) + f(names.last()));
    }
}

proof fn lemma_chunks(names: Seq<(Seq<char>, bool)>, i: int)
    requires
        0 <= i < name_chunks(names).len(),
    ensures
        10 * i < names.len(),
        name_chunks(names)[i] == names.subrange(
            10 * i,
            if 10 * i + 10 <= names.len() {
                10 * i + 10
            } else {
                names.len() as int
            },
        ),
    decreases names.len(),
{
    let n: int = if names.len() < 10 {
        names.len() as int
    } else {
        10
    };
    let rest = names.skip(n);
    if i > 0 {
        assert(name_chunks(names)[i] == name_chunks(rest)[i - 1]);
        lemma_chunks(rest, i - 1);
        let end: int = if 10 * i + 10 <= names.len() {
            10 * i + 10
        } else {
            names.len() as int
        };
        assert(rest.subrange(10 * (i - 1), end - 10) =~= names.subrange(10 * i, end));
    } else {
        assert(names.take(n) =~= names.subrange(0, n));
    }
}

proof fn lemma_chunk_count(names: Seq<(Seq<char>, bool)>)
    ensures
        10 * name_chunks(names).len() >= names.len(),
        10 * name_chunks(names).len() < names.len() + 10,
    decreases names.len(),
{
    if names.len() > 0 {
        let n: int = if names.len() < 10 {
            names.len() as int
        } else {
            10
        };
        lemma_chunk_count(names.skip(n));
    }
}

/// A names reply lists the names by tens, each with an `@` in front where it is marked
/// and a blank behind it, and ends with a line that says so. All of the names are
/// there, in order, and none is changed.
pub proof fn law_names_are_queued(
    conn: &mut IrcServerConnection,
    nick: &str,
    channel: &str,
    names: Vec<(String, bool)>,
)
    requires
        call_ensures(IrcServerConnection::write_names, (conn, nick, channel, &names), ()),
    ensures
        exists|replies: Seq<Seq<u8>>|
            {
                let server_name = old(conn)@.server_name;
                let last = replies.len() - 1;
                &&& only_queued(old(conn)@, final(conn)@, #[trigger] replies.flatten_alt())
                &&& names@.len() <= 10 * last < names@.len() + 10
                &&& replies[last] == reply_bytes(
                    server_name,
                    "366"@,
                    nick@,
                    channel@ + " :End of /NAMES"@,
                )
                &&& forall|i: int|
                    0 <= i < last ==> #[trigger] replies[i] == reply_bytes(
                        server_name,
                        "353"@,
                        nick@,
                        trimmed(
                            seq!['@', ' '] + channel@ + seq![' ', ':'] + names@.subrange(
                                10 * i,
                                if 10 * i + 10 <= names@.len() {
                                    10 * i + 10
                                } else {
                                    names@.len() as int
                                },
                            ).map_values(
                                |name: (String, bool)|
                                    (if name.1 {
                                        seq!['@']
                                    } else {
                                        Seq::empty()
                                    }) + name.0@ + seq![' '],
                            ).flatten_alt(),
                        ),
                    )
            },
{
    let server_name = old(conn)@.server_name;
    let all = member_texts(names@);
    let lines = names_lines(server_name, nick@, channel@, all);
    let wired = |line: Seq<char>| encode_utf8(line) + seq![10u8];
    let replies = lines.map_values(wired);
    let last = replies.len() - 1;
    lemma_wire(lines);
    lemma_chunk_count(all);
    reveal_strlit("@ ");
    reveal_strlit(" :");
    assert("@ "@ =~= seq!['@', ' ']);
    assert(" :"@ =~= seq![' ', ':']);
    assert forall|line: Seq<char>| #[trigger] wired(line) == encode_utf8(line).push(10u8) by {
        assert(wired(line) =~= encode_utf8(line).push(10u8));
    }
    lemma_reply(server_name, Numeric::RplEndofnames, nick@, channel@ + " :End of /NAMES"@);
    let shown = |name: (String, bool)|
        (if name.1 {
            seq!['@']
        } else {
            Seq::empty()
        }) + name.0@ + seq![' '];
    let seen = |name: (Seq<char>, bool)|
        (if name.1 {
            seq!['@']
        } else {
            Seq::empty()
        }) + name.0 + seq![' '];
    assert forall|i: int| 0 <= i < last implies #[trigger] replies[i] == reply_bytes(
        server_name,
        "353"@,
        nick@,
        trimmed(
            seq!['@', ' '] + channel@ + seq![' ', ':'] + names@.subrange(
                10 * i,
                if 10 * i + 10 <= names@.len() {
                    10 * i + 10
                } else {
                    names@.len() as int
                },
            ).map_values(shown).flatten_alt(),
        ),
    ) by {
        let end: int = if 10 * i + 10 <= names@.len() {
            10 * i + 10
        } else {
            names@.len() as int
        };
        lemma_chunks(all, i);
        let chunk = name_chunks(all)[i];
        lemma_listed(chunk);
        assert(chunk.map_values(seen) =~= names@.subrange(10 * i, end).map_values(shown));
        lemma_reply(server_name, Numeric::RplNamreply, nick@, names_text(channel@, chunk));
    }
    assert(only_queued(old(conn)@, final(conn)@, replies.flatten_alt()));
}

/// The bytes that are handed to the socket are those queued and not yet written.
pub proof fn law_pending_bytes(conn: IrcServerConnection, r: &[u8])
    requires
        call_ensures(IrcServerConnection::pending_bytes, (&conn,), r),
        0 <= conn@.written <= conn@.outgoing.len(),
    ensures
        conn@.outgoing == conn@.outgoing.take(conn@.written) + r@,
{
    assert(conn@.outgoing =~= conn@.outgoing.take(conn@.written) + r@);
}

/// What a step of writing comes to, from `c` to `d`. Bytes are handed to the socket as
/// long as any are pending; what the socket took is not pending any more, and is
/// flushed before more is handed over; writing is over when nothing is pending, when
/// the socket has to wait, or with the socket's own error. Nothing else changes.
pub open spec fn goes_on_writing(
    c: ConnectionView,
    event: WriteEvent,
    d: ConnectionView,
    action: WriteAction,
) -> bool {
    let before = c.outgoing.skip(c.written);
    let after = d.outgoing.skip(d.written);
    &&& d.incoming == c.incoming
    &&& d.closed == c.closed
    &&& d.server_name == c.server_name
    &&& match event {
        WriteEvent::Start | WriteEvent::Flushed(Polled::Ready(Ok(_))) => {
            &&& after == before
            &&& before.len() > 0 ==> action is Write
            &&& before.len() == 0 ==> action == WriteAction::Return(Polled::Ready(Ok(())))
        },
        WriteEvent::Written(Polled::Ready(Ok(n))) => {
            &&& n <= before.len() ==> before == before.take(n as int) + after
            &&& action is Flush
        },
        WriteEvent::Written(Polled::Ready(Err(e))) => {
            after == before && action == WriteAction::Return(Polled::Ready(Err(e)))
        },
        WriteEvent::Flushed(Polled::Ready(Err(e))) => {
            after == before && action == WriteAction::Return(Polled::Ready(Err(e)))
        },
        WriteEvent::Written(Polled::Pending) | WriteEvent::Flushed(Polled::Pending) => {
            after == before && action == WriteAction::Return(Polled::Pending)
        },
    }
}

/// The contract's steps of writing are such steps.
pub proof fn lemma_write_steps(c: ConnectionView, event: WriteEvent)
    requires
        0 <= c.written <= c.outgoing.len(),
    ensures
        goes_on_writing(c, event, write_step(c, event).0, write_step(c, event).1),
{
    let d = write_step(c, event).0;
    let before = c.outgoing.skip(c.written);
    let after = d.outgoing.skip(d.written);
    if let WriteEvent::Written(Polled::Ready(Ok(n))) = event {
        if n <= before.len() {
            assert(before =~= before.take(n as int) + after);
        }
    } else {
        assert(after =~= before);
    }
}

/// What each step of writing the queue comes to.
pub proof fn law_steps_of_writing(
    conn: &mut IrcServerConnection,
    event: WriteEvent,
    action: WriteAction,
)
    requires
        call_ensures(IrcServerConnection::poll_write, (conn, event), action),
        0 <= old(conn)@.written <= old(conn)@.outgoing.len(),
    ensures
        goes_on_writing(old(conn)@, event, final(conn)@, action),
{
    lemma_write_steps(old(conn)@, event);
}

} // verus!
