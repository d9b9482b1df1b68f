//! What is read from an IRC client, whatever it sends.

use crate::io_error::{io_error, IoErrorKind};
use crate::irc::transport::{
    after_first_line, after_lines, first_line, first_line_ends_at, has_line, lines_read, read_step,
    write_step, ConnectionView, Found, IrcServerConnection, NextAction, NextEvent,
    ReadAction, ReadEvent, WriteAction, WriteEvent,
};
use crate::irc::writing_laws::{goes_on_writing, lemma_write_steps};
use crate::poll::Polled;
use crate::text::{is_white_space, trimmed_end};
use crate::text_laws::{law_trimmed_end, law_trimmed_end_is_the_only_one};
use vstd::prelude::*;
use vstd::utf8::{
    char_u32_cast, codepoint_width_1, decode_utf8, encode_utf8, encode_utf8_decode_utf8, encode_utf8_first_scalar,
    encode_utf8_valid_utf8, pop_first_scalar, valid_utf8,
};

verus! {

/// A line, with the line feed at its end, stands between two places.
pub open spec fn is_line(bytes: Seq<u8>, from: int, to: int) -> bool {
    &&& 0 <= from < to <= bytes.len()
    &&& bytes[to - 1] == 10
    &&& forall|i: int| from <= i < to - 1 ==> bytes[i] != 10
}

/// The parser was handed the text of a line without the white space at its end, and
/// with nothing else missing, and said this of it.
pub open spec fn handed_over<C, P: Fn(&str) -> Option<C>>(
    parse: P,
    line: Seq<u8>,
    verdict: Option<C>,
) -> bool {
    exists|handed: &str| #[trigger]
        call_ensures(parse, (handed,), verdict) && {
            let text = decode_utf8(line);
            &&& handed@.is_prefix_of(text)
            &&& forall|i: int| handed@.len() <= i < text.len() ==> is_white_space(#[trigger] text[i])
            &&& handed@.len() > 0 ==> !is_white_space(handed@.last())
        }
}

/// Lines were taken from the front of `before`, one after the other, with `ends` where
/// each of them begins and the last one ends, and `after` is left. All lines but the
/// last one were text that is no command. The last one decides what was found: a
/// command, or that it is not text; with nothing found it was no command either, and no
/// complete line is left.
pub open spec fn lines_taken<C, P: Fn(&str) -> Option<C>>(
    parse: P,
    before: Seq<u8>,
    ends: Seq<int>,
    found: Found<C>,
    after: Seq<u8>,
) -> bool {
    let n = ends.len() - 1;
    &&& ends.len() > 0
    &&& ends[0] == 0
    &&& 0 <= ends[n] <= before.len()
    &&& after == before.skip(ends[n])
    &&& forall|i: int| 0 <= i < n ==> is_line(before, #[trigger] ends[i], ends[i + 1])
    &&& forall|i: int|
        0 <= i < n && (found is Nothing || i < n - 1) ==> {
            let line = before.subrange(#[trigger] ends[i], ends[i + 1]);
            valid_utf8(line) && handed_over(parse, line, None::<C>)
        }
    &&& match found {
        Found::Nothing => forall|i: int| 0 <= i < after.len() ==> after[i] != 10,
        Found::Command(command) => {
            let line = before.subrange(ends[n - 1], ends[n]);
            n > 0 && valid_utf8(line) && handed_over(parse, line, Some(command))
        },
        Found::Invalid => n > 0 && !valid_utf8(before.subrange(ends[n - 1], ends[n])),
    }
}

proof fn lemma_first_line(bytes: Seq<u8>)
    requires
        has_line(bytes),
    ensures
        is_line(bytes, 0, first_line(bytes).len() as int),
        first_line(bytes) == bytes.subrange(0, first_line(bytes).len() as int),
        after_first_line(bytes) == bytes.skip(first_line(bytes).len() as int),
        after_first_line(bytes).len() < bytes.len(),
{
    let at = choose|at: int| first_line_ends_at(bytes, at);
    assert(first_line_ends_at(bytes, at));
    assert(first_line(bytes) =~= bytes.subrange(0, at + 1));
}

proof fn lemma_one_line_more<C, P: Fn(&str) -> Option<C>>(
    parse: P,
    before: Seq<u8>,
    to: int,
    later: Seq<int>,
    found: Found<C>,
    after: Seq<u8>,
)
    requires
        is_line(before, 0, to),
        valid_utf8(before.subrange(0, to)),
        handed_over(parse, before.subrange(0, to), None::<C>),
        lines_taken(parse, before.skip(to), later, found, after),
    ensures
        exists|ends: Seq<int>| lines_taken(parse, before, ends, found, after),
{
    let rest = before.skip(to);
    let ends = seq![0int] + later.map_values(|end: int| end + to);
    let n = ends.len() - 1;
    assert(ends[0] == 0);
    assert forall|i: int| 1 <= i < ends.len() implies #[trigger] ends[i] == later[i - 1] + to by {}
    assert forall|i: int| 0 <= i < n implies is_line(before, #[trigger] ends[i], ends[i + 1]) by {
        if i > 0 {
            let k = i - 1;
            assert(is_line(rest, later[k], later[k + 1]));
            assert forall|j: int| ends[i] <= j < ends[i + 1] - 1 implies before[j] != 10 by {
                assert(rest[j - to] == before[j]);
            }
            assert(rest[ends[i + 1] - 1 - to] == before[ends[i + 1] - 1]);
        }
    }
    assert forall|i: int| 0 <= i < n && (found is Nothing || i < n - 1) implies {
        let line = before.subrange(#[trigger] ends[i], ends[i + 1]);
        valid_utf8(line) && handed_over(parse, line, None::<C>)
    } by {
        if i > 0 {
            let k = i - 1;
            assert(is_line(rest, later[k], later[k + 1]));
            assert(before.subrange(ends[i], ends[i + 1]) =~= rest.subrange(later[k], later[k + 1]));
        }
    }
    assert(rest.skip(later[n - 1]) =~= before.skip(ends[n]));
    if !(found is Nothing) {
        assert(is_line(rest, later[n - 2], later[n - 1]));
        assert(before.subrange(ends[n - 1], ends[n]) =~= rest.subrange(later[n - 2], later[n - 1]));
    }
    assert(lines_taken(parse, before, ends, found, after));
}

proof fn lemma_lines_taken<C, P: Fn(&str) -> Option<C>>(
    parse: P,
    before: Seq<u8>,
    after: Seq<u8>,
    found: Found<C>,
)
    requires
        lines_read(parse, before, after, found),
    ensures
        exists|ends: Seq<int>| lines_taken(parse, before, ends, found, after),
    decreases before.len(),
{
    if !has_line(before) {
        let ends = seq![0int];
        assert(before.skip(0) =~= before);
        assert forall|i: int| 0 <= i < after.len() implies after[i] != 10 by {
            if after[i] == 10 {
                lemma_some_line(before, i);
            }
        }
        assert(lines_taken(parse, before, ends, found, after));
    } else {
        lemma_first_line(before);
        let to = first_line(before).len() as int;
        let rest = after_first_line(before);
        if !valid_utf8(first_line(before)) {
            let ends = seq![0int, to];
            assert(lines_taken(parse, before, ends, found, after));
        } else {
            let text = decode_utf8(first_line(before));
            law_trimmed_end(text);
            let (line, verdict) = choose|line: &str, verdict: Option<C>|
                {
                    &&& line@ == trimmed_end(decode_utf8(first_line(before)))
                    &&& #[trigger] call_ensures(parse, (line,), verdict)
                    &&& match verdict {
                        Some(command) => {
                            after == after_first_line(before) && found == Found::Command(command)
                        },
                        None => after_first_line(before).len() < before.len() && lines_read(
                            parse,
                            after_first_line(before),
                            after,
                            found,
                        ),
                    }
                };
            assert(call_ensures(parse, (line,), verdict));
            assert(handed_over(parse, first_line(before), verdict));
            if verdict is Some {
                let ends = seq![0int, to];
                assert(lines_taken(parse, before, ends, found, after));
            } else {
                lemma_lines_taken(parse, rest, after, found);
                let later = choose|ends: Seq<int>| lines_taken(parse, rest, ends, found, after);
                lemma_one_line_more(parse, before, to, later, found, after);
            }
        }
    }
}

proof fn lemma_some_line(bytes: Seq<u8>, i: int)
    requires
        0 <= i < bytes.len(),
        bytes[i] == 10,
    ensures
        has_line(bytes),
    decreases i,
{
    if exists|k: int| 0 <= k < i && bytes[k] == 10 {
        let k = choose|k: int| 0 <= k < i && bytes[k] == 10;
        lemma_some_line(bytes, k);
    } else {
        assert(first_line_ends_at(bytes, i));
    }
}

/// What a step of reading comes to, from `c` to `d`. Complete lines are taken from what
/// has come in: a command is returned, a line that is not UTF-8 is an error, and so is
/// a full buffer without a complete line; else as much is read as still fits. A client
/// that gives nothing has hung up; an error of the socket is returned, but for one that
/// only says to wait.
pub open spec fn goes_on_reading<C, P: Fn(&str) -> Option<C>>(
    parse: P,
    c: ConnectionView,
    event: ReadEvent,
    d: ConnectionView,
    action: ReadAction<C>,
) -> bool {
    &&& d.outgoing == c.outgoing
    &&& d.written == c.written
    &&& d.server_name == c.server_name
    &&& match event {
        ReadEvent::Start => d.closed == c.closed && takes_lines(
            parse,
            c.incoming,
            d.incoming,
            action,
        ),
        ReadEvent::Read(bytes) => if bytes@.len() > 0 {
            d.closed == c.closed && takes_lines(
                parse,
                c.incoming + bytes@,
                d.incoming,
                action,
            )
        } else {
            &&& d.closed
            &&& d.incoming == c.incoming
            &&& action == ReadAction::<C>::Return(Polled::Pending)
        },
        ReadEvent::Failed { kind, error } => {
            &&& d.closed == c.closed
            &&& if kind is WouldBlock {
                d.incoming == c.incoming && action == ReadAction::<C>::Return(Polled::Pending)
            } else {
                &&& filled_up(c.incoming, d.incoming)
                &&& action == ReadAction::<C>::Return(Polled::Ready(Err(error)))
            }
        },
        ReadEvent::Pending => {
            &&& d.closed == c.closed
            &&& filled_up(c.incoming, d.incoming)
            &&& action == ReadAction::<C>::Return(Polled::Pending)
        },
    }
}

/// Lines are taken from some bytes, with this action to follow.
pub open spec fn takes_lines<C, P: Fn(&str) -> Option<C>>(
    parse: P,
    before: Seq<u8>,
    after: Seq<u8>,
    action: ReadAction<C>,
) -> bool {
    exists|ends: Seq<int>, found: Found<C>|
        {
            &&& #[trigger] lines_taken(parse, before, ends, found, after)
            &&& match found {
                Found::Command(command) => action == ReadAction::Return(
                    Polled::Ready(Ok(command)),
                ),
                Found::Invalid => action == ReadAction::<C>::Return(
                    Polled::Ready(Err(io_error(IoErrorKind::InvalidData, "Invalid UTF-8"@))),
                ),
                Found::Nothing => if after.len() < 2048 {
                    action is Read && action->Read_0 == 2048 - after.len()
                } else {
                    action == ReadAction::<C>::Return(
                        Polled::Ready(Err(io_error(IoErrorKind::InvalidData, "Line too long"@))),
                    )
                },
            }
        }
}

/// The buffer is full: what was in it, as far as it fits, and zeros behind it.
pub open spec fn filled_up(before: Seq<u8>, after: Seq<u8>) -> bool {
    &&& after.len() == 2048
    &&& forall|i: int|
        0 <= i < 2048 ==> #[trigger] after[i] == if i < before.len() {
            before[i]
        } else {
            0u8
        }
}

proof fn lemma_takes_lines<C, P: Fn(&str) -> Option<C>>(
    parse: P,
    c: ConnectionView,
    d: ConnectionView,
    action: ReadAction<C>,
)
    requires
        after_lines(parse, c, d, action),
    ensures
        takes_lines(parse, c.incoming, d.incoming, action),
        d == (ConnectionView { incoming: d.incoming, ..c }),
{
    let found = choose|found: Found<C>|
        {
            &&& #[trigger] lines_read(parse, c.incoming, d.incoming, found)
            &&& d == ConnectionView { incoming: d.incoming, ..c }
            &&& action == match found {
                Found::Command(command) => ReadAction::Return(Polled::Ready(Ok(command))),
                Found::Invalid => ReadAction::Return(
                    Polled::Ready(Err(io_error(IoErrorKind::InvalidData, "Invalid UTF-8"@))),
                ),
                Found::Nothing => if d.incoming.len() >= 2048 {
                    ReadAction::Return(
                        Polled::Ready(Err(io_error(IoErrorKind::InvalidData, "Line too long"@))),
                    )
                } else {
                    ReadAction::Read((2048 - d.incoming.len()) as usize)
                },
            }
        };
    lemma_lines_taken(parse, c.incoming, d.incoming, found);
    let ends = choose|ends: Seq<int>|
        lines_taken(parse, c.incoming, ends, found, d.incoming);
    assert(lines_taken(parse, c.incoming, ends, found, d.incoming));
}

proof fn lemma_read_steps<C, P: Fn(&str) -> Option<C>>(
    parse: P,
    c: ConnectionView,
    event: ReadEvent,
    d: ConnectionView,
    action: ReadAction<C>,
)
    requires
        read_step(parse, c, event, d, action),
    ensures
        goes_on_reading(parse, c, event, d, action),
{
    match event {
        ReadEvent::Start => {
            lemma_takes_lines(parse, c, d, action);
        },
        ReadEvent::Read(bytes) => {
            if bytes@.len() > 0 {
                lemma_takes_lines(
                    parse,
                    ConnectionView { incoming: c.incoming + bytes@, ..c },
                    d,
                    action,
                );
            }
        },
        _ => {},
    }
}

/// What each step of reading comes to. In particular the parser is handed each line as
/// it came, but for the white space at its end.
pub proof fn law_steps_of_reading<C, P: Fn(&str) -> Option<C>>(
    conn: &mut IrcServerConnection,
    parse: P,
    event: ReadEvent,
    action: ReadAction<C>,
)
    requires
        call_ensures(IrcServerConnection::poll_read::<C, P>, (conn, &parse, event), action),
    ensures
        goes_on_reading(parse, old(conn)@, event, final(conn)@, action),
{
    lemma_read_steps(parse, old(conn)@, event, final(conn)@, action);
}

proof fn lemma_line_bytes(line: Seq<char>)
    requires
        line.len() > 0,
        line.last() == '\n',
        forall|i: int| 0 <= i < line.len() - 1 ==> line[i] != '\n',
    ensures
        is_line(encode_utf8(line), 0, encode_utf8(line).len() as int),
    decreases line.len(),
{
    let bytes = encode_utf8(line);
    let rest = encode_utf8(line.drop_first());
    encode_utf8_first_scalar(line);
    assert(pop_first_scalar(bytes) =~= rest);
    let n = bytes.len() - rest.len();
    assert forall|i: int| 0 <= i < rest.len() implies rest[i] == #[trigger] bytes[n + i] by {}
    let first = bytes[0];
    assert(first <= 0x7f ==> (first & 0x7f) == first) by (bit_vector);
    if line.len() > 1 {
        lemma_line_bytes(line.drop_first());
        assert forall|i: int| 0 <= i < bytes.len() - 1 implies bytes[i] != 10 by {
            if i >= n {
                assert(rest[i - n] == bytes[n + (i - n)]);
            } else if i == 0 {
                let c = line[0];
                assert(c != '\n');
                if c as u32 == 10 {
                    char_u32_cast(c, 10);
                }
                assert(first <= 0x7f ==> codepoint_width_1(first) == first as u32);
            }
        }
        assert(rest[rest.len() - 1] == bytes[n + (rest.len() - 1)]);
    } else {
        assert(line.drop_first() =~= Seq::empty());
        assert(first == 10);
        assert(n == 1);
    }
}

/// A line that the client sends is handed to the parser as it is: some text, and after
/// it nothing but white space up to the line feed. A carriage return in front of the
/// line feed is such white space. Where the parser takes the line, its command is
/// returned, and what came after the line is left for the next time.
pub proof fn law_lines_are_handed_over_unchanged<C, P: Fn(&str) -> Option<C>>(
    conn: &mut IrcServerConnection,
    parse: P,
    event: ReadEvent,
    action: ReadAction<C>,
    bytes: Seq<u8>,
    text: Seq<char>,
    end: Seq<char>,
    more: Seq<u8>,
)
    requires
        call_ensures(IrcServerConnection::poll_read::<C, P>, (conn, &parse, event), action),
        event is Start && bytes.len() == 0 || event is Read && event->Read_0@ == bytes
            && bytes.len() > 0,
        old(conn)@.incoming + bytes == encode_utf8(text + end) + more,
        forall|i: int| 0 <= i < text.len() ==> text[i] != '\n',
        text.len() > 0 ==> !is_white_space(text.last()),
        end.len() > 0,
        end.last() == '\n',
        forall|i: int| 0 <= i < end.len() ==> is_white_space(#[trigger] end[i]),
        forall|i: int| 0 <= i < end.len() - 1 ==> end[i] != '\n',
    ensures
        exists|line: &str, verdict: Option<C>|
            {
                &&& line@ == text
                &&& #[trigger] call_ensures(parse, (line,), verdict)
                &&& verdict is Some ==> {
                    &&& action == ReadAction::Return(Polled::Ready(Ok(verdict->0)))
                    &&& final(conn)@.incoming == more
                }
            },
{
    let line = text + end;
    let encoded = encode_utf8(line);
    let stream = encoded + more;
    let left = final(conn)@.incoming;
    lemma_line_bytes(line);
    encode_utf8_valid_utf8(line);
    encode_utf8_decode_utf8(line);
    let n = encoded.len() as int;
    assert(old(conn)@.incoming + Seq::<u8>::empty() =~= old(conn)@.incoming);
    assert(bytes.len() == 0 ==> bytes =~= Seq::empty());
    let c = ConnectionView { incoming: stream, ..old(conn)@ };
    assert(after_lines(parse, c, final(conn)@, action));
    lemma_some_line(stream, n - 1);
    lemma_first_line(stream);
    let to = first_line(stream).len() as int;
    assert(to == n) by {
        assert(stream[n - 1] == encoded[n - 1]);
        if to < n {
            assert(stream[to - 1] == encoded[to - 1]);
        }
    }
    assert(first_line(stream) =~= encoded);
    assert(stream.skip(n) =~= more);
    lemma_trimmed_end_of(line, text, end);
    let found = choose|found: Found<C>|
        {
            &&& #[trigger] lines_read(parse, c.incoming, left, found)
            &&& final(conn)@ == ConnectionView { incoming: left, ..c }
            &&& action == match found {
                Found::Command(command) => ReadAction::Return(Polled::Ready(Ok(command))),
                Found::Invalid => ReadAction::Return(
                    Polled::Ready(Err(io_error(IoErrorKind::InvalidData, "Invalid UTF-8"@))),
                ),
                Found::Nothing => if left.len() >= 2048 {
                    ReadAction::Return(
                        Polled::Ready(Err(io_error(IoErrorKind::InvalidData, "Line too long"@))),
                    )
                } else {
                    ReadAction::Read((2048 - left.len()) as usize)
                },
            }
        };
    let (handed, verdict) = choose|handed: &str, verdict: Option<C>|
        {
            &&& handed@ == trimmed_end(decode_utf8(first_line(stream)))
            &&& #[trigger] call_ensures(parse, (handed,), verdict)
            &&& match verdict {
                Some(command) => {
                    left == after_first_line(stream) && found == Found::Command(command)
                },
                None => after_first_line(stream).len() < stream.len() && lines_read(
                    parse,
                    after_first_line(stream),
                    left,
                    found,
                ),
            }
        };
    assert(call_ensures(parse, (handed,), verdict));
}

proof fn lemma_trimmed_end_of(line: Seq<char>, text: Seq<char>, end: Seq<char>)
    requires
        line == text + end,
        forall|i: int| 0 <= i < end.len() ==> is_white_space(#[trigger] end[i]),
        text.len() > 0 ==> !is_white_space(text.last()),
    ensures
        trimmed_end(line) == text,
{
    assert(text =~= line.subrange(0, text.len() as int));
    assert forall|i: int| text.len() <= i < line.len() implies is_white_space(
        #[trigger] line[i],
    ) by {
        assert(line[i] == end[i - text.len()]);
    }
    law_trimmed_end_is_the_only_one(line, text);
}

/// What a step of reading means for who waits for the next command.
pub open spec fn passes_on_reading<C>(
    d: ConnectionView,
    read: ReadAction<C>,
    action: NextAction<C>,
) -> bool {
    match read {
        ReadAction::Read(n) => action == NextAction::<C>::Read(n),
        ReadAction::Return(Polled::Ready(Ok(command))) => action == NextAction::Return(
            Polled::Ready(Some(Ok(command))),
        ),
        ReadAction::Return(Polled::Ready(Err(e))) => action == NextAction::<C>::Return(
            Polled::Ready(Some(Err(e))),
        ),
        ReadAction::Return(Polled::Pending) => if d.closed {
            action == NextAction::<C>::Return(Polled::Ready(None))
        } else {
            action == NextAction::<C>::Return(Polled::Pending)
        },
    }
}

/// What a step of writing, which leaves `m`, means for who waits for the next command:
/// only when nothing is left to write is anything read.
pub open spec fn passes_on_writing<C, P: Fn(&str) -> Option<C>>(
    parse: P,
    m: ConnectionView,
    write: WriteAction,
    d: ConnectionView,
    action: NextAction<C>,
) -> bool {
    match write {
        WriteAction::Write => d == m && action == NextAction::<C>::Write,
        WriteAction::Flush => d == m && action == NextAction::<C>::Flush,
        WriteAction::Return(Polled::Pending) => d == m && action == NextAction::<C>::Return(
            Polled::Pending,
        ),
        WriteAction::Return(Polled::Ready(Err(e))) => d == m && action == NextAction::<C>::Return(
            Polled::Ready(Some(Err(e))),
        ),
        WriteAction::Return(Polled::Ready(Ok(_))) => exists|read: ReadAction<C>| #[trigger]
            goes_on_reading(parse, m, ReadEvent::Start, d, read) && passes_on_reading(
                d,
                read,
                action,
            ),
    }
}

/// What each step towards the next command comes to: first all that is queued is
/// written, then commands are read, and none comes after the client has hung up.
pub proof fn law_steps_towards_commands<C, P: Fn(&str) -> Option<C>>(
    conn: &mut IrcServerConnection,
    parse: P,
    event: NextEvent,
    action: NextAction<C>,
)
    requires
        call_ensures(IrcServerConnection::poll_next::<C, P>, (conn, &parse, event), action),
        0 <= old(conn)@.written <= old(conn)@.outgoing.len(),
    ensures
        match event {
            NextEvent::Start => if old(conn)@.closed {
                final(conn)@ == old(conn)@ && action == NextAction::<C>::Return(
                    Polled::Ready(None),
                )
            } else {
                exists|m: ConnectionView, write: WriteAction| #[trigger]
                    goes_on_writing(old(conn)@, WriteEvent::Start, m, write) && passes_on_writing(
                        parse,
                        m,
                        write,
                        final(conn)@,
                        action,
                    )
            },
            NextEvent::Write(event) => exists|m: ConnectionView, write: WriteAction| #[trigger]
                goes_on_writing(old(conn)@, event, m, write) && passes_on_writing(
                    parse,
                    m,
                    write,
                    final(conn)@,
                    action,
                ),
            NextEvent::Read(event) => exists|read: ReadAction<C>| #[trigger]
                goes_on_reading(parse, old(conn)@, event, final(conn)@, read) && passes_on_reading(
                    final(conn)@,
                    read,
                    action,
                ),
        },
{
    let (c, d) = (old(conn)@, final(conn)@);
    match event {
        NextEvent::Start => {
            if !c.closed {
                lemma_after_write(parse, c, WriteEvent::Start, d, action);
            }
        },
        NextEvent::Write(event) => {
            lemma_after_write(parse, c, event, d, action);
        },
        NextEvent::Read(event) => {
            let read = choose|read: ReadAction<C>|
                #[trigger] read_step(parse, c, event, d, read) && action
                    == crate::irc::transport::after_read(d.closed, read);
            lemma_read_steps(parse, c, event, d, read);
        },
    }
}

proof fn lemma_after_write<C, P: Fn(&str) -> Option<C>>(
    parse: P,
    c: ConnectionView,
    event: WriteEvent,
    d: ConnectionView,
    action: NextAction<C>,
)
    requires
        0 <= c.written <= c.outgoing.len(),
        crate::irc::transport::after_write(
            parse,
            write_step(c, event).0,
            write_step(c, event).1,
            d,
            action,
        ),
    ensures
        exists|m: ConnectionView, write: WriteAction| #[trigger]
            goes_on_writing(c, event, m, write) && passes_on_writing(parse, m, write, d, action),
{
    let (m, write) = write_step(c, event);
    lemma_write_steps(c, event);
    if write is Return && write->Return_0 is Ready && write->Return_0->Ready_0 is Ok {
        let read = choose|read: ReadAction<C>|
            #[trigger] read_step(parse, m, ReadEvent::Start, d, read) && action
                == crate::irc::transport::after_read(d.closed, read);
        lemma_read_steps(parse, m, ReadEvent::Start, d, read);
        assert(goes_on_reading(parse, m, ReadEvent::Start, d, read));
    }
    assert(goes_on_writing(c, event, m, write));
}

} // verus!
