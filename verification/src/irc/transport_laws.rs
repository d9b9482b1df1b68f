//! What holds of a connection whatever happens on it.

use crate::io_error::{io_error, IoErrorKind};
use crate::irc::transport::{
    after_first_line, after_lines, chunk_len, first_line, first_line_ends_at, has_line, lines_read,
    name_chunks, next_step, read_step, wire_line, write_step, ConnectionView, Found, NextAction,
    NextEvent, ReadAction, ReadEvent, WriteEvent, NAMES_PER_LINE, READ_LIMIT,
};
use crate::poll::Polled;
use crate::text::trimmed_end;
use vstd::prelude::*;
use vstd::utf8::{decode_utf8, valid_utf8};

verus! {

/// Something that happens to the queue of a connection.
pub ghost enum QueueStep {
    /// A line is queued.
    Line(Seq<char>),
    /// A step of writing.
    Write(WriteEvent),
}

/// The socket never takes more than it was handed.
pub open spec fn step_fits(c: ConnectionView, step: QueueStep) -> bool {
    match step {
        QueueStep::Write(WriteEvent::Written(Polled::Ready(Ok(n)))) => n <= c.pending().len(),
        _ => true,
    }
}

/// The connection after one step.
pub open spec fn after_step(c: ConnectionView, step: QueueStep) -> ConnectionView {
    match step {
        QueueStep::Line(line) => c.with_line(line),
        QueueStep::Write(event) => write_step(c, event).0,
    }
}

/// The bytes that the socket takes in one step.
pub open spec fn taken(c: ConnectionView, step: QueueStep) -> Seq<u8> {
    match step {
        QueueStep::Write(WriteEvent::Written(Polled::Ready(Ok(n)))) => c.pending().take(n as int),
        _ => Seq::empty(),
    }
}

/// The connection after some steps.
pub open spec fn after_steps(c: ConnectionView, steps: Seq<QueueStep>) -> ConnectionView
    decreases steps.len(),
{
    if steps.len() == 0 {
        c
    } else {
        after_step(after_steps(c, steps.drop_last()), steps.last())
    }
}

/// The socket never takes more than it was handed in any of the steps.
pub open spec fn steps_fit(c: ConnectionView, steps: Seq<QueueStep>) -> bool
    decreases steps.len(),
{
    steps.len() > 0 ==> steps_fit(c, steps.drop_last()) && step_fits(
        after_steps(c, steps.drop_last()),
        steps.last(),
    )
}

/// The bytes that the socket takes in all of the steps.
pub open spec fn all_taken(c: ConnectionView, steps: Seq<QueueStep>) -> Seq<u8>
    decreases steps.len(),
{
    if steps.len() == 0 {
        Seq::empty()
    } else {
        all_taken(c, steps.drop_last()) + taken(after_steps(c, steps.drop_last()), steps.last())
    }
}

/// The bytes of the lines queued in the steps.
pub open spec fn all_queued(steps: Seq<QueueStep>) -> Seq<u8>
    decreases steps.len(),
{
    if steps.len() == 0 {
        Seq::empty()
    } else {
        all_queued(steps.drop_last()) + (match steps.last() {
            QueueStep::Line(line) => wire_line(line),
            _ => Seq::empty(),
        })
    }
}

/// Every byte that is queued reaches the socket once, in the order in which it
/// was queued: what the socket has taken, followed by what is still pending, is
/// what was pending at first, followed by the lines queued since.
pub proof fn law_bytes_leave_once_and_in_order(c: ConnectionView, steps: Seq<QueueStep>)
    requires
        0 <= c.written <= c.outgoing.len(),
        steps_fit(c, steps),
    ensures
        all_taken(c, steps) + after_steps(c, steps).pending() == c.pending() + all_queued(steps),
        0 <= after_steps(c, steps).written <= after_steps(c, steps).outgoing.len(),
    decreases steps.len(),
{
    if steps.len() == 0 {
        assert(Seq::<u8>::empty() + c.pending() =~= c.pending() + Seq::<u8>::empty());
    } else {
        let front = steps.drop_last();
        law_bytes_leave_once_and_in_order(c, front);
        let m = after_steps(c, front);
        let sent = all_taken(c, front);
        let d = after_step(m, steps.last());
        match steps.last() {
            QueueStep::Line(line) => {
                assert(d.pending() =~= m.pending() + wire_line(line));
                assert(sent + Seq::<u8>::empty() + d.pending() =~= (sent + m.pending()) + wire_line(
                    line,
                ));
                assert(c.pending() + (all_queued(front) + wire_line(line)) =~= c.pending()
                    + all_queued(front) + wire_line(line));
            },
            QueueStep::Write(event) => {
                assert(taken(m, steps.last()) + d.pending() =~= m.pending());
                assert(sent + taken(m, steps.last()) + d.pending() =~= sent + (taken(
                    m,
                    steps.last(),
                ) + d.pending()));
                assert(all_queued(front) + Seq::<u8>::empty() =~= all_queued(front));
            },
        }
    }
}

/// Lines leave the buffer whole: what is left is a tail of what was there, and
/// what is gone ends where a line ends.
pub proof fn law_lines_are_read_whole<C, P: Fn(&str) -> Option<C>>(
    parse: P,
    before: Seq<u8>,
    after: Seq<u8>,
    found: Found<C>,
)
    requires
        lines_read(parse, before, after, found),
    ensures
        exists|n: int|
            0 <= n <= before.len() && after == #[trigger] before.skip(n) && (n > 0 ==> before[n - 1]
                == 10),
        found is Nothing ==> !has_line(after),
    decreases before.len(),
{
    if !has_line(before) {
        assert(after =~= before.skip(0));
    } else {
        let at = choose|at: int| first_line_ends_at(before, at);
        assert(first_line_ends_at(before, at));
        let rest = after_first_line(before);
        assert(rest == before.skip(at + 1));
        if after == rest && !(found is Nothing) {
            assert(before[at + 1 - 1] == 10);
        } else {
            law_lines_are_read_whole(parse, rest, after, found);
            let n = choose|n: int|
                0 <= n <= rest.len() && after == #[trigger] rest.skip(n) && (n > 0 ==> rest[n - 1]
                    == 10);
            assert(rest.skip(n) =~= before.skip(at + 1 + n));
            assert(n > 0 ==> rest[n - 1] == before[at + 1 + n - 1]);
        }
    }
}

proof fn lemma_first_line_of_more(bytes: Seq<u8>, more: Seq<u8>)
    requires
        has_line(bytes),
    ensures
        has_line(bytes + more),
        first_line(bytes + more) == first_line(bytes),
        after_first_line(bytes + more) == after_first_line(bytes) + more,
        after_first_line(bytes).len() < bytes.len(),
{
    let at = choose|at: int| first_line_ends_at(bytes, at);
    assert(first_line_ends_at(bytes, at));
    let all = bytes + more;
    assert(first_line_ends_at(all, at));
    let other = choose|other: int| first_line_ends_at(all, other);
    assert(first_line_ends_at(all, other));
    assert(other == at);
    assert(all.take(at + 1) =~= bytes.take(at + 1));
    assert(all.skip(at + 1) =~= bytes.skip(at + 1) + more);
}

/// What is read from some bytes does not depend on what comes after them: the
/// command or the error that they hold is the same with `more` behind them.
pub proof fn law_later_bytes_change_nothing<C, P: Fn(&str) -> Option<C>>(
    parse: P,
    bytes: Seq<u8>,
    more: Seq<u8>,
    rest: Seq<u8>,
    found: Found<C>,
)
    requires
        lines_read(parse, bytes, rest, found),
        !(found is Nothing),
    ensures
        lines_read(parse, bytes + more, rest + more, found),
    decreases bytes.len(),
{
    lemma_first_line_of_more(bytes, more);
    if valid_utf8(first_line(bytes)) {
        let (line, verdict) = choose|line: &str, verdict: Option<C>|
            {
                &&& line@ == trimmed_end(decode_utf8(first_line(bytes)))
                &&& #[trigger] call_ensures(parse, (line,), verdict)
                &&& match verdict {
                    Some(command) => {
                        rest == after_first_line(bytes) && found == Found::Command(command)
                    },
                    None => after_first_line(bytes).len() < bytes.len() && lines_read(
                        parse,
                        after_first_line(bytes),
                        rest,
                        found,
                    ),
                }
            };
        if verdict is None {
            law_later_bytes_change_nothing(parse, after_first_line(bytes), more, rest, found);
        }
        assert(call_ensures(parse, (line,), verdict));
    }
}

/// Bytes may come in pieces: where the first piece holds no command, what is read
/// from its rest with the second piece behind it is what is read from both pieces
/// at once.
pub proof fn law_bytes_may_come_in_pieces<C, P: Fn(&str) -> Option<C>>(
    parse: P,
    first: Seq<u8>,
    rest: Seq<u8>,
    second: Seq<u8>,
    after: Seq<u8>,
    found: Found<C>,
)
    requires
        lines_read(parse, first, rest, Found::<C>::Nothing),
        lines_read(parse, rest + second, after, found),
    ensures
        lines_read(parse, first + second, after, found),
    decreases first.len(),
{
    if has_line(first) {
        lemma_first_line_of_more(first, second);
        let (line, verdict) = choose|line: &str, verdict: Option<C>|
            {
                &&& line@ == trimmed_end(decode_utf8(first_line(first)))
                &&& #[trigger] call_ensures(parse, (line,), verdict)
                &&& match verdict {
                    Some(command) => {
                        rest == after_first_line(first) && Found::<C>::Nothing == Found::Command(
                            command,
                        )
                    },
                    None => after_first_line(first).len() < first.len() && lines_read(
                        parse,
                        after_first_line(first),
                        rest,
                        Found::<C>::Nothing,
                    ),
                }
            };
        law_bytes_may_come_in_pieces(
            parse,
            after_first_line(first),
            rest,
            second,
            after,
            found,
        );
        assert(call_ensures(parse, (line,), verdict));
    }
}

/// Reading all that some bytes hold turns up `found`, one after the other, and
/// leaves `after`.
pub open spec fn all_read<C, P: Fn(&str) -> Option<C>>(
    parse: P,
    before: Seq<u8>,
    found: Seq<Found<C>>,
    after: Seq<u8>,
) -> bool
    decreases found.len(),
{
    if found.len() == 0 {
        lines_read(parse, before, after, Found::<C>::Nothing)
    } else {
        &&& !(found[0] is Nothing)
        &&& exists|rest: Seq<u8>| #[trigger]
            lines_read(parse, before, rest, found[0]) && all_read(
                parse,
                rest,
                found.drop_first(),
                after,
            )
    }
}

proof fn lemma_reads_add_up<C, P: Fn(&str) -> Option<C>>(
    parse: P,
    first: Seq<u8>,
    found: Seq<Found<C>>,
    rest: Seq<u8>,
    second: Seq<u8>,
    more: Seq<Found<C>>,
    after: Seq<u8>,
)
    requires
        all_read(parse, first, found, rest),
        all_read(parse, rest + second, more, after),
    ensures
        all_read(parse, first + second, found + more, after),
    decreases found.len(),
{
    let both = found + more;
    if found.len() == 0 {
        assert(both =~= more);
        if more.len() == 0 {
            law_bytes_may_come_in_pieces(
                parse,
                first,
                rest,
                second,
                after,
                Found::<C>::Nothing,
            );
        } else {
            let left = choose|left: Seq<u8>| #[trigger]
                lines_read(parse, rest + second, left, more[0]) && all_read(
                    parse,
                    left,
                    more.drop_first(),
                    after,
                );
            law_bytes_may_come_in_pieces(parse, first, rest, second, left, more[0]);
        }
    } else {
        let left = choose|left: Seq<u8>| #[trigger]
            lines_read(parse, first, left, found[0]) && all_read(
                parse,
                left,
                found.drop_first(),
                rest,
            );
        law_later_bytes_change_nothing(parse, first, second, left, found[0]);
        lemma_reads_add_up(parse, left, found.drop_first(), rest, second, more, after);
        assert(both.drop_first() =~= found.drop_first() + more);
        assert(lines_read(parse, first + second, left + second, both[0]));
    }
}

/// Reading all that some pieces hold, each once it has come, turns up `found`, piece
/// by piece, and leaves `after`.
pub open spec fn pieces_read<C, P: Fn(&str) -> Option<C>>(
    parse: P,
    pieces: Seq<Seq<u8>>,
    found: Seq<Seq<Found<C>>>,
    after: Seq<u8>,
) -> bool
    decreases pieces.len(),
{
    &&& found.len() == pieces.len()
    &&& if pieces.len() == 0 {
        after == Seq::<u8>::empty()
    } else {
        exists|rest: Seq<u8>|
            pieces_read(parse, pieces.drop_last(), found.drop_last(), rest) && all_read(
                parse,
                #[trigger] (rest + pieces.last()),
                found.last(),
                after,
            )
    }
}

/// What is read from a whole stream does not depend on how it is cut: what the pieces
/// turn up, each as it comes, is what all of them turn up at once, in the same order.
pub proof fn law_streams_may_be_cut_anywhere<C, P: Fn(&str) -> Option<C>>(
    parse: P,
    pieces: Seq<Seq<u8>>,
    found: Seq<Seq<Found<C>>>,
    after: Seq<u8>,
)
    requires
        pieces_read(parse, pieces, found, after),
    ensures
        all_read(parse, pieces.flatten_alt(), found.flatten_alt(), after),
    decreases pieces.len(),
{
    if pieces.len() == 0 {
        assert(!has_line(Seq::<u8>::empty()));
    } else {
        let rest = choose|rest: Seq<u8>|
            pieces_read(parse, pieces.drop_last(), found.drop_last(), rest) && all_read(
                parse,
                #[trigger] (rest + pieces.last()),
                found.last(),
                after,
            );
        law_streams_may_be_cut_anywhere(parse, pieces.drop_last(), found.drop_last(), rest);
        lemma_reads_add_up(
            parse,
            pieces.drop_last().flatten_alt(),
            found.drop_last().flatten_alt(),
            rest,
            pieces.last(),
            found.last(),
            after,
        );
    }
}

/// The buffer never outgrows its limit as long as each read gives no more bytes
/// than were asked for, and a read is always asked to fill what room is left.
pub proof fn law_incoming_stays_bounded<C, P: Fn(&str) -> Option<C>>(
    parse: P,
    c: ConnectionView,
    event: ReadEvent,
    d: ConnectionView,
    action: ReadAction<C>,
)
    requires
        read_step(parse, c, event, d, action),
    ensures
        ({
            &&& c.incoming.len() <= READ_LIMIT
            &&& event matches ReadEvent::Read(bytes) ==> c.incoming.len() + bytes@.len()
                <= READ_LIMIT
        }) ==> d.incoming.len() <= READ_LIMIT,
        action matches ReadAction::Read(n) ==> n > 0 && d.incoming.len() + n == READ_LIMIT,
        action matches ReadAction::Read(n) ==> !has_line(d.incoming),
{
    match event {
        ReadEvent::Start => {
            lemma_after_lines_bounded(parse, c, d, action);
        },
        ReadEvent::Read(bytes) => {
            if bytes@.len() > 0 {
                lemma_after_lines_bounded(
                    parse,
                    ConnectionView { incoming: c.incoming + bytes@, ..c },
                    d,
                    action,
                );
            }
        },
        _ => {},
    }
}

proof fn lemma_after_lines_bounded<C, P: Fn(&str) -> Option<C>>(
    parse: P,
    c: ConnectionView,
    d: ConnectionView,
    action: ReadAction<C>,
)
    requires
        after_lines(parse, c, d, action),
    ensures
        d.incoming.len() <= c.incoming.len(),
        action matches ReadAction::Read(n) ==> n > 0 && d.incoming.len() + n == READ_LIMIT,
        action matches ReadAction::Read(n) ==> !has_line(d.incoming),
{
    let found = choose|found: Found<C>|
        {
            &&& #[trigger] lines_read(parse, c.incoming, d.incoming, found)
            &&& d == ConnectionView { incoming: d.incoming, ..c }
            &&& action == match found {
                Found::Command(command) => ReadAction::Return(Polled::Ready(Ok(command))),
                Found::Invalid => ReadAction::Return(
                    Polled::Ready(Err(io_error(IoErrorKind::InvalidData, "Invalid UTF-8"@))),
                ),
                Found::Nothing => if d.incoming.len() >= READ_LIMIT {
                    ReadAction::Return(
                        Polled::Ready(Err(io_error(IoErrorKind::InvalidData, "Line too long"@))),
                    )
                } else {
                    ReadAction::Read((READ_LIMIT - d.incoming.len()) as usize)
                },
            }
        };
    law_lines_are_read_whole(parse, c.incoming, d.incoming, found);
}

/// While no line is complete, it does not matter how the bytes are cut into
/// reads: two reads come to the same as one read of both.
pub proof fn law_split_reads_agree<C, P: Fn(&str) -> Option<C>>(
    parse: P,
    c: ConnectionView,
    first: Vec<u8>,
    second: Vec<u8>,
    both: Vec<u8>,
    m: ConnectionView,
    between: ReadAction<C>,
    d: ConnectionView,
    action: ReadAction<C>,
)
    requires
        first@.len() > 0,
        second@.len() > 0,
        both@ == first@ + second@,
        !has_line(c.incoming + first@),
        (c.incoming + first@).len() < READ_LIMIT,
        read_step(parse, c, ReadEvent::Read(first), m, between),
    ensures
        between is Read,
        read_step(parse, m, ReadEvent::Read(second), d, action) == read_step(
            parse,
            c,
            ReadEvent::Read(both),
            d,
            action,
        ),
{
    assert(m == ConnectionView { incoming: c.incoming + first@, ..c });
    assert(c.incoming + first@ + second@ =~= c.incoming + both@);
    assert(ConnectionView { incoming: m.incoming + second@, ..m } == ConnectionView {
        incoming: c.incoming + both@,
        ..c
    });
}

/// A read that the socket leaves pending fills the buffer, so that the next
/// attempt to read ends the connection with an error.
pub proof fn law_pending_read_fills_the_buffer<C, P: Fn(&str) -> Option<C>>(
    parse: P,
    c: ConnectionView,
    d: ConnectionView,
    pending: ReadAction<C>,
    e: ConnectionView,
    action: ReadAction<C>,
)
    requires
        !has_line(c.incoming),
        read_step(parse, c, ReadEvent::Pending, d, pending),
        read_step(parse, d, ReadEvent::Start, e, action),
    ensures
        action == ReadAction::<C>::Return(
            Polled::Ready(Err(io_error(IoErrorKind::InvalidData, "Line too long"@))),
        ),
{
    assert(!has_line(d.incoming)) by {
        if has_line(d.incoming) {
            let at = choose|at: int| first_line_ends_at(d.incoming, at);
            assert(first_line_ends_at(d.incoming, at));
            assert(at < c.incoming.len());
            assert forall|i: int| 0 <= i < at implies c.incoming[i] != 10 by {
                assert(d.incoming[i] == c.incoming[i]);
            }
            assert(first_line_ends_at(c.incoming, at));
        }
    }
}

/// Once the client has hung up there are no more commands, and it stays so.
pub proof fn law_hung_up_is_final<C, P: Fn(&str) -> Option<C>>(
    parse: P,
    c: ConnectionView,
    event: NextEvent,
    d: ConnectionView,
    action: NextAction<C>,
)
    requires
        c.closed,
        next_step(parse, c, event, d, action),
    ensures
        d.closed,
        event is Start ==> d == c && action == NextAction::<C>::Return(Polled::Ready(None)),
{
}

/// The pieces put together again.
pub open spec fn flattened<T>(pieces: Seq<Seq<T>>) -> Seq<T>
    decreases pieces.len(),
{
    if pieces.len() == 0 {
        Seq::empty()
    } else {
        pieces.first() + flattened(pieces.drop_first())
    }
}

/// A names reply lists every name once and in order, with at least one name and
/// no more than the limit on each line.
pub proof fn law_names_reply_is_complete(names: Seq<(Seq<char>, bool)>)
    ensures
        flattened(name_chunks(names)) == names,
        forall|i: int|
            0 <= i < name_chunks(names).len() ==> 1 <= (#[trigger] name_chunks(names)[i]).len()
                <= NAMES_PER_LINE,
    decreases names.len(),
{
    if names.len() > 0 {
        let n = chunk_len(names.len()) as int;
        let rest = names.skip(n);
        law_names_reply_is_complete(rest);
        let chunks = name_chunks(names);
        assert(chunks.first() == names.take(n));
        assert(chunks.drop_first() =~= name_chunks(rest));
        assert(names.take(n) + rest =~= names);
        assert forall|i: int| 0 <= i < chunks.len() implies 1 <= (#[trigger] chunks[i]).len()
            <= NAMES_PER_LINE by {
            if i > 0 {
                assert(chunks[i] == name_chunks(rest)[i - 1]);
            }
        }
    }
}

} // verus!
