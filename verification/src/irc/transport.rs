//! The lines of an IRC connection: what is queued for the client, and what has
//! come from it.
//!
//! Nothing here touches the socket. Each polling function takes what the last
//! socket operation came to and says which one is next.

use crate::io_error::{io_error, new_io_error, IoErrorKind};
use crate::irc::protocol::Numeric;
use crate::poll::Polled;
use crate::text::{joined, trim, trim_end, trimmed, trimmed_end, utf8_text};
use vstd::prelude::*;
use vstd::string::StringExecFns;
use vstd::utf8::{decode_utf8, encode_utf8, valid_utf8};

verus! {

/// The most bytes that are kept of what the client sent.
pub const READ_LIMIT: usize = 2048;

/// How many names one line of a names reply holds at most.
pub const NAMES_PER_LINE: usize = 10;

/// A connection, as its contracts see it.
#[verifier::ext_equal]
pub ghost struct ConnectionView {
    /// The name that the server goes by.
    pub server_name: Seq<char>,
    /// Bytes from the client that are not yet read as lines.
    pub incoming: Seq<u8>,
    /// Bytes queued for the client, with those already written.
    pub outgoing: Seq<u8>,
    /// How many bytes of the queue are written.
    pub written: int,
    /// The client has hung up.
    pub closed: bool,
}

/// A line as it goes over the wire.
pub open spec fn wire_line(line: Seq<char>) -> Seq<u8> {
    encode_utf8(line).push(10u8)
}

/// Lines as they go over the wire, one after the other.
pub open spec fn wire(lines: Seq<Seq<char>>) -> Seq<u8>
    decreases lines.len(),
{
    if lines.len() == 0 {
        Seq::empty()
    } else {
        wire(lines.drop_last()) + wire_line(lines.last())
    }
}

/// A numeric reply to a nick.
pub open spec fn numeric_line(
    server_name: Seq<char>,
    numeric: Numeric,
    nick: Seq<char>,
    rest_of_line: Seq<char>,
) -> Seq<char> {
    ":"@ + server_name + " "@ + numeric.code() + " "@ + nick + " "@ + rest_of_line
}

/// The greeting that a client gets.
pub open spec fn welcome_lines(server_name: Seq<char>, nick: Seq<char>) -> Seq<Seq<char>> {
    seq![
        numeric_line(
            server_name,
            Numeric::RplWelcome,
            nick,
            ":Welcome to the Matrix Internet Relay Network"@,
        ),
        numeric_line(
            server_name,
            Numeric::RplMotdstart,
            nick,
            ":- "@ + server_name + " Message of the day -"@,
        ),
        numeric_line(server_name, Numeric::RplMotd, nick, ":-"@),
        numeric_line(server_name, Numeric::RplMotd, nick, ":- This is a bridge into Matrix"@),
        numeric_line(server_name, Numeric::RplMotd, nick, ":-"@),
        numeric_line(server_name, Numeric::RplEndofmotd, nick, ":End of MOTD"@),
    ]
}

/// The members of a channel as a names reply lists them: each with a blank
/// behind it, and operators with an `@` in front.
pub open spec fn listed(names: Seq<(Seq<char>, bool)>) -> Seq<char>
    decreases names.len(),
{
    if names.len() == 0 {
        Seq::empty()
    } else {
        listed(names.drop_last()) + (if names.last().1 {
            "@"@
        } else {
            ""@
        }) + names.last().0 + " "@
    }
}

/// What stands behind the nick in one line of a names reply.
pub open spec fn names_text(channel: Seq<char>, names: Seq<(Seq<char>, bool)>) -> Seq<char> {
    trimmed("@ "@ + channel + " :"@ + listed(names))
}

/// How many of the names left go on the next line of a names reply.
pub open spec fn chunk_len(left: nat) -> nat {
    if left < NAMES_PER_LINE {
        left
    } else {
        NAMES_PER_LINE as nat
    }
}

/// The names, cut into the pieces that go on one line each.
pub open spec fn name_chunks(names: Seq<(Seq<char>, bool)>) -> Seq<Seq<(Seq<char>, bool)>>
    decreases names.len(),
{
    if names.len() == 0 {
        Seq::empty()
    } else {
        let n = chunk_len(names.len()) as int;
        seq![names.take(n)] + name_chunks(names.skip(n))
    }
}

/// A names reply.
pub open spec fn names_lines(
    server_name: Seq<char>,
    nick: Seq<char>,
    channel: Seq<char>,
    names: Seq<(Seq<char>, bool)>,
) -> Seq<Seq<char>> {
    name_chunks(names).map_values(
        |chunk: Seq<(Seq<char>, bool)>|
            numeric_line(server_name, Numeric::RplNamreply, nick, names_text(channel, chunk)),
    ).push(
        numeric_line(server_name, Numeric::RplEndofnames, nick, channel + " :End of /NAMES"@),
    )
}

impl ConnectionView {
    /// The bytes that are queued and not yet written.
    pub open spec fn pending(self) -> Seq<u8> {
        self.outgoing.skip(self.written)
    }

    /// The connection with one more line queued.
    pub open spec fn with_line(self, line: Seq<char>) -> ConnectionView {
        ConnectionView { outgoing: self.outgoing + wire_line(line), ..self }
    }

    /// The connection with more lines queued.
    pub open spec fn with_lines(self, lines: Seq<Seq<char>>) -> ConnectionView {
        ConnectionView { outgoing: self.outgoing + wire(lines), ..self }
    }

    /// The connection with a numeric reply queued.
    pub open spec fn with_numeric(
        self,
        numeric: Numeric,
        nick: Seq<char>,
        rest_of_line: Seq<char>,
    ) -> ConnectionView {
        self.with_line(numeric_line(self.server_name, numeric, nick, rest_of_line))
    }
}

proof fn lemma_lines_push(c: ConnectionView, lines: Seq<Seq<char>>, line: Seq<char>)
    ensures
        c.with_lines(lines).with_line(line) == c.with_lines(lines.push(line)),
{
    assert(lines.push(line).drop_last() =~= lines);
    assert(c.outgoing + wire(lines) + wire_line(line) =~= c.outgoing + (wire(lines) + wire_line(
        line,
    )));
}

proof fn lemma_no_lines(c: ConnectionView)
    ensures
        c.with_lines(Seq::empty()) == c,
{
    assert(c.outgoing + Seq::<u8>::empty() =~= c.outgoing);
}

/// What the last step of writing the queue came to.
pub enum WriteEvent {
    /// No step was taken yet.
    Start,
    /// The socket was handed the pending bytes, and took so many.
    Written(Polled<Result<usize, std::io::Error>>),
    /// The socket was flushed.
    Flushed(Polled<Result<(), std::io::Error>>),
}

/// The next step of writing the queue.
pub enum WriteAction {
    /// Hand the pending bytes to the socket.
    Write,
    /// Flush the socket.
    Flush,
    /// Stop, with this result.
    Return(Polled<Result<(), std::io::Error>>),
}

/// One step of writing the queue.
pub open spec fn write_step(c: ConnectionView, event: WriteEvent) -> (ConnectionView, WriteAction) {
    match event {
        WriteEvent::Start | WriteEvent::Flushed(Polled::Ready(Ok(_))) => {
            if c.written == c.outgoing.len() {
                (
                    ConnectionView { outgoing: Seq::empty(), written: 0, ..c },
                    WriteAction::Return(Polled::Ready(Ok(()))),
                )
            } else {
                (c, WriteAction::Write)
            }
        },
        WriteEvent::Written(Polled::Ready(Ok(n))) => {
            (ConnectionView { written: c.written + n, ..c }, WriteAction::Flush)
        },
        WriteEvent::Written(Polled::Ready(Err(e))) => {
            (c, WriteAction::Return(Polled::Ready(Err(e))))
        },
        WriteEvent::Flushed(Polled::Ready(Err(e))) => {
            (c, WriteAction::Return(Polled::Ready(Err(e))))
        },
        WriteEvent::Written(Polled::Pending) | WriteEvent::Flushed(Polled::Pending) => {
            (c, WriteAction::Return(Polled::Pending))
        },
    }
}

/// What the last read came to.
pub enum ReadEvent {
    /// Nothing was read yet.
    Start,
    /// The socket gave these bytes; none means that the client has hung up.
    Read(Vec<u8>),
    /// The socket gave an error.
    Failed { kind: IoErrorKind, error: std::io::Error },
    /// The socket has nothing yet.
    Pending,
}

/// The next step of reading a command.
pub enum ReadAction<C> {
    /// Read so many bytes at most.
    Read(usize),
    /// Stop, with this result.
    Return(Polled<Result<C, std::io::Error>>),
}

/// What reading the lines that have come in turned up.
pub enum Found<C> {
    /// No line is complete.
    Nothing,
    /// A line that is a command.
    Command(C),
    /// A line that is not text.
    Invalid,
}

/// A line ends at this position, and none ends before it.
pub open spec fn first_line_ends_at(bytes: Seq<u8>, at: int) -> bool {
    &&& 0 <= at < bytes.len()
    &&& bytes[at] == 10
    &&& forall|i: int| 0 <= i < at ==> bytes[i] != 10
}

/// Some line is complete.
pub open spec fn has_line(bytes: Seq<u8>) -> bool {
    exists|at: int| first_line_ends_at(bytes, at)
}

/// The first complete line, with its end.
pub open spec fn first_line(bytes: Seq<u8>) -> Seq<u8> {
    bytes.take((choose|at: int| first_line_ends_at(bytes, at)) + 1)
}

/// What comes after the first complete line.
pub open spec fn after_first_line(bytes: Seq<u8>) -> Seq<u8> {
    bytes.skip((choose|at: int| first_line_ends_at(bytes, at)) + 1)
}

/// Reading lines out of `before` leaves `after` and turns up `found`: lines that
/// `parse` does not take are passed over, up to the first command, the first
/// line that is not UTF-8, or the end of the complete lines.
pub open spec fn lines_read<C, P: Fn(&str) -> Option<C>>(
    parse: P,
    before: Seq<u8>,
    after: Seq<u8>,
    found: Found<C>,
) -> bool
    decreases before.len(),
{
    if !has_line(before) {
        after == before && found == Found::<C>::Nothing
    } else if !valid_utf8(first_line(before)) {
        after == after_first_line(before) && found == Found::<C>::Invalid
    } else {
        exists|line: &str, verdict: Option<C>|
            {
                &&& line@ == trimmed_end(decode_utf8(first_line(before)))
                &&& #[trigger] call_ensures(parse, (line,), verdict)
                &&& match verdict {
                    Some(command) => {
                        after == after_first_line(before) && found == Found::Command(command)
                    },
                    None => after_first_line(before).len() < before.len() && lines_read(
                        parse,
                        after_first_line(before),
                        after,
                        found,
                    ),
                }
            }
    }
}

/// The buffer with the room made for a read left in it, filled with zeros.
pub open spec fn padded(incoming: Seq<u8>) -> Seq<u8> {
    if incoming.len() < READ_LIMIT {
        incoming + Seq::new((READ_LIMIT - incoming.len()) as nat, |i: int| 0u8)
    } else {
        incoming.take(READ_LIMIT as int)
    }
}

/// What is done once the lines that have come in are read: a command is
/// returned, a line that is not UTF-8 or has no end within the limit is an
/// error, and otherwise more is read.
pub open spec fn after_lines<C, P: Fn(&str) -> Option<C>>(
    parse: P,
    c: ConnectionView,
    d: ConnectionView,
    action: ReadAction<C>,
) -> bool {
    exists|found: Found<C>|
        {
            &&& #[trigger] lines_read(parse, c.incoming, d.incoming, found)
            &&& d == ConnectionView { incoming: d.incoming, ..c }
            &&& action == match found {
                Found::Command(command) => ReadAction::Return(Polled::Ready(Ok(command))),
                Found::Invalid => ReadAction::Return(
                    Polled::Ready(Err(io_error(IoErrorKind::InvalidData, "Invalid UTF-8"@))),
                ),
                Found::Nothing => if d.incoming.len() >= READ_LIMIT {
                    ReadAction::Return(
                        Polled::Ready(Err(io_error(IoErrorKind::InvalidData, "Line too long"@))),
                    )
                } else {
                    ReadAction::Read((READ_LIMIT - d.incoming.len()) as usize)
                },
            }
        }
}

/// One step of reading a command, from `c` to `d`.
pub open spec fn read_step<C, P: Fn(&str) -> Option<C>>(
    parse: P,
    c: ConnectionView,
    event: ReadEvent,
    d: ConnectionView,
    action: ReadAction<C>,
) -> bool {
    match event {
        ReadEvent::Start => after_lines(parse, c, d, action),
        ReadEvent::Read(bytes) => if bytes@.len() == 0 {
            &&& d == ConnectionView { closed: true, ..c }
            &&& action == ReadAction::<C>::Return(Polled::Pending)
        } else {
            after_lines(
                parse,
                ConnectionView { incoming: c.incoming + bytes@, ..c },
                d,
                action,
            )
        },
        ReadEvent::Failed { kind, error } => if kind == IoErrorKind::WouldBlock {
            &&& d == c
            &&& action == ReadAction::<C>::Return(Polled::Pending)
        } else {
            &&& d == ConnectionView { incoming: padded(c.incoming), ..c }
            &&& action == ReadAction::<C>::Return(Polled::Ready(Err(error)))
        },
        ReadEvent::Pending => {
            &&& d == ConnectionView { incoming: padded(c.incoming), ..c }
            &&& action == ReadAction::<C>::Return(Polled::Pending)
        },
    }
}

/// What the last step towards the next command came to.
pub enum NextEvent {
    /// No step was taken yet.
    Start,
    /// A step of writing.
    Write(WriteEvent),
    /// A step of reading.
    Read(ReadEvent),
}

/// The next step towards the next command.
pub enum NextAction<C> {
    /// Hand the pending bytes to the socket.
    Write,
    /// Flush the socket.
    Flush,
    /// Read so many bytes at most.
    Read(usize),
    /// Stop, with this result; there are no more commands after `None`.
    Return(Polled<Option<Result<C, std::io::Error>>>),
}

/// What a step of reading means for the next command.
pub open spec fn after_read<C>(closed: bool, action: ReadAction<C>) -> NextAction<C> {
    match action {
        ReadAction::Read(n) => NextAction::Read(n),
        ReadAction::Return(Polled::Ready(line)) => NextAction::Return(Polled::Ready(Some(line))),
        ReadAction::Return(Polled::Pending) => if closed {
            NextAction::Return(Polled::Ready(None))
        } else {
            NextAction::Return(Polled::Pending)
        },
    }
}

/// What a step of writing, which left `c`, means for the next command: reading
/// starts once nothing is left to write.
pub open spec fn after_write<C, P: Fn(&str) -> Option<C>>(
    parse: P,
    c: ConnectionView,
    write: WriteAction,
    d: ConnectionView,
    action: NextAction<C>,
) -> bool {
    match write {
        WriteAction::Write => d == c && action == NextAction::<C>::Write,
        WriteAction::Flush => d == c && action == NextAction::<C>::Flush,
        WriteAction::Return(Polled::Pending) => d == c && action == NextAction::<C>::Return(
            Polled::Pending,
        ),
        WriteAction::Return(Polled::Ready(Err(e))) => d == c && action == NextAction::<C>::Return(
            Polled::Ready(Some(Err(e))),
        ),
        WriteAction::Return(Polled::Ready(Ok(_))) => exists|read: ReadAction<C>|
            #[trigger] read_step(parse, c, ReadEvent::Start, d, read) && action == after_read(
                d.closed,
                read,
            ),
    }
}

/// One step towards the next command, from `c` to `d`.
pub open spec fn next_step<C, P: Fn(&str) -> Option<C>>(
    parse: P,
    c: ConnectionView,
    event: NextEvent,
    d: ConnectionView,
    action: NextAction<C>,
) -> bool {
    match event {
        NextEvent::Start => if c.closed {
            d == c && action == NextAction::<C>::Return(Polled::Ready(None))
        } else {
            let (m, write) = write_step(c, WriteEvent::Start);
            after_write(parse, m, write, d, action)
        },
        NextEvent::Write(event) => {
            let (m, write) = write_step(c, event);
            after_write(parse, m, write, d, action)
        },
        NextEvent::Read(event) => exists|read: ReadAction<C>|
            #[trigger] read_step(parse, c, event, d, read) && action == after_read(d.closed, read),
    }
}

proof fn lemma_newline_at(bytes: Seq<u8>, at: int)
    requires
        first_line_ends_at(bytes, at),
    ensures
        has_line(bytes),
        first_line(bytes) == bytes.take(at + 1),
        after_first_line(bytes) == bytes.skip(at + 1),
{
    let other = choose|other: int| first_line_ends_at(bytes, other);
    assert(first_line_ends_at(bytes, other));
    assert(other == at);
}

/// The queue of bytes for the client.
pub struct IrcServerConnectionInner {
    write_buffer: Vec<u8>,
    position: usize,
}

impl IrcServerConnectionInner {
    #[verifier::type_invariant]
    spec fn inv(self) -> bool {
        self.position <= self.write_buffer@.len()
    }

    /// The bytes of the queue.
    pub closed spec fn bytes(self) -> Seq<u8> {
        self.write_buffer@
    }

    /// How many bytes of the queue are written.
    pub closed spec fn written(self) -> int {
        self.position as int
    }

    /// An empty queue.
    pub fn new() -> (r: IrcServerConnectionInner)
        ensures
            r.bytes() == Seq::<u8>::empty(),
            r.written() == 0,
    {
        IrcServerConnectionInner { write_buffer: Vec::with_capacity(1024), position: 0 }
    }

    fn push_line(&mut self, line: &str)
        ensures
            final(self).bytes() == old(self).bytes() + wire_line(line@),
            final(self).written() == old(self).written(),
    {
        proof {
            use_type_invariant(&*self);
        }
        let position: usize = self.position;
        self.position = 0;
        let mut buffer: Vec<u8> = Vec::new();
        std::mem::swap(&mut self.write_buffer, &mut buffer);
        let ghost before = buffer@;
        buffer.extend_from_slice(line.as_bytes());
        assert(buffer@ =~= before + encode_utf8(line@));
        buffer.push(10u8);
        assert(buffer@ =~= before + wire_line(line@));
        self.write_buffer = buffer;
        self.position = position;
    }

    fn pending(&self) -> (r: &[u8])
        ensures
            r@ == self.bytes().skip(self.written()),
    {
        proof {
            use_type_invariant(self);
        }
        let len: usize = self.write_buffer.len();
        let r: &[u8] = vstd::slice::slice_subrange(self.write_buffer.as_slice(), self.position, len);
        assert(r@ =~= self.write_buffer@.skip(self.position as int));
        r
    }

    fn advance(&mut self, n: usize)
        requires
            old(self).written() + n <= old(self).bytes().len(),
        ensures
            final(self).bytes() == old(self).bytes(),
            final(self).written() == old(self).written() + n,
    {
        proof {
            use_type_invariant(&*self);
        }
        let len: usize = self.write_buffer.len();
        assert(self.position + n <= len);
        self.position = self.position + n;
    }

    /// Forgets the queue when all of it is written.
    fn settle(&mut self) -> (done: bool)
        ensures
            done == (old(self).written() == old(self).bytes().len()),
            done ==> final(self).bytes() == Seq::<u8>::empty() && final(self).written() == 0,
            !done ==> *final(self) == *old(self),
    {
        proof {
            use_type_invariant(&*self);
        }
        if self.position == self.write_buffer.len() {
            self.position = 0;
            self.write_buffer = Vec::new();
            true
        } else {
            false
        }
    }
}

/// One IRC connection, seen from the server.
pub struct IrcServerConnection {
    read_buffer: Vec<u8>,
    inner: IrcServerConnectionInner,
    closed: bool,
    server_name: String,
}

impl View for IrcServerConnection {
    type V = ConnectionView;

    closed spec fn view(&self) -> ConnectionView {
        ConnectionView {
            server_name: self.server_name@,
            incoming: self.read_buffer@,
            outgoing: self.inner.bytes(),
            written: self.inner.written(),
            closed: self.closed,
        }
    }
}

/// The texts and marks of a list of channel members.
pub open spec fn member_texts(names: Seq<(String, bool)>) -> Seq<(Seq<char>, bool)> {
    names.map_values(|name: (String, bool)| (name.0@, name.1))
}

impl IrcServerConnection {
    /// A connection on which nothing has happened yet.
    pub fn new(server_name: String) -> (r: IrcServerConnection)
        ensures
            r@ == (ConnectionView {
                server_name: server_name@,
                incoming: Seq::empty(),
                outgoing: Seq::empty(),
                written: 0,
                closed: false,
            }),
    {
        IrcServerConnection {
            read_buffer: Vec::with_capacity(1024),
            inner: IrcServerConnectionInner::new(),
            closed: false,
            server_name,
        }
    }

    /// Queues a line.
    pub fn write_line(&mut self, line: &str)
        ensures
            final(self)@ == old(self)@.with_line(line@),
    {
        self.inner.push_line(line);
    }

    /// Queues the reply to a wrong password.
    pub fn write_invalid_password(&mut self, nick: &str)
        ensures
            final(self)@ == old(self)@.with_numeric(
                Numeric::ErrPasswdmismatch,
                nick@,
                ":Invalid password"@,
            ),
    {
        self.write_numeric(Numeric::ErrPasswdmismatch, nick, ":Invalid password");
    }

    /// Queues the reply to a missing password.
    pub fn write_password_required(&mut self, nick: &str)
        ensures
            final(self)@ == old(self)@.with_numeric(
                Numeric::ErrNeedmoreparams,
                nick@,
                "PASS :Password required"@,
            ),
    {
        self.write_numeric(Numeric::ErrNeedmoreparams, nick, "PASS :Password required");
    }

    /// Queues a numeric reply.
    pub fn write_numeric(&mut self, numeric: Numeric, nick: &str, rest_of_line: &str)
        ensures
            final(self)@ == old(self)@.with_numeric(numeric, nick@, rest_of_line@),
    {
        let mut line: String = joined(":", self.server_name.as_str());
        line.append(" ");
        line.append(numeric.as_str());
        line.append(" ");
        line.append(nick);
        line.append(" ");
        line.append(rest_of_line);
        self.write_line(line.as_str());
    }

    /// Queues the greeting.
    pub fn welcome(&mut self, nick: &str)
        ensures
            final(self)@ == old(self)@.with_lines(
                welcome_lines(old(self)@.server_name, nick@),
            ),
    {
        let ghost start = self@;
        let ghost lines = welcome_lines(start.server_name, nick@);
        proof {
            lemma_no_lines(start);
            assert(lines.take(0) =~= Seq::empty());
            assert forall|i: int| 0 <= i < lines.len() implies #[trigger] start.with_lines(
                lines.take(i),
            ).with_line(lines[i]) == start.with_lines(lines.take(i + 1)) by {
                lemma_lines_push(start, lines.take(i), lines[i]);
                assert(lines.take(i).push(lines[i]) =~= lines.take(i + 1));
            }
            assert(lines.take(6) =~= lines);
        }
        self.write_numeric(
            Numeric::RplWelcome,
            nick,
            ":Welcome to the Matrix Internet Relay Network",
        );
        assert(self@ == start.with_lines(lines.take(0)).with_line(lines[0]));
        let mut motd_start: String = joined(":- ", self.server_name.as_str());
        motd_start.append(" Message of the day -");
        self.write_numeric(Numeric::RplMotdstart, nick, motd_start.as_str());
        assert(self@ == start.with_lines(lines.take(1)).with_line(lines[1]));
        self.write_numeric(Numeric::RplMotd, nick, ":-");
        assert(self@ == start.with_lines(lines.take(2)).with_line(lines[2]));
        self.write_numeric(Numeric::RplMotd, nick, ":- This is a bridge into Matrix");
        assert(self@ == start.with_lines(lines.take(3)).with_line(lines[3]));
        self.write_numeric(Numeric::RplMotd, nick, ":-");
        assert(self@ == start.with_lines(lines.take(4)).with_line(lines[4]));
        self.write_numeric(Numeric::RplEndofmotd, nick, ":End of MOTD");
        assert(self@ == start.with_lines(lines.take(5)).with_line(lines[5]));
    }

    /// Queues the word that a nick has joined a channel.
    pub fn write_join(&mut self, nick: &str, channel: &str)
        ensures
            final(self)@ == old(self)@.with_line(":"@ + nick@ + " JOIN "@ + channel@),
    {
        let mut line: String = joined(":", nick);
        line.append(" JOIN ");
        line.append(channel);
        self.write_line(line.as_str());
    }

    /// Queues the topic of a channel.
    pub fn write_topic(&mut self, nick: &str, channel: &str, topic: &str)
        ensures
            final(self)@ == old(self)@.with_numeric(
                Numeric::RplTopic,
                nick@,
                channel@ + " :"@ + topic@,
            ),
    {
        let mut rest: String = joined(channel, " :");
        rest.append(topic);
        self.write_numeric(Numeric::RplTopic, nick, rest.as_str());
    }

    /// Queues the names reply for a channel, ten names to a line.
    pub fn write_names(&mut self, nick: &str, channel: &str, names: &Vec<(String, bool)>)
        ensures
            final(self)@ == old(self)@.with_lines(
                names_lines(
                    old(self)@.server_name,
                    nick@,
                    channel@,
                    member_texts(names@),
                ),
            ),
    {
        let ghost start = self@;
        let ghost all = member_texts(names@);
        let ghost f = |chunk: Seq<(Seq<char>, bool)>|
            numeric_line(
                start.server_name,
                Numeric::RplNamreply,
                nick@,
                names_text(channel@, chunk),
            );
        let ghost mut done = Seq::<Seq<(Seq<char>, bool)>>::empty();
        let total: usize = names.len();
        let mut i: usize = 0;
        proof {
            lemma_no_lines(start);
            assert(done.map_values(f) =~= Seq::empty());
            assert(all.skip(0) =~= all);
            assert(done + name_chunks(all) =~= name_chunks(all));
        }
        while i < total
            invariant
                i <= total == names@.len(),
                all == member_texts(names@),
                f == (|chunk: Seq<(Seq<char>, bool)>|
                    numeric_line(
                        start.server_name,
                        Numeric::RplNamreply,
                        nick@,
                        names_text(channel@, chunk),
                    )),
                done + name_chunks(all.skip(i as int)) == name_chunks(all),
                self@ == start.with_lines(done.map_values(f)),
            decreases total - i,
        {
            let left: usize = total - i;
            let n: usize = if left < NAMES_PER_LINE {
                left
            } else {
                NAMES_PER_LINE
            };
            let mut line: String = joined("@ ", channel);
            line.append(" :");
            let ghost head = line@;
            let mut j: usize = 0;
            let ghost chunk = all.skip(i as int).take(n as int);
            assert(head + listed(chunk.take(0)) =~= head);
            while j < n
                invariant
                    j <= n,
                    i + n <= total == names@.len(),
                    all == member_texts(names@),
                    chunk == all.skip(i as int).take(n as int),
                    line@ == head + listed(chunk.take(j as int)),
                decreases n - j,
            {
                let name: &(String, bool) = &names[i + j];
                proof {
                    assert(chunk[j as int] == (name.0@, name.1));
                    assert(chunk.take(j + 1).drop_last() =~= chunk.take(j as int));
                    assert(chunk.take(j + 1).last() == chunk[j as int]);
                }
                let mark: &str = if name.1 {
                    "@"
                } else {
                    ""
                };
                line.append(mark);
                line.append(name.0.as_str());
                line.append(" ");
                assert(line@ =~= head + (listed(chunk.take(j as int)) + mark@ + name.0@ + " "@));
                j = j + 1;
            }
            assert(chunk.take(n as int) =~= chunk);
            let text: String = trim(line.as_str());
            self.write_numeric(Numeric::RplNamreply, nick, text.as_str());
            proof {
                let rest = all.skip(i as int);
                assert(chunk_len(rest.len()) == n);
                assert(rest.skip(n as int) =~= all.skip(i + n));
                assert(done + (seq![chunk] + name_chunks(all.skip(i + n))) =~= done.push(chunk)
                    + name_chunks(all.skip(i + n)));
                lemma_lines_push(start, done.map_values(f), f(chunk));
                assert(done.push(chunk).map_values(f) =~= done.map_values(f).push(f(chunk)));
                done = done.push(chunk);
            }
            i = i + n;
        }
        proof {
            assert(done =~= name_chunks(all));
            lemma_lines_push(
                start,
                done.map_values(f),
                numeric_line(
                    start.server_name,
                    Numeric::RplEndofnames,
                    nick@,
                    channel@ + " :End of /NAMES"@,
                ),
            );
        }
        let end: String = joined(channel, " :End of /NAMES");
        self.write_numeric(Numeric::RplEndofnames, nick, end.as_str());
    }

    /// The bytes that are queued and not yet written.
    pub fn pending_bytes(&self) -> (r: &[u8])
        ensures
            r@ == self@.pending(),
    {
        self.inner.pending()
    }

    /// Goes on with writing the queue, given what the last step came to.
    pub fn poll_write(&mut self, event: WriteEvent) -> (action: WriteAction)
        requires
            event matches WriteEvent::Written(Polled::Ready(Ok(n))) ==> old(self)@.written + n
                <= old(self)@.outgoing.len(),
        ensures
            (final(self)@, action) == write_step(old(self)@, event),
    {
        match event {
            WriteEvent::Start | WriteEvent::Flushed(Polled::Ready(Ok(_))) => {
                if self.inner.settle() {
                    WriteAction::Return(Polled::Ready(Ok(())))
                } else {
                    WriteAction::Write
                }
            },
            WriteEvent::Written(Polled::Ready(Ok(n))) => {
                self.inner.advance(n);
                WriteAction::Flush
            },
            WriteEvent::Written(Polled::Ready(Err(e))) => WriteAction::Return(
                Polled::Ready(Err(e)),
            ),
            WriteEvent::Flushed(Polled::Ready(Err(e))) => WriteAction::Return(
                Polled::Ready(Err(e)),
            ),
            WriteEvent::Written(Polled::Pending) | WriteEvent::Flushed(
                Polled::Pending,
            ) => WriteAction::Return(Polled::Pending),
        }
    }

    /// Reads lines out of what has come in until one is a command.
    fn next_command<C, P: Fn(&str) -> Option<C>>(&mut self, parse: &P) -> (found: Found<C>)
        requires
            forall|line: &str| #[trigger] call_requires(*parse, (line,)),
        ensures
            lines_read(*parse, old(self)@.incoming, final(self)@.incoming, found),
            final(self)@ == (ConnectionView { incoming: final(self)@.incoming, ..old(self)@ }),
        decreases old(self)@.incoming.len(),
    {
        let n: usize = self.read_buffer.len();
        let mut at: usize = 0;
        while at < n && self.read_buffer[at] != 10
            invariant
                at <= n == self.read_buffer@.len(),
                forall|i: int| 0 <= i < at ==> self.read_buffer@[i] != 10,
            ensures
                at <= n,
                forall|i: int| 0 <= i < at ==> self.read_buffer@[i] != 10,
                at < n ==> self.read_buffer@[at as int] == 10,
            decreases n - at,
        {
            at = at + 1;
        }
        let ghost before = self.read_buffer@;
        if at == n {
            return Found::Nothing;
        }
        proof {
            lemma_newline_at(before, at as int);
        }
        let mut line: Vec<u8> = Vec::new();
        std::mem::swap(&mut self.read_buffer, &mut line);
        let rest: Vec<u8> = line.split_off(at + 1);
        self.read_buffer = rest;
        assert(line@ =~= before.take(at + 1));
        assert(self.read_buffer@ =~= before.skip(at + 1));
        match utf8_text(line) {
            Some(text) => {
                let text: String = trim_end(text.as_str());
                let line: &str = text.as_str();
                match parse(line) {
                    Some(command) => Found::Command(command),
                    None => self.next_command(parse),
                }
            },
            None => Found::Invalid,
        }
    }

    fn read_lines<C, P: Fn(&str) -> Option<C>>(&mut self, parse: &P) -> (action: ReadAction<C>)
        requires
            forall|line: &str| #[trigger] call_requires(*parse, (line,)),
        ensures
            after_lines(*parse, old(self)@, final(self)@, action),
    {
        let found: Found<C> = self.next_command(parse);
        match found {
            Found::Command(command) => ReadAction::Return(Polled::Ready(Ok(command))),
            Found::Invalid => ReadAction::Return(
                Polled::Ready(
                    Err(new_io_error(IoErrorKind::InvalidData, "Invalid UTF-8".to_owned())),
                ),
            ),
            Found::Nothing => {
                let len: usize = self.read_buffer.len();
                if len >= READ_LIMIT {
                    ReadAction::Return(
                        Polled::Ready(
                            Err(
                                new_io_error(
                                    IoErrorKind::InvalidData,
                                    "Line too long".to_owned(),
                                ),
                            ),
                        ),
                    )
                } else {
                    ReadAction::Read(READ_LIMIT - len)
                }
            },
        }
    }

    /// Goes on with reading commands, given what the last read came to.
    ///
    /// `parse` tells which lines are commands; other lines are passed over.
    pub fn poll_read<C, P: Fn(&str) -> Option<C>>(
        &mut self,
        parse: &P,
        event: ReadEvent,
    ) -> (action: ReadAction<C>)
        requires
            forall|line: &str| #[trigger] call_requires(*parse, (line,)),
        ensures
            read_step(*parse, old(self)@, event, final(self)@, action),
    {
        match event {
            ReadEvent::Start => self.read_lines(parse),
            ReadEvent::Read(bytes) => {
                if bytes.len() == 0 {
                    self.closed = true;
                    ReadAction::Return(Polled::Pending)
                } else {
                    let mut bytes: Vec<u8> = bytes;
                    self.read_buffer.append(&mut bytes);
                    self.read_lines(parse)
                }
            },
            ReadEvent::Failed { kind, error } => {
                if kind == IoErrorKind::WouldBlock {
                    ReadAction::Return(Polled::Pending)
                } else {
                    self.pad();
                    ReadAction::Return(Polled::Ready(Err(error)))
                }
            },
            ReadEvent::Pending => {
                self.pad();
                ReadAction::Return(Polled::Pending)
            },
        }
    }

    /// Leaves the room made for a read in the buffer.
    fn pad(&mut self)
        ensures
            final(self)@ == (ConnectionView {
                incoming: padded(old(self)@.incoming),
                ..old(self)@
            }),
    {
        let ghost before = self.read_buffer@;
        self.read_buffer.resize(READ_LIMIT, 0u8);
        assert(self.read_buffer@ =~= padded(before)) by {
            if before.len() < READ_LIMIT {
                assert forall|i: int| 0 <= i < READ_LIMIT implies self.read_buffer@[i] == padded(
                    before,
                )[i] by {
                    if i < before.len() {
                        assert(self.read_buffer@.subrange(0, before.len() as int)[i] == before[i]);
                    }
                }
            }
        }
    }

    fn next_after_read<C>(&self, action: ReadAction<C>) -> (r: NextAction<C>)
        ensures
            r == after_read(self@.closed, action),
    {
        match action {
            ReadAction::Read(n) => NextAction::Read(n),
            ReadAction::Return(Polled::Ready(line)) => NextAction::Return(
                Polled::Ready(Some(line)),
            ),
            ReadAction::Return(Polled::Pending) => {
                if self.closed {
                    NextAction::Return(Polled::Ready(None))
                } else {
                    NextAction::Return(Polled::Pending)
                }
            },
        }
    }

    fn next_after_write<C, P: Fn(&str) -> Option<C>>(
        &mut self,
        parse: &P,
        action: WriteAction,
    ) -> (r: NextAction<C>)
        requires
            forall|line: &str| #[trigger] call_requires(*parse, (line,)),
        ensures
            after_write(*parse, old(self)@, action, final(self)@, r),
    {
        match action {
            WriteAction::Write => NextAction::Write,
            WriteAction::Flush => NextAction::Flush,
            WriteAction::Return(Polled::Pending) => NextAction::Return(Polled::Pending),
            WriteAction::Return(Polled::Ready(Err(e))) => NextAction::Return(
                Polled::Ready(Some(Err(e))),
            ),
            WriteAction::Return(Polled::Ready(Ok(_))) => {
                let read: ReadAction<C> = self.poll_read(parse, ReadEvent::Start);
                self.next_after_read(read)
            },
        }
    }

    /// Goes on towards the next command: first writes what is queued, then
    /// reads, until the client has hung up.
    pub fn poll_next<C, P: Fn(&str) -> Option<C>>(
        &mut self,
        parse: &P,
        event: NextEvent,
    ) -> (action: NextAction<C>)
        requires
            forall|line: &str| #[trigger] call_requires(*parse, (line,)),
            event matches NextEvent::Write(WriteEvent::Written(Polled::Ready(Ok(n)))) ==> old(
                self,
            )@.written + n <= old(self)@.outgoing.len(),
        ensures
            next_step(*parse, old(self)@, event, final(self)@, action),
    {
        match event {
            NextEvent::Start => {
                if self.closed {
                    NextAction::Return(Polled::Ready(None))
                } else {
                    let write: WriteAction = self.poll_write(WriteEvent::Start);
                    self.next_after_write(parse, write)
                }
            },
            NextEvent::Write(event) => {
                let write: WriteAction = self.poll_write(event);
                self.next_after_write(parse, write)
            },
            NextEvent::Read(event) => {
                let read: ReadAction<C> = self.poll_read(parse, event);
                self.next_after_read(read)
            },
        }
    }
}

} // verus!
