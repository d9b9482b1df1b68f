//! The IRC user whose session is bridged: the names that are in use on the
//! server that this user sees, and what is to be told to them.

use crate::irc::transport::member_texts;
use crate::table::{lemma_names_are_finite, NameSet};
use vstd::prelude::*;

verus! {

/// Something that the IRC user's side of the session is to do or to be told.
#[derive(Debug)]
pub enum IrcOutput {
    /// Greet the user.
    Welcome,
    /// Ping the user's client.
    Ping { data: String },
    /// Another user appears on the server.
    CreateUser { nick: String, user_id: String },
    /// The user is in a channel, with this topic and these members; `true` marks
    /// operators.
    AddChannel { channel: String, topic: String, members: Vec<(String, bool)> },
    /// The user who asked for one channel has joined another.
    RedirectJoin { from: String, to: String },
    /// Somebody says something in a channel.
    Message { channel: String, sender: String, body: String },
    /// Somebody does something in a channel.
    Action { channel: String, sender: String, body: String },
}

/// An output, as contracts see it.
pub ghost enum OutputView {
    Welcome,
    Ping { data: Seq<char> },
    CreateUser { nick: Seq<char>, user_id: Seq<char> },
    AddChannel { channel: Seq<char>, topic: Seq<char>, members: Seq<(Seq<char>, bool)> },
    RedirectJoin { from: Seq<char>, to: Seq<char> },
    Message { channel: Seq<char>, sender: Seq<char>, body: Seq<char> },
    Action { channel: Seq<char>, sender: Seq<char>, body: Seq<char> },
}

impl View for IrcOutput {
    type V = OutputView;

    open spec fn view(&self) -> OutputView {
        match *self {
            IrcOutput::Welcome => OutputView::Welcome,
            IrcOutput::Ping { data } => OutputView::Ping { data: data@ },
            IrcOutput::CreateUser { nick, user_id } => OutputView::CreateUser {
                nick: nick@,
                user_id: user_id@,
            },
            IrcOutput::AddChannel { channel, topic, members } => OutputView::AddChannel {
                channel: channel@,
                topic: topic@,
                members: member_texts(members@),
            },
            IrcOutput::RedirectJoin { from, to } => OutputView::RedirectJoin {
                from: from@,
                to: to@,
            },
            IrcOutput::Message { channel, sender, body } => OutputView::Message {
                channel: channel@,
                sender: sender@,
                body: body@,
            },
            IrcOutput::Action { channel, sender, body } => OutputView::Action {
                channel: channel@,
                sender: sender@,
                body: body@,
            },
        }
    }
}

/// A list of outputs, as contracts see it.
pub open spec fn output_views(outputs: Seq<IrcOutput>) -> Seq<OutputView> {
    outputs.map_values(|output: IrcOutput| output@)
}

/// The IRC user's side of a session, as contracts see it.
#[verifier::ext_equal]
pub ghost struct UserView {
    /// The user's own nick.
    pub nick: Seq<char>,
    /// The name that the user logged in with.
    pub user: Seq<char>,
    /// The password that the user logged in with.
    pub password: Seq<char>,
    /// The nicks in use.
    pub nicks: Set<Seq<char>>,
    /// The channels in use.
    pub channels: Set<Seq<char>>,
    /// What is to be done or told, in order.
    pub outputs: Seq<OutputView>,
}

impl UserView {
    /// With one more output.
    pub open spec fn with_output(self, output: OutputView) -> UserView {
        UserView { outputs: self.outputs.push(output), ..self }
    }

    /// With one more user on the server.
    pub open spec fn with_user(self, nick: Seq<char>, user_id: Seq<char>) -> UserView {
        UserView {
            nicks: self.nicks.insert(nick),
            outputs: self.outputs.push(OutputView::CreateUser { nick, user_id }),
            ..self
        }
    }

    /// With one more channel on the server.
    pub open spec fn with_channel(
        self,
        channel: Seq<char>,
        topic: Seq<char>,
        members: Seq<(Seq<char>, bool)>,
    ) -> UserView {
        UserView {
            channels: self.channels.insert(channel),
            outputs: self.outputs.push(OutputView::AddChannel { channel, topic, members }),
            ..self
        }
    }
}

/// The IRC user's side of a session.
pub struct IrcUserConnection {
    nick: String,
    user: String,
    password: String,
    nicks: NameSet,
    channels: NameSet,
    outputs: Vec<IrcOutput>,
}

impl View for IrcUserConnection {
    type V = UserView;

    closed spec fn view(&self) -> UserView {
        UserView {
            nick: self.nick@,
            user: self.user@,
            password: self.password@,
            nicks: self.nicks@,
            channels: self.channels@,
            outputs: output_views(self.outputs@),
        }
    }
}

/// Only so many nicks and channels are in use.
pub proof fn law_names_in_use_are_finite(user: IrcUserConnection)
    ensures
        user@.nicks.finite(),
        user@.channels.finite(),
{
    lemma_names_are_finite(user.nicks);
    lemma_names_are_finite(user.channels);
}

impl IrcUserConnection {
    /// A user who has just logged in: no name is in use yet.
    pub fn new(nick: String, user: String, password: String) -> (r: IrcUserConnection)
        ensures
            r@ == (UserView {
                nick: nick@,
                user: user@,
                password: password@,
                nicks: Set::empty(),
                channels: Set::empty(),
                outputs: Seq::empty(),
            }),
    {
        let r = IrcUserConnection {
            nick,
            user,
            password,
            nicks: NameSet::new(),
            channels: NameSet::new(),
            outputs: Vec::new(),
        };
        assert(output_views(r.outputs@) =~= Seq::empty());
        r
    }

    /// The user's own nick.
    pub fn nick(&self) -> (r: &String)
        ensures
            r@ == self@.nick,
    {
        &self.nick
    }

    /// The name that the user logged in with.
    pub fn user(&self) -> (r: &String)
        ensures
            r@ == self@.user,
    {
        &self.user
    }

    /// The password that the user logged in with.
    pub fn password(&self) -> (r: &String)
        ensures
            r@ == self@.password,
    {
        &self.password
    }

    /// Takes the outputs that have come together.
    pub fn take_outputs(&mut self) -> (r: Vec<IrcOutput>)
        ensures
            output_views(r@) == old(self)@.outputs,
            final(self)@ == (UserView { outputs: Seq::empty(), ..old(self)@ }),
    {
        let mut outputs: Vec<IrcOutput> = Vec::new();
        std::mem::swap(&mut self.outputs, &mut outputs);
        assert(output_views(self.outputs@) =~= Seq::empty());
        outputs
    }

    fn push(&mut self, output: IrcOutput)
        ensures
            final(self)@ == old(self)@.with_output(output@),
    {
        let ghost before = self.outputs@;
        self.outputs.push(output);
        assert(output_views(self.outputs@) =~= output_views(before).push(output@));
    }

    /// Finds a nick that is not in use, close to `base`.
    pub fn unused_nick(&self, base: String) -> (r: String)
        ensures
            r@ == crate::table::unused_name(base@, self@.nicks),
            !self@.nicks.contains(r@),
    {
        self.nicks.unused(base)
    }

    /// Finds a channel that is not in use, close to `base`.
    pub fn unused_channel(&self, base: String) -> (r: String)
        ensures
            r@ == crate::table::unused_name(base@, self@.channels),
            !self@.channels.contains(r@),
    {
        self.channels.unused(base)
    }

    /// Adds a user to the server.
    pub fn create_user(&mut self, nick: String, user_id: String)
        ensures
            final(self)@ == old(self)@.with_user(nick@, user_id@),
    {
        self.nicks.insert(nick.clone());
        self.push(IrcOutput::CreateUser { nick, user_id });
    }

    /// Puts the user into a channel.
    pub fn add_channel(&mut self, channel: String, topic: String, members: Vec<(String, bool)>)
        ensures
            final(self)@ == old(self)@.with_channel(channel@, topic@, member_texts(members@)),
    {
        self.channels.insert(channel.clone());
        self.push(IrcOutput::AddChannel { channel, topic, members });
    }

    /// Tells the user that a join of one channel led to another.
    pub fn write_redirect_join(&mut self, from: &str, to: &str)
        ensures
            final(self)@ == old(self)@.with_output(
                OutputView::RedirectJoin { from: from@, to: to@ },
            ),
    {
        self.push(IrcOutput::RedirectJoin { from: from.to_owned(), to: to.to_owned() });
    }

    /// Tells the user that somebody said something.
    pub fn send_message(&mut self, channel: &str, sender: &str, body: &str)
        ensures
            final(self)@ == old(self)@.with_output(
                OutputView::Message { channel: channel@, sender: sender@, body: body@ },
            ),
    {
        self.push(
            IrcOutput::Message {
                channel: channel.to_owned(),
                sender: sender.to_owned(),
                body: body.to_owned(),
            },
        );
    }

    /// Tells the user that somebody did something.
    pub fn send_action(&mut self, channel: &str, sender: &str, body: &str)
        ensures
            final(self)@ == old(self)@.with_output(
                OutputView::Action { channel: channel@, sender: sender@, body: body@ },
            ),
    {
        self.push(
            IrcOutput::Action {
                channel: channel.to_owned(),
                sender: sender.to_owned(),
                body: body.to_owned(),
            },
        );
    }

    /// Greets the user.
    pub fn welcome(&mut self)
        ensures
            final(self)@ == old(self)@.with_output(OutputView::Welcome),
    {
        self.push(IrcOutput::Welcome);
    }

    /// Pings the user's client.
    pub fn send_ping(&mut self, data: &str)
        ensures
            final(self)@ == old(self)@.with_output(OutputView::Ping { data: data@ }),
    {
        self.push(IrcOutput::Ping { data: data.to_owned() });
    }
}

} // verus!
