//! What an IRC user is told, and which names are in use, after each call.

use crate::irc::user::{IrcOutput, IrcUserConnection, OutputView, UserView};
use vstd::prelude::*;

verus! {

/// Contracts see an output with the texts and marks that it holds, each in its place.
pub proof fn law_outputs_are_seen_as_they_are(output: IrcOutput)
    ensures
        match output {
            IrcOutput::Welcome => output@ == OutputView::Welcome,
            IrcOutput::Ping { data } => output@ == OutputView::Ping { data: data@ },
            IrcOutput::CreateUser { nick, user_id } => output@ == OutputView::CreateUser {
                nick: nick@,
                user_id: user_id@,
            },
            IrcOutput::AddChannel { channel, topic, members } => {
                &&& output@ is AddChannel
                &&& output@->AddChannel_channel == channel@
                &&& output@->topic == topic@
                &&& output@->members.len() == members@.len()
                &&& forall|i: int|
                    0 <= i < members@.len() ==> #[trigger] output@->members[i] == (
                        members@[i].0@,
                        members@[i].1,
                    )
            },
            IrcOutput::RedirectJoin { from, to } => output@ == OutputView::RedirectJoin {
                from: from@,
                to: to@,
            },
            IrcOutput::Message { channel, sender, body } => output@ == OutputView::Message {
                channel: channel@,
                sender: sender@,
                body: body@,
            },
            IrcOutput::Action { channel, sender, body } => output@ == OutputView::Action {
                channel: channel@,
                sender: sender@,
                body: body@,
            },
        },
{
}

/// One more output is to be told, behind the others; the user is the same, and so are
/// the names in use.
pub open spec fn only_told(before: UserView, after: UserView, output: OutputView) -> bool {
    &&& after.outputs.len() == before.outputs.len() + 1
    &&& after.outputs.last() == output
    &&& forall|i: int| 0 <= i < before.outputs.len() ==> after.outputs[i] == before.outputs[i]
    &&& after.nicks == before.nicks
    &&& after.channels == before.channels
    &&& after.nick == before.nick
    &&& after.user == before.user
    &&& after.password == before.password
}

/// A message is told with its channel, its sender and its very body, and nothing else
/// happens.
pub proof fn law_messages_are_told(
    user: &mut IrcUserConnection,
    channel: &str,
    sender: &str,
    body: &str,
)
    requires
        call_ensures(IrcUserConnection::send_message, (user, channel, sender, body), ()),
    ensures
        only_told(
            old(user)@,
            final(user)@,
            OutputView::Message { channel: channel@, sender: sender@, body: body@ },
        ),
{
}

/// An action is told with its channel, its sender and its very body, and nothing else
/// happens.
pub proof fn law_actions_are_told(
    user: &mut IrcUserConnection,
    channel: &str,
    sender: &str,
    body: &str,
)
    requires
        call_ensures(IrcUserConnection::send_action, (user, channel, sender, body), ()),
    ensures
        only_told(
            old(user)@,
            final(user)@,
            OutputView::Action { channel: channel@, sender: sender@, body: body@ },
        ),
{
}

/// A redirect is told with the channel asked for and the channel joined, and nothing
/// else happens.
pub proof fn law_redirects_are_told(user: &mut IrcUserConnection, from: &str, to: &str)
    requires
        call_ensures(IrcUserConnection::write_redirect_join, (user, from, to), ()),
    ensures
        only_told(
            old(user)@,
            final(user)@,
            OutputView::RedirectJoin { from: from@, to: to@ },
        ),
{
}

/// A greeting is told, and nothing else happens.
pub proof fn law_greetings_are_told(user: &mut IrcUserConnection)
    requires
        call_ensures(IrcUserConnection::welcome, (user,), ()),
    ensures
        only_told(old(user)@, final(user)@, OutputView::Welcome),
{
}

/// A ping is told with its data, and nothing else happens.
pub proof fn law_pings_are_told(user: &mut IrcUserConnection, data: &str)
    requires
        call_ensures(IrcUserConnection::send_ping, (user, data), ()),
    ensures
        only_told(old(user)@, final(user)@, OutputView::Ping { data: data@ }),
{
}

/// Another user appears under a nick, which is then in use; nothing else happens.
pub proof fn law_users_appear(user: &mut IrcUserConnection, nick: String, user_id: String)
    requires
        call_ensures(IrcUserConnection::create_user, (user, nick, user_id), ()),
    ensures
        only_told(
            UserView { nicks: final(user)@.nicks, ..old(user)@ },
            final(user)@,
            OutputView::CreateUser { nick: nick@, user_id: user_id@ },
        ),
        forall|name: Seq<char>| #[trigger]
            final(user)@.nicks.contains(name) <==> old(user)@.nicks.contains(name) || name == nick@,
{
}

/// The user is put into a channel with its topic and its members, all of them and in
/// order; the channel is then in use, and nothing else happens.
pub proof fn law_channels_appear(
    user: &mut IrcUserConnection,
    channel: String,
    topic: String,
    members: Vec<(String, bool)>,
)
    requires
        call_ensures(IrcUserConnection::add_channel, (user, channel, topic, members), ()),
    ensures
        ({
            let output = final(user)@.outputs.last();
            &&& only_told(
                UserView { channels: final(user)@.channels, ..old(user)@ },
                final(user)@,
                output,
            )
            &&& output is AddChannel
            &&& output->AddChannel_channel == channel@
            &&& output->topic == topic@
            &&& output->members.len() == members@.len()
            &&& forall|i: int|
                0 <= i < members@.len() ==> #[trigger] output->members[i] == (
                    members@[i].0@,
                    members@[i].1,
                )
        }),
        forall|name: Seq<char>| #[trigger]
            final(user)@.channels.contains(name) <==> old(user)@.channels.contains(name) || name
                == channel@,
{
}

/// Taking the outputs gives each of them once, in order, and leaves none; nothing else
/// changes.
pub proof fn law_outputs_are_taken_once(user: &mut IrcUserConnection, r: Vec<IrcOutput>)
    requires
        call_ensures(IrcUserConnection::take_outputs, (user,), r),
    ensures
        r@.len() == old(user)@.outputs.len(),
        forall|i: int| 0 <= i < r@.len() ==> (#[trigger] r@[i])@ == old(user)@.outputs[i],
        final(user)@.outputs.len() == 0,
        final(user)@ == (UserView { outputs: final(user)@.outputs, ..old(user)@ }),
{
    assert forall|i: int| 0 <= i < r@.len() implies (#[trigger] r@[i])@
        == old(user)@.outputs[i] by {
        assert(crate::irc::user::output_views(r@)[i] == r@[i]@);
    }
}

/// A user who has just logged in is known by what they logged in with; no name is in
/// use, and there is nothing to tell.
pub proof fn law_new_users(nick: String, user: String, password: String, r: IrcUserConnection)
    requires
        call_ensures(IrcUserConnection::new, (nick, user, password), r),
    ensures
        r@.nick == nick@,
        r@.user == user@,
        r@.password == password@,
        forall|name: Seq<char>| !r@.nicks.contains(name) && !r@.channels.contains(name),
        r@.outputs.len() == 0,
{
}

/// A user is known by what they logged in with.
pub proof fn law_users_are_known(
    connection: IrcUserConnection,
    nick: &String,
    user: &String,
    password: &String,
)
    requires
        call_ensures(IrcUserConnection::nick, (&connection,), nick),
        call_ensures(IrcUserConnection::user, (&connection,), user),
        call_ensures(IrcUserConnection::password, (&connection,), password),
    ensures
        nick@ == connection@.nick,
        user@ == connection@.user,
        password@ == connection@.password,
{
}

} // verus!
