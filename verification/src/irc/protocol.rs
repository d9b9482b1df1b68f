//! The parts of the IRC protocol that the gateway speaks of.

use vstd::prelude::*;

verus! {

/// The numeric replies that the gateway sends.
#[derive(Debug, Clone, Copy, PartialEq, Eq, Structural)]
pub enum Numeric {
    RplWelcome,
    RplTopic,
    RplNamreply,
    RplEndofnames,
    RplMotd,
    RplMotdstart,
    RplEndofmotd,
    ErrNeedmoreparams,
    ErrPasswdmismatch,
}

impl Numeric {
    /// The three digits of a numeric reply.
    pub open spec fn code(self) -> Seq<char> {
        match self {
            Numeric::RplWelcome => "001"@,
            Numeric::RplTopic => "332"@,
            Numeric::RplNamreply => "353"@,
            Numeric::RplEndofnames => "366"@,
            Numeric::RplMotd => "372"@,
            Numeric::RplMotdstart => "375"@,
            Numeric::RplEndofmotd => "376"@,
            Numeric::ErrNeedmoreparams => "461"@,
            Numeric::ErrPasswdmismatch => "464"@,
        }
    }

    /// The three digits that stand for the reply on the wire.
    pub fn as_str(&self) -> (r: &'static str)
        ensures
            r@ == self.code(),
    {
        match self {
            Numeric::RplWelcome => "001",
            Numeric::RplTopic => "332",
            Numeric::RplNamreply => "353",
            Numeric::RplEndofnames => "366",
            Numeric::RplMotd => "372",
            Numeric::RplMotdstart => "375",
            Numeric::RplEndofmotd => "376",
            Numeric::ErrNeedmoreparams => "461",
            Numeric::ErrPasswdmismatch => "464",
        }
    }
}

/// A command from the IRC client, as far as the bridge acts on it.
#[derive(Debug)]
pub enum IrcCommand {
    /// A message to a channel.
    PrivMsg { channel: String, text: String },
    /// A request to join a channel.
    Join { channel: String },
    /// Any other command, by its name.
    Other { command: String },
}

} // verus!
