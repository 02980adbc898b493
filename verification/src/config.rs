//! The broker binary's configuration, as plain data.
//!
//! One binary serves three roles: the broker itself, a named command
//! client, and a bare referee client. The command-line front end fills
//! these in; the defaults mirror its documented ones.

use vstd::prelude::*;

verus! {

/// Settings of the broker role: the address both listeners bind.
pub struct BrokerArguments {
    pub address: String,
}

impl Default for BrokerArguments {
    /// The broker listens on every interface by default.
    fn default() -> (r: Self)
        ensures
            r.address@ == "0.0.0.0"@,
    {
        BrokerArguments { address: "0.0.0.0".to_owned() }
    }
}

/// Settings of the command-client role.
pub struct CmdArguments {
    pub address: String,
    pub name: String,
    pub referee: bool,
}

impl Default for CmdArguments {
    /// A command client connects to the local host and is no referee.
    fn default() -> (r: Self)
        ensures
            r.address@ == "127.0.0.1"@,
            r.name@.len() == 0,
            !r.referee,
    {
        CmdArguments { address: "127.0.0.1".to_owned(), name: String::new(), referee: false }
    }
}

/// Settings of the referee role.
pub struct RefereeArguments {
    pub address: String,
}

impl Default for RefereeArguments {
    fn default() -> (r: Self)
        ensures
            r.address@ == "127.0.0.1"@,
    {
        RefereeArguments { address: "127.0.0.1".to_owned() }
    }
}

/// Which role the process plays.
pub enum SubCommand {
    Broker(BrokerArguments),
    Cmd(CmdArguments),
    Referee(RefereeArguments),
}

/// The whole command line: the two ports and the chosen role.
pub struct Arguments {
    pub bot_port: u16,
    pub client_port: u16,
    pub action: SubCommand,
}

impl Arguments {
    /// The default port bots connect to.
    pub fn default_bot_port() -> (p: u16)
        ensures
            p == 9001u16,
    {
        9001
    }

    /// The default port clients connect to.
    pub fn default_client_port() -> (p: u16)
        ensures
            p == 9002u16,
    {
        9002
    }
}

} // verus!
