//! What a per-connection reader makes of one line, with the line feed
//! already stripped.
//!
//! A bot line is either a `NAME:` claim or a log message. A client line is
//! a `NAME:` claim, the literal `REFEREE`, a one-byte command, or invalid.

use vstd::prelude::*;
use vstd::string::StringSliceAdditionalSpecFns;
use crate::bytes::bytes_eq;
use crate::codec::BotCommand;

verus! {

/// True when the line starts with the claim marker `NAME:`.
pub open spec fn has_name_prefix(line: Seq<u8>) -> bool {
    line.len() >= 5 && line.take(5) == "NAME:".spec_bytes()
}

fn name_prefix_exec(line: &[u8]) -> (r: bool)
    ensures
        r == has_name_prefix(line@),
{
    if line.len() < 5 {
        return false;
    }
    let head = vstd::slice::slice_subrange(line, 0, 5);
    bytes_eq(head, "NAME:".as_bytes())
}

/// What a bot reader submits for one line.
pub enum BotLine {
    /// `NAME:<n>`: the remainder is the proposed name.
    NameClaim(Vec<u8>),
    /// Anything else is a log message fanned out to the clients.
    LogMessage(Vec<u8>),
}

/// Sort one line read from a bot connection.
pub fn parse_bot_line(line: &[u8]) -> (r: BotLine)
    ensures
        has_name_prefix(line@) ==> (r matches BotLine::NameClaim(n) && n@ == line@.skip(5)),
        !has_name_prefix(line@) ==> (r matches BotLine::LogMessage(m) && m@ == line@),
{
    if name_prefix_exec(line) {
        let rest = vstd::slice::slice_subrange(line, 5, line.len());
        BotLine::NameClaim(vstd::slice::slice_to_vec(rest))
    } else {
        BotLine::LogMessage(vstd::slice::slice_to_vec(line))
    }
}

/// What a client reader submits for one line.
pub enum ClientLine {
    /// `NAME:<n>`: the remainder is the proposed name.
    NameClaim(Vec<u8>),
    /// The literal `REFEREE`.
    RefereeClaim,
    /// A one-byte line inside the command alphabet.
    Command(BotCommand),
    /// A one-byte line outside the alphabet; reported and discarded.
    BadByte(Vec<u8>),
    /// Any other line; reported and discarded.
    BadLine(Vec<u8>),
}

/// Sort one line read from a client connection. A `NAME:` claim wins, then
/// the referee claim, then a single byte is decoded as a command.
pub fn parse_client_line(line: &[u8]) -> (r: ClientLine)
    ensures
        has_name_prefix(line@) ==> (r matches ClientLine::NameClaim(n) && n@ == line@.skip(5)),
        !has_name_prefix(line@) && line@ == "REFEREE".spec_bytes() ==> r
            == ClientLine::RefereeClaim,
        !has_name_prefix(line@) && line@ != "REFEREE".spec_bytes() && line@.len() == 1 ==> (match BotCommand::spec_decode(
            line@[0],
        ) {
            Option::Some(c) => r == ClientLine::Command(c),
            Option::None => r matches ClientLine::BadByte(t) && t@ == line@,
        }),
        !has_name_prefix(line@) && line@ != "REFEREE".spec_bytes() && line@.len() != 1 ==> (r
            matches ClientLine::BadLine(t) && t@ == line@),
{
    if name_prefix_exec(line) {
        let rest = vstd::slice::slice_subrange(line, 5, line.len());
        ClientLine::NameClaim(vstd::slice::slice_to_vec(rest))
    } else if bytes_eq(line, "REFEREE".as_bytes()) {
        ClientLine::RefereeClaim
    } else if line.len() == 1 {
        match BotCommand::decode(line[0]) {
            Option::Some(c) => ClientLine::Command(c),
            Option::None => ClientLine::BadByte(vstd::slice::slice_to_vec(line)),
        }
    } else {
        ClientLine::BadLine(vstd::slice::slice_to_vec(line))
    }
}

} // verus!
