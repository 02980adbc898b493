//! Every line the broker prints or writes to a peer, as a spec-level byte
//! sequence and a verified builder.
//!
//! A `now` or `time` argument is the rendered local-time stamp the caller
//! obtained when the action was handled; `label` and `info` arguments are
//! peer descriptions from the registry.

use vstd::prelude::*;
use vstd::string::StringSliceAdditionalSpecFns;
use crate::bytes::{append_bytes, dec_digits, decimal_bytes};

verus! {

/// A single line feed, the only framing of the wire protocol.
pub open spec fn lf() -> Seq<u8> {
    seq![10u8]
}

pub open spec fn bot_removed_line(now: Seq<u8>, label: Seq<u8>) -> Seq<u8> {
    now + ": disconnected bot ".spec_bytes() + label + lf()
}

pub fn bot_removed_line_bytes(now: &[u8], label: &[u8]) -> (r: Vec<u8>)
    ensures
        r@ == bot_removed_line(now@, label@),
{
    let mut r = vstd::slice::slice_to_vec(now);
    append_bytes(&mut r, ": disconnected bot ".as_bytes());
    append_bytes(&mut r, label);
    r.push(10);
    proof {
        assert(r@ =~= bot_removed_line(now@, label@));
    }
    r
}

pub open spec fn client_removed_line(now: Seq<u8>, label: Seq<u8>) -> Seq<u8> {
    now + ": disconnected client ".spec_bytes() + label + lf()
}

pub fn client_removed_line_bytes(now: &[u8], label: &[u8]) -> (r: Vec<u8>)
    ensures
        r@ == client_removed_line(now@, label@),
{
    let mut r = vstd::slice::slice_to_vec(now);
    append_bytes(&mut r, ": disconnected client ".as_bytes());
    append_bytes(&mut r, label);
    r.push(10);
    proof {
        assert(r@ =~= client_removed_line(now@, label@));
    }
    r
}

pub open spec fn removing_bot_line(now: Seq<u8>, label: Seq<u8>) -> Seq<u8> {
    now + ": removing bot ".spec_bytes() + label + lf()
}

pub fn removing_bot_line_bytes(now: &[u8], label: &[u8]) -> (r: Vec<u8>)
    ensures
        r@ == removing_bot_line(now@, label@),
{
    let mut r = vstd::slice::slice_to_vec(now);
    append_bytes(&mut r, ": removing bot ".as_bytes());
    append_bytes(&mut r, label);
    r.push(10);
    proof {
        assert(r@ =~= removing_bot_line(now@, label@));
    }
    r
}

pub open spec fn removing_client_line(now: Seq<u8>, label: Seq<u8>) -> Seq<u8> {
    now + ": removing client ".spec_bytes() + label + lf()
}

pub fn removing_client_line_bytes(now: &[u8], label: &[u8]) -> (r: Vec<u8>)
    ensures
        r@ == removing_client_line(now@, label@),
{
    let mut r = vstd::slice::slice_to_vec(now);
    append_bytes(&mut r, ": removing client ".as_bytes());
    append_bytes(&mut r, label);
    r.push(10);
    proof {
        assert(r@ =~= removing_client_line(now@, label@));
    }
    r
}

/// `warning: <count> bots identified as '<name>'`, stamped.
pub open spec fn warning_bots_line(now: Seq<u8>, count: nat, name: Seq<u8>) -> Seq<u8> {
    now + ": warning: ".spec_bytes() + dec_digits(count) + " bots identified as '".spec_bytes()
        + name + "'".spec_bytes() + lf()
}

pub fn warning_bots_line_bytes(now: &[u8], count: usize, name: &[u8]) -> (r: Vec<u8>)
    ensures
        r@ == warning_bots_line(now@, count as nat, name@),
{
    let mut r = vstd::slice::slice_to_vec(now);
    append_bytes(&mut r, ": warning: ".as_bytes());
    let digits = decimal_bytes(count);
    append_bytes(&mut r, digits.as_slice());
    append_bytes(&mut r, " bots identified as '".as_bytes());
    append_bytes(&mut r, name);
    append_bytes(&mut r, "'".as_bytes());
    r.push(10);
    proof {
        assert(r@ =~= warning_bots_line(now@, count as nat, name@));
    }
    r
}

pub open spec fn warning_clients_line(now: Seq<u8>, count: nat, name: Seq<u8>) -> Seq<u8> {
    now + ": warning: ".spec_bytes() + dec_digits(count) + " clients identified as '".spec_bytes()
        + name + "'".spec_bytes() + lf()
}

pub fn warning_clients_line_bytes(now: &[u8], count: usize, name: &[u8]) -> (r: Vec<u8>)
    ensures
        r@ == warning_clients_line(now@, count as nat, name@),
{
    let mut r = vstd::slice::slice_to_vec(now);
    append_bytes(&mut r, ": warning: ".as_bytes());
    let digits = decimal_bytes(count);
    append_bytes(&mut r, digits.as_slice());
    append_bytes(&mut r, " clients identified as '".as_bytes());
    append_bytes(&mut r, name);
    append_bytes(&mut r, "'".as_bytes());
    r.push(10);
    proof {
        assert(r@ =~= warning_clients_line(now@, count as nat, name@));
    }
    r
}

/// Stdout record of a bot claim that found a matching client.
pub open spec fn bot_claim_client_line(
    now: Seq<u8>,
    baddr: Seq<u8>,
    name: Seq<u8>,
    caddr: Seq<u8>,
) -> Seq<u8> {
    now + ": bot at address ".spec_bytes() + baddr + " claims name '".spec_bytes() + name
        + "' and connects to client at address ".spec_bytes() + caddr + lf()
}

pub fn bot_claim_client_line_bytes(now: &[u8], baddr: &[u8], name: &[u8], caddr: &[u8]) -> (r: Vec<
    u8,
>)
    ensures
        r@ == bot_claim_client_line(now@, baddr@, name@, caddr@),
{
    let mut r = vstd::slice::slice_to_vec(now);
    append_bytes(&mut r, ": bot at address ".as_bytes());
    append_bytes(&mut r, baddr);
    append_bytes(&mut r, " claims name '".as_bytes());
    append_bytes(&mut r, name);
    append_bytes(&mut r, "' and connects to client at address ".as_bytes());
    append_bytes(&mut r, caddr);
    r.push(10);
    proof {
        assert(r@ =~= bot_claim_client_line(now@, baddr@, name@, caddr@));
    }
    r
}

/// Stdout record of a bot claim that found no matching client.
pub open spec fn bot_claim_alone_line(now: Seq<u8>, baddr: Seq<u8>, name: Seq<u8>) -> Seq<u8> {
    now + ": bot at address ".spec_bytes() + baddr + " claims name '".spec_bytes() + name
        + "' (no client)".spec_bytes() + lf()
}

pub fn bot_claim_alone_line_bytes(now: &[u8], baddr: &[u8], name: &[u8]) -> (r: Vec<u8>)
    ensures
        r@ == bot_claim_alone_line(now@, baddr@, name@),
{
    let mut r = vstd::slice::slice_to_vec(now);
    append_bytes(&mut r, ": bot at address ".as_bytes());
    append_bytes(&mut r, baddr);
    append_bytes(&mut r, " claims name '".as_bytes());
    append_bytes(&mut r, name);
    append_bytes(&mut r, "' (no client)".as_bytes());
    r.push(10);
    proof {
        assert(r@ =~= bot_claim_alone_line(now@, baddr@, name@));
    }
    r
}

/// What each matching client is told when a bot claims its name.
pub open spec fn connected_line(now: Seq<u8>, baddr: Seq<u8>) -> Seq<u8> {
    now + ": connected with bot at address ".spec_bytes() + baddr + lf()
}

pub fn connected_line_bytes(now: &[u8], baddr: &[u8]) -> (r: Vec<u8>)
    ensures
        r@ == connected_line(now@, baddr@),
{
    let mut r = vstd::slice::slice_to_vec(now);
    append_bytes(&mut r, ": connected with bot at address ".as_bytes());
    append_bytes(&mut r, baddr);
    r.push(10);
    proof {
        assert(r@ =~= connected_line(now@, baddr@));
    }
    r
}

/// Record of a client claim that found a matching bot.
pub open spec fn client_claim_bot_line(
    now: Seq<u8>,
    caddr: Seq<u8>,
    name: Seq<u8>,
    baddr: Seq<u8>,
) -> Seq<u8> {
    now + ": client at address ".spec_bytes() + caddr + " claims name ".spec_bytes() + name
        + " and connects to bot at address ".spec_bytes() + baddr + lf()
}

pub fn client_claim_bot_line_bytes(now: &[u8], caddr: &[u8], name: &[u8], baddr: &[u8]) -> (r: Vec<
    u8,
>)
    ensures
        r@ == client_claim_bot_line(now@, caddr@, name@, baddr@),
{
    let mut r = vstd::slice::slice_to_vec(now);
    append_bytes(&mut r, ": client at address ".as_bytes());
    append_bytes(&mut r, caddr);
    append_bytes(&mut r, " claims name ".as_bytes());
    append_bytes(&mut r, name);
    append_bytes(&mut r, " and connects to bot at address ".as_bytes());
    append_bytes(&mut r, baddr);
    r.push(10);
    proof {
        assert(r@ =~= client_claim_bot_line(now@, caddr@, name@, baddr@));
    }
    r
}

/// Record of a client claim that found no matching bot.
pub open spec fn client_claim_alone_line(now: Seq<u8>, caddr: Seq<u8>, name: Seq<u8>) -> Seq<u8> {
    now + ": client at address ".spec_bytes() + caddr + " claims name ".spec_bytes() + name
        + " (no bot)".spec_bytes() + lf()
}

pub fn client_claim_alone_line_bytes(now: &[u8], caddr: &[u8], name: &[u8]) -> (r: Vec<u8>)
    ensures
        r@ == client_claim_alone_line(now@, caddr@, name@),
{
    let mut r = vstd::slice::slice_to_vec(now);
    append_bytes(&mut r, ": client at address ".as_bytes());
    append_bytes(&mut r, caddr);
    append_bytes(&mut r, " claims name ".as_bytes());
    append_bytes(&mut r, name);
    append_bytes(&mut r, " (no bot)".as_bytes());
    r.push(10);
    proof {
        assert(r@ =~= client_claim_alone_line(now@, caddr@, name@));
    }
    r
}

pub open spec fn referee_claim_line(now: Seq<u8>, caddr: Seq<u8>) -> Seq<u8> {
    now + ": client at address ".spec_bytes() + caddr + " claims referee status".spec_bytes()
        + lf()
}

pub fn referee_claim_line_bytes(now: &[u8], caddr: &[u8]) -> (r: Vec<u8>)
    ensures
        r@ == referee_claim_line(now@, caddr@),
{
    let mut r = vstd::slice::slice_to_vec(now);
    append_bytes(&mut r, ": client at address ".as_bytes());
    append_bytes(&mut r, caddr);
    append_bytes(&mut r, " claims referee status".as_bytes());
    r.push(10);
    proof {
        assert(r@ =~= referee_claim_line(now@, caddr@));
    }
    r
}

/// The fanout format `<time>:<who>:<body>`, used for bot logs and for
/// command display lines.
pub open spec fn report_line(time: Seq<u8>, who: Seq<u8>, body: Seq<u8>) -> Seq<u8> {
    time + ":".spec_bytes() + who + ":".spec_bytes() + body + lf()
}

pub fn report_line_bytes(time: &[u8], who: &[u8], body: &[u8]) -> (r: Vec<u8>)
    ensures
        r@ == report_line(time@, who@, body@),
{
    let mut r = vstd::slice::slice_to_vec(time);
    append_bytes(&mut r, ":".as_bytes());
    append_bytes(&mut r, who);
    append_bytes(&mut r, ":".as_bytes());
    append_bytes(&mut r, body);
    r.push(10);
    proof {
        assert(r@ =~= report_line(time@, who@, body@));
    }
    r
}

/// The display line of a private command whose bot write failed.
pub open spec fn unreachable_line(time: Seq<u8>, name: Seq<u8>, body: Seq<u8>) -> Seq<u8> {
    time + ":".spec_bytes() + name + ":".spec_bytes() + body + " (bot unreachable)".spec_bytes()
        + lf()
}

pub fn unreachable_line_bytes(time: &[u8], name: &[u8], body: &[u8]) -> (r: Vec<u8>)
    ensures
        r@ == unreachable_line(time@, name@, body@),
{
    let mut r = vstd::slice::slice_to_vec(time);
    append_bytes(&mut r, ":".as_bytes());
    append_bytes(&mut r, name);
    append_bytes(&mut r, ":".as_bytes());
    append_bytes(&mut r, body);
    append_bytes(&mut r, " (bot unreachable)".as_bytes());
    r.push(10);
    proof {
        assert(r@ =~= unreachable_line(time@, name@, body@));
    }
    r
}

/// The display line of a private command that matched no bot.
pub open spec fn not_connected_line(time: Seq<u8>, name: Seq<u8>, body: Seq<u8>) -> Seq<u8> {
    time + ":".spec_bytes() + name + ":".spec_bytes() + body + " (bot not connected)".spec_bytes()
        + lf()
}

pub fn not_connected_line_bytes(time: &[u8], name: &[u8], body: &[u8]) -> (r: Vec<u8>)
    ensures
        r@ == not_connected_line(time@, name@, body@),
{
    let mut r = vstd::slice::slice_to_vec(time);
    append_bytes(&mut r, ":".as_bytes());
    append_bytes(&mut r, name);
    append_bytes(&mut r, ":".as_bytes());
    append_bytes(&mut r, body);
    append_bytes(&mut r, " (bot not connected)".as_bytes());
    r.push(10);
    proof {
        assert(r@ =~= not_connected_line(time@, name@, body@));
    }
    r
}

/// Stdout record of a command discarded because its client has no name.
pub open spec fn discard_line(now: Seq<u8>, body: Seq<u8>, info: Seq<u8>) -> Seq<u8> {
    now + ": discarding command '".spec_bytes() + body + "' from unnamed client ".spec_bytes()
        + info + lf()
}

pub fn discard_line_bytes(now: &[u8], body: &[u8], info: &[u8]) -> (r: Vec<u8>)
    ensures
        r@ == discard_line(now@, body@, info@),
{
    let mut r = vstd::slice::slice_to_vec(now);
    append_bytes(&mut r, ": discarding command '".as_bytes());
    append_bytes(&mut r, body);
    append_bytes(&mut r, "' from unnamed client ".as_bytes());
    append_bytes(&mut r, info);
    r.push(10);
    proof {
        assert(r@ =~= discard_line(now@, body@, info@));
    }
    r
}

/// The reply sent back to a reader whose name claim failed validation.
pub open spec fn invalid_name_message(name: Seq<u8>) -> Seq<u8> {
    "invalid name '".spec_bytes() + name + "'".spec_bytes()
}

pub fn invalid_name_message_bytes(name: &[u8]) -> (r: Vec<u8>)
    ensures
        r@ == invalid_name_message(name@),
{
    let mut r = vstd::slice::slice_to_vec("invalid name '".as_bytes());
    append_bytes(&mut r, name);
    append_bytes(&mut r, "'".as_bytes());
    proof {
        assert(r@ =~= invalid_name_message(name@));
    }
    r
}

/// What a bot reader prints when its claim was rejected.
pub open spec fn bot_claim_ignored_line(now: Seq<u8>, err: Seq<u8>) -> Seq<u8> {
    now + ": bot name claim ignored: ".spec_bytes() + err + lf()
}

pub fn bot_claim_ignored_line_bytes(now: &[u8], err: &[u8]) -> (r: Vec<u8>)
    ensures
        r@ == bot_claim_ignored_line(now@, err@),
{
    let mut r = vstd::slice::slice_to_vec(now);
    append_bytes(&mut r, ": bot name claim ignored: ".as_bytes());
    append_bytes(&mut r, err);
    r.push(10);
    proof {
        assert(r@ =~= bot_claim_ignored_line(now@, err@));
    }
    r
}

/// What a client reader prints when its claim was rejected.
pub open spec fn client_claim_ignored_line(now: Seq<u8>, err: Seq<u8>) -> Seq<u8> {
    now + ": client name claim ignored: ".spec_bytes() + err + lf()
}

pub fn client_claim_ignored_line_bytes(now: &[u8], err: &[u8]) -> (r: Vec<u8>)
    ensures
        r@ == client_claim_ignored_line(now@, err@),
{
    let mut r = vstd::slice::slice_to_vec(now);
    append_bytes(&mut r, ": client name claim ignored: ".as_bytes());
    append_bytes(&mut r, err);
    r.push(10);
    proof {
        assert(r@ =~= client_claim_ignored_line(now@, err@));
    }
    r
}

/// What a client reader prints for a line that is not a command.
pub open spec fn invalid_command_line(now: Seq<u8>, text: Seq<u8>) -> Seq<u8> {
    now + ": invalid command '".spec_bytes() + text + "'".spec_bytes() + lf()
}

pub fn invalid_command_line_bytes(now: &[u8], text: &[u8]) -> (r: Vec<u8>)
    ensures
        r@ == invalid_command_line(now@, text@),
{
    let mut r = vstd::slice::slice_to_vec(now);
    append_bytes(&mut r, ": invalid command '".as_bytes());
    append_bytes(&mut r, text);
    append_bytes(&mut r, "'".as_bytes());
    r.push(10);
    proof {
        assert(r@ =~= invalid_command_line(now@, text@));
    }
    r
}

/// What a client reader prints for a one-byte line outside the alphabet.
pub open spec fn invalid_char_line(now: Seq<u8>, text: Seq<u8>) -> Seq<u8> {
    now + ": invalid command character in '".spec_bytes() + text + "'".spec_bytes() + lf()
}

pub fn invalid_char_line_bytes(now: &[u8], text: &[u8]) -> (r: Vec<u8>)
    ensures
        r@ == invalid_char_line(now@, text@),
{
    let mut r = vstd::slice::slice_to_vec(now);
    append_bytes(&mut r, ": invalid command character in '".as_bytes());
    append_bytes(&mut r, text);
    append_bytes(&mut r, "'".as_bytes());
    r.push(10);
    proof {
        assert(r@ =~= invalid_char_line(now@, text@));
    }
    r
}

} // verus!
