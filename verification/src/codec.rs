//! The single-byte command alphabet spoken between clients, broker and bots.
//!
//! A referee command is `x`/`X` (start) or `z`/`Z` (stop); any other
//! alphanumeric byte is a private command carrying that byte; everything else
//! fails to decode.

use vstd::prelude::*;
use vstd::string::StringSliceAdditionalSpecFns;
use crate::bytes::bytes_of;

verus! {

/// True for the bytes `0`..`9`, `A`..`Z` and `a`..`z`.
pub open spec fn is_alnum_byte(b: u8) -> bool {
    ('0' as u8) <= b <= ('9' as u8) || ('A' as u8) <= b <= ('Z' as u8) || ('a' as u8) <= b
        <= ('z' as u8)
}

/// A broadcast command from the referee to every bot.
#[derive(Clone, Copy, PartialEq, Eq, Structural, Debug)]
pub enum RefereeCommand {
    Start,
    Stop,
}

impl RefereeCommand {
    /// The wire byte of this command: lowercase `x` or `z`.
    pub open spec fn spec_encode(self) -> u8 {
        match self {
            RefereeCommand::Start => 'x' as u8,
            RefereeCommand::Stop => 'z' as u8,
        }
    }

    pub fn encode(&self) -> (b: u8)
        ensures
            b == self.spec_encode(),
    {
        match self {
            RefereeCommand::Start => 'x' as u8,
            RefereeCommand::Stop => 'z' as u8,
        }
    }

    /// `x` and `X` decode to start, `z` and `Z` to stop, nothing else decodes.
    pub open spec fn spec_decode(byte: u8) -> Option<RefereeCommand> {
        if byte == 'x' as u8 || byte == 'X' as u8 {
            Some(RefereeCommand::Start)
        } else if byte == 'z' as u8 || byte == 'Z' as u8 {
            Some(RefereeCommand::Stop)
        } else {
            None
        }
    }

    pub fn decode(byte: u8) -> (r: Option<Self>)
        ensures
            r == Self::spec_decode(byte),
    {
        if byte == 'x' as u8 || byte == 'X' as u8 {
            Some(RefereeCommand::Start)
        } else if byte == 'z' as u8 || byte == 'Z' as u8 {
            Some(RefereeCommand::Stop)
        } else {
            None
        }
    }

    /// The human-readable rendering of this command.
    pub open spec fn spec_display(self) -> Seq<u8> {
        match self {
            RefereeCommand::Start => "referee command START".spec_bytes(),
            RefereeCommand::Stop => "referee command STOP".spec_bytes(),
        }
    }

    pub fn display_bytes(&self) -> (r: Vec<u8>)
        ensures
            r@ == self.spec_display(),
    {
        match self {
            RefereeCommand::Start => bytes_of("referee command START"),
            RefereeCommand::Stop => bytes_of("referee command STOP"),
        }
    }
}

/// True for the bytes that carry a private command: alphanumeric and not a
/// referee byte.
pub open spec fn is_private_byte(b: u8) -> bool {
    is_alnum_byte(b) && RefereeCommand::spec_decode(b) is None
}

/// A single-byte command routed only to the bots that share the sender's
/// name.
pub struct PrivateCommand {
    byte: u8,
}

impl PrivateCommand {
    /// The wire byte this command carries.
    pub closed spec fn spec_byte(self) -> u8 {
        self.byte
    }

    /// A private command carries an alphanumeric, non-referee byte.
    pub open spec fn wf(self) -> bool {
        is_private_byte(self.spec_byte())
    }

    pub fn encode(&self) -> (b: u8)
        ensures
            b == self.spec_byte(),
    {
        self.byte
    }

    /// Exactly the private bytes decode, to the command carrying that byte.
    pub closed spec fn spec_decode(byte: u8) -> Option<PrivateCommand> {
        if is_private_byte(byte) {
            Some(PrivateCommand { byte })
        } else {
            None
        }
    }

    pub fn decode(byte: u8) -> (r: Option<Self>)
        ensures
            r == Self::spec_decode(byte),
            r matches Some(c) ==> c.wf() && c.spec_byte() == byte,
            r is Some <==> is_private_byte(byte),
    {
        if (byte >= 'a' as u8 && byte <= 'z' as u8) || (byte >= 'A' as u8 && byte <= 'Z' as u8)
            || (byte >= '0' as u8 && byte <= '9' as u8) {
            if let Some(_) = RefereeCommand::decode(byte) {
                None
            } else {
                Some(PrivateCommand { byte })
            }
        } else {
            None
        }
    }

    /// The human-readable rendering: `private command '<c>'`.
    pub open spec fn spec_display(self) -> Seq<u8> {
        "private command '".spec_bytes() + seq![self.spec_byte()] + "'".spec_bytes()
    }

    pub fn display_bytes(&self) -> (r: Vec<u8>)
        ensures
            r@ == self.spec_display(),
    {
        let mut r = bytes_of("private command '");
        r.push(self.byte);
        let ghost mid = r@;
        crate::bytes::append_bytes(&mut r, "'".as_bytes());
        assert(mid == "private command '".spec_bytes() + seq![self.spec_byte()]);
        r
    }
}

/// Any command a bot can receive: a referee broadcast or a private command.
pub enum BotCommand {
    Referee(RefereeCommand),
    Private(PrivateCommand),
}

impl BotCommand {
    pub open spec fn spec_encode(self) -> u8 {
        match self {
            BotCommand::Referee(c) => c.spec_encode(),
            BotCommand::Private(c) => c.spec_byte(),
        }
    }

    pub fn encode(&self) -> (b: u8)
        ensures
            b == self.spec_encode(),
    {
        match self {
            BotCommand::Referee(c) => c.encode(),
            BotCommand::Private(c) => c.encode(),
        }
    }

    /// Referee bytes win; any other private byte decodes as private.
    pub open spec fn spec_decode(byte: u8) -> Option<BotCommand> {
        match RefereeCommand::spec_decode(byte) {
            Some(c) => Some(BotCommand::Referee(c)),
            None => match PrivateCommand::spec_decode(byte) {
                Some(c) => Some(BotCommand::Private(c)),
                None => None,
            },
        }
    }

    pub fn decode(byte: u8) -> (r: Option<Self>)
        ensures
            r == Self::spec_decode(byte),
    {
        match RefereeCommand::decode(byte) {
            Some(c) => Some(BotCommand::Referee(c)),
            None => match PrivateCommand::decode(byte) {
                Some(c) => Some(BotCommand::Private(c)),
                None => None,
            },
        }
    }
}

/// Law: decoding a private byte succeeds and the decoded command re-encodes
/// to that same byte.
pub proof fn lemma_private_decode_encode(byte: u8)
    requires
        is_private_byte(byte),
    ensures
        PrivateCommand::spec_decode(byte) matches Some(c) && c.spec_byte() == byte && c.wf(),
{
}

/// Law: encoding a private command and decoding the byte again yields the
/// same command, so private decoding is a bijection between the private
/// bytes and the well-formed private commands.
pub proof fn lemma_private_encode_decode(c: PrivateCommand)
    requires
        c.wf(),
    ensures
        PrivateCommand::spec_decode(c.spec_byte()) == Some(c),
{
}

/// Law: referee decoding treats `x` and `X` identically, and `z` and `Z`
/// identically.
pub proof fn lemma_referee_decode_cases()
    ensures
        RefereeCommand::spec_decode('x' as u8) == Some(RefereeCommand::Start),
        RefereeCommand::spec_decode('X' as u8) == RefereeCommand::spec_decode('x' as u8),
        RefereeCommand::spec_decode('z' as u8) == Some(RefereeCommand::Stop),
        RefereeCommand::spec_decode('Z' as u8) == RefereeCommand::spec_decode('z' as u8),
{
}

} // verus!
