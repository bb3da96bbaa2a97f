//! The closed set of packet types and their three wire identities.

use vstd::prelude::*;
use vstd::std_specs::convert::FromSpecImpl;
use vstd::std_specs::convert::TryFromSpecImpl;
use crate::error::PacketError;
use crate::text::chars_of;
use crate::text::same_text;

verus! {

/// The kind of a packet.
#[derive(Debug, Clone, Copy, PartialEq, Eq, Structural)]
pub enum PacketType {
    /// Open connection.
    Open,
    /// Close connection.
    Close,
    /// Heartbeat request.
    Ping,
    /// Heartbeat reply.
    Pong,
    /// Application message.
    Message,
    /// Transport upgrade.
    Upgrade,
    /// No operation.
    Noop,
    /// Error report.
    Error,
}

/// The type whose numeric identity is `n`, if there is one.
pub open spec fn type_of_int(n: u8) -> Option<PacketType> {
    if n == 0 {
        Some(PacketType::Open)
    } else if n == 1 {
        Some(PacketType::Close)
    } else if n == 2 {
        Some(PacketType::Ping)
    } else if n == 3 {
        Some(PacketType::Pong)
    } else if n == 4 {
        Some(PacketType::Message)
    } else if n == 5 {
        Some(PacketType::Upgrade)
    } else if n == 6 {
        Some(PacketType::Noop)
    } else if n == 9 {
        Some(PacketType::Error)
    } else {
        None
    }
}

/// The type whose character identity is `c`, if there is one.
pub open spec fn type_of_char(c: char) -> Option<PacketType> {
    if c == '0' {
        Some(PacketType::Open)
    } else if c == '1' {
        Some(PacketType::Close)
    } else if c == '2' {
        Some(PacketType::Ping)
    } else if c == '3' {
        Some(PacketType::Pong)
    } else if c == '4' {
        Some(PacketType::Message)
    } else if c == '5' {
        Some(PacketType::Upgrade)
    } else if c == '6' {
        Some(PacketType::Noop)
    } else if c == '9' {
        Some(PacketType::Error)
    } else {
        None
    }
}

/// The type whose string identity is `s`, if there is one.
pub open spec fn type_of_str(s: Seq<char>) -> Option<PacketType> {
    if s == "open"@ {
        Some(PacketType::Open)
    } else if s == "close"@ {
        Some(PacketType::Close)
    } else if s == "ping"@ {
        Some(PacketType::Ping)
    } else if s == "pong"@ {
        Some(PacketType::Pong)
    } else if s == "message"@ {
        Some(PacketType::Message)
    } else if s == "upgrade"@ {
        Some(PacketType::Upgrade)
    } else if s == "noop"@ {
        Some(PacketType::Noop)
    } else if s == "error"@ {
        Some(PacketType::Error)
    } else {
        None
    }
}

/// A lookup that found nothing is the error `InvalidPacketType`.
pub open spec fn type_or_invalid(found: Option<PacketType>) -> Result<PacketType, PacketError> {
    match found {
        Some(t) => Ok(t),
        None => Err(PacketError::InvalidPacketType),
    }
}

impl PacketType {
    /// The numeric identity of the type.
    pub open spec fn spec_int(self) -> u8 {
        match self {
            PacketType::Open => 0,
            PacketType::Close => 1,
            PacketType::Ping => 2,
            PacketType::Pong => 3,
            PacketType::Message => 4,
            PacketType::Upgrade => 5,
            PacketType::Noop => 6,
            PacketType::Error => 9,
        }
    }

    /// The character identity of the type.
    pub open spec fn spec_char(self) -> char {
        match self {
            PacketType::Open => '0',
            PacketType::Close => '1',
            PacketType::Ping => '2',
            PacketType::Pong => '3',
            PacketType::Message => '4',
            PacketType::Upgrade => '5',
            PacketType::Noop => '6',
            PacketType::Error => '9',
        }
    }

    /// The string identity of the type.
    pub open spec fn spec_str(self) -> Seq<char> {
        match self {
            PacketType::Open => "open"@,
            PacketType::Close => "close"@,
            PacketType::Ping => "ping"@,
            PacketType::Pong => "pong"@,
            PacketType::Message => "message"@,
            PacketType::Upgrade => "upgrade"@,
            PacketType::Noop => "noop"@,
            PacketType::Error => "error"@,
        }
    }

    /// Returns the numeric identity of the type.
    pub fn as_int(&self) -> (n: u8)
        ensures
            n == self.spec_int(),
    {
        match self {
            PacketType::Open => 0,
            PacketType::Close => 1,
            PacketType::Ping => 2,
            PacketType::Pong => 3,
            PacketType::Message => 4,
            PacketType::Upgrade => 5,
            PacketType::Noop => 6,
            PacketType::Error => 9,
        }
    }

    /// Returns the character identity of the type.
    pub fn as_char(&self) -> (c: char)
        ensures
            c == self.spec_char(),
    {
        match self {
            PacketType::Open => '0',
            PacketType::Close => '1',
            PacketType::Ping => '2',
            PacketType::Pong => '3',
            PacketType::Message => '4',
            PacketType::Upgrade => '5',
            PacketType::Noop => '6',
            PacketType::Error => '9',
        }
    }

    /// Returns the string identity of the type.
    pub fn as_str(&self) -> (s: &'static str)
        ensures
            s@ == self.spec_str(),
    {
        match self {
            PacketType::Open => "open",
            PacketType::Close => "close",
            PacketType::Ping => "ping",
            PacketType::Pong => "pong",
            PacketType::Message => "message",
            PacketType::Upgrade => "upgrade",
            PacketType::Noop => "noop",
            PacketType::Error => "error",
        }
    }

    /// The type with numeric identity `n`; `None` for every other number.
    pub fn from_int(n: u8) -> (found: Option<PacketType>)
        ensures
            found == type_of_int(n),
    {
        if n == 0 {
            Some(PacketType::Open)
        } else if n == 1 {
            Some(PacketType::Close)
        } else if n == 2 {
            Some(PacketType::Ping)
        } else if n == 3 {
            Some(PacketType::Pong)
        } else if n == 4 {
            Some(PacketType::Message)
        } else if n == 5 {
            Some(PacketType::Upgrade)
        } else if n == 6 {
            Some(PacketType::Noop)
        } else if n == 9 {
            Some(PacketType::Error)
        } else {
            None
        }
    }

    /// The type with character identity `c`; `None` for every other character.
    pub fn from_char(c: char) -> (found: Option<PacketType>)
        ensures
            found == type_of_char(c),
    {
        if c == '0' {
            Some(PacketType::Open)
        } else if c == '1' {
            Some(PacketType::Close)
        } else if c == '2' {
            Some(PacketType::Ping)
        } else if c == '3' {
            Some(PacketType::Pong)
        } else if c == '4' {
            Some(PacketType::Message)
        } else if c == '5' {
            Some(PacketType::Upgrade)
        } else if c == '6' {
            Some(PacketType::Noop)
        } else if c == '9' {
            Some(PacketType::Error)
        } else {
            None
        }
    }

    /// The type with string identity `s`; `None` for every other string.
    pub fn from_str(s: &str) -> (found: Option<PacketType>)
        ensures
            found == type_of_str(s@),
    {
        let v: Vec<char> = chars_of(s);
        if same_text(&v, "open") {
            Some(PacketType::Open)
        } else if same_text(&v, "close") {
            Some(PacketType::Close)
        } else if same_text(&v, "ping") {
            Some(PacketType::Ping)
        } else if same_text(&v, "pong") {
            Some(PacketType::Pong)
        } else if same_text(&v, "message") {
            Some(PacketType::Message)
        } else if same_text(&v, "upgrade") {
            Some(PacketType::Upgrade)
        } else if same_text(&v, "noop") {
            Some(PacketType::Noop)
        } else if same_text(&v, "error") {
            Some(PacketType::Error)
        } else {
            None
        }
    }
}

impl TryFrom<u8> for PacketType {
    type Error = PacketError;

    fn try_from(n: u8) -> (r: Result<Self, PacketError>) {
        match PacketType::from_int(n) {
            Some(t) => Ok(t),
            None => Err(PacketError::InvalidPacketType),
        }
    }
}

impl TryFromSpecImpl<u8> for PacketType {
    open spec fn obeys_try_from_spec() -> bool {
        true
    }

    open spec fn try_from_spec(n: u8) -> Result<Self, PacketError> {
        type_or_invalid(type_of_int(n))
    }
}

impl TryFrom<char> for PacketType {
    type Error = PacketError;

    fn try_from(c: char) -> (r: Result<Self, PacketError>) {
        match PacketType::from_char(c) {
            Some(t) => Ok(t),
            None => Err(PacketError::InvalidPacketType),
        }
    }
}

impl TryFromSpecImpl<char> for PacketType {
    open spec fn obeys_try_from_spec() -> bool {
        true
    }

    open spec fn try_from_spec(c: char) -> Result<Self, PacketError> {
        type_or_invalid(type_of_char(c))
    }
}

impl<'a> TryFrom<&'a str> for PacketType {
    type Error = PacketError;

    fn try_from(s: &'a str) -> (r: Result<Self, PacketError>) {
        match PacketType::from_str(s) {
            Some(t) => Ok(t),
            None => Err(PacketError::InvalidPacketType),
        }
    }
}

impl<'a> TryFromSpecImpl<&'a str> for PacketType {
    open spec fn obeys_try_from_spec() -> bool {
        true
    }

    open spec fn try_from_spec(s: &'a str) -> Result<Self, PacketError> {
        type_or_invalid(type_of_str(s@))
    }
}

impl From<PacketType> for u8 {
    fn from(t: PacketType) -> (n: u8) {
        t.as_int()
    }
}

impl FromSpecImpl<PacketType> for u8 {
    open spec fn obeys_from_spec() -> bool {
        true
    }

    open spec fn from_spec(t: PacketType) -> u8 {
        t.spec_int()
    }
}

impl From<PacketType> for char {
    fn from(t: PacketType) -> (c: char) {
        t.as_char()
    }
}

impl FromSpecImpl<PacketType> for char {
    open spec fn obeys_from_spec() -> bool {
        true
    }

    open spec fn from_spec(t: PacketType) -> char {
        t.spec_char()
    }
}

impl From<PacketType> for &'static str {
    fn from(t: PacketType) -> (s: &'static str) {
        match t {
            PacketType::Open => "open",
            PacketType::Close => "close",
            PacketType::Ping => "ping",
            PacketType::Pong => "pong",
            PacketType::Message => "message",
            PacketType::Upgrade => "upgrade",
            PacketType::Noop => "noop",
            PacketType::Error => "error",
        }
    }
}

impl FromSpecImpl<PacketType> for &'static str {
    open spec fn obeys_from_spec() -> bool {
        true
    }

    open spec fn from_spec(t: PacketType) -> &'static str {
        match t {
            PacketType::Open => "open",
            PacketType::Close => "close",
            PacketType::Ping => "ping",
            PacketType::Pong => "pong",
            PacketType::Message => "message",
            PacketType::Upgrade => "upgrade",
            PacketType::Noop => "noop",
            PacketType::Error => "error",
        }
    }
}

/// Every type is found again under its numeric identity, and only there: a
/// number is the identity of `t` exactly when the lookup yields `t`.
pub proof fn law_int_identity(t: PacketType, n: u8)
    ensures
        type_of_int(t.spec_int()) == Some(t),
        type_of_int(n) == Some(t) <==> n == t.spec_int(),
{
}

/// Every type is found again under its character identity, and only there.
pub proof fn law_char_identity(t: PacketType, c: char)
    ensures
        type_of_char(t.spec_char()) == Some(t),
        type_of_char(c) == Some(t) <==> c == t.spec_char(),
{
}

/// Every type is found again under its string identity, and only there.
pub proof fn law_str_identity(t: PacketType, s: Seq<char>)
    ensures
        type_of_str(t.spec_str()) == Some(t),
        type_of_str(s) == Some(t) <==> s == t.spec_str(),
{
    reveal_strlit("open");
    reveal_strlit("close");
    reveal_strlit("ping");
    reveal_strlit("pong");
    reveal_strlit("message");
    reveal_strlit("upgrade");
    reveal_strlit("noop");
    reveal_strlit("error");
    assert("open"@.len() == 4);
    assert("close"@.len() == 5);
    assert("ping"@[1] == 'i');
    assert("pong"@[1] == 'o');
    assert("noop"@[0] == 'n');
    assert("message"@[0] == 'm');
    assert("upgrade"@[0] == 'u');
    assert("error"@[0] == 'e');
    assert("close"@[0] == 'c');
    assert("open"@[0] == 'o');
    assert("ping"@[0] == 'p');
}

/// A value that is the identity of no type converts to `InvalidPacketType`,
/// whichever of the three representations it comes in.
pub proof fn law_unknown_identity_is_rejected(n: u8, c: char, s: Seq<char>)
    ensures
        (forall|t: PacketType| t.spec_int() != n) ==> type_or_invalid(type_of_int(n)) == Err::<
            PacketType,
            PacketError,
        >(PacketError::InvalidPacketType),
        (forall|t: PacketType| t.spec_char() != c) ==> type_or_invalid(type_of_char(c)) == Err::<
            PacketType,
            PacketError,
        >(PacketError::InvalidPacketType),
        (forall|t: PacketType| t.spec_str() != s) ==> type_or_invalid(type_of_str(s)) == Err::<
            PacketType,
            PacketError,
        >(PacketError::InvalidPacketType),
{
    if type_of_int(n) is Some {
        let t = type_of_int(n)->0;
        assert(t.spec_int() == n);
    }
    if type_of_char(c) is Some {
        let t = type_of_char(c)->0;
        assert(t.spec_char() == c);
    }
    if type_of_str(s) is Some {
        let t = type_of_str(s)->0;
        assert(t.spec_str() == s);
    }
}

} // verus!
