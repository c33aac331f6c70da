//! The status of the Tor network: relays as the consensus lists them,
//! joined with what their descriptors say.

use vstd::prelude::*;
use crate::numbers::{parse_u16, parse_u32, parse_u8, parse_unsigned};
use crate::text::{
    str_to_chars,
    chars_eq, chars_to_string, split_all, split_all_at, split_n, split_n_at, split_once, split_once_at,
    views,
};
use crate::tor_status::net::{Ipv4Addr, SocketAddrV6};
use crate::tor_status::encoding::{
    base64_standard_no_pad, decode_base64_20, decode_hex_20, encode_hex_lower, encode_hex_upper,
    hex_decode, hex_encode, zero_padded,
};

pub mod encoding;
pub mod net;
pub mod consensus;
pub mod descriptor;
pub mod paths;

verus! {

/// Why a status document could not be read.
#[derive(Debug, Clone, Copy, PartialEq, Eq, Structural)]
pub enum ParseError {
    /// A separator that the format requires is missing.
    MissingSeparator,
    /// A field that the format requires is missing.
    MissingField,
    /// A decimal number is malformed or out of range.
    InvalidNumber,
    /// A base64 relay identity is malformed.
    InvalidId,
    /// A hexadecimal digest is malformed.
    InvalidHex,
    /// A relay flag is not one of the known flags.
    UnknownFlag,
    /// A version line is malformed.
    InvalidVersion,
    /// A network address is malformed.
    InvalidAddress,
}

/// A relay identity fingerprint (20 bytes).
#[derive(Debug, PartialEq, Eq, Clone, Copy, Hash)]
pub struct RelayId([u8; 20]);

impl View for RelayId {
    type V = Seq<u8>;

    closed spec fn view(&self) -> Seq<u8> {
        self.0@
    }
}

/// A descriptor digest (20 bytes).
#[derive(Debug, PartialEq, Eq, Clone, Copy)]
pub struct Digest([u8; 20]);

impl View for Digest {
    type V = Seq<u8>;

    closed spec fn view(&self) -> Seq<u8> {
        self.0@
    }
}

/// What `parse_id` gives: a base64 text of 27 characters decoded to 20
/// bytes.
#[verifier::opaque]
pub open spec fn spec_parse_id(token: Seq<char>) -> Result<Seq<u8>, ParseError> {
    if token.len() != 27 {
        Err(ParseError::InvalidId)
    } else {
        match base64_standard_no_pad(token) {
            Some(d) => if d.len() <= 20 {
                Ok(zero_padded(d))
            } else {
                Err(ParseError::InvalidId)
            },
            None => Err(ParseError::InvalidId),
        }
    }
}

/// Decodes a base64 identity of 27 characters to its 20 bytes.
pub fn parse_id(token: &[char]) -> (r: Result<[u8; 20], ParseError>)
    ensures
        match r {
            Ok(a) => spec_parse_id(token@) == Ok::<Seq<u8>, ParseError>(a@),
            Err(e) => spec_parse_id(token@) == Err::<Seq<u8>, ParseError>(e),
        },
{
    proof {
        reveal(spec_parse_id);
    }
    if token.len() != 27 {
        return Err(ParseError::InvalidId);
    }
    match decode_base64_20(token) {
        Some(a) => Ok(a),
        None => Err(ParseError::InvalidId),
    }
}

impl RelayId {
    /// The identity with the given bytes.
    pub fn new(bytes: [u8; 20]) -> (r: Self)
        ensures
            r@ == bytes@,
    {
        RelayId(bytes)
    }

    /// The identity's bytes.
    pub fn bytes(&self) -> (r: [u8; 20])
        ensures
            r@ == self@,
    {
        self.0
    }

    /// Whether both identities have the same bytes.
    pub fn equals(&self, other: &RelayId) -> (r: bool)
        ensures
            r == (self@ == other@),
    {
        let a = self.0;
        let b = other.0;
        let mut k: usize = 0;
        while k < 20
            invariant
                k <= 20,
                a@.len() == 20,
                b@.len() == 20,
                a@ == self@,
                b@ == other@,
                forall|m: int| 0 <= m < k ==> a@[m] == b@[m],
            decreases 20 - k,
        {
            if a[k] != b[k] {
                assert(a@[k as int] != b@[k as int]);
                return false;
            }
            k = k + 1;
        }
        assert(a@ =~= b@);
        true
    }

    /// Reads an identity written in base64 (27 characters, no padding).
    pub fn parse(token: &[char]) -> (r: Result<Self, ParseError>)
        ensures
            match r {
                Ok(id) => spec_parse_id(token@) == Ok::<Seq<u8>, ParseError>(id@),
                Err(e) => spec_parse_id(token@) == Err::<Seq<u8>, ParseError>(e),
            },
    {
        match parse_id(token) {
            Ok(a) => Ok(RelayId(a)),
            Err(e) => Err(e),
        }
    }

    /// Reads an identity written as forty hexadecimal digits.
    pub fn from_hex(s: &[char]) -> (r: Result<Self, ParseError>)
        ensures
            match r {
                Ok(id) => hex_decode(s@) == Some(id@) && id@.len() == 20,
                Err(e) => e == ParseError::InvalidHex && !(hex_decode(s@) matches Some(d)
                    && d.len() == 20),
            },
    {
        match decode_hex_20(s) {
            Some(a) => Ok(RelayId(a)),
            None => Err(ParseError::InvalidHex),
        }
    }

    /// The identity as forty upper-case hexadecimal digits.
    pub fn fingerprint(&self) -> (r: String)
        ensures
            r@ == hex_encode(self@, true),
    {
        encode_hex_upper(&self.0)
    }
}

impl Digest {
    /// The digest with the given bytes.
    pub fn new(bytes: [u8; 20]) -> (r: Self)
        ensures
            r@ == bytes@,
    {
        Digest(bytes)
    }

    /// The digest's bytes.
    pub fn bytes(&self) -> (r: [u8; 20])
        ensures
            r@ == self@,
    {
        self.0
    }

    /// Reads a digest written in base64 (27 characters, no padding).
    pub fn parse(token: &[char]) -> (r: Result<Self, ParseError>)
        ensures
            match r {
                Ok(d) => spec_parse_id(token@) == Ok::<Seq<u8>, ParseError>(d@),
                Err(e) => spec_parse_id(token@) == Err::<Seq<u8>, ParseError>(e),
            },
    {
        match parse_id(token) {
            Ok(a) => Ok(Digest(a)),
            Err(e) => Err(e),
        }
    }

    /// Reads a digest written as forty hexadecimal digits.
    pub fn from_hex(s: &[char]) -> (r: Result<Self, ParseError>)
        ensures
            match r {
                Ok(d) => hex_decode(s@) == Some(d@) && d@.len() == 20,
                Err(e) => e == ParseError::InvalidHex && !(hex_decode(s@) matches Some(d)
                    && d.len() == 20),
            },
    {
        match decode_hex_20(s) {
            Some(a) => Ok(Digest(a)),
            None => Err(ParseError::InvalidHex),
        }
    }

    /// The digest as forty lower-case hexadecimal digits (the name of its
    /// descriptor file).
    pub fn encode_hex(&self) -> (r: String)
        ensures
            r@ == hex_encode(self@, false),
    {
        encode_hex_lower(&self.0)
    }

    /// The digest as forty upper-case hexadecimal digits.
    pub fn encode_hex_upper(&self) -> (r: String)
        ensures
            r@ == hex_encode(self@, true),
    {
        encode_hex_upper(&self.0)
    }
}


/// A network port.
#[derive(Debug, PartialEq, Eq, Clone, Copy)]
pub struct Port(u16);

impl View for Port {
    type V = u16;

    closed spec fn view(&self) -> u16 {
        self.0
    }
}

impl Port {
    /// The port with the given number.
    pub fn new(n: u16) -> (r: Self)
        ensures
            r@ == n,
    {
        Port(n)
    }

    /// The port's number.
    pub fn number(&self) -> (r: u16)
        ensures
            r == self@,
    {
        self.0
    }

    /// Reads a port number as `str::parse::<u16>` does.
    pub fn parse(s: &[char]) -> (r: Result<Self, ParseError>)
        ensures
            match r {
                Ok(p) => parse_unsigned(s@, u16::MAX as nat) == Some(p@ as nat),
                Err(e) => e == ParseError::InvalidNumber && parse_unsigned(s@, u16::MAX as nat) is None,
            },
    {
        match parse_u16(s) {
            Some(n) => Ok(Port(n)),
            None => Err(ParseError::InvalidNumber),
        }
    }
}

/// How long a relay has been running, in seconds.
#[derive(Debug, PartialEq, Eq, Clone, Copy)]
pub struct Uptime(u32);

impl View for Uptime {
    type V = u32;

    closed spec fn view(&self) -> u32 {
        self.0
    }
}

impl Uptime {
    /// The uptime of the given number of seconds.
    pub fn new(n: u32) -> (r: Self)
        ensures
            r@ == n,
    {
        Uptime(n)
    }

    /// The number of seconds.
    pub fn seconds(&self) -> (r: u32)
        ensures
            r == self@,
    {
        self.0
    }

    /// Reads an uptime as `str::parse::<u32>` does.
    pub fn parse(s: &[char]) -> (r: Result<Self, ParseError>)
        ensures
            match r {
                Ok(u) => parse_unsigned(s@, u32::MAX as nat) == Some(u@ as nat),
                Err(e) => e == ParseError::InvalidNumber && parse_unsigned(s@, u32::MAX as nat) is None,
            },
    {
        match parse_u32(s) {
            Some(n) => Ok(Uptime(n)),
            None => Err(ParseError::InvalidNumber),
        }
    }
}

/// One of the flags that the directory authorities give a relay.
#[derive(Debug, Clone, Copy, PartialEq, Eq, Structural)]
pub enum RelayFlag {
    Authority,
    BadExit,
    Exit,
    Fast,
    Guard,
    HSDir,
    MiddleOnly,
    NoEdConsensus,
    Stable,
    StaleDesc,
    Sybil,
    Running,
    Valid,
    V2Dir,
}

impl RelayFlag {
    /// The bit of the flag in a `RelayFlags` set.
    pub open spec fn spec_bit(self) -> u16 {
        match self {
            RelayFlag::Authority => 0x0001,
            RelayFlag::BadExit => 0x0002,
            RelayFlag::Exit => 0x0004,
            RelayFlag::Fast => 0x0008,
            RelayFlag::Guard => 0x0010,
            RelayFlag::HSDir => 0x0020,
            RelayFlag::MiddleOnly => 0x0040,
            RelayFlag::NoEdConsensus => 0x0080,
            RelayFlag::Stable => 0x0100,
            RelayFlag::StaleDesc => 0x0200,
            RelayFlag::Sybil => 0x0400,
            RelayFlag::Running => 0x0800,
            RelayFlag::Valid => 0x1000,
            RelayFlag::V2Dir => 0x2000,
        }
    }

    /// The bit of the flag in a `RelayFlags` set.
    pub fn bit(self) -> (r: u16)
        ensures
            r == self.spec_bit(),
    {
        match self {
            RelayFlag::Authority => 0x0001,
            RelayFlag::BadExit => 0x0002,
            RelayFlag::Exit => 0x0004,
            RelayFlag::Fast => 0x0008,
            RelayFlag::Guard => 0x0010,
            RelayFlag::HSDir => 0x0020,
            RelayFlag::MiddleOnly => 0x0040,
            RelayFlag::NoEdConsensus => 0x0080,
            RelayFlag::Stable => 0x0100,
            RelayFlag::StaleDesc => 0x0200,
            RelayFlag::Sybil => 0x0400,
            RelayFlag::Running => 0x0800,
            RelayFlag::Valid => 0x1000,
            RelayFlag::V2Dir => 0x2000,
        }
    }
}

/// The bit of the flag named `token`, if it names one.
pub open spec fn flag_bit(token: Seq<char>) -> Option<u16> {
    if token == seq!['A', 'u', 't', 'h', 'o', 'r', 'i', 't', 'y'] {
        Some(0x0001)
    } else if token == seq!['B', 'a', 'd', 'E', 'x', 'i', 't'] {
        Some(0x0002)
    } else if token == seq!['E', 'x', 'i', 't'] {
        Some(0x0004)
    } else if token == seq!['F', 'a', 's', 't'] {
        Some(0x0008)
    } else if token == seq!['G', 'u', 'a', 'r', 'd'] {
        Some(0x0010)
    } else if token == seq!['H', 'S', 'D', 'i', 'r'] {
        Some(0x0020)
    } else if token == seq!['M', 'i', 'd', 'd', 'l', 'e', 'O', 'n', 'l', 'y'] {
        Some(0x0040)
    } else if token == seq!['N', 'o', 'E', 'd', 'C', 'o', 'n', 's', 'e', 'n', 's', 'u', 's'] {
        Some(0x0080)
    } else if token == seq!['S', 't', 'a', 'b', 'l', 'e'] {
        Some(0x0100)
    } else if token == seq!['S', 't', 'a', 'l', 'e', 'D', 'e', 's', 'c'] {
        Some(0x0200)
    } else if token == seq!['S', 'y', 'b', 'i', 'l'] {
        Some(0x0400)
    } else if token == seq!['R', 'u', 'n', 'n', 'i', 'n', 'g'] {
        Some(0x0800)
    } else if token == seq!['V', 'a', 'l', 'i', 'd'] {
        Some(0x1000)
    } else if token == seq!['V', '2', 'D', 'i', 'r'] {
        Some(0x2000)
    } else {
        None
    }
}

/// A set of relay flags, one bit per flag.
#[derive(Debug, PartialEq, Eq, Clone, Copy)]
pub struct RelayFlags {
    bits: u16,
}

impl View for RelayFlags {
    type V = u16;

    closed spec fn view(&self) -> u16 {
        self.bits
    }
}

impl RelayFlags {
    /// The empty set.
    pub fn empty() -> (r: Self)
        ensures
            r@ == 0,
    {
        RelayFlags { bits: 0 }
    }

    /// The set with the given bits.
    pub fn from_bits(bits: u16) -> (r: Self)
        ensures
            r@ == bits,
    {
        RelayFlags { bits }
    }

    /// The set's bits.
    pub fn bits(&self) -> (r: u16)
        ensures
            r == self@,
    {
        self.bits
    }

    /// The set that holds just `flag`.
    pub fn flag(flag: RelayFlag) -> (r: Self)
        ensures
            r@ == flag.spec_bit(),
    {
        RelayFlags { bits: flag.bit() }
    }

    /// The flags of both sets.
    pub fn union(&self, other: &Self) -> (r: Self)
        ensures
            r@ == self@ | other@,
    {
        RelayFlags { bits: self.bits | other.bits }
    }

    /// Whether every flag of `other` is in the set.
    pub fn contains(&self, other: &Self) -> (r: bool)
        ensures
            r == (self@ & other@ == other@),
    {
        self.bits & other.bits == other.bits
    }

    /// Whether `flag` is in the set.
    pub fn has(&self, flag: RelayFlag) -> (r: bool)
        ensures
            r == (self@ & flag.spec_bit() == flag.spec_bit()),
    {
        let b = flag.bit();
        self.bits & b == b
    }

    /// Reads one flag name, as it stands in a consensus.
    pub fn parse(token: &[char]) -> (r: Result<Self, ParseError>)
        ensures
            match r {
                Ok(f) => flag_bit(token@) == Some(f@),
                Err(e) => e == ParseError::UnknownFlag && flag_bit(token@) is None,
            },
    {
        if chars_eq(token, &['A', 'u', 't', 'h', 'o', 'r', 'i', 't', 'y']) {
            return Ok(RelayFlags { bits: 0x0001 });
        }
        if chars_eq(token, &['B', 'a', 'd', 'E', 'x', 'i', 't']) {
            return Ok(RelayFlags { bits: 0x0002 });
        }
        if chars_eq(token, &['E', 'x', 'i', 't']) {
            return Ok(RelayFlags { bits: 0x0004 });
        }
        if chars_eq(token, &['F', 'a', 's', 't']) {
            return Ok(RelayFlags { bits: 0x0008 });
        }
        if chars_eq(token, &['G', 'u', 'a', 'r', 'd']) {
            return Ok(RelayFlags { bits: 0x0010 });
        }
        if chars_eq(token, &['H', 'S', 'D', 'i', 'r']) {
            return Ok(RelayFlags { bits: 0x0020 });
        }
        if chars_eq(token, &['M', 'i', 'd', 'd', 'l', 'e', 'O', 'n', 'l', 'y']) {
            return Ok(RelayFlags { bits: 0x0040 });
        }
        if chars_eq(token, &['N', 'o', 'E', 'd', 'C', 'o', 'n', 's', 'e', 'n', 's', 'u', 's']) {
            return Ok(RelayFlags { bits: 0x0080 });
        }
        if chars_eq(token, &['S', 't', 'a', 'b', 'l', 'e']) {
            return Ok(RelayFlags { bits: 0x0100 });
        }
        if chars_eq(token, &['S', 't', 'a', 'l', 'e', 'D', 'e', 's', 'c']) {
            return Ok(RelayFlags { bits: 0x0200 });
        }
        if chars_eq(token, &['S', 'y', 'b', 'i', 'l']) {
            return Ok(RelayFlags { bits: 0x0400 });
        }
        if chars_eq(token, &['R', 'u', 'n', 'n', 'i', 'n', 'g']) {
            return Ok(RelayFlags { bits: 0x0800 });
        }
        if chars_eq(token, &['V', 'a', 'l', 'i', 'd']) {
            return Ok(RelayFlags { bits: 0x1000 });
        }
        if chars_eq(token, &['V', '2', 'D', 'i', 'r']) {
            return Ok(RelayFlags { bits: 0x2000 });
        }
        Err(ParseError::UnknownFlag)
    }
}


/// The abstract value of a `Version`.
pub struct VersionView {
    pub major: u8,
    pub minor: u8,
    pub micro: u8,
    pub patch: u8,
    pub status: Option<Seq<char>>,
}

/// A Tor version such as `0.4.9.6-alpha`: four numbers and an optional status.
#[derive(Debug, Clone, PartialEq, Eq, PartialOrd, Ord)]
pub struct Version {
    major: u8,
    minor: u8,
    micro: u8,
    patch: u8,
    status: Option<String>,
}

/// The text of an optional string.
pub open spec fn opt_view(s: Option<String>) -> Option<Seq<char>> {
    match s {
        Some(t) => Some(t@),
        None => None,
    }
}

impl View for Version {
    type V = VersionView;

    closed spec fn view(&self) -> VersionView {
        VersionView {
            major: self.major,
            minor: self.minor,
            micro: self.micro,
            patch: self.patch,
            status: opt_view(self.status),
        }
    }
}

/// What reading the version line content `s` (such as `Tor 0.4.9.6`) gives:
/// the word after the first space holds four numbers separated by dots,
/// and an optional status after the first dash.
#[verifier::opaque]
pub open spec fn spec_parse_version(s: Seq<char>) -> Result<VersionView, ParseError> {
    match split_once(s, ' ') {
        None => Err(ParseError::InvalidVersion),
        Some((_, version)) => {
            let (numbers, status) = match split_once(version, '-') {
                Some((n, v)) => (n, Some(v)),
                None => (version, None),
            };
            let parts = split_n(numbers, '.', 4);
            if parts.len() < 4 {
                Err(ParseError::InvalidVersion)
            } else {
                match (
                    parse_unsigned(parts[0], 255),
                    parse_unsigned(parts[1], 255),
                    parse_unsigned(parts[2], 255),
                    parse_unsigned(parts[3], 255),
                ) {
                    (Some(a), Some(b), Some(c), Some(d)) => Ok(
                        VersionView {
                            major: a as u8,
                            minor: b as u8,
                            micro: c as u8,
                            patch: d as u8,
                            status: status,
                        },
                    ),
                    _ => Err(ParseError::InvalidNumber),
                }
            }
        },
    }
}

impl Version {
    /// The version with the given numbers and status.
    pub fn new(major: u8, minor: u8, micro: u8, patch: u8, status: Option<String>) -> (r: Self)
        ensures
            r@ == (VersionView { major, minor, micro, patch, status: opt_view(status) }),
    {
        Version { major, minor, micro, patch, status }
    }

    /// The four numbers of the version.
    pub fn numbers(&self) -> (r: (u8, u8, u8, u8))
        ensures
            r == (self@.major, self@.minor, self@.micro, self@.patch),
    {
        (self.major, self.minor, self.micro, self.patch)
    }

    /// The status of the version (such as `alpha`), if it has one.
    pub fn status(&self) -> (r: Option<&String>)
        ensures
            match r {
                Some(t) => self@.status == Some(t@),
                None => self@.status is None,
            },
    {
        match &self.status {
            Some(t) => Some(t),
            None => None,
        }
    }

    /// Reads the content of a `v` line of a consensus, such as `Tor 0.4.9.6`.
    pub fn parse(s: &[char]) -> (r: Result<Self, ParseError>)
        ensures
            match r {
                Ok(v) => spec_parse_version(s@) == Ok::<VersionView, ParseError>(v@),
                Err(e) => spec_parse_version(s@) == Err::<VersionView, ParseError>(e),
            },
    {
        proof {
            reveal(spec_parse_version);
        }
        let version = match split_once_at(s, ' ') {
            Some((_, v)) => v,
            None => return Err(ParseError::InvalidVersion),
        };
        let (numbers, status) = match split_once_at(version, '-') {
            Some((n, v)) => (n, Some(chars_to_string(v))),
            None => (version, None),
        };
        let parts = split_n_at(numbers, '.', 4);
        assert(views(parts@).len() == parts@.len());
        if parts.len() < 4 {
            return Err(ParseError::InvalidVersion);
        }
        assert(views(parts@)[0] == parts@[0]@);
        assert(views(parts@)[1] == parts@[1]@);
        assert(views(parts@)[2] == parts@[2]@);
        assert(views(parts@)[3] == parts@[3]@);
        let major = parse_u8(parts[0]);
        let minor = parse_u8(parts[1]);
        let micro = parse_u8(parts[2]);
        let patch = parse_u8(parts[3]);
        match (major, minor, micro, patch) {
            (Some(a), Some(b), Some(c), Some(d)) => Ok(
                Version { major: a, minor: b, micro: c, patch: d, status },
            ),
            _ => Err(ParseError::InvalidNumber),
        }
    }
}

/// A relay's bandwidth as its descriptor states it: average, burst and
/// observed, in bytes per second.
#[derive(Debug, PartialEq, Eq, Clone, Copy)]
pub struct Bandwidth {
    pub average: u32,
    pub burst: u32,
    pub observed: u32,
}

/// What reading a bandwidth line content gives: the first three words are
/// the average, the burst and the observed bandwidth.
#[verifier::opaque]
pub open spec fn spec_parse_bandwidth(s: Seq<char>) -> Result<Bandwidth, ParseError> {
    let parts = split_all(s, ' ');
    if parts.len() < 3 {
        Err(ParseError::MissingField)
    } else {
        match (
            parse_unsigned(parts[0], u32::MAX as nat),
            parse_unsigned(parts[1], u32::MAX as nat),
            parse_unsigned(parts[2], u32::MAX as nat),
        ) {
            (Some(a), Some(b), Some(o)) => Ok(
                Bandwidth { average: a as u32, burst: b as u32, observed: o as u32 },
            ),
            _ => Err(ParseError::InvalidNumber),
        }
    }
}

impl Bandwidth {
    /// Reads the content of a `bandwidth` line of a descriptor.
    pub fn parse(s: &[char]) -> (r: Result<Self, ParseError>)
        ensures
            r == spec_parse_bandwidth(s@),
    {
        proof {
            reveal(spec_parse_bandwidth);
        }
        let parts = split_all_at(s, ' ');
        assert(views(parts@).len() == parts@.len());
        if parts.len() < 3 {
            return Err(ParseError::MissingField);
        }
        assert(views(parts@)[0] == parts@[0]@);
        assert(views(parts@)[1] == parts@[1]@);
        assert(views(parts@)[2] == parts@[2]@);
        let average = parse_u32(parts[0]);
        let burst = parse_u32(parts[1]);
        let observed = parse_u32(parts[2]);
        match (average, burst, observed) {
            (Some(a), Some(b), Some(o)) => Ok(Bandwidth { average: a, burst: b, observed: o }),
            _ => Err(ParseError::InvalidNumber),
        }
    }
}

/// The abstract value of a `FamilyMember`.
pub enum FamilyMemberView {
    Digest(Seq<u8>),
    Nickname(Seq<char>),
}

/// A member of a relay's declared family: a digest, or a nickname.
#[derive(Debug, PartialEq, Eq, Clone)]
pub enum FamilyMember {
    Digest(Digest),
    Nickname(String),
}

impl View for FamilyMember {
    type V = FamilyMemberView;

    open spec fn view(&self) -> FamilyMemberView {
        match self {
            FamilyMember::Digest(d) => FamilyMemberView::Digest(d@),
            FamilyMember::Nickname(n) => FamilyMemberView::Nickname(n@),
        }
    }
}

/// What reading a family member gives: `$` and forty hex digits is a
/// digest, anything else a nickname.
#[verifier::opaque]
pub open spec fn spec_parse_family_member(s: Seq<char>) -> Result<FamilyMemberView, ParseError> {
    if s.len() > 0 && s[0] == '$' {
        match hex_decode(s.drop_first()) {
            Some(d) => if d.len() == 20 {
                Ok(FamilyMemberView::Digest(d))
            } else {
                Err(ParseError::InvalidHex)
            },
            None => Err(ParseError::InvalidHex),
        }
    } else {
        Ok(FamilyMemberView::Nickname(s))
    }
}

impl FamilyMember {
    /// Reads one word of a `family` line.
    pub fn parse(s: &[char]) -> (r: Result<Self, ParseError>)
        ensures
            match r {
                Ok(m) => spec_parse_family_member(s@) == Ok::<FamilyMemberView, ParseError>(m@),
                Err(e) => spec_parse_family_member(s@) == Err::<FamilyMemberView, ParseError>(e),
            },
    {
        proof {
            reveal(spec_parse_family_member);
        }
        if s.len() > 0 && s[0] == '$' {
            let (_, hex) = s.split_at(1);
            assert(hex@ =~= s@.drop_first());
            match Digest::from_hex(hex) {
                Ok(d) => Ok(FamilyMember::Digest(d)),
                Err(e) => Err(e),
            }
        } else {
            Ok(FamilyMember::Nickname(chars_to_string(s)))
        }
    }
}


/// The map that a sequence of `(key, value)` pairs gives when they are
/// inserted in order: a later value replaces an earlier one for its key.
pub open spec fn pairs_map(e: Seq<(Seq<char>, u32)>) -> Map<Seq<char>, u32>
    decreases e.len(),
{
    if e.len() == 0 {
        Map::empty()
    } else {
        pairs_map(e.drop_last()).insert(e.last().0, e.last().1)
    }
}

/// The texts of the keys of stored pairs.
pub open spec fn pair_views(e: Seq<(String, u32)>) -> Seq<(Seq<char>, u32)> {
    e.map_values(|p: (String, u32)| (p.0@, p.1))
}

/// The bandwidth weights of a consensus footer (such as `Wgg`), by name.
#[derive(Debug, PartialEq, Eq, Clone)]
pub struct BandwithWeights {
    entries: Vec<(String, u32)>,
}

impl View for BandwithWeights {
    type V = Map<Seq<char>, u32>;

    closed spec fn view(&self) -> Map<Seq<char>, u32> {
        pairs_map(pair_views(self.entries@))
    }
}

/// A key that no pair after position `i` has keeps the value that the
/// first `i` pairs give it.
proof fn lemma_pairs_map_suffix(e: Seq<(Seq<char>, u32)>, i: int, k: Seq<char>)
    requires
        0 <= i <= e.len(),
        forall|j: int| i <= j < e.len() ==> (#[trigger] e[j]).0 != k,
    ensures
        pairs_map(e).contains_key(k) == pairs_map(e.take(i)).contains_key(k),
        pairs_map(e).contains_key(k) ==> pairs_map(e)[k] == pairs_map(e.take(i))[k],
    decreases e.len() - i,
{
    if i < e.len() {
        assert(e.drop_last().take(i) =~= e.take(i));
        assert(e.last() == e[e.len() - 1]);
        lemma_pairs_map_suffix(e.drop_last(), i, k);
    } else {
        assert(e.take(i) =~= e);
    }
}

impl BandwithWeights {
    /// No weights.
    pub fn new() -> (r: Self)
        ensures
            r@ == Map::<Seq<char>, u32>::empty(),
    {
        BandwithWeights { entries: Vec::new() }
    }

    /// Sets the weight named `key`, replacing an earlier value.
    pub fn insert(&mut self, key: String, value: u32)
        ensures
            final(self)@ == old(self)@.insert(key@, value),
    {
        let ghost before = self.entries@;
        self.entries.push((key, value));
        assert(pair_views(self.entries@).drop_last() =~= pair_views(before));
    }

    /// The weight named `key`, if the consensus gives it.
    pub fn get(&self, key: &str) -> (r: Option<u32>)
        ensures
            match r {
                Some(v) => self@.contains_key(key@) && self@[key@] == v,
                None => !self@.contains_key(key@),
            },
    {
        let ghost e = pair_views(self.entries@);
        let wanted: String = key.to_owned();
        let mut i: usize = self.entries.len();
        while i > 0
            invariant
                i <= self.entries@.len(),
                e == pair_views(self.entries@),
                wanted@ == key@,
                forall|j: int| i <= j < e.len() ==> (#[trigger] e[j]).0 != key@,
            decreases i,
        {
            let k = &self.entries[i - 1].0;
            assert(e[i - 1].0 == self.entries@[i - 1].0@);
            if *k == wanted {
                proof {
                    lemma_pairs_map_suffix(e, i as int, key@);
                    assert(e.take(i as int).drop_last() =~= e.take(i - 1));
                    assert(e.take(i as int).last() == e[i - 1]);
                }
                return Some(self.entries[i - 1].1);
            }
            assert(e[i - 1].0 == self.entries@[i - 1].0@);
            i = i - 1;
        }
        proof {
            lemma_pairs_map_suffix(e, 0, key@);
            assert(e.take(0) =~= Seq::<(Seq<char>, u32)>::empty());
        }
        None
    }

    /// The stored `(name, weight)` pairs, in the order they were set; a later
    /// pair replaces an earlier one with the same name.
    pub fn entries(&self) -> (r: &Vec<(String, u32)>)
        ensures
            pairs_map(pair_views(r@)) == self@,
    {
        &self.entries
    }
}


/// The abstract value of a `Relay`: what the consensus lists of it and what
/// its descriptor states.
pub struct RelayView {
    pub listed: consensus::RelayView,
    pub described: descriptor::DescriptorView,
}

/// A relay: its consensus entry joined with its descriptor.
#[derive(Debug, PartialEq, Eq, Clone)]
pub struct Relay {
    pub nickname: String,
    pub id: RelayId,
    pub digest: Digest,
    // publication
    pub ip: Ipv4Addr,
    pub orport: Port,
    pub dirport: Port,
    pub ipv6: Option<SocketAddrV6>,
    pub flags: RelayFlags,
    pub verison: Version,
    pub consensus_bandwith: u32,
    pub uptime: Uptime,
    pub bandwidth: Bandwidth,
    pub family: Vec<FamilyMember>,
}

impl View for Relay {
    type V = RelayView;

    open spec fn view(&self) -> RelayView {
        RelayView {
            listed: consensus::RelayView {
                nickname: self.nickname@,
                id: self.id@,
                digest: self.digest@,
                ip: self.ip@,
                orport: self.orport@,
                dirport: self.dirport@,
                ipv6: consensus::opt_v6_view(self.ipv6),
                flags: self.flags@,
                bandwidth: self.consensus_bandwith,
                version: self.verison@,
            },
            described: descriptor::DescriptorView {
                uptime: self.uptime@,
                bandwidth: self.bandwidth,
                family: descriptor::member_views(self.family@),
            },
        }
    }
}

impl From<(consensus::Relay, descriptor::Descriptor)> for Relay {
    fn from(pair: (consensus::Relay, descriptor::Descriptor)) -> (r: Self) {
        let (relay, descriptor) = pair;
        Relay {
            nickname: relay.nickname,
            id: relay.id,
            digest: relay.digest,
            ip: relay.ip,
            orport: relay.orport,
            dirport: relay.dirport,
            ipv6: relay.ipv6,
            flags: relay.flags,
            verison: relay.verison,
            consensus_bandwith: relay.bandwidth,
            uptime: descriptor.uptime,
            bandwidth: descriptor.bandwidth,
            family: descriptor.family,
        }
    }
}

impl vstd::std_specs::convert::FromSpecImpl<(consensus::Relay, descriptor::Descriptor)> for Relay {
    open spec fn obeys_from_spec() -> bool {
        true
    }

    open spec fn from_spec(v: (consensus::Relay, descriptor::Descriptor)) -> Self {
        Relay {
            nickname: v.0.nickname,
            id: v.0.id,
            digest: v.0.digest,
            ip: v.0.ip,
            orport: v.0.orport,
            dirport: v.0.dirport,
            ipv6: v.0.ipv6,
            flags: v.0.flags,
            verison: v.0.verison,
            consensus_bandwith: v.0.bandwidth,
            uptime: v.1.uptime,
            bandwidth: v.1.bandwidth,
            family: v.1.family,
        }
    }
}

/// Whether the family that relay `a` declares names relay `b`, by identity
/// or by nickname.
pub open spec fn declares(a: RelayView, b: RelayView) -> bool {
    exists|i: int|
        0 <= i < a.described.family.len() && match #[trigger] a.described.family[i] {
            FamilyMemberView::Digest(d) => d == b.listed.id,
            FamilyMemberView::Nickname(n) => n == b.listed.nickname,
        }
}

/// Whether two relays may stand together in one circuit: they are two
/// relays, not in the same IPv4 /16 network, and not in one family (each
/// declaring the other).
pub open spec fn spec_reach(a: RelayView, b: RelayView) -> bool {
    &&& a.listed.id != b.listed.id
    &&& !(a.listed.ip[0] == b.listed.ip[0] && a.listed.ip[1] == b.listed.ip[1])
    &&& !(declares(a, b) && declares(b, a))
}

/// The weight named `name`, or 0 when the consensus gives none.
pub open spec fn weight_or_zero(weights: Map<Seq<char>, u32>, name: Seq<char>) -> u32 {
    if weights.contains_key(name) {
        weights[name]
    } else {
        0
    }
}

/// Whether the relay's flags hold `flag`.
pub open spec fn has_flag(r: RelayView, flag: RelayFlag) -> bool {
    r.listed.flags & flag.spec_bit() == flag.spec_bit()
}

impl Relay {
    /// The bandwidth weight (in ten-thousandths) of the relay in the guard
    /// position: `Wgd` for a relay that is also an exit, `Wgg` otherwise; 0
    /// when the consensus gives none.
    pub fn guard_weight(&self, weights: &BandwithWeights) -> (r: u32)
        ensures
            r == weight_or_zero(
                weights@,
                if has_flag(self@, RelayFlag::Exit) {
                    "Wgd"@
                } else {
                    "Wgg"@
                },
            ),
    {
        let w = if self.is_exit() {
            weights.get("Wgd")
        } else {
            weights.get("Wgg")
        };
        match w {
            Some(v) => v,
            None => 0,
        }
    }

    /// The bandwidth weight (in ten-thousandths) of the relay in the exit
    /// position: `Wed` for a relay that is also a guard, `Wee` otherwise; 0
    /// when the consensus gives none.
    pub fn exit_weight(&self, weights: &BandwithWeights) -> (r: u32)
        ensures
            r == weight_or_zero(
                weights@,
                if has_flag(self@, RelayFlag::Guard) {
                    "Wed"@
                } else {
                    "Wee"@
                },
            ),
    {
        let w = if self.is_guard() {
            weights.get("Wed")
        } else {
            weights.get("Wee")
        };
        match w {
            Some(v) => v,
            None => 0,
        }
    }

    /// Whether the relay holds the `Guard` flag.
    pub fn is_guard(&self) -> (r: bool)
        ensures
            r == (self@.listed.flags & RelayFlag::Guard.spec_bit() == RelayFlag::Guard.spec_bit()),
    {
        self.flags.has(RelayFlag::Guard)
    }

    /// Whether the relay holds the `Exit` flag.
    pub fn is_exit(&self) -> (r: bool)
        ensures
            r == (self@.listed.flags & RelayFlag::Exit.spec_bit() == RelayFlag::Exit.spec_bit()),
    {
        self.flags.has(RelayFlag::Exit)
    }

    /// Whether the relay holds both the `Guard` and the `Exit` flag.
    pub fn is_dual(&self) -> (r: bool)
        ensures
            r == (self@.listed.flags & RelayFlag::Guard.spec_bit() == RelayFlag::Guard.spec_bit()
                && self@.listed.flags & RelayFlag::Exit.spec_bit() == RelayFlag::Exit.spec_bit()),
    {
        self.is_guard() && self.is_exit()
    }

    /// The relay's identity as forty upper-case hexadecimal digits.
    pub fn fingerprint(&self) -> (r: String)
        ensures
            r@ == hex_encode(self@.listed.id, true),
    {
        self.id.fingerprint()
    }

    /// Whether the family that this relay declares names `other`.
    pub fn declares(&self, other: &Relay) -> (r: bool)
        ensures
            r == declares(self@, other@),
    {
        let other_id = other.id.bytes();
        let mut i: usize = 0;
        while i < self.family.len()
            invariant
                i <= self.family@.len(),
                other_id@ == other@.listed.id,
                forall|j: int|
                    0 <= j < i ==> !match #[trigger] self@.described.family[j] {
                        FamilyMemberView::Digest(d) => d == other@.listed.id,
                        FamilyMemberView::Nickname(n) => n == other@.listed.nickname,
                    },
            decreases self.family.len() - i,
        {
            assert(self@.described.family[i as int] == self.family@[i as int]@);
            let found = match &self.family[i] {
                FamilyMember::Digest(d) => {
                    let b = d.bytes();
                    let mut same = true;
                    let mut k: usize = 0;
                    while k < 20
                        invariant
                            k <= 20,
                            b@.len() == 20,
                            other_id@.len() == 20,
                            same == (forall|m: int| 0 <= m < k ==> b@[m] == other_id@[m]),
                        decreases 20 - k,
                    {
                        if b[k] != other_id[k] {
                            same = false;
                        }
                        k = k + 1;
                    }
                    assert(same == (b@ == other_id@)) by {
                        if same {
                            assert(b@ =~= other_id@);
                        }
                    }
                    same
                },
                FamilyMember::Nickname(n) => *n == other.nickname,
            };
            if found {
                return true;
            }
            i = i + 1;
        }
        false
    }

    /// Whether this relay and `other` may stand together in one circuit:
    /// they are two relays, not in the same IPv4 /16 network, and not in
    /// one family.
    pub fn reach(&self, other: &Relay) -> (r: bool)
        ensures
            r == spec_reach(self@, other@),
    {
        let a = self.id.bytes();
        let b = other.id.bytes();
        let mut same_id = true;
        let mut k: usize = 0;
        while k < 20
            invariant
                k <= 20,
                a@.len() == 20,
                b@.len() == 20,
                same_id == (forall|m: int| 0 <= m < k ==> a@[m] == b@[m]),
            decreases 20 - k,
        {
            if a[k] != b[k] {
                same_id = false;
            }
            k = k + 1;
        }
        assert(same_id == (a@ == b@)) by {
            if same_id {
                assert(a@ =~= b@);
            }
        }
        let x = self.ip.octets();
        let y = other.ip.octets();
        let same_net = x[0] == y[0] && x[1] == y[1];
        !same_id && !same_net && !(self.declares(other) && other.declares(self))
    }
}

/// The positions, in order, of the relays of `rs` that hold `flag` and
/// may stand in one circuit with `r`.
pub open spec fn partner_positions(rs: Seq<RelayView>, r: RelayView, flag: RelayFlag) -> Seq<int>
    decreases rs.len(),
{
    if rs.len() == 0 {
        seq![]
    } else {
        let earlier = partner_positions(rs.drop_last(), r, flag);
        if has_flag(rs.last(), flag) && spec_reach(r, rs.last()) {
            earlier.push(rs.len() - 1)
        } else {
            earlier
        }
    }
}

/// The positions, in order, of the relays of `relays` that hold `flag` and
/// may stand in one circuit with `relay`: with `Exit`, the exits that a
/// guard is paired with; with `Guard`, the guards that an exit is paired
/// with.
pub fn partners(relays: &[Relay], relay: &Relay, flag: RelayFlag) -> (r: Vec<usize>)
    ensures
        r@.map_values(|i: usize| i as int) == partner_positions(relay_views(relays@), relay@, flag),
{
    let ghost rs = relay_views(relays@);
    let mut r: Vec<usize> = Vec::new();
    let mut i: usize = 0;
    assert(r@.map_values(|k: usize| k as int) =~= partner_positions(rs.take(0), relay@, flag));
    while i < relays.len()
        invariant
            i <= relays@.len(),
            rs == relay_views(relays@),
            r@.map_values(|k: usize| k as int) == partner_positions(rs.take(i as int), relay@, flag),
        decreases relays.len() - i,
    {
        assert(rs.take(i + 1).drop_last() =~= rs.take(i as int));
        assert(rs.take(i + 1).last() == relays@[i as int]@);
        let ghost before = r@.map_values(|k: usize| k as int);
        if relays[i].flags.has(flag) && relay.reach(&relays[i]) {
            r.push(i);
            assert(r@.map_values(|k: usize| k as int) =~= before.push(i as int));
        }
        i = i + 1;
    }
    assert(rs.take(i as int) =~= rs);
    r
}

/// The relays of the network, with the bandwidth weights of the consensus.
#[derive(Debug, PartialEq, Eq, Clone)]
pub struct Consensus {
    relays: Vec<Relay>,
    bandwidth_weights: BandwithWeights,
}

/// The abstract value of a `Consensus`.
pub struct ConsensusView {
    pub relays: Seq<RelayView>,
    pub bandwidth_weights: Map<Seq<char>, u32>,
}

/// The abstract values of a sequence of relays.
pub open spec fn relay_views(v: Seq<Relay>) -> Seq<RelayView> {
    v.map_values(|r: Relay| r@)
}

impl View for Consensus {
    type V = ConsensusView;

    closed spec fn view(&self) -> ConsensusView {
        ConsensusView {
            relays: relay_views(self.relays@),
            bandwidth_weights: self.bandwidth_weights@,
        }
    }
}

impl Consensus {
    /// The network made of the given relays and weights.
    pub fn from_parts(relays: Vec<Relay>, bandwidth_weights: BandwithWeights) -> (r: Self)
        ensures
            r@.relays == relay_views(relays@),
            r@.bandwidth_weights == bandwidth_weights@,
    {
        Consensus { relays, bandwidth_weights }
    }

    /// The relays.
    pub fn relays(&self) -> (r: &[Relay])
        ensures
            relay_views(r@) == self@.relays,
    {
        self.relays.as_slice()
    }

    /// The bandwidth weights of the consensus.
    pub fn bandwidth_weights(&self) -> (r: &BandwithWeights)
        ensures
            r@ == self@.bandwidth_weights,
    {
        &self.bandwidth_weights
    }
}


impl std::str::FromStr for RelayId {
    type Err = ParseError;

    fn from_str(s: &str) -> (r: Result<Self, ParseError>)
        ensures
            match r {
                Ok(id) => spec_parse_id(s@) == Ok::<Seq<u8>, ParseError>(id@),
                Err(e) => spec_parse_id(s@) == Err::<Seq<u8>, ParseError>(e),
            },
    {
        let chars = str_to_chars(s);
        Self::parse(chars.as_slice())
    }
}

impl std::str::FromStr for Digest {
    type Err = ParseError;

    fn from_str(s: &str) -> (r: Result<Self, ParseError>)
        ensures
            match r {
                Ok(d) => spec_parse_id(s@) == Ok::<Seq<u8>, ParseError>(d@),
                Err(e) => spec_parse_id(s@) == Err::<Seq<u8>, ParseError>(e),
            },
    {
        let chars = str_to_chars(s);
        Self::parse(chars.as_slice())
    }
}

impl std::str::FromStr for Port {
    type Err = ParseError;

    fn from_str(s: &str) -> (r: Result<Self, ParseError>)
        ensures
            match r {
                Ok(p) => parse_unsigned(s@, u16::MAX as nat) == Some(p@ as nat),
                Err(e) => e == ParseError::InvalidNumber && parse_unsigned(s@, u16::MAX as nat) is None,
            },
    {
        let chars = str_to_chars(s);
        Self::parse(chars.as_slice())
    }
}

impl std::str::FromStr for Uptime {
    type Err = ParseError;

    fn from_str(s: &str) -> (r: Result<Self, ParseError>)
        ensures
            match r {
                Ok(u) => parse_unsigned(s@, u32::MAX as nat) == Some(u@ as nat),
                Err(e) => e == ParseError::InvalidNumber && parse_unsigned(s@, u32::MAX as nat) is None,
            },
    {
        let chars = str_to_chars(s);
        Self::parse(chars.as_slice())
    }
}

impl std::str::FromStr for RelayFlags {
    type Err = ParseError;

    fn from_str(s: &str) -> (r: Result<Self, ParseError>)
        ensures
            match r {
                Ok(f) => flag_bit(s@) == Some(f@),
                Err(e) => e == ParseError::UnknownFlag && flag_bit(s@) is None,
            },
    {
        let chars = str_to_chars(s);
        Self::parse(chars.as_slice())
    }
}

impl std::str::FromStr for Version {
    type Err = ParseError;

    fn from_str(s: &str) -> (r: Result<Self, ParseError>)
        ensures
            match r {
                Ok(v) => spec_parse_version(s@) == Ok::<VersionView, ParseError>(v@),
                Err(e) => spec_parse_version(s@) == Err::<VersionView, ParseError>(e),
            },
    {
        let chars = str_to_chars(s);
        Self::parse(chars.as_slice())
    }
}

impl std::str::FromStr for Bandwidth {
    type Err = ParseError;

    fn from_str(s: &str) -> (r: Result<Self, ParseError>)
        ensures
            r == spec_parse_bandwidth(s@),
    {
        let chars = str_to_chars(s);
        Self::parse(chars.as_slice())
    }
}

impl std::str::FromStr for FamilyMember {
    type Err = ParseError;

    fn from_str(s: &str) -> (r: Result<Self, ParseError>)
        ensures
            match r {
                Ok(m) => spec_parse_family_member(s@) == Ok::<FamilyMemberView, ParseError>(m@),
                Err(e) => spec_parse_family_member(s@) == Err::<FamilyMemberView, ParseError>(e),
            },
    {
        let chars = str_to_chars(s);
        Self::parse(chars.as_slice())
    }
}


impl From<[u8; 20]> for RelayId {
    fn from(v: [u8; 20]) -> (r: Self) {
        RelayId(v)
    }
}

impl vstd::std_specs::convert::FromSpecImpl<[u8; 20]> for RelayId {
    open spec fn obeys_from_spec() -> bool {
        true
    }

    closed spec fn from_spec(v: [u8; 20]) -> Self {
        RelayId(v)
    }
}

impl From<[u8; 20]> for Digest {
    fn from(v: [u8; 20]) -> (r: Self) {
        Digest(v)
    }
}

impl vstd::std_specs::convert::FromSpecImpl<[u8; 20]> for Digest {
    open spec fn obeys_from_spec() -> bool {
        true
    }

    closed spec fn from_spec(v: [u8; 20]) -> Self {
        Digest(v)
    }
}

impl From<u16> for Port {
    fn from(v: u16) -> (r: Self) {
        Port(v)
    }
}

impl vstd::std_specs::convert::FromSpecImpl<u16> for Port {
    open spec fn obeys_from_spec() -> bool {
        true
    }

    closed spec fn from_spec(v: u16) -> Self {
        Port(v)
    }
}

impl From<u32> for Uptime {
    fn from(v: u32) -> (r: Self) {
        Uptime(v)
    }
}

impl vstd::std_specs::convert::FromSpecImpl<u32> for Uptime {
    open spec fn obeys_from_spec() -> bool {
        true
    }

    closed spec fn from_spec(v: u32) -> Self {
        Uptime(v)
    }
}

} // verus!
