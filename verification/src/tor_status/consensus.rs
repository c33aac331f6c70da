//! The network-status consensus: the relays that the directory
//! authorities list, and the bandwidth weights of its footer.

use vstd::prelude::*;
use crate::numbers::{parse_u32, parse_unsigned};
use crate::text::{
    chars_to_string, eq_str, is_single, lemma_split_all_nonempty, lemma_split_once, str_to_chars, split_all, split_all_at, split_once, split_once_at,
    views,
};
use crate::tor_status::net::{
    spec_parse_ipv4, spec_parse_socket_v6, Ipv4Addr, SocketAddrV6, SocketAddrV6View,
};
use crate::tor_status::{
    flag_bit, pairs_map, spec_parse_id, spec_parse_version, BandwithWeights, Digest,
    ParseError, Port, RelayFlags, RelayId, Version, VersionView,
};

verus! {

/// The abstract value of a consensus `Relay`.
pub struct RelayView {
    pub nickname: Seq<char>,
    pub id: Seq<u8>,
    pub digest: Seq<u8>,
    pub ip: Seq<u8>,
    pub orport: u16,
    pub dirport: u16,
    pub ipv6: Option<SocketAddrV6View>,
    pub flags: u16,
    pub bandwidth: u32,
    pub version: VersionView,
}

/// A relay as the consensus lists it.
#[derive(Debug, PartialEq, Eq, Clone)]
pub struct Relay {
    pub nickname: String,
    pub id: RelayId,
    pub digest: Digest,
    // publication
    pub ip: Ipv4Addr,
    pub orport: Port,
    pub dirport: Port,
    pub ipv6: Option<SocketAddrV6>,
    pub flags: RelayFlags,
    pub bandwidth: u32,
    pub verison: Version,
}

/// The abstract value of an optional IPv6 socket address.
pub open spec fn opt_v6_view(a: Option<SocketAddrV6>) -> Option<SocketAddrV6View> {
    match a {
        Some(x) => Some(x@),
        None => None,
    }
}

impl View for Relay {
    type V = RelayView;

    open spec fn view(&self) -> RelayView {
        RelayView {
            nickname: self.nickname@,
            id: self.id@,
            digest: self.digest@,
            ip: self.ip@,
            orport: self.orport@,
            dirport: self.dirport@,
            ipv6: opt_v6_view(self.ipv6),
            flags: self.flags@,
            bandwidth: self.bandwidth,
            version: self.verison@,
        }
    }
}

/// The flags that the words of an `s` line name, as a bit set; `None` when
/// a word names no flag.
pub open spec fn flags_of(tokens: Seq<Seq<char>>) -> Option<u16>
    decreases tokens.len(),
{
    if tokens.len() == 0 {
        Some(0)
    } else {
        match (flags_of(tokens.drop_last()), flag_bit(tokens.last())) {
            (Some(b), Some(f)) => Some(b | f),
            _ => None,
        }
    }
}

/// What reading the content of an `s` line gives.
#[verifier::opaque]
pub open spec fn spec_parse_flags(s: Seq<char>) -> Result<u16, ParseError> {
    match flags_of(split_all(s, ' ')) {
        Some(b) => Ok(b),
        None => Err(ParseError::UnknownFlag),
    }
}

/// The fields of an `r` line: nickname, identity, digest, address, OR port
/// and directory port.
pub type RLine = (Seq<char>, Seq<u8>, Seq<u8>, Seq<u8>, u16, u16);

/// What reading the content of an `r` line gives: the nickname, identity
/// and digest are its first three words; after the publication date and
/// time come the address and the two ports.
#[verifier::opaque]
pub open spec fn spec_parse_r_line(content: Seq<char>) -> Result<RLine, ParseError> {
    let p = split_all(content, ' ');
    if p.len() < 2 {
        Err(ParseError::MissingField)
    } else {
        match spec_parse_id(p[1]) {
            Err(e) => Err(e),
            Ok(id) => if p.len() < 3 {
                Err(ParseError::MissingField)
            } else {
                match spec_parse_id(p[2]) {
                    Err(e) => Err(e),
                    Ok(digest) => if p.len() < 6 {
                        Err(ParseError::MissingField)
                    } else {
                        match spec_parse_ipv4(p[5]) {
                            None => Err(ParseError::InvalidAddress),
                            Some(ip) => if p.len() < 7 {
                                Err(ParseError::MissingField)
                            } else {
                                match parse_unsigned(p[6], u16::MAX as nat) {
                                    None => Err(ParseError::InvalidNumber),
                                    Some(orport) => if p.len() < 8 {
                                        Err(ParseError::MissingField)
                                    } else {
                                        match parse_unsigned(p[7], u16::MAX as nat) {
                                            None => Err(ParseError::InvalidNumber),
                                            Some(dirport) => Ok(
                                                (
                                                    p[0],
                                                    id,
                                                    digest,
                                                    ip,
                                                    orport as u16,
                                                    dirport as u16,
                                                ),
                                            ),
                                        }
                                    },
                                }
                            },
                        }
                    },
                }
            },
        }
    }
}

/// What reading the content of a `w` line gives: the number after the first
/// `=` of its first word.
#[verifier::opaque]
pub open spec fn spec_parse_w_line(content: Seq<char>) -> Result<u32, ParseError> {
    let first = match split_once(content, ' ') {
        Some((a, _)) => a,
        None => content,
    };
    match split_once(first, '=') {
        None => Err(ParseError::MissingSeparator),
        Some((_, bdw)) => match parse_unsigned(bdw, u32::MAX as nat) {
            Some(v) => Ok(v as u32),
            None => Err(ParseError::InvalidNumber),
        },
    }
}

/// The fields of a relay entry read so far.
pub struct RelayFields {
    pub r: Option<RLine>,
    pub ipv6: Option<SocketAddrV6View>,
    pub flags: Option<u16>,
    pub version: Option<VersionView>,
    pub bandwidth: Option<u32>,
}

/// No field read yet.
pub open spec fn no_fields() -> RelayFields {
    RelayFields { r: None, ipv6: None, flags: None, version: None, bandwidth: None }
}

/// The relay that the fields read make, once its `p` line is reached.
pub open spec fn finish_relay(f: RelayFields) -> Result<RelayView, ParseError> {
    match (f.r, f.flags, f.version, f.bandwidth) {
        (Some(r), Some(flags), Some(version), Some(bandwidth)) => Ok(
            RelayView {
                nickname: r.0,
                id: r.1,
                digest: r.2,
                ip: r.3,
                orport: r.4,
                dirport: r.5,
                ipv6: f.ipv6,
                flags,
                bandwidth,
                version,
            },
        ),
        _ => Err(ParseError::MissingField),
    }
}

/// The fields after reading a line that starts with `start` and goes on
/// with `content`: `r`, `a`, `s`, `v` and `w` lines set fields, other lines
/// change nothing.
#[verifier::opaque]
pub open spec fn step_fields(start: Seq<char>, content: Seq<char>, f: RelayFields) -> Result<
    RelayFields,
    ParseError,
> {
    if start == seq!['r'] {
        match spec_parse_r_line(content) {
            Err(e) => Err(e),
            Ok(r) => Ok(RelayFields { r: Some(r), ..f }),
        }
    } else if start == seq!['a'] {
        match spec_parse_socket_v6(content) {
            None => Err(ParseError::InvalidAddress),
            Some(a) => Ok(RelayFields { ipv6: Some(a), ..f }),
        }
    } else if start == seq!['s'] {
        match spec_parse_flags(content) {
            Err(e) => Err(e),
            Ok(b) => Ok(RelayFields { flags: Some(b), ..f }),
        }
    } else if start == seq!['v'] {
        match spec_parse_version(content) {
            Err(e) => Err(e),
            Ok(v) => Ok(RelayFields { version: Some(v), ..f }),
        }
    } else if start == seq!['w'] {
        match spec_parse_w_line(content) {
            Err(e) => Err(e),
            Ok(b) => Ok(RelayFields { bandwidth: Some(b), ..f }),
        }
    } else {
        Ok(f)
    }
}

/// Reading a relay entry from `s`, with the fields `f` read already: one
/// line at a time, each line a keyword, a space and its content; a `p` line
/// ends the entry, and the text after it is returned with the relay.
pub open spec fn relay_entry(s: Seq<char>, f: RelayFields) -> Result<
    (RelayView, Seq<char>),
    ParseError,
>
    decreases s.len(),
{
    match split_once(s, '\n') {
        None => Err(ParseError::MissingSeparator),
        Some((line, rest)) => {
            proof {
                lemma_split_once(s, '\n');
            }
            match split_once(line, ' ') {
                None => Err(ParseError::MissingSeparator),
                Some((start, content)) => {
                    if start == seq!['p'] {
                        match finish_relay(f) {
                            Err(e) => Err(e),
                            Ok(relay) => Ok((relay, rest)),
                        }
                    } else {
                        match step_fields(start, content, f) {
                            Err(e) => Err(e),
                            Ok(f2) => relay_entry(rest, f2),
                        }
                    }
                },
            }
        },
    }
}

/// What reading one relay entry from the start of `s` gives.
pub open spec fn spec_parse_relay(s: Seq<char>) -> Result<(RelayView, Seq<char>), ParseError> {
    relay_entry(s, no_fields())
}

/// The text after a relay entry is shorter than the text it was read from.
pub proof fn lemma_relay_entry_shrinks(s: Seq<char>, f: RelayFields)
    ensures
        relay_entry(s, f) matches Ok((_, rest)) ==> rest.len() < s.len(),
    decreases s.len(),
{
    lemma_split_once(s, '\n');
    if let Some((line, rest)) = split_once(s, '\n') {
        if let Some((start, content)) = split_once(line, ' ') {
            if start != seq!['p'] {
                if let Ok(f2) = step_fields(start, content, f) {
                    lemma_relay_entry_shrinks(rest, f2);
                }
            }
        }
    }
}


/// A missing prefix value makes the whole fold fail.
proof fn lemma_flags_of_prefix(t: Seq<Seq<char>>, i: int)
    requires
        0 <= i <= t.len(),
        flags_of(t.take(i)) is None,
    ensures
        flags_of(t) is None,
    decreases t.len() - i,
{
    if i < t.len() {
        assert(t.take(i + 1).drop_last() =~= t.take(i));
        lemma_flags_of_prefix(t, i + 1);
    } else {
        assert(t.take(i) =~= t);
    }
}

/// The abstract value of the fields of an `r` line.
pub open spec fn r_line_view(r: (String, RelayId, Digest, Ipv4Addr, Port, Port)) -> RLine {
    (r.0@, r.1@, r.2@, r.3@, r.4@, r.5@)
}

/// The fields of a relay entry read so far.
struct EntryFields {
    r: Option<(String, RelayId, Digest, Ipv4Addr, Port, Port)>,
    ipv6: Option<SocketAddrV6>,
    flags: Option<RelayFlags>,
    version: Option<Version>,
    bandwidth: Option<u32>,
}

impl View for EntryFields {
    type V = RelayFields;

    closed spec fn view(&self) -> RelayFields {
        RelayFields {
            r: match self.r {
                Some(x) => Some(r_line_view(x)),
                None => None,
            },
            ipv6: opt_v6_view(self.ipv6),
            flags: match self.flags {
                Some(x) => Some(x@),
                None => None,
            },
            version: match self.version {
                Some(x) => Some(x@),
                None => None,
            },
            bandwidth: self.bandwidth,
        }
    }
}

/// Reads one line of a relay entry that is not its `p` line.
fn step_fields_exec(start: &[char], content: &[char], f: &mut EntryFields) -> (res: Result<
    (),
    ParseError,
>)
    ensures
        match res {
            Ok(()) => step_fields(start@, content@, old(f)@) == Ok::<RelayFields, ParseError>(
                final(f)@,
            ),
            Err(e) => step_fields(start@, content@, old(f)@) == Err::<RelayFields, ParseError>(e),
        },
{
    proof {
        reveal(step_fields);
    }
    if is_single(start, 'r') {
        match parse_r_line(content) {
            Ok(x) => {
                f.r = Some(x);
            },
            Err(e) => return Err(e),
        }
    } else if is_single(start, 'a') {
        match SocketAddrV6::parse(content) {
            Some(a) => {
                f.ipv6 = Some(a);
            },
            None => return Err(ParseError::InvalidAddress),
        }
    } else if is_single(start, 's') {
        match Relay::parse_flags(content) {
            Ok(b) => {
                f.flags = Some(b);
            },
            Err(e) => return Err(e),
        }
    } else if is_single(start, 'v') {
        match Version::parse(content) {
            Ok(v) => {
                f.version = Some(v);
            },
            Err(e) => return Err(e),
        }
    } else if is_single(start, 'w') {
        match parse_w_line(content) {
            Ok(b) => {
                f.bandwidth = Some(b);
            },
            Err(e) => return Err(e),
        }
    }
    Ok(())
}

/// Reads the fields of an `r` line.
fn parse_r_line(content: &[char]) -> (r: Result<(String, RelayId, Digest, Ipv4Addr, Port, Port), ParseError>)
    ensures
        match r {
            Ok(x) => spec_parse_r_line(content@) == Ok::<RLine, ParseError>(r_line_view(x)),
            Err(e) => spec_parse_r_line(content@) == Err::<RLine, ParseError>(e),
        },
{
    proof {
        reveal(spec_parse_r_line);
    }
    let p = split_all_at(content, ' ');
    let ghost v = views(p@);
    assert(v.len() == p@.len());
    proof {
        assert forall|i: int| 0 <= i < p@.len() implies v[i] == (#[trigger] p@[i])@ by {}
    }
    if p.len() < 2 {
        return Err(ParseError::MissingField);
    }
    assert(v[1] == p@[1]@);
    let id = match RelayId::parse(p[1]) {
        Ok(id) => id,
        Err(e) => return Err(e),
    };
    if p.len() < 3 {
        return Err(ParseError::MissingField);
    }
    assert(v[2] == p@[2]@);
    let digest = match Digest::parse(p[2]) {
        Ok(d) => d,
        Err(e) => return Err(e),
    };
    if p.len() < 6 {
        return Err(ParseError::MissingField);
    }
    assert(v[5] == p@[5]@);
    let ip = match Ipv4Addr::parse(p[5]) {
        Some(a) => a,
        None => return Err(ParseError::InvalidAddress),
    };
    if p.len() < 7 {
        return Err(ParseError::MissingField);
    }
    assert(v[6] == p@[6]@);
    let orport = match Port::parse(p[6]) {
        Ok(x) => x,
        Err(e) => return Err(e),
    };
    if p.len() < 8 {
        return Err(ParseError::MissingField);
    }
    assert(v[7] == p@[7]@);
    let dirport = match Port::parse(p[7]) {
        Ok(x) => x,
        Err(e) => return Err(e),
    };
    assert(v[0] == p@[0]@);
    let nickname = chars_to_string(p[0]);
    Ok((nickname, id, digest, ip, orport, dirport))
}

/// Reads the bandwidth of a `w` line.
fn parse_w_line(content: &[char]) -> (r: Result<u32, ParseError>)
    ensures
        r == spec_parse_w_line(content@),
{
    proof {
        reveal(spec_parse_w_line);
    }
    let first = match split_once_at(content, ' ') {
        Some((a, _)) => a,
        None => content,
    };
    match split_once_at(first, '=') {
        None => Err(ParseError::MissingSeparator),
        Some((_, bdw)) => match parse_u32(bdw) {
            Some(v) => Ok(v),
            None => Err(ParseError::InvalidNumber),
        },
    }
}

impl Relay {
    /// Reads one relay entry from the start of `s`; also gives the text
    /// after its `p` line.
    pub fn parse_relay(s: &[char]) -> (r: Result<(Self, &[char]), ParseError>)
        ensures
            match r {
                Ok((relay, rest)) => spec_parse_relay(s@) == Ok::<(RelayView, Seq<char>), ParseError>(
                    (relay@, rest@),
                ),
                Err(e) => spec_parse_relay(s@) == Err::<(RelayView, Seq<char>), ParseError>(e),
            },
    {
        let mut f = EntryFields { r: None, ipv6: None, flags: None, version: None, bandwidth: None };
        let mut cur: &[char] = s;
        loop
            invariant
                relay_entry(cur@, f@) == spec_parse_relay(s@),
            decreases cur@.len(),
        {
            proof {
                lemma_split_once(cur@, '\n');
            }
            let (line, rest) = match split_once_at(cur, '\n') {
                Some(x) => x,
                None => return Err(ParseError::MissingSeparator),
            };
            let (start, content) = match split_once_at(line, ' ') {
                Some(x) => x,
                None => return Err(ParseError::MissingSeparator),
            };
            if is_single(start, 'p') {
                return match (f.r, f.flags, f.version, f.bandwidth) {
                    (Some(x), Some(fl), Some(ver), Some(bw)) => {
                        let relay = Relay {
                            nickname: x.0,
                            id: x.1,
                            digest: x.2,
                            ip: x.3,
                            orport: x.4,
                            dirport: x.5,
                            ipv6: f.ipv6,
                            flags: fl,
                            bandwidth: bw,
                            verison: ver,
                        };
                        Ok((relay, rest))
                    },
                    _ => Err(ParseError::MissingField),
                };
            }
            match step_fields_exec(start, content, &mut f) {
                Ok(()) => {},
                Err(e) => return Err(e),
            }
            cur = rest;
        }
    }

    /// Reads the flags of an `s` line: one flag name per word.
    pub fn parse_flags(s: &[char]) -> (r: Result<RelayFlags, ParseError>)
        ensures
            match r {
                Ok(f) => spec_parse_flags(s@) == Ok::<u16, ParseError>(f@),
                Err(e) => spec_parse_flags(s@) == Err::<u16, ParseError>(e),
            },
    {
        proof {
            reveal(spec_parse_flags);
        }
        let tokens = split_all_at(s, ' ');
        let ghost t = views(tokens@);
        let mut flags = RelayFlags::empty();
        let mut i: usize = 0;
        assert(t.take(0) =~= Seq::<Seq<char>>::empty());
        while i < tokens.len()
            invariant
                i <= tokens@.len(),
                t == views(tokens@),
                t == split_all(s@, ' '),
                t.len() == tokens@.len(),
                flags_of(t.take(i as int)) == Some(flags@),
            decreases tokens.len() - i,
        {
            assert(t.take(i + 1).drop_last() =~= t.take(i as int));
            assert(t.take(i + 1).last() == tokens@[i as int]@);
            match RelayFlags::parse(tokens[i]) {
                Ok(f) => {
                    flags = flags.union(&f);
                },
                Err(_) => {
                    proof {
                        assert(flag_bit(t.take(i + 1).last()) is None);
                        assert(flags_of(t.take(i + 1)) is None);
                        lemma_flags_of_prefix(t, i + 1);
                        reveal(spec_parse_flags);
                    }
                    return Err(ParseError::UnknownFlag);
                },
            }
            i = i + 1;
        }
        assert(t.take(i as int) =~= t);
        Ok(flags)
    }
}


/// The text from the first line whose first word is `word`: lines are
/// skipped one at a time, each from its first space to the end of the line.
pub open spec fn skip_until(s: Seq<char>, word: Seq<char>) -> Result<Seq<char>, ParseError>
    decreases s.len(),
{
    match split_once(s, ' ') {
        None => Err(ParseError::MissingSeparator),
        Some((start, rest)) => {
            if start == word {
                Ok(s)
            } else {
                match split_once(rest, '\n') {
                    None => Err(ParseError::MissingSeparator),
                    Some((_, rest2)) => {
                        proof {
                            lemma_split_once(s, ' ');
                            lemma_split_once(rest, '\n');
                        }
                        skip_until(rest2, word)
                    },
                }
            }
        },
    }
}

/// What skipping the preamble gives: the text from the first `dir-source`
/// line.
pub open spec fn spec_parse_preamble(s: Seq<char>) -> Result<Seq<char>, ParseError> {
    skip_until(s, "dir-source"@)
}

/// What skipping the authority section gives: the text from the first `r`
/// line.
pub open spec fn spec_parse_authorities(s: Seq<char>) -> Result<Seq<char>, ParseError> {
    skip_until(s, seq!['r'])
}

/// Reading relay entries from `s` after the relays `acc`: an `r` line starts
/// an entry, a `directory-footer` line ends the list, and any other line is
/// refused.
pub open spec fn relays_from(s: Seq<char>, acc: Seq<RelayView>) -> Result<
    (Seq<RelayView>, Seq<char>),
    ParseError,
>
    decreases s.len(),
{
    match split_once(s, '\n') {
        None => Err(ParseError::MissingSeparator),
        Some((line, _)) => {
            let (start, content) = match split_once(line, ' ') {
                Some(x) => x,
                None => (line, seq![]),
            };
            if start == seq!['r'] {
                match spec_parse_relay(s) {
                    Err(e) => Err(e),
                    Ok((relay, rest)) => {
                        proof {
                            lemma_relay_entry_shrinks(s, no_fields());
                        }
                        relays_from(rest, acc.push(relay))
                    },
                }
            } else if start == "directory-footer"@ {
                Ok((acc, s))
            } else {
                match split_once(content, '\n') {
                    None => Err(ParseError::MissingSeparator),
                    Some((_, rest)) => {
                        proof {
                            lemma_split_once(s, '\n');
                            lemma_split_once(line, ' ');
                            lemma_split_once(content, '\n');
                        }
                        relays_from(rest, acc)
                    },
                }
            }
        },
    }
}

/// What reading the relay list gives: the relays in the order listed, and
/// the text from the `directory-footer` line.
pub open spec fn spec_parse_relays(s: Seq<char>) -> Result<(Seq<RelayView>, Seq<char>), ParseError> {
    relays_from(s, seq![])
}

/// The `(name, weight)` pairs of the words `tokens`, each `name=weight`.
pub open spec fn weight_pairs(tokens: Seq<Seq<char>>) -> Result<Seq<(Seq<char>, u32)>, ParseError>
    decreases tokens.len(),
{
    if tokens.len() == 0 {
        Ok(seq![])
    } else {
        match weight_pairs(tokens.drop_last()) {
            Err(e) => Err(e),
            Ok(ps) => match split_once(tokens.last(), '=') {
                None => Err(ParseError::MissingSeparator),
                Some((k, v)) => match parse_unsigned(v, u32::MAX as nat) {
                    None => Err(ParseError::InvalidNumber),
                    Some(n) => Ok(ps.push((k, n as u32))),
                },
            },
        }
    }
}

/// What reading the footer gives: the line after `directory-footer` is the
/// `bandwidth-weights` line, whose words after the first are `name=weight`.
pub open spec fn spec_parse_footer(s: Seq<char>) -> Result<Map<Seq<char>, u32>, ParseError> {
    match split_once(s, '\n') {
        None => Err(ParseError::MissingSeparator),
        Some((_, rest)) => match split_once(rest, '\n') {
            None => Err(ParseError::MissingSeparator),
            Some((bdw, _)) => match weight_pairs(split_all(bdw, ' ').drop_first()) {
                Err(e) => Err(e),
                Ok(ps) => Ok(pairs_map(ps)),
            },
        },
    }
}

/// The abstract value of a `Consensus`.
pub struct ConsensusView {
    pub relays: Seq<RelayView>,
    pub bandwidth_weights: Map<Seq<char>, u32>,
}

/// What reading a whole consensus gives: the preamble and the authority
/// section are skipped, then come the relays and the footer.
pub open spec fn spec_parse_consensus(s: Seq<char>) -> Result<ConsensusView, ParseError> {
    match spec_parse_preamble(s) {
        Err(e) => Err(e),
        Ok(s1) => match spec_parse_authorities(s1) {
            Err(e) => Err(e),
            Ok(s2) => match spec_parse_relays(s2) {
                Err(e) => Err(e),
                Ok((relays, s3)) => match spec_parse_footer(s3) {
                    Err(e) => Err(e),
                    Ok(w) => Ok(ConsensusView { relays, bandwidth_weights: w }),
                },
            },
        },
    }
}

/// The abstract values of a sequence of relays.
pub open spec fn relay_views(v: Seq<Relay>) -> Seq<RelayView> {
    v.map_values(|r: Relay| r@)
}

/// The consensus as the directory authorities publish it.
#[derive(Debug, PartialEq, Eq, Clone)]
pub struct Consensus {
    pub relays: Vec<Relay>,
    pub bandwidth_weights: BandwithWeights,
}

impl View for Consensus {
    type V = ConsensusView;

    open spec fn view(&self) -> ConsensusView {
        ConsensusView {
            relays: relay_views(self.relays@),
            bandwidth_weights: self.bandwidth_weights@,
        }
    }
}

fn skip_until_exec<'a>(s: &'a [char], word: &str) -> (r: Result<&'a [char], ParseError>)
    ensures
        match r {
            Ok(rest) => skip_until(s@, word@) == Ok::<Seq<char>, ParseError>(rest@),
            Err(e) => skip_until(s@, word@) == Err::<Seq<char>, ParseError>(e),
        },
{
    let mut cur: &[char] = s;
    loop
        invariant
            skip_until(cur@, word@) == skip_until(s@, word@),
        decreases cur@.len(),
    {
        let (start, rest) = match split_once_at(cur, ' ') {
            Some(x) => x,
            None => return Err(ParseError::MissingSeparator),
        };
        if eq_str(start, word) {
            return Ok(cur);
        }
        let (_, rest2) = match split_once_at(rest, '\n') {
            Some(x) => x,
            None => return Err(ParseError::MissingSeparator),
        };
        proof {
            lemma_split_once(cur@, ' ');
            lemma_split_once(rest@, '\n');
        }
        cur = rest2;
    }
}

impl Consensus {
    /// Skips the preamble: gives the text from the first `dir-source` line.
    pub fn parse_preamble(s: &[char]) -> (r: Result<&[char], ParseError>)
        ensures
            match r {
                Ok(rest) => spec_parse_preamble(s@) == Ok::<Seq<char>, ParseError>(rest@),
                Err(e) => spec_parse_preamble(s@) == Err::<Seq<char>, ParseError>(e),
            },
    {
        skip_until_exec(s, "dir-source")
    }

    /// Skips the authority section: gives the text from the first `r` line.
    pub fn parse_authorities(s: &[char]) -> (r: Result<&[char], ParseError>)
        ensures
            match r {
                Ok(rest) => spec_parse_authorities(s@) == Ok::<Seq<char>, ParseError>(rest@),
                Err(e) => spec_parse_authorities(s@) == Err::<Seq<char>, ParseError>(e),
            },
    {
        let r = skip_until_exec(s, "r");
        proof {
            reveal_strlit("r");
            assert("r"@ =~= seq!['r']);
        }
        r
    }

    /// Reads the relay list: gives the relays and the text from the
    /// `directory-footer` line.
    pub fn parse_relays(s: &[char]) -> (r: Result<(Vec<Relay>, &[char]), ParseError>)
        ensures
            match r {
                Ok((relays, rest)) => spec_parse_relays(s@) == Ok::<
                    (Seq<RelayView>, Seq<char>),
                    ParseError,
                >((relay_views(relays@), rest@)),
                Err(e) => spec_parse_relays(s@) == Err::<(Seq<RelayView>, Seq<char>), ParseError>(e),
            },
    {
        let mut relays: Vec<Relay> = Vec::new();
        let mut cur: &[char] = s;
        assert(relay_views(relays@) =~= seq![]);
        loop
            invariant
                relays_from(cur@, relay_views(relays@)) == spec_parse_relays(s@),
            decreases cur@.len(),
        {
            let (line, _) = match split_once_at(cur, '\n') {
                Some(x) => x,
                None => return Err(ParseError::MissingSeparator),
            };
            let empty: &[char] = &[];
            let (start, content) = match split_once_at(line, ' ') {
                Some(x) => x,
                None => (line, empty),
            };
            assert(empty@ =~= seq![]);
            if is_single(start, 'r') {
                let (relay, rest) = match Relay::parse_relay(cur) {
                    Ok(x) => x,
                    Err(e) => return Err(e),
                };
                proof {
                    lemma_relay_entry_shrinks(cur@, no_fields());
                }
                let ghost before = relay_views(relays@);
                relays.push(relay);
                assert(relay_views(relays@) =~= before.push(relay@));
                cur = rest;
            } else if eq_str(start, "directory-footer") {
                return Ok((relays, cur));
            } else {
                let (_, rest) = match split_once_at(content, '\n') {
                    Some(x) => x,
                    None => return Err(ParseError::MissingSeparator),
                };
                proof {
                    lemma_split_once(cur@, '\n');
                    lemma_split_once(line@, ' ');
                    lemma_split_once(content@, '\n');
                }
                cur = rest;
            }
        }
    }

    /// Reads the footer: the bandwidth weights of the line after
    /// `directory-footer`.
    pub fn parse_footer(s: &[char]) -> (r: Result<BandwithWeights, ParseError>)
        ensures
            match r {
                Ok(w) => spec_parse_footer(s@) == Ok::<Map<Seq<char>, u32>, ParseError>(w@),
                Err(e) => spec_parse_footer(s@) == Err::<Map<Seq<char>, u32>, ParseError>(e),
            },
    {
        let (_, rest) = match split_once_at(s, '\n') {
            Some(x) => x,
            None => return Err(ParseError::MissingSeparator),
        };
        let (bdw, _) = match split_once_at(rest, '\n') {
            Some(x) => x,
            None => return Err(ParseError::MissingSeparator),
        };
        let tokens = split_all_at(bdw, ' ');
        let ghost all = views(tokens@);
        proof {
            lemma_split_all_nonempty(bdw@, ' ');
        }
        let ghost t = all.drop_first();
        let mut weights = BandwithWeights::new();
        let ghost pairs: Seq<(Seq<char>, u32)> = seq![];
        let mut i: usize = 1;
        assert(t.take(0) =~= Seq::<Seq<char>>::empty());
        assert(pairs_map(pairs) =~= Map::<Seq<char>, u32>::empty());
        while i < tokens.len()
            invariant
                1 <= i <= tokens@.len(),
                all == views(tokens@),
                all.len() == tokens@.len(),
                t == all.drop_first(),
                weight_pairs(t.take(i - 1)) == Ok::<Seq<(Seq<char>, u32)>, ParseError>(pairs),
                pairs_map(pairs) == weights@,
                spec_parse_footer(s@) == match weight_pairs(t) {
                    Err(e) => Err(e),
                    Ok(ps) => Ok(pairs_map(ps)),
                },
            decreases tokens.len() - i,
        {
            assert(t.take(i as int).drop_last() =~= t.take(i - 1));
            assert(t.take(i as int).last() == tokens@[i as int]@);
            let (k, v) = match split_once_at(tokens[i], '=') {
                Some(x) => x,
                None => {
                    proof {
                        lemma_weight_pairs_prefix(t, i as int);
                    }
                    return Err(ParseError::MissingSeparator);
                },
            };
            let n = match parse_u32(v) {
                Some(n) => n,
                None => {
                    proof {
                        lemma_weight_pairs_prefix(t, i as int);
                    }
                    return Err(ParseError::InvalidNumber);
                },
            };
            weights.insert(chars_to_string(k), n);
            proof {
                assert(pairs.push((k@, n)).drop_last() =~= pairs);
                pairs = pairs.push((k@, n));
            }
            i = i + 1;
        }
        assert(t.take(i - 1) =~= t);
        Ok(weights)
    }

    /// Reads a whole consensus document.
    pub fn parse(s: &[char]) -> (r: Result<Self, ParseError>)
        ensures
            match r {
                Ok(c) => spec_parse_consensus(s@) == Ok::<ConsensusView, ParseError>(c@),
                Err(e) => spec_parse_consensus(s@) == Err::<ConsensusView, ParseError>(e),
            },
    {
        let s1 = match Self::parse_preamble(s) {
            Ok(x) => x,
            Err(e) => return Err(e),
        };
        let s2 = match Self::parse_authorities(s1) {
            Ok(x) => x,
            Err(e) => return Err(e),
        };
        let (relays, s3) = match Self::parse_relays(s2) {
            Ok(x) => x,
            Err(e) => return Err(e),
        };
        let bandwidth_weights = match Self::parse_footer(s3) {
            Ok(x) => x,
            Err(e) => return Err(e),
        };
        Ok(Consensus { relays, bandwidth_weights })
    }

    /// Reads a whole consensus document.
    pub fn parse_str(s: &str) -> (r: Result<Self, ParseError>)
        ensures
            match r {
                Ok(c) => spec_parse_consensus(s@) == Ok::<ConsensusView, ParseError>(c@),
                Err(e) => spec_parse_consensus(s@) == Err::<ConsensusView, ParseError>(e),
            },
    {
        let chars = str_to_chars(s);
        Self::parse(chars.as_slice())
    }
}

/// A failing prefix of the weights makes the whole list fail.
proof fn lemma_weight_pairs_prefix(t: Seq<Seq<char>>, i: int)
    requires
        0 <= i <= t.len(),
        weight_pairs(t.take(i)) is Err,
    ensures
        weight_pairs(t) == weight_pairs(t.take(i)),
    decreases t.len() - i,
{
    if i < t.len() {
        assert(t.take(i + 1).drop_last() =~= t.take(i));
        lemma_weight_pairs_prefix(t, i + 1);
    } else {
        assert(t.take(i) =~= t);
    }
}


impl std::str::FromStr for Consensus {
    type Err = ParseError;

    fn from_str(s: &str) -> (r: Result<Self, ParseError>)
        ensures
            match r {
                Ok(c) => spec_parse_consensus(s@) == Ok::<ConsensusView, ParseError>(c@),
                Err(e) => spec_parse_consensus(s@) == Err::<ConsensusView, ParseError>(e),
            },
    {
        let chars = str_to_chars(s);
        Self::parse(chars.as_slice())
    }
}

} // verus!
