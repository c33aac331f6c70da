//! Network addresses of relays, read with the grammar of the standard
//! library's `Ipv4Addr` and `SocketAddrV6` parsers.

use vstd::prelude::*;
use crate::numbers::{
    all_digits, append_chars, decimal, decimal_chars, digits_value, is_digit, lemma_decimal,
    parse_bounded,
};
use crate::tor_status::ParseError;
use crate::text::{chars_to_string, lemma_split_all_concat, lemma_split_once, str_to_chars, split_all, split_all_at, split_once, split_once_at, views};
use crate::tor_status::encoding::hex_digit_value;

verus! {

/// A decimal octet of a dotted IPv4 address: one to three digits, no
/// leading zero unless it is the only digit, value at most 255.
pub open spec fn octet_text(t: Seq<char>) -> Option<u8> {
    if 1 <= t.len() <= 3 && all_digits(t) && !(t.len() > 1 && t[0] == '0') && digits_value(t)
        <= 255 {
        Some(digits_value(t) as u8)
    } else {
        None
    }
}

/// The four octets of the dotted IPv4 address `s`, if it is one.
#[verifier::opaque]
pub open spec fn spec_parse_ipv4(s: Seq<char>) -> Option<Seq<u8>> {
    let p = split_all(s, '.');
    if p.len() == 4 {
        match (octet_text(p[0]), octet_text(p[1]), octet_text(p[2]), octet_text(p[3])) {
            (Some(a), Some(b), Some(c), Some(d)) => Some(seq![a, b, c, d]),
            _ => None,
        }
    } else {
        None
    }
}

/// An IPv4 address.
#[derive(Debug, PartialEq, Eq, Clone, Copy)]
pub struct Ipv4Addr {
    octets: [u8; 4],
}

impl View for Ipv4Addr {
    type V = Seq<u8>;

    closed spec fn view(&self) -> Seq<u8> {
        self.octets@
    }
}

fn parse_octet(t: &[char]) -> (r: Option<u8>)
    ensures
        r == octet_text(t@),
{
    if t.len() < 1 || t.len() > 3 {
        return None;
    }
    if t.len() > 1 && t[0] == '0' {
        return None;
    }
    let mut v: u32 = 0;
    let mut i: usize = 0;
    while i < t.len()
        invariant
            1 <= t.len() <= 3,
            i <= t.len(),
            all_digits(t@.take(i as int)),
            v == digits_value(t@.take(i as int)),
            v < (if i == 0 {
                1u32
            } else if i == 1 {
                10u32
            } else if i == 2 {
                100u32
            } else {
                1000u32
            }),
        decreases t.len() - i,
    {
        let c = t[i];
        if !('0' <= c && c <= '9') {
            assert(!is_digit(t@[i as int]));
            return None;
        }
        assert(t@.take(i + 1).drop_last() =~= t@.take(i as int));
        assert(i + 1 <= 3);
        v = v * 10 + (c as u32 - '0' as u32);
        i = i + 1;
        assert(all_digits(t@.take(i as int))) by {
            assert forall|k: int| 0 <= k < i implies is_digit(#[trigger] t@.take(i as int)[k]) by {
                if k < i - 1 {
                    assert(t@.take(i as int)[k] == t@.take(i - 1)[k]);
                }
            }
        }
    }
    assert(t@.take(i as int) =~= t@);
    if v > 255 {
        None
    } else {
        Some(v as u8)
    }
}

/// The dotted text of the octets `o`, each written in decimal.
pub open spec fn dotted_text(o: Seq<u8>) -> Seq<char> {
    decimal(o[0] as nat) + seq!['.'] + (decimal(o[1] as nat) + seq!['.'] + (decimal(o[2] as nat)
        + seq!['.'] + decimal(o[3] as nat)))
}

proof fn lemma_octet_text(v: u8)
    ensures
        octet_text(decimal(v as nat)) == Some(v),
        !decimal(v as nat).contains('.'),
{
    lemma_decimal(v as nat);
    let d = decimal(v as nat);
    if d.contains('.') {
        let i = choose|i: int| 0 <= i < d.len() && d[i] == '.';
        assert(is_digit(d[i]));
    }
}

/// An address written out in dotted form reads back as that address.
pub proof fn dotted_roundtrip(o: Seq<u8>)
    requires
        o.len() == 4,
    ensures
        spec_parse_ipv4(dotted_text(o)) == Some(o),
{
    reveal(spec_parse_ipv4);
    let (d0, d1, d2, d3) = (
        decimal(o[0] as nat),
        decimal(o[1] as nat),
        decimal(o[2] as nat),
        decimal(o[3] as nat),
    );
    lemma_octet_text(o[0]);
    lemma_octet_text(o[1]);
    lemma_octet_text(o[2]);
    lemma_octet_text(o[3]);
    lemma_split_all_concat(d2, '.', d3);
    lemma_split_all_concat(d1, '.', d2 + seq!['.'] + d3);
    lemma_split_all_concat(d0, '.', d1 + seq!['.'] + (d2 + seq!['.'] + d3));
    lemma_split_once(d0, '.');
    lemma_split_once(d1, '.');
    lemma_split_once(d2, '.');
    lemma_split_once(d3, '.');
    assert(split_all(d0, '.') == seq![d0]);
    assert(split_all(d1, '.') == seq![d1]);
    assert(split_all(d2, '.') == seq![d2]);
    assert(split_all(d3, '.') == seq![d3]);
    let p = split_all(dotted_text(o), '.');
    assert(p =~= seq![d0, d1, d2, d3]);
    assert(seq![o[0], o[1], o[2], o[3]] =~= o);
}

impl Ipv4Addr {
    /// The address in dotted form, such as `84.234.21.98`.
    pub fn dotted(&self) -> (r: String)
        ensures
            r@ == dotted_text(self@),
    {
        let o = self.octets;
        let mut out: Vec<char> = Vec::new();
        let a = decimal_chars(o[0] as u64);
        append_chars(&mut out, a.as_slice());
        out.push('.');
        let b = decimal_chars(o[1] as u64);
        append_chars(&mut out, b.as_slice());
        out.push('.');
        let c = decimal_chars(o[2] as u64);
        append_chars(&mut out, c.as_slice());
        out.push('.');
        let d = decimal_chars(o[3] as u64);
        append_chars(&mut out, d.as_slice());
        assert(out@ =~= dotted_text(self@));
        chars_to_string(out.as_slice())
    }

    /// The address with the given octets.
    pub fn new(octets: [u8; 4]) -> (r: Self)
        ensures
            r@ == octets@,
    {
        Ipv4Addr { octets }
    }

    /// The address's octets.
    pub fn octets(&self) -> (r: [u8; 4])
        ensures
            r@ == self@,
    {
        self.octets
    }

    /// Reads a dotted IPv4 address such as `84.234.21.98`.
    pub fn parse(s: &[char]) -> (r: Option<Self>)
        ensures
            match r {
                Some(a) => spec_parse_ipv4(s@) == Some(a@),
                None => spec_parse_ipv4(s@) is None,
            },
    {
        proof {
            reveal(spec_parse_ipv4);
        }
        let p = split_all_at(s, '.');
        assert(views(p@).len() == p@.len());
        if p.len() != 4 {
            return None;
        }
        assert(views(p@)[0] == p@[0]@);
        assert(views(p@)[1] == p@[1]@);
        assert(views(p@)[2] == p@[2]@);
        assert(views(p@)[3] == p@[3]@);
        match (parse_octet(p[0]), parse_octet(p[1]), parse_octet(p[2]), parse_octet(p[3])) {
            (Some(a), Some(b), Some(c), Some(d)) => {
                let octets = [a, b, c, d];
                assert(octets@ =~= seq![a, b, c, d]);
                Some(Ipv4Addr { octets })
            },
            _ => None,
        }
    }
}

/// Whether every character of `t` is a hexadecimal digit.
pub open spec fn all_hex(t: Seq<char>) -> bool {
    forall|i: int| 0 <= i < t.len() ==> (#[trigger] hex_digit_value(t[i])) is Some
}

/// The number that the hexadecimal digits `t` denote.
pub open spec fn hex_value(t: Seq<char>) -> nat
    decreases t.len(),
{
    if t.len() == 0 {
        0
    } else {
        (hex_value(t.drop_last()) * 16 + hex_digit_value(t.last()).unwrap()) as nat
    }
}

/// One 16-bit group of an IPv6 address: one to four hexadecimal digits.
pub open spec fn hex_group(t: Seq<char>) -> Option<u16> {
    if 1 <= t.len() <= 4 && all_hex(t) {
        Some(hex_value(t) as u16)
    } else {
        None
    }
}

/// The 16-bit groups that the colon-separated pieces `p` denote; where
/// `v4_last` holds, the last piece may be a dotted IPv4 address, which
/// denotes two groups.
pub open spec fn groups_of(p: Seq<Seq<char>>, v4_last: bool) -> Option<Seq<u16>>
    decreases p.len(),
{
    if p.len() == 0 {
        Some(seq![])
    } else if p.len() == 1 && v4_last && spec_parse_ipv4(p[0]) is Some {
        let o = spec_parse_ipv4(p[0]).unwrap();
        Some(seq![(o[0] * 256 + o[1]) as u16, (o[2] * 256 + o[3]) as u16])
    } else {
        match (hex_group(p[0]), groups_of(p.drop_first(), v4_last)) {
            (Some(g), Some(rest)) => Some(seq![g] + rest),
            _ => None,
        }
    }
}

/// The groups of a colon-separated run of groups (empty text: none).
pub open spec fn text_groups(t: Seq<char>, v4_last: bool) -> Option<Seq<u16>> {
    if t.len() == 0 {
        Some(seq![])
    } else {
        groups_of(split_all(t, ':'), v4_last)
    }
}

/// `t` holds `::` at position `i`.
pub open spec fn double_colon_at(t: Seq<char>, i: int) -> bool {
    0 <= i < t.len() - 1 && t[i] == ':' && t[i + 1] == ':'
}

/// `i` is the position of the first `::` in `t`.
pub open spec fn is_first_double_colon(t: Seq<char>, i: int) -> bool {
    &&& double_colon_at(t, i)
    &&& forall|j: int| 0 <= j < i ==> !#[trigger] double_colon_at(t, j)
}

/// The position of the first `::` in `t`, if any.
pub open spec fn first_double_colon(t: Seq<char>) -> Option<int> {
    if exists|i: int| is_first_double_colon(t, i) {
        Some(choose|i: int| is_first_double_colon(t, i))
    } else {
        None
    }
}

/// The eight groups of the IPv6 address `t`: eight groups (the last two may
/// be written as a dotted IPv4 address), or up to seven around the first
/// `::`, which stands for the zero groups that are missing.
#[verifier::opaque]
pub open spec fn spec_parse_ipv6(t: Seq<char>) -> Option<Seq<u16>> {
    match first_double_colon(t) {
        Some(i) => match (text_groups(t.take(i), false), text_groups(t.skip(i + 2), true)) {
            (Some(h), Some(tl)) => if h.len() + tl.len() <= 7 {
                Some(h + Seq::new((8 - h.len() - tl.len()) as nat, |k: int| 0u16) + tl)
            } else {
                None
            },
            _ => None,
        },
        None => match text_groups(t, true) {
            Some(g) => if g.len() == 8 {
                Some(g)
            } else {
                None
            },
            None => None,
        },
    }
}

/// A decimal number as the address parser reads a port or a scope:
/// one or more digits, no sign, value at most `max`.
pub open spec fn strict_decimal(d: Seq<char>, max: nat) -> Option<nat> {
    if d.len() > 0 && all_digits(d) && digits_value(d) <= max {
        Some(digits_value(d))
    } else {
        None
    }
}

/// The abstract value of a `SocketAddrV6`.
pub struct SocketAddrV6View {
    pub segments: Seq<u16>,
    pub port: u16,
    pub scope_id: u32,
}

/// What reading `[address%scope]:port` gives (the scope is optional).
#[verifier::opaque]
pub open spec fn spec_parse_socket_v6(s: Seq<char>) -> Option<SocketAddrV6View> {
    if s.len() > 0 && s[0] == '[' {
        match split_once(s.drop_first(), ']') {
            Some((inner, after)) => {
                let (addr, scope) = match split_once(inner, '%') {
                    Some((a, d)) => (a, strict_decimal(d, u32::MAX as nat)),
                    None => (inner, Some(0nat)),
                };
                match (spec_parse_ipv6(addr), scope) {
                    (Some(segments), Some(scope_id)) => if after.len() > 0 && after[0] == ':' {
                        match strict_decimal(after.drop_first(), u16::MAX as nat) {
                            Some(port) => Some(
                                SocketAddrV6View {
                                    segments,
                                    port: port as u16,
                                    scope_id: scope_id as u32,
                                },
                            ),
                            None => None,
                        }
                    } else {
                        None
                    },
                    _ => None,
                }
            },
            None => None,
        }
    } else {
        None
    }
}

/// An IPv6 socket address: address, port and scope.
#[derive(Debug, PartialEq, Eq, Clone, Copy)]
pub struct SocketAddrV6 {
    segments: [u16; 8],
    port: u16,
    scope_id: u32,
}

impl View for SocketAddrV6 {
    type V = SocketAddrV6View;

    closed spec fn view(&self) -> SocketAddrV6View {
        SocketAddrV6View { segments: self.segments@, port: self.port, scope_id: self.scope_id }
    }
}


fn parse_hex_group(t: &[char]) -> (r: Option<u16>)
    ensures
        r == hex_group(t@),
{
    if t.len() < 1 || t.len() > 4 {
        return None;
    }
    let mut v: u32 = 0;
    let mut i: usize = 0;
    while i < t.len()
        invariant
            1 <= t.len() <= 4,
            i <= t.len(),
            all_hex(t@.take(i as int)),
            v == hex_value(t@.take(i as int)),
            v < (if i == 0 {
                1u32
            } else if i == 1 {
                16u32
            } else if i == 2 {
                256u32
            } else if i == 3 {
                4096u32
            } else {
                65536u32
            }),
        decreases t.len() - i,
    {
        let c = t[i];
        let dig: u32 = if '0' <= c && c <= '9' {
            c as u32 - '0' as u32
        } else if 'a' <= c && c <= 'f' {
            c as u32 - 'a' as u32 + 10
        } else if 'A' <= c && c <= 'F' {
            c as u32 - 'A' as u32 + 10
        } else {
            assert(hex_digit_value(t@[i as int]) is None);
            return None;
        };
        assert(hex_digit_value(c) == Some(dig as u8));
        assert(t@.take(i + 1).drop_last() =~= t@.take(i as int));
        v = v * 16 + dig;
        i = i + 1;
        assert(all_hex(t@.take(i as int))) by {
            assert forall|k: int| 0 <= k < i implies (#[trigger] hex_digit_value(
                t@.take(i as int)[k],
            )) is Some by {
                if k < i - 1 {
                    assert(t@.take(i as int)[k] == t@.take(i - 1)[k]);
                }
            }
        }
    }
    assert(t@.take(i as int) =~= t@);
    Some(v as u16)
}

/// `prefix` put before the sequence in `rest`, if there is one.
pub open spec fn prepend(prefix: Seq<u16>, rest: Option<Seq<u16>>) -> Option<Seq<u16>> {
    match rest {
        Some(r) => Some(prefix + r),
        None => None,
    }
}

fn parse_groups(p: &Vec<&[char]>, v4_last: bool) -> (r: Option<Vec<u16>>)
    ensures
        match r {
            Some(g) => groups_of(views(p@), v4_last) == Some(g@),
            None => groups_of(views(p@), v4_last) is None,
        },
{
    let mut out: Vec<u16> = Vec::new();
    let mut k: usize = 0;
    let ghost all = views(p@);
    proof {
        assert(all.skip(0) =~= all);
        match groups_of(all, v4_last) {
            Some(x) => assert(out@ + x =~= x),
            None => {},
        }
    }
    while k < p.len()
        invariant
            k <= p.len(),
            all == views(p@),
            all.len() == p@.len(),
            groups_of(all, v4_last) == prepend(out@, groups_of(all.skip(k as int), v4_last)),
        decreases p.len() - k,
    {
        let ghost q = all.skip(k as int);
        assert(q[0] == p@[k as int]@);
        assert(q.drop_first() =~= all.skip(k + 1));
        if k + 1 == p.len() && v4_last {
            if let Some(a) = Ipv4Addr::parse(p[k]) {
                let o = a.octets();
                let hi: u16 = (o[0] as u16) * 256 + o[1] as u16;
                let lo: u16 = (o[2] as u16) * 256 + o[3] as u16;
                let ghost before = out@;
                out.push(hi);
                out.push(lo);
                assert(q.len() == 1);
                assert(out@ =~= before + seq![hi, lo]);
                assert(all.skip(k + 1).len() == 0);
                return Some(out);
            }
        }
        match parse_hex_group(p[k]) {
            Some(g) => {
                let ghost before = out@;
                out.push(g);
                k = k + 1;
                proof {
                    match groups_of(all.skip(k as int), v4_last) {
                        Some(rest) => {
                            assert(groups_of(q, v4_last) == Some(seq![g] + rest));
                            assert(before + (seq![g] + rest) =~= out@ + rest);
                        },
                        None => {},
                    }
                }
            },
            None => {
                return None;
            },
        }
    }
    assert(all.skip(k as int).len() == 0);
    assert(out@ + seq![] =~= out@);
    Some(out)
}

fn parse_text_groups(t: &[char], v4_last: bool) -> (r: Option<Vec<u16>>)
    ensures
        match r {
            Some(g) => text_groups(t@, v4_last) == Some(g@),
            None => text_groups(t@, v4_last) is None,
        },
{
    if t.len() == 0 {
        let out: Vec<u16> = Vec::new();
        assert(out@ =~= seq![]);
        return Some(out);
    }
    let p = split_all_at(t, ':');
    parse_groups(&p, v4_last)
}

fn find_double_colon(t: &[char]) -> (r: Option<usize>)
    ensures
        match r {
            Some(i) => first_double_colon(t@) == Some(i as int),
            None => first_double_colon(t@) is None,
        },
{
    let mut i: usize = 0;
    while t.len() > 0 && i < t.len() - 1
        invariant
            forall|j: int| 0 <= j < i ==> !#[trigger] double_colon_at(t@, j),
        decreases t.len() - i,
    {
        if t[i] == ':' && t[i + 1] == ':' {
            assert(is_first_double_colon(t@, i as int));
            proof {
                let k = choose|k: int| is_first_double_colon(t@, k);
                if k < i {
                    assert(!double_colon_at(t@, k));
                } else if k > i {
                    assert(!double_colon_at(t@, i as int));
                }
            }
            return Some(i);
        }
        assert(!double_colon_at(t@, i as int));
        i = i + 1;
    }
    proof {
        if exists|k: int| is_first_double_colon(t@, k) {
            let k = choose|k: int| is_first_double_colon(t@, k);
            assert(double_colon_at(t@, k));
        }
    }
    None
}

fn parse_ipv6(t: &[char]) -> (r: Option<[u16; 8]>)
    ensures
        match r {
            Some(a) => spec_parse_ipv6(t@) == Some(a@),
            None => spec_parse_ipv6(t@) is None,
        },
{
    proof {
        reveal(spec_parse_ipv6);
    }
    let groups: Vec<u16> = match find_double_colon(t) {
        Some(i) => {
            let (head, rest) = t.split_at(i);
            let (_, tail) = rest.split_at(2);
            assert(head@ =~= t@.take(i as int));
            assert(tail@ =~= t@.skip(i + 2));
            let h = match parse_text_groups(head, false) {
                Some(h) => h,
                None => return None,
            };
            let tl = match parse_text_groups(tail, true) {
                Some(tl) => tl,
                None => return None,
            };
            if h.len() > 7 || tl.len() > 7 - h.len() {
                return None;
            }
            let mut g = h;
            let ghost hv = g@;
            let zeros = 8 - g.len() - tl.len();
            let mut z: usize = 0;
            while z < zeros
                invariant
                    z <= zeros,
                    g@ == hv + Seq::new(z as nat, |k: int| 0u16),
                decreases zeros - z,
            {
                g.push(0u16);
                z = z + 1;
                assert(g@ =~= hv + Seq::new(z as nat, |k: int| 0u16));
            }
            let mut j: usize = 0;
            let ghost mid = g@;
            while j < tl.len()
                invariant
                    j <= tl.len(),
                    g@ == mid + tl@.take(j as int),
                decreases tl.len() - j,
            {
                g.push(tl[j]);
                j = j + 1;
                assert(g@ =~= mid + tl@.take(j as int));
            }
            assert(tl@.take(j as int) =~= tl@);
            g
        },
        None => {
            let g = match parse_text_groups(t, true) {
                Some(g) => g,
                None => return None,
            };
            if g.len() != 8 {
                return None;
            }
            g
        },
    };
    assert(groups@.len() == 8);
    let a = [
        groups[0],
        groups[1],
        groups[2],
        groups[3],
        groups[4],
        groups[5],
        groups[6],
        groups[7],
    ];
    assert(a@ =~= groups@);
    Some(a)
}

fn parse_strict(d: &[char], max: u64) -> (r: Option<u64>)
    requires
        max >= 9,
    ensures
        match r {
            Some(v) => strict_decimal(d@, max as nat) == Some(v as nat),
            None => strict_decimal(d@, max as nat) is None,
        },
{
    if d.len() == 0 || d[0] == '+' {
        assert(d@.len() > 0 ==> !is_digit(d@[0]));
        return None;
    }
    parse_bounded(d, max)
}

impl SocketAddrV6 {
    /// The socket address with the given parts.
    pub fn new(segments: [u16; 8], port: u16, scope_id: u32) -> (r: Self)
        ensures
            r@ == (SocketAddrV6View { segments: segments@, port, scope_id }),
    {
        SocketAddrV6 { segments, port, scope_id }
    }

    /// The eight 16-bit groups of the address.
    pub fn segments(&self) -> (r: [u16; 8])
        ensures
            r@ == self@.segments,
    {
        self.segments
    }

    /// The port.
    pub fn port(&self) -> (r: u16)
        ensures
            r == self@.port,
    {
        self.port
    }

    /// The scope identifier (0 when none is written).
    pub fn scope_id(&self) -> (r: u32)
        ensures
            r == self@.scope_id,
    {
        self.scope_id
    }

    /// Reads `[address]:port` or `[address%scope]:port`.
    pub fn parse(s: &[char]) -> (r: Option<Self>)
        ensures
            match r {
                Some(a) => spec_parse_socket_v6(s@) == Some(a@),
                None => spec_parse_socket_v6(s@) is None,
            },
    {
        proof {
            reveal(spec_parse_socket_v6);
        }
        if s.len() == 0 || s[0] != '[' {
            return None;
        }
        let (_, body) = s.split_at(1);
        assert(body@ =~= s@.drop_first());
        let (inner, after) = match split_once_at(body, ']') {
            Some(x) => x,
            None => return None,
        };
        let (addr, scope): (&[char], Option<u64>) = match split_once_at(inner, '%') {
            Some((a, d)) => (a, parse_strict(d, 4294967295)),
            None => (inner, Some(0)),
        };
        let segments = match parse_ipv6(addr) {
            Some(g) => g,
            None => return None,
        };
        let scope_id = match scope {
            Some(v) => v as u32,
            None => return None,
        };
        if after.len() == 0 || after[0] != ':' {
            return None;
        }
        let (_, port_text) = after.split_at(1);
        assert(port_text@ =~= after@.drop_first());
        match parse_strict(port_text, 65535) {
            Some(port) => Some(SocketAddrV6 { segments, port: port as u16, scope_id }),
            None => None,
        }
    }
}


impl std::str::FromStr for Ipv4Addr {
    type Err = ParseError;

    fn from_str(s: &str) -> (r: Result<Self, ParseError>)
        ensures
            match r {
                Ok(a) => spec_parse_ipv4(s@) == Some(a@),
                Err(e) => e == ParseError::InvalidAddress && spec_parse_ipv4(s@) is None,
            },
    {
        let chars = str_to_chars(s);
        match Self::parse(chars.as_slice()) {
            Some(a) => Ok(a),
            None => Err(ParseError::InvalidAddress),
        }
    }
}

impl std::str::FromStr for SocketAddrV6 {
    type Err = ParseError;

    fn from_str(s: &str) -> (r: Result<Self, ParseError>)
        ensures
            match r {
                Ok(a) => spec_parse_socket_v6(s@) == Some(a@),
                Err(e) => e == ParseError::InvalidAddress && spec_parse_socket_v6(s@) is None,
            },
    {
        let chars = str_to_chars(s);
        match Self::parse(chars.as_slice()) {
            Some(a) => Ok(a),
            None => Err(ParseError::InvalidAddress),
        }
    }
}

} // verus!
