//! Properties of the library that relate several of its functions.

use vstd::prelude::*;
use crate::network_metric::{
    count_map, inference_fold, observe, occurrences, spec_split_observations, InferenceView,
    MappingView, RawView,
};
use crate::text::{lemma_split_all_concat, split_all, split_once};
use crate::tor_status::consensus::{flags_of, relays_from, spec_parse_flags, RelayView as ListedRelay};
use crate::tor_status::descriptor::Descriptor;
use crate::tor_status::encoding::{hex_char, hex_decode, hex_digit_value, hex_encode};
use crate::tor_status::{consensus, has_flag, partner_positions, spec_reach, Relay, RelayFlag, RelayView};
use crate::text::lemma_split_once;
use vstd::std_specs::convert::FromSpec;
use crate::{printed, printed_ranks};
use crate::numbers::{decimal, is_digit, lemma_decimal, parse_unsigned};
use crate::text::{lemma_split_once_first, split_n};
use crate::tor_status::{spec_parse_id, spec_parse_version, ParseError, VersionView};
use crate::tor_status::net::spec_parse_ipv4;
use crate::tor_status::consensus::{
    finish_relay, no_fields, relay_entry, spec_parse_r_line, spec_parse_relay, spec_parse_w_line,
    step_fields, RelayFields,
};

verus! {

proof fn lemma_hex_char(v: int, upper: bool)
    requires
        0 <= v < 16,
    ensures
        hex_digit_value(hex_char(v, upper)) == Some(v as u8),
{
}

/// Hexadecimal text written for some bytes, in either case, reads back as
/// those bytes: a digest's descriptor file name and a relay's fingerprint
/// name it exactly.
pub proof fn hex_roundtrip(bytes: Seq<u8>, upper: bool)
    ensures
        hex_decode(hex_encode(bytes, upper)) == Some(bytes),
    decreases bytes.len(),
{
    if bytes.len() > 0 {
        let s = hex_encode(bytes, upper);
        let b = bytes[0];
        lemma_hex_char(b as int / 16, upper);
        lemma_hex_char(b as int % 16, upper);
        hex_roundtrip(bytes.drop_first(), upper);
        assert(s.skip(2) =~= hex_encode(bytes.drop_first(), upper));
        assert(((b as int / 16) * 16 + b as int % 16) as u8 == b);
        assert(seq![b] + bytes.drop_first() =~= bytes);
    } else {
        assert(hex_encode(bytes, upper) =~= Seq::<char>::empty());
        assert(bytes =~= seq![]);
    }
}

/// Whether two relays may share a circuit does not depend on their order.
pub proof fn reach_symmetric(a: RelayView, b: RelayView)
    ensures
        spec_reach(a, b) == spec_reach(b, a),
{
}

/// A relay never shares a circuit with itself.
pub proof fn reach_irreflexive(a: RelayView)
    ensures
        !spec_reach(a, a),
{
}

proof fn lemma_flags_of_concat(t1: Seq<Seq<char>>, t2: Seq<Seq<char>>)
    ensures
        flags_of(t1) is Some && flags_of(t2) is Some ==> flags_of(t1 + t2) == Some(
            flags_of(t1).unwrap() | flags_of(t2).unwrap(),
        ),
        (flags_of(t1) is None || flags_of(t2) is None) ==> flags_of(t1 + t2) is None,
    decreases t2.len(),
{
    if t2.len() == 0 {
        assert(t1 + t2 =~= t1);
        if let Some(a) = flags_of(t1) {
            assert(a | 0u16 == a) by (bit_vector);
        }
    } else {
        lemma_flags_of_concat(t1, t2.drop_last());
        assert((t1 + t2).drop_last() =~= t1 + t2.drop_last());
        assert((t1 + t2).last() == t2.last());
        if let (Some(a), Some(b)) = (flags_of(t1), flags_of(t2)) {
            let c = flags_of(t2.drop_last()).unwrap();
            let f = crate::tor_status::flag_bit(t2.last()).unwrap();
            assert(((a | c) | f) == (a | (c | f))) by (bit_vector);
        }
        if flags_of(t1) is None && flags_of(t2) is Some {
            assert(flags_of(t2.drop_last()) is Some);
        }
    }
}

/// The flags of two `s` line contents joined by a space are the flags of
/// both; one unknown flag makes the joined line fail too.
pub proof fn flags_of_joined_lines(s1: Seq<char>, s2: Seq<char>)
    ensures
        spec_parse_flags(s1) is Ok && spec_parse_flags(s2) is Ok ==> spec_parse_flags(
            s1 + seq![' '] + s2,
        ) == Ok::<u16, crate::tor_status::ParseError>(
            spec_parse_flags(s1).unwrap() | spec_parse_flags(s2).unwrap(),
        ),
        (spec_parse_flags(s1) is Err || spec_parse_flags(s2) is Err) ==> spec_parse_flags(
            s1 + seq![' '] + s2,
        ) is Err,
{
    reveal(spec_parse_flags);
    lemma_split_all_concat(s1, ' ', s2);
    lemma_flags_of_concat(split_all(s1, ' '), split_all(s2, ' '));
}

/// Every flag that an `s` line names is in the set that it gives.
pub proof fn flags_contain_each_named(s: Seq<char>, i: int)
    requires
        0 <= i < split_all(s, ' ').len(),
    ensures
        spec_parse_flags(s) matches Ok(b) ==> crate::tor_status::flag_bit(split_all(s, ' ')[i]) matches Some(
            f,
        ) && b & f == f,
{
    reveal(spec_parse_flags);
    let t = split_all(s, ' ');
    if let Ok(b) = spec_parse_flags(s) {
        lemma_flags_prefix_contains(t, i);
    }
}

proof fn lemma_flags_prefix_contains(t: Seq<Seq<char>>, i: int)
    requires
        0 <= i < t.len(),
        flags_of(t) is Some,
    ensures
        crate::tor_status::flag_bit(t[i]) matches Some(f) && flags_of(t).unwrap() & f == f,
    decreases t.len(),
{
    let b = flags_of(t).unwrap();
    let c = flags_of(t.drop_last()).unwrap();
    let f = crate::tor_status::flag_bit(t.last()).unwrap();
    if i == t.len() - 1 {
        assert((c | f) & f == f) by (bit_vector);
    } else {
        lemma_flags_prefix_contains(t.drop_last(), i);
        let g = crate::tor_status::flag_bit(t[i]).unwrap();
        assert(t.drop_last()[i] == t[i]);
        assert(c & g == g ==> (c | f) & g == g) by (bit_vector);
    }
}

/// A system is counted when some observation holds it, and never more often
/// than there are observations: the share of observations that hold it is a
/// probability.
pub proof fn count_is_share(obs: Seq<Set<Seq<char>>>, a: Seq<char>)
    ensures
        count_map(obs).contains_key(a) <==> exists|i: int| 0 <= i < obs.len() && obs[i].contains(a),
        count_map(obs).contains_key(a) ==> 0 < count_map(obs)[a] <= obs.len(),
    decreases obs.len(),
{
    if obs.len() > 0 {
        count_is_share(obs.drop_last(), a);
        if exists|i: int| 0 <= i < obs.len() && obs[i].contains(a) {
            let i = choose|i: int| 0 <= i < obs.len() && obs[i].contains(a);
            if i < obs.len() - 1 {
                assert(obs.drop_last()[i].contains(a));
            }
        }
        if occurrences(obs.drop_last(), a) > 0 {
            let i = choose|i: int| 0 <= i < obs.drop_last().len() && obs.drop_last()[i].contains(a);
            assert(obs[i].contains(a));
        }
    }
}

/// Between relay entries, a line that starts neither an entry (`r`) nor the
/// footer (`directory-footer`) makes the relay list fail.
pub proof fn relay_list_refuses_other_lines(s: Seq<char>, acc: Seq<ListedRelay>)
    requires
        split_once(s, '\n') matches Some((line, _)) && ({
            let start = match split_once(line, ' ') {
                Some((x, _)) => x,
                None => line,
            };
            start != seq!['r'] && start != "directory-footer"@
        }),
    ensures
        relays_from(s, acc) == Err::<(Seq<ListedRelay>, Seq<char>), crate::tor_status::ParseError>(
            crate::tor_status::ParseError::MissingSeparator,
        ),
{
    lemma_split_once(s, '\n');
    let (line, _) = split_once(s, '\n').unwrap();
    lemma_split_once(line, ' ');
    if let Some((start, content)) = split_once(line, ' ') {
        assert(!content.contains('\n')) by {
            if content.contains('\n') {
                let j = choose|j: int| 0 <= j < content.len() && content[j] == '\n';
                assert(line[start.len() + 1 + j] == '\n');
                assert(line.contains('\n'));
            }
        }
        lemma_split_once(content, '\n');
        if split_once(content, '\n') is Some {
            let (x, y) = split_once(content, '\n').unwrap();
            assert(content[x.len() as int] == '\n');
        }
    } else {
        let empty: Seq<char> = seq![];
        lemma_split_once(empty, '\n');
    }
}

/// Joining a consensus entry with a descriptor keeps every field of both.
pub proof fn join_keeps_fields(relay: consensus::Relay, descriptor: Descriptor)
    ensures
        <Relay as FromSpec<(consensus::Relay, Descriptor)>>::obeys_from_spec(),
        <Relay as FromSpec<(consensus::Relay, Descriptor)>>::from_spec((relay, descriptor))@ == (
        RelayView { listed: relay@, described: descriptor@ }),
{
}

/// With an exclusion list, the output holds the rank of each relay that the
/// list names and of no other, in increasing order; without one, every rank
/// from one to the number of relays.
pub proof fn printed_ranks_are_the_listed_relays(
    ids: Seq<Seq<u8>>,
    excluded: Option<Seq<Seq<u8>>>,
    k: int,
)
    ensures
        printed_ranks(ids, excluded).contains(k) <==> (1 <= k <= ids.len() && printed(
            excluded,
            ids[k - 1],
        )),
        forall|a: int, b: int|
            0 <= a < b < printed_ranks(ids, excluded).len() ==> printed_ranks(ids, excluded)[a]
                < printed_ranks(ids, excluded)[b],
        forall|a: int|
            0 <= a < printed_ranks(ids, excluded).len() ==> 1 <= #[trigger] printed_ranks(
                ids,
                excluded,
            )[a] <= ids.len(),
    decreases ids.len(),
{
    if ids.len() > 0 {
        let earlier = printed_ranks(ids.drop_last(), excluded);
        printed_ranks_are_the_listed_relays(ids.drop_last(), excluded, k);
        if 1 <= k < ids.len() {
            assert(ids.drop_last()[k - 1] == ids[k - 1]);
        }
        if printed(excluded, ids.last()) {
            let p = earlier.push(ids.len() as int);
            assert(p.last() == ids.len());
            if k == ids.len() {
                assert(p[p.len() - 1] == k);
            }
            if p.contains(k) && k != ids.len() {
                let j = choose|j: int| 0 <= j < p.len() && p[j] == k;
                assert(j < earlier.len());
                assert(earlier[j] == k);
            }
            if earlier.contains(k) {
                let j = choose|j: int| 0 <= j < earlier.len() && earlier[j] == k;
                assert(p[j] == k);
            }
        }
    }
}

proof fn lemma_partner_positions(rs: Seq<RelayView>, r: RelayView, flag: RelayFlag, i: int)
    ensures
        partner_positions(rs, r, flag).contains(i) <==> (0 <= i < rs.len() && has_flag(rs[i], flag)
            && spec_reach(r, rs[i])),
    decreases rs.len(),
{
    if rs.len() > 0 {
        let earlier = partner_positions(rs.drop_last(), r, flag);
        lemma_partner_positions(rs.drop_last(), r, flag, i);
        if 0 <= i < rs.len() - 1 {
            assert(rs.drop_last()[i] == rs[i]);
        }
        if has_flag(rs.last(), flag) && spec_reach(r, rs.last()) {
            let p = earlier.push(rs.len() - 1);
            if i == rs.len() - 1 {
                assert(p[p.len() - 1] == i);
            }
            if p.contains(i) && i != rs.len() - 1 {
                let j = choose|j: int| 0 <= j < p.len() && p[j] == i;
                assert(earlier[j] == i);
            }
            if earlier.contains(i) {
                let j = choose|j: int| 0 <= j < earlier.len() && earlier[j] == i;
                assert(p[j] == i);
            }
        }
    }
}

/// Pairing is mutual: a guard is paired with an exit exactly when that exit
/// is paired with the guard, and no relay is paired with itself.
pub proof fn pairing_is_mutual(rs: Seq<RelayView>, g: int, e: int)
    requires
        0 <= g < rs.len(),
        0 <= e < rs.len(),
        has_flag(rs[g], RelayFlag::Guard),
        has_flag(rs[e], RelayFlag::Exit),
    ensures
        partner_positions(rs, rs[g], RelayFlag::Exit).contains(e) <==> partner_positions(
            rs,
            rs[e],
            RelayFlag::Guard,
        ).contains(g),
        !partner_positions(rs, rs[g], RelayFlag::Exit).contains(g),
        !partner_positions(rs, rs[e], RelayFlag::Guard).contains(e),
{
    lemma_partner_positions(rs, rs[g], RelayFlag::Exit, e);
    lemma_partner_positions(rs, rs[e], RelayFlag::Guard, g);
    lemma_partner_positions(rs, rs[g], RelayFlag::Exit, g);
    lemma_partner_positions(rs, rs[e], RelayFlag::Guard, e);
}

/// A version line as Tor writes it: a word, a space, the four numbers in
/// decimal separated by dots, and the status, if any, after a dash.
pub open spec fn version_text(
    word: Seq<char>,
    major: u8,
    minor: u8,
    micro: u8,
    patch: u8,
    status: Option<Seq<char>>,
) -> Seq<char> {
    let numbers = version_numbers(major, minor, micro, patch);
    word + seq![' '] + match status {
        Some(t) => numbers + seq!['-'] + t,
        None => numbers,
    }
}

proof fn lemma_decimal_u8(v: u8)
    ensures
        parse_unsigned(decimal(v as nat), 255) == Some(v as nat),
        !decimal(v as nat).contains('.'),
        !decimal(v as nat).contains('-'),
{
    lemma_decimal(v as nat);
    let d = decimal(v as nat);
    assert(is_digit(d[0]));
    assert(!d.contains('.')) by {
        if d.contains('.') {
            let j = choose|j: int| 0 <= j < d.len() && d[j] == '.';
            assert(is_digit(d[j]));
        }
    }
    assert(!d.contains('-')) by {
        if d.contains('-') {
            let j = choose|j: int| 0 <= j < d.len() && d[j] == '-';
            assert(is_digit(d[j]));
        }
    }
}

/// The four numbers of a version, written in decimal with dots between.
pub open spec fn version_numbers(major: u8, minor: u8, micro: u8, patch: u8) -> Seq<char> {
    decimal(major as nat) + seq!['.'] + decimal(minor as nat) + seq!['.'] + decimal(micro as nat)
        + seq!['.'] + decimal(patch as nat)
}

proof fn lemma_no_dash(a: Seq<char>, b: Seq<char>, c: char)
    requires
        !a.contains('-'),
        !b.contains('-'),
        c != '-',
    ensures
        !(a + seq![c] + b).contains('-'),
{
    let s = a + seq![c] + b;
    if s.contains('-') {
        let j = choose|j: int| 0 <= j < s.len() && s[j] == '-';
        if j < a.len() {
            assert(a[j] == '-');
        } else if j > a.len() {
            assert(b[j - a.len() - 1] == '-');
        }
    }
}

proof fn lemma_version_numbers(major: u8, minor: u8, micro: u8, patch: u8)
    ensures
        split_n(version_numbers(major, minor, micro, patch), '.', 4) == seq![
            decimal(major as nat),
            decimal(minor as nat),
            decimal(micro as nat),
            decimal(patch as nat),
        ],
        !version_numbers(major, minor, micro, patch).contains('-'),
{
    let da = decimal(major as nat);
    let db = decimal(minor as nat);
    let dc = decimal(micro as nat);
    let dd = decimal(patch as nat);
    lemma_decimal_u8(major);
    lemma_decimal_u8(minor);
    lemma_decimal_u8(micro);
    lemma_decimal_u8(patch);
    let r3 = dc + seq!['.'] + dd;
    let r2 = db + seq!['.'] + r3;
    let numbers = da + seq!['.'] + r2;
    assert(version_numbers(major, minor, micro, patch) =~= numbers);
    lemma_split_once_first(da, '.', r2);
    lemma_split_once_first(db, '.', r3);
    lemma_split_once_first(dc, '.', dd);
    assert(split_n(dd, '.', 1) == seq![dd]);
    assert(split_n(r3, '.', 2) == seq![dc] + split_n(dd, '.', 1));
    assert(split_n(r3, '.', 2) =~= seq![dc, dd]);
    assert(split_n(r2, '.', 3) == seq![db] + split_n(r3, '.', 2));
    assert(split_n(r2, '.', 3) =~= seq![db, dc, dd]);
    assert(split_n(numbers, '.', 4) == seq![da] + split_n(r2, '.', 3));
    assert(split_n(numbers, '.', 4) =~= seq![da, db, dc, dd]);
    lemma_no_dash(dc, dd, '.');
    lemma_no_dash(db, r3, '.');
    lemma_no_dash(da, r2, '.');
}

/// A version written as Tor writes it reads back as the same numbers and
/// status, whatever the status text holds.
pub proof fn version_reads_back(
    word: Seq<char>,
    major: u8,
    minor: u8,
    micro: u8,
    patch: u8,
    status: Option<Seq<char>>,
)
    requires
        !word.contains(' '),
    ensures
        spec_parse_version(version_text(word, major, minor, micro, patch, status)) == Ok::<
            VersionView,
            ParseError,
        >(VersionView { major, minor, micro, patch, status }),
{
    reveal(spec_parse_version);
    let numbers = version_numbers(major, minor, micro, patch);
    lemma_version_numbers(major, minor, micro, patch);
    lemma_decimal_u8(major);
    lemma_decimal_u8(minor);
    lemma_decimal_u8(micro);
    lemma_decimal_u8(patch);
    let rest = match status {
        Some(t) => numbers + seq!['-'] + t,
        None => numbers,
    };
    assert(version_text(word, major, minor, micro, patch, status) =~= word + seq![' '] + rest);
    lemma_split_once_first(word, ' ', rest);
    match status {
        Some(t) => lemma_split_once_first(numbers, '-', t),
        None => lemma_split_once_first(numbers, '-', seq![]),
    }
}

proof fn lemma_flags_of_bits(t: Seq<Seq<char>>, m: u16)
    ensures
        flags_of(t) matches Some(b) ==> ((b & m != 0) <==> exists|i: int|
            0 <= i < t.len() && (crate::tor_status::flag_bit(#[trigger] t[i]) matches Some(f) && f & m
                != 0)),
    decreases t.len(),
{
    if t.len() == 0 {
        if let Some(b) = flags_of(t) {
            assert(0u16 & m == 0) by (bit_vector);
        }
    } else if let Some(b) = flags_of(t) {
        let c = flags_of(t.drop_last()).unwrap();
        let f = crate::tor_status::flag_bit(t.last()).unwrap();
        lemma_flags_of_bits(t.drop_last(), m);
        assert(((c | f) & m != 0) == (c & m != 0 || f & m != 0)) by (bit_vector);
        if c & m != 0 {
            let i = choose|i: int|
                0 <= i < t.drop_last().len() && (crate::tor_status::flag_bit(
                    #[trigger] t.drop_last()[i],
                ) matches Some(g) && g & m != 0);
            assert(t[i] == t.drop_last()[i]);
        }
        if f & m != 0 {
            assert(t[t.len() - 1] == t.last());
        }
        if exists|i: int|
            0 <= i < t.len() && (crate::tor_status::flag_bit(#[trigger] t[i]) matches Some(g) && g & m
                != 0) {
            let i = choose|i: int|
                0 <= i < t.len() && (crate::tor_status::flag_bit(#[trigger] t[i]) matches Some(g) && g
                    & m != 0);
            if i < t.len() - 1 {
                assert(t.drop_last()[i] == t[i]);
            }
        }
    }
}

/// The flags of an `s` line are exactly those its words name: a set of
/// flags `m` meets the result exactly when it meets the flag of some word,
/// so no flag is set that no word names.
pub proof fn flags_are_only_the_named(s: Seq<char>, m: u16)
    ensures
        spec_parse_flags(s) matches Ok(b) ==> ((b & m != 0) <==> exists|i: int|
            0 <= i < split_all(s, ' ').len() && (crate::tor_status::flag_bit(
                #[trigger] split_all(s, ' ')[i],
            ) matches Some(f) && f & m != 0)),
{
    reveal(spec_parse_flags);
    lemma_flags_of_bits(split_all(s, ' '), m);
}

/// The number of observations that `m` holds of relay `k`.
pub open spec fn observation_count(m: Map<Seq<u8>, Seq<Set<Seq<char>>>>, k: Seq<u8>) -> nat {
    if m.contains_key(k) {
        m[k].len()
    } else {
        0
    }
}

/// How `after` follows from `before` when one observation with the paths
/// `a` and `b` is filed under relay `g`: `g` has one observation more, its
/// earlier ones unchanged, and the new one holds exactly the systems of
/// both paths (a path that is `None` adds none); other relays are untouched.
pub open spec fn filed_once(
    before: Map<Seq<u8>, Seq<Set<Seq<char>>>>,
    after: Map<Seq<u8>, Seq<Set<Seq<char>>>>,
    g: Seq<u8>,
    a: Option<Set<Seq<char>>>,
    b: Option<Set<Seq<char>>>,
) -> bool {
    &&& after.contains_key(g)
    &&& after[g].len() == observation_count(before, g) + 1
    &&& before.contains_key(g) ==> after[g].take(before[g].len() as int) == before[g]
    &&& forall|x: Seq<char>|
        #[trigger] after[g].last().contains(x) <==> ((a matches Some(p) && p.contains(x)) || (
        b matches Some(q) && q.contains(x)))
    &&& forall|k: Seq<u8>|
        k != g ==> (#[trigger] after.contains_key(k) == before.contains_key(k) && (
        before.contains_key(k) ==> after[k] == before[k]))
}

/// Each line of the inference results files exactly one observation under
/// the guard that the mapping gives for its index (when the index is a guard
/// sample) and one under the exit (when it is an exit sample), holding the
/// union of the systems of both directions, whatever the paths hold, even
/// when neither could be inferred; nothing else changes.
pub proof fn each_sample_is_one_observation(
    inf: InferenceView,
    obs: (Option<RawView>, Option<RawView>),
    m: MappingView,
)
    ensures
        obs.0 is None ==> observe(inf, obs, m).guards == inf.guards,
        obs.0 matches Some(o) ==> filed_once(
            inf.guards,
            observe(inf, obs, m).guards,
            m.client_guard[o.0 as int],
            o.1,
            o.2,
        ),
        obs.1 is None ==> observe(inf, obs, m).exits == inf.exits,
        obs.1 matches Some(o) ==> filed_once(
            inf.exits,
            observe(inf, obs, m).exits,
            m.exit_destination[o.0 as int],
            o.1,
            o.2,
        ),
{
    let after = observe(inf, obs, m);
    if let Some(o) = obs.0 {
        let g = m.client_guard[o.0 as int];
        if inf.guards.contains_key(g) {
            assert(after.guards[g].take(inf.guards[g].len() as int) =~= inf.guards[g]);
        }
    }
    if let Some(o) = obs.1 {
        let g = m.exit_destination[o.0 as int];
        if inf.exits.contains_key(g) {
            assert(after.exits[g].take(inf.exits[g].len() as int) =~= inf.exits[g]);
        }
    }
}

/// The number of lines of `ls` that are guard samples of relay `k`.
pub open spec fn guard_samples(ls: Seq<Seq<char>>, m: MappingView, k: Seq<u8>) -> nat
    decreases ls.len(),
{
    if ls.len() == 0 {
        0
    } else {
        guard_samples(ls.drop_last(), m, k) + match spec_split_observations(
            ls.last(),
            m.client_guard.len(),
            m.exit_destination.len(),
        ) {
            Ok((Some(o), _)) => if m.client_guard[o.0 as int] == k {
                1nat
            } else {
                0nat
            },
            _ => 0nat,
        }
    }
}

/// The number of lines of `ls` that are exit samples of relay `k`.
pub open spec fn exit_samples(ls: Seq<Seq<char>>, m: MappingView, k: Seq<u8>) -> nat
    decreases ls.len(),
{
    if ls.len() == 0 {
        0
    } else {
        exit_samples(ls.drop_last(), m, k) + match spec_split_observations(
            ls.last(),
            m.client_guard.len(),
            m.exit_destination.len(),
        ) {
            Ok((_, Some(o))) => if m.exit_destination[o.0 as int] == k {
                1nat
            } else {
                0nat
            },
            _ => 0nat,
        }
    }
}

/// Reading inference results gives each relay as many observations as there
/// are sample lines mapped to it, whatever their paths hold: the share of
/// observations that hold a system is taken over all of its samples.
pub proof fn observations_count_samples(ls: Seq<Seq<char>>, m: MappingView, k: Seq<u8>)
    ensures
        inference_fold(ls, m) matches Ok(inf) ==> observation_count(inf.guards, k) == guard_samples(
            ls,
            m,
            k,
        ) && observation_count(inf.exits, k) == exit_samples(ls, m, k),
    decreases ls.len(),
{
    if ls.len() > 0 {
        observations_count_samples(ls.drop_last(), m, k);
        if let Ok(inf) = inference_fold(ls.drop_last(), m) {
            if let Ok(o) = spec_split_observations(
                ls.last(),
                m.client_guard.len(),
                m.exit_destination.len(),
            ) {
                each_sample_is_one_observation(inf, o, m);
            }
        }
    }
}

/// The words of an `r` line give the relay's nickname (first word),
/// identity and digest (second and third, base64), address (sixth), OR port
/// (seventh) and directory port (eighth); the line is read exactly when
/// each of them reads.
pub proof fn r_line_words(content: Seq<char>)
    ensures
        spec_parse_r_line(content) matches Ok(r) ==> {
            let p = split_all(content, ' ');
            &&& p.len() >= 8
            &&& r.0 == p[0]
            &&& spec_parse_id(p[1]) == Ok::<Seq<u8>, ParseError>(r.1)
            &&& spec_parse_id(p[2]) == Ok::<Seq<u8>, ParseError>(r.2)
            &&& spec_parse_ipv4(p[5]) == Some(r.3)
            &&& parse_unsigned(p[6], 65535) == Some(r.4 as nat)
            &&& parse_unsigned(p[7], 65535) == Some(r.5 as nat)
        },
        ({
            let p = split_all(content, ' ');
            &&& p.len() >= 8
            &&& spec_parse_id(p[1]) is Ok
            &&& spec_parse_id(p[2]) is Ok
            &&& spec_parse_ipv4(p[5]) is Some
            &&& parse_unsigned(p[6], 65535) is Some
            &&& parse_unsigned(p[7], 65535) is Some
        }) ==> spec_parse_r_line(content) is Ok,
{
    reveal(spec_parse_r_line);
}

/// A line of a relay entry: a keyword, a space, the content and a newline.
pub open spec fn entry_line(keyword: char, content: Seq<char>) -> Seq<char> {
    seq![keyword, ' '] + content + seq!['\n']
}

proof fn lemma_entry_line(keyword: char, content: Seq<char>, rest: Seq<char>)
    requires
        keyword != '\n',
        keyword != ' ',
        !content.contains('\n'),
    ensures
        split_once(entry_line(keyword, content) + rest, '\n') == Some(
            (seq![keyword, ' '] + content, rest),
        ),
        split_once(seq![keyword, ' '] + content, ' ') == Some((seq![keyword], content)),
{
    let line = seq![keyword, ' '] + content;
    assert(!line.contains('\n')) by {
        if line.contains('\n') {
            let j = choose|j: int| 0 <= j < line.len() && line[j] == '\n';
            if j >= 2 {
                assert(content[j - 2] == '\n');
            }
        }
    }
    assert(entry_line(keyword, content) + rest =~= line + seq!['\n'] + rest);
    lemma_split_once_first(line, '\n', rest);
    assert(!seq![keyword].contains(' ')) by {
        if seq![keyword].contains(' ') {
            let j = choose|j: int| 0 <= j < 1 && seq![keyword][j] == ' ';
        }
    }
    assert(line =~= seq![keyword] + seq![' '] + content);
    lemma_split_once_first(seq![keyword], ' ', content);
}

/// A relay entry as a consensus lists it: its `r`, `s`, `v`, `w` and `p`
/// lines, followed by the rest of the document.
pub open spec fn listed_entry(
    r: Seq<char>,
    s: Seq<char>,
    v: Seq<char>,
    w: Seq<char>,
    p: Seq<char>,
    rest: Seq<char>,
) -> Seq<char> {
    entry_line('r', r) + (entry_line('s', s) + (entry_line('v', v) + (entry_line('w', w) + (
    entry_line('p', p) + rest))))
}

proof fn lemma_entry_step(keyword: char, content: Seq<char>, t: Seq<char>, f: RelayFields)
    requires
        keyword != '\n',
        keyword != ' ',
        keyword != 'p',
        !content.contains('\n'),
    ensures
        relay_entry(entry_line(keyword, content) + t, f) == match step_fields(
            seq![keyword],
            content,
            f,
        ) {
            Err(e) => Err(e),
            Ok(f2) => relay_entry(t, f2),
        },
{
    lemma_entry_line(keyword, content, t);
    assert(seq![keyword] != seq!['p']) by {
        assert(seq![keyword][0] != seq!['p'][0]);
    }
}

proof fn lemma_entry_end(content: Seq<char>, rest: Seq<char>, f: RelayFields)
    requires
        !content.contains('\n'),
    ensures
        relay_entry(entry_line('p', content) + rest, f) == match finish_relay(f) {
            Err(e) => Err(e),
            Ok(relay) => Ok((relay, rest)),
        },
{
    lemma_entry_line('p', content, rest);
}

proof fn lemma_step_lines(r: Seq<char>, s: Seq<char>, v: Seq<char>, w: Seq<char>, f: RelayFields)
    ensures
        step_fields(seq!['r'], r, f) == match spec_parse_r_line(r) {
            Err(e) => Err(e),
            Ok(x) => Ok(RelayFields { r: Some(x), ..f }),
        },
        step_fields(seq!['s'], s, f) == match spec_parse_flags(s) {
            Err(e) => Err(e),
            Ok(b) => Ok(RelayFields { flags: Some(b), ..f }),
        },
        step_fields(seq!['v'], v, f) == match spec_parse_version(v) {
            Err(e) => Err(e),
            Ok(x) => Ok(RelayFields { version: Some(x), ..f }),
        },
        step_fields(seq!['w'], w, f) == match spec_parse_w_line(w) {
            Err(e) => Err(e),
            Ok(b) => Ok(RelayFields { bandwidth: Some(b), ..f }),
        },
{
    reveal(step_fields);
    assert(seq!['s'] != seq!['r'] && seq!['s'] != seq!['a']) by {
        assert(seq!['s'][0] != seq!['r'][0]);
        assert(seq!['s'][0] != seq!['a'][0]);
    }
    assert(seq!['v'] != seq!['r'] && seq!['v'] != seq!['a'] && seq!['v'] != seq!['s']) by {
        assert(seq!['v'][0] != seq!['r'][0]);
        assert(seq!['v'][0] != seq!['a'][0]);
        assert(seq!['v'][0] != seq!['s'][0]);
    }
    assert(seq!['w'] != seq!['r'] && seq!['w'] != seq!['a'] && seq!['w'] != seq!['s'] && seq!['w']
        != seq!['v']) by {
        assert(seq!['w'][0] != seq!['r'][0]);
        assert(seq!['w'][0] != seq!['a'][0]);
        assert(seq!['w'][0] != seq!['s'][0]);
        assert(seq!['w'][0] != seq!['v'][0]);
    }
}

/// A relay entry made of an `r`, an `s`, a `v`, a `w` and a `p` line reads
/// as the relay that each line states on its own: the `r` line's words give
/// its nickname, identity, digest, address and ports (the directory port is
/// its eighth word), the `s` line alone gives its flags, the `v` line its
/// version and the `w` line its bandwidth; it has no IPv6 address, and the
/// text after the `p` line is left. It reads exactly when each line does.
pub proof fn entry_reads_its_own_lines(
    r: Seq<char>,
    s: Seq<char>,
    v: Seq<char>,
    w: Seq<char>,
    p: Seq<char>,
    rest: Seq<char>,
)
    requires
        !r.contains('\n'),
        !s.contains('\n'),
        !v.contains('\n'),
        !w.contains('\n'),
        !p.contains('\n'),
    ensures
        spec_parse_relay(listed_entry(r, s, v, w, p, rest)) matches Ok((relay, after)) ==> {
            let words = split_all(r, ' ');
            &&& after == rest
            &&& relay.nickname == words[0]
            &&& spec_parse_id(words[1]) == Ok::<Seq<u8>, ParseError>(relay.id)
            &&& spec_parse_id(words[2]) == Ok::<Seq<u8>, ParseError>(relay.digest)
            &&& spec_parse_ipv4(words[5]) == Some(relay.ip)
            &&& parse_unsigned(words[6], 65535) == Some(relay.orport as nat)
            &&& parse_unsigned(words[7], 65535) == Some(relay.dirport as nat)
            &&& spec_parse_flags(s) == Ok::<u16, ParseError>(relay.flags)
            &&& spec_parse_version(v) == Ok::<VersionView, ParseError>(relay.version)
            &&& spec_parse_w_line(w) == Ok::<u32, ParseError>(relay.bandwidth)
            &&& relay.ipv6 is None
        },
        (spec_parse_r_line(r) is Ok && spec_parse_flags(s) is Ok && spec_parse_version(v) is Ok
            && spec_parse_w_line(w) is Ok) ==> spec_parse_relay(listed_entry(r, s, v, w, p, rest)) is Ok,
{
    r_line_words(r);
    let t4 = entry_line('p', p) + rest;
    let t3 = entry_line('w', w) + t4;
    let t2 = entry_line('v', v) + t3;
    let t1 = entry_line('s', s) + t2;
    assert(listed_entry(r, s, v, w, p, rest) == entry_line('r', r) + t1);
    let f0 = no_fields();
    lemma_step_lines(r, s, v, w, f0);
    lemma_entry_step('r', r, t1, f0);
    if let Ok(x) = spec_parse_r_line(r) {
        let f1 = RelayFields { r: Some(x), ..f0 };
        lemma_step_lines(r, s, v, w, f1);
        lemma_entry_step('s', s, t2, f1);
        if let Ok(b) = spec_parse_flags(s) {
            let f2 = RelayFields { flags: Some(b), ..f1 };
            lemma_step_lines(r, s, v, w, f2);
            lemma_entry_step('v', v, t3, f2);
            if let Ok(ver) = spec_parse_version(v) {
                let f3 = RelayFields { version: Some(ver), ..f2 };
                lemma_step_lines(r, s, v, w, f3);
                lemma_entry_step('w', w, t4, f3);
                if let Ok(bw) = spec_parse_w_line(w) {
                    let f4 = RelayFields { bandwidth: Some(bw), ..f3 };
                    lemma_entry_end(p, rest, f4);
                }
            }
        }
    }
}

/// `r` with the relays `acc` put in front of its list.
pub open spec fn after_relays(
    acc: Seq<ListedRelay>,
    r: Result<(Seq<ListedRelay>, Seq<char>), ParseError>,
) -> Result<(Seq<ListedRelay>, Seq<char>), ParseError> {
    match r {
        Ok((x, rest)) => Ok((acc + x, rest)),
        Err(e) => Err(e),
    }
}

/// The relays read before do not change those read after: reading a relay
/// list after `acc` gives `acc` followed by what reading it alone gives.
pub proof fn relay_list_ignores_earlier_relays(s: Seq<char>, acc: Seq<ListedRelay>)
    ensures
        relays_from(s, acc) == after_relays(acc, relays_from(s, seq![])),
    decreases s.len(),
{
    lemma_split_once(s, '\n');
    if let Some((line, _)) = split_once(s, '\n') {
        let (start, content) = match split_once(line, ' ') {
            Some(x) => x,
            None => (line, seq![]),
        };
        if start == seq!['r'] {
            if let Ok((relay, rest)) = spec_parse_relay(s) {
                crate::tor_status::consensus::lemma_relay_entry_shrinks(s, no_fields());
                relay_list_ignores_earlier_relays(rest, acc.push(relay));
                relay_list_ignores_earlier_relays(rest, seq![relay]);
                if let Ok((x, r2)) = relays_from(rest, seq![]) {
                    assert(acc.push(relay) + x =~= acc + (seq![relay] + x));
                    assert(seq![].push(relay) =~= seq![relay]);
                } else {
                    assert(seq![].push(relay) =~= seq![relay]);
                }
            }
        } else if start == "directory-footer"@ {
            assert(acc + seq![] =~= acc);
        } else {
            lemma_split_once(line, ' ');
            if let Some((_, rest)) = split_once(content, '\n') {
                lemma_split_once(content, '\n');
                relay_list_ignores_earlier_relays(rest, acc);
            }
        }
    }
}

/// Each relay of a list is read from its own entry alone: where the list
/// starts with an `r` line, it is the relay that the first entry gives on its
/// own, followed by the relays read from the text after that entry.
pub proof fn relay_list_reads_each_entry_alone(s: Seq<char>)
    requires
        split_once(s, '\n') matches Some((line, _)) && split_once(line, ' ') matches Some((start, _))
            && start == seq!['r'],
    ensures
        relays_from(s, seq![]) == match spec_parse_relay(s) {
            Err(e) => Err(e),
            Ok((relay, rest)) => after_relays(seq![relay], relays_from(rest, seq![])),
        },
{
    if let Ok((relay, rest)) = spec_parse_relay(s) {
        relay_list_ignores_earlier_relays(rest, seq![relay]);
        assert(seq![].push(relay) =~= seq![relay]);
    }
}

} // verus!
