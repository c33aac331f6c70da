//! Parsing of Tor network status documents (consensuses and relay
//! descriptors) and the integer side of the relay-ranking metrics.

use vstd::prelude::*;
use crate::text::{lines, lines_at, str_to_chars, views};
use crate::tor_status::encoding::hex_decode;
use crate::tor_status::{ParseError, RelayId};

pub mod text;
pub mod numbers;
pub mod tor_status;
pub mod network_metric;
pub mod properties;
mod keyed;

verus! {

/// The identities that the lines `ls` name, one per line in forty
/// hexadecimal digits; the first line that names none makes the list fail.
pub open spec fn exclusion_fold(ls: Seq<Seq<char>>) -> Result<Seq<Seq<u8>>, ParseError>
    decreases ls.len(),
{
    if ls.len() == 0 {
        Ok(seq![])
    } else {
        match exclusion_fold(ls.drop_last()) {
            Err(e) => Err(e),
            Ok(ids) => match hex_decode(ls.last()) {
                Some(d) => if d.len() == 20 {
                    Ok(ids.push(d))
                } else {
                    Err(ParseError::InvalidHex)
                },
                None => Err(ParseError::InvalidHex),
            },
        }
    }
}

proof fn lemma_exclusion_prefix(t: Seq<Seq<char>>, i: int)
    requires
        0 <= i <= t.len(),
        exclusion_fold(t.take(i)) is Err,
    ensures
        exclusion_fold(t) == exclusion_fold(t.take(i)),
    decreases t.len() - i,
{
    if i < t.len() {
        assert(t.take(i + 1).drop_last() =~= t.take(i));
        lemma_exclusion_prefix(t, i + 1);
    } else {
        assert(t.take(i) =~= t);
    }
}

/// The abstract values of identities.
pub open spec fn relay_id_views(v: Seq<RelayId>) -> Seq<Seq<u8>> {
    v.map_values(|id: RelayId| id@)
}

/// Reads an exclusion list: one relay fingerprint (forty hexadecimal
/// digits) per line.
pub fn parse_exclusion_list(content: &str) -> (r: Result<Vec<RelayId>, ParseError>)
    ensures
        match r {
            Ok(ids) => exclusion_fold(lines(content@)) == Ok::<Seq<Seq<u8>>, ParseError>(
                relay_id_views(ids@),
            ),
            Err(e) => exclusion_fold(lines(content@)) == Err::<Seq<Seq<u8>>, ParseError>(e),
        },
{
    let chars = str_to_chars(content);
    let ls = lines_at(chars.as_slice());
    let ghost t = views(ls@);
    let mut ids: Vec<RelayId> = Vec::new();
    let mut i: usize = 0;
    assert(t.take(0) =~= Seq::<Seq<char>>::empty());
    assert(relay_id_views(ids@) =~= seq![]);
    while i < ls.len()
        invariant
            i <= ls@.len(),
            t == views(ls@),
            t == lines(content@),
            t.len() == ls@.len(),
            exclusion_fold(t.take(i as int)) == Ok::<Seq<Seq<u8>>, ParseError>(relay_id_views(ids@)),
        decreases ls.len() - i,
    {
        assert(t.take(i + 1).drop_last() =~= t.take(i as int));
        assert(t.take(i + 1).last() == ls@[i as int]@);
        match RelayId::from_hex(ls[i]) {
            Ok(id) => {
                let ghost before = relay_id_views(ids@);
                ids.push(id);
                assert(relay_id_views(ids@) =~= before.push(id@));
            },
            Err(e) => {
                proof {
                    lemma_exclusion_prefix(t, i + 1);
                }
                return Err(e);
            },
        }
        i = i + 1;
    }
    assert(t.take(i as int) =~= t);
    Ok(ids)
}

/// Whether a relay with identity `id` is printed: every relay where there
/// is no exclusion list, else those that the list names.
pub open spec fn printed(excluded: Option<Seq<Seq<u8>>>, id: Seq<u8>) -> bool {
    match excluded {
        None => true,
        Some(list) => list.contains(id),
    }
}

/// The ranks (from one) of the printed relays of a ranking, in order.
pub open spec fn printed_ranks(ids: Seq<Seq<u8>>, excluded: Option<Seq<Seq<u8>>>) -> Seq<int>
    decreases ids.len(),
{
    if ids.len() == 0 {
        seq![]
    } else {
        let earlier = printed_ranks(ids.drop_last(), excluded);
        if printed(excluded, ids.last()) {
            earlier.push(ids.len() as int)
        } else {
            earlier
        }
    }
}

/// The identities of an optional exclusion list.
pub open spec fn exclusion_view(excluded: Option<&Vec<RelayId>>) -> Option<Seq<Seq<u8>>> {
    match excluded {
        None => None,
        Some(list) => Some(relay_id_views(list@)),
    }
}

fn is_listed(list: &Vec<RelayId>, id: &RelayId) -> (r: bool)
    ensures
        r == relay_id_views(list@).contains(id@),
{
    let mut k: usize = 0;
    while k < list.len()
        invariant
            k <= list@.len(),
            forall|m: int| 0 <= m < k ==> list@[m]@ != id@,
        decreases list.len() - k,
    {
        if list[k].equals(id) {
            assert(relay_id_views(list@)[k as int] == id@);
            return true;
        }
        k = k + 1;
    }
    assert forall|m: int| 0 <= m < relay_id_views(list@).len() implies relay_id_views(list@)[m]
        != id@ by {
        assert(relay_id_views(list@)[m] == list@[m]@);
    }
    false
}

/// Given the identities of the relays ranked by decreasing metric, the
/// ranks (from one) to print: all of them, or, with an exclusion list,
/// only those of the relays that the list names, each with its rank among
/// all relays.
pub fn selected_ranks(ordered: &[RelayId], excluded: Option<&Vec<RelayId>>) -> (r: Vec<usize>)
    ensures
        r@.map_values(|k: usize| k as int) == printed_ranks(
            relay_id_views(ordered@),
            exclusion_view(excluded),
        ),
{
    let ghost ids = relay_id_views(ordered@);
    let ghost ex = exclusion_view(excluded);
    let mut r: Vec<usize> = Vec::new();
    let mut i: usize = 0;
    assert(r@.map_values(|k: usize| k as int) =~= printed_ranks(ids.take(0), ex));
    while i < ordered.len()
        invariant
            i <= ordered@.len(),
            ids == relay_id_views(ordered@),
            ex == exclusion_view(excluded),
            r@.map_values(|k: usize| k as int) == printed_ranks(ids.take(i as int), ex),
        decreases ordered.len() - i,
    {
        assert(ids.take(i + 1).drop_last() =~= ids.take(i as int));
        assert(ids.take(i + 1).last() == ordered@[i as int]@);
        let keep = match excluded {
            None => true,
            Some(list) => is_listed(list, &ordered[i]),
        };
        let ghost before = r@.map_values(|k: usize| k as int);
        if keep {
            r.push(i + 1);
            assert(r@.map_values(|k: usize| k as int) =~= before.push((i + 1) as int));
        }
        i = i + 1;
    }
    assert(ids.take(i as int) =~= ids);
    r
}

} // verus!
