//! The integer side of the network-adversary metric: reading the AS-path
//! inference results, grouping the observed autonomous systems by relay,
//! and counting how often each system is observed.

use vstd::prelude::*;
use crate::keyed::{
    keyed_map, keys_unique, lemma_keyed_map_index, lemma_keyed_map_push, lemma_keyed_map_update,
};
use crate::numbers::{parse_unsigned, parse_usize};
use crate::text::{chars_to_string, eq_str, lines, lines_at, split_all, split_all_at, views};
use crate::tor_status::{ParseError, RelayId};

verus! {

/// The texts of a sequence of strings.
pub open spec fn name_views(v: Seq<String>) -> Seq<Seq<char>> {
    v.map_values(|s: String| s@)
}

/// No text occurs twice in `v`.
pub open spec fn distinct(v: Seq<Seq<char>>) -> bool {
    forall|i: int, j: int| 0 <= i < j < v.len() ==> #[trigger] v[i] != #[trigger] v[j]
}

/// A set of autonomous systems (by name) observed on one path.
pub struct ASes {
    names: Vec<String>,
}

impl View for ASes {
    type V = Set<Seq<char>>;

    closed spec fn view(&self) -> Set<Seq<char>> {
        name_views(self.names@).to_set()
    }
}

impl ASes {
    #[verifier::type_invariant]
    closed spec fn names_distinct(self) -> bool {
        distinct(name_views(self.names@))
    }

    /// No system.
    pub fn new() -> (r: Self)
        ensures
            r@ == Set::<Seq<char>>::empty(),
    {
        let r = ASes { names: Vec::new() };
        assert(name_views(r.names@).to_set() =~= Set::<Seq<char>>::empty());
        r
    }

    /// Whether the set holds `name`.
    pub fn contains(&self, name: &String) -> (r: bool)
        ensures
            r == self@.contains(name@),
    {
        let mut i: usize = 0;
        let ghost v = name_views(self.names@);
        while i < self.names.len()
            invariant
                i <= self.names@.len(),
                v == name_views(self.names@),
                forall|j: int| 0 <= j < i ==> v[j] != name@,
            decreases self.names.len() - i,
        {
            assert(v[i as int] == self.names@[i as int]@);
            if self.names[i] == *name {
                assert(v.contains(name@));
                return true;
            }
            i = i + 1;
        }
        assert(!v.contains(name@));
        false
    }

    /// Adds `name` to the set.
    pub fn insert(&mut self, name: String)
        ensures
            final(self)@ == old(self)@.insert(name@),
    {
        proof {
            use_type_invariant(&*self);
        }
        if self.contains(&name) {
            assert(old(self)@.insert(name@) =~= old(self)@);
            return;
        }
        let ghost before = name_views(self.names@);
        let mut names: Vec<String> = Vec::new();
        std::mem::swap(&mut names, &mut self.names);
        names.push(name);
        assert(name_views(names@) =~= before.push(name@));
        assert(distinct(name_views(names@))) by {
            assert forall|i: int, j: int|
                0 <= i < j < name_views(names@).len() implies #[trigger] name_views(names@)[i]
                != #[trigger] name_views(names@)[j] by {
                if j == before.len() {
                    assert(before.contains(before[i]));
                }
            }
        }
        self.names = names;
        proof {
            before.lemma_push_to_set_commute(name@);
        }
        assert(name_views(self.names@).to_set() =~= before.to_set().insert(name@));
    }

    /// The names of the systems, each once.
    pub fn names(&self) -> (r: &Vec<String>)
        ensures
            name_views(r@).to_set() == self@,
            distinct(name_views(r@)),
    {
        proof {
            use_type_invariant(self);
        }
        &self.names
    }

    /// The systems of both sets.
    pub fn union(&self, other: &ASes) -> (r: ASes)
        ensures
            r@ == self@.union(other@),
    {
        let mut r = ASes::new();
        let mut i: usize = 0;
        while i < self.names.len()
            invariant
                i <= self.names@.len(),
                r@ == name_views(self.names@).take(i as int).to_set(),
            decreases self.names.len() - i,
        {
            let ghost before = r@;
            r.insert(self.names[i].clone());
            i = i + 1;
            assert(name_views(self.names@).take(i as int) =~= name_views(self.names@).take(
                i - 1,
            ).push(self.names@[i - 1]@));
            proof {
                name_views(self.names@).take(i - 1).lemma_push_to_set_commute(self.names@[i - 1]@);
            }
            assert(r@ =~= name_views(self.names@).take(i as int).to_set());
        }
        assert(name_views(self.names@).take(i as int) =~= name_views(self.names@));
        let mut j: usize = 0;
        while j < other.names.len()
            invariant
                j <= other.names@.len(),
                r@ == self@.union(name_views(other.names@).take(j as int).to_set()),
            decreases other.names.len() - j,
        {
            r.insert(other.names[j].clone());
            j = j + 1;
            assert(name_views(other.names@).take(j as int) =~= name_views(other.names@).take(
                j - 1,
            ).push(other.names@[j - 1]@));
            proof {
                name_views(other.names@).take(j - 1).lemma_push_to_set_commute(other.names@[j - 1]@);
            }
            assert(r@ =~= self@.union(name_views(other.names@).take(j as int).to_set()));
        }
        assert(name_views(other.names@).take(j as int) =~= name_views(other.names@));
        r
    }
}


/// The systems of an AS path written as names joined by `-`, or nothing
/// for the path `None`.
pub open spec fn asn_path(path: Seq<char>) -> Option<Set<Seq<char>>> {
    if path == "None"@ {
        None
    } else {
        Some(split_all(path, '-').to_set())
    }
}

/// The set of systems of an optional AS path.
pub open spec fn opt_ases_view(a: Option<ASes>) -> Option<Set<Seq<char>>> {
    match a {
        Some(x) => Some(x@),
        None => None,
    }
}

/// Reads an AS path: names joined by `-`, or `None`.
pub fn extract_asn_path(path: &[char]) -> (r: Option<ASes>)
    ensures
        opt_ases_view(r) == asn_path(path@),
{
    if eq_str(path, "None") {
        return None;
    }
    let pieces = split_all_at(path, '-');
    let ghost t = views(pieces@);
    let mut r = ASes::new();
    let mut i: usize = 0;
    assert(t.take(0).to_set() =~= Set::<Seq<char>>::empty());
    while i < pieces.len()
        invariant
            i <= pieces@.len(),
            t == views(pieces@),
            t.len() == pieces@.len(),
            r@ == t.take(i as int).to_set(),
        decreases pieces.len() - i,
    {
        r.insert(chars_to_string(pieces[i]));
        proof {
            assert(t.take(i + 1) =~= t.take(i as int).push(pieces@[i as int]@));
            t.take(i as int).lemma_push_to_set_commute(pieces@[i as int]@);
        }
        i = i + 1;
    }
    assert(t.take(i as int) =~= t);
    Some(r)
}

/// One observation of a sample: its index and the systems of the path
/// in each direction.
pub type RawASObservation = (usize, Option<ASes>, Option<ASes>);

/// The abstract value of an observation.
pub type RawView = (usize, Option<Set<Seq<char>>>, Option<Set<Seq<char>>>);

/// The abstract value of an optional observation.
pub open spec fn raw_view(o: Option<RawASObservation>) -> Option<RawView> {
    match o {
        Some(x) => Some((x.0, opt_ases_view(x.1), opt_ases_view(x.2))),
        None => None,
    }
}

/// What reading one line of the inference results gives: its second word is
/// the sample index, the next two the paths between client and guard, the
/// two after them the paths between exit and destination. The guard paths
/// count when the index is below `guard_sample`, the exit paths when it is
/// below `exit_sample`.
pub open spec fn spec_split_observations(l: Seq<char>, guard_sample: nat, exit_sample: nat) -> Result<
    (Option<RawView>, Option<RawView>),
    ParseError,
> {
    let p = split_all(l, ' ');
    if p.len() < 6 {
        Err(ParseError::MissingField)
    } else {
        match parse_unsigned(p[1], usize::MAX as nat) {
            None => Err(ParseError::InvalidNumber),
            Some(idx) => Ok(
                (
                    if idx < guard_sample {
                        Some((idx as usize, asn_path(p[2]), asn_path(p[3])))
                    } else {
                        None
                    },
                    if idx < exit_sample {
                        Some((idx as usize, asn_path(p[4]), asn_path(p[5])))
                    } else {
                        None
                    },
                ),
            ),
        }
    }
}

/// Reads one line of the inference results.
pub fn split_observations(l: &[char], guard_sample: usize, exit_sample: usize) -> (r: Result<
    (Option<RawASObservation>, Option<RawASObservation>),
    ParseError,
>)
    ensures
        match r {
            Ok((g, e)) => spec_split_observations(l@, guard_sample as nat, exit_sample as nat)
                == Ok::<(Option<RawView>, Option<RawView>), ParseError>((raw_view(g), raw_view(e))),
            Err(err) => spec_split_observations(l@, guard_sample as nat, exit_sample as nat) == Err::<
                (Option<RawView>, Option<RawView>),
                ParseError,
            >(err),
        },
{
    let p = split_all_at(l, ' ');
    let ghost t = views(p@);
    assert(t.len() == p@.len());
    if p.len() < 6 {
        return Err(ParseError::MissingField);
    }
    assert(t[1] == p@[1]@ && t[2] == p@[2]@ && t[3] == p@[3]@ && t[4] == p@[4]@ && t[5] == p@[5]@);
    let idx = match parse_usize(p[1]) {
        Some(i) => i,
        None => return Err(ParseError::InvalidNumber),
    };
    let guard = if idx < guard_sample {
        let c2g = extract_asn_path(p[2]);
        let g2c = extract_asn_path(p[3]);
        Some((idx, c2g, g2c))
    } else {
        None
    };
    let exit = if idx < exit_sample {
        let e2d = extract_asn_path(p[4]);
        let d2e = extract_asn_path(p[5]);
        Some((idx, e2d, d2e))
    } else {
        None
    };
    Ok((guard, exit))
}

/// The abstract value of a `Mapping`.
pub struct MappingView {
    pub client_guard: Seq<Seq<u8>>,
    pub exit_destination: Seq<Seq<u8>>,
}

/// The abstract values of identities.
pub open spec fn id_views(v: Seq<RelayId>) -> Seq<Seq<u8>> {
    v.map_values(|id: RelayId| id@)
}

/// Which relay each sample index of the inference results stands for: the
/// guard of a client-guard sample, the exit of an exit-destination sample.
#[derive(Debug, PartialEq, Eq, Clone)]
pub struct Mapping {
    pub client_guard: Vec<RelayId>,
    pub exit_destination: Vec<RelayId>,
}

impl View for Mapping {
    type V = MappingView;

    open spec fn view(&self) -> MappingView {
        MappingView {
            client_guard: id_views(self.client_guard@),
            exit_destination: id_views(self.exit_destination@),
        }
    }
}


/// The systems of each of a sequence of observations.
pub open spec fn obs_views(v: Seq<ASes>) -> Seq<Set<Seq<char>>> {
    v.map_values(|a: ASes| a@)
}

/// The abstract values of the stored observations of each relay.
pub open spec fn entry_views(e: Seq<(RelayId, Vec<ASes>)>) -> Seq<(Seq<u8>, Seq<Set<Seq<char>>>)> {
    e.map_values(|p: (RelayId, Vec<ASes>)| (p.0@, obs_views(p.1@)))
}

/// The abstract value of an `Inference`: the observations of each guard and
/// of each exit, by identity, in the order they were read.
pub struct InferenceView {
    pub guards: Map<Seq<u8>, Seq<Set<Seq<char>>>>,
    pub exits: Map<Seq<u8>, Seq<Set<Seq<char>>>>,
}

/// The map after one more observation `s` of relay `k`.
pub open spec fn add_observation(
    m: Map<Seq<u8>, Seq<Set<Seq<char>>>>,
    k: Seq<u8>,
    s: Set<Seq<char>>,
) -> Map<Seq<u8>, Seq<Set<Seq<char>>>> {
    m.insert(
        k,
        if m.contains_key(k) {
            m[k].push(s)
        } else {
            seq![s]
        },
    )
}

/// The systems observed on a path in either direction.
pub open spec fn union_opt(a: Option<Set<Seq<char>>>, b: Option<Set<Seq<char>>>) -> Set<Seq<char>> {
    let x = match a {
        Some(x) => x,
        None => Set::empty(),
    };
    let y = match b {
        Some(y) => y,
        None => Set::empty(),
    };
    x.union(y)
}

/// The inference after the observations of one line: the guard observation
/// is filed under the guard that the mapping gives for its index, the exit
/// observation under the exit.
pub open spec fn observe(
    inf: InferenceView,
    obs: (Option<RawView>, Option<RawView>),
    m: MappingView,
) -> InferenceView {
    InferenceView {
        guards: match obs.0 {
            Some(o) => add_observation(inf.guards, m.client_guard[o.0 as int], union_opt(o.1, o.2)),
            None => inf.guards,
        },
        exits: match obs.1 {
            Some(o) => add_observation(
                inf.exits,
                m.exit_destination[o.0 as int],
                union_opt(o.1, o.2),
            ),
            None => inf.exits,
        },
    }
}

/// The systems observed on the paths of each guard and of each exit.
pub struct Inference {
    guards: Vec<(RelayId, Vec<ASes>)>,
    exits: Vec<(RelayId, Vec<ASes>)>,
}

impl View for Inference {
    type V = InferenceView;

    closed spec fn view(&self) -> InferenceView {
        InferenceView {
            guards: keyed_map(entry_views(self.guards@)),
            exits: keyed_map(entry_views(self.exits@)),
        }
    }
}

/// Files the observation `ases` under relay `id`.
fn add_to(entries: &mut Vec<(RelayId, Vec<ASes>)>, id: &RelayId, ases: ASes)
    requires
        keys_unique(entry_views(old(entries)@)),
    ensures
        keys_unique(entry_views(final(entries)@)),
        keyed_map(entry_views(final(entries)@)) == add_observation(
            keyed_map(entry_views(old(entries)@)),
            id@,
            ases@,
        ),
{
    let ghost ev = entry_views(entries@);
    let mut i: usize = 0;
    while i < entries.len()
        invariant
            i <= entries@.len(),
            ev == entry_views(entries@),
            keys_unique(ev),
            entries@ == old(entries)@,
            forall|j: int| 0 <= j < i ==> (#[trigger] ev[j]).0 != id@,
        decreases entries.len() - i,
    {
        assert(ev[i as int].0 == entries@[i as int].0@);
        if entries[i].0.equals(id) {
            proof {
                lemma_keyed_map_index(ev, i as int);
            }
            let ghost old_obs = entries@[i as int].1@;
            entries[i].1.push(ases);
            assert(entries@[i as int].1@ == old_obs.push(ases));
            assert(entries@[i as int].0 == old(entries)@[i as int].0);
            assert(forall|j: int| 0 <= j < entries@.len() && j != i ==> entries@[j] == old(entries)@[j]);
            assert(entries@.len() == old(entries)@.len());
            proof {
                assert(obs_views(old_obs.push(ases)) =~= obs_views(old_obs).push(ases@));
                assert(entries@[i as int].0@ == id@);
                assert forall|j: int| 0 <= j < ev.len() implies #[trigger] entry_views(entries@)[j]
                    == ev.update(i as int, (id@, obs_views(old_obs).push(ases@)))[j] by {
                    if j != i {
                        assert(entries@[j] == old(entries)@[j]);
                    }
                }
                assert(entry_views(entries@) =~= ev.update(
                    i as int,
                    (id@, obs_views(old_obs).push(ases@)),
                ));
                lemma_keyed_map_update(ev, i as int, obs_views(old_obs).push(ases@));
            }
            return;
        }
        i = i + 1;
    }
    let mut obs: Vec<ASes> = Vec::new();
    obs.push(ases);
    proof {
        assert(!keyed_map(ev).contains_key(id@)) by {
            if keyed_map(ev).contains_key(id@) {
                let j = choose|j: int| crate::keyed::has_key_at(ev, id@, j);
                assert(ev[j].0 == id@);
            }
        }
        lemma_keyed_map_push(ev, id@, obs_views(obs@));
        assert(obs_views(obs@) =~= seq![ases@]);
    }
    entries.push((*id, obs));
    assert(entry_views(entries@) =~= ev.push((id@, obs_views(obs@))));
}

impl Inference {
    /// The stored observations are filed under distinct relays.
    pub closed spec fn wf(&self) -> bool {
        keys_unique(entry_views(self.guards@)) && keys_unique(entry_views(self.exits@))
    }

    /// No observation.
    pub fn new() -> (r: Self)
        ensures
            r.wf(),
            r@.guards == Map::<Seq<u8>, Seq<Set<Seq<char>>>>::empty(),
            r@.exits == Map::<Seq<u8>, Seq<Set<Seq<char>>>>::empty(),
    {
        let r = Inference { guards: Vec::new(), exits: Vec::new() };
        assert(keyed_map(entry_views(r.guards@)) =~= Map::<Seq<u8>, Seq<Set<Seq<char>>>>::empty());
        assert(keyed_map(entry_views(r.exits@)) =~= Map::<Seq<u8>, Seq<Set<Seq<char>>>>::empty());
        r
    }

    /// Files an observation of the guard `id`.
    pub fn add_guard_observation(&mut self, id: &RelayId, ases: ASes)
        requires
            old(self).wf(),
        ensures
            final(self).wf(),
            final(self)@.guards == add_observation(old(self)@.guards, id@, ases@),
            final(self)@.exits == old(self)@.exits,
    {
        add_to(&mut self.guards, id, ases);
    }

    /// Files an observation of the exit `id`.
    pub fn add_exit_observation(&mut self, id: &RelayId, ases: ASes)
        requires
            old(self).wf(),
        ensures
            final(self).wf(),
            final(self)@.exits == add_observation(old(self)@.exits, id@, ases@),
            final(self)@.guards == old(self)@.guards,
    {
        add_to(&mut self.exits, id, ases);
    }

    /// The observations of each guard and of each exit, by value.
    pub fn into_parts(self) -> (r: (Vec<(RelayId, Vec<ASes>)>, Vec<(RelayId, Vec<ASes>)>))
        requires
            self.wf(),
        ensures
            keys_unique(entry_views(r.0@)),
            keyed_map(entry_views(r.0@)) == self@.guards,
            keys_unique(entry_views(r.1@)),
            keyed_map(entry_views(r.1@)) == self@.exits,
    {
        (self.guards, self.exits)
    }

    /// The observations of each guard.
    pub fn guards(&self) -> (r: &Vec<(RelayId, Vec<ASes>)>)
        requires
            self.wf(),
        ensures
            keys_unique(entry_views(r@)),
            keyed_map(entry_views(r@)) == self@.guards,
    {
        &self.guards
    }

    /// The observations of each exit.
    pub fn exits(&self) -> (r: &Vec<(RelayId, Vec<ASes>)>)
        requires
            self.wf(),
        ensures
            keys_unique(entry_views(r@)),
            keyed_map(entry_views(r@)) == self@.exits,
    {
        &self.exits
    }
}

/// The systems of an optional path, none for a missing one.
fn or_empty(a: Option<ASes>) -> (r: ASes)
    ensures
        r@ == match opt_ases_view(a) {
            Some(x) => x,
            None => Set::empty(),
        },
{
    match a {
        Some(x) => x,
        None => ASes::new(),
    }
}

/// Files the observations of one line of the inference results.
pub fn fold_observations(
    inference: &mut Inference,
    observation: (Option<RawASObservation>, Option<RawASObservation>),
    mapping: &Mapping,
)
    requires
        old(inference).wf(),
        observation.0 matches Some(o) ==> o.0 < mapping.client_guard@.len(),
        observation.1 matches Some(o) ==> o.0 < mapping.exit_destination@.len(),
    ensures
        final(inference).wf(),
        final(inference)@ == observe(
            old(inference)@,
            (raw_view(observation.0), raw_view(observation.1)),
            mapping@,
        ),
{
    let (guard, exit) = observation;
    if let Some((idx, c2g, g2c)) = guard {
        let id = &mapping.client_guard[idx];
        let ases = or_empty(c2g).union(&or_empty(g2c));
        inference.add_guard_observation(id, ases);
    }
    if let Some((idx, e2d, d2e)) = exit {
        let id = &mapping.exit_destination[idx];
        let ases = or_empty(e2d).union(&or_empty(d2e));
        inference.add_exit_observation(id, ases);
    }
}

/// The lines of the inference results after their header line.
pub open spec fn inference_lines(text: Seq<char>) -> Seq<Seq<char>> {
    let ls = lines(text);
    if ls.len() == 0 {
        ls
    } else {
        ls.drop_first()
    }
}

/// The inference after reading the lines `ls` in order; the first line that
/// cannot be read makes the whole fail.
pub open spec fn inference_fold(ls: Seq<Seq<char>>, m: MappingView) -> Result<InferenceView, ParseError>
    decreases ls.len(),
{
    if ls.len() == 0 {
        Ok(InferenceView { guards: Map::empty(), exits: Map::empty() })
    } else {
        match inference_fold(ls.drop_last(), m) {
            Err(e) => Err(e),
            Ok(inf) => match spec_split_observations(
                ls.last(),
                m.client_guard.len(),
                m.exit_destination.len(),
            ) {
                Err(e) => Err(e),
                Ok(o) => Ok(observe(inf, o, m)),
            },
        }
    }
}

proof fn lemma_inference_prefix(t: Seq<Seq<char>>, i: int, m: MappingView)
    requires
        0 <= i <= t.len(),
        inference_fold(t.take(i), m) is Err,
    ensures
        inference_fold(t, m) == inference_fold(t.take(i), m),
    decreases t.len() - i,
{
    if i < t.len() {
        assert(t.take(i + 1).drop_last() =~= t.take(i));
        lemma_inference_prefix(t, i + 1, m);
    } else {
        assert(t.take(i) =~= t);
    }
}

/// Reads the inference results: a header line, then one line per sample.
pub fn build_inference(as_path: &[char], mapping: &Mapping) -> (r: Result<Inference, ParseError>)
    ensures
        match r {
            Ok(inf) => inf.wf() && inference_fold(inference_lines(as_path@), mapping@) == Ok::<
                InferenceView,
                ParseError,
            >(inf@),
            Err(e) => inference_fold(inference_lines(as_path@), mapping@) == Err::<
                InferenceView,
                ParseError,
            >(e),
        },
{
    let ls = lines_at(as_path);
    let ghost all = views(ls@);
    let ghost t = inference_lines(as_path@);
    let mut inference = Inference::new();
    if ls.len() == 0 {
        return Ok(inference);
    }
    assert(t == all.drop_first());
    let mut i: usize = 1;
    assert(t.take(0) =~= Seq::<Seq<char>>::empty());
    assert(inference@ =~= (InferenceView { guards: Map::empty(), exits: Map::empty() }));
    while i < ls.len()
        invariant
            1 <= i <= ls@.len(),
            all == views(ls@),
            all.len() == ls@.len(),
            t == all.drop_first(),
            t == inference_lines(as_path@),
            inference.wf(),
            inference_fold(t.take(i - 1), mapping@) == Ok::<InferenceView, ParseError>(inference@),
        decreases ls.len() - i,
    {
        assert(t.take(i as int).drop_last() =~= t.take(i - 1));
        assert(t.take(i as int).last() == ls@[i as int]@);
        let obs = match split_observations(ls[i], mapping.client_guard.len(), mapping.exit_destination.len()) {
            Ok(o) => o,
            Err(e) => {
                proof {
                    lemma_inference_prefix(t, i as int, mapping@);
                }
                return Err(e);
            },
        };
        proof {
            assert(mapping@.client_guard.len() == mapping.client_guard@.len());
            assert(mapping@.exit_destination.len() == mapping.exit_destination@.len());
            assert(obs.0 matches Some(o) ==> raw_view(obs.0) matches Some(r) && r.0 == o.0);
        }
        fold_observations(&mut inference, obs, mapping);
        i = i + 1;
    }
    assert(t.take(i - 1) =~= t);
    Ok(inference)
}


/// The number of observations in `obs` that hold the system `a`.
pub open spec fn occurrences(obs: Seq<Set<Seq<char>>>, a: Seq<char>) -> nat
    decreases obs.len(),
{
    if obs.len() == 0 {
        0
    } else {
        occurrences(obs.drop_last(), a) + if obs.last().contains(a) {
            1nat
        } else {
            0nat
        }
    }
}

/// For each system observed at least once, the number of observations
/// that hold it.
pub open spec fn count_map(obs: Seq<Set<Seq<char>>>) -> Map<Seq<char>, nat> {
    Map::new(|a: Seq<char>| occurrences(obs, a) > 0, |a: Seq<char>| occurrences(obs, a))
}

/// No observation is counted twice.
proof fn lemma_occurrences_bound(obs: Seq<Set<Seq<char>>>, a: Seq<char>)
    ensures
        occurrences(obs, a) <= obs.len(),
    decreases obs.len(),
{
    if obs.len() > 0 {
        lemma_occurrences_bound(obs.drop_last(), a);
    }
}

/// The abstract values of stored counts.
pub open spec fn count_views(c: Seq<(String, u32)>) -> Seq<(Seq<char>, nat)> {
    c.map_values(|p: (String, u32)| (p.0@, p.1 as nat))
}

/// How many observations hold each system.
pub struct ASCount {
    counts: Vec<(String, u32)>,
}

impl View for ASCount {
    type V = Map<Seq<char>, nat>;

    closed spec fn view(&self) -> Map<Seq<char>, nat> {
        keyed_map(count_views(self.counts@))
    }
}

impl ASCount {
    /// Each system is counted once.
    pub closed spec fn wf(&self) -> bool {
        keys_unique(count_views(self.counts@))
    }

    /// The `(system, count)` pairs, each system once.
    pub fn entries(&self) -> (r: &Vec<(String, u32)>)
        requires
            self.wf(),
        ensures
            keys_unique(count_views(r@)),
            keyed_map(count_views(r@)) == self@,
    {
        &self.counts
    }
}

/// The counts after the observations `p` and, of the next observation, the
/// systems `done`.
pub open spec fn partial_count(p: Seq<Set<Seq<char>>>, done: Seq<Seq<char>>) -> Map<Seq<char>, nat> {
    Map::new(
        |a: Seq<char>| occurrences(p, a) + (if done.contains(a) {
            1nat
        } else {
            0nat
        }) > 0,
        |a: Seq<char>| occurrences(p, a) + (if done.contains(a) {
            1nat
        } else {
            0nat
        }),
    )
}

proof fn lemma_partial_push(p: Seq<Set<Seq<char>>>, done: Seq<Seq<char>>, n: Seq<char>)
    requires
        !done.contains(n),
    ensures
        partial_count(p, done.push(n)) == partial_count(p, done).insert(n, occurrences(p, n) + 1),
{
    assert forall|a: Seq<char>| #[trigger] done.push(n).contains(a) == (done.contains(a) || a == n) by {
        if done.push(n).contains(a) {
            let q = choose|q: int| 0 <= q < done.push(n).len() && done.push(n)[q] == a;
            if q < done.len() {
                assert(done[q] == a);
            }
        }
        if done.contains(a) {
            let q = choose|q: int| 0 <= q < done.len() && done[q] == a;
            assert(done.push(n)[q] == a);
        }
        if a == n {
            assert(done.push(n)[done.len() as int] == a);
        }
    }
    assert(partial_count(p, done.push(n)) =~= partial_count(p, done).insert(n, occurrences(p, n) + 1));
}

proof fn lemma_partial_start(p: Seq<Set<Seq<char>>>)
    ensures
        partial_count(p, seq![]) == count_map(p),
{
    assert(partial_count(p, seq![]) =~= count_map(p));
}

proof fn lemma_partial_end(p: Seq<Set<Seq<char>>>, done: Seq<Seq<char>>, s: Set<Seq<char>>)
    requires
        done.to_set() == s,
    ensures
        partial_count(p, done) == count_map(p.push(s)),
{
    assert(p.push(s).drop_last() =~= p);
    assert forall|a: Seq<char>| #[trigger] done.contains(a) == s.contains(a) by {
        assert(done.to_set().contains(a) == done.contains(a));
    }
    assert(partial_count(p, done) =~= count_map(p.push(s)));
}

/// Position of the pair for `name`, if any.
fn find_count(counts: &Vec<(String, u32)>, name: &String) -> (r: Option<usize>)
    ensures
        match r {
            Some(i) => i < counts@.len() && count_views(counts@)[i as int].0 == name@,
            None => forall|q: int|
                0 <= q < counts@.len() ==> (#[trigger] count_views(counts@)[q]).0 != name@,
        },
{
    let mut i: usize = 0;
    while i < counts.len()
        invariant
            i <= counts@.len(),
            forall|q: int| 0 <= q < i ==> (#[trigger] count_views(counts@)[q]).0 != name@,
        decreases counts.len() - i,
    {
        assert(count_views(counts@)[i as int].0 == counts@[i as int].0@);
        if counts[i].0 == *name {
            return Some(i);
        }
        i = i + 1;
    }
    None
}

/// Counts, for each system, the observations that hold it.
pub fn count_observation(observations: Vec<ASes>) -> (r: ASCount)
    requires
        observations@.len() <= u32::MAX,
    ensures
        r.wf(),
        r@ == count_map(obs_views(observations@)),
{
    let ghost ov = obs_views(observations@);
    let mut counts: Vec<(String, u32)> = Vec::new();
    let mut j: usize = 0;
    assert(ov.take(0) =~= Seq::<Set<Seq<char>>>::empty());
    assert(keyed_map(count_views(counts@)) =~= count_map(ov.take(0)));
    while j < observations.len()
        invariant
            j <= observations@.len(),
            observations@.len() <= u32::MAX,
            ov == obs_views(observations@),
            keys_unique(count_views(counts@)),
            keyed_map(count_views(counts@)) == count_map(ov.take(j as int)),
        decreases observations.len() - j,
    {
        let names = observations[j].names();
        let ghost nv = name_views(names@);
        let ghost p = ov.take(j as int);
        assert(nv.to_set() == ov[j as int]);
        let mut k: usize = 0;
        proof {
            assert(nv.take(0) =~= Seq::<Seq<char>>::empty());
            lemma_partial_start(p);
        }
        while k < names.len()
            invariant
                k <= names@.len(),
                j < observations@.len(),
                observations@.len() <= u32::MAX,
                p == ov.take(j as int),
                p.len() == j,
                nv == name_views(names@),
                distinct(nv),
                keys_unique(count_views(counts@)),
                keyed_map(count_views(counts@)) == partial_count(p, nv.take(k as int)),
            decreases names.len() - k,
        {
            let name = &names[k];
            let ghost n = nv[k as int];
            assert(n == name@);
            let ghost cv = count_views(counts@);
            let ghost done = nv.take(k as int);
            assert(!done.contains(n)) by {
                if done.contains(n) {
                    let q = choose|q: int| 0 <= q < done.len() && done[q] == n;
                    assert(nv[q] == nv[k as int]);
                }
            }
            proof {
                lemma_occurrences_bound(p, n);
                lemma_partial_push(p, done, n);
                assert(nv.take(k + 1) =~= done.push(n));
            }
            match find_count(&counts, name) {
                Some(i) => {
                    proof {
                        lemma_keyed_map_index(cv, i as int);
                    }
                    let c = counts[i].1;
                    assert(c as nat == occurrences(p, n));
                    let key = counts[i].0.clone();
                    counts.set(i, (key, c + 1));
                    proof {
                        assert(count_views(counts@) =~= cv.update(i as int, (n, (c + 1) as nat)));
                        lemma_keyed_map_update(cv, i as int, (c + 1) as nat);
                    }
                },
                None => {
                    proof {
                        assert(!keyed_map(cv).contains_key(n)) by {
                            if keyed_map(cv).contains_key(n) {
                                let q = choose|q: int| crate::keyed::has_key_at(cv, n, q);
                                assert(cv[q].0 == n);
                            }
                        }
                        assert(occurrences(p, n) == 0);
                        lemma_keyed_map_push(cv, n, 1nat);
                    }
                    counts.push((name.clone(), 1u32));
                    assert(count_views(counts@) =~= cv.push((n, 1nat)));
                },
            }
            k = k + 1;
        }
        proof {
            assert(nv.take(k as int) =~= nv);
            lemma_partial_end(p, nv, ov[j as int]);
            assert(ov.take(j + 1) =~= p.push(ov[j as int]));
        }
        j = j + 1;
    }
    assert(ov.take(j as int) =~= ov);
    ASCount { counts }
}

} // verus!
