//! Server descriptors: what a relay publishes about itself.

use vstd::prelude::*;
use crate::numbers::parse_unsigned;
use crate::text::{eq_str, lines, lines_at, split_all, split_all_at, split_once, split_once_at, str_to_chars, views};
use crate::tor_status::{
    spec_parse_bandwidth, spec_parse_family_member, Bandwidth, FamilyMember, FamilyMemberView,
    ParseError, Uptime,
};

verus! {

/// The abstract value of a `Descriptor`.
pub struct DescriptorView {
    pub uptime: u32,
    pub bandwidth: Bandwidth,
    pub family: Seq<FamilyMemberView>,
}

/// The uptime, bandwidth and family that a relay's descriptor states.
#[derive(Debug, PartialEq, Eq, Clone)]
pub struct Descriptor {
    pub uptime: Uptime,
    pub bandwidth: Bandwidth,
    pub family: Vec<FamilyMember>,
}

/// The abstract values of family members.
pub open spec fn member_views(v: Seq<FamilyMember>) -> Seq<FamilyMemberView> {
    v.map_values(|m: FamilyMember| m@)
}

impl View for Descriptor {
    type V = DescriptorView;

    open spec fn view(&self) -> DescriptorView {
        DescriptorView {
            uptime: self.uptime@,
            bandwidth: self.bandwidth,
            family: member_views(self.family@),
        }
    }
}

/// The members that the words of a `family` line name; the first word that
/// names none makes the line fail.
pub open spec fn family_of(tokens: Seq<Seq<char>>) -> Result<Seq<FamilyMemberView>, ParseError>
    decreases tokens.len(),
{
    if tokens.len() == 0 {
        Ok(seq![])
    } else {
        match family_of(tokens.drop_last()) {
            Err(e) => Err(e),
            Ok(ms) => match spec_parse_family_member(tokens.last()) {
                Err(e) => Err(e),
                Ok(m) => Ok(ms.push(m)),
            },
        }
    }
}

/// The fields of a descriptor read so far.
pub struct DescriptorFields {
    pub uptime: Option<u32>,
    pub bandwidth: Option<Bandwidth>,
    pub family: Option<Seq<FamilyMemberView>>,
}

/// The fields after reading one line: its first word is the keyword, the
/// rest its content; `uptime`, `bandwidth` and `family` lines set a field
/// (a later line replaces an earlier one), other lines change nothing.
pub open spec fn descriptor_step(line: Seq<char>, f: DescriptorFields) -> Result<
    DescriptorFields,
    ParseError,
> {
    let (start, content) = match split_once(line, ' ') {
        Some(x) => x,
        None => (seq![], line),
    };
    if start == "uptime"@ {
        match parse_unsigned(content, u32::MAX as nat) {
            None => Err(ParseError::InvalidNumber),
            Some(u) => Ok(DescriptorFields { uptime: Some(u as u32), ..f }),
        }
    } else if start == "bandwidth"@ {
        match spec_parse_bandwidth(content) {
            Err(e) => Err(e),
            Ok(b) => Ok(DescriptorFields { bandwidth: Some(b), ..f }),
        }
    } else if start == "family"@ {
        match family_of(split_all(content, ' ')) {
            Err(e) => Err(e),
            Ok(ms) => Ok(DescriptorFields { family: Some(ms), ..f }),
        }
    } else {
        Ok(f)
    }
}

/// The fields after reading the lines `ls` in order.
pub open spec fn descriptor_fold(ls: Seq<Seq<char>>) -> Result<DescriptorFields, ParseError>
    decreases ls.len(),
{
    if ls.len() == 0 {
        Ok(DescriptorFields { uptime: None, bandwidth: None, family: None })
    } else {
        match descriptor_fold(ls.drop_last()) {
            Err(e) => Err(e),
            Ok(f) => descriptor_step(ls.last(), f),
        }
    }
}

/// What reading a descriptor gives: its uptime and bandwidth are required;
/// a missing family is an empty one.
pub open spec fn spec_parse_descriptor(s: Seq<char>) -> Result<DescriptorView, ParseError> {
    match descriptor_fold(lines(s)) {
        Err(e) => Err(e),
        Ok(f) => match (f.uptime, f.bandwidth) {
            (Some(u), Some(b)) => Ok(
                DescriptorView {
                    uptime: u,
                    bandwidth: b,
                    family: match f.family {
                        Some(ms) => ms,
                        None => seq![],
                    },
                },
            ),
            _ => Err(ParseError::MissingField),
        },
    }
}

proof fn lemma_family_prefix(t: Seq<Seq<char>>, i: int)
    requires
        0 <= i <= t.len(),
        family_of(t.take(i)) is Err,
    ensures
        family_of(t) == family_of(t.take(i)),
    decreases t.len() - i,
{
    if i < t.len() {
        assert(t.take(i + 1).drop_last() =~= t.take(i));
        lemma_family_prefix(t, i + 1);
    } else {
        assert(t.take(i) =~= t);
    }
}

proof fn lemma_descriptor_prefix(t: Seq<Seq<char>>, i: int)
    requires
        0 <= i <= t.len(),
        descriptor_fold(t.take(i)) is Err,
    ensures
        descriptor_fold(t) == descriptor_fold(t.take(i)),
    decreases t.len() - i,
{
    if i < t.len() {
        assert(t.take(i + 1).drop_last() =~= t.take(i));
        lemma_descriptor_prefix(t, i + 1);
    } else {
        assert(t.take(i) =~= t);
    }
}

/// Reads the members of a `family` line.
fn parse_family(content: &[char]) -> (r: Result<Vec<FamilyMember>, ParseError>)
    ensures
        match r {
            Ok(ms) => family_of(split_all(content@, ' ')) == Ok::<Seq<FamilyMemberView>, ParseError>(
                member_views(ms@),
            ),
            Err(e) => family_of(split_all(content@, ' ')) == Err::<Seq<FamilyMemberView>, ParseError>(
                e,
            ),
        },
{
    let tokens = split_all_at(content, ' ');
    let ghost t = views(tokens@);
    let mut out: Vec<FamilyMember> = Vec::new();
    let mut i: usize = 0;
    assert(t.take(0) =~= Seq::<Seq<char>>::empty());
    assert(member_views(out@) =~= seq![]);
    while i < tokens.len()
        invariant
            i <= tokens@.len(),
            t == views(tokens@),
            t == split_all(content@, ' '),
            t.len() == tokens@.len(),
            family_of(t.take(i as int)) == Ok::<Seq<FamilyMemberView>, ParseError>(
                member_views(out@),
            ),
        decreases tokens.len() - i,
    {
        assert(t.take(i + 1).drop_last() =~= t.take(i as int));
        assert(t.take(i + 1).last() == tokens@[i as int]@);
        match FamilyMember::parse(tokens[i]) {
            Ok(m) => {
                let ghost before = member_views(out@);
                out.push(m);
                assert(member_views(out@) =~= before.push(m@));
            },
            Err(e) => {
                proof {
                    lemma_family_prefix(t, i + 1);
                }
                return Err(e);
            },
        }
        i = i + 1;
    }
    assert(t.take(i as int) =~= t);
    Ok(out)
}

/// The fields of a descriptor read so far.
struct Fields {
    uptime: Option<Uptime>,
    bandwidth: Option<Bandwidth>,
    family: Option<Vec<FamilyMember>>,
}

impl View for Fields {
    type V = DescriptorFields;

    closed spec fn view(&self) -> DescriptorFields {
        DescriptorFields {
            uptime: match self.uptime {
                Some(u) => Some(u@),
                None => None,
            },
            bandwidth: self.bandwidth,
            family: match self.family {
                Some(ms) => Some(member_views(ms@)),
                None => None,
            },
        }
    }
}

fn descriptor_step_exec(line: &[char], f: &mut Fields) -> (r: Result<(), ParseError>)
    ensures
        match r {
            Ok(()) => descriptor_step(line@, old(f)@) == Ok::<DescriptorFields, ParseError>(
                final(f)@,
            ),
            Err(e) => descriptor_step(line@, old(f)@) == Err::<DescriptorFields, ParseError>(e),
        },
{
    let empty: &[char] = &[];
    assert(empty@ =~= seq![]);
    let (start, content) = match split_once_at(line, ' ') {
        Some(x) => x,
        None => (empty, line),
    };
    if eq_str(start, "uptime") {
        match Uptime::parse(content) {
            Ok(u) => {
                f.uptime = Some(u);
            },
            Err(e) => return Err(e),
        }
    } else if eq_str(start, "bandwidth") {
        match Bandwidth::parse(content) {
            Ok(b) => {
                f.bandwidth = Some(b);
            },
            Err(e) => return Err(e),
        }
    } else if eq_str(start, "family") {
        match parse_family(content) {
            Ok(ms) => {
                f.family = Some(ms);
            },
            Err(e) => return Err(e),
        }
    }
    Ok(())
}

impl Descriptor {
    /// Reads a server descriptor.
    pub fn parse(s: &[char]) -> (r: Result<Self, ParseError>)
        ensures
            match r {
                Ok(d) => spec_parse_descriptor(s@) == Ok::<DescriptorView, ParseError>(d@),
                Err(e) => spec_parse_descriptor(s@) == Err::<DescriptorView, ParseError>(e),
            },
    {
        let ls = lines_at(s);
        let ghost t = views(ls@);
        let mut f = Fields { uptime: None, bandwidth: None, family: None };
        let mut i: usize = 0;
        assert(t.take(0) =~= Seq::<Seq<char>>::empty());
        while i < ls.len()
            invariant
                i <= ls@.len(),
                t == views(ls@),
                t == lines(s@),
                t.len() == ls@.len(),
                descriptor_fold(t.take(i as int)) == Ok::<DescriptorFields, ParseError>(f@),
            decreases ls.len() - i,
        {
            assert(t.take(i + 1).drop_last() =~= t.take(i as int));
            assert(t.take(i + 1).last() == ls@[i as int]@);
            match descriptor_step_exec(ls[i], &mut f) {
                Ok(()) => {},
                Err(e) => {
                    proof {
                        lemma_descriptor_prefix(t, i + 1);
                    }
                    return Err(e);
                },
            }
            i = i + 1;
        }
        assert(t.take(i as int) =~= t);
        let uptime = match f.uptime {
            Some(u) => u,
            None => return Err(ParseError::MissingField),
        };
        let bandwidth = match f.bandwidth {
            Some(b) => b,
            None => return Err(ParseError::MissingField),
        };
        let family = match f.family {
            Some(ms) => ms,
            None => {
                let v: Vec<FamilyMember> = Vec::new();
                assert(member_views(v@) =~= seq![]);
                v
            },
        };
        Ok(Descriptor { uptime, bandwidth, family })
    }

    /// Reads a server descriptor.
    pub fn parse_str(s: &str) -> (r: Result<Self, ParseError>)
        ensures
            match r {
                Ok(d) => spec_parse_descriptor(s@) == Ok::<DescriptorView, ParseError>(d@),
                Err(e) => spec_parse_descriptor(s@) == Err::<DescriptorView, ParseError>(e),
            },
    {
        let chars = str_to_chars(s);
        Self::parse(chars.as_slice())
    }
}


impl std::str::FromStr for Descriptor {
    type Err = ParseError;

    fn from_str(s: &str) -> (r: Result<Self, ParseError>)
        ensures
            match r {
                Ok(d) => spec_parse_descriptor(s@) == Ok::<DescriptorView, ParseError>(d@),
                Err(e) => spec_parse_descriptor(s@) == Err::<DescriptorView, ParseError>(e),
            },
    {
        let chars = str_to_chars(s);
        Self::parse(chars.as_slice())
    }
}

} // verus!
