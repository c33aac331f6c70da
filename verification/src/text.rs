//! Character-level text utilities: the splitting primitives that the
//! document parsers are written with, stated over `Seq<char>`.

use vstd::prelude::*;
use vstd::std_specs::iter::IteratorSpec;

verus! {

broadcast use vstd::string::group_string_axioms;

/// `i` is the position of the first occurrence of `c` in `s`.
pub open spec fn is_first_index(s: Seq<char>, c: char, i: int) -> bool {
    &&& 0 <= i < s.len()
    &&& s[i] == c
    &&& forall|j: int| 0 <= j < i ==> s[j] != c
}

/// Position of the first occurrence of `c` in `s`, if any.
pub open spec fn first_index(s: Seq<char>, c: char) -> Option<int> {
    if exists|i: int| is_first_index(s, c, i) {
        Some(choose|i: int| is_first_index(s, c, i))
    } else {
        None
    }
}

/// `str::split_once` with a one-character pattern: the text before and
/// after the first occurrence of `c`.
pub open spec fn split_once(s: Seq<char>, c: char) -> Option<(Seq<char>, Seq<char>)> {
    match first_index(s, c) {
        Some(i) => Some((s.take(i), s.skip(i + 1))),
        None => None,
    }
}

/// `str::split` with a one-character pattern: every piece between
/// occurrences of `c`, empty pieces included.
pub open spec fn split_all(s: Seq<char>, c: char) -> Seq<Seq<char>>
    decreases s.len(),
{
    match split_once(s, c) {
        Some((a, b)) => {
            if b.len() < s.len() {
                seq![a] + split_all(b, c)
            } else {
                seq![s]
            }
        },
        None => seq![s],
    }
}

/// `str::splitn` with a one-character pattern: at most `n` pieces, the last
/// one holding the rest of the text.
pub open spec fn split_n(s: Seq<char>, c: char, n: nat) -> Seq<Seq<char>>
    decreases n,
{
    if n == 0 {
        seq![]
    } else if n == 1 {
        seq![s]
    } else {
        match split_once(s, c) {
            Some((a, b)) => seq![a] + split_n(b, c, (n - 1) as nat),
            None => seq![s],
        }
    }
}

/// `line` without one trailing carriage return.
pub open spec fn strip_cr(line: Seq<char>) -> Seq<char> {
    if line.len() > 0 && line.last() == '\r' {
        line.drop_last()
    } else {
        line
    }
}

/// `str::lines`: pieces ended by `'\n'` (one `'\r'` before it is dropped);
/// a final newline opens no further line.
pub open spec fn lines(s: Seq<char>) -> Seq<Seq<char>>
    decreases s.len(),
{
    if s.len() == 0 {
        seq![]
    } else {
        match split_once(s, '\n') {
            Some((a, b)) => {
                if b.len() < s.len() {
                    seq![strip_cr(a)] + lines(b)
                } else {
                    seq![]
                }
            },
            None => seq![s],
        }
    }
}

/// The characters of `s`, in order.
pub fn str_to_chars(s: &str) -> (r: Vec<char>)
    ensures
        r@ == s@,
{
    let mut out: Vec<char> = Vec::new();
    let chars = s.chars();
    for c in iter: chars
        invariant
            iter.seq() == s@,
            out@ == iter.seq().take(iter.index() as int),
    {
        out.push(c);
    }
    assert(out@ =~= s@);
    out
}

/// `String::push`.
#[verifier::external_body]
fn push_char(s: &mut String, c: char)
    ensures
        final(s)@ == old(s)@.push(c),
{
    s.push(c);
}

/// A `String` holding the characters of `cs`.
pub fn chars_to_string(cs: &[char]) -> (r: String)
    ensures
        r@ == cs@,
{
    let mut r = String::new();
    let mut i: usize = 0;
    while i < cs.len()
        invariant
            i <= cs.len(),
            r@ == cs@.take(i as int),
        decreases cs.len() - i,
    {
        push_char(&mut r, cs[i]);
        i = i + 1;
        assert(r@ =~= cs@.take(i as int));
    }
    assert(cs@.take(i as int) =~= cs@);
    r
}

/// Whether two character slices hold the same text.
pub fn chars_eq(a: &[char], b: &[char]) -> (r: bool)
    ensures
        r == (a@ == b@),
{
    if a.len() != b.len() {
        return false;
    }
    let mut i: usize = 0;
    while i < a.len()
        invariant
            i <= a.len(),
            a.len() == b.len(),
            forall|j: int| 0 <= j < i ==> a@[j] == b@[j],
        decreases a.len() - i,
    {
        if a[i] != b[i] {
            return false;
        }
        i = i + 1;
    }
    assert(a@ =~= b@);
    true
}

/// Whether `s` holds the text `w`.
pub fn eq_str(s: &[char], w: &str) -> (r: bool)
    ensures
        r == (s@ == w@),
{
    let wc = str_to_chars(w);
    chars_eq(s, wc.as_slice())
}

/// Whether `s` is the one-character text `c`.
pub fn is_single(s: &[char], c: char) -> (r: bool)
    ensures
        r == (s@ == seq![c]),
{
    if s.len() == 1 && s[0] == c {
        assert(s@ =~= seq![c]);
        true
    } else {
        assert(s@.len() != 1 ==> s@ != seq![c]);
        false
    }
}

/// Position of the first `c` in `s`.
pub fn find_char(s: &[char], c: char) -> (r: Option<usize>)
    ensures
        match r {
            Some(i) => first_index(s@, c) == Some(i as int),
            None => first_index(s@, c) is None,
        },
{
    let mut i: usize = 0;
    while i < s.len()
        invariant
            i <= s.len(),
            forall|j: int| 0 <= j < i ==> s@[j] != c,
        decreases s.len() - i,
    {
        if s[i] == c {
            assert(is_first_index(s@, c, i as int));
            proof {
                let k = choose|k: int| is_first_index(s@, c, k);
                assert(k == i);
            }
            return Some(i);
        }
        i = i + 1;
    }
    None
}

/// `str::split_once` on a character slice.
pub fn split_once_at(s: &[char], c: char) -> (r: Option<(&[char], &[char])>)
    ensures
        match r {
            Some((a, b)) => split_once(s@, c) == Some((a@, b@)),
            None => split_once(s@, c) is None,
        },
{
    match find_char(s, c) {
        Some(i) => {
            let (a, rest) = s.split_at(i);
            let (_, b) = rest.split_at(1);
            assert(a@ =~= s@.take(i as int));
            assert(b@ =~= s@.skip(i + 1));
            Some((a, b))
        },
        None => None,
    }
}

/// Facts about a successful split: the pieces and the separator make up
/// the text, and the first piece holds no separator.
pub proof fn lemma_split_once(s: Seq<char>, c: char)
    ensures
        split_once(s, c) matches Some((a, b)) ==> {
            &&& s == a + seq![c] + b
            &&& !a.contains(c)
            &&& b.len() < s.len()
            &&& a.len() < s.len()
        },
        split_once(s, c) is None ==> !s.contains(c),
{
    if let Some((a, b)) = split_once(s, c) {
        let i = choose|i: int| is_first_index(s, c, i);
        assert(s =~= a + seq![c] + b);
        assert(!a.contains(c)) by {
            if a.contains(c) {
                let j = choose|j: int| 0 <= j < a.len() && a[j] == c;
                assert(s[j] == c);
            }
        }
    } else {
        if s.contains(c) {
            let j = choose|j: int| 0 <= j < s.len() && s[j] == c;
            lemma_first_exists(s, c, j);
        }
    }
}

/// Splitting `a`, the separator and `b`, where `a` holds no separator,
/// gives `a` and `b`; a text without the separator does not split.
pub proof fn lemma_split_once_first(a: Seq<char>, c: char, b: Seq<char>)
    ensures
        !a.contains(c) ==> split_once(a + seq![c] + b, c) == Some((a, b)),
        !a.contains(c) ==> split_once(a, c) is None,
{
    if !a.contains(c) {
        let s = a + seq![c] + b;
        assert(is_first_index(s, c, a.len() as int)) by {
            assert forall|j: int| 0 <= j < a.len() implies s[j] != c by {
                assert(s[j] == a[j]);
                if a[j] == c {
                    assert(a.contains(c));
                }
            }
        }
        let k = choose|k: int| is_first_index(s, c, k);
        assert(k == a.len()) by {
            if k < a.len() {
                assert(s[k] == a[k]);
                assert(a.contains(c));
            }
        }
        assert(s.take(a.len() as int) =~= a);
        assert(s.skip(a.len() as int + 1) =~= b);
        assert(!exists|i: int| is_first_index(a, c, i)) by {
            if exists|i: int| is_first_index(a, c, i) {
                let i = choose|i: int| is_first_index(a, c, i);
                assert(a.contains(c));
            }
        }
    }
}

/// Splitting `a`, the separator and `b` gives the pieces of `a` followed by
/// those of `b`.
pub proof fn lemma_split_all_concat(a: Seq<char>, c: char, b: Seq<char>)
    ensures
        split_all(a + seq![c] + b, c) == split_all(a, c) + split_all(b, c),
    decreases a.len(),
{
    let s = a + seq![c] + b;
    lemma_split_once(a, c);
    lemma_split_once(s, c);
    match split_once(a, c) {
        Some((x, y)) => {
            let (x2, y2) = split_once(s, c).unwrap();
            let i = choose|i: int| is_first_index(a, c, i);
            assert(is_first_index(s, c, i));
            let k = choose|k: int| is_first_index(s, c, k);
            assert(k == i) by {
                if k < i {
                    assert(s[k] == a[k]);
                } else if k > i {
                    assert(s[i] == c);
                }
            }
            assert(x2 =~= x);
            assert(y2 =~= y + seq![c] + b);
            lemma_split_all_concat(y, c, b);
            assert(seq![x] + (split_all(y, c) + split_all(b, c)) =~= seq![x] + split_all(y, c)
                + split_all(b, c));
        },
        None => {
            assert(is_first_index(s, c, a.len() as int)) by {
                assert forall|j: int| 0 <= j < a.len() implies s[j] != c by {
                    assert(s[j] == a[j]);
                    if a[j] == c {
                        assert(a.contains(c));
                    }
                }
            }
            let k = choose|k: int| is_first_index(s, c, k);
            assert(k == a.len()) by {
                if k < a.len() {
                    assert(s[k] == a[k]);
                    assert(a.contains(c));
                }
            }
            assert(s.take(a.len() as int) =~= a);
            assert(s.skip(a.len() as int + 1) =~= b);
        },
    }
}

/// Splitting always gives at least one piece.
pub proof fn lemma_split_all_nonempty(s: Seq<char>, c: char)
    ensures
        split_all(s, c).len() >= 1,
{
}

/// An occurrence of `c` implies a first occurrence of `c`.
pub proof fn lemma_first_exists(s: Seq<char>, c: char, j: int)
    requires
        0 <= j < s.len(),
        s[j] == c,
    ensures
        exists|i: int| is_first_index(s, c, i),
    decreases j,
{
    if forall|k: int| 0 <= k < j ==> s[k] != c {
        assert(is_first_index(s, c, j));
    } else {
        let k = choose|k: int| 0 <= k < j && s[k] == c;
        lemma_first_exists(s, c, k);
    }
}


/// The texts of a sequence of character slices.
pub open spec fn views(v: Seq<&[char]>) -> Seq<Seq<char>> {
    v.map_values(|p: &[char]| p@)
}

proof fn lemma_views_push(v: Seq<&[char]>, p: &[char])
    ensures
        views(v.push(p)) == views(v) + seq![p@],
{
    assert(views(v.push(p)) =~= views(v) + seq![p@]);
}

/// `str::split` on a character slice: every piece between occurrences of `c`.
pub fn split_all_at(s: &[char], c: char) -> (r: Vec<&[char]>)
    ensures
        views(r@) == split_all(s@, c),
{
    let mut out: Vec<&[char]> = Vec::new();
    let mut rest: &[char] = s;
    loop
        invariant
            views(out@) + split_all(rest@, c) == split_all(s@, c),
        decreases rest@.len(),
    {
        proof {
            lemma_split_once(rest@, c);
        }
        match split_once_at(rest, c) {
            Some((a, b)) => {
                proof {
                    lemma_views_push(out@, a);
                    assert(split_all(rest@, c) == seq![a@] + split_all(b@, c));
                    assert(views(out@) + seq![a@] + split_all(b@, c) =~= views(out@) + (seq![a@]
                        + split_all(b@, c)));
                }
                out.push(a);
                rest = b;
            },
            None => {
                proof {
                    lemma_views_push(out@, rest);
                    assert(split_all(rest@, c) == seq![rest@]);
                }
                out.push(rest);
                return out;
            },
        }
    }
}

/// `str::splitn` on a character slice: at most `n` pieces.
pub fn split_n_at(s: &[char], c: char, n: usize) -> (r: Vec<&[char]>)
    ensures
        views(r@) == split_n(s@, c, n as nat),
{
    let mut out: Vec<&[char]> = Vec::new();
    let mut rest: &[char] = s;
    let mut k: usize = n;
    loop
        invariant
            views(out@) + split_n(rest@, c, k as nat) == split_n(s@, c, n as nat),
        decreases k,
    {
        if k == 0 {
            assert(split_n(rest@, c, 0) =~= Seq::<Seq<char>>::empty());
            assert(views(out@) + split_n(rest@, c, 0) =~= views(out@));
            return out;
        }
        if k == 1 {
            proof {
                lemma_views_push(out@, rest);
            }
            out.push(rest);
            return out;
        }
        match split_once_at(rest, c) {
            Some((a, b)) => {
                proof {
                    lemma_views_push(out@, a);
                    assert(split_n(rest@, c, k as nat) == seq![a@] + split_n(b@, c, (k - 1) as nat));
                    assert(views(out@) + seq![a@] + split_n(b@, c, (k - 1) as nat) =~= views(out@)
                        + (seq![a@] + split_n(b@, c, (k - 1) as nat)));
                }
                out.push(a);
                rest = b;
                k = k - 1;
            },
            None => {
                proof {
                    lemma_views_push(out@, rest);
                }
                out.push(rest);
                return out;
            },
        }
    }
}

/// `line` without a trailing carriage return.
fn strip_cr_at(line: &[char]) -> (r: &[char])
    ensures
        r@ == strip_cr(line@),
{
    if line.len() > 0 && line[line.len() - 1] == '\r' {
        let (a, _) = line.split_at(line.len() - 1);
        assert(a@ =~= line@.drop_last());
        a
    } else {
        line
    }
}

/// `str::lines` on a character slice.
pub fn lines_at(s: &[char]) -> (r: Vec<&[char]>)
    ensures
        views(r@) == lines(s@),
{
    let mut out: Vec<&[char]> = Vec::new();
    let mut rest: &[char] = s;
    loop
        invariant
            views(out@) + lines(rest@) == lines(s@),
        decreases rest@.len(),
    {
        if rest.len() == 0 {
            assert(views(out@) + lines(rest@) =~= views(out@));
            return out;
        }
        proof {
            lemma_split_once(rest@, '\n');
        }
        match split_once_at(rest, '\n') {
            Some((a, b)) => {
                let line = strip_cr_at(a);
                proof {
                    lemma_views_push(out@, line);
                    assert(lines(rest@) == seq![line@] + lines(b@));
                    assert(views(out@) + seq![line@] + lines(b@) =~= views(out@) + (seq![line@]
                        + lines(b@)));
                }
                out.push(line);
                rest = b;
            },
            None => {
                proof {
                    lemma_views_push(out@, rest);
                    assert(lines(rest@) == seq![rest@]);
                }
                out.push(rest);
                return out;
            },
        }
    }
}

} // verus!
