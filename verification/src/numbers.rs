//! Decimal numbers: reading them the way `str::parse` reads an unsigned
//! integer, and writing them zero-padded.

use vstd::prelude::*;

verus! {

/// An ASCII decimal digit.
pub open spec fn is_digit(c: char) -> bool {
    '0' <= c && c <= '9'
}

/// The value of a decimal digit.
pub open spec fn digit_value(c: char) -> int {
    c as int - '0' as int
}

/// Whether every character of `d` is a decimal digit.
pub open spec fn all_digits(d: Seq<char>) -> bool {
    forall|i: int| 0 <= i < d.len() ==> is_digit(#[trigger] d[i])
}

/// The number that the decimal digits `d` denote (most significant first).
pub open spec fn digits_value(d: Seq<char>) -> nat
    decreases d.len(),
{
    if d.len() == 0 {
        0
    } else {
        (digits_value(d.drop_last()) * 10 + digit_value(d.last())) as nat
    }
}

/// The digits of an unsigned number as `str::parse` reads them: one leading
/// `'+'` is skipped when digits follow it.
pub open spec fn unsigned_digits(s: Seq<char>) -> Seq<char> {
    if s.len() > 1 && s[0] == '+' {
        s.drop_first()
    } else {
        s
    }
}

/// What `str::parse` gives for an unsigned integer type whose largest
/// value is `max`: the value when `s` is an optional `'+'` followed by one or
/// more decimal digits whose value is at most `max`.
pub open spec fn parse_unsigned(s: Seq<char>, max: nat) -> Option<nat> {
    let d = unsigned_digits(s);
    if s.len() > 0 && all_digits(d) && digits_value(d) <= max {
        Some(digits_value(d))
    } else {
        None
    }
}

/// Appending digits never makes a number smaller.
pub proof fn lemma_digits_value_prefix(d: Seq<char>, i: int, j: int)
    requires
        0 <= i <= j <= d.len(),
        all_digits(d),
    ensures
        digits_value(d.take(i)) <= digits_value(d.take(j)),
    decreases j - i,
{
    if i < j {
        lemma_digits_value_prefix(d, i, j - 1);
        assert(d.take(j).drop_last() =~= d.take(j - 1));
        assert(is_digit(d[j - 1]));
    }
}

/// Reads an unsigned decimal number no larger than `max`.
pub fn parse_bounded(s: &[char], max: u64) -> (r: Option<u64>)
    requires
        max >= 9,
    ensures
        match r {
            Some(v) => parse_unsigned(s@, max as nat) == Some(v as nat),
            None => parse_unsigned(s@, max as nat) is None,
        },
{
    if s.len() == 0 {
        return None;
    }
    let start: usize = if s.len() > 1 && s[0] == '+' { 1 } else { 0 };
    let ghost d = unsigned_digits(s@);
    assert(d =~= s@.skip(start as int));
    let mut v: u64 = 0;
    let mut i: usize = start;
    while i < s.len()
        invariant
            start <= i <= s.len(),
            s.len() > 0,
            d == s@.skip(start as int),
            d == unsigned_digits(s@),
            max >= 9,
            all_digits(d.take(i - start)),
            v as nat == digits_value(d.take(i - start)),
            v <= max,
        decreases s.len() - i,
    {
        let c = s[i];
        if !('0' <= c && c <= '9') {
            assert(d[i - start] == c);
            assert(!is_digit(d[i - start]));
            return None;
        }
        let dig: u64 = (c as u32 - '0' as u32) as u64;
        assert(d.take(i + 1 - start).drop_last() =~= d.take(i - start));
        assert(d.take(i + 1 - start).last() == c);
        if v > (max - dig) / 10 {
            proof {
                assert(v * 10 + dig > max) by (nonlinear_arith)
                    requires
                        v > (max - dig) / 10,
                        dig <= 9,
                        max >= 9,
                ;
                assert(!all_digits(d) || digits_value(d) > max) by {
                    if all_digits(d) {
                        lemma_digits_value_prefix(d, i + 1 - start, d.len() as int);
                        assert(d.take(d.len() as int) =~= d);
                    }
                }
            }
            return None;
        }
        proof {
            assert(v * 10 + dig <= max) by (nonlinear_arith)
                requires
                    v <= (max - dig) / 10,
                    dig <= 9,
                    max >= 9,
            ;
        }
        v = v * 10 + dig;
        i = i + 1;
        assert(all_digits(d.take(i - start))) by {
            assert forall|k: int| 0 <= k < i - start implies is_digit(#[trigger] d.take(i - start)[k]) by {
                if k < i - 1 - start {
                    assert(d.take(i - start)[k] == d.take(i - 1 - start)[k]);
                }
            }
        }
    }
    assert(d.take(i - start) =~= d);
    Some(v)
}

/// Reads a `u8` as `str::parse` does.
pub fn parse_u8(s: &[char]) -> (r: Option<u8>)
    ensures
        match r {
            Some(v) => parse_unsigned(s@, u8::MAX as nat) == Some(v as nat),
            None => parse_unsigned(s@, u8::MAX as nat) is None,
        },
{
    match parse_bounded(s, 255) {
        Some(v) => Some(v as u8),
        None => None,
    }
}

/// Reads a `u16` as `str::parse` does.
pub fn parse_u16(s: &[char]) -> (r: Option<u16>)
    ensures
        match r {
            Some(v) => parse_unsigned(s@, u16::MAX as nat) == Some(v as nat),
            None => parse_unsigned(s@, u16::MAX as nat) is None,
        },
{
    match parse_bounded(s, 65535) {
        Some(v) => Some(v as u16),
        None => None,
    }
}

/// Reads a `u32` as `str::parse` does.
pub fn parse_u32(s: &[char]) -> (r: Option<u32>)
    ensures
        match r {
            Some(v) => parse_unsigned(s@, u32::MAX as nat) == Some(v as nat),
            None => parse_unsigned(s@, u32::MAX as nat) is None,
        },
{
    match parse_bounded(s, 4294967295) {
        Some(v) => Some(v as u32),
        None => None,
    }
}

/// Reads a `usize` as `str::parse` does.
pub fn parse_usize(s: &[char]) -> (r: Option<usize>)
    ensures
        match r {
            Some(v) => parse_unsigned(s@, usize::MAX as nat) == Some(v as nat),
            None => parse_unsigned(s@, usize::MAX as nat) is None,
        },
{
    match parse_bounded(s, usize::MAX as u64) {
        Some(v) => Some(v as usize),
        None => None,
    }
}


/// The decimal digit character for `v < 10`.
pub open spec fn digit_char(v: nat) -> char {
    ('0' as int + v) as char
}

/// The decimal digits of `v`, most significant first, without leading zeros.
pub open spec fn decimal(v: nat) -> Seq<char>
    decreases v,
{
    if v < 10 {
        seq![digit_char(v)]
    } else {
        decimal(v / 10).push(digit_char(v % 10))
    }
}

/// The decimal digits of `v`, with zeros in front up to `width` characters.
pub open spec fn zero_padded_decimal(v: nat, width: nat) -> Seq<char> {
    let d = decimal(v);
    if d.len() < width {
        Seq::new((width - d.len()) as nat, |i: int| '0') + d
    } else {
        d
    }
}

/// What `format!("{:0w$}", n)` writes for an integer `n` and a width
/// `w >= 1`: the sign, if any, counts towards the width and stands before
/// the zeros.
pub open spec fn format_zero_padded(n: int, width: nat) -> Seq<char> {
    if n < 0 {
        seq!['-'] + zero_padded_decimal((-n) as nat, (width - 1) as nat)
    } else {
        zero_padded_decimal(n as nat, width)
    }
}

/// The digits of `v` read back as `v`; they are at least one, and the
/// first is a zero only for the number zero.
pub proof fn lemma_decimal(v: nat)
    ensures
        all_digits(decimal(v)),
        digits_value(decimal(v)) == v,
        decimal(v).len() >= 1,
        v >= 10 ==> decimal(v)[0] != '0',
        v < 10 ==> decimal(v).len() == 1,
        v < 100 ==> decimal(v).len() <= 2,
        v < 1000 ==> decimal(v).len() <= 3,
    decreases v,
{
    assert(digit_value(digit_char(v % 10)) == v % 10);
    if v < 10 {
        let d = decimal(v);
        assert(d.drop_last() =~= Seq::<char>::empty());
        assert(v % 10 == v);
        assert(d.last() == digit_char(v));
        assert(digits_value(d) == digits_value(d.drop_last()) * 10 + digit_value(d.last()));
    }
    if v >= 10 {
        lemma_decimal(v / 10);
        let d = decimal(v);
        assert(d.last() == digit_char(v % 10));
        assert(d.drop_last() =~= decimal(v / 10));
        assert(v == (v / 10) * 10 + v % 10) by (nonlinear_arith);
        assert(digits_value(d) == digits_value(d.drop_last()) * 10 + digit_value(d.last()));
        assert(digits_value(d) == (v / 10) * 10 + v % 10);
        assert forall|i: int| 0 <= i < d.len() implies is_digit(#[trigger] d[i]) by {
            if i < d.len() - 1 {
                assert(d[i] == decimal(v / 10)[i]);
            }
        }
        assert(d[0] == decimal(v / 10)[0]);
        if v / 10 < 10 {
            assert(decimal(v / 10)[0] == digit_char(v / 10));
        }
    }
}

/// The decimal digits of `v`.
pub fn decimal_chars(v: u64) -> (r: Vec<char>)
    ensures
        r@ == decimal(v as nat),
    decreases v,
{
    let c = ((v % 10) as u8 + 48u8) as char;
    assert(c == digit_char((v % 10) as nat));
    if v < 10 {
        let mut r: Vec<char> = Vec::new();
        r.push(c);
        assert(r@ =~= seq![digit_char(v as nat)]);
        r
    } else {
        let mut r = decimal_chars(v / 10);
        r.push(c);
        r
    }
}

/// Appends the characters `cs` to `out`.
pub fn append_chars(out: &mut Vec<char>, cs: &[char])
    ensures
        final(out)@ == old(out)@ + cs@,
{
    let mut i: usize = 0;
    while i < cs.len()
        invariant
            i <= cs.len(),
            out@ == old(out)@ + cs@.take(i as int),
        decreases cs.len() - i,
    {
        out.push(cs[i]);
        i = i + 1;
        assert(out@ =~= old(out)@ + cs@.take(i as int));
    }
    assert(cs@.take(i as int) =~= cs@);
}

/// Appends `n` written as `format!("{:0w$}", n)` does, for `w >= 1`.
pub fn append_zero_padded(out: &mut Vec<char>, n: i64, width: usize)
    requires
        width >= 1,
    ensures
        final(out)@ == old(out)@ + format_zero_padded(n as int, width as nat),
{
    let (magnitude, digit_width): (u64, usize) = if n < 0 {
        out.push('-');
        ((-(n as i128)) as u64, width - 1)
    } else {
        (n as u64, width)
    };
    let ghost mid = out@;
    let d = decimal_chars(magnitude);
    let pad: usize = if d.len() < digit_width { digit_width - d.len() } else { 0 };
    let mut j: usize = 0;
    while j < pad
        invariant
            j <= pad,
            out@ == mid + Seq::new(j as nat, |i: int| '0'),
        decreases pad - j,
    {
        out.push('0');
        j = j + 1;
        assert(out@ =~= mid + Seq::new(j as nat, |i: int| '0'));
    }
    append_chars(out, d.as_slice());
    proof {
        if d.len() >= digit_width {
            assert(Seq::new(j as nat, |i: int| '0') =~= Seq::<char>::empty());
        }
        if n < 0 {
            assert(out@ =~= old(out)@ + format_zero_padded(n as int, width as nat));
        } else {
            assert(out@ =~= old(out)@ + format_zero_padded(n as int, width as nat));
        }
    }
}

} // verus!
