use vstd::prelude::*;

use crate::led_sequence::{LedSequenceInfo, LedSequenceType, SequenceError};

verus! {

/// The `_`-separated tokens of `s`, `cur` being the token read so far.
pub open spec fn split_from(s: Seq<char>, cur: Seq<char>) -> Seq<Seq<char>>
    decreases s.len(),
{
    if s.len() == 0 {
        seq![cur]
    } else if s[0] == '_' {
        seq![cur] + split_from(s.drop_first(), Seq::empty())
    } else {
        split_from(s.drop_first(), cur.push(s[0]))
    }
}

/// The `_`-separated tokens of a sequence name.
pub open spec fn name_tokens(s: Seq<char>) -> Seq<Seq<char>> {
    split_from(s, Seq::empty())
}

pub open spec fn is_digit(c: char) -> bool {
    '0' <= c <= '9'
}

/// The number that a string of decimal digits writes.
pub open spec fn digits_value(d: Seq<char>) -> int
    decreases d.len(),
{
    if d.len() == 0 {
        0
    } else {
        digits_value(d.drop_last()) * 10 + (d.last() as int - '0' as int)
    }
}

/// Position of the first `.` of `t` at or after `i`, or its length.
pub open spec fn first_dot(t: Seq<char>, i: int) -> int
    decreases t.len() - i,
{
    if i >= t.len() {
        t.len() as int
    } else if t[i] == '.' {
        i
    } else {
        first_dot(t, i + 1)
    }
}

/// Milliseconds of the first three digits of a fraction of a second.
pub open spec fn fraction_ms(f: Seq<char>) -> int {
    if f.len() >= 3 {
        digits_value(f.subrange(0, 3))
    } else if f.len() == 2 {
        digits_value(f) * 10
    } else {
        digits_value(f) * 100
    }
}

/// Milliseconds of a duration written in seconds as `digits[.digits]` (at
/// least one digit; further decimals beyond the third are dropped); `None`
/// when the text has another form or the value exceeds `u64::MAX`.
pub open spec fn duration_ms(t: Seq<char>) -> Option<int> {
    let whole = whole_part(t);
    let frac = fraction_part(t);
    let value = digits_value(whole) * 1000 + fraction_ms(frac);
    if (forall|i: int| 0 <= i < whole.len() ==> is_digit(#[trigger] whole[i])) && (forall|i: int|
        0 <= i < frac.len() ==> is_digit(#[trigger] frac[i])) && whole.len() + frac.len() > 0
        && value <= u64::MAX {
        Some(value)
    } else {
        None
    }
}

/// The whole part of a duration token: the text before its first `.`.
pub open spec fn whole_part(t: Seq<char>) -> Seq<char> {
    t.subrange(0, first_dot(t, 0))
}

/// The fraction part of a duration token: the text after its first `.`.
pub open spec fn fraction_part(t: Seq<char>) -> Seq<char> {
    let dot = first_dot(t, 0);
    if dot < t.len() {
        t.subrange(dot + 1, t.len() as int)
    } else {
        Seq::empty()
    }
}

/// What a sequence name `{kind}_{name}_{duration?}_{repeat?}` describes:
/// kind, name, duration in milliseconds and whether it repeats. A colour
/// has exactly two tokens; a gradient has a duration in seconds as third
/// token and repeats when any token is `repeat`.
pub open spec fn parsed_name(stem: Seq<char>) -> Result<(LedSequenceType, Seq<char>, int, bool), SequenceError> {
    let t = name_tokens(stem);
    if t.len() < 2 || t.len() > 4 {
        Err(SequenceError::BadName)
    } else if t[0] == "color"@ {
        if t.len() != 2 {
            Err(SequenceError::BadName)
        } else {
            Ok((LedSequenceType::Color, t[1], 0, false))
        }
    } else if t[0] == "gradient"@ {
        if t.len() < 3 {
            Err(SequenceError::BadName)
        } else {
            match duration_ms(t[2]) {
                Some(d) => Ok((LedSequenceType::Gradient, t[1], d, t.contains("repeat"@))),
                None => Err(SequenceError::BadDuration),
            }
        }
    } else {
        Err(SequenceError::UnknownKind)
    }
}

/// `info` is what `parsed` describes.
pub open spec fn info_matches(info: LedSequenceInfo, parsed: (LedSequenceType, Seq<char>, int, bool)) -> bool {
    &&& info.sequence_type == parsed.0
    &&& info.name@ == parsed.1
    &&& info.duration == parsed.2
    &&& info.repeat == parsed.3
}

pub(crate) fn chars_of(s: &str) -> (v: Vec<char>)
    ensures
        v@ == s@,
{
    let n = s.unicode_len();
    let mut v: Vec<char> = Vec::new();
    let mut i: usize = 0;
    while i < n
        invariant
            n == s@.len(),
            i <= n,
            v@ =~= s@.subrange(0, i as int),
        decreases n - i,
    {
        v.push(s.get_char(i));
        i = i + 1;
    }
    v
}

/// The tokens of `s` as ranges of positions.
fn split_name(s: &Vec<char>) -> (ranges: Vec<(usize, usize)>)
    ensures
        ranges@.len() == name_tokens(s@).len(),
        forall|j: int|
            0 <= j < ranges@.len() ==> {
                let (lo, hi) = #[trigger] ranges@[j];
                &&& lo <= hi <= s@.len()
                &&& s@.subrange(lo as int, hi as int) == name_tokens(s@)[j]
            },
{
    let mut ranges: Vec<(usize, usize)> = Vec::new();
    let ghost done: Seq<Seq<char>> = Seq::empty();
    let mut start: usize = 0;
    let mut i: usize = 0;
    assert(s@.subrange(0, s@.len() as int) =~= s@);
    assert(s@.subrange(0, 0) =~= Seq::<char>::empty());
    assert(done + name_tokens(s@) =~= name_tokens(s@));
    while i < s.len()
        invariant
            start <= i <= s@.len(),
            ranges@.len() == done.len(),
            forall|j: int|
                0 <= j < ranges@.len() ==> {
                    let (lo, hi) = #[trigger] ranges@[j];
                    &&& lo <= hi <= s@.len()
                    &&& s@.subrange(lo as int, hi as int) == done[j]
                },
            done + split_from(s@.subrange(i as int, s@.len() as int), s@.subrange(start as int, i as int))
                == name_tokens(s@),
        decreases s@.len() - i,
    {
        let ghost rest = s@.subrange(i as int, s@.len() as int);
        let ghost cur = s@.subrange(start as int, i as int);
        assert(rest.drop_first() =~= s@.subrange(i + 1, s@.len() as int));
        if s[i] == '_' {
            ranges.push((start, i));
            proof {
                assert(s@.subrange(i + 1, i + 1) =~= Seq::<char>::empty());
                assert(done.push(cur) + split_from(rest.drop_first(), Seq::empty()) =~= done + (seq![cur]
                    + split_from(rest.drop_first(), Seq::empty())));
                done = done.push(cur);
            }
            start = i + 1;
        } else {
            proof {
                assert(cur.push(s@[i as int]) =~= s@.subrange(start as int, i + 1));
            }
        }
        i = i + 1;
    }
    ranges.push((start, i));
    proof {
        let cur = s@.subrange(start as int, i as int);
        assert(s@.subrange(i as int, s@.len() as int) =~= Seq::<char>::empty());
        assert(done.push(cur) =~= done + seq![cur]);
        done = done.push(cur);
    }
    ranges
}

/// Whether positions `lo .. hi` of `s` spell `word`.
pub(crate) fn token_is(s: &Vec<char>, lo: usize, hi: usize, word: &str) -> (r: bool)
    requires
        lo <= hi <= s@.len(),
    ensures
        r == (s@.subrange(lo as int, hi as int) == word@),
{
    let n = word.unicode_len();
    if hi - lo != n {
        proof {
            assert(s@.subrange(lo as int, hi as int).len() != word@.len());
        }
        return false;
    }
    let mut i: usize = 0;
    while i < n
        invariant
            lo <= hi <= s@.len(),
            hi - lo == n,
            n == word@.len(),
            i <= n,
            forall|j: int| 0 <= j < i ==> s@[lo + j] == word@[j],
        decreases n - i,
    {
        if s[lo + i] != word.get_char(i) {
            proof {
                assert(s@.subrange(lo as int, hi as int)[i as int] != word@[i as int]);
            }
            return false;
        }
        i = i + 1;
    }
    assert(s@.subrange(lo as int, hi as int) =~= word@);
    true
}

} // verus!

verus! {

proof fn lemma_digits_step(d: Seq<char>, k: int)
    requires
        0 <= k < d.len(),
    ensures
        digits_value(d.subrange(0, k + 1)) == digits_value(d.subrange(0, k)) * 10 + (d[k] as int
            - '0' as int),
{
    assert(d.subrange(0, k + 1).drop_last() =~= d.subrange(0, k));
}

proof fn lemma_fraction_nonneg(f: Seq<char>)
    requires
        forall|i: int| 0 <= i < f.len() ==> is_digit(#[trigger] f[i]),
    ensures
        fraction_ms(f) >= 0,
{
    lemma_digits_monotonic(f, 0, f.len() as int);
    assert(f.subrange(0, f.len() as int) =~= f);
    if f.len() >= 3 {
        let g = f.subrange(0, 3);
        lemma_digits_monotonic(g, 0, 3);
        assert(g.subrange(0, 3) =~= g);
    }
}

proof fn lemma_digits_monotonic(d: Seq<char>, j: int, k: int)
    requires
        0 <= j <= k <= d.len(),
        forall|i: int| 0 <= i < d.len() ==> is_digit(#[trigger] d[i]),
    ensures
        0 <= digits_value(d.subrange(0, j)) <= digits_value(d.subrange(0, k)),
    decreases k,
{
    if k > 0 {
        lemma_digits_step(d, k - 1);
        if j < k {
            lemma_digits_monotonic(d, j, k - 1);
        } else {
            lemma_digits_monotonic(d, j - 1, k - 1);
        }
    } else {
        assert(d.subrange(0, 0) =~= Seq::<char>::empty());
    }
}

proof fn lemma_first_dot_bound(t: Seq<char>, i: int)
    requires
        0 <= i <= t.len(),
    ensures
        i <= first_dot(t, i) <= t.len(),
    decreases t.len() - i,
{
    if i < t.len() && t[i] != '.' {
        lemma_first_dot_bound(t, i + 1);
    }
}

proof fn lemma_duration_parts(t: Seq<char>)
    ensures
        0 <= first_dot(t, 0) <= t.len(),
{
    lemma_first_dot_bound(t, 0);
}

/// A whole part whose digits already exceed `u64::MAX` gives no duration.
proof fn lemma_whole_overflow(t: Seq<char>, k: int)
    requires
        0 <= k <= whole_part(t).len(),
        0 <= first_dot(t, 0) <= t.len(),
        digits_value(whole_part(t).subrange(0, k)) > u64::MAX,
    ensures
        duration_ms(t) is None,
{
    lemma_duration_parts(t);
    let whole = whole_part(t);
    let frac = fraction_part(t);
    if forall|i: int| 0 <= i < whole.len() ==> is_digit(#[trigger] whole[i]) {
        lemma_digits_monotonic(whole, k, whole.len() as int);
        assert(whole.subrange(0, whole.len() as int) =~= whole);
        if forall|i: int| 0 <= i < frac.len() ==> is_digit(#[trigger] frac[i]) {
            lemma_fraction_nonneg(frac);
        }
    }
}

/// Reads the duration token at positions `lo .. hi` (see `duration_ms`).
pub(crate) fn parse_duration(s: &Vec<char>, lo: usize, hi: usize) -> (r: Option<u64>)
    requires
        lo <= hi <= s@.len(),
    ensures
        r is None <==> duration_ms(s@.subrange(lo as int, hi as int)) is None,
        r is Some ==> duration_ms(s@.subrange(lo as int, hi as int)) == Some(r->Some_0 as int),
{
    let ghost t = s@.subrange(lo as int, hi as int);
    proof {
        lemma_duration_parts(t);
    }
    let mut dot: usize = lo;
    while dot < hi && s[dot] != '.'
        invariant
            lo <= dot <= hi <= s@.len(),
            t == s@.subrange(lo as int, hi as int),
            first_dot(t, 0) == first_dot(t, dot - lo),
        decreases hi - dot,
    {
        dot = dot + 1;
    }
    let ghost whole = whole_part(t);
    let ghost frac = fraction_part(t);
    assert(first_dot(t, 0) == dot - lo);
    let mut v: u128 = 0;
    let mut k: usize = lo;
    while k < dot
        invariant
            lo <= k <= dot <= hi <= s@.len(),
            t == s@.subrange(lo as int, hi as int),
            first_dot(t, 0) == dot - lo,
            whole == t.subrange(0, dot - lo),
            forall|i: int| 0 <= i < k - lo ==> is_digit(#[trigger] whole[i]),
            v == digits_value(whole.subrange(0, k - lo)),
            v <= u64::MAX,
        decreases dot - k,
    {
        let c = s[k];
        assert(whole[k - lo] == c);
        if !('0' <= c && c <= '9') {
            assert(!is_digit(whole[k - lo]));
            return None;
        }
        proof {
            lemma_digits_step(whole, k - lo);
        }
        v = v * 10 + (c as u128 - '0' as u128);
        k = k + 1;
        if v > u64::MAX as u128 {
            proof {
                lemma_whole_overflow(t, k - lo);
            }
            return None;
        }
    }
    assert(whole.subrange(0, whole.len() as int) =~= whole);
    let mut f: u64 = 0;
    let mut nf: usize = 0;
    if dot < hi {
        let mut j: usize = dot + 1;
        while j < hi
            invariant
                lo <= dot < j <= hi <= s@.len(),
                t == s@.subrange(lo as int, hi as int),
                frac == t.subrange(dot - lo + 1, t.len() as int),
                frac == fraction_part(t),
                nf == j - dot - 1,
                forall|i: int| 0 <= i < nf ==> is_digit(#[trigger] frac[i]),
                f == digits_value(frac.subrange(0, if nf < 3 { nf as int } else { 3 })),
                f < 1000,
                nf == 0 ==> f == 0,
                nf <= 1 ==> f < 10,
                nf <= 2 ==> f < 100,
            decreases hi - j,
        {
            let c = s[j];
            assert(frac[nf as int] == c);
            if !('0' <= c && c <= '9') {
                assert(!is_digit(frac[nf as int]));
                return None;
            }
            if nf < 3 {
                proof {
                    lemma_digits_step(frac, nf as int);
                }
                f = f * 10 + (c as u64 - '0' as u64);
            }
            nf = nf + 1;
            j = j + 1;
        }
    }
    assert(nf == frac.len());
    let ms: u64 = if nf >= 3 {
        f
    } else if nf == 2 {
        f * 10
    } else {
        f * 100
    };
    proof {
        if nf < 3 {
            assert(frac.subrange(0, nf as int) =~= frac);
        }
        assert(ms == fraction_ms(frac));
    }
    if (dot - lo) + nf == 0 {
        return None;
    }
    if v > (u64::MAX as u128 - ms as u128) / 1000 {
        return None;
    }
    Some((v * 1000 + ms as u128) as u64)
}

/// Reads a sequence name `{kind}_{name}_{duration?}_{repeat?}` as
/// `parsed_name` states it.
pub fn parse_sequence_name(stem: &str) -> (r: Result<LedSequenceInfo, SequenceError>)
    ensures
        match parsed_name(stem@) {
            Ok(p) => r is Ok && info_matches(r->Ok_0, p),
            Err(e) => r == Err::<LedSequenceInfo, SequenceError>(e),
        },
{
    let s = chars_of(stem);
    let ranges = split_name(&s);
    let ghost t = name_tokens(s@);
    if ranges.len() < 2 || ranges.len() > 4 {
        return Err(SequenceError::BadName);
    }
    let (k0, k1) = ranges[0];
    let (n0, n1) = ranges[1];
    let name = stem.substring_char(n0, n1).to_string();
    if token_is(&s, k0, k1, "color") {
        if ranges.len() != 2 {
            return Err(SequenceError::BadName);
        }
        return Ok(
            LedSequenceInfo {
                sequence_type: LedSequenceType::Color,
                name,
                duration: 0,
                repeat: false,
            },
        );
    }
    if !token_is(&s, k0, k1, "gradient") {
        return Err(SequenceError::UnknownKind);
    }
    if ranges.len() < 3 {
        return Err(SequenceError::BadName);
    }
    let (d0, d1) = ranges[2];
    let duration = match parse_duration(&s, d0, d1) {
        Some(d) => d,
        None => {
            return Err(SequenceError::BadDuration);
        },
    };
    let mut repeat = false;
    let mut j: usize = 0;
    while j < ranges.len()
        invariant
            t == name_tokens(s@),
            ranges@.len() == t.len(),
            forall|i: int|
                0 <= i < ranges@.len() ==> {
                    let (lo, hi) = #[trigger] ranges@[i];
                    &&& lo <= hi <= s@.len()
                    &&& s@.subrange(lo as int, hi as int) == t[i]
                },
            j <= ranges@.len(),
            repeat == (exists|i: int| 0 <= i < j && t[i] == "repeat"@),
        decreases ranges@.len() - j,
    {
        let (lo, hi) = ranges[j];
        if token_is(&s, lo, hi, "repeat") {
            repeat = true;
        }
        j = j + 1;
    }
    proof {
        if repeat {
            let i = choose|i: int| 0 <= i < ranges@.len() && t[i] == "repeat"@;
            assert(t[i] == "repeat"@);
        }
        if t.contains("repeat"@) {
            let i = choose|i: int| 0 <= i < t.len() && t[i] == "repeat"@;
            assert(t[i] == "repeat"@);
        }
    }
    proof {
        assert(t[0] != "color"@);
        assert(t[0] == "gradient"@);
        assert(duration_ms(t[2]) == Some(duration as int));
        assert(name@ == t[1]);
        assert(repeat == t.contains("repeat"@));
    }
    Ok(LedSequenceInfo { sequence_type: LedSequenceType::Gradient, name, duration, repeat })
}

} // verus!
