use vstd::prelude::*;

verus! {

/// Appends one character to a `String`.
///
/// Relies on `String::push` of std: it appends the given `char` to the end
/// of the string.
pub assume_specification[ String::push ](s: &mut String, c: char)
    ensures
        final(s)@ == old(s)@.push(c),
;

pub open spec fn is_dec_digit(c: char) -> bool {
    '0' as int <= c as int <= '9' as int
}

pub open spec fn dec_digit_char(d: nat) -> char {
    if d == 0 {
        '0'
    } else if d == 1 {
        '1'
    } else if d == 2 {
        '2'
    } else if d == 3 {
        '3'
    } else if d == 4 {
        '4'
    } else if d == 5 {
        '5'
    } else if d == 6 {
        '6'
    } else if d == 7 {
        '7'
    } else if d == 8 {
        '8'
    } else {
        '9'
    }
}

pub open spec fn dec_digit_val(c: char) -> nat {
    (c as int - '0' as int) as nat
}

/// The decimal rendering of a natural number, without sign or leading zeros
/// (`0` renders as `"0"`).
pub open spec fn dec_chars(n: nat) -> Seq<char>
    decreases n,
{
    if n < 10 {
        seq![dec_digit_char(n)]
    } else {
        dec_chars(n / 10).push(dec_digit_char(n % 10))
    }
}

/// The decimal rendering of a (possibly negative) integer.
pub open spec fn int_dec_chars(v: int) -> Seq<char> {
    if v < 0 {
        seq!['-'] + dec_chars((-v) as nat)
    } else {
        dec_chars(v as nat)
    }
}

fn dec_digit(d: u64) -> (c: char)
    requires
        d < 10,
    ensures
        c == dec_digit_char(d as nat),
{
    if d == 0 {
        '0'
    } else if d == 1 {
        '1'
    } else if d == 2 {
        '2'
    } else if d == 3 {
        '3'
    } else if d == 4 {
        '4'
    } else if d == 5 {
        '5'
    } else if d == 6 {
        '6'
    } else if d == 7 {
        '7'
    } else if d == 8 {
        '8'
    } else {
        '9'
    }
}

/// Appends the decimal rendering of `n` to `s`.
pub fn push_dec_u64(s: &mut String, n: u64)
    ensures
        final(s)@ == old(s)@ + dec_chars(n as nat),
    decreases n,
{
    if n >= 10 {
        push_dec_u64(s, n / 10);
    }
    s.push(dec_digit(n % 10));
    proof {
        assert(final(s)@ =~= old(s)@ + dec_chars(n as nat));
    }
}

/// The decimal rendering of `n` as a fresh `String`.
pub fn u64_to_dec_string(n: u64) -> (r: String)
    ensures
        r@ == dec_chars(n as nat),
{
    let mut s = String::new();
    push_dec_u64(&mut s, n);
    proof {
        assert(s@ =~= dec_chars(n as nat));
    }
    s
}

/// The decimal rendering of a signed integer as a fresh `String`.
pub fn i64_to_dec_string(v: i64) -> (r: String)
    ensures
        r@ == int_dec_chars(v as int),
{
    let mut s = String::new();
    if v < 0 {
        s.push('-');
        // Magnitude, computed so that `i64::MIN` does not overflow.
        let mag: u64 = ((-(v + 1)) as u64) + 1;
        assert(mag == -(v as int));
        push_dec_u64(&mut s, mag);
        proof {
            assert(s@ =~= int_dec_chars(v as int));
        }
    } else {
        push_dec_u64(&mut s, v as u64);
    }
    s
}

/// The numeric value of a string of decimal digits.
pub open spec fn digits_val(ds: Seq<char>) -> nat
    decreases ds.len(),
{
    if ds.len() == 0 {
        0
    } else {
        digits_val(ds.drop_last()) * 10 + dec_digit_val(ds.last())
    }
}

/// Earlier digits never lower the value: the value of a digit-string
/// prefix is at most the value of the whole.
pub proof fn lemma_digits_prefix_le(s: Seq<char>, a: int, c: int, b: int)
    requires
        0 <= a <= c <= b <= s.len(),
    ensures
        digits_val(s.subrange(a, c)) <= digits_val(s.subrange(a, b)),
    decreases b - c,
{
    if c < b {
        lemma_digits_prefix_le(s, a, c, b - 1);
        assert(s.subrange(a, b).drop_last() =~= s.subrange(a, b - 1));
        assert(digits_val(s.subrange(a, b - 1)) * 10 >= digits_val(s.subrange(a, b - 1)));
    }
}

/// `pat` occurs in `s` at position `k`.
pub open spec fn matches_at(s: Seq<char>, pat: Seq<char>, k: int) -> bool {
    &&& 0 <= k
    &&& k + pat.len() <= s.len()
    &&& s.subrange(k, k + pat.len() as int) == pat
}

/// The first position at or after `i` where `pat` occurs in `s`.
pub open spec fn find_first_from(s: Seq<char>, pat: Seq<char>, i: int) -> Option<int>
    decreases s.len() + 1 - i,
{
    if i < 0 || i + pat.len() > s.len() {
        None
    } else if matches_at(s, pat, i) {
        Some(i)
    } else {
        find_first_from(s, pat, i + 1)
    }
}

/// `s` with the first occurrence of `pat` (if any) replaced by `sub`.
pub open spec fn replace_first(s: Seq<char>, pat: Seq<char>, sub: Seq<char>) -> Seq<char> {
    match find_first_from(s, pat, 0) {
        None => s,
        Some(k) => s.subrange(0, k) + sub + s.subrange(k + pat.len() as int, s.len() as int),
    }
}

/// A found occurrence means a match at the found position, at or after the
/// start of the scan.
pub proof fn lemma_find_first_from_some(s: Seq<char>, pat: Seq<char>, i: int)
    requires
        find_first_from(s, pat, i) is Some,
    ensures
        i <= find_first_from(s, pat, i)->Some_0,
        matches_at(s, pat, find_first_from(s, pat, i)->Some_0),
    decreases s.len() + 1 - i,
{
    if !(i < 0 || i + pat.len() > s.len()) && !matches_at(s, pat, i) {
        lemma_find_first_from_some(s, pat, i + 1);
    }
}

/// Whether `pat` occurs in `s` at position `k`, by character comparison.
pub fn str_matches_at(s: &str, pat: &str, k: usize) -> (r: bool)
    requires
        k + pat@.len() <= s@.len(),
    ensures
        r == matches_at(s@, pat@, k as int),
{
    let s_len = s.unicode_len();
    let pat_len = pat.unicode_len();
    let mut j: usize = 0;
    while j < pat_len
        invariant
            k + pat@.len() <= s@.len(),
            s_len == s@.len(),
            pat_len == pat@.len(),
            0 <= j <= pat_len,
            forall|t: int| 0 <= t < j ==> s@[k + t] == pat@[t],
        decreases pat_len - j,
    {
        if s.get_char(k + j) != pat.get_char(j) {
            assert(s@.subrange(k as int, k + pat@.len() as int)[j as int] != pat@[j as int]);
            return false;
        }
        j += 1;
    }
    proof {
        assert(s@.subrange(k as int, k + pat@.len() as int) =~= pat@);
    }
    true
}

/// The first position where `pat` occurs in `s`, by linear scan.
pub fn str_find_first(s: &str, pat: &str) -> (r: Option<usize>)
    ensures
        match r {
            Some(k) => find_first_from(s@, pat@, 0) == Some(k as int),
            None => find_first_from(s@, pat@, 0) is None,
        },
{
    let s_len = s.unicode_len();
    let pat_len = pat.unicode_len();
    if pat_len > s_len {
        return None;
    }
    if pat_len == 0 {
        proof {
            assert(s@.subrange(0, 0) =~= pat@);
        }
        return Some(0);
    }
    let mut k: usize = 0;
    while k <= s_len - pat_len
        invariant
            s_len == s@.len(),
            pat_len == pat@.len(),
            1 <= pat_len <= s_len,
            0 <= k <= s_len - pat_len + 1,
            find_first_from(s@, pat@, 0) == find_first_from(s@, pat@, k as int),
        decreases s_len - k,
    {
        if str_matches_at(s, pat, k) {
            return Some(k);
        }
        k += 1;
    }
    None
}

/// Appends the character range `[from, to)` of `s` to `out`.
pub fn push_substring_char(out: &mut String, s: &str, from: usize, to: usize)
    requires
        from <= to <= s@.len(),
    ensures
        final(out)@ == old(out)@ + s@.subrange(from as int, to as int),
{
    let part = s.substring_char(from, to);
    out.append(part);
}

/// `s` with the first occurrence of `pat` replaced by `sub`, by character
/// scanning and splicing.
pub fn str_replace_first(s: &str, pat: &str, sub: &str) -> (r: String)
    ensures
        r@ == replace_first(s@, pat@, sub@),
{
    match str_find_first(s, pat) {
        None => String::from_str(s),
        Some(k) => {
            proof {
                lemma_find_first_from_some(s@, pat@, 0);
            }
            let s_len = s.unicode_len();
            let pat_len = pat.unicode_len();
            let mut out = String::new();
            push_substring_char(&mut out, s, 0, k);
            out.append(sub);
            push_substring_char(&mut out, s, k + pat_len, s_len);
            proof {
                assert(out@ =~= replace_first(s@, pat@, sub@));
            }
            out
        },
    }
}

/// `s` begins with `pre`.
pub open spec fn spec_starts_with(s: Seq<char>, pre: Seq<char>) -> bool {
    pre.len() <= s.len() && s.subrange(0, pre.len() as int) == pre
}

/// `s` ends with `suf`.
pub open spec fn spec_ends_with(s: Seq<char>, suf: Seq<char>) -> bool {
    suf.len() <= s.len() && s.subrange(s.len() - suf.len(), s.len() as int) == suf
}

pub fn str_starts_with(s: &str, pre: &str) -> (r: bool)
    ensures
        r == spec_starts_with(s@, pre@),
{
    let s_len = s.unicode_len();
    let pre_len = pre.unicode_len();
    if pre_len > s_len {
        return false;
    }
    str_matches_at(s, pre, 0)
}

pub fn str_ends_with(s: &str, suf: &str) -> (r: bool)
    ensures
        r == spec_ends_with(s@, suf@),
{
    let s_len = s.unicode_len();
    let suf_len = suf.unicode_len();
    if suf_len > s_len {
        return false;
    }
    str_matches_at(s, suf, s_len - suf_len)
}

} // verus!
