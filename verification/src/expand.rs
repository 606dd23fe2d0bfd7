use vstd::prelude::*;
use vstd::arithmetic::div_mod::lemma_fundamental_div_mod;

use crate::text::{
    dec_chars, dec_digit_val, digits_val, is_dec_digit, lemma_digits_prefix_le, push_substring_char,
    replace_first, str_replace_first, u64_to_dec_string,
};

verus! {

broadcast use vstd::seq_lib::group_seq_lib_default, vstd::seq::group_seq_axioms;

/// A single `{a..b}` token found in a URI template: where it stands, the
/// placeholder text, the half-open numeric range `[start, end)`, and the
/// zero-pad width (the digit count of the start literal when that literal
/// begins with `'0'`, else zero).
pub struct RangeTokenModel {
    pub pos: int,
    pub len: int,
    pub start: nat,
    pub end: nat,
    pub pad: nat,
    pub placeholder: Seq<char>,
}

/// The number of consecutive decimal digits of `s` starting at `i`.
pub open spec fn digit_run_len(s: Seq<char>, i: int) -> nat
    decreases s.len() - i,
{
    if i < 0 || i >= s.len() || !is_dec_digit(s[i]) {
        0
    } else {
        1 + digit_run_len(s, i + 1)
    }
}

/// The range token starting exactly at position `i` of `s`, if the text
/// there has the shape `{<digits>..<digits>}`.
pub open spec fn token_at(s: Seq<char>, i: int) -> Option<RangeTokenModel> {
    let a = digit_run_len(s, i + 1) as int;
    let b = digit_run_len(s, i + 3 + digit_run_len(s, i + 1)) as int;
    if 0 <= i < s.len() && s[i] == '{' && a >= 1 && i + 1 + a < s.len() && s[i + 1 + a] == '.' && i
        + 2 + a < s.len() && s[i + 2 + a] == '.' && b >= 1 && i + 3 + a + b < s.len() && s[i + 3 + a
        + b] == '}' {
        Some(
            RangeTokenModel {
                pos: i,
                len: a + b + 4,
                start: digits_val(s.subrange(i + 1, i + 1 + a)),
                end: digits_val(s.subrange(i + 3 + a, i + 3 + a + b)),
                pad: if s[i + 1] == '0' {
                    a as nat
                } else {
                    0
                },
                placeholder: s.subrange(i, i + a + b + 4),
            },
        )
    } else {
        None
    }
}

/// All range tokens of `s` at or after position `i`, leftmost first and
/// non-overlapping.
pub open spec fn tokens_from(s: Seq<char>, i: int) -> Seq<RangeTokenModel>
    decreases s.len() - i,
{
    if i < 0 || i >= s.len() {
        Seq::empty()
    } else {
        match token_at(s, i) {
            Some(t) => seq![t] + tokens_from(s, i + t.len),
            None => tokens_from(s, i + 1),
        }
    }
}

/// A token can be expanded: its bounds fit in `usize` and the range is
/// non-empty.
pub open spec fn token_ok(t: RangeTokenModel) -> bool {
    t.start < t.end && t.end <= usize::MAX
}

pub open spec fn all_tokens_ok(ts: Seq<RangeTokenModel>) -> bool {
    forall|j: int| 0 <= j < ts.len() ==> token_ok(#[trigger] ts[j])
}

/// A run of `n` zero characters.
pub open spec fn zero_chars(n: nat) -> Seq<char> {
    Seq::new(n, |i: int| '0')
}

/// The decimal rendering of `v`, left-padded with zeros to width `w`.
pub open spec fn pad_chars(v: nat, w: nat) -> Seq<char> {
    if dec_chars(v).len() >= w {
        dec_chars(v)
    } else {
        zero_chars((w - dec_chars(v).len()) as nat) + dec_chars(v)
    }
}

/// All variants of one URI under one token: the first occurrence of the
/// placeholder replaced by each padded value of `[start, end)` in order.
pub open spec fn variants_of(u: Seq<char>, t: RangeTokenModel) -> Seq<Seq<char>> {
    Seq::new(
        (t.end - t.start) as nat,
        |j: int| replace_first(u, t.placeholder, pad_chars((t.start + j) as nat, t.pad)),
    )
}

/// One expansion pass: every URI of the list is replaced by all its
/// variants under `t`, in order.
pub open spec fn expand_token(uris: Seq<Seq<char>>, t: RangeTokenModel) -> Seq<Seq<char>> {
    uris.map_values(|u: Seq<char>| variants_of(u, t)).flatten()
}

/// Expansion by all tokens, left to right; the result order is the
/// Cartesian product, outermost token first.
pub open spec fn expand_tokens(uris: Seq<Seq<char>>, ts: Seq<RangeTokenModel>) -> Seq<Seq<char>>
    decreases ts.len(),
{
    if ts.len() == 0 {
        uris
    } else {
        expand_tokens(expand_token(uris, ts[0]), ts.drop_first())
    }
}

/// The full expansion of a URI template.
pub open spec fn spec_expand_uris(uri: Seq<char>) -> Seq<Seq<char>> {
    expand_tokens(seq![uri], tokens_from(uri, 0))
}

/// A URI template whose range syntax cannot be expanded: a bound does not
/// fit in `usize`, or a range is empty (`start >= end`).
#[derive(Debug, Clone, Copy, PartialEq, Eq, Structural)]
pub struct ExpandError;

/// One parsed `{a..b}` range of a URI template.
pub struct RangeExpand {
    pub replace_str: String,
    pub start: usize,
    pub end: usize,
    pub zero_pad_by: usize,
}

impl RangeExpand {
    pub open spec fn matches_token(self, t: RangeTokenModel) -> bool {
        &&& self.replace_str@ == t.placeholder
        &&& self.start as nat == t.start
        &&& self.end as nat == t.end
        &&& self.zero_pad_by as nat == t.pad
    }
}

/// Every position inside a digit run holds a digit.
pub proof fn lemma_digit_run_digits(s: Seq<char>, i: int)
    requires
        0 <= i,
    ensures
        forall|j: int|
            i <= j < i + digit_run_len(s, i) ==> is_dec_digit(#[trigger] s[j]),
    decreases s.len() - i,
{
    if !(i >= s.len() || !is_dec_digit(s[i])) {
        lemma_digit_run_digits(s, i + 1);
    }
}

/// The consecutive digits of `s` starting at `i`, by linear scan.
pub(crate) fn digit_run(s: &str, s_len: usize, i: usize) -> (r: usize)
    requires
        s_len == s@.len(),
        i <= s_len,
    ensures
        r as nat == digit_run_len(s@, i as int),
        i + r <= s_len,
{
    let mut j: usize = i;
    loop
        invariant
            s_len == s@.len(),
            i <= j <= s_len,
            digit_run_len(s@, i as int) == (j - i) + digit_run_len(s@, j as int),
        ensures
            i <= j <= s_len,
            digit_run_len(s@, j as int) == 0,
            digit_run_len(s@, i as int) == j - i,
        decreases s_len - j,
    {
        if j >= s_len {
            break ;
        }
        let c = s.get_char(j);
        let cu = c as u32;
        if !(48 <= cu && cu <= 57) {
            break ;
        }
        j += 1;
    }
    j - i
}

/// The numeric value of the digits of `s` in `[from, to)`, or `None` when
/// it exceeds `usize::MAX`.
fn parse_digits(s: &str, from: usize, to: usize) -> (r: Option<usize>)
    requires
        from <= to <= s@.len(),
        forall|j: int| from <= j < to ==> is_dec_digit(#[trigger] s@[j]),
    ensures
        match r {
            Some(v) => v as nat == digits_val(s@.subrange(from as int, to as int)),
            None => digits_val(s@.subrange(from as int, to as int)) > usize::MAX,
        },
{
    let mut val: usize = 0;
    let mut j: usize = from;
    while j < to
        invariant
            from <= j <= to <= s@.len(),
            forall|t: int| from <= t < to ==> is_dec_digit(#[trigger] s@[t]),
            val as nat == digits_val(s@.subrange(from as int, j as int)),
        decreases to - j,
    {
        let c = s.get_char(j);
        assert(is_dec_digit(c));
        let d: usize = ((c as u32) - ('0' as u32)) as usize;
        assert(d as nat == dec_digit_val(c));
        proof {
            assert(s@.subrange(from as int, j + 1).drop_last() =~= s@.subrange(
                from as int,
                j as int,
            ));
            assert(s@.subrange(from as int, j + 1).last() == s@[j as int]);
        }
        if val > (usize::MAX - d) / 10 {
            proof {
                let q = (usize::MAX - d) as int / 10;
                lemma_fundamental_div_mod((usize::MAX - d) as int, 10);
                assert(val * 10 >= (q + 1) * 10) by (nonlinear_arith)
                    requires
                        val as int >= q + 1,
                ;
                assert(val * 10 + d > usize::MAX);
                assert(digits_val(s@.subrange(from as int, j + 1)) > usize::MAX);
                lemma_digits_prefix_le(s@, from as int, j + 1, to as int);
            }
            return None;
        }
        proof {
            let q = (usize::MAX - d) as int / 10;
            lemma_fundamental_div_mod((usize::MAX - d) as int, 10);
            assert(val * 10 <= q * 10) by (nonlinear_arith)
                requires
                    val as int <= q,
            ;
            assert(val * 10 + d <= usize::MAX);
        }
        val = val * 10 + d;
        j += 1;
    }
    proof {
        assert(s@.subrange(from as int, to as int) =~= s@.subrange(from as int, j as int));
    }
    Some(val)
}

/// The digit-run lengths of the token starting at `i`, when the text there
/// has the `{<digits>..<digits>}` shape.
fn try_token(s: &str, s_len: usize, i: usize) -> (r: Option<(usize, usize)>)
    requires
        s_len == s@.len(),
        i < s_len,
    ensures
        match r {
            Some(ab) => {
                &&& token_at(s@, i as int) is Some
                &&& ab.0 as nat == digit_run_len(s@, i + 1)
                &&& ab.1 as nat == digit_run_len(s@, i + 3 + ab.0)
                &&& token_at(s@, i as int)->Some_0.len == ab.0 + ab.1 + 4
                &&& i + ab.0 + ab.1 + 4 <= s_len
            },
            None => token_at(s@, i as int) is None,
        },
{
    if s.get_char(i) != '{' {
        return None;
    }
    let a = digit_run(s, s_len, i + 1);
    if a == 0 {
        return None;
    }
    if i + 1 + a >= s_len {
        return None;
    }
    if s.get_char(i + 1 + a) != '.' {
        return None;
    }
    if i + 2 + a >= s_len {
        return None;
    }
    if s.get_char(i + 2 + a) != '.' {
        return None;
    }
    let b = digit_run(s, s_len, i + 3 + a);
    if b == 0 {
        return None;
    }
    if i + 3 + a + b >= s_len {
        return None;
    }
    if s.get_char(i + 3 + a + b) != '}' {
        return None;
    }
    Some((a, b))
}

/// All `{a..b}` ranges of a URI template, leftmost first, or an error when
/// a range has a bound above `usize::MAX` or an empty range.
pub fn scan_ranges(uri: &str) -> (r: Result<Vec<RangeExpand>, ExpandError>)
    ensures
        match r {
            Ok(v) => {
                let ts = tokens_from(uri@, 0);
                &&& all_tokens_ok(ts)
                &&& v@.len() == ts.len()
                &&& forall|j: int| 0 <= j < ts.len() ==> #[trigger] v@[j].matches_token(ts[j])
            },
            Err(_) => !all_tokens_ok(tokens_from(uri@, 0)),
        },
{
    let s_len = uri.unicode_len();
    let mut out: Vec<RangeExpand> = Vec::new();
    let ghost mut done: Seq<RangeTokenModel> = Seq::empty();
    let mut i: usize = 0;
    proof {
        assert(tokens_from(uri@, 0) =~= done + tokens_from(uri@, 0));
    }
    while i < s_len
        invariant
            s_len == uri@.len(),
            0 <= i <= s_len,
            tokens_from(uri@, 0) == done + tokens_from(uri@, i as int),
            out@.len() == done.len(),
            forall|j: int| 0 <= j < done.len() ==> #[trigger] out@[j].matches_token(done[j]),
            all_tokens_ok(done),
        decreases s_len - i,
    {
        match try_token(uri, s_len, i) {
            None => {
                proof {
                    assert(tokens_from(uri@, i as int) == tokens_from(uri@, i + 1));
                }
                i += 1;
            },
            Some((a, b)) => {
                let ghost t = token_at(uri@, i as int)->Some_0;
                proof {
                    lemma_digit_run_digits(uri@, i + 1);
                    lemma_digit_run_digits(uri@, i + 3 + a);
                }
                let start_val = match parse_digits(uri, i + 1, i + 1 + a) {
                    Some(v) => v,
                    None => {
                        proof {
                            assert(!token_ok(t));
                            assert(tokens_from(uri@, i as int)[0] == t);
                            assert(tokens_from(uri@, 0)[done.len() as int] == t);
                        }
                        return Err(ExpandError);
                    },
                };
                let end_val = match parse_digits(uri, i + 3 + a, i + 3 + a + b) {
                    Some(v) => v,
                    None => {
                        proof {
                            assert(!token_ok(t));
                            assert(tokens_from(uri@, i as int)[0] == t);
                            assert(tokens_from(uri@, 0)[done.len() as int] == t);
                        }
                        return Err(ExpandError);
                    },
                };
                if start_val >= end_val {
                    proof {
                        assert(!token_ok(t));
                        assert(tokens_from(uri@, i as int)[0] == t);
                        assert(tokens_from(uri@, 0)[done.len() as int] == t);
                    }
                    return Err(ExpandError);
                }
                let pad = if s_len > i + 1 && uri.get_char(i + 1) == '0' {
                    a
                } else {
                    0
                };
                let mut placeholder = String::new();
                push_substring_char(&mut placeholder, uri, i, i + a + b + 4);
                let range = RangeExpand {
                    replace_str: placeholder,
                    start: start_val,
                    end: end_val,
                    zero_pad_by: pad,
                };
                proof {
                    assert(range.matches_token(t));
                    assert(tokens_from(uri@, i as int) == seq![t] + tokens_from(
                        uri@,
                        i + t.len,
                    ));
                    assert(tokens_from(uri@, 0) =~= (done + seq![t]) + tokens_from(
                        uri@,
                        i + t.len,
                    ));
                }
                out.push(range);
                proof {
                    done = done + seq![t];
                }
                i += a + b + 4;
            },
        }
    }
    proof {
        assert(tokens_from(uri@, 0) =~= done);
    }
    Ok(out)
}

/// `expand_tokens` peels tokens from the left, so appending a token on the
/// right applies one more pass to the result.
proof fn lemma_expand_tokens_push(
    uris: Seq<Seq<char>>,
    ts: Seq<RangeTokenModel>,
    t: RangeTokenModel,
)
    ensures
        expand_tokens(uris, ts.push(t)) == expand_token(expand_tokens(uris, ts), t),
    decreases ts.len(),
{
    if ts.len() == 0 {
        assert(ts.push(t)[0] == t);
        assert(ts.push(t).drop_first() =~= Seq::<RangeTokenModel>::empty());
        assert(expand_tokens(uris, ts.push(t)) == expand_tokens(
            expand_token(uris, t),
            Seq::empty(),
        ));
        assert(expand_tokens(expand_token(uris, t), Seq::empty()) == expand_token(uris, t));
        assert(expand_tokens(uris, ts) == uris);
    } else {
        assert(ts.push(t)[0] == ts[0]);
        assert(ts.push(t).drop_first() =~= ts.drop_first().push(t));
        lemma_expand_tokens_push(expand_token(uris, ts[0]), ts.drop_first(), t);
        assert(expand_tokens(uris, ts.push(t)) == expand_tokens(
            expand_token(uris, ts[0]),
            ts.drop_first().push(t),
        ));
        assert(expand_tokens(uris, ts) == expand_tokens(expand_token(uris, ts[0]), ts.drop_first()));
    }
}

/// The decimal rendering of `v`, left-padded with zeros to width `w`.
fn pad_value_string(v: usize, w: usize) -> (r: String)
    ensures
        r@ == pad_chars(v as nat, w as nat),
{
    let digits = u64_to_dec_string(v as u64);
    let d_len = digits.as_str().unicode_len();
    if d_len >= w {
        digits
    } else {
        let mut out = String::new();
        let mut k: usize = 0;
        while k < w - d_len
            invariant
                d_len < w,
                d_len == dec_chars(v as nat).len(),
                0 <= k <= w - d_len,
                out@ == zero_chars(k as nat),
            decreases w - d_len - k,
        {
            out.push('0');
            proof {
                assert(out@ =~= zero_chars((k + 1) as nat));
            }
            k += 1;
        }
        out.append(digits.as_str());
        proof {
            assert(out@ =~= pad_chars(v as nat, w as nat));
        }
        out
    }
}

/// Expands a URI template with `{a..b}` range syntax into the ordered list
/// of concrete URIs: each range stands for the half-open interval
/// `[a, b)`, values are zero-padded to the width of `a` when `a` has a
/// leading zero, and multiple ranges combine as a Cartesian product with
/// the leftmost range outermost. A template without ranges expands to
/// itself alone. Fails when a bound does not fit in `usize` or a range is
/// empty.
pub fn expand_uris(uri: String) -> (r: Result<Vec<String>, ExpandError>)
    ensures
        match r {
            Ok(v) => {
                &&& all_tokens_ok(tokens_from(uri@, 0))
                &&& v.deep_view() == spec_expand_uris(uri@)
            },
            Err(_) => !all_tokens_ok(tokens_from(uri@, 0)),
        },
{
    let ghost u0 = uri@;
    let ranges = match scan_ranges(uri.as_str()) {
        Ok(rs) => rs,
        Err(e) => {
            return Err(e);
        },
    };
    let ghost ts = tokens_from(u0, 0);
    let mut cur: Vec<String> = Vec::new();
    cur.push(uri);
    proof {
        assert(cur.deep_view() =~= seq![u0]);
        assert(ts.take(0) =~= Seq::<RangeTokenModel>::empty());
    }
    let mut r_i: usize = 0;
    while r_i < ranges.len()
        invariant
            ranges@.len() == ts.len(),
            forall|j: int| 0 <= j < ts.len() ==> #[trigger] ranges@[j].matches_token(ts[j]),
            all_tokens_ok(ts),
            0 <= r_i <= ranges.len(),
            cur.deep_view() == expand_tokens(seq![u0], ts.take(r_i as int)),
        decreases ranges.len() - r_i,
    {
        let ghost t = ts[r_i as int];
        let ghost prev = cur.deep_view();
        let range = &ranges[r_i];
        let mut next: Vec<String> = Vec::new();
        proof {
            assert(prev.take(0) =~= Seq::<Seq<char>>::empty());
            assert(prev.take(0).map_values(|u: Seq<char>| variants_of(u, t)).flatten()
                =~= Seq::<Seq<char>>::empty());
            assert(next.deep_view() =~= Seq::<Seq<char>>::empty());
        }
        let mut u_i: usize = 0;
        while u_i < cur.len()
            invariant
                ranges@.len() == ts.len(),
                forall|j: int| 0 <= j < ts.len() ==> #[trigger] ranges@[j].matches_token(ts[j]),
                all_tokens_ok(ts),
                0 <= r_i < ranges.len(),
                t == ts[r_i as int],
                prev == cur.deep_view(),
                0 <= u_i <= cur.len(),
                next.deep_view() == prev.take(u_i as int).map_values(
                    |u: Seq<char>| variants_of(u, t),
                ).flatten(),
            decreases cur.len() - u_i,
        {
            let u = &cur[u_i];
            let ghost before_inner = next.deep_view();
            let mut val: usize = ranges[r_i].start;
            proof {
                assert(ranges@[r_i as int].matches_token(ts[r_i as int]));
                assert(variants_of(u@, t).take(0) =~= Seq::<Seq<char>>::empty());
                assert(before_inner + variants_of(u@, t).take(0) =~= before_inner);
            }
            while val < ranges[r_i].end
                invariant
                    ranges@.len() == ts.len(),
                    forall|j: int|
                        0 <= j < ts.len() ==> #[trigger] ranges@[j].matches_token(ts[j]),
                    0 <= r_i < ranges.len(),
                    t == ts[r_i as int],
                    token_ok(t),
                    0 <= u_i < cur.len(),
                    u == cur[u_i as int],
                    ranges@[r_i as int].start <= val <= ranges@[r_i as int].end,
                    next.deep_view() == before_inner + variants_of(u@, t).take(
                        val - t.start,
                    ),
                decreases ranges@[r_i as int].end - val,
            {
                let padded = pad_value_string(val, ranges[r_i].zero_pad_by);
                let replaced = str_replace_first(
                    u.as_str(),
                    ranges[r_i].replace_str.as_str(),
                    padded.as_str(),
                );
                proof {
                    assert(ranges@[r_i as int].matches_token(ts[r_i as int]));
                    assert(0 <= val - t.start < (t.end - t.start) as nat);
                    assert(replaced@ == variants_of(u@, t)[val - t.start]);
                }
                let ghost prev_next = next.deep_view();
                next.push(replaced);
                proof {
                    assert(variants_of(u@, t).take(val - t.start + 1) =~= variants_of(
                        u@,
                        t,
                    ).take(val - t.start).push(variants_of(u@, t)[val - t.start]));
                    assert(next.deep_view() =~= prev_next.push(replaced@));
                    assert(next.deep_view() =~~= before_inner + variants_of(u@, t).take(
                        val - t.start + 1,
                    ));
                }
                val += 1;
            }
            proof {
                assert(variants_of(u@, t).take(val - t.start) =~= variants_of(u@, t));
                let f = |x: Seq<char>| variants_of(x, t);
                assert(prev.take(u_i + 1) =~= prev.take(u_i as int).push(prev[u_i as int]));
                assert(prev.take(u_i + 1).map_values(f) =~= prev.take(u_i as int).map_values(
                    f,
                ).push(f(prev[u_i as int])));
                prev.take(u_i as int).map_values(f).lemma_flatten_push(f(prev[u_i as int]));
                assert(u@ == prev[u_i as int]);
                assert(next.deep_view() =~= prev.take(u_i + 1).map_values(f).flatten());
            }
            u_i += 1;
        }
        proof {
            let f = |x: Seq<char>| variants_of(x, t);
            assert(prev.take(cur.len() as int) =~= prev);
            assert(next.deep_view() == expand_token(prev, t));
            lemma_expand_tokens_push(seq![u0], ts.take(r_i as int), t);
            assert(ts.take(r_i + 1) =~= ts.take(r_i as int).push(t));
        }
        cur = next;
        r_i += 1;
    }
    proof {
        assert(ts.take(ranges@.len() as int) =~= ts);
    }
    Ok(cur)
}

/// A template with no range tokens expands to itself alone.
pub proof fn lemma_expand_no_ranges(uri: Seq<char>)
    requires
        tokens_from(uri, 0) == Seq::<RangeTokenModel>::empty(),
    ensures
        spec_expand_uris(uri) == seq![uri],
{
    assert(expand_tokens(seq![uri], tokens_from(uri, 0)) == seq![uri]);
}

} // verus!
