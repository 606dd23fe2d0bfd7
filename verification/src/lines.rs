use vstd::prelude::*;

verus! {

broadcast use vstd::seq_lib::group_seq_lib_default, vstd::seq::group_seq_axioms;

/// The position of the first newline byte of `s` at or after `i`.
pub open spec fn first_newline_from(s: Seq<u8>, i: int) -> Option<int>
    decreases s.len() - i,
{
    if i < 0 || i >= s.len() {
        None
    } else if s[i] == 10 {
        Some(i)
    } else {
        first_newline_from(s, i + 1)
    }
}

/// A found newline lies in `[i, s.len())` and is a newline byte.
pub proof fn lemma_first_newline_bounds(s: Seq<u8>, i: int)
    requires
        first_newline_from(s, i) is Some,
    ensures
        i <= first_newline_from(s, i)->Some_0 < s.len(),
        s[first_newline_from(s, i)->Some_0] == 10,
    decreases s.len() - i,
{
    if !(i < 0 || i >= s.len()) && s[i] != 10 {
        lemma_first_newline_bounds(s, i + 1);
    }
}

/// A line as text readers yield it: the trailing carriage return of a
/// `\r\n` ending is stripped.
pub open spec fn trim_cr(l: Seq<u8>) -> Seq<u8> {
    if l.len() > 0 && l[l.len() - 1] == 13 {
        l.drop_last()
    } else {
        l
    }
}

/// The lines of `s` from position `i` on: split at newline bytes, each
/// line stripped of the newline and of a carriage return before it; a
/// final fragment without a newline is a line, a trailing newline adds
/// none.
pub open spec fn byte_lines_from(s: Seq<u8>, i: int) -> Seq<Seq<u8>>
    decreases s.len() - i,
{
    if i < 0 || i >= s.len() {
        Seq::empty()
    } else {
        match first_newline_from(s, i) {
            Some(k) => {
                proof {
                    lemma_first_newline_bounds(s, i);
                }
                seq![trim_cr(s.subrange(i, k))] + byte_lines_from(s, k + 1)
            },
            None => seq![trim_cr(s.subrange(i, s.len() as int))],
        }
    }
}

/// All lines of `s`.
pub open spec fn byte_lines(s: Seq<u8>) -> Seq<Seq<u8>> {
    byte_lines_from(s, 0)
}

/// The first newline at or after `i`, by linear scan.
fn find_newline(s: &[u8], i: usize) -> (r: Option<usize>)
    requires
        i <= s@.len(),
    ensures
        match r {
            Some(k) => first_newline_from(s@, i as int) == Some(k as int) && i <= k < s@.len()
                && s@[k as int] == 10,
            None => first_newline_from(s@, i as int) is None,
        },
{
    let len = s.len();
    let mut j: usize = i;
    while j < len
        invariant
            len == s@.len(),
            i <= j <= len,
            first_newline_from(s@, i as int) == first_newline_from(s@, j as int),
        decreases len - j,
    {
        if s[j] == 10 {
            proof {
                lemma_first_newline_bounds(s@, i as int);
            }
            return Some(j);
        }
        j += 1;
    }
    None
}

/// Copies the bytes of `s` in `[from, to)`, with a trailing carriage
/// return stripped.
fn copy_trimmed_line(s: &[u8], from: usize, to: usize) -> (r: Vec<u8>)
    requires
        from <= to <= s@.len(),
    ensures
        r@ == trim_cr(s@.subrange(from as int, to as int)),
{
    let mut end = to;
    if to > from && s[to - 1] == 13 {
        end = to - 1;
    }
    let mut out: Vec<u8> = Vec::new();
    let mut j: usize = from;
    proof {
        assert(out@ =~= s@.subrange(from as int, from as int));
    }
    while j < end
        invariant
            from <= j <= end <= s@.len(),
            out@ == s@.subrange(from as int, j as int),
        decreases end - j,
    {
        out.push(s[j]);
        proof {
            assert(out@ =~= s@.subrange(from as int, j + 1));
        }
        j += 1;
    }
    proof {
        if to > from && s@[to - 1] == 13 {
            assert(s@.subrange(from as int, to as int).drop_last() =~= s@.subrange(
                from as int,
                to - 1,
            ));
        }
        assert(out@ =~= trim_cr(s@.subrange(from as int, to as int)));
    }
    out
}

/// Splits a byte buffer into its lines: the executable counterpart of
/// `byte_lines`.
pub fn split_lines(s: &[u8]) -> (r: Vec<Vec<u8>>)
    ensures
        r.deep_view() == byte_lines(s@),
{
    let len = s.len();
    let mut out: Vec<Vec<u8>> = Vec::new();
    let mut i: usize = 0;
    proof {
        assert(out.deep_view() =~= Seq::<Seq<u8>>::empty());
    }
    while i < len
        invariant
            len == s@.len(),
            0 <= i <= len,
            byte_lines(s@) == out.deep_view() + byte_lines_from(s@, i as int),
        decreases len - i,
    {
        let ghost pre_out = out.deep_view();
        match find_newline(s, i) {
            Some(k) => {
                let line = copy_trimmed_line(s, i, k);
                let ghost lv = line@;
                proof {
                    assert(line.deep_view() =~= lv);
                }
                out.push(line);
                proof {
                    assert(out.deep_view() =~= pre_out.push(lv));
                    assert(byte_lines_from(s@, i as int) == seq![lv] + byte_lines_from(
                        s@,
                        k + 1,
                    ));
                    assert(pre_out.push(lv) + byte_lines_from(s@, k + 1) =~= pre_out + (seq![lv]
                        + byte_lines_from(s@, k + 1)));
                }
                i = k + 1;
            },
            None => {
                let line = copy_trimmed_line(s, i, len);
                let ghost lv = line@;
                proof {
                    assert(line.deep_view() =~= lv);
                }
                out.push(line);
                proof {
                    assert(out.deep_view() =~= pre_out.push(lv));
                    assert(byte_lines_from(s@, i as int) == seq![lv]);
                    assert(pre_out.push(lv) =~= pre_out + seq![lv]);
                    assert(byte_lines_from(s@, len as int) =~= Seq::<Seq<u8>>::empty());
                }
                i = len;
            },
        }
    }
    proof {
        assert(byte_lines_from(s@, len as int) =~= Seq::<Seq<u8>>::empty());
        assert(out.deep_view() + Seq::<Seq<u8>>::empty() =~= out.deep_view());
    }
    out
}

} // verus!
