use vstd::prelude::*;
use vstd::arithmetic::power::pow;
use vstd::arithmetic::div_mod::lemma_fundamental_div_mod_converse_div;
use vstd::arithmetic::mul::lemma_mul_inequality;

use crate::expand::{digit_run, digit_run_len, lemma_digit_run_digits};
use crate::text::{dec_digit_val, digits_val, is_dec_digit};

verus! {

broadcast use vstd::seq_lib::group_seq_lib_default, vstd::seq::group_seq_axioms;

/// Ten to the `e`.
pub open spec fn pow10(e: nat) -> int {
    pow(10, e)
}

/// A number as a Prometheus metric line carries it, possibly in
/// scientific notation: an optional sign, digits with an optional decimal
/// point, and an optional decimal exponent.
pub struct SciNumber {
    pub neg: bool,
    pub mant: Seq<char>,
    pub fraclen: nat,
    pub exp_neg: bool,
    pub exp_digits: Seq<char>,
}

/// The parse of a numeric token: its sign, its mantissa digits (the
/// decimal point removed), how many of them are fractional, and its
/// exponent; `None` when the token is not such a number.
pub open spec fn sci_parse(t: Seq<char>) -> Option<SciNumber> {
    let has_sign = t.len() > 0 && (t[0] == '+' || t[0] == '-');
    let i0 = if has_sign {
        1int
    } else {
        0int
    };
    let a = digit_run_len(t, i0) as int;
    let i1 = i0 + a;
    let has_dot = i1 < t.len() && t[i1] == '.';
    let fs = if has_dot {
        i1 + 1
    } else {
        i1
    };
    let b = if has_dot {
        digit_run_len(t, fs) as int
    } else {
        0int
    };
    let i2 = fs + b;
    let has_e = i2 < t.len() && (t[i2] == 'e' || t[i2] == 'E');
    let es0 = if has_e {
        i2 + 1
    } else {
        i2
    };
    let has_esign = has_e && es0 < t.len() && (t[es0] == '+' || t[es0] == '-');
    let es = if has_esign {
        es0 + 1
    } else {
        es0
    };
    let c = if has_e {
        digit_run_len(t, es) as int
    } else {
        0int
    };
    let end = es + c;
    if a + b >= 1 && (has_e ==> c >= 1) && end == t.len() {
        Some(
            SciNumber {
                neg: has_sign && t[0] == '-',
                mant: t.subrange(i0, i1) + t.subrange(fs, fs + b),
                fraclen: b as nat,
                exp_neg: has_esign && t[es0] == '-',
                exp_digits: t.subrange(es, es + c),
            },
        )
    } else {
        None
    }
}

/// The shift the exponent applies to the mantissa digits, in decimal
/// places.
pub open spec fn sci_shift(n: SciNumber) -> int {
    (if n.exp_neg {
        -(digits_val(n.exp_digits) as int)
    } else {
        digits_val(n.exp_digits) as int
    }) - n.fraclen
}

/// The magnitude of a parsed number, truncated toward zero: the mantissa
/// digits shifted by the exponent less the fraction length.
pub open spec fn sci_magnitude(n: SciNumber) -> int {
    let m = digits_val(n.mant) as int;
    if sci_shift(n) >= 0 {
        m * pow10(sci_shift(n) as nat)
    } else {
        m / pow10((-sci_shift(n)) as nat)
    }
}

/// The `u64` a numeric token truncates to: negative numbers clamp to 0,
/// values above `u64::MAX` clamp to `u64::MAX`; `None` when the token is
/// not a number.
pub open spec fn sci_value_u64(t: Seq<char>) -> Option<u64> {
    match sci_parse(t) {
        None => None,
        Some(n) => Some(
            if n.neg {
                0u64
            } else if sci_magnitude(n) > u64::MAX {
                u64::MAX
            } else {
                sci_magnitude(n) as u64
            },
        ),
    }
}

/// One more decimal place multiplies the power of ten by ten.
proof fn lemma_pow10_unfold(e: nat)
    requires
        e >= 1,
    ensures
        pow10(e) == 10 * pow10((e - 1) as nat),
{
    reveal(pow);
}

/// Splitting a digit string splits its value by a power of ten.
proof fn lemma_digits_val_concat(a: Seq<char>, b: Seq<char>)
    ensures
        digits_val(a + b) == digits_val(a) * pow10(b.len()) + digits_val(b),
    decreases b.len(),
{
    if b.len() == 0 {
        assert(a + b =~= a);
        assert(pow10(0) == 1) by {
            vstd::arithmetic::power::lemma_pow0(10);
        }
    } else {
        lemma_digits_val_concat(a, b.drop_last());
        assert((a + b).drop_last() =~= a + b.drop_last());
        assert((a + b).last() == b.last());
        lemma_pow10_unfold(b.len());
        assert(pow10(b.len()) == 10 * pow10((b.len() - 1) as nat));
        let va = digits_val(a) as int;
        let p = pow10((b.len() - 1) as nat);
        assert(va * (10 * p) == (va * p) * 10) by (nonlinear_arith);
    }
}

/// A digit string's value is below ten to its length.
proof fn lemma_digits_val_upper(ds: Seq<char>)
    requires
        forall|i: int| 0 <= i < ds.len() ==> is_dec_digit(#[trigger] ds[i]),
    ensures
        digits_val(ds) < pow10(ds.len()),
    decreases ds.len(),
{
    if ds.len() == 0 {
        assert(pow10(0) == 1) by {
            vstd::arithmetic::power::lemma_pow0(10);
        }
    } else {
        lemma_digits_val_upper(ds.drop_last());
        lemma_pow10_unfold(ds.len());
        assert(pow10(ds.len()) == 10 * pow10((ds.len() - 1) as nat));
        assert(dec_digit_val(ds.last()) <= 9);
    }
}

/// A digit string with a leading non-zero digit is at least ten to one
/// less than its length.
proof fn lemma_digits_val_lower(ds: Seq<char>)
    requires
        forall|i: int| 0 <= i < ds.len() ==> is_dec_digit(#[trigger] ds[i]),
        ds.len() >= 1,
        ds[0] != '0',
    ensures
        digits_val(ds) >= pow10((ds.len() - 1) as nat),
    decreases ds.len(),
{
    if ds.len() == 1 {
        assert(pow10(0) == 1) by {
            vstd::arithmetic::power::lemma_pow0(10);
        }
        assert(dec_digit_val(ds[0]) >= 1);
    } else {
        lemma_digits_val_lower(ds.drop_last());
        assert(ds.drop_last()[0] == ds[0]);
        lemma_pow10_unfold((ds.len() - 1) as nat);
        assert(pow10((ds.len() - 1) as nat) == 10 * pow10((ds.len() - 2) as nat));
    }
}

proof fn lemma_zeros_val(ds: Seq<char>)
    requires
        forall|i: int| 0 <= i < ds.len() ==> ds[i] == '0',
    ensures
        digits_val(ds) == 0,
    decreases ds.len(),
{
    if ds.len() > 0 {
        lemma_zeros_val(ds.drop_last());
    }
}

/// Leading zeros do not change a digit string's value.
proof fn lemma_digits_val_strip_zeros(ds: Seq<char>, z: int)
    requires
        0 <= z <= ds.len(),
        forall|i: int| 0 <= i < z ==> ds[i] == '0',
    ensures
        digits_val(ds) == digits_val(ds.skip(z)),
{
    lemma_digits_val_concat(ds.take(z), ds.skip(z));
    assert(ds.take(z) + ds.skip(z) =~= ds);
    lemma_zeros_val(ds.take(z));
    assert(digits_val(ds.take(z)) * pow10(ds.skip(z).len()) == 0) by (nonlinear_arith)
        requires
            digits_val(ds.take(z)) == 0,
    ;
}

/// Dropping the last `k` digits divides the value by ten to the `k`.
proof fn lemma_digits_val_div(ds: Seq<char>, k: int)
    requires
        forall|i: int| 0 <= i < ds.len() ==> is_dec_digit(#[trigger] ds[i]),
        0 <= k <= ds.len(),
    ensures
        digits_val(ds) as int / pow10(k as nat) == digits_val(ds.take(ds.len() - k)),
{
    let a = ds.take(ds.len() - k);
    let b = ds.skip(ds.len() - k);
    assert(a + b =~= ds);
    lemma_digits_val_concat(a, b);
    assert(forall|i: int| 0 <= i < b.len() ==> is_dec_digit(#[trigger] b[i]));
    assert(b.len() == k);
    lemma_digits_val_upper(b);
    vstd::arithmetic::power::lemma_pow_positive(10, k as nat);
    lemma_fundamental_div_mod_converse_div(
        digits_val(ds) as int,
        pow10(k as nat),
        digits_val(a) as int,
        digits_val(b) as int,
    );
}

/// A few fixed powers of ten, for the saturation bounds.
proof fn lemma_pow10_values()
    ensures
        pow10(20) == 0x56BC75E2D63100000,
        pow10(19) < u64::MAX,
        pow10(20) > u64::MAX,
        pow10(20) < u128::MAX,
        pow10(21) < u128::MAX,
{
    reveal_with_fuel(pow, 22);
}

/// The magnitude exceeds `u64::MAX` when the significant digits shifted
/// by the exponent reach twenty-one decimal places.
proof fn lemma_magnitude_over(n: SciNumber, sig: Seq<char>)
    requires
        digits_val(n.mant) == digits_val(sig),
        forall|i: int| 0 <= i < sig.len() ==> is_dec_digit(#[trigger] sig[i]),
        sig.len() >= 1,
        sig[0] != '0',
        sig.len() + sci_shift(n) > 20,
    ensures
        sci_magnitude(n) > u64::MAX,
{
    let d = sig.len() as int;
    let shift = sci_shift(n);
    lemma_digits_val_lower(sig);
    lemma_pow10_values();
    if shift >= 0 {
        vstd::arithmetic::power::lemma_pow_positive(10, shift as nat);
        lemma_mul_inequality(pow10((d - 1) as nat), digits_val(sig) as int, pow10(shift as nat));
        vstd::arithmetic::power::lemma_pow_adds(10, (d - 1) as nat, shift as nat);
        vstd::arithmetic::power::lemma_pow_increases(10, 20, (d - 1 + shift) as nat);
        assert(sci_magnitude(n) >= pow10((d - 1 + shift) as nat));
    } else {
        let kk = -shift;
        lemma_digits_val_div(sig, kk);
        let taken = sig.take(d - kk);
        assert(taken[0] == sig[0]);
        assert(forall|i: int| 0 <= i < taken.len() ==> is_dec_digit(#[trigger] taken[i]));
        lemma_digits_val_lower(taken);
        vstd::arithmetic::power::lemma_pow_increases(10, 20, (d - kk - 1) as nat);
        assert(sci_magnitude(n) == digits_val(taken));
    }
}

/// The magnitude truncates to zero when the significant digits shifted by
/// the exponent do not reach one decimal place.
proof fn lemma_magnitude_under(n: SciNumber, sig: Seq<char>)
    requires
        digits_val(n.mant) == digits_val(sig),
        forall|i: int| 0 <= i < sig.len() ==> is_dec_digit(#[trigger] sig[i]),
        sig.len() >= 1,
        sig.len() + sci_shift(n) <= 0,
    ensures
        sci_magnitude(n) == 0,
{
    let d = sig.len() as int;
    let shift = sci_shift(n);
    assert(shift < 0);
    let kk = -shift;
    lemma_digits_val_upper(sig);
    vstd::arithmetic::power::lemma_pow_increases(10, sig.len(), kk as nat);
    vstd::arithmetic::power::lemma_pow_positive(10, kk as nat);
    lemma_fundamental_div_mod_converse_div(
        digits_val(n.mant) as int,
        pow10(kk as nat),
        0,
        digits_val(n.mant) as int,
    );
}

/// The value of the digits of `ds` in `[from, to)`, exactly, in `u128`;
/// the caller keeps the range at twenty-one digits or fewer so the value
/// stays below ten to the twenty-first.
fn digits_value_u128(ds: &Vec<char>, from: usize, to: usize) -> (r: u128)
    requires
        from <= to <= ds@.len(),
        to - from <= 21,
        forall|i: int| from <= i < to ==> is_dec_digit(#[trigger] ds@[i]),
    ensures
        r as int == digits_val(ds@.subrange(from as int, to as int)),
        (r as int) < pow10((to - from) as nat),
{
    proof {
        lemma_pow10_values();
        vstd::arithmetic::power::lemma_pow0(10);
    }
    let mut val: u128 = 0;
    let mut j: usize = from;
    proof {
        assert(ds@.subrange(from as int, from as int) =~= Seq::<char>::empty());
    }
    while j < to
        invariant
            from <= j <= to <= ds@.len(),
            to - from <= 21,
            forall|i: int| from <= i < to ==> is_dec_digit(#[trigger] ds@[i]),
            val as int == digits_val(ds@.subrange(from as int, j as int)),
            (val as int) < pow10((j - from) as nat),
        decreases to - j,
    {
        let c = ds[j];
        let d: u128 = ((c as u32) - ('0' as u32)) as u128;
        proof {
            assert(is_dec_digit(ds@[j as int]));
            assert(d as int == dec_digit_val(c));
            assert(ds@.subrange(from as int, j + 1).drop_last() =~= ds@.subrange(
                from as int,
                j as int,
            ));
            assert(ds@.subrange(from as int, j + 1).last() == ds@[j as int]);
            lemma_pow10_unfold((j + 1 - from) as nat);
            assert(pow10((j + 1 - from) as nat) == 10 * pow10((j - from) as nat));
            lemma_pow10_values();
            vstd::arithmetic::power::lemma_pow_increases(10, (j + 1 - from) as nat, 21);
        }
        val = val * 10 + d;
        j += 1;
    }
    proof {
        assert(ds@.subrange(from as int, to as int) =~= ds@.subrange(from as int, j as int));
    }
    val
}

/// Ten to the `e`, executable, for small `e`.
fn pow10_u128(e: usize) -> (r: u128)
    requires
        e <= 21,
    ensures
        r as int == pow10(e as nat),
        r >= 1,
{
    proof {
        lemma_pow10_values();
        vstd::arithmetic::power::lemma_pow0(10);
    }
    let mut r: u128 = 1;
    let mut k: usize = 0;
    while k < e
        invariant
            0 <= k <= e <= 21,
            r as int == pow10(k as nat),
            r >= 1,
        decreases e - k,
    {
        proof {
            lemma_pow10_unfold((k + 1) as nat);
            lemma_pow10_values();
            vstd::arithmetic::power::lemma_pow_increases(10, (k + 1) as nat, 21);
        }
        r = r * 10;
        k += 1;
    }
    r
}

/// Copies the characters of `t` in `[from, to)`.
fn copy_chars(t: &str, from: usize, to: usize, out: &mut Vec<char>)
    requires
        from <= to <= t@.len(),
    ensures
        final(out)@ == old(out)@ + t@.subrange(from as int, to as int),
{
    let mut j: usize = from;
    proof {
        assert(out@ =~= old(out)@ + t@.subrange(from as int, from as int));
    }
    while j < to
        invariant
            from <= j <= to <= t@.len(),
            out@ == old(out)@ + t@.subrange(from as int, j as int),
        decreases to - j,
    {
        out.push(t.get_char(j));
        proof {
            assert(t@.subrange(from as int, j + 1) =~= t@.subrange(from as int, j as int).push(
                t@[j as int],
            ));
            assert(out@ =~= old(out)@ + t@.subrange(from as int, j + 1));
        }
        j += 1;
    }
}

/// Where the parts of a numeric token sit in the text.
struct SciScan {
    neg: bool,
    int_start: usize,
    int_len: usize,
    frac_start: usize,
    frac_len: usize,
    exp_neg: bool,
    exp_start: usize,
    exp_len: usize,
}

impl SciScan {
    /// The scan found the parts that `sci_parse` names, at these
    /// positions.
    spec fn describes(self, t: Seq<char>) -> bool {
        let n = sci_parse(t)->Some_0;
        &&& sci_parse(t) is Some
        &&& self.int_start + self.int_len <= t.len()
        &&& self.frac_start + self.frac_len <= t.len()
        &&& self.exp_start + self.exp_len == t.len()
        &&& n.neg == self.neg
        &&& n.exp_neg == self.exp_neg
        &&& n.fraclen == self.frac_len as nat
        &&& n.mant == t.subrange(self.int_start as int, self.int_start + self.int_len)
            + t.subrange(self.frac_start as int, self.frac_start + self.frac_len)
        &&& n.exp_digits == t.subrange(self.exp_start as int, self.exp_start + self.exp_len)
        &&& forall|k: int|
            self.int_start <= k < self.int_start + self.int_len ==> is_dec_digit(#[trigger] t[k])
        &&& forall|k: int|
            self.frac_start <= k < self.frac_start + self.frac_len ==> is_dec_digit(
                #[trigger] t[k],
            )
        &&& forall|k: int|
            self.exp_start <= k < self.exp_start + self.exp_len ==> is_dec_digit(#[trigger] t[k])
    }
}

/// Finds the sign, mantissa digits, decimal point and exponent of a
/// numeric token.
#[verifier::rlimit(60)]
fn scan_sci(t: &str, len: usize) -> (r: Option<SciScan>)
    requires
        len == t@.len(),
    ensures
        match r {
            Some(sc) => sc.describes(t@),
            None => sci_parse(t@) is None,
        },
{
    let mut i: usize = 0;
    let mut neg = false;
    if i < len {
        let c = t.get_char(i);
        if c == '+' || c == '-' {
            neg = c == '-';
            i = 1;
        }
    }
    let int_start = i;
    let a = digit_run(t, len, i);
    let i1 = i + a;
    let mut frac_start = i1;
    let mut b: usize = 0;
    let mut after_frac = i1;
    if i1 < len && t.get_char(i1) == '.' {
        frac_start = i1 + 1;
        b = digit_run(t, len, frac_start);
        after_frac = frac_start + b;
    }
    if a + b == 0 {
        return None;
    }
    let mut exp_neg = false;
    let mut exp_start = after_frac;
    let mut c_len: usize = 0;
    if after_frac < len {
        let c = t.get_char(after_frac);
        if c == 'e' || c == 'E' {
            exp_start = after_frac + 1;
            if exp_start < len {
                let sc = t.get_char(exp_start);
                if sc == '+' || sc == '-' {
                    exp_neg = sc == '-';
                    exp_start = exp_start + 1;
                }
            }
            c_len = digit_run(t, len, exp_start);
            if c_len == 0 {
                return None;
            }
        }
    }
    if exp_start + c_len != len {
        return None;
    }
    proof {
        lemma_digit_run_digits(t@, int_start as int);
        lemma_digit_run_digits(t@, frac_start as int);
        lemma_digit_run_digits(t@, exp_start as int);
        assert(sci_parse(t@) is Some);
    }
    Some(
        SciScan {
            neg,
            int_start,
            int_len: a,
            frac_start,
            frac_len: b,
            exp_neg,
            exp_start,
            exp_len: c_len,
        },
    )
}

/// The truncated magnitude of a non-negative parsed number, from its
/// mantissa digits and shift, saturating at `u64::MAX`.
#[verifier::rlimit(60)]
fn magnitude_u64(digits: &Vec<char>, z: usize, shift: i128, Ghost(n): Ghost<SciNumber>) -> (r: u64)
    requires
        digits@ == n.mant,
        forall|k: int| 0 <= k < digits@.len() ==> is_dec_digit(#[trigger] digits@[k]),
        forall|k: int| 0 <= k < z ==> digits@[k] == '0',
        z < digits@.len(),
        digits@[z as int] != '0',
        shift as int == sci_shift(n),
        -0x10000000000000000000000000i128 <= shift <= 0x10000000000000000000000000i128,
    ensures
        r as int == if sci_magnitude(n) > u64::MAX {
            u64::MAX as int
        } else {
            sci_magnitude(n)
        },
{
    let ghost sig = digits@.skip(z as int);
    let d_sig = digits.len() - z;
    proof {
        lemma_digits_val_strip_zeros(digits@, z as int);
        lemma_pow10_values();
        assert(forall|k: int| 0 <= k < sig.len() ==> is_dec_digit(#[trigger] sig[k]));
        assert(sig[0] == digits@[z as int]);
    }
    if (d_sig as i128) + shift > 20 {
        proof {
            lemma_magnitude_over(n, sig);
        }
        return u64::MAX;
    }
    if (d_sig as i128) + shift <= 0 {
        proof {
            lemma_magnitude_under(n, sig);
        }
        return 0;
    }
    let k_total: usize = ((d_sig as i128) + shift) as usize;
    proof {
        lemma_pow10_values();
    }
    if shift >= 0 {
        // All significant digits contribute; the shift appends zeros.
        let mant_val = digits_value_u128(&digits, z, digits.len());
        proof {
            assert(digits@.subrange(z as int, digits@.len() as int) =~= sig);
        }
        let mul = pow10_u128(shift as usize);
        proof {
            vstd::arithmetic::power::lemma_pow_positive(10, shift as nat);
            lemma_mul_inequality(mant_val as int, pow10(sig.len()) - 1, pow10(shift as nat));
            assert((pow10(sig.len()) - 1) * pow10(shift as nat) == pow10(sig.len()) * pow10(
                shift as nat,
            ) - pow10(shift as nat)) by (nonlinear_arith);
            vstd::arithmetic::power::lemma_pow_adds(10, sig.len(), shift as nat);
            vstd::arithmetic::power::lemma_pow_increases(10, (sig.len() + shift) as nat, 21);
            assert(mant_val as int * mul as int <= pow10(21));
            assert(sci_magnitude(n) == mant_val as int * mul as int);
        }
        let v: u128 = mant_val * mul;
        if v > u64::MAX as u128 {
            u64::MAX
        } else {
            v as u64
        }
    } else {
        // Truncate: only the leading digits up to the shifted decimal
        // point survive.
        proof {
            lemma_digits_val_div(sig, (-shift) as int);
            assert(digits@.subrange(z as int, z + k_total) =~= sig.take(k_total as int));
        }
        let v: u128 = digits_value_u128(&digits, z, z + k_total);
        proof {
            assert(sci_magnitude(n) == v as int);
        }
        if v > u64::MAX as u128 {
            u64::MAX
        } else {
            v as u64
        }
    }
}

/// Parses one numeric token the way the metrics reader does, truncating
/// to `u64`: negative values clamp to 0, values over `u64::MAX` clamp to
/// `u64::MAX`; `None` when the token is not a number.
#[verifier::rlimit(60)]
pub fn parse_sci_u64(t: &str) -> (r: Option<u64>)
    ensures
        r == sci_value_u64(t@),
{
    let len = t.unicode_len();
    let sc = match scan_sci(t, len) {
        Some(sc) => sc,
        None => {
            return None;
        },
    };
    let ghost n = sci_parse(t@)->Some_0;
    // The mantissa digits, decimal point removed.
    let mut digits: Vec<char> = Vec::new();
    copy_chars(t, sc.int_start, sc.int_start + sc.int_len, &mut digits);
    copy_chars(t, sc.frac_start, sc.frac_start + sc.frac_len, &mut digits);
    proof {
        assert(Seq::<char>::empty() + t@.subrange(
            sc.int_start as int,
            sc.int_start + sc.int_len,
        ) =~= t@.subrange(sc.int_start as int, sc.int_start + sc.int_len));
        assert(digits@ == n.mant);
        assert(forall|k: int| 0 <= k < digits@.len() ==> is_dec_digit(#[trigger] digits@[k]));
    }
    // Strip the mantissa's leading zeros.
    let mut z: usize = 0;
    while z < digits.len() && digits[z] == '0'
        invariant
            0 <= z <= digits@.len(),
            forall|k: int| 0 <= k < z ==> digits@[k] == '0',
        decreases digits@.len() - z,
    {
        z += 1;
    }
    if z == digits.len() {
        proof {
            lemma_digits_val_strip_zeros(digits@, z as int);
            assert(digits@.skip(z as int) =~= Seq::<char>::empty());
            assert(digits_val(n.mant) == 0);
            if !n.neg {
                if sci_shift(n) >= 0 {
                    assert(0int * pow10(sci_shift(n) as nat) == 0) by (nonlinear_arith);
                } else {
                    vstd::arithmetic::power::lemma_pow_positive(10, (-sci_shift(n)) as nat);
                    vstd::arithmetic::div_mod::lemma_div_of0(pow10((-sci_shift(n)) as nat));
                }
                assert(sci_magnitude(n) == 0);
            }
        }
        return Some(0);
    }
    if sc.neg {
        return Some(0);
    }
    // Strip the exponent's leading zeros and read its value.
    let exp_end = sc.exp_start + sc.exp_len;
    let mut ez: usize = sc.exp_start;
    while ez < exp_end && t.get_char(ez) == '0'
        invariant
            len == t@.len(),
            exp_end == sc.exp_start + sc.exp_len,
            exp_end <= len,
            sc.exp_start <= ez <= exp_end,
            forall|k: int| sc.exp_start <= k < ez ==> t@[k] == '0',
            forall|k: int| sc.exp_start <= k < exp_end ==> is_dec_digit(#[trigger] t@[k]),
        decreases exp_end - ez,
    {
        ez += 1;
    }
    let ghost e_val = digits_val(n.exp_digits) as int;
    let ghost sig = digits@.skip(z as int);
    proof {
        assert(n.exp_digits.skip(ez - sc.exp_start) =~= t@.subrange(ez as int, exp_end as int));
        assert(forall|k: int| 0 <= k < (ez - sc.exp_start) ==> n.exp_digits[k] == '0');
        lemma_digits_val_strip_zeros(n.exp_digits, ez - sc.exp_start);
        lemma_digits_val_strip_zeros(digits@, z as int);
        lemma_pow10_values();
        assert(forall|k: int| 0 <= k < sig.len() ==> is_dec_digit(#[trigger] sig[k]));
        assert(sig[0] == digits@[z as int]);
        assert(sig[0] != '0');
    }
    let e_sig_len = exp_end - ez;
    if e_sig_len > 20 {
        // The exponent is at least ten to the twentieth: far beyond any
        // shift a stored byte count could call for.
        proof {
            let esig = t@.subrange(ez as int, exp_end as int);
            assert(esig[0] == t@[ez as int]);
            assert(esig[0] != '0');
            assert(forall|k: int| 0 <= k < esig.len() ==> is_dec_digit(#[trigger] esig[k]));
            lemma_digits_val_lower(esig);
            vstd::arithmetic::power::lemma_pow_increases(10, 20, (esig.len() - 1) as nat);
            lemma_pow10_values();
            assert(e_val >= pow10(20));
            if sc.exp_neg {
                assert(sig.len() + sci_shift(n) <= 0);
                lemma_magnitude_under(n, sig);
            } else {
                assert(sig.len() + sci_shift(n) > 20);
                lemma_magnitude_over(n, sig);
            }
        }
        if sc.exp_neg {
            return Some(0);
        } else {
            return Some(u64::MAX);
        }
    }
    let mut exp_digits: Vec<char> = Vec::new();
    copy_chars(t, ez, exp_end, &mut exp_digits);
    proof {
        assert(Seq::<char>::empty() + t@.subrange(ez as int, exp_end as int) =~= t@.subrange(
            ez as int,
            exp_end as int,
        ));
        assert(exp_digits@ == t@.subrange(ez as int, exp_end as int));
    }
    let e_exact: u128 = digits_value_u128(&exp_digits, 0, exp_digits.len());
    proof {
        assert(exp_digits@.subrange(0, exp_digits@.len() as int) =~= exp_digits@);
        assert(e_exact as int == e_val);
        lemma_pow10_values();
        vstd::arithmetic::power::lemma_pow_increases(10, e_sig_len as nat, 20);
        assert(e_exact as int <= pow10(20));
    }
    let shift: i128 = if sc.exp_neg {
        -(e_exact as i128) - (sc.frac_len as i128)
    } else {
        (e_exact as i128) - (sc.frac_len as i128)
    };
    proof {
        assert(shift as int == sci_shift(n));
    }
    let m = magnitude_u64(&digits, z, shift, Ghost(n));
    Some(m)
}

/// The position of the first newline character of `s` at or after `i`.
pub open spec fn first_nl_chars(s: Seq<char>, i: int) -> Option<int>
    decreases s.len() - i,
{
    if i < 0 || i >= s.len() {
        None
    } else if s[i] == '\n' {
        Some(i)
    } else {
        first_nl_chars(s, i + 1)
    }
}

pub proof fn lemma_first_nl_bounds(s: Seq<char>, i: int)
    requires
        first_nl_chars(s, i) is Some,
    ensures
        i <= first_nl_chars(s, i)->Some_0 < s.len(),
        s[first_nl_chars(s, i)->Some_0] == '\n',
    decreases s.len() - i,
{
    if !(i < 0 || i >= s.len()) && s[i] != '\n' {
        lemma_first_nl_bounds(s, i + 1);
    }
}

/// A line as text readers yield it: the trailing carriage return of a
/// `\r\n` ending is stripped.
pub open spec fn trim_cr_chars(l: Seq<char>) -> Seq<char> {
    if l.len() > 0 && l[l.len() - 1] == '\r' {
        l.drop_last()
    } else {
        l
    }
}

/// The first line of `s` at or after `i` that begins with `name`.
pub open spec fn metric_line_from(s: Seq<char>, i: int, name: Seq<char>) -> Option<Seq<char>>
    decreases s.len() + 1 - i,
{
    if i < 0 || i >= s.len() {
        None
    } else {
        let end = match first_nl_chars(s, i) {
            Some(k) => k,
            None => s.len() as int,
        };
        proof {
            if first_nl_chars(s, i) is Some {
                lemma_first_nl_bounds(s, i);
            }
        }
        let line = trim_cr_chars(s.subrange(i, end));
        if crate::text::spec_starts_with(line, name) {
            Some(line)
        } else {
            metric_line_from(s, end + 1, name)
        }
    }
}

/// Whitespace as a metric line separates its fields.
pub open spec fn is_ws_char(c: char) -> bool {
    c == ' ' || c == '\t'
}

/// The length of the whitespace run of `l` starting at `i`.
pub open spec fn ws_run_len(l: Seq<char>, i: int) -> nat
    decreases l.len() - i,
{
    if i < 0 || i >= l.len() || !is_ws_char(l[i]) {
        0
    } else {
        1 + ws_run_len(l, i + 1)
    }
}

/// The length of the non-whitespace run of `l` starting at `i`.
pub open spec fn nonws_run_len(l: Seq<char>, i: int) -> nat
    decreases l.len() - i,
{
    if i < 0 || i >= l.len() || is_ws_char(l[i]) {
        0
    } else {
        1 + nonws_run_len(l, i + 1)
    }
}

/// The second whitespace-separated field of a line, or `"0"` when the
/// line has fewer than two fields.
pub open spec fn second_token(l: Seq<char>) -> Seq<char> {
    let a0 = ws_run_len(l, 0) as int;
    let a1 = a0 + nonws_run_len(l, a0) as int;
    let b0 = a1 + ws_run_len(l, a1) as int;
    let b1 = b0 + nonws_run_len(l, b0) as int;
    if b0 < l.len() {
        l.subrange(b0, b1)
    } else {
        "0"@
    }
}

/// What the metrics reader yields for one metric: 0 when no line starts
/// with the metric's name, else the second field of the first such line
/// read as a number; `None` when that field is not a number.
pub open spec fn spec_parse_number_from_metrics(metrics: Seq<char>, name: Seq<char>) -> Option<
    u64,
> {
    match metric_line_from(metrics, 0, name) {
        None => Some(0u64),
        Some(line) => sci_value_u64(second_token(line)),
    }
}

/// The first newline at or after `i`, by linear scan.
fn find_nl(t: &str, len: usize, i: usize) -> (r: Option<usize>)
    requires
        len == t@.len(),
        i <= len,
    ensures
        match r {
            Some(k) => first_nl_chars(t@, i as int) == Some(k as int) && i <= k < len,
            None => first_nl_chars(t@, i as int) is None,
        },
{
    let mut j: usize = i;
    while j < len
        invariant
            len == t@.len(),
            i <= j <= len,
            first_nl_chars(t@, i as int) == first_nl_chars(t@, j as int),
        decreases len - j,
    {
        if t.get_char(j) == '\n' {
            proof {
                lemma_first_nl_bounds(t@, i as int);
            }
            return Some(j);
        }
        j += 1;
    }
    None
}

/// The whitespace run of `l` starting at `i`, by linear scan.
fn ws_run(l: &str, len: usize, i: usize) -> (r: usize)
    requires
        len == l@.len(),
        i <= len,
    ensures
        r as nat == ws_run_len(l@, i as int),
        i + r <= len,
{
    let mut j: usize = i;
    loop
        invariant
            len == l@.len(),
            i <= j <= len,
            ws_run_len(l@, i as int) == (j - i) + ws_run_len(l@, j as int),
        ensures
            i <= j <= len,
            ws_run_len(l@, j as int) == 0,
            ws_run_len(l@, i as int) == j - i,
        decreases len - j,
    {
        if j >= len {
            break ;
        }
        let c = l.get_char(j);
        if !(c == ' ' || c == '\t') {
            break ;
        }
        j += 1;
    }
    j - i
}

/// The non-whitespace run of `l` starting at `i`, by linear scan.
fn nonws_run(l: &str, len: usize, i: usize) -> (r: usize)
    requires
        len == l@.len(),
        i <= len,
    ensures
        r as nat == nonws_run_len(l@, i as int),
        i + r <= len,
{
    let mut j: usize = i;
    loop
        invariant
            len == l@.len(),
            i <= j <= len,
            nonws_run_len(l@, i as int) == (j - i) + nonws_run_len(l@, j as int),
        ensures
            i <= j <= len,
            nonws_run_len(l@, j as int) == 0,
            nonws_run_len(l@, i as int) == j - i,
        decreases len - j,
    {
        if j >= len {
            break ;
        }
        let c = l.get_char(j);
        if c == ' ' || c == '\t' {
            break ;
        }
        j += 1;
    }
    j - i
}

/// Reads the second field of a found metric line as a number.
fn parse_metric_line(line: &str) -> (r: Option<u64>)
    ensures
        r == sci_value_u64(second_token(line@)),
{
    let len = line.unicode_len();
    let a0 = ws_run(line, len, 0);
    let a1 = a0 + nonws_run(line, len, a0);
    let b0 = a1 + ws_run(line, len, a1);
    let b1 = b0 + nonws_run(line, len, b0);
    if b0 < len {
        let tok = line.substring_char(b0, b1);
        parse_sci_u64(tok)
    } else {
        parse_sci_u64("0")
    }
}

/// Scans a Prometheus metrics exposition for the first line that starts
/// with `metric_name` and reads its second field as a number, truncated
/// to `u64`: 0 when no such line exists, `None` when the field is not a
/// number.
pub fn try_parse_number_from_metrics(metrics: &str, metric_name: &str) -> (r: Option<u64>)
    ensures
        r == spec_parse_number_from_metrics(metrics@, metric_name@),
{
    let len = metrics.unicode_len();
    let mut i: usize = 0;
    while i < len
        invariant
            len == metrics@.len(),
            0 <= i <= len,
            metric_line_from(metrics@, 0, metric_name@) == metric_line_from(
                metrics@,
                i as int,
                metric_name@,
            ),
        decreases len - i,
    {
        let end = match find_nl(metrics, len, i) {
            Some(k) => k,
            None => len,
        };
        let mut line_end = end;
        if end > i && metrics.get_char(end - 1) == '\r' {
            line_end = end - 1;
        }
        let line = metrics.substring_char(i, line_end);
        proof {
            if end > i && metrics@[end - 1] == '\r' {
                assert(metrics@.subrange(i as int, end as int).drop_last() =~= metrics@.subrange(
                    i as int,
                    line_end as int,
                ));
            }
            assert(line@ =~= trim_cr_chars(metrics@.subrange(i as int, end as int)));
        }
        if crate::text::str_starts_with(line, metric_name) {
            proof {
                assert(metric_line_from(metrics@, i as int, metric_name@) == Some(line@));
            }
            return parse_metric_line(line);
        }
        proof {
            assert(metric_line_from(metrics@, i as int, metric_name@) == metric_line_from(
                metrics@,
                end + 1,
                metric_name@,
            ));
        }
        if end >= len {
            proof {
                assert(metric_line_from(metrics@, end + 1, metric_name@) is None);
                assert(metric_line_from(metrics@, len as int, metric_name@) is None);
            }
            i = len;
        } else {
            i = end + 1;
        }
    }
    proof {
        assert(metric_line_from(metrics@, i as int, metric_name@) is None);
    }
    Some(0)
}

/// As `try_parse_number_from_metrics`, for callers that have already
/// ruled a malformed field out.
pub fn parse_number_from_metrics(metrics: &str, metric_name: &str) -> (r: u64)
    requires
        spec_parse_number_from_metrics(metrics@, metric_name@) is Some,
    ensures
        Some(r) == spec_parse_number_from_metrics(metrics@, metric_name@),
{
    match try_parse_number_from_metrics(metrics, metric_name) {
        Some(v) => v,
        None => vstd::pervasive::unreached(),
    }
}

} // verus!
