//! The precision-limited rendering of real tokens.
//!
//! The writer's default mode reprints every token verbatim.  This module
//! is the other mode: a caller-chosen width and precision applied
//! uniformly to every real number of the document.  A token is read as
//! the exact decimal it denotes and rounded to the asked precision (ties
//! away from zero), so the rendering is defined on the text itself; a
//! magnitude beyond what any binary double could hold prints as an
//! infinity, matching what evaluation would saturate to.

use vstd::prelude::*;
use vstd::string::StrSliceExecFns;
use vstd::string::StringExecFns;

use crate::num::{
    lemma_skip_digits, sp_exp_ok, sp_kw_inf, sp_number_ok, sp_real_accept, sp_skip_digits,
    sp_strip_sign,
};
use crate::parse::{
    sp_all_digits, sp_digits_val, spec_digit_char, spec_digit_val, spec_is_digit,
};

verus! {

/// The largest number of integer digits a rendering will spell out;
/// beyond it the value is outside every binary double and prints as an
/// infinity.
pub const MAX_POINT: u64 = 320;

/// A sequence of `n` zero digits.
pub open spec fn sp_zeros(n: int) -> Seq<char> {
    Seq::new(if n >= 0 { n as nat } else { 0 }, |i: int| '0')
}

/// A digit sequence incremented by one, with carry; all nines grow one
/// digit longer.
pub open spec fn sp_inc(s: Seq<char>) -> Seq<char>
    decreases s.len(),
{
    if s.len() == 0 {
        seq!['1']
    } else if s.last() == '9' {
        sp_inc(s.drop_last()).push('0')
    } else {
        s.drop_last().push(spec_digit_char(spec_digit_val(s.last()) + 1))
    }
}

/// The first `k` digit positions of `digits` (zero-padded on the right
/// past its end), rounded by the next digit, half away from zero.
pub open spec fn sp_round_digits(digits: Seq<char>, k: int) -> Seq<char> {
    let base: Seq<char> = if k <= 0 {
        Seq::empty()
    } else if k <= digits.len() {
        digits.subrange(0, k)
    } else {
        digits + sp_zeros(k - digits.len())
    };
    let up = 0 <= k < digits.len() && spec_digit_val(digits[k]) >= 5;
    if up {
        sp_inc(base)
    } else {
        base
    }
}

/// The signed value of the exponent part beginning at `pos` (zero when
/// there is none).
pub open spec fn sp_exp_val(t: Seq<char>, pos: int) -> int {
    if pos >= t.len() {
        0
    } else {
        let q = if pos + 1 < t.len() && (t[pos + 1] == '+' || t[pos + 1] == '-') {
            pos + 2
        } else {
            pos + 1
        };
        let mag = sp_digits_val(t.subrange(q, t.len() as int));
        if pos + 1 < t.len() && t[pos + 1] == '-' {
            -mag
        } else {
            mag
        }
    }
}

/// The digit string and decimal-point position of an unsigned number
/// token: the token denotes `0.D * 10^point`, where `D` is the digit
/// string.
pub open spec fn sp_mantissa(t: Seq<char>) -> Seq<char> {
    let d1 = sp_skip_digits(t, 0);
    if d1 < t.len() && t[d1] == '.' {
        t.subrange(0, d1) + t.subrange(d1 + 1, sp_skip_digits(t, d1 + 1))
    } else {
        t.subrange(0, d1)
    }
}

/// Where the exponent part of an unsigned number token begins.
pub open spec fn sp_exp_pos(t: Seq<char>) -> int {
    let d1 = sp_skip_digits(t, 0);
    if d1 < t.len() && t[d1] == '.' {
        sp_skip_digits(t, d1 + 1)
    } else {
        d1
    }
}

/// The decimal-point position of an unsigned number token.
pub open spec fn sp_point(t: Seq<char>) -> int {
    sp_skip_digits(t, 0) + sp_exp_val(t, sp_exp_pos(t))
}

/// The assembled rendering: the rounded digit string split into integer
/// part and `p` fraction places, with the sign in front.
pub open spec fn sp_assemble(digits: Seq<char>, p: int, neg: bool) -> Seq<char> {
    let l = digits.len() as int;
    let frac = if l >= p {
        digits.subrange(l - p, l)
    } else {
        sp_zeros(p - l) + digits
    };
    let intp = if l > p {
        digits.subrange(0, l - p)
    } else {
        seq!['0']
    };
    let core = if p > 0 {
        intp + seq!['.'] + frac
    } else {
        intp
    };
    if neg {
        seq!['-'] + core
    } else {
        core
    }
}

/// A signed infinity keyword.
pub open spec fn sp_signed_inf(neg: bool) -> Seq<char> {
    if neg {
        seq!['-'] + sp_kw_inf()
    } else {
        sp_kw_inf()
    }
}

/// The rendering of an accepted token at precision `p`: the sign is
/// kept, a NaN or infinity keyword stands as written.
pub open spec fn sp_fixed_token(s: Seq<char>, p: int) -> Seq<char> {
    let t = sp_strip_sign(s);
    let neg = s.len() > 0 && s[0] == '-';
    if !sp_number_ok(t) {
        s
    } else {
        let point = sp_point(t);
        if point > MAX_POINT {
            sp_signed_inf(neg)
        } else {
            sp_assemble(sp_round_digits(sp_mantissa(t), point + p), p, neg)
        }
    }
}

/// Space padding on the left up to `w` characters.
pub open spec fn sp_pad_left(s: Seq<char>, w: int) -> Seq<char> {
    Seq::new(if w > s.len() { (w - s.len()) as nat } else { 0 }, |i: int| ' ') + s
}

/// The rendering of an accepted token at width `w` and precision `p`.
pub open spec fn sp_fixed(s: Seq<char>, w: int, p: int) -> Seq<char> {
    sp_pad_left(sp_fixed_token(s, p), w)
}

// ---------------------------------------------------------------------------
// Digit vectors: the executable side carries digit values, the ghost
// side their characters.

/// The characters of a vector of digit values.
pub open spec fn sp_chars_of(v: Seq<u64>) -> Seq<char> {
    v.map_values(|d: u64| spec_digit_char(d as int))
}

/// A digit character and its value translate back and forth.
proof fn lemma_digit_char_val(c: char)
    requires
        spec_is_digit(c),
    ensures
        0 <= spec_digit_val(c) <= 9,
        spec_digit_char(spec_digit_val(c)) == c,
{
}

/// The increment of a digit string whose last `len - j` digits are nines.
proof fn lemma_inc_char(s: Seq<char>, j: int)
    requires
        0 <= j <= s.len(),
        forall|k: int| j <= k < s.len() ==> s[k] == '9',
        j > 0 ==> s[j - 1] != '9',
    ensures
        sp_inc(s) =~= if j == 0 {
            seq!['1'] + sp_zeros(s.len() as int)
        } else {
            s.subrange(0, j - 1) + seq![spec_digit_char(spec_digit_val(s[j - 1]) + 1)] + sp_zeros(
                s.len() - j,
            )
        },
    decreases s.len(),
{
    if s.len() == 0 {
        assert(sp_inc(s) == seq!['1']);
        assert(seq!['1'] + sp_zeros(0) =~= seq!['1']);
    } else if j == s.len() {
        assert(s.last() != '9');
        assert(sp_inc(s) == s.drop_last().push(spec_digit_char(spec_digit_val(s.last()) + 1)));
        assert(s.drop_last() =~= s.subrange(0, j - 1));
        assert(sp_zeros(0) =~= Seq::<char>::empty());
    } else {
        assert(s.last() == '9');
        lemma_inc_char(s.drop_last(), j);
        assert(sp_inc(s) == sp_inc(s.drop_last()).push('0'));
        if j == 0 {
            assert((seq!['1'] + sp_zeros(s.len() - 1)).push('0') =~= seq!['1'] + sp_zeros(
                s.len() as int,
            ));
        } else {
            assert(s.drop_last().subrange(0, j - 1) =~= s.subrange(0, j - 1));
            assert((s.subrange(0, j - 1) + seq![
                spec_digit_char(spec_digit_val(s[j - 1]) + 1),
            ] + sp_zeros(s.len() - 1 - j)).push('0') =~= s.subrange(0, j - 1) + seq![
                spec_digit_char(spec_digit_val(s[j - 1]) + 1),
            ] + sp_zeros(s.len() - j));
        }
    }
}

/// Whether every entry is a digit value.
pub open spec fn sp_digit_vals(v: Seq<u64>) -> bool {
    forall|i: int| 0 <= i < v.len() ==> #[trigger] v[i] <= 9
}

/// Increments a digit vector by one, with carry.
fn inc_digits(d: &Vec<u64>) -> (r: Vec<u64>)
    requires
        sp_digit_vals(d@),
    ensures
        sp_digit_vals(r@),
        sp_chars_of(r@) == sp_inc(sp_chars_of(d@)),
{
    let ghost s = sp_chars_of(d@);
    // Find where the run of trailing nines begins.
    let mut j: usize = d.len();
    while j > 0 && d[j - 1] == 9
        invariant
            0 <= j <= d@.len(),
            forall|k: int| j <= k < d@.len() ==> #[trigger] d@[k] == 9,
        decreases j,
    {
        j = j - 1;
    }
    proof {
        assert(s.len() == d@.len());
        assert forall|k: int| j <= k < s.len() implies s[k] == '9' by {
            assert(d@[k] == 9);
            assert(s[k] == spec_digit_char(9));
        }
        if j > 0 {
            assert(d@[j - 1] != 9);
            assert(s[j - 1] == spec_digit_char(d@[j - 1] as int));
            assert(s[j - 1] != '9') by {
                if s[j - 1] == '9' {
                    assert(spec_digit_char(d@[j - 1] as int) == '9');
                    assert(d@[j - 1] == 9);
                }
            }
        }
        lemma_inc_char(s, j as int);
    }
    let mut out: Vec<u64> = Vec::new();
    if j == 0 {
        out.push(1);
    } else {
        let mut i: usize = 0;
        while i < j - 1
            invariant
                0 < j <= d@.len(),
                0 <= i <= j - 1,
                out@ == d@.subrange(0, i as int),
            decreases j - i,
        {
            out.push(d[i]);
            proof {
                assert(out@ =~= d@.subrange(0, i + 1));
            }
            i = i + 1;
        }
        out.push(d[j - 1] + 1);
    }
    let zeros_needed = d.len() - j;
    let mut z: usize = 0;
    let ghost mid = out@;
    while z < zeros_needed
        invariant
            0 <= z <= zeros_needed,
            out@ == mid + Seq::new(z as nat, |i: int| 0u64),
        decreases zeros_needed - z,
    {
        out.push(0);
        proof {
            assert(out@ =~= mid + Seq::new((z + 1) as nat, |i: int| 0u64));
        }
        z = z + 1;
    }
    proof {
        assert(sp_chars_of(out@) =~= sp_inc(s)) by {
            assert forall|k: int| 0 <= k < out@.len() implies sp_chars_of(out@)[k] == sp_inc(
                s,
            )[k] by {
                assert(sp_chars_of(out@)[k] == spec_digit_char(out@[k] as int));
                if j == 0 {
                    if k > 0 {
                        assert(out@[k] == 0);
                        assert(sp_zeros(s.len() as int)[k - 1] == '0');
                    }
                } else {
                    if k < j - 1 {
                        assert(out@[k] == d@[k]);
                        assert(s[k] == spec_digit_char(d@[k] as int));
                        assert(spec_digit_val(s[k]) == d@[k]);
                    } else if k == j - 1 {
                        assert(out@[k] == d@[j - 1] + 1);
                        assert(spec_digit_val(s[j - 1]) == d@[j - 1]);
                    } else {
                        assert(out@[k] == 0);
                        assert(sp_zeros(s.len() - j)[k - j] == '0');
                    }
                }
            }
        }
        assert(sp_digit_vals(out@)) by {
            assert forall|k: int| 0 <= k < out@.len() implies #[trigger] out@[k] <= 9 by {
                if j > 0 && k < j - 1 {
                    assert(out@[k] == d@[k]);
                }
            }
        }
    }
    out
}

// ---------------------------------------------------------------------------
// Rendering one token.

/// The digit characters of a slice of a digit vector, as a string.
fn digits_string(v: &Vec<u64>, from: usize, to: usize) -> (r: String)
    requires
        from <= to <= v@.len(),
        sp_digit_vals(v@),
    ensures
        r@ == sp_chars_of(v@.subrange(from as int, to as int)),
{
    let mut out = "".to_owned();
    proof {
        reveal_strlit("");
        assert(out@ =~= sp_chars_of(v@.subrange(from as int, from as int)));
    }
    let mut i: usize = from;
    while i < to
        invariant
            from <= i <= to <= v@.len(),
            sp_digit_vals(v@),
            out@ == sp_chars_of(v@.subrange(from as int, i as int)),
        decreases to - i,
    {
        out.append(crate::parse::digit_str(v[i]));
        proof {
            assert(sp_chars_of(v@.subrange(from as int, i + 1)) =~= sp_chars_of(
                v@.subrange(from as int, i as int),
            ).push(spec_digit_char(v@[i as int] as int)));
        }
        i = i + 1;
    }
    out
}

/// A run of `n` zero digits, as a string.
fn zeros_string(n: usize) -> (r: String)
    ensures
        r@ == sp_zeros(n as int),
{
    let mut out = "".to_owned();
    proof {
        reveal_strlit("");
        reveal_strlit("0");
        assert(out@ =~= sp_zeros(0));
        assert("0"@ =~= seq!['0']);
    }
    let mut i: usize = 0;
    while i < n
        invariant
            0 <= i <= n,
            out@ == sp_zeros(i as int),
        decreases n - i,
    {
        out.append("0");
        proof {
            reveal_strlit("0");
            assert(out@ =~= sp_zeros(i + 1));
        }
        i = i + 1;
    }
    out
}

/// The mantissa digits and the exponent-part position of an unsigned
/// number token.
fn read_mantissa(t: &str) -> (r: (Vec<u64>, usize))
    requires
        sp_number_ok(t@),
    ensures
        sp_digit_vals(r.0@),
        sp_chars_of(r.0@) == sp_mantissa(t@),
        r.1 == sp_exp_pos(t@),
        r.0@.len() <= t@.len(),
{
    let tn = t.unicode_len();
    let d1 = crate::num::skip_digits(t, 0);
    let mut digits: Vec<u64> = Vec::new();
    let mut i: usize = 0;
    while i < d1
        invariant
            d1 == sp_skip_digits(t@, 0),
            0 <= i <= d1 <= t@.len(),
            sp_digit_vals(digits@),
            sp_chars_of(digits@) == t@.subrange(0, i as int),
        decreases d1 - i,
    {
        proof {
            lemma_skip_digits(t@, 0);
            lemma_digit_char_val(t@[i as int]);
        }
        let c = t.get_char(i);
        let v = (c as u32 - '0' as u32) as u64;
        let ghost prev = digits@;
        digits.push(v);
        proof {
            assert(digits@ =~= prev.push(v));
            assert(v as int == spec_digit_val(t@[i as int]));
            assert(spec_digit_char(v as int) == t@[i as int]);
            assert(sp_chars_of(digits@) =~= sp_chars_of(prev).push(spec_digit_char(v as int)));
            assert(sp_chars_of(digits@) =~= t@.subrange(0, i + 1));
        }
        i = i + 1;
    }
    if d1 < tn && t.get_char(d1) == '.' {
        let d2 = crate::num::skip_digits(t, d1 + 1);
        let mut i: usize = d1 + 1;
        proof {
            assert(t@.subrange(0, d1 as int) + t@.subrange(d1 + 1, d1 + 1) =~= t@.subrange(
                0,
                d1 as int,
            ));
        }
        while i < d2
            invariant
                d1 == sp_skip_digits(t@, 0),
                d2 == sp_skip_digits(t@, d1 + 1),
                d1 < t@.len(),
                d1 + 1 <= i <= d2 <= t@.len(),
                sp_digit_vals(digits@),
                sp_chars_of(digits@) == t@.subrange(0, d1 as int) + t@.subrange(
                    d1 + 1,
                    i as int,
                ),
            decreases d2 - i,
        {
            proof {
                lemma_skip_digits(t@, d1 + 1);
                lemma_digit_char_val(t@[i as int]);
            }
            let c = t.get_char(i);
            let v = (c as u32 - '0' as u32) as u64;
            let ghost prev = digits@;
            digits.push(v);
            proof {
                assert(digits@ =~= prev.push(v));
                assert(v as int == spec_digit_val(t@[i as int]));
                assert(spec_digit_char(v as int) == t@[i as int]);
                assert(sp_chars_of(digits@) =~= sp_chars_of(prev).push(
                    spec_digit_char(v as int),
                ));
                assert(sp_chars_of(digits@) =~= t@.subrange(0, d1 as int) + t@.subrange(
                    d1 + 1,
                    i + 1,
                ));
            }
            i = i + 1;
        }
        (digits, d2)
    } else {
        (digits, d1)
    }
}

/// The exponent sign and magnitude, the magnitude accumulated with
/// saturation one past `bound`.
fn read_exp_sat(t: &str, pos: usize, bound: u128) -> (r: (bool, u128))
    requires
        sp_number_ok(t@),
        pos == sp_exp_pos(t@),
        pos <= t@.len(),
        bound < 0x10_0000_0000_0000_0000u128,
    ensures
        ({
            let e = sp_exp_val(t@, pos as int);
            &&& (r.1 <= bound ==> e == if r.0 {
                -(r.1 as int)
            } else {
                r.1 as int
            })
            &&& (r.1 > bound ==> r.1 == bound + 1 && (if r.0 {
                e < -(bound as int)
            } else {
                e > bound as int
            }))
        }),
{
    let tn = t.unicode_len();
    if pos == tn {
        return (false, 0);
    }
    proof {
        assert(sp_exp_ok(t@, pos as int));
    }
    let mut eneg = false;
    let q: usize = if pos + 1 < tn {
        let c1 = t.get_char(pos + 1);
        if c1 == '+' || c1 == '-' {
            eneg = c1 == '-';
            pos + 2
        } else {
            pos + 1
        }
    } else {
        pos + 1
    };
    proof {
        assert(q < tn && sp_skip_digits(t@, q as int) == t@.len());
        lemma_skip_digits(t@, q as int);
    }
    let mut acc: u128 = 0;
    let mut i: usize = q;
    while i < tn
        invariant
            q <= i <= tn,
            tn == t@.len(),
            bound < 0x10_0000_0000_0000_0000u128,
            forall|k: int| q <= k < tn ==> spec_is_digit(#[trigger] t@[k]),
            acc <= bound + 1,
            acc <= bound ==> acc == sp_digits_val(t@.subrange(q as int, i as int)),
            acc == bound + 1 ==> sp_digits_val(t@.subrange(q as int, i as int)) > bound,
        decreases tn - i,
    {
        proof {
            lemma_digit_char_val(t@[i as int]);
            let pfx = t@.subrange(q as int, i as int);
            let pfx1 = t@.subrange(q as int, i + 1);
            assert(pfx1.drop_last() =~= pfx);
            assert(pfx1.last() == t@[i as int]);
            assert(sp_all_digits(pfx));
            crate::parse::lemma_digits_val_nonneg(pfx);
        }
        let c = t.get_char(i);
        let dv = (c as u32 - '0' as u32) as u128;
        if acc > bound {
            acc = bound + 1;
        } else {
            let next = acc * 10 + dv;
            acc = if next > bound {
                bound + 1
            } else {
                next
            };
        }
        i = i + 1;
    }
    proof {
        assert(t@.subrange(q as int, tn as int).len() == tn - q);
    }
    (eneg, acc)
}

/// The first `min(k, len)` digits, copied.
fn take_digits(v: &Vec<u64>, k: usize) -> (r: Vec<u64>)
    requires
        k <= v@.len(),
        sp_digit_vals(v@),
    ensures
        sp_digit_vals(r@),
        r@ == v@.subrange(0, k as int),
{
    let mut b: Vec<u64> = Vec::new();
    let mut i: usize = 0;
    while i < k
        invariant
            0 <= i <= k <= v@.len(),
            sp_digit_vals(v@),
            b@ == v@.subrange(0, i as int),
        decreases k - i,
    {
        b.push(v[i]);
        proof {
            assert(b@ =~= v@.subrange(0, i + 1));
        }
        i = i + 1;
    }
    b
}

/// `extra` zero digits appended.
fn pad_digits(v: Vec<u64>, extra: usize) -> (r: Vec<u64>)
    requires
        sp_digit_vals(v@),
    ensures
        sp_digit_vals(r@),
        r@.len() == v@.len() + extra,
        sp_chars_of(r@) == sp_chars_of(v@) + sp_zeros(extra as int),
{
    let mut b = v;
    let ghost mid = b@;
    let mut z: usize = 0;
    while z < extra
        invariant
            0 <= z <= extra,
            sp_digit_vals(mid),
            b@ == mid + Seq::new(z as nat, |q: int| 0u64),
        decreases extra - z,
    {
        b.push(0);
        proof {
            assert(b@ =~= mid + Seq::new((z + 1) as nat, |q: int| 0u64));
        }
        z = z + 1;
    }
    proof {
        assert(sp_chars_of(b@) =~= sp_chars_of(mid) + sp_zeros(extra as int)) by {
            assert forall|k: int| 0 <= k < b@.len() implies sp_chars_of(b@)[k] == (sp_chars_of(
                mid,
            ) + sp_zeros(extra as int))[k] by {
                if k >= mid.len() {
                    assert(b@[k] == 0);
                    assert(sp_zeros(extra as int)[k - mid.len()] == '0');
                }
            }
        }
    }
    b
}

/// Assembles the rendering: sign, integer part, dot, `p` fraction
/// places.
fn assemble(rdigits: &Vec<u64>, p: u16, neg: bool) -> (r: String)
    requires
        sp_digit_vals(rdigits@),
    ensures
        r@ == sp_assemble(sp_chars_of(rdigits@), p as int, neg),
{
    let l = rdigits.len();
    let pz = p as usize;
    let mut out = if neg {
        "-".to_owned()
    } else {
        "".to_owned()
    };
    proof {
        reveal_strlit("-");
        reveal_strlit("");
        assert(neg ==> out@ =~= seq!['-']);
        assert(!neg ==> out@ =~= Seq::<char>::empty());
    }
    if l > pz {
        let ip = digits_string(rdigits, 0, l - pz);
        out.append(ip.as_str());
    } else {
        out.append("0");
        proof {
            reveal_strlit("0");
            assert("0"@ =~= seq!['0']);
        }
    }
    if p > 0 {
        out.append(".");
        proof {
            reveal_strlit(".");
            assert("."@ =~= seq!['.']);
        }
        if l >= pz {
            let fr = digits_string(rdigits, l - pz, l);
            out.append(fr.as_str());
        } else {
            let zs = zeros_string(pz - l);
            out.append(zs.as_str());
            let fr = digits_string(rdigits, 0, l);
            out.append(fr.as_str());
        }
    }
    proof {
        let rd = sp_chars_of(rdigits@);
        let li = rd.len() as int;
        assert(rdigits@.subrange(0, rdigits@.len() as int) =~= rdigits@);
        if l > pz {
            assert(sp_chars_of(rdigits@.subrange(0, l - pz as int)) =~= rd.subrange(
                0,
                li - p as int,
            ));
        }
        if l >= pz {
            assert(sp_chars_of(rdigits@.subrange(l - pz as int, l as int)) =~= rd.subrange(
                li - p as int,
                li,
            ));
        }
        assert(out@ =~= sp_assemble(rd, p as int, neg));
    }
    out
}

/// A signed infinity keyword.
fn signed_inf(neg: bool) -> (r: String)
    ensures
        r@ == sp_signed_inf(neg),
{
    let mut out = if neg {
        "-".to_owned()
    } else {
        "".to_owned()
    };
    proof {
        reveal_strlit("-");
        reveal_strlit("");
        reveal_strlit("inf");
        assert("inf"@ =~= sp_kw_inf());
        assert(neg ==> out@ =~= seq!['-']);
        assert(!neg ==> out@ =~= Seq::<char>::empty());
    }
    out.append("inf");
    out
}

/// Renders an accepted token at the given precision: the exact decimal
/// it denotes, rounded to `p` places (ties away from zero); NaN and
/// infinity keywords stand as written, and a magnitude beyond every
/// binary double prints as an infinity.
#[verifier::rlimit(100)]
pub fn fixed_token(s: &str, p: u16) -> (r: String)
    requires
        sp_real_accept(s@),
    ensures
        r@ == sp_fixed_token(s@, p as int),
{
    let n = s.unicode_len();
    let o = crate::num::sign_offset(s);
    let neg = o == 1 && s.get_char(0) == '-';
    let t = s.substring_char(o, n);
    proof {
        assert(t@ == sp_strip_sign(s@));
    }
    if !crate::num::number_ok(t) {
        return s.to_owned();
    }
    let parts = read_mantissa(t);
    let digits = parts.0;
    let pos = parts.1;
    let d1 = crate::num::skip_digits(t, 0);
    let bound: u128 = d1 as u128 + p as u128 + 321;
    proof {
        assert(d1 <= t@.len());
        assert(bound < 0x10_0000_0000_0000_0000u128);
    }
    let exp = read_exp_sat(t, pos, bound);
    let eneg = exp.0;
    let acc = exp.1;
    let ghost point = sp_point(t@);
    let huge = acc > bound;

    if huge && !eneg {
        proof {
            assert(point > MAX_POINT);
        }
        return signed_inf(neg);
    }
    if !huge {
        let pt: i128 = if eneg {
            d1 as i128 - acc as i128
        } else {
            d1 as i128 + acc as i128
        };
        if pt > 320 {
            proof {
                assert(point == d1 + sp_exp_val(t@, pos as int));
                assert(point > MAX_POINT);
            }
            return signed_inf(neg);
        }
    }
    // Everything left has its point at or below the cap.
    proof {
        assert(point == d1 + sp_exp_val(t@, pos as int));
        if eneg {
            if huge {
                assert(sp_exp_val(t@, pos as int) < -(bound as int));
                assert(point < d1 - bound);
                assert(point <= MAX_POINT);
            } else {
                assert(point == d1 - acc);
                assert(d1 as i128 - acc as i128 <= 320);
                assert(point <= MAX_POINT);
            }
        } else {
            assert(point == d1 + acc);
            assert(point <= MAX_POINT);
        }
    }
    let ghost k_spec = point + p as int;

    // The kept digit count, clamped from below (every all-dropped case
    // rounds the same way).
    let k_exact: i128 = if huge {
        -1
    } else if eneg {
        d1 as i128 - acc as i128 + p as i128
    } else {
        d1 as i128 + acc as i128 + p as i128
    };
    proof {
        if huge {
            assert(k_spec < 0);
        } else {
            assert(k_exact == k_spec);
        }
    }

    let base: Vec<u64> = if k_exact <= 0 {
        Vec::new()
    } else if k_exact <= digits.len() as i128 {
        take_digits(&digits, k_exact as usize)
    } else {
        let full = take_digits(&digits, digits.len());
        proof {
            assert(full@ =~= digits@);
        }
        pad_digits(full, (k_exact - digits.len() as i128) as usize)
    };
    proof {
        let d_ghost = sp_chars_of(digits@);
        let spec_base: Seq<char> = if k_spec <= 0 {
            Seq::empty()
        } else if k_spec <= d_ghost.len() {
            d_ghost.subrange(0, k_spec)
        } else {
            d_ghost + sp_zeros(k_spec - d_ghost.len())
        };
        assert(sp_chars_of(base@) =~= spec_base) by {
            if 0 < k_spec && k_spec <= d_ghost.len() {
                assert(base@ =~= digits@.subrange(0, k_spec));
            }
        }
    }
    let up = k_exact >= 0 && k_exact < digits.len() as i128 && digits[k_exact as usize] >= 5;
    proof {
        let d_ghost = sp_chars_of(digits@);
        assert(up == (0 <= k_spec < d_ghost.len() && spec_digit_val(d_ghost[k_spec]) >= 5)) by {
            if 0 <= k_spec < digits@.len() {
                assert(spec_digit_val(spec_digit_char(digits@[k_spec] as int)) == digits@[
                    k_spec]);
            }
            if k_spec < 0 {
                assert(!up);
            }
        }
    }
    let rdigits: Vec<u64> = if up {
        inc_digits(&base)
    } else {
        base
    };
    proof {
        assert(sp_chars_of(rdigits@) == sp_round_digits(sp_mantissa(t@), k_spec));
    }
    let out = assemble(&rdigits, p, neg);
    proof {
        assert(out@ == sp_fixed_token(s@, p as int));
    }
    out
}

// ---------------------------------------------------------------------------
// Styles.

/// How the writer renders real numbers: verbatim (the round-trip mode),
/// padded to a width, or rounded to a fixed precision within a width.
#[derive(Debug, Clone, Copy, PartialEq, Eq, Structural)]
pub enum FloatStyle {
    /// Every token exactly as held; what makes written files re-parse to
    /// the same structure.
    Verbatim,
    /// Every token as held, right-aligned to the width.
    Padded { width: u16 },
    /// Every value rounded to the precision and right-aligned to the
    /// width.
    Fixed { width: u16, precision: u16 },
}

impl FloatStyle {
    /// The style a caller's format directives select: verbatim when none
    /// are given, otherwise the fixed or padded mode they describe.
    pub fn new(width: Option<u16>, precision: Option<u16>) -> (r: FloatStyle)
        ensures
            r == FloatStyle::spec_new(width, precision),
    {
        match (width, precision) {
            (None, None) => FloatStyle::Verbatim,
            (w, Some(p)) => FloatStyle::Fixed {
                width: match w {
                    Some(w) => w,
                    None => 0,
                },
                precision: p,
            },
            (Some(w), None) => FloatStyle::Padded { width: w },
        }
    }

    /// The style the directives denote.
    pub open spec fn spec_new(width: Option<u16>, precision: Option<u16>) -> FloatStyle {
        match (width, precision) {
            (None, None) => FloatStyle::Verbatim,
            (w, Some(p)) => FloatStyle::Fixed {
                width: match w {
                    Some(w) => w,
                    None => 0,
                },
                precision: p,
            },
            (Some(w), None) => FloatStyle::Padded { width: w },
        }
    }
}

/// The rendering of one token under a style.
#[verifier::opaque]
pub open spec fn sp_styled(t: Seq<char>, st: FloatStyle) -> Seq<char> {
    match st {
        FloatStyle::Verbatim => t,
        FloatStyle::Padded { width } => sp_pad_left(t, width as int),
        FloatStyle::Fixed { width, precision } => sp_fixed(t, width as int, precision as int),
    }
}

/// Space padding on the left, in executable code.
fn pad_left(s: String, w: u16) -> (r: String)
    ensures
        r@ == sp_pad_left(s@, w as int),
{
    let n = s.as_str().unicode_len();
    let mut out = "".to_owned();
    proof {
        reveal_strlit("");
        reveal_strlit(" ");
        assert(" "@ =~= seq![' ']);
        assert(out@ =~= Seq::new(0, |i: int| ' '));
    }
    let mut i: usize = 0;
    let pad: usize = if n < w as usize {
        w as usize - n
    } else {
        0
    };
    while i < pad
        invariant
            0 <= i <= pad,
            out@ == Seq::new(i as nat, |q: int| ' '),
        decreases pad - i,
    {
        out.append(" ");
        proof {
            reveal_strlit(" ");
            assert(out@ =~= Seq::new((i + 1) as nat, |q: int| ' '));
        }
        i = i + 1;
    }
    out.append(s.as_str());
    proof {
        assert(out@ =~= sp_pad_left(s@, w as int));
    }
    out
}

/// Renders one real number under a style.
pub fn styled_real(x: &crate::num::Real, st: &FloatStyle) -> (r: String)
    ensures
        r@ == sp_styled(x@, *st),
{
    proof {
        reveal(sp_styled);
    }
    match st {
        FloatStyle::Verbatim => x.clone().token(),
        FloatStyle::Padded { width } => pad_left(x.clone().token(), *width),
        FloatStyle::Fixed { width, precision } => {
            let body = fixed_token(x.as_str(), *precision);
            pad_left(body, *width)
        }
    }
}

// ---------------------------------------------------------------------------
// The whole structure under a style.

/// One row with each token rendered.
pub open spec fn sp_map_r3(r: crate::types::R3View, st: FloatStyle) -> crate::types::R3View {
    crate::types::R3View {
        x: sp_styled(r.x, st),
        y: sp_styled(r.y, st),
        z: sp_styled(r.z, st),
    }
}

/// Coordinate data with each token rendered.
pub open spec fn sp_map_coords(
    c: crate::types::Coords<Seq<crate::types::R3View>>,
    st: FloatStyle,
) -> crate::types::Coords<Seq<crate::types::R3View>> {
    match c {
        crate::types::Coords::Cart(v) => crate::types::Coords::Cart(
            v.map_values(|r: crate::types::R3View| sp_map_r3(r, st)),
        ),
        crate::types::Coords::Frac(v) => crate::types::Coords::Frac(
            v.map_values(|r: crate::types::R3View| sp_map_r3(r, st)),
        ),
    }
}

/// The structure with every real number rendered under the style;
/// everything else stands unchanged.
pub open spec fn sp_map_raw(raw: crate::types::RawView, st: FloatStyle) -> crate::types::RawView {
    crate::types::RawView {
        comment: raw.comment,
        scale: match raw.scale {
            crate::types::ScaleView::Factor(t) => crate::types::ScaleView::Factor(
                sp_styled(t, st),
            ),
            crate::types::ScaleView::Volume(t) => crate::types::ScaleView::Volume(
                sp_styled(t, st),
            ),
        },
        lattice: crate::types::MatView {
            r0: sp_map_r3(raw.lattice.r0, st),
            r1: sp_map_r3(raw.lattice.r1, st),
            r2: sp_map_r3(raw.lattice.r2, st),
        },
        symbols: raw.symbols,
        counts: raw.counts,
        positions: sp_map_coords(raw.positions, st),
        velocities: match raw.velocities {
            Some(v) => Some(sp_map_coords(v, st)),
            None => None,
        },
        dynamics: raw.dynamics,
    }
}

} // verus!
