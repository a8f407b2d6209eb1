//! Real numbers, carried as validated decimal tokens.
//!
//! The file format stores every numeric quantity as a decimal or
//! exponential token.  Inside this crate such a quantity is held verbatim
//! as the token it was written with, checked against the standard
//! floating-point syntax.  Everything the format's rules ask of a number
//! (is it negative, zero, or NaN?) is decided exactly on the text, and a
//! token is reprinted exactly as it was read, which is what makes writing
//! after reading reproduce the file.  Binary floating-point evaluation of
//! a token is left to the numeric layer outside this crate.

use vstd::prelude::*;
use vstd::string::StrSliceExecFns;
use vstd::string::StringExecFns;

use crate::parse::{spec_is_digit, spec_is_ws};

verus! {

// ---------------------------------------------------------------------------
// Digit runs.

/// The least index `j >= i` at which a non-digit stands, or the length
/// of `s` when there is none.
pub open spec fn sp_skip_digits(s: Seq<char>, i: int) -> int
    recommends
        0 <= i <= s.len(),
    decreases s.len() - i when 0 <= i <= s.len()
{
    if i >= s.len() {
        i
    } else if spec_is_digit(s[i]) {
        sp_skip_digits(s, i + 1)
    } else {
        i
    }
}

pub proof fn lemma_skip_digits(s: Seq<char>, i: int)
    requires
        0 <= i <= s.len(),
    ensures
        i <= sp_skip_digits(s, i) <= s.len(),
        forall|j: int| i <= j < sp_skip_digits(s, i) ==> spec_is_digit(s[j]),
        sp_skip_digits(s, i) < s.len() ==> !spec_is_digit(s[sp_skip_digits(s, i)]),
    decreases s.len() - i,
{
    if i < s.len() && spec_is_digit(s[i]) {
        lemma_skip_digits(s, i + 1);
    }
}

pub proof fn lemma_skip_digits_char(s: Seq<char>, i: int, j: int)
    requires
        0 <= i <= j <= s.len(),
        forall|k: int| i <= k < j ==> spec_is_digit(s[k]),
        j == s.len() || !spec_is_digit(s[j]),
    ensures
        sp_skip_digits(s, i) == j,
    decreases j - i,
{
    if i < j {
        lemma_skip_digits_char(s, i + 1, j);
    }
}

/// Scans a digit run in executable code.
pub(crate) fn skip_digits(s: &str, i: usize) -> (r: usize)
    requires
        i <= s@.len(),
    ensures
        r == sp_skip_digits(s@, i as int),
        i <= r <= s@.len(),
{
    let n = s.unicode_len();
    let mut j = i;
    loop
        invariant
            n == s@.len(),
            i <= j <= n,
            forall|k: int| i <= k < j ==> spec_is_digit(s@[k]),
        ensures
            i <= j <= n,
            forall|k: int| i <= k < j ==> spec_is_digit(s@[k]),
            j == n || !spec_is_digit(s@[j as int]),
        decreases n - j,
    {
        if j == n {
            break;
        }
        let c = s.get_char(j);
        if !(c >= '0' && c <= '9') {
            break;
        }
        j = j + 1;
    }
    proof {
        lemma_skip_digits_char(s@, i as int, j as int);
    }
    j
}

// ---------------------------------------------------------------------------
// The accepted token grammar: Sign? ( inf | infinity | nan | Number ),
// with the keywords case-insensitive, and
// Number := ( Digit+ | Digit+ '.' Digit* | Digit* '.' Digit+ ) Exp?,
// Exp := ('e'|'E') Sign? Digit+.

pub open spec fn sp_kw_inf() -> Seq<char> {
    seq!['i', 'n', 'f']
}

pub open spec fn sp_kw_infinity() -> Seq<char> {
    seq!['i', 'n', 'f', 'i', 'n', 'i', 't', 'y']
}

pub open spec fn sp_kw_nan() -> Seq<char> {
    seq!['n', 'a', 'n']
}

/// The upper-case form of the letters the keywords are made of.
pub open spec fn spec_upper_of(l: char) -> char {
    if l == 'i' { 'I' }
    else if l == 'n' { 'N' }
    else if l == 'f' { 'F' }
    else if l == 't' { 'T' }
    else if l == 'y' { 'Y' }
    else if l == 'a' { 'A' }
    else { l }
}

/// Case-insensitive match of `s` against a lower-case keyword.
pub open spec fn sp_match_ci(s: Seq<char>, kw: Seq<char>) -> bool {
    s.len() == kw.len() && forall|i: int|
        0 <= i < s.len() ==> (s[i] == kw[i] || s[i] == spec_upper_of(kw[i]))
}

/// The exponent part beginning at `pos`: either nothing, or a marker, an
/// optional sign, and at least one digit reaching the end.
pub open spec fn sp_exp_ok(t: Seq<char>, pos: int) -> bool {
    if pos >= t.len() {
        pos == t.len()
    } else if t[pos] == 'e' || t[pos] == 'E' {
        let q = if pos + 1 < t.len() && (t[pos + 1] == '+' || t[pos + 1] == '-') {
            pos + 2
        } else {
            pos + 1
        };
        q < t.len() && sp_skip_digits(t, q) == t.len()
    } else {
        false
    }
}

/// The unsigned number form: digits around an optional dot (with at least
/// one digit somewhere in the mantissa), then an optional exponent.
pub open spec fn sp_number_ok(t: Seq<char>) -> bool {
    let d1 = sp_skip_digits(t, 0);
    if d1 < t.len() && t[d1] == '.' {
        let d2 = sp_skip_digits(t, d1 + 1);
        (d1 > 0 || d2 > d1 + 1) && sp_exp_ok(t, d2)
    } else {
        d1 > 0 && sp_exp_ok(t, d1)
    }
}

/// True when every mantissa digit of the number form is `0`, which is
/// exactly when the token denotes the number zero.
pub open spec fn sp_zero_mantissa(t: Seq<char>) -> bool {
    let d1 = sp_skip_digits(t, 0);
    &&& forall|i: int| 0 <= i < d1 ==> t[i] == '0'
    &&& if d1 < t.len() && t[d1] == '.' {
        forall|i: int| d1 + 1 <= i < sp_skip_digits(t, d1 + 1) ==> t[i] == '0'
    } else {
        true
    }
}

/// The token with one leading sign removed, if it carries one.
pub open spec fn sp_strip_sign(s: Seq<char>) -> Seq<char> {
    if s.len() > 0 && (s[0] == '+' || s[0] == '-') {
        s.drop_first()
    } else {
        s
    }
}

/// Whether `s` is an accepted real-number token.
pub open spec fn sp_real_accept(s: Seq<char>) -> bool {
    let t = sp_strip_sign(s);
    ||| sp_match_ci(t, sp_kw_inf())
    ||| sp_match_ci(t, sp_kw_infinity())
    ||| sp_match_ci(t, sp_kw_nan())
    ||| sp_number_ok(t)
}

/// Whether the token denotes a NaN.
pub open spec fn sp_real_is_nan(s: Seq<char>) -> bool {
    sp_match_ci(sp_strip_sign(s), sp_kw_nan())
}

/// Whether the token denotes the number zero (of either sign).
///
/// The test is on the text: a token is zero exactly when every mantissa
/// digit is `0`.  A tiny but nonzero decimal (one that binary evaluation
/// would round away to zero) counts as nonzero here.
pub open spec fn sp_real_is_zero(s: Seq<char>) -> bool {
    sp_number_ok(sp_strip_sign(s)) && sp_zero_mantissa(sp_strip_sign(s))
}

/// Whether the token denotes a value strictly less than zero.
pub open spec fn sp_real_is_negative(s: Seq<char>) -> bool {
    &&& sp_real_accept(s)
    &&& !sp_real_is_nan(s)
    &&& !sp_real_is_zero(s)
    &&& s.len() > 0 && s[0] == '-'
}

/// Whether the token denotes a value strictly greater than zero.
pub open spec fn sp_real_is_positive(s: Seq<char>) -> bool {
    &&& sp_real_accept(s)
    &&& !sp_real_is_nan(s)
    &&& !sp_real_is_zero(s)
    &&& !(s.len() > 0 && s[0] == '-')
}


// ---------------------------------------------------------------------------
// Executable classification.

fn upper_of(c: char) -> (r: char)
    ensures
        r == spec_upper_of(c),
{
    match c {
        'i' => 'I',
        'n' => 'N',
        'f' => 'F',
        't' => 'T',
        'y' => 'Y',
        'a' => 'A',
        _ => c,
    }
}

fn match_ci(s: &str, kw: &str) -> (r: bool)
    ensures
        r == sp_match_ci(s@, kw@),
{
    let n = s.unicode_len();
    let m = kw.unicode_len();
    if n != m {
        return false;
    }
    let mut i: usize = 0;
    while i < n
        invariant
            n == s@.len(),
            n == kw@.len(),
            0 <= i <= n,
            forall|k: int| 0 <= k < i ==> (s@[k] == kw@[k] || s@[k] == spec_upper_of(kw@[k])),
        decreases n - i,
    {
        let c = s.get_char(i);
        let l = kw.get_char(i);
        if !(c == l || c == upper_of(l)) {
            return false;
        }
        i = i + 1;
    }
    true
}

/// The exponent-part check, from `pos` to the end.
pub(crate) fn exp_ok(t: &str, pos: usize) -> (r: bool)
    requires
        pos <= t@.len(),
    ensures
        r == sp_exp_ok(t@, pos as int),
{
    let n = t.unicode_len();
    if pos == n {
        return true;
    }
    let c = t.get_char(pos);
    if !(c == 'e' || c == 'E') {
        return false;
    }
    let q = if pos + 1 < n {
        let c1 = t.get_char(pos + 1);
        if c1 == '+' || c1 == '-' {
            pos + 2
        } else {
            pos + 1
        }
    } else {
        pos + 1
    };
    if !(q < n) {
        return false;
    }
    skip_digits(t, q) == n
}

/// The number-form check on an unsigned token.
pub(crate) fn number_ok(t: &str) -> (r: bool)
    ensures
        r == sp_number_ok(t@),
{
    let n = t.unicode_len();
    let d1 = skip_digits(t, 0);
    if d1 < n && t.get_char(d1) == '.' {
        let d2 = skip_digits(t, d1 + 1);
        (d1 > 0 || d2 > d1 + 1) && exp_ok(t, d2)
    } else {
        d1 > 0 && exp_ok(t, d1)
    }
}

/// The all-zero-mantissa check on an unsigned token.
fn zero_mantissa(t: &str) -> (r: bool)
    ensures
        r == sp_zero_mantissa(t@),
{
    let n = t.unicode_len();
    let d1 = skip_digits(t, 0);
    let mut i: usize = 0;
    while i < d1
        invariant
            n == t@.len(),
            d1 == sp_skip_digits(t@, 0),
            0 <= i <= d1 <= n,
            forall|k: int| 0 <= k < i ==> t@[k] == '0',
        decreases d1 - i,
    {
        if t.get_char(i) != '0' {
            proof {
                assert(t@[i as int] != '0');
                assert(!sp_zero_mantissa(t@));
            }
            return false;
        }
        i = i + 1;
    }
    if d1 < n && t.get_char(d1) == '.' {
        let d2 = skip_digits(t, d1 + 1);
        let mut j: usize = d1 + 1;
        while j < d2
            invariant
                n == t@.len(),
                d1 == sp_skip_digits(t@, 0),
                d2 == sp_skip_digits(t@, d1 + 1),
                d1 < n && t@[d1 as int] == '.',
                d1 + 1 <= j <= d2 <= n,
                forall|k: int| 0 <= k < d1 ==> t@[k] == '0',
                forall|k: int| d1 + 1 <= k < j ==> t@[k] == '0',
            decreases d2 - j,
        {
            if t.get_char(j) != '0' {
                proof {
                    assert(t@[j as int] != '0');
                    assert(!sp_zero_mantissa(t@));
                }
                return false;
            }
            j = j + 1;
        }
        true
    } else {
        true
    }
}

/// The index after the sign, if the token carries one.
pub(crate) fn sign_offset(s: &str) -> (r: usize)
    ensures
        s@.len() > 0 && (s@[0] == '+' || s@[0] == '-') ==> r == 1,
        !(s@.len() > 0 && (s@[0] == '+' || s@[0] == '-')) ==> r == 0,
        sp_strip_sign(s@) =~= s@.subrange(r as int, s@.len() as int),
{
    let n = s.unicode_len();
    if n > 0 {
        let c = s.get_char(0);
        if c == '+' || c == '-' {
            proof {
                assert(sp_strip_sign(s@) =~= s@.subrange(1, s@.len() as int));
            }
            return 1;
        }
    }
    proof {
        assert(sp_strip_sign(s@) =~= s@.subrange(0, s@.len() as int));
    }
    0
}

/// Whether a token is an accepted real number.
pub fn real_accept(s: &str) -> (r: bool)
    ensures
        r == sp_real_accept(s@),
{
    let n = s.unicode_len();
    let o = sign_offset(s);
    let t = s.substring_char(o, n);
    proof {
        reveal_strlit("inf");
        reveal_strlit("infinity");
        reveal_strlit("nan");
        assert("inf"@ =~= sp_kw_inf());
        assert("infinity"@ =~= sp_kw_infinity());
        assert("nan"@ =~= sp_kw_nan());
    }
    match_ci(t, "inf") || match_ci(t, "infinity") || match_ci(t, "nan") || number_ok(t)
}

/// Whether a token denotes a NaN.
pub fn real_is_nan(s: &str) -> (r: bool)
    ensures
        r == sp_real_is_nan(s@),
{
    let n = s.unicode_len();
    let o = sign_offset(s);
    let t = s.substring_char(o, n);
    proof {
        reveal_strlit("nan");
        assert("nan"@ =~= sp_kw_nan());
    }
    match_ci(t, "nan")
}

/// Whether a token denotes the number zero.
pub fn real_is_zero(s: &str) -> (r: bool)
    ensures
        r == sp_real_is_zero(s@),
{
    let n = s.unicode_len();
    let o = sign_offset(s);
    let t = s.substring_char(o, n);
    number_ok(t) && zero_mantissa(t)
}

/// Whether a token denotes a value strictly less than zero.
pub fn real_is_negative(s: &str) -> (r: bool)
    ensures
        r == sp_real_is_negative(s@),
{
    let neg_sign = if s.unicode_len() > 0 {
        s.get_char(0) == '-'
    } else {
        false
    };
    real_accept(s) && !real_is_nan(s) && !real_is_zero(s) && neg_sign
}

/// Whether a token denotes a value strictly greater than zero.
pub fn real_is_positive(s: &str) -> (r: bool)
    ensures
        r == sp_real_is_positive(s@),
{
    let neg_sign = if s.unicode_len() > 0 {
        s.get_char(0) == '-'
    } else {
        false
    };
    real_accept(s) && !real_is_nan(s) && !real_is_zero(s) && !neg_sign
}


// ---------------------------------------------------------------------------
// Facts about accepted tokens.

/// An accepted token is non-empty and free of whitespace, and so survives
/// word tokenization unchanged.
pub proof fn lemma_accept_no_ws(s: Seq<char>)
    requires
        sp_real_accept(s),
    ensures
        s.len() > 0,
        forall|i: int| 0 <= i < s.len() ==> !spec_is_ws(s[i]),
{
    let t = sp_strip_sign(s);
    let o: int = if s.len() > 0 && (s[0] == '+' || s[0] == '-') { 1 } else { 0 };
    assert(t.len() + o == s.len());
    assert forall|i: int| 0 <= i < t.len() implies !spec_is_ws(t[i]) by {
        lemma_accept_body_no_ws(t, i);
    }
    assert forall|i: int| 0 <= i < s.len() implies !spec_is_ws(s[i]) by {
        if i < o {
            assert(s[i] == '+' || s[i] == '-');
        } else {
            assert(s[i] == t[i - o]);
        }
    }
}

/// Every character of the unsigned body of an accepted token is a digit,
/// a dot, an exponent marker, a sign, or a keyword letter.
proof fn lemma_accept_body_no_ws(t: Seq<char>, i: int)
    requires
        0 <= i < t.len(),
        sp_match_ci(t, sp_kw_inf()) || sp_match_ci(t, sp_kw_infinity()) || sp_match_ci(
            t,
            sp_kw_nan(),
        ) || sp_number_ok(t),
    ensures
        !spec_is_ws(t[i]),
{
    if sp_match_ci(t, sp_kw_inf()) {
        assert(t[i] == sp_kw_inf()[i] || t[i] == spec_upper_of(sp_kw_inf()[i]));
    } else if sp_match_ci(t, sp_kw_infinity()) {
        assert(t[i] == sp_kw_infinity()[i] || t[i] == spec_upper_of(sp_kw_infinity()[i]));
    } else if sp_match_ci(t, sp_kw_nan()) {
        assert(t[i] == sp_kw_nan()[i] || t[i] == spec_upper_of(sp_kw_nan()[i]));
    } else {
        lemma_skip_digits(t, 0);
        let d1 = sp_skip_digits(t, 0);
        if d1 < t.len() && t[d1] == '.' {
            lemma_skip_digits(t, d1 + 1);
            let d2 = sp_skip_digits(t, d1 + 1);
            lemma_exp_no_ws(t, d2, i);
        } else {
            lemma_exp_no_ws(t, d1, i);
        }
    }
}

/// In a token whose exponent part begins at `pos`, the character at `i`
/// at or beyond `pos` is an exponent marker, a sign, or a digit.
proof fn lemma_exp_no_ws(t: Seq<char>, pos: int, i: int)
    requires
        0 <= pos <= t.len(),
        0 <= i < t.len(),
        sp_exp_ok(t, pos),
        i >= pos || spec_is_digit(t[i]) || t[i] == '.',
    ensures
        !spec_is_ws(t[i]),
{
    if i >= pos {
        assert(pos < t.len());
        assert(t[pos] == 'e' || t[pos] == 'E');
        if i > pos {
            let q = if pos + 1 < t.len() && (t[pos + 1] == '+' || t[pos + 1] == '-') {
                pos + 2
            } else {
                pos + 1
            };
            if i >= q {
                lemma_skip_digits(t, q);
            }
        }
    }
}

/// The unsigned body of an accepted token is itself accepted, and carries
/// no further sign.
pub proof fn lemma_strip_accept(s: Seq<char>)
    requires
        sp_real_accept(s),
    ensures
        sp_real_accept(sp_strip_sign(s)),
        sp_strip_sign(sp_strip_sign(s)) == sp_strip_sign(s),
        sp_real_is_nan(sp_strip_sign(s)) == sp_real_is_nan(s),
        sp_real_is_zero(sp_strip_sign(s)) == sp_real_is_zero(s),
    decreases 0int,
{
    let t = sp_strip_sign(s);
    assert(t.len() > 0 && !(t[0] == '+' || t[0] == '-')) by {
        if sp_match_ci(t, sp_kw_inf()) {
            assert(t[0] == 'i' || t[0] == 'I');
        } else if sp_match_ci(t, sp_kw_infinity()) {
            assert(t[0] == 'i' || t[0] == 'I');
        } else if sp_match_ci(t, sp_kw_nan()) {
            assert(t[0] == 'n' || t[0] == 'N');
        } else {
            lemma_skip_digits(t, 0);
            let d1 = sp_skip_digits(t, 0);
            if d1 < t.len() && t[d1] == '.' {
                if d1 == 0 {
                    assert(t[0] == '.');
                } else {
                    assert(spec_is_digit(t[0]));
                }
            } else {
                assert(d1 > 0);
                assert(spec_is_digit(t[0]));
            }
        }
    }
    assert(sp_strip_sign(t) == t);
}

/// Prefixing a minus sign to an unsigned positive token gives an accepted
/// negative token with the same body.
pub proof fn lemma_neg_prefix(t: Seq<char>)
    requires
        sp_real_accept(t),
        sp_strip_sign(t) == t,
        !sp_real_is_nan(t),
        !sp_real_is_zero(t),
    ensures
        sp_real_accept(seq!['-'] + t),
        sp_strip_sign(seq!['-'] + t) == t,
        sp_real_is_negative(seq!['-'] + t),
{
    let m = seq!['-'] + t;
    assert(m[0] == '-');
    assert(m.len() == t.len() + 1);
    assert(sp_strip_sign(m) =~= t);
}

// ---------------------------------------------------------------------------
// The `Real` type.

/// A real number of the file, held as the decimal token it is written
/// with.  Every `Real` holds an accepted token (see [`sp_real_accept`]);
/// the checked constructor is the only way to make one.  Two `Real`s are
/// equal exactly when their tokens are equal, and a token is written out
/// verbatim, which is what makes a written file re-parse to the same
/// structure.
#[derive(Debug, PartialEq, Eq, Hash)]
pub struct Real {
    token: String,
}

impl Clone for Real {
    /// The copy carries the same token.
    fn clone(&self) -> (r: Real)
        ensures
            r@ == self@,
    {
        proof {
            use_type_invariant(self);
        }
        Real { token: self.token.clone() }
    }
}

impl View for Real {
    type V = Seq<char>;

    closed spec fn view(&self) -> Seq<char> {
        self.token@
    }
}

impl Real {
    /// The token of every `Real` is accepted.
    #[verifier::type_invariant]
    pub(crate) closed spec fn type_inv(self) -> bool {
        sp_real_accept(self.token@)
    }

    /// Wraps a token after checking it against the accepted syntax.
    pub fn from_token(s: String) -> (r: Option<Real>)
        ensures
            sp_real_accept(s@) ==> (r matches Some(v) && v@ == s@),
            !sp_real_accept(s@) ==> r is None,
    {
        if real_accept(s.as_str()) {
            Some(Real { token: s })
        } else {
            None
        }
    }

    /// The token, surrendered as a string.
    pub fn token(self) -> (r: String)
        ensures
            r@ == self@,
    {
        self.token
    }

    /// The token text, which is always an accepted real token.
    pub fn as_str(&self) -> (r: &str)
        ensures
            r@ == self@,
            sp_real_accept(self@),
    {
        proof {
            use_type_invariant(self);
        }
        self.token.as_str()
    }

    /// The same value with a leading sign removed: the magnitude for a
    /// negative token.
    pub fn magnitude(&self) -> (r: Real)
        ensures
            r@ == sp_strip_sign(self@),
    {
        proof {
            use_type_invariant(self);
            lemma_strip_accept(self@);
        }
        let n = self.token.as_str().unicode_len();
        let o = sign_offset(self.token.as_str());
        Real { token: self.token.as_str().substring_char(o, n).to_owned() }
    }

    /// True when the value is a NaN.
    pub fn is_nan(&self) -> (r: bool)
        ensures
            r == sp_real_is_nan(self@),
    {
        real_is_nan(self.token.as_str())
    }

    /// True when the value is the number zero (of either sign).
    pub fn is_zero(&self) -> (r: bool)
        ensures
            r == sp_real_is_zero(self@),
    {
        real_is_zero(self.token.as_str())
    }

    /// True when the value is strictly less than zero.
    pub fn is_negative(&self) -> (r: bool)
        ensures
            r == sp_real_is_negative(self@),
    {
        real_is_negative(self.token.as_str())
    }

    /// True when the value is strictly greater than zero.
    pub fn is_strictly_positive(&self) -> (r: bool)
        ensures
            r == sp_real_is_positive(self@),
    {
        real_is_positive(self.token.as_str())
    }
}

/// The acceptance of a three-character token digit-dot-digit.
proof fn lemma_accept_digit_dot_digit(t: Seq<char>)
    requires
        t.len() == 3,
        spec_is_digit(t[0]),
        t[1] == '.',
        spec_is_digit(t[2]),
    ensures
        sp_real_accept(t),
{
    assert(sp_strip_sign(t) == t);
    assert(sp_skip_digits(t, 3) == 3);
    assert(sp_skip_digits(t, 2) == 3);
    assert(sp_skip_digits(t, 1) == 1);
    assert(sp_skip_digits(t, 0) == 1);
    assert(sp_exp_ok(t, 3));
    assert(sp_number_ok(t));
}

impl Real {
    /// The value zero, written `0.0`.
    pub fn zero() -> (r: Real)
        ensures
            r@ == seq!['0', '.', '0'],
    {
        let s = "0.0".to_owned();
        proof {
            reveal_strlit("0.0");
            assert(s@ =~= seq!['0', '.', '0']);
            lemma_accept_digit_dot_digit(s@);
        }
        Real { token: s }
    }

    /// The value one, written `1.0`.
    pub fn one() -> (r: Real)
        ensures
            r@ == seq!['1', '.', '0'],
    {
        let s = "1.0".to_owned();
        proof {
            reveal_strlit("1.0");
            assert(s@ =~= seq!['1', '.', '0']);
            lemma_accept_digit_dot_digit(s@);
        }
        Real { token: s }
    }
}

} // verus!

