//! Errors, the line/word scanner, and the primitive token parsers.
//!
//! Every error carries the position (line, column) it arose at, so words
//! are never bare strings: a [`Spanned`] value remembers where it came from.

use vstd::prelude::*;
use vstd::string::StrSliceExecFns;

verus! {

// ---------------------------------------------------------------------------
// Character classes.

/// The whitespace characters that separate words: space and tab, together
/// with the line-terminator characters (which never appear inside a line
/// that was split correctly, but are treated as separators for safety).
pub open spec fn spec_is_ws(c: char) -> bool {
    c == ' ' || c == '\t' || c == '\r' || c == '\n'
}

/// Decimal digits.
pub open spec fn spec_is_digit(c: char) -> bool {
    '0' <= c && c <= '9'
}

/// Whitespace test on a single character.
pub fn is_ascii_whitespace(c: char) -> (r: bool)
    ensures
        r == spec_is_ws(c),
{
    c == ' ' || c == '\t' || c == '\r' || c == '\n'
}

/// True when the line consists of whitespace only (this includes the
/// empty line).
pub open spec fn sp_is_blank(s: Seq<char>) -> bool {
    forall|i: int| 0 <= i < s.len() ==> spec_is_ws(s[i])
}

// ---------------------------------------------------------------------------
// The word decomposition of a line, as a mathematical value.

/// One word of a line: its text and the column (character offset) it
/// starts at.
pub struct WordView {
    pub col: int,
    pub text: Seq<char>,
}

/// The least index `j >= i` at which a non-whitespace character stands,
/// or the length of `s` when there is none.
pub open spec fn sp_skip_ws(s: Seq<char>, i: int) -> int
    recommends
        0 <= i <= s.len(),
    decreases s.len() - i when 0 <= i <= s.len()
{
    if i >= s.len() {
        i
    } else if spec_is_ws(s[i]) {
        sp_skip_ws(s, i + 1)
    } else {
        i
    }
}

/// The least index `j >= i` at which a whitespace character stands, or
/// the length of `s` when there is none.
pub open spec fn sp_word_end(s: Seq<char>, i: int) -> int
    recommends
        0 <= i <= s.len(),
    decreases s.len() - i when 0 <= i <= s.len()
{
    if i >= s.len() {
        i
    } else if spec_is_ws(s[i]) {
        i
    } else {
        sp_word_end(s, i + 1)
    }
}

pub proof fn lemma_skip_ws(s: Seq<char>, i: int)
    requires
        0 <= i <= s.len(),
    ensures
        i <= sp_skip_ws(s, i) <= s.len(),
        forall|j: int| i <= j < sp_skip_ws(s, i) ==> spec_is_ws(s[j]),
        sp_skip_ws(s, i) < s.len() ==> !spec_is_ws(s[sp_skip_ws(s, i)]),
    decreases s.len() - i,
{
    if i < s.len() && spec_is_ws(s[i]) {
        lemma_skip_ws(s, i + 1);
    }
}

pub proof fn lemma_word_end(s: Seq<char>, i: int)
    requires
        0 <= i <= s.len(),
    ensures
        i <= sp_word_end(s, i) <= s.len(),
        forall|j: int| i <= j < sp_word_end(s, i) ==> !spec_is_ws(s[j]),
        sp_word_end(s, i) < s.len() ==> spec_is_ws(s[sp_word_end(s, i)]),
    decreases s.len() - i,
{
    if i < s.len() && !spec_is_ws(s[i]) {
        lemma_word_end(s, i + 1);
    }
}

/// The words of `s` that start at or after index `i`, with their columns.
pub open spec fn sp_words_from(s: Seq<char>, i: int) -> Seq<WordView>
    recommends
        0 <= i <= s.len(),
    decreases s.len() - i when 0 <= i <= s.len() via sp_words_from_dec
{
    let a = sp_skip_ws(s, i);
    if a >= s.len() {
        Seq::empty()
    } else {
        let b = sp_word_end(s, a);
        seq![WordView { col: a, text: s.subrange(a, b) }] + sp_words_from(s, b)
    }
}

#[via_fn]
proof fn sp_words_from_dec(s: Seq<char>, i: int) {
    lemma_skip_ws(s, i);
    let a = sp_skip_ws(s, i);
    if a < s.len() {
        lemma_word_end(s, a);
    }
}

/// The words of the whole line.
pub open spec fn sp_words(s: Seq<char>) -> Seq<WordView> {
    sp_words_from(s, 0)
}

/// Basic facts about the word decomposition: columns sit inside the line,
/// words are non-empty, and no word holds whitespace.
pub proof fn lemma_words_from_wf(s: Seq<char>, i: int)
    requires
        0 <= i <= s.len(),
    ensures
        forall|k: int|
            0 <= k < sp_words_from(s, i).len() ==> {
                let w = #[trigger] sp_words_from(s, i)[k];
                &&& i <= w.col
                &&& w.col + w.text.len() <= s.len()
                &&& w.text.len() > 0
                &&& w.text == s.subrange(w.col, w.col + w.text.len())
                &&& forall|j: int| 0 <= j < w.text.len() ==> !spec_is_ws(w.text[j])
            },
    decreases s.len() - i,
{
    lemma_skip_ws(s, i);
    let a = sp_skip_ws(s, i);
    if a < s.len() {
        lemma_word_end(s, a);
        let b = sp_word_end(s, a);
        lemma_words_from_wf(s, b);
        let all = sp_words_from(s, i);
        let rest = sp_words_from(s, b);
        assert(b > a) by {
            if b == a {
                assert(spec_is_ws(s[a]));
            }
        }
        assert forall|k: int| 1 <= k < all.len() implies all[k] == rest[k - 1] by {}
    }
}

// ---------------------------------------------------------------------------
// Errors.

/// What went wrong, independent of position.
#[derive(Debug, Clone, PartialEq, Eq, Structural)]
pub enum ParseErrorKind {
    /// A token did not parse as a real number.
    InvalidNumber,
    /// A token did not parse as a Fortran-style logical.
    InvalidLogical,
    /// An unsigned integer token began with `+`.
    LeadingPlusNotAllowed,
    /// A line or a word was required but the input ended first.
    UnexpectedEndOfInput,
    /// The scale value is zero.
    ScaleCannotBeZero,
    /// The scale value is NaN.
    ScaleCannotBeNan,
    /// A second real number stood on the scale line.
    TooManyScaleValues,
    /// The number of symbols does not match the number of counts.
    InconsistentGroupCount,
    /// The counts sum to zero.
    NoAtoms,
    /// A symbol on the symbols line is not legal.
    InvalidSymbol,
    /// Non-blank lines follow the last section.
    UnexpectedTrailingContent,
}

/// A parse failure, with the position it arose at.
///
/// `line` and `col` are zero-based; [`ParseError::message`] renders them
/// one-based, as is conventional in error messages.
#[derive(Debug, Clone, PartialEq)]
pub struct ParseError {
    pub kind: ParseErrorKind,
    pub path: Option<String>,
    pub line: Option<usize>,
    pub col: Option<usize>,
}

/// The position part of an error, as a ghost value.
pub struct ErrView {
    pub kind: ParseErrorKind,
    pub line: Option<int>,
    pub col: Option<int>,
}

impl ParseError {
    /// The ghost image of this error: kind and position.
    pub open spec fn view(&self) -> ErrView {
        ErrView {
            kind: self.kind,
            line: match self.line {
                Some(n) => Some(n as int),
                None => None,
            },
            col: match self.col {
                Some(n) => Some(n as int),
                None => None,
            },
        }
    }
}

/// Clones an optional source name.
fn clone_opt_string(o: &Option<String>) -> (r: Option<String>)
    ensures
        r.deep_view() == o.deep_view(),
{
    match o {
        Some(s) => Some(s.clone()),
        None => None,
    }
}

// ---------------------------------------------------------------------------
// Characterisation lemmas: an index found by a scan is the one the spec
// functions denote.

pub proof fn lemma_skip_ws_char(s: Seq<char>, i: int, j: int)
    requires
        0 <= i <= j <= s.len(),
        forall|k: int| i <= k < j ==> spec_is_ws(s[k]),
        j == s.len() || !spec_is_ws(s[j]),
    ensures
        sp_skip_ws(s, i) == j,
    decreases j - i,
{
    if i < j {
        lemma_skip_ws_char(s, i + 1, j);
    }
}

pub proof fn lemma_word_end_char(s: Seq<char>, i: int, j: int)
    requires
        0 <= i <= j <= s.len(),
        forall|k: int| i <= k < j ==> !spec_is_ws(s[k]),
        j == s.len() || spec_is_ws(s[j]),
    ensures
        sp_word_end(s, i) == j,
    decreases j - i,
{
    if i < j {
        lemma_word_end_char(s, i + 1, j);
    }
}

// ---------------------------------------------------------------------------
// Position-tagged text.

/// A piece of text (a whole line, or one word of it) together with the
/// position it stands at in the source: a zero-based line index and a
/// zero-based column (character offset within the original line).
#[derive(Debug, Clone, PartialEq)]
pub struct Spanned {
    pub path: Option<String>,
    pub line: usize,
    pub col: usize,
    pub s: String,
}

/// The ghost image of a `Spanned`.
pub struct SpanView {
    pub path: Option<Seq<char>>,
    pub line: int,
    pub col: int,
    pub s: Seq<char>,
}

impl View for Spanned {
    type V = SpanView;

    open spec fn view(&self) -> SpanView {
        SpanView {
            path: self.path.deep_view(),
            line: self.line as int,
            col: self.col as int,
            s: self.s@,
        }
    }
}

impl Spanned {
    /// A `Spanned` denotes a slice of a line of the source, so its column
    /// plus its length stays within the line.
    pub open spec fn wf(&self) -> bool {
        self.col + self.s@.len() <= usize::MAX
    }

    /// The text itself.
    pub fn as_str(&self) -> (r: &str)
        ensures
            r@ == self@.s,
    {
        self.s.as_str()
    }

    /// An error of the given kind at this position.
    pub fn error(&self, kind: ParseErrorKind) -> (r: ParseError)
        ensures
            r.kind == kind,
            r.path.deep_view() == self@.path,
            r@.line == Some(self@.line),
            r@.col == Some(self@.col),
    {
        ParseError {
            kind,
            path: clone_opt_string(&self.path),
            line: Some(self.line),
            col: Some(self.col),
        }
    }

    /// The sub-span over the character range `start..end`, keeping track
    /// of the column.
    pub fn slice(&self, start: usize, end: usize) -> (r: Spanned)
        requires
            start <= end <= self@.s.len(),
            self.wf(),
        ensures
            r@.s == self@.s.subrange(start as int, end as int),
            r@.col == self@.col + start,
            r@.line == self@.line,
            r@.path == self@.path,
            r.wf(),
    {
        Spanned {
            path: clone_opt_string(&self.path),
            line: self.line,
            col: self.col + start,
            s: self.s.as_str().substring_char(start, end).to_owned(),
        }
    }

    /// The first character of the text, verbatim (possibly whitespace), or
    /// `None` for an empty text.  Flag lines are recognised by it.
    pub fn control_char(&self) -> (r: Option<char>)
        ensures
            self@.s.len() == 0 ==> r is None,
            self@.s.len() > 0 ==> r == Some(self@.s[0]),
    {
        if self.s.as_str().unicode_len() == 0 {
            None
        } else {
            Some(self.s.as_str().get_char(0))
        }
    }

    /// The words of the text: maximal runs of non-whitespace characters,
    /// each with the column it starts at.
    pub fn words(&self) -> (r: Words)
        requires
            self.wf(),
        ensures
            r.path.deep_view() == self@.path,
            r.line == self@.line,
            r.idx == 0,
            r.words@.len() == sp_words(self@.s).len(),
            forall|k: int|
                0 <= k < r.words@.len() ==> {
                    let w = #[trigger] r.words@[k];
                    &&& w@.s == sp_words(self@.s)[k].text
                    &&& w@.col == self@.col + sp_words(self@.s)[k].col
                    &&& w@.line == self@.line
                    &&& w@.path == self@.path
                    &&& w.wf()
                },
    {
        let ghost sq = self.s@;
        let n = self.s.as_str().unicode_len();
        let mut out: Vec<Spanned> = Vec::new();
        let mut i: usize = 0;
        proof {
            lemma_words_from_wf(sq, 0);
        }
        while i < n
            invariant
                n == sq.len(),
                sq == self.s@,
                self.wf(),
                0 <= i <= n,
                sp_words(sq) =~= out@.map_values(
                    |w: Spanned| WordView { col: w@.col - self@.col, text: w@.s },
                ) + sp_words_from(sq, i as int),
                forall|k: int|
                    0 <= k < out@.len() ==> {
                        let w = #[trigger] out@[k];
                        &&& w@.col >= self@.col
                        &&& w@.line == self@.line
                        &&& w@.path == self@.path
                        &&& w.wf()
                    },
            decreases n - i,
        {
            let c = self.s.as_str().get_char(i);
            if is_ascii_whitespace(c) {
                proof {
                    assert(sp_skip_ws(sq, i as int) == sp_skip_ws(sq, i + 1));
                    assert(sp_words_from(sq, i as int) =~= sp_words_from(sq, i + 1));
                }
                i = i + 1;
            } else {
                let start = i;
                let mut j = i + 1;
                loop
                    invariant
                        n == sq.len(),
                        sq == self.s@,
                        self.wf(),
                        start < j <= n,
                        !spec_is_ws(sq[start as int]),
                        forall|k: int| start <= k < j ==> !spec_is_ws(sq[k]),
                    ensures
                        start < j <= n,
                        forall|k: int| start <= k < j ==> !spec_is_ws(sq[k]),
                        j == n || spec_is_ws(sq[j as int]),
                    decreases n - j,
                {
                    if j == n {
                        break;
                    }
                    let cj = self.s.as_str().get_char(j);
                    if is_ascii_whitespace(cj) {
                        break;
                    }
                    j = j + 1;
                }
                proof {
                    lemma_skip_ws_char(sq, i as int, i as int);
                    lemma_word_end_char(sq, i as int, j as int);
                }
                let word = self.slice(start, j);
                out.push(word);
                proof {
                    let prev = out@.drop_last();
                    assert(out@.map_values(
                        |w: Spanned| WordView { col: w@.col - self@.col, text: w@.s },
                    ) =~= prev.map_values(
                        |w: Spanned| WordView { col: w@.col - self@.col, text: w@.s },
                    ) + seq![WordView { col: start as int, text: sq.subrange(start as int, j as int) }]);
                }
                i = j;
            }
        }
        proof {
            assert(sp_words_from(sq, n as int) =~= Seq::empty());
            assert(sp_words(sq) =~= out@.map_values(
                |w: Spanned| WordView { col: w@.col - self@.col, text: w@.s },
            ));
        }
        Words {
            path: clone_opt_string(&self.path),
            line: self.line,
            words: out,
            idx: 0,
        }
    }
}

// ---------------------------------------------------------------------------
// The word cursor of one line.

/// The words of one line, handed out in order.
#[derive(Debug)]
pub struct Words {
    pub path: Option<String>,
    pub line: usize,
    pub words: Vec<Spanned>,
    pub idx: usize,
}

impl Words {
    /// The next word, or `None` when the line has no more.
    pub fn next(&mut self) -> (r: Option<Spanned>)
        ensures
            final(self).path == old(self).path,
            final(self).line == old(self).line,
            final(self).words == old(self).words,
            old(self).idx < old(self).words@.len() ==> {
                &&& r matches Some(w) && w@ == old(self).words@[old(self).idx as int]@
                &&& final(self).idx == old(self).idx + 1
            },
            old(self).idx >= old(self).words@.len() ==> r is None && final(self).idx == old(self).idx,
    {
        if self.idx < self.words.len() {
            let w = &self.words[self.idx];
            let r = Spanned {
                path: clone_opt_string(&w.path),
                line: w.line,
                col: w.col,
                s: w.s.clone(),
            };
            self.idx = self.idx + 1;
            Some(r)
        } else {
            None
        }
    }

    /// The next word, or an end-of-input error at this line when the line
    /// has no more words.
    pub fn next_or_err(&mut self) -> (r: Result<Spanned, ParseError>)
        ensures
            final(self).path == old(self).path,
            final(self).line == old(self).line,
            final(self).words == old(self).words,
            old(self).idx < old(self).words@.len() ==> {
                &&& r matches Ok(w) && w@ == old(self).words@[old(self).idx as int]@
                &&& final(self).idx == old(self).idx + 1
            },
            old(self).idx >= old(self).words@.len() ==> {
                &&& final(self).idx == old(self).idx
                &&& r matches Err(e) && e.kind == ParseErrorKind::UnexpectedEndOfInput
                    && e.path.deep_view() == old(self).path.deep_view()
                    && e@.line == Some(old(self).line as int)
                    && e@.col is None
            },
    {
        match self.next() {
            Some(w) => Ok(w),
            None => Err(ParseError {
                kind: ParseErrorKind::UnexpectedEndOfInput,
                path: clone_opt_string(&self.path),
                line: Some(self.line),
                col: None,
            }),
        }
    }
}

// ---------------------------------------------------------------------------
// The line cursor of the whole input.

/// The input lines (line terminators already stripped) together with a
/// cursor and the optional source name used in error messages.
#[derive(Debug)]
pub struct Lines {
    pub path: Option<String>,
    pub cur: usize,
    pub lines: Vec<String>,
}

impl Lines {
    /// Starts a cursor at the first line.
    pub fn new(lines: Vec<String>, path: Option<String>) -> (r: Lines)
        ensures
            r.lines.deep_view() == lines.deep_view(),
            r.path.deep_view() == path.deep_view(),
            r.cur == 0,
    {
        Lines { path, cur: 0, lines }
    }

    /// The next line as a `Spanned`, or an end-of-input error naming the
    /// line index at which input ran out.
    pub fn next(&mut self) -> (r: Result<Spanned, ParseError>)
        ensures
            final(self).path == old(self).path,
            final(self).lines == old(self).lines,
            old(self).cur < old(self).lines@.len() ==> {
                &&& final(self).cur == old(self).cur + 1
                &&& r matches Ok(w) && w@.s == old(self).lines.deep_view()[old(self).cur as int]
                    && w@.line == old(self).cur as int
                    && w@.col == 0
                    && w@.path == old(self).path.deep_view()
                    && w.wf()
            },
            old(self).cur >= old(self).lines@.len() ==> {
                &&& final(self).cur == old(self).cur
                &&& r matches Err(e) && e.kind == ParseErrorKind::UnexpectedEndOfInput
                    && e.path.deep_view() == old(self).path.deep_view()
                    && e@.line == Some(old(self).cur as int)
                    && e@.col is None
            },
    {
        if self.cur < self.lines.len() {
            let s = self.lines[self.cur].clone();
            // The character count fits in usize, which makes the span
            // well-formed for the word scanner.
            let _len = s.as_str().unicode_len();
            proof {
                assert(self.lines.deep_view()[self.cur as int] == self.lines@[self.cur as int]@);
            }
            let r = Spanned {
                path: clone_opt_string(&self.path),
                line: self.cur,
                col: 0,
                s,
            };
            self.cur = self.cur + 1;
            Ok(r)
        } else {
            Err(ParseError {
                kind: ParseErrorKind::UnexpectedEndOfInput,
                path: clone_opt_string(&self.path),
                line: Some(self.cur),
                col: None,
            })
        }
    }
}

// ---------------------------------------------------------------------------
// Primitive token parsers.

/// The numeric value of a digit character.
pub open spec fn spec_digit_val(c: char) -> int {
    c as int - '0' as int
}

/// True when every character of `s` is a decimal digit.
pub open spec fn sp_all_digits(s: Seq<char>) -> bool {
    forall|i: int| 0 <= i < s.len() ==> spec_is_digit(s[i])
}

/// The value of a digit string read in base ten.
pub open spec fn sp_digits_val(s: Seq<char>) -> int
    decreases s.len(),
{
    if s.len() == 0 {
        0
    } else {
        sp_digits_val(s.drop_last()) * 10 + spec_digit_val(s.last())
    }
}

/// Why an unsigned-integer token was rejected.
#[derive(Debug, Clone, Copy, PartialEq, Eq, Structural)]
pub enum UnsignedError {
    /// The token begins with `+`, which this format forbids.
    LeadingPlus,
    /// The token is empty, holds a non-digit, or overflows.
    Invalid,
}

/// The unsigned-integer reading of a token: digits only, no leading `+`,
/// and a value that fits in 64 bits.
pub open spec fn sp_unsigned(s: Seq<char>) -> Result<u64, UnsignedError> {
    if s.len() > 0 && s[0] == '+' {
        Err(UnsignedError::LeadingPlus)
    } else if s.len() > 0 && sp_all_digits(s) && sp_digits_val(s) <= u64::MAX {
        Ok(sp_digits_val(s) as u64)
    } else {
        Err(UnsignedError::Invalid)
    }
}

/// The value of a digit string never shrinks as the string grows.
pub proof fn lemma_digits_val_nonneg(s: Seq<char>)
    requires
        sp_all_digits(s),
    ensures
        sp_digits_val(s) >= 0,
    decreases s.len(),
{
    if s.len() > 0 {
        assert(sp_all_digits(s.drop_last()));
        lemma_digits_val_nonneg(s.drop_last());
        assert(spec_is_digit(s.last()));
    }
}

/// The value of a prefix is bounded by the value of the whole digit string.
pub proof fn lemma_digits_val_prefix(s: Seq<char>, i: int)
    requires
        sp_all_digits(s),
        0 <= i <= s.len(),
    ensures
        sp_digits_val(s.subrange(0, i)) <= sp_digits_val(s),
    decreases s.len() - i,
{
    if i < s.len() {
        let p = s.subrange(0, i);
        let q = s.subrange(0, i + 1);
        assert(q.drop_last() =~= p);
        assert(sp_all_digits(p));
        lemma_digits_val_nonneg(p);
        assert(spec_is_digit(s[i]));
        assert(sp_digits_val(q) == sp_digits_val(p) * 10 + spec_digit_val(q.last()));
        lemma_digits_val_prefix(s, i + 1);
    } else {
        assert(s.subrange(0, i) =~= s);
    }
}

/// Reads a token as an unsigned integer: decimal digits only, with a
/// leading `+` rejected as its own error.
pub fn parse_unsigned(s: &str) -> (r: Result<u64, UnsignedError>)
    ensures
        r == sp_unsigned(s@),
{
    let n = s.unicode_len();
    if n == 0 {
        return Err(UnsignedError::Invalid);
    }
    if s.get_char(0) == '+' {
        return Err(UnsignedError::LeadingPlus);
    }
    let mut i: usize = 0;
    let mut acc: u128 = 0;
    while i < n
        invariant
            n == s@.len(),
            0 <= i <= n,
            sp_all_digits(s@.subrange(0, i as int)),
            acc == sp_digits_val(s@.subrange(0, i as int)),
            acc <= u64::MAX,
            s@.len() > 0 && s@[0] != '+',
        decreases n - i,
    {
        let c = s.get_char(i);
        if !(c >= '0' && c <= '9') {
            return Err(UnsignedError::Invalid);
        }
        let d: u128 = (c as u32 - '0' as u32) as u128;
        proof {
            let p = s@.subrange(0, i as int);
            let q = s@.subrange(0, i + 1);
            assert(q.drop_last() =~= p);
            assert(q.last() == s@[i as int]);
        }
        acc = acc * 10 + d;
        i = i + 1;
        if acc > u64::MAX as u128 {
            proof {
                if sp_all_digits(s@) && sp_digits_val(s@) <= u64::MAX {
                    lemma_digits_val_prefix(s@, i as int);
                }
            }
            return Err(UnsignedError::Invalid);
        }
    }
    proof {
        assert(s@.subrange(0, n as int) =~= s@);
    }
    Ok(acc as u64)
}

/// The Fortran-logical reading of a token: an optional leading dot, then
/// a single case-insensitive `T` or `F`; the rest is ignored.
pub open spec fn sp_logical(s: Seq<char>) -> Option<bool> {
    let t = if s.len() > 0 && s[0] == '.' {
        s.drop_first()
    } else {
        s
    };
    if t.len() > 0 && (t[0] == 't' || t[0] == 'T') {
        Some(true)
    } else if t.len() > 0 && (t[0] == 'f' || t[0] == 'F') {
        Some(false)
    } else {
        None
    }
}

/// Reads a token as a Fortran-style logical.
pub fn parse_logical(s: &str) -> (r: Option<bool>)
    ensures
        r == sp_logical(s@),
{
    let n = s.unicode_len();
    if n == 0 {
        return None;
    }
    let first = s.get_char(0);
    let (c, present) = if first == '.' {
        if n >= 2 {
            (s.get_char(1), true)
        } else {
            (' ', false)
        }
    } else {
        (first, true)
    };
    if !present {
        return None;
    }
    if c == 't' || c == 'T' {
        Some(true)
    } else if c == 'f' || c == 'F' {
        Some(false)
    } else {
        None
    }
}

// ---------------------------------------------------------------------------
// Decimal rendering of unsigned integers (used by the writer).

/// The digit character of a value below ten.
pub open spec fn spec_digit_char(d: int) -> char {
    if d == 0 { '0' }
    else if d == 1 { '1' }
    else if d == 2 { '2' }
    else if d == 3 { '3' }
    else if d == 4 { '4' }
    else if d == 5 { '5' }
    else if d == 6 { '6' }
    else if d == 7 { '7' }
    else if d == 8 { '8' }
    else { '9' }
}

/// The decimal rendering of a non-negative integer.
pub open spec fn sp_dec_chars(n: int) -> Seq<char>
    recommends
        n >= 0,
    decreases n,
{
    if n < 10 {
        seq![spec_digit_char(n)]
    } else {
        sp_dec_chars(n / 10).push(spec_digit_char(n % 10))
    }
}

pub(crate) fn digit_str(d: u64) -> (r: &'static str)
    requires
        d < 10,
    ensures
        r@ =~= seq![spec_digit_char(d as int)],
{
    proof {
        reveal_strlit("0");
        reveal_strlit("1");
        reveal_strlit("2");
        reveal_strlit("3");
        reveal_strlit("4");
        reveal_strlit("5");
        reveal_strlit("6");
        reveal_strlit("7");
        reveal_strlit("8");
        reveal_strlit("9");
    }
    match d {
        0 => "0",
        1 => "1",
        2 => "2",
        3 => "3",
        4 => "4",
        5 => "5",
        6 => "6",
        7 => "7",
        8 => "8",
        _ => "9",
    }
}

/// Renders an unsigned integer in decimal.
pub fn dec_string(n: u64) -> (r: String)
    ensures
        r@ == sp_dec_chars(n as int),
    decreases n,
{
    if n < 10 {
        digit_str(n).to_owned()
    } else {
        let mut s = dec_string(n / 10);
        s.append(digit_str(n % 10));
        proof {
            assert(s@ =~= sp_dec_chars((n / 10) as int).push(spec_digit_char((n % 10) as int)));
        }
        s
    }
}

/// A decimal rendering is non-empty, all digits, and reads back as the
/// value it was made from.
pub proof fn lemma_dec_chars_ok(n: int)
    requires
        0 <= n,
    ensures
        sp_dec_chars(n).len() >= 1,
        sp_all_digits(sp_dec_chars(n)),
        sp_digits_val(sp_dec_chars(n)) == n,
    decreases n,
{
    if n < 10 {
        let q = sp_dec_chars(n);
        assert(q == seq![spec_digit_char(n)]);
        assert(spec_is_digit(spec_digit_char(n)));
        assert(q.drop_last() =~= Seq::<char>::empty());
        assert(sp_digits_val(q.drop_last()) == 0);
        assert(q.last() == spec_digit_char(n));
        assert(sp_digits_val(q) == sp_digits_val(q.drop_last()) * 10 + spec_digit_val(q.last()));
        assert(spec_digit_val(spec_digit_char(n)) == n);
    } else {
        lemma_dec_chars_ok(n / 10);
        let p = sp_dec_chars(n / 10);
        let q = sp_dec_chars(n);
        assert(q == p.push(spec_digit_char(n % 10)));
        assert(q.drop_last() =~= p);
        assert(q.last() == spec_digit_char(n % 10));
        assert(spec_is_digit(spec_digit_char(n % 10)));
        assert(spec_digit_val(spec_digit_char(n % 10)) == n % 10);
        assert forall|i: int| 0 <= i < q.len() implies spec_is_digit(q[i]) by {
            if i < p.len() {
                assert(q[i] == p[i]);
            }
        }
        assert(sp_digits_val(q) == sp_digits_val(p) * 10 + (n % 10));
    }
}

/// The decimal rendering of a 64-bit value parses back as that value.
pub proof fn lemma_dec_round_trip(n: u64)
    ensures
        sp_unsigned(sp_dec_chars(n as int)) == Ok::<u64, UnsignedError>(n),
{
    lemma_dec_chars_ok(n as int);
    let s = sp_dec_chars(n as int);
    assert(spec_is_digit(s[0]));
    assert(s[0] != '+');
}

/// The fixed description of each failure kind.
pub open spec fn sp_kind_text(k: ParseErrorKind) -> Seq<char> {
    match k {
        ParseErrorKind::InvalidNumber => "invalid real number"@,
        ParseErrorKind::InvalidLogical => "invalid Fortran logical value"@,
        ParseErrorKind::LeadingPlusNotAllowed => "invalid digit for integer"@,
        ParseErrorKind::UnexpectedEndOfInput => "unexpected end of input"@,
        ParseErrorKind::ScaleCannotBeZero => "scale cannot be zero"@,
        ParseErrorKind::ScaleCannotBeNan => "scale cannot be nan"@,
        ParseErrorKind::TooManyScaleValues => "too many reals on scale line (expected just one)"@,
        ParseErrorKind::InconsistentGroupCount => "inconsistent number of counts"@,
        ParseErrorKind::NoAtoms => "there must be at least one atom"@,
        ParseErrorKind::InvalidSymbol => "invalid symbol on symbols line"@,
        ParseErrorKind::UnexpectedTrailingContent => "expected end of file"@,
    }
}

/// A position rendered one-based: the index plus one (the unreachable
/// edge of the index range saturates instead of wrapping).
pub open spec fn sp_one_based(n: int) -> int {
    if n >= u64::MAX {
        u64::MAX as int
    } else {
        n + 1
    }
}

impl ParseErrorKind {
    /// A short description of the failure.
    pub fn text(&self) -> (r: &'static str)
        ensures
            r@ == sp_kind_text(*self),
    {
        match self {
            ParseErrorKind::InvalidNumber => "invalid real number",
            ParseErrorKind::InvalidLogical => "invalid Fortran logical value",
            ParseErrorKind::LeadingPlusNotAllowed => "invalid digit for integer",
            ParseErrorKind::UnexpectedEndOfInput => "unexpected end of input",
            ParseErrorKind::ScaleCannotBeZero => "scale cannot be zero",
            ParseErrorKind::ScaleCannotBeNan => "scale cannot be nan",
            ParseErrorKind::TooManyScaleValues => {
                "too many reals on scale line (expected just one)"
            }
            ParseErrorKind::InconsistentGroupCount => "inconsistent number of counts",
            ParseErrorKind::NoAtoms => "there must be at least one atom",
            ParseErrorKind::InvalidSymbol => "invalid symbol on symbols line",
            ParseErrorKind::UnexpectedTrailingContent => "expected end of file",
        }
    }
}

/// A position rendered one-based (the edge of the index range saturates).
fn one_based(n: usize) -> (r: u64)
    ensures
        r as int == sp_one_based(n as int),
{
    let v = n as u64;
    if v == u64::MAX {
        v
    } else {
        v + 1
    }
}

/// The message of an error: the source name (or a placeholder), then the
/// one-based line and column as far as they are known, then the kind.
pub open spec fn sp_message(e: ParseError) -> Seq<char> {
    let head = match e.path {
        Some(p) => p@ + ":"@,
        None => "<input>:"@,
    };
    let pos = match (e.line, e.col) {
        (None, _) => Seq::<char>::empty(),
        (Some(l), None) => sp_dec_chars(sp_one_based(l as int)) + ": "@,
        (Some(l), Some(c)) => sp_dec_chars(sp_one_based(l as int)) + ":"@ + sp_dec_chars(
            sp_one_based(c as int),
        ) + ": "@,
    };
    head + pos + sp_kind_text(e.kind)
}

impl ParseError {
    /// A human-readable message: the source name (or a placeholder), the
    /// one-based line and column when known, and what went wrong.
    pub fn message(&self) -> (r: String)
        ensures
            r@ == sp_message(*self),
    {
        let mut out: String = match &self.path {
            Some(p) => {
                let mut s = p.clone();
                s.append(":");
                s
            }
            None => "<input>:".to_owned(),
        };
        match (&self.line, &self.col) {
            (None, _) => {}
            (Some(l), None) => {
                let d = dec_string(one_based(*l));
                out.append(d.as_str());
                out.append(": ");
            }
            (Some(l), Some(c)) => {
                let d = dec_string(one_based(*l));
                out.append(d.as_str());
                out.append(":");
                let d2 = dec_string(one_based(*c));
                out.append(d2.as_str());
                out.append(": ");
            }
        }
        out.append(self.kind.text());
        proof {
            assert(out@ =~= sp_message(*self));
        }
        out
    }
}

} // verus!
