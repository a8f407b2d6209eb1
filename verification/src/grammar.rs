//! The format grammar: a strict top-to-bottom walk over the input lines.
//!
//! The whole grammar is stated as specification functions over the line
//! sequence; [`from_lines`] is the executable parser, and its contract says
//! that it returns exactly what the grammar denotes, error positions
//! included.

use vstd::prelude::*;

use crate::num::{
    real_accept, real_is_nan, real_is_negative, real_is_zero, sp_real_accept, sp_real_is_nan,
    sp_real_is_negative, sp_real_is_zero, sp_strip_sign, Real,
};
use crate::parse::{
    is_ascii_whitespace, parse_logical, sp_is_blank, sp_logical, sp_unsigned, sp_words,
    spec_is_digit, spec_is_ws, ErrView, Lines, ParseError, ParseErrorKind, Spanned, WordView,
};
use crate::types::{
    is_valid_symbol, Bool3, Coords, Mat3, MatView, R3View, RawPoscar, RawView, Real3, ScaleLine,
    ScaleView, sp_total, spec_valid_symbol,
};
use crate::types::Poscar;
use vstd::string::StrSliceExecFns;

verus! {

// ---------------------------------------------------------------------------
// Ghost error constructors.

/// An error at a line and column.
pub open spec fn ev_at(kind: ParseErrorKind, line: int, col: int) -> ErrView {
    ErrView { kind, line: Some(line), col: Some(col) }
}

/// An error at a line, with no column (a missing line or a missing word).
pub open spec fn ev_line(kind: ParseErrorKind, line: int) -> ErrView {
    ErrView { kind, line: Some(line), col: None }
}

// ---------------------------------------------------------------------------
// The scale line.

/// Reading of the scale line (line 1): the first word is the scale value;
/// negative selects volume mode; zero and NaN are illegal; a second
/// real-valued word is the legacy per-axis form, which is rejected.
pub open spec fn sp_scale_line(ls: Seq<Seq<char>>) -> Result<ScaleView, ErrView> {
    if ls.len() <= 1 {
        Err(ev_line(ParseErrorKind::UnexpectedEndOfInput, 1))
    } else {
        let ws = sp_words(ls[1]);
        if ws.len() == 0 {
            Err(ev_line(ParseErrorKind::UnexpectedEndOfInput, 1))
        } else {
            let w = ws[0];
            if !sp_real_accept(w.text) {
                Err(ev_at(ParseErrorKind::InvalidNumber, 1, w.col))
            } else if sp_real_is_zero(w.text) {
                Err(ev_at(ParseErrorKind::ScaleCannotBeZero, 1, w.col))
            } else if sp_real_is_nan(w.text) {
                Err(ev_at(ParseErrorKind::ScaleCannotBeNan, 1, w.col))
            } else if ws.len() >= 2 && sp_real_accept(ws[1].text) {
                Err(ev_at(ParseErrorKind::TooManyScaleValues, 1, ws[1].col))
            } else if sp_real_is_negative(w.text) {
                Ok(ScaleView::Volume(sp_strip_sign(w.text)))
            } else {
                Ok(ScaleView::Factor(w.text))
            }
        }
    }
}

// ---------------------------------------------------------------------------
// Rows of three reals (lattice rows, positions, velocities).

/// Reading of three real-number words at the head of line `i`; words past
/// the third are free-form comment.
pub open spec fn sp_row3(ls: Seq<Seq<char>>, i: int) -> Result<R3View, ErrView> {
    if ls.len() <= i {
        Err(ev_line(ParseErrorKind::UnexpectedEndOfInput, i))
    } else {
        let ws = sp_words(ls[i]);
        if ws.len() < 1 {
            Err(ev_line(ParseErrorKind::UnexpectedEndOfInput, i))
        } else if !sp_real_accept(ws[0].text) {
            Err(ev_at(ParseErrorKind::InvalidNumber, i, ws[0].col))
        } else if ws.len() < 2 {
            Err(ev_line(ParseErrorKind::UnexpectedEndOfInput, i))
        } else if !sp_real_accept(ws[1].text) {
            Err(ev_at(ParseErrorKind::InvalidNumber, i, ws[1].col))
        } else if ws.len() < 3 {
            Err(ev_line(ParseErrorKind::UnexpectedEndOfInput, i))
        } else if !sp_real_accept(ws[2].text) {
            Err(ev_at(ParseErrorKind::InvalidNumber, i, ws[2].col))
        } else {
            Ok(R3View { x: ws[0].text, y: ws[1].text, z: ws[2].text })
        }
    }
}

/// Reading of the three logical words that follow the coordinates on a
/// position line when selective dynamics is enabled.
pub open spec fn sp_row_flags(ls: Seq<Seq<char>>, i: int) -> Result<Bool3, ErrView> {
    let ws = sp_words(ls[i]);
    if ws.len() < 4 {
        Err(ev_line(ParseErrorKind::UnexpectedEndOfInput, i))
    } else if sp_logical(ws[3].text) is None {
        Err(ev_at(ParseErrorKind::InvalidLogical, i, ws[3].col))
    } else if ws.len() < 5 {
        Err(ev_line(ParseErrorKind::UnexpectedEndOfInput, i))
    } else if sp_logical(ws[4].text) is None {
        Err(ev_at(ParseErrorKind::InvalidLogical, i, ws[4].col))
    } else if ws.len() < 6 {
        Err(ev_line(ParseErrorKind::UnexpectedEndOfInput, i))
    } else if sp_logical(ws[5].text) is None {
        Err(ev_at(ParseErrorKind::InvalidLogical, i, ws[5].col))
    } else {
        Ok(Bool3(
            sp_logical(ws[3].text)->Some_0,
            sp_logical(ws[4].text)->Some_0,
            sp_logical(ws[5].text)->Some_0,
        ))
    }
}

/// The data rows beginning at line `i`: `k` rows of three reals, each
/// followed by three logicals when `sel` is set.
pub struct RowsAcc {
    pub rows: Seq<R3View>,
    pub flags: Seq<Bool3>,
}

pub open spec fn sp_rows(ls: Seq<Seq<char>>, i: int, k: int, sel: bool) -> Result<
    RowsAcc,
    ErrView,
>
    decreases k when k >= 0
{
    if k <= 0 {
        Ok(RowsAcc { rows: Seq::empty(), flags: Seq::empty() })
    } else {
        match sp_row3(ls, i) {
            Err(e) => Err(e),
            Ok(row) => {
                if sel && sp_row_flags(ls, i) is Err {
                    Err(sp_row_flags(ls, i)->Err_0)
                } else {
                    match sp_rows(ls, i + 1, k - 1, sel) {
                        Err(e) => Err(e),
                        Ok(acc) => Ok(
                            RowsAcc {
                                rows: seq![row] + acc.rows,
                                flags: if sel {
                                    seq![sp_row_flags(ls, i)->Ok_0] + acc.flags
                                } else {
                                    Seq::empty()
                                },
                            },
                        ),
                    }
                }
            }
        }
    }
}

// ---------------------------------------------------------------------------
// The symbols/counts block.

/// The longest prefix of the words from index `k` on that read as
/// unsigned integers; the first word that does not ends the counts, and
/// it and everything after it are free-form comment.
pub open spec fn sp_counts_prefix(ws: Seq<WordView>, k: int) -> Seq<u64>
    decreases ws.len() - k when 0 <= k <= ws.len()
{
    if k >= ws.len() || !(sp_unsigned(ws[k].text) is Ok) {
        Seq::empty()
    } else {
        seq![sp_unsigned(ws[k].text)->Ok_0] + sp_counts_prefix(ws, k + 1)
    }
}

/// The first word, at or after index `k`, that is not a legal symbol.
pub open spec fn sp_first_bad_word(ws: Seq<WordView>, k: int) -> Option<int>
    decreases ws.len() - k when 0 <= k <= ws.len()
{
    if k >= ws.len() {
        None
    } else if !spec_valid_symbol(ws[k].text) {
        Some(k)
    } else {
        sp_first_bad_word(ws, k + 1)
    }
}

/// The outcome of the symbols/counts block.
pub struct CountsSec {
    pub symbols: Option<Seq<Seq<char>>>,
    pub counts: Seq<u64>,
    /// The line after the block.
    pub next: int,
}

/// Reading of the symbols/counts block, which begins at line 5.  A line
/// whose first word starts with a digit is the counts line itself;
/// otherwise that line carries the symbols and the next line the counts.
/// The checks run in the fixed order: the symbols/counts coupling, the
/// at-least-one-atom rule, and only then the legality of each symbol.
pub open spec fn sp_counts_block(ls: Seq<Seq<char>>) -> Result<CountsSec, ErrView> {
    if ls.len() <= 5 {
        Err(ev_line(ParseErrorKind::UnexpectedEndOfInput, 5))
    } else {
        let ws5 = sp_words(ls[5]);
        if ws5.len() == 0 {
            Err(ev_line(ParseErrorKind::UnexpectedEndOfInput, 5))
        } else if spec_is_digit(ws5[0].text[0]) {
            sp_counts_line(ls, 5, None)
        } else if ls.len() <= 6 {
            Err(ev_line(ParseErrorKind::UnexpectedEndOfInput, 6))
        } else {
            let counts = sp_counts_prefix(sp_words(ls[6]), 0);
            if ws5.len() != counts.len() {
                Err(ev_at(ParseErrorKind::InconsistentGroupCount, 6, 0))
            } else if sp_total(counts) == 0 {
                Err(ev_at(ParseErrorKind::NoAtoms, 6, 0))
            } else if sp_first_bad_word(ws5, 0) is Some {
                Err(
                    ev_at(
                        ParseErrorKind::InvalidSymbol,
                        5,
                        ws5[sp_first_bad_word(ws5, 0)->Some_0].col,
                    ),
                )
            } else {
                Ok(
                    CountsSec {
                        symbols: Some(ws5.map_values(|w: WordView| w.text)),
                        counts,
                        next: 7,
                    },
                )
            }
        }
    }
}

/// Reading of the counts line at index `i`, with the symbols (if any)
/// already in hand.
pub open spec fn sp_counts_line(
    ls: Seq<Seq<char>>,
    i: int,
    symbols: Option<Seq<Seq<char>>>,
) -> Result<CountsSec, ErrView> {
    let counts = sp_counts_prefix(sp_words(ls[i]), 0);
    if symbols matches Some(syms) && syms.len() != counts.len() {
        Err(ev_at(ParseErrorKind::InconsistentGroupCount, i, 0))
    } else if sp_total(counts) == 0 {
        Err(ev_at(ParseErrorKind::NoAtoms, i, 0))
    } else {
        Ok(CountsSec { symbols, counts, next: i + 1 })
    }
}

// ---------------------------------------------------------------------------
// Flag lines.

/// Whether a coordinate-system line selects Cartesian: its first
/// character, verbatim, is one of `c`, `C`, `k`, `K`.  Anything else --
/// including an empty line -- selects fractional coordinates.
pub open spec fn sp_line_is_cart(line: Seq<char>) -> bool {
    line.len() > 0 && (line[0] == 'c' || line[0] == 'C' || line[0] == 'k' || line[0] == 'K')
}

/// Whether a line enables selective dynamics: its first character,
/// verbatim, is `s` or `S`.
pub open spec fn sp_line_is_sel(line: Seq<char>) -> bool {
    line.len() > 0 && (line[0] == 's' || line[0] == 'S')
}

// ---------------------------------------------------------------------------
// Trailing input and the optional velocity block.

/// Whether every line from `i` on is blank.
pub open spec fn sp_all_blank(ls: Seq<Seq<char>>, i: int) -> bool {
    forall|j: int| i <= j < ls.len() ==> sp_is_blank(ls[j])
}

/// The first non-blank line at or after `i`.
pub open spec fn sp_first_nonblank(ls: Seq<Seq<char>>, i: int) -> int
    decreases ls.len() - i when i <= ls.len()
{
    if i >= ls.len() {
        i
    } else if !sp_is_blank(ls[i]) {
        i
    } else {
        sp_first_nonblank(ls, i + 1)
    }
}

/// The trailing check from line `i` on: everything left must be blank.
pub open spec fn sp_trailing(ls: Seq<Seq<char>>, i: int) -> Result<(), ErrView> {
    if sp_all_blank(ls, i) {
        Ok(())
    } else {
        Err(ev_at(ParseErrorKind::UnexpectedTrailingContent, sp_first_nonblank(ls, i), 0))
    }
}

/// The optional velocity block beginning at line `i`.  When everything
/// left is blank there is none; otherwise line `i` is the
/// coordinate-system line (a blank line means fractional) and `n` rows of
/// three reals follow, and then only blank lines may remain.
pub open spec fn sp_velocity_block(ls: Seq<Seq<char>>, i: int, n: int) -> Result<
    Option<Coords<Seq<R3View>>>,
    ErrView,
> {
    if sp_all_blank(ls, i) {
        Ok(None)
    } else {
        let cart = sp_line_is_cart(ls[i]);
        match sp_rows(ls, i + 1, n, false) {
            Err(e) => Err(e),
            Ok(acc) => match sp_trailing(ls, i + 1 + n) {
                Err(e) => Err(e),
                Ok(u) => Ok(
                    Some(
                        if cart {
                            Coords::Cart(acc.rows)
                        } else {
                            Coords::Frac(acc.rows)
                        },
                    ),
                ),
            },
        }
    }
}

// ---------------------------------------------------------------------------
// The whole grammar.

/// Reading of a whole file, given as its lines with terminators already
/// stripped.  Line 0 is the comment, verbatim; line 1 the scale; lines 2
/// to 4 the lattice; then the symbols/counts block, the optional
/// selective-dynamics flag, the coordinate-system line, one line per
/// atom, and the optional velocity block; anything further must be blank.
pub open spec fn sp_parse(ls: Seq<Seq<char>>) -> Result<RawView, ErrView> {
    if ls.len() == 0 {
        Err(ev_line(ParseErrorKind::UnexpectedEndOfInput, 0))
    } else {
        let comment = ls[0];
        match sp_scale_line(ls) {
            Err(e) => Err(e),
            Ok(scale) => match sp_row3(ls, 2) {
                Err(e) => Err(e),
                Ok(r0) => match sp_row3(ls, 3) {
                    Err(e) => Err(e),
                    Ok(r1) => match sp_row3(ls, 4) {
                        Err(e) => Err(e),
                        Ok(r2) => match sp_counts_block(ls) {
                            Err(e) => Err(e),
                            Ok(cs) => {
                                let f = cs.next;
                                if ls.len() <= f {
                                    Err(ev_line(ParseErrorKind::UnexpectedEndOfInput, f))
                                } else {
                                    let sel = sp_line_is_sel(ls[f]);
                                    let c = if sel {
                                        f + 1
                                    } else {
                                        f
                                    };
                                    if ls.len() <= c {
                                        Err(ev_line(ParseErrorKind::UnexpectedEndOfInput, c))
                                    } else {
                                        let cart = sp_line_is_cart(ls[c]);
                                        let n = sp_total(cs.counts);
                                        match sp_rows(ls, c + 1, n, sel) {
                                            Err(e) => Err(e),
                                            Ok(acc) => match sp_velocity_block(
                                                ls,
                                                c + 1 + n,
                                                n,
                                            ) {
                                                Err(e) => Err(e),
                                                Ok(vel) => Ok(
                                                    RawView {
                                                        comment,
                                                        scale,
                                                        lattice: MatView { r0, r1, r2 },
                                                        symbols: cs.symbols,
                                                        counts: cs.counts,
                                                        positions: if cart {
                                                            Coords::Cart(acc.rows)
                                                        } else {
                                                            Coords::Frac(acc.rows)
                                                        },
                                                        velocities: vel,
                                                        dynamics: if sel {
                                                            Some(acc.flags)
                                                        } else {
                                                            None
                                                        },
                                                    },
                                                ),
                                            },
                                        }
                                    }
                                }
                            }
                        },
                    },
                },
            },
        }
    }
}

// ---------------------------------------------------------------------------
// Supporting lemmas for the executable parser.

/// Splitting a run of data rows at `j`.
pub proof fn lemma_rows_split(ls: Seq<Seq<char>>, i: int, j: int, k: int, sel: bool)
    requires
        0 <= j <= k,
    ensures
        sp_rows(ls, i, k, sel) == (match sp_rows(ls, i, j, sel) {
            Err(e) => Err::<RowsAcc, ErrView>(e),
            Ok(a) => match sp_rows(ls, i + j, k - j, sel) {
                Err(e) => Err(e),
                Ok(b) => Ok(RowsAcc { rows: a.rows + b.rows, flags: a.flags + b.flags }),
            },
        }),
    decreases j,
{
    if j == 0 {
        match sp_rows(ls, i, k, sel) {
            Err(e) => {}
            Ok(b) => {
                assert(Seq::<R3View>::empty() + b.rows =~= b.rows);
                assert(Seq::<Bool3>::empty() + b.flags =~= b.flags);
            }
        }
    } else {
        lemma_rows_split(ls, i + 1, j - 1, k - 1, sel);
        match sp_row3(ls, i) {
            Err(e) => {}
            Ok(row) => {
                if sel && sp_row_flags(ls, i) is Err {
                } else {
                    match sp_rows(ls, i + 1, j - 1, sel) {
                        Err(e) => {}
                        Ok(a) => {
                            match sp_rows(ls, i + j, k - j, sel) {
                                Err(e) => {}
                                Ok(b) => {
                                    assert((seq![row] + a.rows) + b.rows =~= seq![row] + (a.rows
                                        + b.rows));
                                    if sel {
                                        let fl = sp_row_flags(ls, i)->Ok_0;
                                        assert((seq![fl] + a.flags) + b.flags =~= seq![fl] + (
                                        a.flags + b.flags));
                                    } else {
                                        assert(Seq::<Bool3>::empty() + b.flags =~= b.flags);
                                    }
                                }
                            }
                        }
                    }
                }
            }
        }
    }
}

/// A successful run of rows has exactly as many rows as asked, and as
/// many flag triples when selective dynamics is on.
pub proof fn lemma_rows_len(ls: Seq<Seq<char>>, i: int, k: int, sel: bool)
    requires
        k >= 0,
        sp_rows(ls, i, k, sel) is Ok,
    ensures
        sp_rows(ls, i, k, sel)->Ok_0.rows.len() == k,
        sp_rows(ls, i, k, sel)->Ok_0.flags.len() == if sel { k } else { 0int },
    decreases k,
{
    if k > 0 {
        lemma_rows_len(ls, i + 1, k - 1, sel);
    }
}

/// The counts prefix spelled out: values of the leading words that read
/// as unsigned integers.
pub proof fn lemma_counts_prefix(ws: Seq<WordView>, i: int, k: int)
    requires
        0 <= i <= k <= ws.len(),
        forall|j: int| i <= j < k ==> sp_unsigned(#[trigger] ws[j].text) is Ok,
        k == ws.len() || sp_unsigned(ws[k].text) is Err,
    ensures
        sp_counts_prefix(ws, i) == Seq::new((k - i) as nat, |j: int| sp_unsigned(ws[i + j].text)->Ok_0),
    decreases k - i,
{
    if i == k {
        assert(sp_counts_prefix(ws, i) =~= Seq::new(0, |j: int| sp_unsigned(ws[i + j].text)->Ok_0));
    } else {
        lemma_counts_prefix(ws, i + 1, k);
        assert(sp_counts_prefix(ws, i) =~= Seq::new(
            (k - i) as nat,
            |j: int| sp_unsigned(ws[i + j].text)->Ok_0,
        ));
    }
}

/// The first illegal word and the first illegal symbol of the word texts
/// coincide.
proof fn lemma_first_bad_map(ws: Seq<WordView>, k: int)
    requires
        0 <= k <= ws.len(),
    ensures
        sp_first_bad_word(ws, k) == crate::types::sp_first_bad_symbol(
            ws.map_values(|w: WordView| w.text),
            k,
        ),
    decreases ws.len() - k,
{
    if k < ws.len() {
        lemma_first_bad_map(ws, k + 1);
    }
}

/// The first non-blank line found by a scan.
proof fn lemma_first_nonblank_char(ls: Seq<Seq<char>>, i: int, j: int)
    requires
        0 <= i <= j <= ls.len(),
        forall|k: int| i <= k < j ==> sp_is_blank(#[trigger] ls[k]),
        j == ls.len() || !sp_is_blank(ls[j]),
    ensures
        sp_first_nonblank(ls, i) == j,
    decreases j - i,
{
    if i < j {
        lemma_first_nonblank_char(ls, i + 1, j);
    }
}

// ---------------------------------------------------------------------------
// The executable parser.

/// Whether an error value reports the ghost failure `ev` under the given
/// source name.
pub open spec fn err_is(e: ParseError, path: Option<Seq<char>>, ev: ErrView) -> bool {
    &&& e@.kind == ev.kind
    &&& e@.line == ev.line
    &&& e@.col == ev.col
    &&& e.path.deep_view() == path
}

/// Whether the line is entirely whitespace.
fn is_blank_str(s: &str) -> (r: bool)
    ensures
        r == sp_is_blank(s@),
{
    let n = s.unicode_len();
    let mut i: usize = 0;
    while i < n
        invariant
            n == s@.len(),
            0 <= i <= n,
            forall|k: int| 0 <= k < i ==> spec_is_ws(s@[k]),
        decreases n - i,
    {
        if !is_ascii_whitespace(s.get_char(i)) {
            return false;
        }
        i = i + 1;
    }
    true
}

fn spanned_is_cart(line: &Spanned) -> (r: bool)
    ensures
        r == sp_line_is_cart(line@.s),
{
    match line.control_char() {
        Some(c) => c == 'c' || c == 'C' || c == 'k' || c == 'K',
        None => false,
    }
}

fn spanned_is_sel(line: &Spanned) -> (r: bool)
    ensures
        r == sp_line_is_sel(line@.s),
{
    match line.control_char() {
        Some(c) => c == 's' || c == 'S',
        None => false,
    }
}

/// Reads one data row: three reals, and three logicals when `sel` is set.
fn read_row3(l: &mut Lines, sel: bool) -> (r: Result<(Real3, Option<Bool3>), ParseError>)
    ensures
        final(l).path == old(l).path,
        final(l).lines == old(l).lines,
        ({
            let ls = old(l).lines.deep_view();
            let i = old(l).cur as int;
            let path = old(l).path.deep_view();
            match sp_row3(ls, i) {
                Err(ev) => r matches Err(e) && err_is(e, path, ev),
                Ok(row) => {
                    if sel {
                        match sp_row_flags(ls, i) {
                            Err(ev) => r matches Err(e) && err_is(e, path, ev),
                            Ok(fl) => r matches Ok(p) && p.0@ == row && p.1 == Some(fl)
                                && final(l).cur == old(l).cur + 1
                                && final(l).cur <= final(l).lines@.len(),
                        }
                    } else {
                        r matches Ok(p) && p.0@ == row && p.1 is None && final(l).cur == old(
                            l,
                        ).cur + 1 && final(l).cur <= final(l).lines@.len()
                    }
                },
            }
        }),
{
    let line = match l.next() {
        Ok(x) => x,
        Err(e) => {
            return Err(e);
        }
    };
    let mut ws = line.words();
    let w0 = match ws.next_or_err() {
        Ok(x) => x,
        Err(e) => {
            return Err(e);
        }
    };
    if !real_accept(w0.as_str()) {
        return Err(w0.error(ParseErrorKind::InvalidNumber));
    }
    let w1 = match ws.next_or_err() {
        Ok(x) => x,
        Err(e) => {
            return Err(e);
        }
    };
    if !real_accept(w1.as_str()) {
        return Err(w1.error(ParseErrorKind::InvalidNumber));
    }
    let w2 = match ws.next_or_err() {
        Ok(x) => x,
        Err(e) => {
            return Err(e);
        }
    };
    if !real_accept(w2.as_str()) {
        return Err(w2.error(ParseErrorKind::InvalidNumber));
    }
    let flags = if sel {
        let f0 = match ws.next_or_err() {
            Ok(x) => x,
            Err(e) => {
                return Err(e);
            }
        };
        let b0 = match parse_logical(f0.as_str()) {
            Some(b) => b,
            None => {
                return Err(f0.error(ParseErrorKind::InvalidLogical));
            }
        };
        let f1 = match ws.next_or_err() {
            Ok(x) => x,
            Err(e) => {
                return Err(e);
            }
        };
        let b1 = match parse_logical(f1.as_str()) {
            Some(b) => b,
            None => {
                return Err(f1.error(ParseErrorKind::InvalidLogical));
            }
        };
        let f2 = match ws.next_or_err() {
            Ok(x) => x,
            Err(e) => {
                return Err(e);
            }
        };
        let b2 = match parse_logical(f2.as_str()) {
            Some(b) => b,
            None => {
                return Err(f2.error(ParseErrorKind::InvalidLogical));
            }
        };
        Some(Bool3(b0, b1, b2))
    } else {
        None
    };
    let x = match Real::from_token(w0.s) {
        Some(v) => v,
        None => vstd::pervasive::unreached(),
    };
    let y = match Real::from_token(w1.s) {
        Some(v) => v,
        None => vstd::pervasive::unreached(),
    };
    let z = match Real::from_token(w2.s) {
        Some(v) => v,
        None => vstd::pervasive::unreached(),
    };
    Ok((Real3(x, y, z), flags))
}

/// Reads the scale line.
fn read_scale(l: &mut Lines) -> (r: Result<ScaleLine, ParseError>)
    requires
        old(l).cur == 1,
    ensures
        final(l).path == old(l).path,
        final(l).lines == old(l).lines,
        ({
            let ls = old(l).lines.deep_view();
            let path = old(l).path.deep_view();
            match sp_scale_line(ls) {
                Err(ev) => r matches Err(e) && err_is(e, path, ev),
                Ok(sv) => r matches Ok(s) && s@ == sv && final(l).cur == 2,
            }
        }),
{
    let line = match l.next() {
        Ok(x) => x,
        Err(e) => {
            return Err(e);
        }
    };
    let mut ws = line.words();
    let w0 = match ws.next_or_err() {
        Ok(x) => x,
        Err(e) => {
            return Err(e);
        }
    };
    if !real_accept(w0.as_str()) {
        return Err(w0.error(ParseErrorKind::InvalidNumber));
    }
    if real_is_zero(w0.as_str()) {
        return Err(w0.error(ParseErrorKind::ScaleCannotBeZero));
    }
    if real_is_nan(w0.as_str()) {
        return Err(w0.error(ParseErrorKind::ScaleCannotBeNan));
    }
    match ws.next() {
        Some(w1) => {
            if real_accept(w1.as_str()) {
                return Err(w1.error(ParseErrorKind::TooManyScaleValues));
            }
        }
        None => {}
    }
    let neg = real_is_negative(w0.as_str());
    let v = match Real::from_token(w0.s) {
        Some(v) => v,
        None => vstd::pervasive::unreached(),
    };
    if neg {
        Ok(ScaleLine::Volume(v.magnitude()))
    } else {
        Ok(ScaleLine::Factor(v))
    }
}

/// Reads the counts of one counts line: the longest prefix of its words
/// that read as unsigned integers.
fn read_counts(line: &Spanned) -> (r: Vec<u64>)
    requires
        line.wf(),
    ensures
        r@ == sp_counts_prefix(sp_words(line@.s), 0),
{
    let ghost ws = sp_words(line@.s);
    let mut cw = line.words();
    let mut out: Vec<u64> = Vec::new();
    let ghost k0: int = 0;
    loop
        invariant_except_break
            out@.len() == cw.idx,
            forall|q: int| 0 <= q < cw.idx ==> sp_unsigned(#[trigger] ws[q].text) is Ok,
            forall|q: int|
                0 <= q < cw.idx ==> out@[q] == sp_unsigned(#[trigger] ws[q].text)->Ok_0,
        invariant
            cw.words@.len() == ws.len(),
            forall|q: int|
                0 <= q < ws.len() ==> (#[trigger] cw.words@[q])@.s == ws[q].text,
            0 <= cw.idx <= ws.len(),
        ensures
            out@.len() <= ws.len(),
            forall|q: int| 0 <= q < out@.len() ==> sp_unsigned(#[trigger] ws[q].text) is Ok,
            forall|q: int|
                0 <= q < out@.len() ==> out@[q] == sp_unsigned(#[trigger] ws[q].text)->Ok_0,
            out@.len() == ws.len() || sp_unsigned(ws[out@.len() as int].text) is Err,
        decreases ws.len() - cw.idx,
    {
        match cw.next() {
            None => {
                break;
            }
            Some(w) => {
                match crate::parse::parse_unsigned(w.as_str()) {
                    Ok(v) => {
                        out.push(v);
                    }
                    Err(u) => {
                        proof {
                            assert(cw.idx - 1 == out@.len());
                        }
                        break;
                    }
                }
            }
        }
    }
    proof {
        lemma_counts_prefix(ws, 0, out@.len() as int);
        assert(out@ =~= Seq::new(out@.len(), |j: int| sp_unsigned(ws[0 + j].text)->Ok_0));
    }
    out
}

/// Reads the symbols/counts block.
fn read_counts_block(l: &mut Lines) -> (r: Result<(Option<Vec<String>>, Vec<u64>), ParseError>)
    requires
        old(l).cur == 5,
    ensures
        final(l).path == old(l).path,
        final(l).lines == old(l).lines,
        ({
            let ls = old(l).lines.deep_view();
            let path = old(l).path.deep_view();
            match sp_counts_block(ls) {
                Err(ev) => r matches Err(e) && err_is(e, path, ev),
                Ok(cs) => r matches Ok(p) && ({
                    &&& match p.0 {
                        Some(v) => cs.symbols == Some(v.deep_view()),
                        None => cs.symbols is None,
                    }
                    &&& p.1@ == cs.counts
                    &&& final(l).cur == cs.next
                }),
            }
        }),
{
    let ghost ls = old(l).lines.deep_view();
    let line5 = match l.next() {
        Ok(x) => x,
        Err(e) => {
            return Err(e);
        }
    };
    let ghost ws5 = sp_words(line5@.s);
    let mut ws = line5.words();
    let w0 = match ws.next_or_err() {
        Ok(x) => x,
        Err(e) => {
            return Err(e);
        }
    };
    proof {
        crate::parse::lemma_words_from_wf(line5@.s, 0);
        assert(ws5[0].text.len() > 0);
    }
    let c0 = w0.as_str().get_char(0);
    if c0 >= '0' && c0 <= '9' {
        let counts = read_counts(&line5);
        let n = crate::types::total_count(&counts);
        if n == 0 {
            return Err(line5.error(ParseErrorKind::NoAtoms));
        }
        Ok((None, counts))
    } else {
        // The line carries the symbols; the counts stand on the next
        // line, and its checks come before the symbols' own.
        let counts_line = match l.next() {
            Ok(x) => x,
            Err(e) => {
                return Err(e);
            }
        };
        let counts = read_counts(&counts_line);
        if ws.words.len() != counts.len() {
            return Err(counts_line.error(ParseErrorKind::InconsistentGroupCount));
        }
        let n = crate::types::total_count(&counts);
        if n == 0 {
            return Err(counts_line.error(ParseErrorKind::NoAtoms));
        }
        let mut syms: Vec<String> = Vec::new();
        let mut k: usize = 0;
        while k < ws.words.len()
            invariant
                l.path == old(l).path,
                l.lines == old(l).lines,
                l.cur == 7,
                ls == old(l).lines.deep_view(),
                old(l).cur == 5,
                ls.len() > 6,
                ws5 == sp_words(ls[5]),
                ws5.len() > 0,
                ws5[0].text.len() > 0,
                !spec_is_digit(ws5[0].text[0]),
                line5@.line == 5,
                line5@.col == 0,
                line5@.path == old(l).path.deep_view(),
                counts_line@.s == ls[6],
                counts@ == sp_counts_prefix(sp_words(ls[6]), 0),
                ws5.len() == counts@.len(),
                sp_total(counts@) != 0,
                ws.words@.len() == ws5.len(),
                forall|q: int|
                    0 <= q < ws5.len() ==> (#[trigger] ws.words@[q])@.s == ws5[q].text,
                forall|q: int|
                    0 <= q < ws5.len() ==> (#[trigger] ws.words@[q])@.col == line5@.col
                        + ws5[q].col,
                forall|q: int|
                    0 <= q < ws5.len() ==> (#[trigger] ws.words@[q])@.line == line5@.line,
                forall|q: int|
                    0 <= q < ws5.len() ==> (#[trigger] ws.words@[q])@.path == line5@.path,
                0 <= k <= ws5.len(),
                syms@.len() == k,
                forall|q: int| 0 <= q < k ==> spec_valid_symbol(#[trigger] ws5[q].text),
                forall|q: int| 0 <= q < k ==> (#[trigger] syms@[q])@ == ws5[q].text,
                sp_first_bad_word(ws5, 0) == sp_first_bad_word(ws5, k as int),
            decreases ws5.len() - k,
        {
            let w = &ws.words[k];
            if !is_valid_symbol(w.as_str()) {
                proof {
                    assert(sp_first_bad_word(ws5, k as int) == Some(k as int));
                }
                return Err(w.error(ParseErrorKind::InvalidSymbol));
            }
            syms.push(w.s.clone());
            k = k + 1;
        }
        proof {
            assert(sp_first_bad_word(ws5, ws5.len() as int) is None);
            assert(syms.deep_view() =~= ws5.map_values(|w: WordView| w.text));
        }
        Ok((Some(syms), counts))
    }
}

/// Reads `n` data rows.
fn read_rows(l: &mut Lines, n: u128, sel: bool) -> (r: Result<(Vec<Real3>, Vec<Bool3>), ParseError>)
    requires
        old(l).cur <= old(l).lines@.len(),
    ensures
        final(l).path == old(l).path,
        final(l).lines == old(l).lines,
        ({
            let ls = old(l).lines.deep_view();
            let i0 = old(l).cur as int;
            let path = old(l).path.deep_view();
            match sp_rows(ls, i0, n as int, sel) {
                Err(ev) => r matches Err(e) && err_is(e, path, ev),
                Ok(acc) => r matches Ok(p) && p.0.deep_view() == acc.rows && p.1@ == acc.flags
                    && final(l).cur == i0 + n && final(l).cur <= final(l).lines@.len(),
            }
        }),
{
    let ghost ls = old(l).lines.deep_view();
    let ghost i0 = old(l).cur as int;
    let ghost path = old(l).path.deep_view();
    let mut pos: Vec<Real3> = Vec::new();
    let mut dynv: Vec<Bool3> = Vec::new();
    proof {
        assert(pos.deep_view() =~= Seq::<R3View>::empty());
        assert(dynv@ =~= Seq::<Bool3>::empty());
    }
    let mut j: u128 = 0;
    while j < n
        invariant
            l.path == old(l).path,
            l.lines == old(l).lines,
            ls == old(l).lines.deep_view(),
            i0 == old(l).cur as int,
            path == old(l).path.deep_view(),
            0 <= j <= n,
            l.cur as int == i0 + j,
            l.cur <= l.lines@.len(),
            sp_rows(ls, i0, j as int, sel) == Ok::<RowsAcc, ErrView>(
                RowsAcc { rows: pos.deep_view(), flags: dynv@ },
            ),
        decreases n - j,
    {
        proof {
            lemma_rows_split(ls, i0, j as int, n as int, sel);
            lemma_rows_split(ls, i0, j as int, j + 1, sel);
        }
        match read_row3(l, sel) {
            Err(e) => {
                return Err(e);
            }
            Ok(p) => {
                let (t, fl) = p;
                proof {
                    assert(pos.deep_view().push(t@) =~= pos.deep_view() + seq![t@]);
                }
                let ghost old_pos = pos.deep_view();
                let ghost old_dyn = dynv@;
                pos.push(t);
                proof {
                    assert(pos.deep_view() =~= old_pos.push(t@));
                }
                if sel {
                    match fl {
                        Some(b) => {
                            dynv.push(b);
                            proof {
                                assert(dynv@ =~= old_dyn.push(b));
                            }
                        }
                        None => {
                            proof {
                                assert(false);
                            }
                        }
                    }
                }
                proof {
                    let one = sp_rows(ls, i0 + j, 1, sel);
                    assert(sp_rows(ls, i0 + j + 1, 0, sel) == Ok::<RowsAcc, ErrView>(
                        RowsAcc { rows: Seq::empty(), flags: Seq::empty() },
                    ));
                    assert(one is Ok);
                    assert(one->Ok_0.rows =~= seq![t@]);
                    if sel {
                        assert(one->Ok_0.flags =~= seq![sp_row_flags(ls, i0 + j)->Ok_0]);
                    } else {
                        assert(one->Ok_0.flags =~= Seq::<Bool3>::empty());
                    }
                    assert(old_pos + seq![t@] =~= pos.deep_view());
                    assert(sp_rows(ls, i0, j + 1, sel)->Ok_0.rows =~= pos.deep_view());
                    assert(sp_rows(ls, i0, j + 1, sel)->Ok_0.flags =~= dynv@);
                }
                j = j + 1;
            }
        }
    }
    Ok((pos, dynv))
}

/// Whether every line from the cursor on is blank.
fn all_remaining_blank(l: &Lines) -> (r: bool)
    requires
        l.cur <= l.lines@.len(),
    ensures
        r == sp_all_blank(l.lines.deep_view(), l.cur as int),
{
    let ghost ls = l.lines.deep_view();
    let mut j: usize = l.cur;
    while j < l.lines.len()
        invariant
            ls == l.lines.deep_view(),
            l.cur <= j <= ls.len(),
            forall|k: int| l.cur <= k < j ==> sp_is_blank(#[trigger] ls[k]),
        decreases ls.len() - j,
    {
        proof {
            assert(ls[j as int] == l.lines@[j as int]@);
        }
        if !is_blank_str(l.lines[j].as_str()) {
            return false;
        }
        j = j + 1;
    }
    true
}

/// Consumes the remaining lines, which must all be blank.
fn read_trailing(l: &mut Lines) -> (r: Result<(), ParseError>)
    requires
        old(l).cur <= old(l).lines@.len(),
    ensures
        final(l).path == old(l).path,
        final(l).lines == old(l).lines,
        ({
            let ls = old(l).lines.deep_view();
            let i0 = old(l).cur as int;
            let path = old(l).path.deep_view();
            match sp_trailing(ls, i0) {
                Ok(u) => r is Ok,
                Err(ev) => r matches Err(e) && err_is(e, path, ev),
            }
        }),
{
    let ghost ls = old(l).lines.deep_view();
    let ghost i0 = old(l).cur as int;
    while l.cur < l.lines.len()
        invariant
            l.path == old(l).path,
            l.lines == old(l).lines,
            ls == old(l).lines.deep_view(),
            i0 == old(l).cur as int,
            0 <= i0 <= l.cur as int <= ls.len(),
            forall|k: int| i0 <= k < l.cur ==> sp_is_blank(#[trigger] ls[k]),
        decreases ls.len() - l.cur,
    {
        let line = match l.next() {
            Ok(x) => x,
            Err(e) => {
                proof {
                    assert(false);
                }
                return Ok(());
            }
        };
        if !is_blank_str(line.as_str()) {
            proof {
                lemma_first_nonblank_char(ls, i0, line@.line);
                assert(!sp_all_blank(ls, i0));
            }
            return Err(line.error(ParseErrorKind::UnexpectedTrailingContent));
        }
    }
    proof {
        assert(sp_all_blank(ls, i0));
    }
    Ok(())
}

/// Reads the optional velocity block.
fn read_velocities(l: &mut Lines, n: u128) -> (r: Result<Option<Coords<Vec<Real3>>>, ParseError>)
    requires
        old(l).cur <= old(l).lines@.len(),
    ensures
        final(l).path == old(l).path,
        final(l).lines == old(l).lines,
        ({
            let ls = old(l).lines.deep_view();
            let i0 = old(l).cur as int;
            let path = old(l).path.deep_view();
            match sp_velocity_block(ls, i0, n as int) {
                Err(ev) => r matches Err(e) && err_is(e, path, ev),
                Ok(ov) => match ov {
                    None => r matches Ok(x) && x is None,
                    Some(cv) => r matches Ok(x) && (x matches Some(v) && v@ == cv),
                },
            }
        }),
{
    let ghost ls = old(l).lines.deep_view();
    let ghost i0 = old(l).cur as int;
    if all_remaining_blank(l) {
        return Ok(None);
    }
    proof {
        let w = choose|j: int| i0 <= j < ls.len() && !sp_is_blank(ls[j]);
        assert(i0 < ls.len());
    }
    let flag = match l.next() {
        Ok(x) => x,
        Err(e) => {
            proof {
                assert(false);
            }
            return Err(e);
        }
    };
    let cart = spanned_is_cart(&flag);
    let rows = match read_rows(l, n, false) {
        Ok(p) => p.0,
        Err(e) => {
            return Err(e);
        }
    };
    match read_trailing(l) {
        Ok(_) => {}
        Err(e) => {
            return Err(e);
        }
    }
    if cart {
        Ok(Some(Coords::Cart(rows)))
    } else {
        Ok(Some(Coords::Frac(rows)))
    }
}

// ---------------------------------------------------------------------------
// The parser entry point.

/// True when no line holds a line-terminator character: the scanner's
/// input contract (lines are handed in already split, terminators
/// stripped).
pub open spec fn sp_no_breaks(ls: Seq<Seq<char>>) -> bool {
    forall|i: int, j: int|
        0 <= i < ls.len() && 0 <= j < ls[i].len() ==> (#[trigger] ls[i][j]) != '\n' && ls[i][j]
            != '\r'
}

/// A structure the grammar produced always passes validation: the
/// grammar enforces every invariant as it reads.
pub proof fn lemma_parse_validates(ls: Seq<Seq<char>>)
    requires
        sp_parse(ls) is Ok,
        sp_no_breaks(ls),
    ensures
        crate::types::sp_validate(sp_parse(ls)->Ok_0) is None,
{
    let raw = sp_parse(ls)->Ok_0;
    let cs = sp_counts_block(ls)->Ok_0;
    let n = sp_total(cs.counts);
    let f = cs.next;
    let sel = sp_line_is_sel(ls[f]);
    let c = if sel {
        f + 1
    } else {
        f
    };

    // The comment is line 0, and no line holds a break.
    assert(!crate::types::sp_comment_has_break(raw.comment)) by {
        if crate::types::sp_comment_has_break(ls[0]) {
            let i = choose|i: int|
                0 <= i < ls[0].len() && (ls[0][i] == '\n' || ls[0][i] == '\r');
            assert(ls[0][i] != '\n' && ls[0][i] != '\r');
        }
    }

    // The scale payload is positive in either mode.
    assert(crate::num::sp_real_is_positive(crate::types::sp_scale_payload(raw.scale))) by {
        let t = sp_words(ls[1])[0].text;
        crate::num::lemma_accept_no_ws(t);
        if sp_real_is_negative(t) {
            crate::num::lemma_strip_accept(t);
            let m = sp_strip_sign(t);
            crate::num::lemma_accept_no_ws(m);
            if m[0] == '-' {
                assert(sp_strip_sign(m).len() == m.len() - 1);
                assert(false);
            }
        }
    }

    // Every symbol is legal.
    if cs.symbols is Some {
        let ws5 = sp_words(ls[5]);
        lemma_first_bad_map(ws5, 0);
    }

    // The rows give positions, dynamics and velocities their exact
    // lengths.
    crate::types::lemma_total_nonneg(cs.counts);
    lemma_rows_len(ls, c + 1, n, sel);
    match sp_velocity_block(ls, c + 1 + n, n)->Ok_0 {
        None => {}
        Some(cv) => {
            lemma_rows_len(ls, c + 1 + n + 1, n, false);
        }
    }
}

/// Reads a structure from its lines (terminators already stripped; no
/// line may hold one), with the optional source name used in error
/// messages.  Returns exactly what the grammar denotes, and the result
/// of the grammar always passes validation.
pub fn from_lines(lines: Vec<String>, path: Option<String>) -> (r: Result<Poscar, ParseError>)
    requires
        sp_no_breaks(lines.deep_view()),
    ensures
        match sp_parse(lines.deep_view()) {
            Ok(raw) => r matches Ok(p) && p@ == raw,
            Err(ev) => r matches Err(e) && err_is(e, path.deep_view(), ev),
        },
{
    let ghost ls = lines.deep_view();
    let ghost pv = path.deep_view();
    let mut l = Lines::new(lines, path);
    let line0 = match l.next() {
        Ok(x) => x,
        Err(e) => {
            return Err(e);
        }
    };
    let comment: String = line0.s;
    let scale = match read_scale(&mut l) {
        Ok(x) => x,
        Err(e) => {
            return Err(e);
        }
    };
    let row0 = match read_row3(&mut l, false) {
        Ok(p) => p.0,
        Err(e) => {
            return Err(e);
        }
    };
    let row1 = match read_row3(&mut l, false) {
        Ok(p) => p.0,
        Err(e) => {
            return Err(e);
        }
    };
    let row2 = match read_row3(&mut l, false) {
        Ok(p) => p.0,
        Err(e) => {
            return Err(e);
        }
    };
    let sym_counts = match read_counts_block(&mut l) {
        Ok(p) => p,
        Err(e) => {
            return Err(e);
        }
    };
    let (symbols, counts) = sym_counts;
    let flag_line = match l.next() {
        Ok(x) => x,
        Err(e) => {
            return Err(e);
        }
    };
    let sel = spanned_is_sel(&flag_line);
    let coord_line = if sel {
        match l.next() {
            Ok(x) => x,
            Err(e) => {
                return Err(e);
            }
        }
    } else {
        flag_line
    };
    let cart = spanned_is_cart(&coord_line);
    let n = crate::types::total_count(&counts);
    let rows_flags = match read_rows(&mut l, n, sel) {
        Ok(p) => p,
        Err(e) => {
            return Err(e);
        }
    };
    let (pos, dynv) = rows_flags;
    let velocities = match read_velocities(&mut l, n) {
        Ok(v) => v,
        Err(e) => {
            return Err(e);
        }
    };
    let raw = RawPoscar {
        comment,
        scale,
        lattice_vectors: Mat3(row0, row1, row2),
        group_symbols: symbols,
        group_counts: counts,
        positions: if cart {
            Coords::Cart(pos)
        } else {
            Coords::Frac(pos)
        },
        velocities,
        dynamics: if sel {
            Some(dynv)
        } else {
            None
        },
    };
    proof {
        lemma_parse_validates(ls);
        assert(raw@ == sp_parse(ls)->Ok_0);
    }
    match raw.validate() {
        Ok(p) => Ok(p),
        Err(e) => vstd::pervasive::unreached(),
    }
}

} // verus!
