//! The laws of the crate: what reading and writing, taken together,
//! guarantee.  The centrepiece is the round-trip theorem: a validated
//! structure, written out, reads back as exactly the same structure.

use vstd::prelude::*;

use crate::grammar::{
    sp_counts_block, sp_counts_prefix, sp_first_bad_word, sp_line_is_cart, sp_line_is_sel,
    sp_parse, sp_row3, sp_row_flags, sp_rows, sp_scale_line, sp_trailing, sp_velocity_block,
    sp_all_blank, CountsSec, RowsAcc,
};
use crate::num::{
    lemma_accept_no_ws, lemma_strip_accept, sp_real_accept, sp_real_is_nan, sp_real_is_negative,
    sp_real_is_positive, sp_real_is_zero, sp_strip_sign,
};
use crate::parse::{
    lemma_dec_chars_ok, lemma_dec_round_trip, lemma_skip_ws, lemma_skip_ws_char, lemma_word_end,
    lemma_word_end_char, lemma_words_from_wf, sp_dec_chars, sp_is_blank, sp_logical, sp_skip_ws,
    sp_unsigned, sp_word_end, sp_words, sp_words_from, spec_is_digit, spec_is_ws, ErrView,
    WordView,
};
use crate::types::{
    sp_first_bad_symbol, sp_r3_accepted, sp_scale_payload, sp_tokens_accepted, sp_total,
    sp_validate, spec_valid_symbol, Bool3, Coords, R3View, RawView, ScaleView,
};
use crate::write::{
    sp_cs_line, sp_counts_line_out, sp_flag3, sp_format, sp_join, sp_kw_cartesian, sp_kw_direct,
    sp_kw_seldyn, sp_pad2, sp_pos_line, sp_row_out, sp_scale_out, sp_sym_line, sp_vel_cs_line,
};

verus! {

/// The texts of the words of a line, the columns dropped.
pub open spec fn sp_word_texts_from(s: Seq<char>, i: int) -> Seq<Seq<char>> {
    sp_words_from(s, i).map_values(|w: WordView| w.text)
}

/// The texts of the words of a line.
pub open spec fn sp_word_texts(s: Seq<char>) -> Seq<Seq<char>> {
    sp_words(s).map_values(|w: WordView| w.text)
}

// ---------------------------------------------------------------------------
// Scanning a suffix is oblivious to what stands before it.

proof fn lemma_skip_ws_shift(s: Seq<char>, t: Seq<char>, i: int)
    requires
        0 <= i <= t.len(),
    ensures
        sp_skip_ws(s + t, s.len() + i) == s.len() + sp_skip_ws(t, i),
    decreases t.len() - i,
{
    assert((s + t).len() == s.len() + t.len());
    if i < t.len() {
        assert((s + t)[s.len() + i] == t[i]);
        if spec_is_ws(t[i]) {
            lemma_skip_ws_shift(s, t, i + 1);
        }
    }
}

proof fn lemma_word_end_shift(s: Seq<char>, t: Seq<char>, i: int)
    requires
        0 <= i <= t.len(),
    ensures
        sp_word_end(s + t, s.len() + i) == s.len() + sp_word_end(t, i),
    decreases t.len() - i,
{
    assert((s + t).len() == s.len() + t.len());
    if i < t.len() {
        assert((s + t)[s.len() + i] == t[i]);
        if !spec_is_ws(t[i]) {
            lemma_word_end_shift(s, t, i + 1);
        }
    }
}

/// The word texts of a suffix do not depend on the prefix before it.
proof fn lemma_words_shift(s: Seq<char>, t: Seq<char>, i: int)
    requires
        0 <= i <= t.len(),
    ensures
        sp_word_texts_from(s + t, s.len() + i) == sp_word_texts_from(t, i),
    decreases t.len() - i,
{
    lemma_skip_ws_shift(s, t, i);
    lemma_skip_ws(t, i);
    let a = sp_skip_ws(t, i);
    assert((s + t).len() == s.len() + t.len());
    if a >= t.len() {
        assert(sp_words_from(s + t, s.len() + i) =~= Seq::<WordView>::empty());
        assert(sp_words_from(t, i) =~= Seq::<WordView>::empty());
        assert(sp_word_texts_from(s + t, s.len() + i) =~= sp_word_texts_from(t, i));
    } else {
        lemma_word_end_shift(s, t, a);
        lemma_word_end(t, a);
        let b = sp_word_end(t, a);
        assert(b > a) by {
            if b == a {
                assert(spec_is_ws(t[a]));
            }
        }
        assert((s + t).subrange(s.len() + a, s.len() + b) =~= t.subrange(a, b));
        lemma_words_shift(s, t, b);
        let w_st = sp_words_from(s + t, s.len() + i);
        let w_t = sp_words_from(t, i);
        assert(w_st == seq![
            WordView { col: s.len() + a, text: (s + t).subrange(s.len() + a, s.len() + b) },
        ] + sp_words_from(s + t, s.len() + b));
        assert(w_t == seq![WordView { col: a, text: t.subrange(a, b) }] + sp_words_from(t, b));
        let lhs = sp_word_texts_from(s + t, s.len() + i);
        let rhs = sp_word_texts_from(t, i);
        assert(lhs.len() == w_st.len());
        assert(rhs.len() == w_t.len());
        assert(sp_word_texts_from(s + t, s.len() + b).len() == sp_words_from(
            s + t,
            s.len() + b,
        ).len());
        assert(sp_word_texts_from(t, b).len() == sp_words_from(t, b).len());
        assert(w_st.len() == w_t.len());
        assert forall|k: int| 0 <= k < lhs.len() implies lhs[k] == rhs[k] by {
            assert(lhs[k] == w_st[k].text);
            assert(rhs[k] == w_t[k].text);
            if k > 0 {
                assert(w_st[k] == sp_words_from(s + t, s.len() + b)[k - 1]);
                assert(w_t[k] == sp_words_from(t, b)[k - 1]);
                assert(sp_word_texts_from(s + t, s.len() + b)[k - 1] == sp_words_from(
                    s + t,
                    s.len() + b,
                )[k - 1].text);
                assert(sp_word_texts_from(t, b)[k - 1] == sp_words_from(t, b)[k - 1].text);
            }
        }
        assert(lhs =~= rhs);
    }
}

// ---------------------------------------------------------------------------
// A line that starts with whitespace and then a word.

/// A blank line has no words at all.
proof fn lemma_words_blank_from(s: Seq<char>, i: int)
    requires
        0 <= i <= s.len(),
        forall|j: int| i <= j < s.len() ==> spec_is_ws(s[j]),
    ensures
        sp_words_from(s, i) == Seq::<WordView>::empty(),
{
    lemma_skip_ws_char(s, i, s.len() as int);
    assert(sp_words_from(s, i) =~= Seq::<WordView>::empty());
}

/// A line of the shape `blank + token + rest`, the rest empty or opening
/// with whitespace: the first word is the token, and scanning continues
/// in the rest.
proof fn lemma_words_open(p: Seq<char>, t: Seq<char>, r: Seq<char>)
    requires
        sp_is_blank(p),
        t.len() > 0,
        forall|j: int| 0 <= j < t.len() ==> !spec_is_ws(t[j]),
        r.len() == 0 || spec_is_ws(r[0]),
    ensures
        sp_word_texts(p + t + r) == seq![t] + sp_word_texts(r),
{
    let s = p + t + r;
    assert(s.len() == p.len() + t.len() + r.len());
    assert forall|j: int| 0 <= j < p.len() implies spec_is_ws(s[j]) by {
        assert(s[j] == p[j]);
    }
    assert forall|j: int| p.len() <= j < p.len() + t.len() implies !spec_is_ws(s[j]) by {
        assert(s[j] == t[j - p.len()]);
    }
    let a = p.len() as int;
    let b = a + t.len();
    lemma_skip_ws_char(s, 0, a);
    if b < s.len() {
        assert(s[b] == r[0]);
    }
    lemma_word_end_char(s, a, b);
    assert(s.subrange(a, b) =~= t);
    assert(sp_words_from(s, 0) == seq![WordView { col: a, text: s.subrange(a, b) }]
        + sp_words_from(s, b));
    assert(p + t + r =~= (p + t) + r);
    lemma_words_shift(p + t, r, 0);
    assert(sp_word_texts_from(s, b) == sp_word_texts_from(r, 0));
    assert(sp_word_texts(p + t + r) =~= seq![t] + sp_word_texts(r));
}

/// The word texts of a row line are exactly its three tokens.
proof fn lemma_row_out_words(indent: Seq<char>, r: R3View)
    requires
        sp_is_blank(indent),
        sp_real_accept(r.x),
        sp_real_accept(r.y),
        sp_real_accept(r.z),
    ensures
        sp_word_texts(sp_row_out(indent, r)) == seq![r.x, r.y, r.z],
{
    lemma_accept_no_ws(r.x);
    lemma_accept_no_ws(r.y);
    lemma_accept_no_ws(r.z);
    let tail2 = seq![' '] + r.z;
    let tail1 = seq![' '] + r.y + tail2;
    assert(sp_row_out(indent, r) =~= indent + r.x + tail1);
    lemma_words_open(indent, r.x, tail1);
    assert(tail1 =~= seq![' '] + r.y + tail2);
    lemma_words_open(seq![' '], r.y, tail2);
    assert(tail2 =~= seq![' '] + r.z + Seq::<char>::empty());
    lemma_words_open(seq![' '], r.z, Seq::<char>::empty());
    assert(sp_word_texts(Seq::<char>::empty()) =~= Seq::<Seq<char>>::empty());
    assert(sp_word_texts(sp_row_out(indent, r)) =~= seq![r.x, r.y, r.z]);
}

// ---------------------------------------------------------------------------
// Lines of padded, joined items (the symbols and counts lines).

/// The word texts of a line made of a blank lead-in and items padded to
/// width two and joined by single spaces are the items themselves.
proof fn lemma_join_pad_words(p: Seq<char>, items: Seq<Seq<char>>)
    requires
        sp_is_blank(p),
        forall|i: int|
            0 <= i < items.len() ==> (#[trigger] items[i]).len() > 0 && forall|j: int|
                0 <= j < items[i].len() ==> !spec_is_ws(items[i][j]),
    ensures
        sp_word_texts(p + sp_join(items.map_values(|s: Seq<char>| sp_pad2(s)), seq![' '])) == items,
    decreases items.len(),
{
    let pads = items.map_values(|s: Seq<char>| sp_pad2(s));
    let line = p + sp_join(pads, seq![' ']);
    if items.len() == 0 {
        assert(pads.len() == 0);
        assert(line =~= p);
        lemma_words_blank_from(p, 0);
        assert(sp_word_texts(line) =~= items);
    } else {
        let i0 = items[0];
        assert(pads[0] == sp_pad2(i0));
        let padding: Seq<char> = if i0.len() >= 2 {
            Seq::empty()
        } else if i0.len() == 1 {
            seq![' ']
        } else {
            seq![' ', ' ']
        };
        assert(i0.len() > 0);
        assert(sp_pad2(i0) =~= padding + i0);
        assert(sp_is_blank(p + padding));
        if items.len() == 1 {
            assert(sp_join(pads, seq![' ']) == pads[0]);
            assert(line =~= (p + padding) + i0 + Seq::<char>::empty());
            lemma_words_open(p + padding, i0, Seq::empty());
            lemma_words_blank_from(Seq::empty(), 0);
            assert(sp_word_texts(Seq::<char>::empty()) =~= Seq::<Seq<char>>::empty());
            assert(sp_word_texts(line) =~= items);
        } else {
            assert(sp_join(pads, seq![' ']) == pads[0] + seq![' '] + sp_join(
                pads.drop_first(),
                seq![' '],
            ));
            assert(pads.drop_first() =~= items.drop_first().map_values(
                |s: Seq<char>| sp_pad2(s),
            ));
            let rest = seq![' '] + sp_join(pads.drop_first(), seq![' ']);
            assert(line =~= (p + padding) + i0 + rest);
            lemma_words_open(p + padding, i0, rest);
            assert(rest =~= seq![' '] + sp_join(
                items.drop_first().map_values(|s: Seq<char>| sp_pad2(s)),
                seq![' '],
            ));
            assert(sp_is_blank(seq![' ']));
            assert forall|i: int| 0 <= i < items.drop_first().len() implies (#[trigger] items.drop_first()[i]).len()
                > 0 && forall|j: int|
                0 <= j < items.drop_first()[i].len() ==> !spec_is_ws(items.drop_first()[i][j]) by {
                assert(items.drop_first()[i] == items[i + 1]);
            }
            lemma_join_pad_words(seq![' '], items.drop_first());
            assert(sp_word_texts(rest) == items.drop_first());
            assert(sp_word_texts(line) =~= items);
        }
    }
}

// ---------------------------------------------------------------------------
// Legal symbols.

/// A sequence of words that are all legal symbols has no first bad one.
proof fn lemma_first_bad_none(ws: Seq<WordView>, k: int)
    requires
        0 <= k <= ws.len(),
        forall|i: int| k <= i < ws.len() ==> spec_valid_symbol(#[trigger] ws[i].text),
    ensures
        sp_first_bad_word(ws, k) is None,
    decreases ws.len() - k,
{
    if k < ws.len() {
        lemma_first_bad_none(ws, k + 1);
    }
}

// ---------------------------------------------------------------------------
// Data-row lines.

/// A logical token of one character reads back as the flag it encodes.
proof fn lemma_flag_char_logical(b: bool)
    ensures
        sp_logical(seq![crate::write::sp_flag_char(b)]) == Some(b),
{
}

/// The word texts of one position line: the row's three tokens, then the
/// three one-character flags when dynamics are present.
#[verifier::rlimit(60)]
proof fn lemma_pos_line_words(r: R3View, d: Option<Bool3>)
    requires
        sp_r3_accepted(r),
    ensures
        d is None ==> sp_word_texts(sp_pos_line(r, d)) == seq![r.x, r.y, r.z],
        d matches Some(b) ==> sp_word_texts(sp_pos_line(r, d)) == seq![
            r.x,
            r.y,
            r.z,
            seq![crate::write::sp_flag_char(b.0)],
            seq![crate::write::sp_flag_char(b.1)],
            seq![crate::write::sp_flag_char(b.2)],
        ],
{
    lemma_accept_no_ws(r.x);
    lemma_accept_no_ws(r.y);
    lemma_accept_no_ws(r.z);
    match d {
        None => {
            lemma_row_out_words(seq![' ', ' '], r);
            assert(sp_pos_line(r, d) == sp_row_out(seq![' ', ' '], r));
        }
        Some(b) => {
            let f0 = seq![crate::write::sp_flag_char(b.0)];
            let f1 = seq![crate::write::sp_flag_char(b.1)];
            let f2 = seq![crate::write::sp_flag_char(b.2)];
            let t5 = seq![' '] + f2;
            let t4 = seq![' '] + f1 + t5;
            let t3 = seq![' '] + f0 + t4;
            let t2 = seq![' '] + r.z + t3;
            let t1 = seq![' '] + r.y + t2;
            assert(sp_pos_line(r, d) =~= seq![' ', ' '] + r.x + t1);
            lemma_words_open(seq![' ', ' '], r.x, t1);
            assert(t1 =~= seq![' '] + r.y + t2);
            lemma_words_open(seq![' '], r.y, t2);
            assert(t2 =~= seq![' '] + r.z + t3);
            lemma_words_open(seq![' '], r.z, t3);
            assert(t3 =~= seq![' '] + f0 + t4);
            lemma_words_open(seq![' '], f0, t4);
            assert(t4 =~= seq![' '] + f1 + t5);
            lemma_words_open(seq![' '], f1, t5);
            assert(t5 =~= seq![' '] + f2 + Seq::<char>::empty());
            lemma_words_open(seq![' '], f2, Seq::empty());
            lemma_words_blank_from(Seq::empty(), 0);
            assert(sp_word_texts(Seq::<char>::empty()) =~= Seq::<Seq<char>>::empty());
            assert(sp_word_texts(sp_pos_line(r, d)) =~= seq![r.x, r.y, r.z, f0, f1, f2]);
        }
    }
}

/// A run of written data-row lines reads back as exactly its rows and
/// flags.
proof fn lemma_rows_parse(
    ls: Seq<Seq<char>>,
    base: int,
    rows: Seq<R3View>,
    flags: Seq<Bool3>,
    sel: bool,
)
    requires
        0 <= base,
        base + rows.len() <= ls.len(),
        sel ==> flags.len() == rows.len(),
        !sel ==> flags.len() == 0,
        forall|i: int|
            0 <= i < rows.len() ==> ls[base + i] == sp_pos_line(
                #[trigger] rows[i],
                if sel {
                    Some(flags[i])
                } else {
                    None
                },
            ),
        forall|i: int| 0 <= i < rows.len() ==> sp_r3_accepted(#[trigger] rows[i]),
    ensures
        sp_rows(ls, base, rows.len() as int, sel) == Ok::<RowsAcc, ErrView>(
            RowsAcc { rows, flags },
        ),
    decreases rows.len(),
{
    if rows.len() == 0 {
        assert(sp_rows(ls, base, 0, sel)->Ok_0.rows =~= rows);
        assert(sp_rows(ls, base, 0, sel)->Ok_0.flags =~= flags);
    } else {
        let r = rows[0];
        let d: Option<Bool3> = if sel {
            Some(flags[0])
        } else {
            None
        };
        lemma_pos_line_words(r, d);
        let line = ls[base];
        let ws = sp_words(line);
        let texts = sp_word_texts(line);
        assert(texts.len() == ws.len());
        assert forall|k: int| 0 <= k < ws.len() implies #[trigger] ws[k].text == texts[k] by {
            assert(texts[k] == ws[k].text);
        }
        assert(sp_row3(ls, base) == Ok::<R3View, ErrView>(R3View { x: r.x, y: r.y, z: r.z }));
        assert(R3View { x: r.x, y: r.y, z: r.z } == r);
        if sel {
            let b = flags[0];
            lemma_flag_char_logical(b.0);
            lemma_flag_char_logical(b.1);
            lemma_flag_char_logical(b.2);
            assert(sp_row_flags(ls, base) == Ok::<Bool3, ErrView>(Bool3(b.0, b.1, b.2)));
            assert(Bool3(b.0, b.1, b.2) == b);
        }
        let rest_flags: Seq<Bool3> = if sel {
            flags.drop_first()
        } else {
            flags
        };
        assert forall|i: int| 0 <= i < rows.drop_first().len() implies ls[base + 1 + i]
            == sp_pos_line(
            #[trigger] rows.drop_first()[i],
            if sel {
                Some(rest_flags[i])
            } else {
                None
            },
        ) by {
            assert(rows.drop_first()[i] == rows[i + 1]);
            if sel {
                assert(rest_flags[i] == flags[i + 1]);
            }
        }
        assert forall|i: int| 0 <= i < rows.drop_first().len() implies sp_r3_accepted(
            #[trigger] rows.drop_first()[i],
        ) by {
            assert(rows.drop_first()[i] == rows[i + 1]);
        }
        lemma_rows_parse(ls, base + 1, rows.drop_first(), rest_flags, sel);
        let acc = sp_rows(ls, base + 1, rows.drop_first().len() as int, sel)->Ok_0;
        assert(seq![r] + acc.rows =~= rows);
        if sel {
            assert(seq![flags[0]] + acc.flags =~= flags);
        } else {
            assert(Seq::<Bool3>::empty() =~= flags);
        }
    }
}

// ---------------------------------------------------------------------------
// The written layout, line by line.

/// The index of the counts line in a written file.
pub open spec fn fmt_ci(raw: RawView) -> int {
    if raw.symbols is Some {
        6
    } else {
        5
    }
}

/// The index of the coordinate-system line in a written file.
pub open spec fn fmt_cs(raw: RawView) -> int {
    fmt_ci(raw) + 1 + (if raw.dynamics is Some {
        1int
    } else {
        0int
    })
}

/// The index of the first position line in a written file.
pub open spec fn fmt_p0(raw: RawView) -> int {
    fmt_cs(raw) + 1
}

/// The index just after the last position line in a written file.
pub open spec fn fmt_vi(raw: RawView) -> int {
    fmt_p0(raw) + raw.positions.spec_raw().len()
}

/// Where each line of a written file stands.
#[verifier::rlimit(100)]
proof fn lemma_fmt_layout(raw: RawView)
    ensures
        ({
            let ls = sp_format(raw);
            let posv = raw.positions.spec_raw();
            &&& ls.len() == fmt_vi(raw) + (match raw.velocities {
                None => 0int,
                Some(v) => 1 + v.spec_raw().len() as int,
            })
            &&& ls[0] == raw.comment
            &&& ls[1] == sp_scale_out(raw.scale)
            &&& ls[2] == sp_row_out(seq![' ', ' ', ' ', ' '], raw.lattice.r0)
            &&& ls[3] == sp_row_out(seq![' ', ' ', ' ', ' '], raw.lattice.r1)
            &&& ls[4] == sp_row_out(seq![' ', ' ', ' ', ' '], raw.lattice.r2)
            &&& (raw.symbols matches Some(sy) ==> ls[5] == sp_sym_line(sy))
            &&& ls[fmt_ci(raw)] == sp_counts_line_out(raw.counts)
            &&& (raw.dynamics is Some ==> ls[fmt_ci(raw) + 1] == sp_kw_seldyn())
            &&& ls[fmt_cs(raw)] == sp_cs_line(raw.positions is Cart)
            &&& forall|i: int|
                0 <= i < posv.len() ==> ls[fmt_p0(raw) + i] == sp_pos_line(
                    #[trigger] posv[i],
                    match raw.dynamics {
                        Some(d) => Some(d[i]),
                        None => None,
                    },
                )
            &&& (raw.velocities matches Some(v) ==> {
                &&& ls[fmt_vi(raw)] == sp_vel_cs_line(v is Cart)
                &&& forall|i: int|
                    0 <= i < v.spec_raw().len() ==> ls[fmt_vi(raw) + 1 + i] == sp_row_out(
                        seq![' ', ' '],
                        #[trigger] v.spec_raw()[i],
                    )
            })
        }),
{
    let ls = sp_format(raw);
    let posv = raw.positions.spec_raw();
    let head = seq![
        raw.comment,
        sp_scale_out(raw.scale),
        sp_row_out(seq![' ', ' ', ' ', ' '], raw.lattice.r0),
        sp_row_out(seq![' ', ' ', ' ', ' '], raw.lattice.r1),
        sp_row_out(seq![' ', ' ', ' ', ' '], raw.lattice.r2),
    ];
    let syms = match raw.symbols {
        Some(s) => seq![sp_sym_line(s)],
        None => Seq::<Seq<char>>::empty(),
    };
    let counts = seq![sp_counts_line_out(raw.counts)];
    let seldyn = if raw.dynamics is Some {
        seq![sp_kw_seldyn()]
    } else {
        Seq::<Seq<char>>::empty()
    };
    let cs = seq![sp_cs_line(raw.positions is Cart)];
    let pos_lines = Seq::new(
        posv.len(),
        |i: int|
            sp_pos_line(
                posv[i],
                match raw.dynamics {
                    Some(d) => Some(d[i]),
                    None => None,
                },
            ),
    );
    let vel_lines = match raw.velocities {
        None => Seq::<Seq<char>>::empty(),
        Some(v) => seq![sp_vel_cs_line(v is Cart)] + Seq::new(
            v.spec_raw().len(),
            |i: int| sp_row_out(seq![' ', ' '], v.spec_raw()[i]),
        ),
    };
    assert(ls == head + syms + counts + seldyn + cs + pos_lines + vel_lines);
    assert(head.len() == 5);
    assert(syms.len() == if raw.symbols is Some { 1int } else { 0int });
    assert(counts.len() == 1);
    assert(seldyn.len() == if raw.dynamics is Some { 1int } else { 0int });
    assert(cs.len() == 1);
    assert(pos_lines.len() == posv.len());
    assert(vel_lines.len() == (match raw.velocities {
        None => 0int,
        Some(v) => 1 + v.spec_raw().len() as int,
    }));
}

// ---------------------------------------------------------------------------
// Supporting facts.

/// No first bad symbol means every symbol is legal.
proof fn lemma_first_bad_symbol_none(syms: Seq<Seq<char>>, k: int)
    requires
        0 <= k <= syms.len(),
        sp_first_bad_symbol(syms, k) is None,
    ensures
        forall|i: int| k <= i < syms.len() ==> spec_valid_symbol(#[trigger] syms[i]),
    decreases syms.len() - k,
{
    if k < syms.len() {
        lemma_first_bad_symbol_none(syms, k + 1);
    }
}

/// A positive total needs at least one count.
proof fn lemma_counts_nonempty(counts: Seq<u64>)
    requires
        sp_total(counts) != 0,
    ensures
        counts.len() > 0,
{
}

// ---------------------------------------------------------------------------
// The round trip, section by section.

/// The written scale line reads back as the same scale.
proof fn lemma_fmt_scale(raw: RawView)
    requires
        sp_validate(raw) is None,
        sp_tokens_accepted(raw),
    ensures
        sp_scale_line(sp_format(raw)) == Ok::<ScaleView, ErrView>(raw.scale),
{
    lemma_fmt_layout(raw);
    let ls = sp_format(raw);
    assert(ls.len() > 1);
    let t = sp_scale_payload(raw.scale);
    assert(sp_real_is_positive(t));
    lemma_accept_no_ws(t);
    match raw.scale {
        ScaleView::Factor(t0) => {
            assert(ls[1] =~= seq![' ', ' '] + t0 + Seq::<char>::empty());
            lemma_words_open(seq![' ', ' '], t0, Seq::empty());
            lemma_words_blank_from(Seq::empty(), 0);
            assert(sp_word_texts(Seq::<char>::empty()) =~= Seq::<Seq<char>>::empty());
            let ws = sp_words(ls[1]);
            assert(sp_word_texts(ls[1]) =~= seq![t0]);
            assert(ws.len() == 1);
            assert(ws[0].text == sp_word_texts(ls[1])[0]);
        }
        ScaleView::Volume(t0) => {
            let m = seq!['-'] + t0;
            crate::num::lemma_neg_prefix(t0);
            assert(forall|j: int| 0 <= j < t0.len() ==> !spec_is_ws(#[trigger] t0[j]));
            assert forall|j: int| 0 <= j < m.len() implies !spec_is_ws(m[j]) by {
                if j > 0 {
                    assert(m[j] == t0[j - 1]);
                }
            }
            assert(ls[1] =~= seq![' ', ' '] + m + Seq::<char>::empty());
            lemma_words_open(seq![' ', ' '], m, Seq::empty());
            lemma_words_blank_from(Seq::empty(), 0);
            assert(sp_word_texts(Seq::<char>::empty()) =~= Seq::<Seq<char>>::empty());
            let ws = sp_words(ls[1]);
            assert(sp_word_texts(ls[1]) =~= seq![m]);
            assert(ws.len() == 1);
            assert(ws[0].text == sp_word_texts(ls[1])[0]);
            assert(sp_strip_sign(m) == t0);
            assert(!sp_real_is_zero(m));
            assert(!sp_real_is_nan(m));
            assert(sp_real_is_negative(m));
        }
    }
}

/// The written lattice rows read back as the same rows.
proof fn lemma_fmt_lattice(raw: RawView)
    requires
        sp_validate(raw) is None,
        sp_tokens_accepted(raw),
    ensures
        sp_row3(sp_format(raw), 2) == Ok::<R3View, ErrView>(raw.lattice.r0),
        sp_row3(sp_format(raw), 3) == Ok::<R3View, ErrView>(raw.lattice.r1),
        sp_row3(sp_format(raw), 4) == Ok::<R3View, ErrView>(raw.lattice.r2),
{
    lemma_fmt_layout(raw);
    let ls = sp_format(raw);
    assert(ls.len() > 4);
    lemma_row3_of_row_out(ls, 2, raw.lattice.r0);
    lemma_row3_of_row_out(ls, 3, raw.lattice.r1);
    lemma_row3_of_row_out(ls, 4, raw.lattice.r2);
}

/// A line written as a row of three accepted tokens reads back as that
/// row.
proof fn lemma_row3_of_row_out(ls: Seq<Seq<char>>, i: int, r: R3View)
    requires
        0 <= i < ls.len(),
        sp_r3_accepted(r),
        sp_is_blank(seq![' ', ' ', ' ', ' ']),
        ls[i] == sp_row_out(seq![' ', ' ', ' ', ' '], r) || ls[i] == sp_row_out(
            seq![' ', ' '],
            r,
        ),
    ensures
        sp_row3(ls, i) == Ok::<R3View, ErrView>(r),
{
    if ls[i] == sp_row_out(seq![' ', ' ', ' ', ' '], r) {
        lemma_row_out_words(seq![' ', ' ', ' ', ' '], r);
    } else {
        lemma_row_out_words(seq![' ', ' '], r);
    }
    let ws = sp_words(ls[i]);
    let texts = sp_word_texts(ls[i]);
    assert(texts =~= seq![r.x, r.y, r.z]);
    assert(ws.len() == 3);
    assert(ws[0].text == texts[0]);
    assert(ws[1].text == texts[1]);
    assert(ws[2].text == texts[2]);
    assert(R3View { x: r.x, y: r.y, z: r.z } == r);
}

/// The written symbols and counts lines read back as the same block.
#[verifier::rlimit(100)]
proof fn lemma_fmt_counts(raw: RawView)
    requires
        sp_validate(raw) is None,
        sp_tokens_accepted(raw),
    ensures
        sp_counts_block(sp_format(raw)) == Ok::<CountsSec, ErrView>(
            CountsSec { symbols: raw.symbols, counts: raw.counts, next: fmt_ci(raw) + 1 },
        ),
{
    lemma_fmt_layout(raw);
    let ls = sp_format(raw);
    assert(ls.len() > fmt_ci(raw));
    crate::types::lemma_total_nonneg(raw.counts);
    assert(sp_total(raw.counts) != 0);
    lemma_counts_nonempty(raw.counts);

    // The counts line tokenizes into the decimal renderings, which all
    // read back as the counts.
    let items = raw.counts.map_values(|c: u64| sp_dec_chars(c as int));
    assert forall|i: int| 0 <= i < items.len() implies (#[trigger] items[i]).len() > 0
        && forall|j: int| 0 <= j < items[i].len() ==> !spec_is_ws(items[i][j]) by {
        lemma_dec_chars_ok(raw.counts[i] as int);
        assert(items[i] == sp_dec_chars(raw.counts[i] as int));
        assert forall|j: int| 0 <= j < items[i].len() implies !spec_is_ws(items[i][j]) by {
            assert(spec_is_digit(items[i][j]));
        }
    }
    assert(items.map_values(|s: Seq<char>| sp_pad2(s)) =~= raw.counts.map_values(
        |c: u64| sp_pad2(sp_dec_chars(c as int)),
    ));
    lemma_join_pad_words(seq![' ', ' '], items);
    let cl = ls[fmt_ci(raw)];
    assert(cl == sp_counts_line_out(raw.counts));
    assert(sp_word_texts(cl) == items);
    let cws = sp_words(cl);
    assert(cws.len() == items.len());
    assert forall|k: int| 0 <= k < cws.len() implies sp_unsigned(#[trigger] cws[k].text)
        == Ok::<u64, crate::parse::UnsignedError>(raw.counts[k]) by {
        assert(cws[k].text == sp_word_texts(cl)[k]);
        assert(cws[k].text == sp_dec_chars(raw.counts[k] as int));
        lemma_dec_round_trip(raw.counts[k]);
    }
    crate::grammar::lemma_counts_prefix(cws, 0, cws.len() as int);
    assert(sp_counts_prefix(cws, 0) =~= raw.counts);
    assert(cws.len() > 0);
    assert(cws[0].text == sp_dec_chars(raw.counts[0] as int));
    lemma_dec_chars_ok(raw.counts[0] as int);
    assert(spec_is_digit(cws[0].text[0]));

    match raw.symbols {
        None => {
            assert(fmt_ci(raw) == 5);
        }
        Some(sy) => {
            assert(fmt_ci(raw) == 6);
            assert(sp_first_bad_symbol(sy, 0) is None);
            lemma_first_bad_symbol_none(sy, 0);
            assert forall|i: int| 0 <= i < sy.len() implies (#[trigger] sy[i]).len() > 0
                && forall|j: int| 0 <= j < sy[i].len() ==> !spec_is_ws(sy[i][j]) by {
                assert(spec_valid_symbol(sy[i]));
            }
            lemma_join_pad_words(seq![' ', ' '], sy);
            let sl = ls[5];
            assert(sl == sp_sym_line(sy));
            let ws5 = sp_words(sl);
            assert(sp_word_texts(sl) == sy);
            assert(ws5.len() == sy.len());
            assert(sy.len() == raw.counts.len());
            assert(ws5.len() > 0);
            assert(ws5[0].text == sy[0]);
            assert(spec_valid_symbol(sy[0]));
            assert(!spec_is_digit(ws5[0].text[0]));
            assert forall|k: int| 0 <= k < ws5.len() implies spec_valid_symbol(
                #[trigger] ws5[k].text,
            ) by {
                assert(ws5[k].text == sp_word_texts(sl)[k]);
            }
            lemma_first_bad_none(ws5, 0);
            assert(ws5.map_values(|w: WordView| w.text) =~= sy);
        }
    }
}

/// The written position lines read back as the same rows and flags.
proof fn lemma_fmt_positions(raw: RawView)
    requires
        sp_validate(raw) is None,
        sp_tokens_accepted(raw),
    ensures
        ({
            let sel = raw.dynamics is Some;
            let flags: Seq<Bool3> = match raw.dynamics {
                Some(d) => d,
                None => Seq::empty(),
            };
            sp_rows(sp_format(raw), fmt_p0(raw), sp_total(raw.counts), sel) == Ok::<
                RowsAcc,
                ErrView,
            >(RowsAcc { rows: raw.positions.spec_raw(), flags })
        }),
{
    lemma_fmt_layout(raw);
    let ls = sp_format(raw);
    let posv = raw.positions.spec_raw();
    let sel = raw.dynamics is Some;
    let flags: Seq<Bool3> = match raw.dynamics {
        Some(d) => d,
        None => Seq::empty(),
    };
    assert(posv.len() == sp_total(raw.counts));
    lemma_rows_parse(ls, fmt_p0(raw), posv, flags, sel);
}

/// The written velocity block reads back as the same velocities.
#[verifier::rlimit(100)]
proof fn lemma_fmt_velocities(raw: RawView)
    requires
        sp_validate(raw) is None,
        sp_tokens_accepted(raw),
    ensures
        sp_velocity_block(sp_format(raw), fmt_vi(raw), sp_total(raw.counts)) == Ok::<
            Option<Coords<Seq<R3View>>>,
            ErrView,
        >(raw.velocities),
{
    lemma_fmt_layout(raw);
    let ls = sp_format(raw);
    let vi = fmt_vi(raw);
    let n = sp_total(raw.counts);
    crate::types::lemma_total_nonneg(raw.counts);
    match raw.velocities {
        None => {
            assert(vi == ls.len());
            assert(sp_all_blank(ls, vi));
        }
        Some(v) => {
            let vraw = v.spec_raw();
            assert(vraw.len() == n);
            assert(n >= 1);
            let data0 = ls[vi + 1];
            assert(data0 == sp_row_out(seq![' ', ' '], vraw[0]));
            lemma_accept_no_ws(vraw[0].x);
            assert(data0 =~= seq![' ', ' '] + vraw[0].x + (seq![' '] + vraw[0].y + seq![' ']
                + vraw[0].z));
            assert(data0[2] == vraw[0].x[0]);
            assert(!spec_is_ws(data0[2]));
            assert(!sp_is_blank(data0));
            assert(!sp_all_blank(ls, vi));
            assert(sp_line_is_cart(ls[vi]) == (v is Cart)) by {
                if v is Cart {
                    assert(ls[vi] == sp_kw_cartesian());
                    assert(ls[vi][0] == 'C');
                } else {
                    assert(ls[vi] =~= Seq::<char>::empty());
                }
            }
            assert forall|i: int| 0 <= i < vraw.len() implies ls[vi + 1 + i] == sp_pos_line(
                #[trigger] vraw[i],
                None,
            ) by {
                assert(ls[vi + 1 + i] == sp_row_out(seq![' ', ' '], vraw[i]));
            }
            lemma_rows_parse(ls, vi + 1, vraw, Seq::empty(), false);
            assert(vi + 1 + n == ls.len());
            assert(sp_all_blank(ls, vi + 1 + n));
            assert(sp_trailing(ls, vi + 1 + n) is Ok);
        }
    }
}

/// ROUND TRIP: a validated structure, written out, reads back as exactly
/// the same structure -- every field, both coordinate systems, both
/// scale modes, with or without symbols, dynamics and velocities.  Both
/// hypotheses are delivered by [`crate::types::RawPoscar::validate`]'s
/// own contract, so the law applies to everything it promotes.
pub proof fn lemma_round_trip(raw: RawView)
    requires
        sp_validate(raw) is None,
        sp_tokens_accepted(raw),
    ensures
        sp_parse(sp_format(raw)) == Ok::<RawView, ErrView>(raw),
{
    lemma_fmt_layout(raw);
    lemma_fmt_scale(raw);
    lemma_fmt_lattice(raw);
    lemma_fmt_counts(raw);
    lemma_fmt_positions(raw);
    lemma_fmt_velocities(raw);
    let ls = sp_format(raw);
    let f = fmt_ci(raw) + 1;
    let c = fmt_cs(raw);
    let n = sp_total(raw.counts);
    crate::types::lemma_total_nonneg(raw.counts);
    assert(ls.len() > 0);
    assert(ls.len() > f);
    assert(ls.len() > c);
    assert(sp_line_is_sel(ls[f]) == (raw.dynamics is Some)) by {
        if raw.dynamics is Some {
            assert(ls[f] == sp_kw_seldyn());
            assert(ls[f][0] == 'S');
        } else {
            assert(ls[f] == sp_cs_line(raw.positions is Cart));
            if raw.positions is Cart {
                assert(ls[f][0] == 'C');
            } else {
                assert(ls[f][0] == 'D');
            }
        }
    }
    assert(c == if sp_line_is_sel(ls[f]) {
        f + 1
    } else {
        f
    });
    assert(sp_line_is_cart(ls[c]) == (raw.positions is Cart)) by {
        assert(ls[c] == sp_cs_line(raw.positions is Cart));
        if raw.positions is Cart {
            assert(ls[c][0] == 'C');
        } else {
            assert(ls[c][0] == 'D');
        }
    }
    let sel = raw.dynamics is Some;
    let cart = raw.positions is Cart;
    let acc = sp_rows(ls, c + 1, n, sel)->Ok_0;
    let built = sp_parse(ls)->Ok_0;
    assert(sp_parse(ls) is Ok);
    assert(built.comment == raw.comment);
    assert(built.scale == raw.scale);
    assert(built.lattice == raw.lattice);
    assert(built.symbols == raw.symbols);
    assert(built.counts == raw.counts);
    assert(built.positions == raw.positions) by {
        if cart {
            assert(raw.positions == Coords::<Seq<R3View>>::Cart(raw.positions.spec_raw()));
        } else {
            assert(raw.positions == Coords::<Seq<R3View>>::Frac(raw.positions.spec_raw()));
        }
    }
    assert(built.velocities == raw.velocities);
    assert(built.dynamics == raw.dynamics);
    assert(built == raw);
}

// ---------------------------------------------------------------------------
// Further laws.

/// VALIDATION TOTALITY: when the structural preliminaries hold (symbol
/// and count lists agree, the comment has no break, the scale line is
/// legal, the symbols are legal, and at least one atom is asked for),
/// validation succeeds exactly when positions, velocities and dynamics
/// each hold one entry per atom; the first member of the wrong length is
/// reported by name, with the expected length.
pub proof fn lemma_validation_totality(raw: RawView)
    requires
        raw.symbols matches Some(s) ==> s.len() == raw.counts.len(),
        !crate::types::sp_comment_has_break(raw.comment),
        crate::types::sp_scale_ok(raw.scale),
        sp_total(raw.counts) >= 1,
        raw.symbols matches Some(s) ==> forall|i: int|
            0 <= i < s.len() ==> spec_valid_symbol(#[trigger] s[i]),
    ensures
        ({
            let n = sp_total(raw.counts);
            &&& (crate::types::sp_coords_len(raw.positions) == n && (raw.velocities matches Some(
                v,
            ) ==> crate::types::sp_coords_len(v) == n) && (raw.dynamics matches Some(d)
                ==> d.len() == n)) <==> sp_validate(raw) is None
            &&& crate::types::sp_coords_len(raw.positions) != n ==> sp_validate(raw) == Some(
                crate::types::ValErrView::WrongLength(crate::types::Field::Positions, n),
            )
            &&& (crate::types::sp_coords_len(raw.positions) == n && (raw.velocities matches Some(
                v,
            ) && crate::types::sp_coords_len(v) != n)) ==> sp_validate(raw) == Some(
                crate::types::ValErrView::WrongLength(crate::types::Field::Velocities, n),
            )
            &&& (crate::types::sp_coords_len(raw.positions) == n && (raw.velocities matches Some(
                v,
            ) ==> crate::types::sp_coords_len(v) == n) && (raw.dynamics matches Some(d) && d.len()
                != n)) ==> sp_validate(raw) == Some(
                crate::types::ValErrView::WrongLength(crate::types::Field::Dynamics, n),
            )
        }),
{
    match raw.symbols {
        Some(s) => {
            lemma_first_bad_none_syms(s, 0);
        }
        None => {}
    }
}

/// All-legal symbol lists have no first bad symbol.
proof fn lemma_first_bad_none_syms(syms: Seq<Seq<char>>, k: int)
    requires
        0 <= k <= syms.len(),
        forall|i: int| 0 <= i < syms.len() ==> spec_valid_symbol(#[trigger] syms[i]),
    ensures
        sp_first_bad_symbol(syms, k) is None,
    decreases syms.len() - k,
{
    if k < syms.len() {
        lemma_first_bad_none_syms(syms, k + 1);
    }
}

/// SCALE POSITIVITY: once the group coupling and the comment pass,
/// validation fails with `BadScaleLine` exactly when the scale line is
/// not legal: its payload does not denote a value strictly greater than
/// zero -- in either mode -- or a volume payload carries a written sign,
/// which the writer's minus prefix could not reproduce.
pub proof fn lemma_scale_positivity(raw: RawView)
    requires
        raw.symbols matches Some(s) ==> s.len() == raw.counts.len(),
        !crate::types::sp_comment_has_break(raw.comment),
    ensures
        sp_validate(raw) == Some(crate::types::ValErrView::BadScaleLine)
            <==> !crate::types::sp_scale_ok(raw.scale),
{
}

/// SYMBOL LEGALITY, the writing half: a list of legal symbols, written
/// as the symbols line, tokenizes back to the identical list.
pub proof fn lemma_symbols_round_trip(syms: Seq<Seq<char>>)
    requires
        forall|i: int| 0 <= i < syms.len() ==> spec_valid_symbol(#[trigger] syms[i]),
    ensures
        sp_word_texts(sp_sym_line(syms)) == syms,
{
    assert forall|i: int| 0 <= i < syms.len() implies (#[trigger] syms[i]).len() > 0 && forall|
        j: int,
    | 0 <= j < syms[i].len() ==> !spec_is_ws(syms[i][j]) by {
        assert(spec_valid_symbol(syms[i]));
    }
    lemma_join_pad_words(seq![' ', ' '], syms);
}

/// SYMBOL LEGALITY, the checking half: once the earlier rules pass, an
/// illegal symbol fails validation with `InvalidSymbol` carrying the
/// first offender, and all-legal symbols pass that rule.
pub proof fn lemma_symbol_legality(raw: RawView, sy: Seq<Seq<char>>)
    requires
        raw.symbols == Some(sy),
        sy.len() == raw.counts.len(),
        !crate::types::sp_comment_has_break(raw.comment),
        crate::types::sp_scale_ok(raw.scale),
        sp_total(raw.counts) >= 1,
    ensures
        (exists|i: int| 0 <= i < sy.len() && !spec_valid_symbol(#[trigger] sy[i]))
            <==> (exists|i: int|
            0 <= i < sy.len() && sp_validate(raw) == Some(
                crate::types::ValErrView::InvalidSymbol(#[trigger] sy[i]),
            ) && !spec_valid_symbol(sy[i])),
{
    if exists|i: int| 0 <= i < sy.len() && !spec_valid_symbol(#[trigger] sy[i]) {
        lemma_first_bad_some(sy, 0);
        let b = sp_first_bad_symbol(sy, 0)->Some_0;
        assert(sp_validate(raw) == Some(crate::types::ValErrView::InvalidSymbol(sy[b])));
        assert(!spec_valid_symbol(sy[b]));
    }
}

/// When some symbol is illegal, the first bad index exists, is in
/// range, and names an illegal symbol.
proof fn lemma_first_bad_some(syms: Seq<Seq<char>>, k: int)
    requires
        0 <= k <= syms.len(),
        exists|i: int| k <= i < syms.len() && !spec_valid_symbol(#[trigger] syms[i]),
    ensures
        sp_first_bad_symbol(syms, k) matches Some(b) && k <= b < syms.len()
            && !spec_valid_symbol(syms[b]),
    decreases syms.len() - k,
{
    if spec_valid_symbol(syms[k]) {
        lemma_first_bad_some(syms, k + 1);
    }
}

/// COUNTS/SYMBOLS COUPLING, construction time: a symbol list whose
/// length differs from the count list fails validation with
/// `InconsistentNumGroups`, before anything else is looked at.
pub proof fn lemma_group_coupling(raw: RawView, sy: Seq<Seq<char>>)
    requires
        raw.symbols == Some(sy),
        sy.len() != raw.counts.len(),
    ensures
        sp_validate(raw) == Some(crate::types::ValErrView::InconsistentNumGroups),
{
}

/// COUNTS/SYMBOLS COUPLING, parse time: when a symbols line is present
/// and its word count differs from the number of counts on the next
/// line, the block is refused with `InconsistentGroupCount` at the
/// counts line -- before any symbol is examined.
pub proof fn lemma_parse_group_coupling(ls: Seq<Seq<char>>)
    requires
        ls.len() > 6,
        sp_words(ls[5]).len() > 0,
        !spec_is_digit(sp_words(ls[5])[0].text[0]),
        sp_words(ls[5]).len() != sp_counts_prefix(sp_words(ls[6]), 0).len(),
    ensures
        sp_counts_block(ls) == Err::<CountsSec, ErrView>(
            crate::grammar::ev_at(crate::parse::ParseErrorKind::InconsistentGroupCount, 6, 0),
        ),
{
}

// ---------------------------------------------------------------------------
// The grammar's output round-trips unconditionally.

/// Every row a successful run of data rows produced is made of accepted
/// tokens.
proof fn lemma_rows_accept(ls: Seq<Seq<char>>, i: int, k: int, sel: bool)
    requires
        k >= 0,
        sp_rows(ls, i, k, sel) is Ok,
    ensures
        forall|q: int|
            0 <= q < sp_rows(ls, i, k, sel)->Ok_0.rows.len() ==> sp_r3_accepted(
                #[trigger] sp_rows(ls, i, k, sel)->Ok_0.rows[q],
            ),
    decreases k,
{
    if k > 0 {
        lemma_rows_accept(ls, i + 1, k - 1, sel);
        let all = sp_rows(ls, i, k, sel)->Ok_0.rows;
        let rest = sp_rows(ls, i + 1, k - 1, sel)->Ok_0.rows;
        assert forall|q: int| 0 <= q < all.len() implies sp_r3_accepted(#[trigger] all[q]) by {
            if q > 0 {
                assert(all[q] == rest[q - 1]);
            }
        }
    }
}

/// A structure the grammar produced satisfies the round-trip theorem's
/// token hypotheses on its own.
pub proof fn lemma_parsed_tokens_ok(ls: Seq<Seq<char>>)
    requires
        sp_parse(ls) is Ok,
    ensures
        sp_tokens_accepted(sp_parse(ls)->Ok_0),
{
    let raw = sp_parse(ls)->Ok_0;
    let cs = sp_counts_block(ls)->Ok_0;
    let f = cs.next;
    let sel = sp_line_is_sel(ls[f]);
    let c = if sel {
        f + 1
    } else {
        f
    };
    let n = sp_total(cs.counts);
    crate::types::lemma_total_nonneg(cs.counts);
    match sp_scale_line(ls)->Ok_0 {
        ScaleView::Factor(t) => {}
        ScaleView::Volume(t) => {
            let w = sp_words(ls[1])[0].text;
            lemma_strip_accept(w);
        }
    }
    lemma_rows_accept(ls, c + 1, n, sel);
    match sp_velocity_block(ls, c + 1 + n, n)->Ok_0 {
        None => {}
        Some(cv) => {
            lemma_rows_accept(ls, c + 1 + n + 1, n, false);
        }
    }
}

/// READ, WRITE, READ AGAIN: writing out a structure read from a file and
/// reading the written text gives the same structure back, for every
/// readable file.
pub proof fn lemma_parse_format_parse(ls: Seq<Seq<char>>)
    requires
        sp_parse(ls) is Ok,
        crate::grammar::sp_no_breaks(ls),
    ensures
        sp_parse(sp_format(sp_parse(ls)->Ok_0)) == sp_parse(ls),
{
    crate::grammar::lemma_parse_validates(ls);
    lemma_parsed_tokens_ok(ls);
    lemma_round_trip(sp_parse(ls)->Ok_0);
}

} // verus!
