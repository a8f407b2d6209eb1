//! The writer: serialises a validated structure back to text.
//!
//! Every numeric token is emitted verbatim, exactly as it is held, which
//! is what makes a written file read back to the same structure.  The
//! layout (indentation, two-wide padding of the symbols and counts lines,
//! the section headers) is the canonical one.

use vstd::prelude::*;
use vstd::string::StrSliceExecFns;
use vstd::string::StringExecFns;

use crate::parse::{sp_dec_chars, dec_string};
use crate::style::{sp_map_r3, sp_map_raw, sp_styled, styled_real, FloatStyle};
use crate::types::{Bool3, Coords, Poscar, R3View, RawView, Real3, ScaleView, sp_validate};

verus! {

// ---------------------------------------------------------------------------
// Ghost building blocks.

/// The comment line is the comment itself; the scale line carries two
/// spaces of indentation and, in volume mode, the minus sign.
pub open spec fn sp_scale_out(s: ScaleView) -> Seq<char> {
    match s {
        ScaleView::Factor(t) => seq![' ', ' '] + t,
        ScaleView::Volume(t) => seq![' ', ' ', '-'] + t,
    }
}

/// A row of three tokens behind an indent, separated by single spaces.
pub open spec fn sp_row_out(indent: Seq<char>, r: R3View) -> Seq<char> {
    indent + r.x + seq![' '] + r.y + seq![' '] + r.z
}

/// Right-alignment to width two: at most two leading spaces.
pub open spec fn sp_pad2(s: Seq<char>) -> Seq<char> {
    if s.len() >= 2 {
        s
    } else if s.len() == 1 {
        seq![' '] + s
    } else {
        seq![' ', ' ']
    }
}

/// Items joined by a separator.
pub open spec fn sp_join(items: Seq<Seq<char>>, sep: Seq<char>) -> Seq<char>
    decreases items.len(),
{
    if items.len() == 0 {
        Seq::empty()
    } else if items.len() == 1 {
        items[0]
    } else {
        items[0] + sep + sp_join(items.drop_first(), sep)
    }
}

/// The symbols line: two spaces, then the two-wide symbols joined by
/// single spaces.
pub open spec fn sp_sym_line(syms: Seq<Seq<char>>) -> Seq<char> {
    seq![' ', ' '] + sp_join(syms.map_values(|s: Seq<char>| sp_pad2(s)), seq![' '])
}

/// The counts line, in the same style as the symbols line.
pub open spec fn sp_counts_line_out(counts: Seq<u64>) -> Seq<char> {
    seq![' ', ' '] + sp_join(
        counts.map_values(|c: u64| sp_pad2(sp_dec_chars(c as int))),
        seq![' '],
    )
}

/// The selective-dynamics header.
pub open spec fn sp_kw_seldyn() -> Seq<char> {
    seq![
        'S', 'e', 'l', 'e', 'c', 't', 'i', 'v', 'e', ' ', 'D', 'y', 'n', 'a', 'm', 'i', 'c',
        's',
    ]
}

/// The Cartesian header.
pub open spec fn sp_kw_cartesian() -> Seq<char> {
    seq!['C', 'a', 'r', 't', 'e', 's', 'i', 'a', 'n']
}

/// The fractional header for positions.
pub open spec fn sp_kw_direct() -> Seq<char> {
    seq!['D', 'i', 'r', 'e', 'c', 't']
}

/// The single-character form of one dynamics flag.
pub open spec fn sp_flag_char(b: bool) -> char {
    if b {
        'T'
    } else {
        'F'
    }
}

/// The three dynamics flags of one site, separated by single spaces.
pub open spec fn sp_flag3(b: Bool3) -> Seq<char> {
    seq![sp_flag_char(b.0), ' ', sp_flag_char(b.1), ' ', sp_flag_char(b.2)]
}

/// One position line: the row, and the flags when dynamics are present.
pub open spec fn sp_pos_line(r: R3View, d: Option<Bool3>) -> Seq<char> {
    match d {
        None => sp_row_out(seq![' ', ' '], r),
        Some(b) => sp_row_out(seq![' ', ' '], r) + seq![' '] + sp_flag3(b),
    }
}

/// The position section's header line.
pub open spec fn sp_cs_line(cart: bool) -> Seq<char> {
    if cart {
        sp_kw_cartesian()
    } else {
        sp_kw_direct()
    }
}

/// The velocity section's header line: a blank line stands for
/// fractional velocities, as the reader's leniency expects.
pub open spec fn sp_vel_cs_line(cart: bool) -> Seq<char> {
    if cart {
        sp_kw_cartesian()
    } else {
        Seq::empty()
    }
}

/// The lines of a whole written file, in order.
pub open spec fn sp_format(raw: RawView) -> Seq<Seq<char>> {
    let posv = raw.positions.spec_raw();
    let head = seq![
        raw.comment,
        sp_scale_out(raw.scale),
        sp_row_out(seq![' ', ' ', ' ', ' '], raw.lattice.r0),
        sp_row_out(seq![' ', ' ', ' ', ' '], raw.lattice.r1),
        sp_row_out(seq![' ', ' ', ' ', ' '], raw.lattice.r2),
    ];
    let syms = match raw.symbols {
        Some(s) => seq![sp_sym_line(s)],
        None => Seq::<Seq<char>>::empty(),
    };
    let counts = seq![sp_counts_line_out(raw.counts)];
    let seldyn = if raw.dynamics is Some {
        seq![sp_kw_seldyn()]
    } else {
        Seq::<Seq<char>>::empty()
    };
    let cs = seq![sp_cs_line(raw.positions is Cart)];
    let pos_lines = Seq::new(
        posv.len(),
        |i: int|
            sp_pos_line(
                posv[i],
                match raw.dynamics {
                    Some(d) => Some(d[i]),
                    None => None,
                },
            ),
    );
    let vel_lines = match raw.velocities {
        None => Seq::<Seq<char>>::empty(),
        Some(v) => seq![sp_vel_cs_line(v is Cart)] + Seq::new(
            v.spec_raw().len(),
            |i: int| sp_row_out(seq![' ', ' '], v.spec_raw()[i]),
        ),
    };
    head + syms + counts + seldyn + cs + pos_lines + vel_lines
}

/// The lines before the position data: comment through the
/// coordinate-system header.
pub open spec fn sp_format_head(raw: RawView) -> Seq<Seq<char>> {
    seq![
        raw.comment,
        sp_scale_out(raw.scale),
        sp_row_out(seq![' ', ' ', ' ', ' '], raw.lattice.r0),
        sp_row_out(seq![' ', ' ', ' ', ' '], raw.lattice.r1),
        sp_row_out(seq![' ', ' ', ' ', ' '], raw.lattice.r2),
    ] + (match raw.symbols {
        Some(s) => seq![sp_sym_line(s)],
        None => Seq::<Seq<char>>::empty(),
    }) + seq![sp_counts_line_out(raw.counts)] + (if raw.dynamics is Some {
        seq![sp_kw_seldyn()]
    } else {
        Seq::<Seq<char>>::empty()
    }) + seq![sp_cs_line(raw.positions is Cart)]
}

/// The position lines.
pub open spec fn sp_format_pos_lines(raw: RawView) -> Seq<Seq<char>> {
    Seq::new(
        raw.positions.spec_raw().len(),
        |i: int|
            sp_pos_line(
                raw.positions.spec_raw()[i],
                match raw.dynamics {
                    Some(d) => Some(d[i]),
                    None => None,
                },
            ),
    )
}

/// The velocity lines, header included.
pub open spec fn sp_format_vel_lines(raw: RawView) -> Seq<Seq<char>> {
    match raw.velocities {
        None => Seq::<Seq<char>>::empty(),
        Some(v) => seq![sp_vel_cs_line(v is Cart)] + Seq::new(
            v.spec_raw().len(),
            |i: int| sp_row_out(seq![' ', ' '], v.spec_raw()[i]),
        ),
    }
}

/// The whole written file is its three parts in order.
pub proof fn lemma_format_parts(raw: RawView)
    ensures
        sp_format(raw) == sp_format_head(raw) + sp_format_pos_lines(raw) + sp_format_vel_lines(
            raw,
        ),
{
    assert(sp_format(raw) =~= sp_format_head(raw) + sp_format_pos_lines(raw)
        + sp_format_vel_lines(raw));
}

// ---------------------------------------------------------------------------
// Executable building blocks.

/// Joining one more item on the right.
pub proof fn lemma_join_snoc(items: Seq<Seq<char>>, sep: Seq<char>, x: Seq<char>)
    ensures
        sp_join(items.push(x), sep) == if items.len() == 0 {
            x
        } else {
            sp_join(items, sep) + sep + x
        },
    decreases items.len(),
{
    if items.len() == 0 {
        assert(items.push(x) =~= seq![x]);
        assert(seq![x].len() == 1);
        assert(sp_join(seq![x], sep) == seq![x][0]);
        assert(seq![x][0] == x);
    } else if items.len() == 1 {
        assert(items.push(x).drop_first() =~= seq![x]);
        assert(items.push(x)[0] == items[0]);
        assert(sp_join(items.push(x), sep) == items[0] + sep + sp_join(seq![x], sep));
        assert(sp_join(seq![x], sep) == seq![x][0]);
        assert(sp_join(items, sep) == items[0]);
    } else {
        lemma_join_snoc(items.drop_first(), sep, x);
        assert(items.push(x).drop_first() =~= items.drop_first().push(x));
        assert(items.push(x)[0] == items[0]);
        assert(items[0] + sep + (sp_join(items.drop_first(), sep) + sep + x) =~= (items[0] + sep
            + sp_join(items.drop_first(), sep)) + sep + x);
    }
}

/// Appends the items, separated by `sep`, to `w`.
pub fn write_sep(w: &mut String, sep: &str, xs: &Vec<String>)
    ensures
        final(w)@ == old(w)@ + sp_join(xs.deep_view(), sep@),
{
    let ghost items = xs.deep_view();
    let mut i: usize = 0;
    proof {
        assert(items.subrange(0, 0) =~= Seq::<Seq<char>>::empty());
    }
    while i < xs.len()
        invariant
            items == xs.deep_view(),
            0 <= i <= items.len(),
            w@ == old(w)@ + sp_join(items.subrange(0, i as int), sep@),
        decreases items.len() - i,
    {
        proof {
            lemma_join_snoc(items.subrange(0, i as int), sep@, items[i as int]);
            assert(items.subrange(0, i + 1) =~= items.subrange(0, i as int).push(
                items[i as int],
            ));
            assert(items[i as int] == xs@[i as int]@);
        }
        if i > 0 {
            w.append(sep);
        }
        w.append(xs[i].as_str());
        i = i + 1;
    }
    proof {
        assert(items.subrange(0, items.len() as int) =~= items);
    }
}

/// Right-aligns a string to width two.
fn pad2(s: &str) -> (r: String)
    ensures
        r@ == sp_pad2(s@),
{
    let n = s.unicode_len();
    if n >= 2 {
        s.to_owned()
    } else if n == 1 {
        let mut out = " ".to_owned();
        out.append(s);
        proof {
            reveal_strlit(" ");
            assert(out@ =~= seq![' '] + s@);
        }
        out
    } else {
        let out = "  ".to_owned();
        proof {
            reveal_strlit("  ");
            assert(out@ =~= seq![' ', ' ']);
        }
        out
    }
}

/// One row of three tokens behind an indent.
fn row_string(indent: &str, r: &Real3) -> (out: String)
    ensures
        out@ == sp_row_out(indent@, r@),
{
    let mut s = indent.to_owned();
    s.append(r.0.as_str());
    s.append(" ");
    s.append(r.1.as_str());
    s.append(" ");
    s.append(r.2.as_str());
    proof {
        reveal_strlit(" ");
        assert(s@ =~= indent@ + r.0@ + seq![' '] + r.1@ + seq![' '] + r.2@);
    }
    s
}

/// The two-space-indented, two-wide-padded line of the given items.
fn padded_line(items: &Vec<String>) -> (out: String)
    ensures
        out@ == seq![' ', ' '] + sp_join(
            items.deep_view().map_values(|s: Seq<char>| sp_pad2(s)),
            seq![' '],
        ),
{
    let mut padded: Vec<String> = Vec::new();
    let mut i: usize = 0;
    while i < items.len()
        invariant
            0 <= i <= items@.len(),
            padded@.len() == i,
            forall|k: int|
                0 <= k < i ==> (#[trigger] padded.deep_view()[k]) == sp_pad2(
                    items.deep_view()[k],
                ),
        decreases items@.len() - i,
    {
        proof {
            assert(items.deep_view()[i as int] == items@[i as int]@);
        }
        let p = pad2(items[i].as_str());
        let ghost pv = p@;
        let ghost prev = padded.deep_view();
        padded.push(p);
        proof {
            assert(padded.deep_view() =~= prev.push(pv));
        }
        i = i + 1;
    }
    let mut out = "  ".to_owned();
    proof {
        reveal_strlit("  ");
        reveal_strlit(" ");
        assert(out@ =~= seq![' ', ' ']);
        assert(padded.deep_view() =~= items.deep_view().map_values(|s: Seq<char>| sp_pad2(s)));
        assert(" "@ =~= seq![' ']);
    }
    write_sep(&mut out, " ", &padded);
    out
}

/// The three dynamics flags, separated by single spaces.
fn flag3_string(b: &Bool3) -> (out: String)
    ensures
        out@ == sp_flag3(*b),
{
    let mut s = if b.0 {
        "T".to_owned()
    } else {
        "F".to_owned()
    };
    s.append(" ");
    s.append(if b.1 {
        "T"
    } else {
        "F"
    });
    s.append(" ");
    s.append(if b.2 {
        "T"
    } else {
        "F"
    });
    proof {
        reveal_strlit(" ");
        reveal_strlit("T");
        reveal_strlit("F");
        assert(s@ =~= sp_flag3(*b));
    }
    s
}

/// Serialises a validated structure to its lines (without terminators).
///
/// Every token appears verbatim; see [`sp_format`] for the exact layout.
pub fn to_lines(p: &Poscar) -> (out: Vec<String>)
    requires
        sp_validate(p@) is None,
    ensures
        out.deep_view() == sp_format(p@),
{
    let raw = p.raw_ref();
    let ghost rv = p@;
    let mut out: Vec<String> = Vec::new();

    // Comment, scale, lattice.
    out.push(raw.comment.clone());
    proof {
        assert(out.deep_view() =~= seq![rv.comment]);
    }
    let mut scale_line = "  ".to_owned();
    proof {
        reveal_strlit("  ");
        reveal_strlit("-");
        assert(scale_line@ =~= seq![' ', ' ']);
        assert("-"@ =~= seq!['-']);
    }
    match &raw.scale {
        crate::types::ScaleLine::Factor(x) => {
            scale_line.append(x.as_str());
            proof {
                assert(scale_line@ =~= sp_scale_out(rv.scale));
            }
        }
        crate::types::ScaleLine::Volume(x) => {
            scale_line.append("-");
            scale_line.append(x.as_str());
            proof {
                assert(scale_line@ =~= seq![' ', ' ', '-'] + x@);
            }
        }
    }
    let ghost slv = scale_line@;
    out.push(scale_line);
    proof {
        assert(out.deep_view() =~= seq![rv.comment, sp_scale_out(rv.scale)]);
    }
    let ghost ind4 = seq![' ', ' ', ' ', ' '];
    proof {
        reveal_strlit("    ");
        assert("    "@ =~= ind4);
    }
    out.push(row_string("    ", &raw.lattice_vectors.0));
    out.push(row_string("    ", &raw.lattice_vectors.1));
    out.push(row_string("    ", &raw.lattice_vectors.2));
    let ghost head = seq![
        rv.comment,
        sp_scale_out(rv.scale),
        sp_row_out(ind4, rv.lattice.r0),
        sp_row_out(ind4, rv.lattice.r1),
        sp_row_out(ind4, rv.lattice.r2),
    ];
    proof {
        assert(out.deep_view() =~= head);
    }

    // Symbols and counts.
    if let Some(syms) = &raw.group_symbols {
        let line = padded_line(syms);
        let ghost lv = line@;
        out.push(line);
        proof {
            assert(syms.deep_view() == rv.symbols->Some_0);
            assert(out.deep_view() =~= head.push(sp_sym_line(rv.symbols->Some_0)));
        }
    }
    let ghost upto_syms = head + (match rv.symbols {
        Some(sy) => seq![sp_sym_line(sy)],
        None => Seq::<Seq<char>>::empty(),
    });
    proof {
        assert(out.deep_view() =~= upto_syms);
    }
    let mut count_strs: Vec<String> = Vec::new();
    let mut i: usize = 0;
    while i < raw.group_counts.len()
        invariant
            0 <= i <= raw.group_counts@.len(),
            count_strs@.len() == i,
            forall|k: int|
                0 <= k < i ==> (#[trigger] count_strs.deep_view()[k]) == sp_dec_chars(
                    raw.group_counts@[k] as int,
                ),
        decreases raw.group_counts@.len() - i,
    {
        let d = dec_string(raw.group_counts[i]);
        let ghost dv = d@;
        let ghost prev = count_strs.deep_view();
        count_strs.push(d);
        proof {
            assert(count_strs.deep_view() =~= prev.push(dv));
        }
        i = i + 1;
    }
    proof {
        assert(count_strs.deep_view() =~= rv.counts.map_values(
            |c: u64| sp_dec_chars(c as int),
        ));
        assert(count_strs.deep_view().map_values(|s: Seq<char>| sp_pad2(s)) =~= rv.counts.map_values(
            |c: u64| sp_pad2(sp_dec_chars(c as int)),
        ));
    }
    let cline = padded_line(&count_strs);
    let ghost clv = cline@;
    out.push(cline);
    let ghost upto_counts = upto_syms + seq![sp_counts_line_out(rv.counts)];
    proof {
        assert(out.deep_view() =~= upto_counts);
    }

    // Selective dynamics and the coordinate-system header.
    if raw.dynamics.is_some() {
        let h = "Selective Dynamics".to_owned();
        proof {
            reveal_strlit("Selective Dynamics");
            assert(h@ =~= sp_kw_seldyn());
        }
        out.push(h);
    }
    let ghost upto_sel = upto_counts + (if rv.dynamics is Some {
        seq![sp_kw_seldyn()]
    } else {
        Seq::<Seq<char>>::empty()
    });
    proof {
        assert(out.deep_view() =~= upto_sel);
    }
    let cart = match &raw.positions {
        Coords::Cart(_) => true,
        Coords::Frac(_) => false,
    };
    let h = if cart {
        "Cartesian".to_owned()
    } else {
        "Direct".to_owned()
    };
    proof {
        reveal_strlit("Cartesian");
        reveal_strlit("Direct");
        assert(h@ =~= sp_cs_line(rv.positions is Cart));
    }
    out.push(h);

    // Position lines.
    let ghost before_pos = upto_sel + seq![sp_cs_line(rv.positions is Cart)];
    proof {
        assert(out.deep_view() =~= before_pos);
    }
    let posv = match &raw.positions {
        Coords::Cart(v) => v,
        Coords::Frac(v) => v,
    };
    let ghost pos_lines = Seq::new(
        rv.positions.spec_raw().len(),
        |i: int|
            sp_pos_line(
                rv.positions.spec_raw()[i],
                match rv.dynamics {
                    Some(d) => Some(d[i]),
                    None => None,
                },
            ),
    );
    let mut i: usize = 0;
    while i < posv.len()
        invariant
            0 <= i <= posv@.len(),
            posv.deep_view() == rv.positions.spec_raw(),
            match (&raw.dynamics, rv.dynamics) {
                (Some(d), Some(dv)) => d@ == dv && dv.len() == posv@.len(),
                (None, None) => true,
                _ => false,
            },
            pos_lines == Seq::new(
                rv.positions.spec_raw().len(),
                |i: int|
                    sp_pos_line(
                        rv.positions.spec_raw()[i],
                        match rv.dynamics {
                            Some(d) => Some(d[i]),
                            None => None,
                        },
                    ),
            ),
            out.deep_view() == before_pos + pos_lines.subrange(0, i as int),
        decreases posv@.len() - i,
    {
        let mut line = row_string("  ", &posv[i]);
        proof {
            reveal_strlit("  ");
            reveal_strlit(" ");
            assert("  "@ =~= seq![' ', ' ']);
            assert(" "@ =~= seq![' ']);
            assert(posv.deep_view()[i as int] == posv@[i as int]@);
        }
        if let Some(d) = &raw.dynamics {
            line.append(" ");
            let f = flag3_string(&d[i]);
            line.append(f.as_str());
        }
        proof {
            assert(line@ == pos_lines[i as int]);
        }
        let ghost lv = line@;
        let ghost prev = out.deep_view();
        out.push(line);
        proof {
            assert(out.deep_view() =~= prev.push(lv));
            assert(out.deep_view() =~= before_pos + pos_lines.subrange(0, i + 1));
        }
        i = i + 1;
    }
    proof {
        assert(pos_lines.subrange(0, posv@.len() as int) =~= pos_lines);
    }

    // Velocities.
    if let Some(vel) = &raw.velocities {
        let vcart = match vel {
            Coords::Cart(_) => true,
            Coords::Frac(_) => false,
        };
        let h = if vcart {
            "Cartesian".to_owned()
        } else {
            "".to_owned()
        };
        proof {
            reveal_strlit("Cartesian");
            reveal_strlit("");
            assert(h@ =~= sp_vel_cs_line(rv.velocities->Some_0 is Cart));
        }
        let ghost hv = h@;
        out.push(h);
        let ghost before_vel = before_pos + pos_lines + seq![
            sp_vel_cs_line(rv.velocities->Some_0 is Cart),
        ];
        proof {
            assert(out.deep_view() =~= before_vel);
        }
        let velv = match vel {
            Coords::Cart(v) => v,
            Coords::Frac(v) => v,
        };
        let ghost vel_lines = Seq::new(
            rv.velocities->Some_0.spec_raw().len(),
            |i: int| sp_row_out(seq![' ', ' '], rv.velocities->Some_0.spec_raw()[i]),
        );
        let mut i: usize = 0;
        while i < velv.len()
            invariant
                0 <= i <= velv@.len(),
                velv.deep_view() == rv.velocities->Some_0.spec_raw(),
                vel_lines == Seq::new(
                    rv.velocities->Some_0.spec_raw().len(),
                    |i: int| sp_row_out(seq![' ', ' '], rv.velocities->Some_0.spec_raw()[i]),
                ),
                out.deep_view() == before_vel + vel_lines.subrange(0, i as int),
            decreases velv@.len() - i,
        {
            let line = row_string("  ", &velv[i]);
            proof {
                reveal_strlit("  ");
                assert("  "@ =~= seq![' ', ' ']);
                assert(velv.deep_view()[i as int] == velv@[i as int]@);
                assert(line@ == vel_lines[i as int]);
            }
            let ghost lv = line@;
            let ghost prev = out.deep_view();
            out.push(line);
            proof {
                assert(out.deep_view() =~= prev.push(lv));
                assert(out.deep_view() =~= before_vel + vel_lines.subrange(0, i + 1));
            }
            i = i + 1;
        }
        proof {
            assert(vel_lines.subrange(0, velv@.len() as int) =~= vel_lines);
        }
    }
    proof {
        assert(out.deep_view() =~= sp_format(rv));
    }
    out
}

// ---------------------------------------------------------------------------
// The whole document.

/// The text of a whole file: every line followed by a line feed.
pub open spec fn sp_unlines(lines: Seq<Seq<char>>) -> Seq<char>
    decreases lines.len(),
{
    if lines.len() == 0 {
        Seq::empty()
    } else {
        lines[0] + seq!['\n'] + sp_unlines(lines.drop_first())
    }
}

proof fn lemma_unlines_snoc(lines: Seq<Seq<char>>, x: Seq<char>)
    ensures
        sp_unlines(lines.push(x)) == sp_unlines(lines) + x + seq!['\n'],
    decreases lines.len(),
{
    if lines.len() == 0 {
        assert(lines.push(x) =~= seq![x]);
        assert(seq![x][0] == x);
        assert(seq![x].drop_first() =~= Seq::<Seq<char>>::empty());
        assert(sp_unlines(Seq::<Seq<char>>::empty()) == Seq::<char>::empty());
        assert(sp_unlines(seq![x]) == x + seq!['\n'] + Seq::<char>::empty());
        assert(sp_unlines(lines.push(x)) =~= sp_unlines(lines) + x + seq!['\n']);
    } else {
        lemma_unlines_snoc(lines.drop_first(), x);
        assert(lines.push(x).drop_first() =~= lines.drop_first().push(x));
        assert(lines.push(x)[0] == lines[0]);
        assert(lines[0] + seq!['\n'] + (sp_unlines(lines.drop_first()) + x + seq!['\n'])
            =~= (lines[0] + seq!['\n'] + sp_unlines(lines.drop_first())) + x + seq!['\n']);
    }
}

/// Serialises a validated structure to one string, each line closed by a
/// line feed.
pub fn format_poscar(p: &Poscar) -> (out: String)
    requires
        sp_validate(p@) is None,
    ensures
        out@ == sp_unlines(sp_format(p@)),
{
    let lines = to_lines(p);
    let ghost lv = lines.deep_view();
    let mut out = String::new();
    let mut i: usize = 0;
    proof {
        assert(lv.subrange(0, 0) =~= Seq::<Seq<char>>::empty());
        reveal_strlit("\n");
        assert("\n"@ =~= seq!['\n']);
    }
    while i < lines.len()
        invariant
            lv == lines.deep_view(),
            0 <= i <= lv.len(),
            out@ == sp_unlines(lv.subrange(0, i as int)),
        decreases lv.len() - i,
    {
        proof {
            lemma_unlines_snoc(lv.subrange(0, i as int), lv[i as int]);
            assert(lv.subrange(0, i + 1) =~= lv.subrange(0, i as int).push(lv[i as int]));
            assert(lv[i as int] == lines@[i as int]@);
            reveal_strlit("\n");
            assert("\n"@ =~= seq!['\n']);
        }
        out.append(lines[i].as_str());
        out.append("\n");
        i = i + 1;
    }
    proof {
        assert(lv.subrange(0, lv.len() as int) =~= lv);
    }
    out
}

// ---------------------------------------------------------------------------
// The styled writer.

/// One row of three styled renderings behind an indent.
fn row_string_styled(indent: &str, r: &Real3, st: &FloatStyle) -> (out: String)
    ensures
        out@ == sp_row_out(indent@, sp_map_r3(r@, *st)),
{
    let mut s = indent.to_owned();
    let t0 = styled_real(&r.0, st);
    s.append(t0.as_str());
    s.append(" ");
    let t1 = styled_real(&r.1, st);
    s.append(t1.as_str());
    s.append(" ");
    let t2 = styled_real(&r.2, st);
    s.append(t2.as_str());
    proof {
        reveal_strlit(" ");
        assert(s@ =~= indent@ + sp_styled(r@.x, *st) + seq![' '] + sp_styled(r@.y, *st)
            + seq![' '] + sp_styled(r@.z, *st));
    }
    s
}

/// The head lines (comment through the coordinate-system header) under
/// a style.
#[verifier::rlimit(100)]
fn styled_head(p: &Poscar, st: &FloatStyle) -> (out: Vec<String>)
    ensures
        out.deep_view() == sp_format_head(sp_map_raw(p@, *st)),
{
    let raw = p.raw_ref();
    let ghost rv = sp_map_raw(p@, *st);
    let mut out: Vec<String> = Vec::new();

    out.push(raw.comment.clone());
    proof {
        assert(out.deep_view() =~= seq![rv.comment]);
    }
    let mut scale_line = "  ".to_owned();
    proof {
        reveal_strlit("  ");
        reveal_strlit("-");
        assert(scale_line@ =~= seq![' ', ' ']);
        assert("-"@ =~= seq!['-']);
    }
    match &raw.scale {
        crate::types::ScaleLine::Factor(x) => {
            let t = styled_real(x, st);
            scale_line.append(t.as_str());
            proof {
                assert(scale_line@ =~= sp_scale_out(rv.scale));
            }
        }
        crate::types::ScaleLine::Volume(x) => {
            scale_line.append("-");
            let t = styled_real(x, st);
            scale_line.append(t.as_str());
            proof {
                assert(scale_line@ =~= seq![' ', ' ', '-'] + sp_styled(x@, *st));
            }
        }
    }
    out.push(scale_line);
    proof {
        assert(out.deep_view() =~= seq![rv.comment, sp_scale_out(rv.scale)]);
    }
    let ghost ind4 = seq![' ', ' ', ' ', ' '];
    proof {
        reveal_strlit("    ");
        assert("    "@ =~= ind4);
    }
    out.push(row_string_styled("    ", &raw.lattice_vectors.0, st));
    out.push(row_string_styled("    ", &raw.lattice_vectors.1, st));
    out.push(row_string_styled("    ", &raw.lattice_vectors.2, st));
    let ghost head = seq![
        rv.comment,
        sp_scale_out(rv.scale),
        sp_row_out(ind4, rv.lattice.r0),
        sp_row_out(ind4, rv.lattice.r1),
        sp_row_out(ind4, rv.lattice.r2),
    ];
    proof {
        assert(out.deep_view() =~= head);
    }

    if let Some(syms) = &raw.group_symbols {
        let line = padded_line(syms);
        out.push(line);
        proof {
            assert(syms.deep_view() == rv.symbols->Some_0);
            assert(out.deep_view() =~= head.push(sp_sym_line(rv.symbols->Some_0)));
        }
    }
    let ghost upto_syms = head + (match rv.symbols {
        Some(sy) => seq![sp_sym_line(sy)],
        None => Seq::<Seq<char>>::empty(),
    });
    proof {
        assert(out.deep_view() =~= upto_syms);
    }
    let mut count_strs: Vec<String> = Vec::new();
    let mut i: usize = 0;
    while i < raw.group_counts.len()
        invariant
            0 <= i <= raw.group_counts@.len(),
            count_strs@.len() == i,
            forall|k: int|
                0 <= k < i ==> (#[trigger] count_strs.deep_view()[k]) == sp_dec_chars(
                    raw.group_counts@[k] as int,
                ),
        decreases raw.group_counts@.len() - i,
    {
        let d = dec_string(raw.group_counts[i]);
        let ghost dv = d@;
        let ghost prev = count_strs.deep_view();
        count_strs.push(d);
        proof {
            assert(count_strs.deep_view() =~= prev.push(dv));
        }
        i = i + 1;
    }
    proof {
        assert(count_strs.deep_view() =~= rv.counts.map_values(
            |c: u64| sp_dec_chars(c as int),
        ));
        assert(count_strs.deep_view().map_values(|s: Seq<char>| sp_pad2(s)) =~= rv.counts.map_values(
            |c: u64| sp_pad2(sp_dec_chars(c as int)),
        ));
    }
    let cline = padded_line(&count_strs);
    out.push(cline);
    let ghost upto_counts = upto_syms + seq![sp_counts_line_out(rv.counts)];
    proof {
        assert(out.deep_view() =~= upto_counts);
    }

    if raw.dynamics.is_some() {
        let h = "Selective Dynamics".to_owned();
        proof {
            reveal_strlit("Selective Dynamics");
            assert(h@ =~= sp_kw_seldyn());
        }
        out.push(h);
    }
    let ghost upto_sel = upto_counts + (if rv.dynamics is Some {
        seq![sp_kw_seldyn()]
    } else {
        Seq::<Seq<char>>::empty()
    });
    proof {
        assert(out.deep_view() =~= upto_sel);
    }
    let cart = match &raw.positions {
        Coords::Cart(_) => true,
        Coords::Frac(_) => false,
    };
    let h = if cart {
        "Cartesian".to_owned()
    } else {
        "Direct".to_owned()
    };
    proof {
        reveal_strlit("Cartesian");
        reveal_strlit("Direct");
        assert(h@ =~= sp_cs_line(rv.positions is Cart));
    }
    out.push(h);
    proof {
        assert(out.deep_view() =~= sp_format_head(rv));
    }
    out
}

/// Appends the position lines under a style.
#[verifier::rlimit(60)]
fn styled_positions(out: &mut Vec<String>, p: &Poscar, st: &FloatStyle)
    requires
        sp_validate(p@) is None,
    ensures
        final(out).deep_view() == old(out).deep_view() + sp_format_pos_lines(
            sp_map_raw(p@, *st),
        ),
{
    let raw = p.raw_ref();
    let ghost rv = sp_map_raw(p@, *st);
    let ghost before_pos = old(out).deep_view();
    let posv = match &raw.positions {
        Coords::Cart(v) => v,
        Coords::Frac(v) => v,
    };
    let ghost pos_lines = sp_format_pos_lines(rv);
    proof {
        assert(before_pos + pos_lines.subrange(0, 0) =~= before_pos);
    }
    let mut i: usize = 0;
    while i < posv.len()
        invariant
            0 <= i <= posv@.len(),
            rv == sp_map_raw(p@, *st),
            posv.deep_view().map_values(|r: R3View| crate::style::sp_map_r3(r, *st))
                == rv.positions.spec_raw(),
            match (&raw.dynamics, rv.dynamics) {
                (Some(d), Some(dv)) => d@ == dv && dv.len() == posv@.len(),
                (None, None) => true,
                _ => false,
            },
            pos_lines == sp_format_pos_lines(rv),
            out.deep_view() == before_pos + pos_lines.subrange(0, i as int),
        decreases posv@.len() - i,
    {
        let mut line = row_string_styled("  ", &posv[i], st);
        proof {
            reveal_strlit("  ");
            reveal_strlit(" ");
            assert("  "@ =~= seq![' ', ' ']);
            assert(" "@ =~= seq![' ']);
            assert(posv.deep_view()[i as int] == posv@[i as int]@);
            assert(rv.positions.spec_raw()[i as int] == crate::style::sp_map_r3(
                posv@[i as int]@,
                *st,
            ));
        }
        if let Some(d) = &raw.dynamics {
            line.append(" ");
            let f = flag3_string(&d[i]);
            line.append(f.as_str());
        }
        proof {
            assert(line@ == pos_lines[i as int]);
        }
        let ghost lv = line@;
        let ghost prev = out.deep_view();
        out.push(line);
        proof {
            assert(out.deep_view() =~= prev.push(lv));
            assert(out.deep_view() =~= before_pos + pos_lines.subrange(0, i + 1));
        }
        i = i + 1;
    }
    proof {
        assert(pos_lines.subrange(0, posv@.len() as int) =~= pos_lines);
    }
}

/// Appends the velocity block under a style.
#[verifier::rlimit(60)]
fn styled_velocities(out: &mut Vec<String>, p: &Poscar, st: &FloatStyle)
    ensures
        final(out).deep_view() == old(out).deep_view() + sp_format_vel_lines(
            sp_map_raw(p@, *st),
        ),
{
    let raw = p.raw_ref();
    let ghost rv = sp_map_raw(p@, *st);
    if let Some(vel) = &raw.velocities {
        let vcart = match vel {
            Coords::Cart(_) => true,
            Coords::Frac(_) => false,
        };
        let h = if vcart {
            "Cartesian".to_owned()
        } else {
            "".to_owned()
        };
        proof {
            reveal_strlit("Cartesian");
            reveal_strlit("");
            assert(h@ =~= sp_vel_cs_line(rv.velocities->Some_0 is Cart));
        }
        out.push(h);
        let ghost before_vel = old(out).deep_view() + seq![
            sp_vel_cs_line(rv.velocities->Some_0 is Cart),
        ];
        proof {
            assert(out.deep_view() =~= before_vel);
        }
        let velv = match vel {
            Coords::Cart(v) => v,
            Coords::Frac(v) => v,
        };
        let ghost vel_lines = Seq::new(
            rv.velocities->Some_0.spec_raw().len(),
            |i: int| sp_row_out(seq![' ', ' '], rv.velocities->Some_0.spec_raw()[i]),
        );
        let mut i: usize = 0;
        while i < velv.len()
            invariant
                0 <= i <= velv@.len(),
                rv == sp_map_raw(p@, *st),
                velv.deep_view().map_values(|r: R3View| crate::style::sp_map_r3(r, *st))
                    == rv.velocities->Some_0.spec_raw(),
                vel_lines == Seq::new(
                    rv.velocities->Some_0.spec_raw().len(),
                    |i: int| sp_row_out(seq![' ', ' '], rv.velocities->Some_0.spec_raw()[i]),
                ),
                out.deep_view() == before_vel + vel_lines.subrange(0, i as int),
            decreases velv@.len() - i,
        {
            let line = row_string_styled("  ", &velv[i], st);
            proof {
                reveal_strlit("  ");
                assert("  "@ =~= seq![' ', ' ']);
                assert(velv.deep_view()[i as int] == velv@[i as int]@);
                assert(rv.velocities->Some_0.spec_raw()[i as int] == crate::style::sp_map_r3(
                    velv@[i as int]@,
                    *st,
                ));
                assert(line@ == vel_lines[i as int]);
            }
            let ghost lv = line@;
            let ghost prev = out.deep_view();
            out.push(line);
            proof {
                assert(out.deep_view() =~= prev.push(lv));
                assert(out.deep_view() =~= before_vel + vel_lines.subrange(0, i + 1));
            }
            i = i + 1;
        }
        proof {
            assert(vel_lines.subrange(0, velv@.len() as int) =~= vel_lines);
            assert(out.deep_view() =~= old(out).deep_view() + sp_format_vel_lines(rv));
        }
    } else {
        proof {
            assert(sp_format_vel_lines(rv) =~= Seq::<Seq<char>>::empty());
            assert(out.deep_view() =~= old(out).deep_view() + sp_format_vel_lines(rv));
        }
    }
}

/// Serialises a validated structure to its lines with every real number
/// rendered under the given style.  The verbatim style gives exactly
/// [`to_lines`]; the other styles give the same layout with rendered
/// numbers, at the price of the round trip.
pub fn to_lines_styled(p: &Poscar, st: &FloatStyle) -> (out: Vec<String>)
    requires
        sp_validate(p@) is None,
    ensures
        out.deep_view() == sp_format(sp_map_raw(p@, *st)),
{
    let ghost rv = sp_map_raw(p@, *st);
    let mut out = styled_head(p, st);
    styled_positions(&mut out, p, st);
    styled_velocities(&mut out, p, st);
    proof {
        lemma_format_parts(rv);
        assert(out.deep_view() =~= sp_format(rv));
    }
    out
}

} // verus!
