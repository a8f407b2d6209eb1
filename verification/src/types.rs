//! The data model: raw and validated structures, their ghost views, and
//! the validator that promotes one into the other.

use vstd::prelude::*;
use vstd::string::StrSliceExecFns;

use crate::num::{Real, sp_real_accept, sp_real_is_positive, sp_strip_sign};
use crate::parse::{spec_is_digit, spec_is_ws};

verus! {

/// Three real numbers: a row vector (a lattice row, a position, a velocity).
#[derive(Debug, Clone, PartialEq, Eq, Hash)]
pub struct Real3(pub Real, pub Real, pub Real);

/// A 3x3 real matrix, row-major: each row is a lattice vector.
#[derive(Debug, Clone, PartialEq, Eq, Hash)]
pub struct Mat3(pub Real3, pub Real3, pub Real3);

/// Three booleans: the per-axis selective-dynamics flags of one site.
#[derive(Debug, Clone, Copy, PartialEq, Eq, Hash, Structural)]
pub struct Bool3(pub bool, pub bool, pub bool);

/// The second line of the file: either a multiplicative scale factor,
/// or (written negative in the file) a target unit-cell volume.
#[derive(Debug, Clone, PartialEq, Eq)]
pub enum ScaleLine {
    Factor(Real),
    Volume(Real),
}

/// Data that is either in Cartesian units or in fractional (direct) units.
#[derive(Debug, Clone, PartialEq, Eq)]
pub enum Coords<T> {
    Cart(T),
    Frac(T),
}

/// A payload-free coordinate-system marker.
pub type CoordsTag = Coords<()>;

// ---------------------------------------------------------------------------
// Ghost views: every token as the sequence of its characters.

/// The ghost image of one row vector: its three tokens.
pub struct R3View {
    pub x: Seq<char>,
    pub y: Seq<char>,
    pub z: Seq<char>,
}

/// The ghost image of the lattice: its three rows.
pub struct MatView {
    pub r0: R3View,
    pub r1: R3View,
    pub r2: R3View,
}

/// The ghost image of the scale line: the payload token under its mode.
pub enum ScaleView {
    Factor(Seq<char>),
    Volume(Seq<char>),
}

impl View for Real3 {
    type V = R3View;

    open spec fn view(&self) -> R3View {
        R3View { x: self.0@, y: self.1@, z: self.2@ }
    }
}

impl DeepView for Real3 {
    type V = R3View;

    open spec fn deep_view(&self) -> R3View {
        self.view()
    }
}

impl View for Mat3 {
    type V = MatView;

    open spec fn view(&self) -> MatView {
        MatView { r0: self.0@, r1: self.1@, r2: self.2@ }
    }
}

impl View for ScaleLine {
    type V = ScaleView;

    open spec fn view(&self) -> ScaleView {
        match self {
            ScaleLine::Factor(x) => ScaleView::Factor(x@),
            ScaleLine::Volume(x) => ScaleView::Volume(x@),
        }
    }
}

/// The payload token of the scale line, whichever the mode.
pub open spec fn sp_scale_payload(s: ScaleView) -> Seq<char> {
    match s {
        ScaleView::Factor(t) => t,
        ScaleView::Volume(t) => t,
    }
}

impl<T> Coords<T> {
    /// The coordinate-system marker of this value, without its payload.
    pub fn tag(&self) -> (t: CoordsTag)
        ensures
            t == self.spec_tag(),
    {
        match self {
            Coords::Cart(_) => Coords::Cart(()),
            Coords::Frac(_) => Coords::Frac(()),
        }
    }

    /// The coordinate-system marker, in specifications.
    pub open spec fn spec_tag(self) -> CoordsTag {
        match self {
            Coords::Cart(_) => Coords::Cart(()),
            Coords::Frac(_) => Coords::Frac(()),
        }
    }

    /// Pairs a payload with a coordinate-system marker.
    pub fn of_tag(tag: CoordsTag, value: T) -> (r: Coords<T>)
        ensures
            r.spec_tag() == tag,
            r.spec_raw() == value,
    {
        proof {
            lemma_tag_forms(tag);
        }
        match tag {
            Coords::Cart(_) => Coords::Cart(value),
            Coords::Frac(_) => Coords::Frac(value),
        }
    }

    /// The payload, with the marker discarded.
    pub fn raw(self) -> (r: T)
        ensures
            r == self.spec_raw(),
    {
        match self {
            Coords::Cart(x) => x,
            Coords::Frac(x) => x,
        }
    }

    /// The payload, in specifications.
    pub open spec fn spec_raw(self) -> T {
        match self {
            Coords::Cart(x) => x,
            Coords::Frac(x) => x,
        }
    }

    /// A reference to the payload, with the marker kept.
    pub fn as_ref(&self) -> (r: Coords<&T>)
        ensures
            r.spec_tag() == self.spec_tag(),
            *r.spec_raw() == self.spec_raw(),
    {
        match self {
            Coords::Cart(x) => Coords::Cart(x),
            Coords::Frac(x) => Coords::Frac(x),
        }
    }
}

/// A marker is one of exactly two values.
pub proof fn lemma_tag_forms(tag: CoordsTag)
    ensures
        tag == Coords::<()>::Cart(()) || tag == Coords::<()>::Frac(()),
{
    match tag {
        Coords::Cart(u) => {
            assert(u == ());
        }
        Coords::Frac(u) => {
            assert(u == ());
        }
    }
}

impl View for Coords<Vec<Real3>> {
    type V = Coords<Seq<R3View>>;

    open spec fn view(&self) -> Coords<Seq<R3View>> {
        match self {
            Coords::Cart(v) => Coords::Cart(v.deep_view()),
            Coords::Frac(v) => Coords::Frac(v.deep_view()),
        }
    }
}

/// The ghost image of a raw structure: every field as a mathematical value.
pub struct RawView {
    pub comment: Seq<char>,
    pub scale: ScaleView,
    pub lattice: MatView,
    pub symbols: Option<Seq<Seq<char>>>,
    pub counts: Seq<u64>,
    pub positions: Coords<Seq<R3View>>,
    pub velocities: Option<Coords<Seq<R3View>>>,
    pub dynamics: Option<Seq<Bool3>>,
}

/// Unvalidated structure with public data members.
///
/// Its fields map one-to-one onto the sections of a file.  A `RawPoscar`
/// may hold arbitrary data; [`RawPoscar::validate`] checks the invariants
/// and promotes it to a [`Poscar`], the only form that can be written out.
#[derive(Debug, Clone, PartialEq)]
pub struct RawPoscar {
    pub comment: String,
    pub scale: ScaleLine,
    pub lattice_vectors: Mat3,
    pub group_symbols: Option<Vec<String>>,
    pub group_counts: Vec<u64>,
    pub positions: Coords<Vec<Real3>>,
    pub velocities: Option<Coords<Vec<Real3>>>,
    pub dynamics: Option<Vec<Bool3>>,
}

impl View for RawPoscar {
    type V = RawView;

    open spec fn view(&self) -> RawView {
        RawView {
            comment: self.comment@,
            scale: self.scale@,
            lattice: self.lattice_vectors@,
            symbols: match self.group_symbols {
                Some(ref v) => Some(v.deep_view()),
                None => None,
            },
            counts: self.group_counts@,
            positions: self.positions@,
            velocities: match self.velocities {
                Some(ref v) => Some(v@),
                None => None,
            },
            dynamics: match self.dynamics {
                Some(ref v) => Some(v@),
                None => None,
            },
        }
    }
}

/// A structure whose invariants have been checked: the only type the
/// writer accepts.  Constructed exclusively through [`RawPoscar::validate`].
#[derive(Debug, Clone)]
pub struct Poscar(pub(crate) RawPoscar);

impl View for Poscar {
    type V = RawView;

    closed spec fn view(&self) -> RawView {
        self.0@
    }
}

impl Poscar {
    /// Convert back into the form with public data members, for editing.
    /// Re-validation is required before the data can be written again.
    pub fn into_raw(self) -> (r: RawPoscar)
        ensures
            r@ == self@,
    {
        self.0
    }

    /// A read-only borrow of the underlying raw structure.
    pub fn raw_ref(&self) -> (r: &RawPoscar)
        ensures
            r@ == self@,
    {
        &self.0
    }
}

// ---------------------------------------------------------------------------
// Validation.

/// The field a length complaint is about.
#[derive(Debug, Clone, Copy, PartialEq, Eq, Structural)]
pub enum Field {
    Positions,
    Velocities,
    Dynamics,
}

/// Why [`RawPoscar::validate`] refused a structure.
///
/// Beyond the obvious problems, these rules exist so that a validated
/// structure can be written out and read back unchanged.
#[derive(Debug, Clone, PartialEq)]
pub enum ValidationError {
    /// The comment holds a line-break character.
    NewlineInComment,
    /// A symbol is empty, holds whitespace, or begins with a digit.
    /// Carries the offending symbol when it could be identified.
    InvalidSymbol(Option<String>),
    /// The counts sum to zero.
    NoAtoms,
    /// The value inside `Factor(x)` or `Volume(x)` is not positive, or
    /// a volume payload carries a written sign (the writer spells volume
    /// mode as a single leading minus, which a signed payload would
    /// break).
    BadScaleLine,
    /// The number of symbols does not match the number of counts.
    InconsistentNumGroups,
    /// The named member does not have the expected length.
    WrongLength(Field, u128),
}

/// The ghost image of a validation failure.
pub enum ValErrView {
    NewlineInComment,
    InvalidSymbol(Seq<char>),
    NoAtoms,
    BadScaleLine,
    InconsistentNumGroups,
    WrongLength(Field, int),
}

/// Whether an error value reports the given ghost failure.
pub open spec fn sp_err_matches(e: ValidationError, v: ValErrView) -> bool {
    match v {
        ValErrView::NewlineInComment => e == ValidationError::NewlineInComment,
        ValErrView::InvalidSymbol(s) => e matches ValidationError::InvalidSymbol(Some(x)) && x@
            == s,
        ValErrView::NoAtoms => e == ValidationError::NoAtoms,
        ValErrView::BadScaleLine => e == ValidationError::BadScaleLine,
        ValErrView::InconsistentNumGroups => e == ValidationError::InconsistentNumGroups,
        ValErrView::WrongLength(f, n) => e matches ValidationError::WrongLength(g, m) && g == f
            && m == n,
    }
}

/// A legal symbol for the symbols line: non-empty, free of whitespace,
/// and not beginning with a digit.  Exactly these survive the line being
/// written out and tokenized again.
pub open spec fn spec_valid_symbol(s: Seq<char>) -> bool {
    &&& s.len() > 0
    &&& forall|i: int| 0 <= i < s.len() ==> !spec_is_ws(s[i])
    &&& !spec_is_digit(s[0])
}

/// The first illegal symbol at or after index `i`, if any.
pub open spec fn sp_first_bad_symbol(syms: Seq<Seq<char>>, i: int) -> Option<int>
    recommends
        0 <= i <= syms.len(),
    decreases syms.len() - i when 0 <= i <= syms.len()
{
    if i >= syms.len() {
        None
    } else if !spec_valid_symbol(syms[i]) {
        Some(i)
    } else {
        sp_first_bad_symbol(syms, i + 1)
    }
}

/// The total atom count: the sum of the group counts.
pub open spec fn sp_total(counts: Seq<u64>) -> int
    decreases counts.len(),
{
    if counts.len() == 0 {
        0
    } else {
        sp_total(counts.drop_last()) + counts.last()
    }
}

/// The sum of the counts is never negative.
pub proof fn lemma_total_nonneg(counts: Seq<u64>)
    ensures
        sp_total(counts) >= 0,
    decreases counts.len(),
{
    if counts.len() > 0 {
        lemma_total_nonneg(counts.drop_last());
    }
}

/// Whether the comment holds a line-break character.
pub open spec fn sp_comment_has_break(c: Seq<char>) -> bool {
    exists|i: int| 0 <= i < c.len() && (c[i] == '\n' || c[i] == '\r')
}

/// The number of position rows.
pub open spec fn sp_coords_len(c: Coords<Seq<R3View>>) -> int {
    match c {
        Coords::Cart(v) => v.len() as int,
        Coords::Frac(v) => v.len() as int,
    }
}

/// A legal scale line: the payload denotes a value strictly greater
/// than zero, and a volume payload carries no written sign of its own,
/// since the writer spells volume mode as a single leading minus and a
/// signed payload could not be read back.
pub open spec fn sp_scale_ok(s: ScaleView) -> bool {
    &&& sp_real_is_positive(sp_scale_payload(s))
    &&& (s matches ScaleView::Volume(t) ==> sp_strip_sign(t) == t)
}

/// The validation verdict, checks in their fixed order; `None` is success.
/// Only the first violated rule is reported.
pub open spec fn sp_validate(raw: RawView) -> Option<ValErrView> {
    let n = sp_total(raw.counts);
    if raw.symbols matches Some(syms) && syms.len() != raw.counts.len() {
        Some(ValErrView::InconsistentNumGroups)
    } else if sp_comment_has_break(raw.comment) {
        Some(ValErrView::NewlineInComment)
    } else if !sp_scale_ok(raw.scale) {
        Some(ValErrView::BadScaleLine)
    } else if n == 0 {
        Some(ValErrView::NoAtoms)
    } else if raw.symbols matches Some(syms) && sp_first_bad_symbol(syms, 0) matches Some(i) {
        Some(ValErrView::InvalidSymbol(raw.symbols->Some_0[sp_first_bad_symbol(raw.symbols->Some_0, 0)->Some_0]))
    } else if sp_coords_len(raw.positions) != n {
        Some(ValErrView::WrongLength(Field::Positions, n))
    } else if raw.velocities matches Some(v) && sp_coords_len(v) != n {
        Some(ValErrView::WrongLength(Field::Velocities, n))
    } else if raw.dynamics matches Some(d) && d.len() != n {
        Some(ValErrView::WrongLength(Field::Dynamics, n))
    } else {
        None
    }
}

/// Whether the three tokens of a row are accepted real tokens.
pub open spec fn sp_r3_accepted(r: R3View) -> bool {
    &&& sp_real_accept(r.x)
    &&& sp_real_accept(r.y)
    &&& sp_real_accept(r.z)
}

/// Whether every numeric token of the structure is an accepted real
/// token.  Every structure assembled from [`Real`] values satisfies
/// this by construction; [`RawPoscar::validate`] delivers the fact in
/// its contract, so that the round-trip law applies to everything it
/// promotes.
pub open spec fn sp_tokens_accepted(raw: RawView) -> bool {
    &&& sp_real_accept(sp_scale_payload(raw.scale))
    &&& sp_r3_accepted(raw.lattice.r0)
    &&& sp_r3_accepted(raw.lattice.r1)
    &&& sp_r3_accepted(raw.lattice.r2)
    &&& forall|i: int|
        0 <= i < raw.positions.spec_raw().len() ==> sp_r3_accepted(
            #[trigger] raw.positions.spec_raw()[i],
        )
    &&& (raw.velocities matches Some(v) ==> forall|i: int|
        0 <= i < v.spec_raw().len() ==> sp_r3_accepted(#[trigger] v.spec_raw()[i]))
}

// ---------------------------------------------------------------------------
// Executable checks.

/// Whether the text holds a line-break character.
fn has_line_break(s: &str) -> (r: bool)
    ensures
        r == sp_comment_has_break(s@),
{
    let n = s.unicode_len();
    let mut i: usize = 0;
    while i < n
        invariant
            n == s@.len(),
            0 <= i <= n,
            forall|k: int| 0 <= k < i ==> !(s@[k] == '\n' || s@[k] == '\r'),
        decreases n - i,
    {
        let c = s.get_char(i);
        if c == '\n' || c == '\r' {
            return true;
        }
        i = i + 1;
    }
    false
}

/// Whether a symbol is legal for the symbols line.
pub fn is_valid_symbol(s: &str) -> (r: bool)
    ensures
        r == spec_valid_symbol(s@),
{
    let n = s.unicode_len();
    if n == 0 {
        return false;
    }
    let first = s.get_char(0);
    if first >= '0' && first <= '9' {
        return false;
    }
    let mut i: usize = 0;
    while i < n
        invariant
            n == s@.len(),
            0 <= i <= n,
            forall|k: int| 0 <= k < i ==> !spec_is_ws(s@[k]),
        decreases n - i,
    {
        if crate::parse::is_ascii_whitespace(s.get_char(i)) {
            return false;
        }
        i = i + 1;
    }
    true
}

/// The sum of the counts, which cannot overflow 128 bits.
pub fn total_count(counts: &Vec<u64>) -> (r: u128)
    ensures
        r == sp_total(counts@),
{
    let mut acc: u128 = 0;
    let mut i: usize = 0;
    while i < counts.len()
        invariant
            0 <= i <= counts@.len(),
            acc == sp_total(counts@.subrange(0, i as int)),
            acc <= i * (u64::MAX as int),
        decreases counts@.len() - i,
    {
        proof {
            let p = counts@.subrange(0, i as int);
            let q = counts@.subrange(0, i + 1);
            assert(q.drop_last() =~= p);
            assert(q.last() == counts@[i as int]);
            assert((i + 1) * (u64::MAX as int) == i * (u64::MAX as int) + u64::MAX) by (
            nonlinear_arith);
            assert(i * (u64::MAX as int) <= (usize::MAX as int) * (u64::MAX as int)) by (
            nonlinear_arith)
                requires
                    0 <= i <= usize::MAX,
            ;
        }
        acc = acc + counts[i] as u128;
        i = i + 1;
    }
    proof {
        assert(counts@.subrange(0, counts@.len() as int) =~= counts@);
    }
    acc
}

/// Surfaces the acceptance of every token of a row, which each `Real`
/// carries by construction.
fn observe_r3(r: &Real3)
    ensures
        sp_r3_accepted(r@),
{
    let _x = r.0.as_str();
    let _y = r.1.as_str();
    let _z = r.2.as_str();
}

/// Surfaces the acceptance of every token of a row list.
fn observe_rows(v: &Vec<Real3>)
    ensures
        forall|i: int| 0 <= i < v.deep_view().len() ==> sp_r3_accepted(#[trigger] v.deep_view()[i]),
{
    let mut i: usize = 0;
    while i < v.len()
        invariant
            0 <= i <= v@.len(),
            forall|k: int| 0 <= k < i ==> sp_r3_accepted(#[trigger] v.deep_view()[k]),
        decreases v@.len() - i,
    {
        observe_r3(&v[i]);
        proof {
            assert(v.deep_view()[i as int] == v@[i as int]@);
        }
        i = i + 1;
    }
}

/// Surfaces the acceptance of every numeric token of a structure.
fn observe_tokens(raw: &RawPoscar)
    ensures
        sp_tokens_accepted(raw@),
{
    match &raw.scale {
        ScaleLine::Factor(x) => {
            let _t = x.as_str();
        }
        ScaleLine::Volume(x) => {
            let _t = x.as_str();
        }
    }
    observe_r3(&raw.lattice_vectors.0);
    observe_r3(&raw.lattice_vectors.1);
    observe_r3(&raw.lattice_vectors.2);
    match &raw.positions {
        Coords::Cart(v) => observe_rows(v),
        Coords::Frac(v) => observe_rows(v),
    }
    if let Some(vel) = &raw.velocities {
        match vel {
            Coords::Cart(v) => observe_rows(v),
            Coords::Frac(v) => observe_rows(v),
        }
    }
}

impl RawPoscar {
    /// Checks the structure's invariants, in a fixed order, and promotes
    /// it into a [`Poscar`]; the first violated rule is reported.
    ///
    /// The rules, in order: symbol and count list lengths agree; the
    /// comment holds no line break; the scale line is legal (a positive
    /// payload, unsigned in volume mode); at least one atom; every
    /// symbol is legal; positions, velocities and dynamics (where
    /// present) each hold exactly one entry per atom.
    ///
    /// Every numeric token of the structure is an accepted real token
    /// by construction; the contract surfaces that fact so that the
    /// round-trip law applies to whatever this function promotes.
    pub fn validate(self) -> (r: Result<Poscar, ValidationError>)
        ensures
            match sp_validate(self@) {
                None => r matches Ok(p) && p@ == self@,
                Some(ev) => r matches Err(e) && sp_err_matches(e, ev),
            },
            sp_tokens_accepted(self@),
    {
        observe_tokens(&self);
        if let Some(syms) = &self.group_symbols {
            if syms.len() != self.group_counts.len() {
                return Err(ValidationError::InconsistentNumGroups);
            }
        }
        if has_line_break(self.comment.as_str()) {
            return Err(ValidationError::NewlineInComment);
        }
        let scale_ok = match &self.scale {
            ScaleLine::Factor(x) => x.is_strictly_positive(),
            ScaleLine::Volume(x) => {
                let unsigned = crate::num::sign_offset(x.as_str()) == 0;
                proof {
                    if unsigned {
                        assert(sp_strip_sign(x@) =~= x@);
                    } else {
                        assert(sp_strip_sign(x@).len() == x@.len() - 1);
                    }
                }
                x.is_strictly_positive() && unsigned
            }
        };
        if !scale_ok {
            return Err(ValidationError::BadScaleLine);
        }
        let n = total_count(&self.group_counts);
        if n == 0 {
            return Err(ValidationError::NoAtoms);
        }
        if let Some(syms) = &self.group_symbols {
            let mut i: usize = 0;
            #[verifier::loop_isolation(false)]
            while i < syms.len()
                invariant
                    0 <= i <= syms@.len(),
                    forall|k: int| 0 <= k < i ==> spec_valid_symbol(syms.deep_view()[k]),
                    sp_first_bad_symbol(syms.deep_view(), 0) == sp_first_bad_symbol(
                        syms.deep_view(),
                        i as int,
                    ),
                decreases syms@.len() - i,
            {
                proof {
                    assert(syms.deep_view()[i as int] == syms@[i as int]@);
                }
                if !is_valid_symbol(syms[i].as_str()) {
                    return Err(ValidationError::InvalidSymbol(Some(syms[i].clone())));
                }
                i = i + 1;
            }
            proof {
                assert(sp_first_bad_symbol(syms.deep_view(), syms@.len() as int) is None);
            }
        }
        let pos_len = match &self.positions {
            Coords::Cart(v) => v.len(),
            Coords::Frac(v) => v.len(),
        };
        if pos_len as u128 != n {
            return Err(ValidationError::WrongLength(Field::Positions, n));
        }
        if let Some(vel) = &self.velocities {
            let vel_len = match vel {
                Coords::Cart(v) => v.len(),
                Coords::Frac(v) => v.len(),
            };
            if vel_len as u128 != n {
                return Err(ValidationError::WrongLength(Field::Velocities, n));
            }
        }
        if let Some(dyn_flags) = &self.dynamics {
            if dyn_flags.len() as u128 != n {
                return Err(ValidationError::WrongLength(Field::Dynamics, n));
            }
        }
        Ok(Poscar(self))
    }
}

// ---------------------------------------------------------------------------
// Accessors on the validated structure.

/// The given symbol, repeated `n` times.
pub open spec fn sp_repeat(s: Seq<char>, n: int) -> Seq<Seq<char>>
    decreases n when n >= 0
{
    if n <= 0 {
        Seq::empty()
    } else {
        seq![s] + sp_repeat(s, n - 1)
    }
}

/// The per-site symbols: each group's symbol repeated its count, groups
/// from `g` on.
pub open spec fn sp_expand(syms: Seq<Seq<char>>, counts: Seq<u64>, g: int) -> Seq<Seq<char>>
    recommends
        0 <= g <= counts.len(),
        syms.len() == counts.len(),
    decreases counts.len() - g when 0 <= g <= counts.len()
{
    if g >= counts.len() {
        Seq::empty()
    } else {
        sp_repeat(syms[g], counts[g] as int) + sp_expand(syms, counts, g + 1)
    }
}

/// Clones a list of strings.
fn clone_strings(v: &Vec<String>) -> (r: Vec<String>)
    ensures
        r.deep_view() == v.deep_view(),
{
    let mut out: Vec<String> = Vec::new();
    let mut i: usize = 0;
    while i < v.len()
        invariant
            0 <= i <= v@.len(),
            out@.len() == i,
            forall|k: int| 0 <= k < i ==> (#[trigger] out.deep_view()[k]) == v.deep_view()[k],
        decreases v@.len() - i,
    {
        let s = v[i].clone();
        let ghost sv = s@;
        let ghost prev = out.deep_view();
        out.push(s);
        proof {
            assert(out.deep_view() =~= prev.push(sv));
            assert(v.deep_view()[i as int] == v@[i as int]@);
        }
        i = i + 1;
    }
    proof {
        assert(out.deep_view() =~= v.deep_view());
    }
    out
}

impl Poscar {
    /// The comment line.
    pub fn comment(&self) -> (r: &str)
        ensures
            r@ == self@.comment,
    {
        self.0.comment.as_str()
    }

    /// The symbols of the groups, if a symbols line is present.
    pub fn group_symbols(&self) -> (r: Option<Vec<String>>)
        ensures
            match self@.symbols {
                Some(sy) => r matches Some(v) && v.deep_view() == sy,
                None => r is None,
            },
    {
        match &self.0.group_symbols {
            Some(v) => Some(clone_strings(v)),
            None => None,
        }
    }

    /// The atom count of each group.
    pub fn group_counts(&self) -> (r: Vec<u64>)
        ensures
            r@ == self@.counts,
    {
        let mut out: Vec<u64> = Vec::new();
        let mut i: usize = 0;
        while i < self.0.group_counts.len()
            invariant
                0 <= i <= self.0.group_counts@.len(),
                out@ == self.0.group_counts@.subrange(0, i as int),
            decreases self.0.group_counts@.len() - i,
        {
            out.push(self.0.group_counts[i]);
            proof {
                assert(out@ =~= self.0.group_counts@.subrange(0, i + 1));
            }
            i = i + 1;
        }
        proof {
            assert(self.0.group_counts@.subrange(0, self.0.group_counts@.len() as int)
                =~= self.0.group_counts@);
        }
        out
    }

    /// The number of sites in the cell: the length of the position list.
    pub fn num_sites(&self) -> (r: usize)
        ensures
            r == sp_coords_len(self@.positions),
    {
        match &self.0.positions {
            Coords::Cart(v) => v.len(),
            Coords::Frac(v) => v.len(),
        }
    }

    /// The symbol of every site: each group's symbol, repeated once per
    /// atom of the group; `None` when no symbols line is present.
    pub fn site_symbols(&self) -> (r: Option<Vec<String>>)
        requires
            self@.symbols matches Some(sy) ==> sy.len() == self@.counts.len(),
        ensures
            match self@.symbols {
                Some(sy) => r matches Some(v) && v.deep_view() == sp_expand(sy, self@.counts, 0),
                None => r is None,
            },
    {
        let syms = match &self.0.group_symbols {
            Some(v) => v,
            None => {
                return None;
            }
        };
        let ghost sy = syms.deep_view();
        let ghost counts = self.0.group_counts@;
        let mut out: Vec<String> = Vec::new();
        let mut g: usize = 0;
        while g < self.0.group_counts.len()
            invariant
                self.0.group_symbols == Some(*syms),
                sy == syms.deep_view(),
                counts == self.0.group_counts@,
                sy.len() == counts.len(),
                0 <= g <= counts.len(),
                sp_expand(sy, counts, 0) =~= out.deep_view() + sp_expand(sy, counts, g as int),
            decreases counts.len() - g,
        {
            let c = self.0.group_counts[g];
            let ghost before = out.deep_view();
            let mut j: u64 = 0;
            while j < c
                invariant
                    self.0.group_symbols == Some(*syms),
                    sy == syms.deep_view(),
                    0 <= g < sy.len(),
                    0 <= j <= c,
                    out.deep_view() =~= before + sp_repeat(sy[g as int], j as int),
                decreases c - j,
            {
                let s = syms[g].clone();
                let ghost sv = s@;
                let ghost prev = out.deep_view();
                out.push(s);
                proof {
                    assert(out.deep_view() =~= prev.push(sv));
                    assert(sy[g as int] == syms@[g as int]@);
                    lemma_repeat_snoc(sy[g as int], j as int);
                    assert(out.deep_view() =~= before + sp_repeat(sy[g as int], j + 1));
                }
                j = j + 1;
            }
            proof {
                assert(sp_expand(sy, counts, g as int) == sp_repeat(sy[g as int], c as int)
                    + sp_expand(sy, counts, g + 1));
                assert(sp_expand(sy, counts, 0) =~= out.deep_view() + sp_expand(
                    sy,
                    counts,
                    g + 1,
                ));
            }
            g = g + 1;
        }
        proof {
            assert(sp_expand(sy, counts, counts.len() as int) =~= Seq::<Seq<char>>::empty());
            assert(out.deep_view() =~= sp_expand(sy, counts, 0));
        }
        Some(out)
    }
}

/// Repeating once more appends one copy.
pub proof fn lemma_repeat_snoc(s: Seq<char>, n: int)
    requires
        n >= 0,
    ensures
        sp_repeat(s, n + 1) == sp_repeat(s, n).push(s),
    decreases n,
{
    if n == 0 {
        assert(sp_repeat(s, 1) =~= seq![s]);
        assert(sp_repeat(s, 0).push(s) =~= seq![s]);
    } else {
        lemma_repeat_snoc(s, n - 1);
        assert(sp_repeat(s, n + 1) == seq![s] + sp_repeat(s, n));
        assert(sp_repeat(s, n) == seq![s] + sp_repeat(s, n - 1));
        assert(seq![s] + sp_repeat(s, n - 1).push(s) =~= (seq![s] + sp_repeat(s, n - 1)).push(
            s,
        ));
    }
}

/// The fixed description of each violated rule.
pub open spec fn sp_validation_text(e: ValidationError) -> Seq<char> {
    match e {
        ValidationError::NewlineInComment => "the comment may not contain a newline"@,
        ValidationError::InvalidSymbol(_) => "invalid symbol in group_symbols"@,
        ValidationError::NoAtoms => "at least one atom is required"@,
        ValidationError::BadScaleLine => {
            "the value inside Factor(x) or Volume(x) must be positive, and a volume value unsigned"@
        },
        ValidationError::InconsistentNumGroups => "inconsistent number of atom types"@,
        ValidationError::WrongLength(_, _) => "member is wrong length"@,
    }
}

impl ValidationError {
    /// A short description of the violated rule.
    pub fn message(&self) -> (r: &'static str)
        ensures
            r@ == sp_validation_text(*self),
    {
        match self {
            ValidationError::NewlineInComment => "the comment may not contain a newline",
            ValidationError::InvalidSymbol(_) => "invalid symbol in group_symbols",
            ValidationError::NoAtoms => "at least one atom is required",
            ValidationError::BadScaleLine => {
                "the value inside Factor(x) or Volume(x) must be positive, and a volume value unsigned"
            }
            ValidationError::InconsistentNumGroups => "inconsistent number of atom types",
            ValidationError::WrongLength(_, _) => "member is wrong length",
        }
    }
}

} // verus!
