//! Structure construction through the builder pattern.
//!
//! The builder assembles a raw structure from partial inputs with
//! explicit defaults.  It performs no validation of its own: building a
//! raw structure defers every check to [`RawPoscar::validate`].  The
//! builder moves by value, so a consumed builder cannot be reused --
//! clone it first to build twice.

use vstd::prelude::*;

use crate::num::Real;
use crate::types::{Bool3, Coords, CoordsTag, Mat3, MatView, Poscar, R3View, RawPoscar, RawView,
    Real3, ScaleLine, ValidationError, sp_err_matches, sp_validate, sp_tokens_accepted, sp_total,
    lemma_total_nonneg};

verus! {

/// Special value for zero-filled coordinate data: as many zero rows as
/// the group counts ask for.
#[derive(Debug, Clone, Copy)]
pub struct Zeroed;

/// The position data a builder holds.
#[derive(Debug, Clone)]
pub enum Positions {
    /// Not set yet; a builder in this state cannot build.
    Missing,
    /// Zero-filled rows, as many as the counts ask for.
    Zero(CoordsTag),
    /// Explicit rows.
    These(Coords<Vec<Real3>>),
}

/// The velocity data a builder holds.
#[derive(Debug, Clone)]
pub enum Velocities {
    /// No velocity section.
    Absent,
    /// Zero-filled rows, as many as the counts ask for.
    Zero(CoordsTag),
    /// Explicit rows.
    These(Coords<Vec<Real3>>),
}

/// The selective-dynamics data a builder holds.
#[derive(Debug, Clone)]
pub enum Dynamics {
    /// No selective dynamics.
    Absent,
    /// Explicit flags.
    These(Vec<Bool3>),
}

/// Arguments accepted by [`Builder::positions`].
pub trait PositionsArgument: Sized {
    /// What the argument sets the position data to.
    spec fn spec_positions(self) -> Positions;

    /// Turns the argument into position data.
    fn into_positions(self) -> (r: Positions)
        ensures
            r == self.spec_positions(),
    ;
}

impl PositionsArgument for Coords<Vec<Real3>> {
    open spec fn spec_positions(self) -> Positions {
        Positions::These(self)
    }

    fn into_positions(self) -> Positions {
        Positions::These(self)
    }
}

impl PositionsArgument for Coords<Zeroed> {
    open spec fn spec_positions(self) -> Positions {
        Positions::Zero(self.spec_tag())
    }

    fn into_positions(self) -> Positions {
        Positions::Zero(self.tag())
    }
}

/// Arguments accepted by [`Builder::velocities`].
pub trait VelocitiesArgument: Sized {
    /// What the argument sets the velocity data to.
    spec fn spec_velocities(self) -> Velocities;

    /// Turns the argument into velocity data.
    fn into_velocities(self) -> (r: Velocities)
        ensures
            r == self.spec_velocities(),
    ;
}

impl VelocitiesArgument for Coords<Vec<Real3>> {
    open spec fn spec_velocities(self) -> Velocities {
        Velocities::These(self)
    }

    fn into_velocities(self) -> Velocities {
        Velocities::These(self)
    }
}

impl VelocitiesArgument for Coords<Zeroed> {
    open spec fn spec_velocities(self) -> Velocities {
        Velocities::Zero(self.spec_tag())
    }

    fn into_velocities(self) -> Velocities {
        Velocities::Zero(self.tag())
    }
}

/// Arguments accepted by [`Builder::dynamics`].
pub trait DynamicsArgument: Sized {
    /// What the argument sets the dynamics data to.
    spec fn spec_dynamics(self) -> Dynamics;

    /// Turns the argument into dynamics data.
    fn into_dynamics(self) -> (r: Dynamics)
        ensures
            r == self.spec_dynamics(),
    ;
}

impl DynamicsArgument for Vec<Bool3> {
    open spec fn spec_dynamics(self) -> Dynamics {
        Dynamics::These(self)
    }

    fn into_dynamics(self) -> Dynamics {
        Dynamics::These(self)
    }
}

/// Assembles a [`RawPoscar`] or [`Poscar`] from parts, with defaults for
/// everything but the lattice and the positions.
#[derive(Debug, Clone)]
pub struct Builder {
    pub comment: String,
    pub scale: ScaleLine,
    pub lattice: Option<Mat3>,
    pub symbols: Option<Vec<String>>,
    pub counts: Option<Vec<u64>>,
    pub positions: Positions,
    pub velocities: Velocities,
    pub dynamics: Dynamics,
}

/// The zero row that `Zeroed` data is filled with.
pub open spec fn sp_zero_r3() -> R3View {
    R3View {
        x: seq!['0', '.', '0'],
        y: seq!['0', '.', '0'],
        z: seq!['0', '.', '0'],
    }
}

/// The identity lattice that `dummy_lattice_vectors` sets.
pub open spec fn sp_eye() -> MatView {
    MatView {
        r0: R3View { x: seq!['1', '.', '0'], y: seq!['0', '.', '0'], z: seq!['0', '.', '0'] },
        r1: R3View { x: seq!['0', '.', '0'], y: seq!['1', '.', '0'], z: seq!['0', '.', '0'] },
        r2: R3View { x: seq!['0', '.', '0'], y: seq!['0', '.', '0'], z: seq!['1', '.', '0'] },
    }
}

/// Rows under a coordinate-system marker.
pub open spec fn sp_tagged_rows(tag: CoordsTag, rows: Seq<R3View>) -> Coords<Seq<R3View>> {
    match tag {
        Coords::Cart(_) => Coords::Cart(rows),
        Coords::Frac(_) => Coords::Frac(rows),
    }
}

/// The counts a builder settles on: the explicit ones, else a single
/// group holding every explicit position.
pub open spec fn sp_built_counts(b: Builder) -> Seq<u64> {
    match b.counts {
        Some(c) => c@,
        None => match b.positions {
            Positions::These(p) => seq![p.spec_raw()@.len() as u64],
            _ => vstd::pervasive::arbitrary(),
        },
    }
}

/// The structure a buildable builder assembles: every field pinned,
/// with `Zeroed` data expanded to zero rows, one per atom of the counts.
pub open spec fn sp_built(b: Builder) -> RawView {
    RawView {
        comment: b.comment@,
        scale: b.scale@,
        lattice: b.lattice->Some_0@,
        symbols: match b.symbols {
            Some(v) => Some(v.deep_view()),
            None => None,
        },
        counts: sp_built_counts(b),
        positions: match b.positions {
            Positions::These(p) => p@,
            Positions::Zero(tag) => sp_tagged_rows(
                tag,
                Seq::new(sp_total(b.counts->Some_0@) as nat, |i: int| sp_zero_r3()),
            ),
            Positions::Missing => vstd::pervasive::arbitrary(),
        },
        velocities: match b.velocities {
            Velocities::Absent => None,
            Velocities::These(v) => Some(v@),
            Velocities::Zero(tag) => Some(
                sp_tagged_rows(
                    tag,
                    Seq::new(sp_total(sp_built_counts(b)) as nat, |i: int| sp_zero_r3()),
                ),
            ),
        },
        dynamics: match b.dynamics {
            Dynamics::Absent => None,
            Dynamics::These(d) => Some(d@),
        },
    }
}

/// A coordinate value is its marker over the views of its rows.
proof fn lemma_coords_view(c: Coords<Vec<Real3>>)
    ensures
        c@ == sp_tagged_rows(c.spec_tag(), c.spec_raw().deep_view()),
{
    match c {
        Coords::Cart(v) => {}
        Coords::Frac(v) => {}
    }
}

/// Whether a builder can build: the lattice and the positions are set,
/// and zero-filled data has counts to take its length from, with a total
/// that fits in memory.
pub open spec fn sp_buildable(b: Builder) -> bool {
    &&& b.lattice is Some
    &&& !(b.positions is Missing)
    &&& (b.positions is Zero ==> (b.counts matches Some(c) && sp_total(c@) <= usize::MAX))
    &&& (b.velocities is Zero ==> ({
        ||| (b.counts matches Some(c) && sp_total(c@) <= usize::MAX)
        ||| (b.counts is None && b.positions matches Positions::These(p))
    }))
}

/// As many zero rows as asked.
fn zero_rows(n: usize) -> (r: Vec<Real3>)
    ensures
        r.deep_view() == Seq::new(n as nat, |i: int| sp_zero_r3()),
{
    let mut out: Vec<Real3> = Vec::new();
    let mut i: usize = 0;
    while i < n
        invariant
            0 <= i <= n,
            out.deep_view() == Seq::new(i as nat, |q: int| sp_zero_r3()),
        decreases n - i,
    {
        let row = Real3(Real::zero(), Real::zero(), Real::zero());
        let ghost rv = row@;
        let ghost prev = out.deep_view();
        out.push(row);
        proof {
            assert(rv == sp_zero_r3());
            assert(out.deep_view() =~= prev.push(rv));
            assert(out.deep_view() =~= Seq::new((i + 1) as nat, |q: int| sp_zero_r3()));
        }
        i = i + 1;
    }
    out
}

impl Builder {
    /// A fresh builder, with the default comment and a unit scale.
    pub fn new() -> (r: Builder)
        ensures
            r.comment@ == "POSCAR File"@,
            r.scale matches ScaleLine::Factor(f) && f@ == seq!['1', '.', '0'],
            r.lattice is None,
            r.symbols is None,
            r.counts is None,
            r.positions is Missing,
            r.velocities is Absent,
            r.dynamics is Absent,
    {
        Builder {
            comment: "POSCAR File".to_owned(),
            scale: ScaleLine::Factor(Real::one()),
            lattice: None,
            symbols: None,
            counts: None,
            positions: Positions::Missing,
            velocities: Velocities::Absent,
            dynamics: Dynamics::Absent,
        }
    }

    /// Sets the comment line.
    pub fn comment(self, s: String) -> (r: Builder)
        ensures
            r == (Builder { comment: s, ..self }),
    {
        Builder { comment: s, ..self }
    }

    /// Sets the scale line.
    pub fn scale(self, s: ScaleLine) -> (r: Builder)
        ensures
            r == (Builder { scale: s, ..self }),
    {
        Builder { scale: s, ..self }
    }

    /// Sets the lattice vectors, as they are written in the file.
    pub fn lattice_vectors(self, m: Mat3) -> (r: Builder)
        ensures
            r == (Builder { lattice: Some(m), ..self }),
    {
        Builder { lattice: Some(m), ..self }
    }

    /// Sets an identity matrix as the lattice: an explicit default for
    /// uses where the lattice does not matter.
    pub fn dummy_lattice_vectors(self) -> (r: Builder)
        ensures
            r.lattice matches Some(m) && m@ == sp_eye(),
            r == (Builder { lattice: r.lattice, ..self }),
    {
        let eye = Mat3(
            Real3(Real::one(), Real::zero(), Real::zero()),
            Real3(Real::zero(), Real::one(), Real::zero()),
            Real3(Real::zero(), Real::zero(), Real::one()),
        );
        Builder { lattice: Some(eye), ..self }
    }

    /// Sets the positions, as they are written in the file.
    pub fn positions<V: PositionsArgument>(self, vs: V) -> (r: Builder)
        ensures
            r == (Builder { positions: vs.spec_positions(), ..self }),
    {
        Builder { positions: vs.into_positions(), ..self }
    }

    /// Sets the velocities, as they are written in the file.
    pub fn velocities<V: VelocitiesArgument>(self, vs: V) -> (r: Builder)
        ensures
            r == (Builder { velocities: vs.spec_velocities(), ..self }),
    {
        Builder { velocities: vs.into_velocities(), ..self }
    }

    /// Removes the velocity section.
    pub fn no_velocities(self) -> (r: Builder)
        ensures
            r == (Builder { velocities: Velocities::Absent, ..self }),
    {
        Builder { velocities: Velocities::Absent, ..self }
    }

    /// Sets explicit counts for the groups.
    pub fn group_counts(self, cs: Vec<u64>) -> (r: Builder)
        ensures
            r == (Builder { counts: Some(cs), ..self }),
    {
        Builder { counts: Some(cs), ..self }
    }

    /// Returns to the default behaviour: a single group holding every
    /// position.
    pub fn auto_group_counts(self) -> (r: Builder)
        ensures
            r == (Builder { counts: None::<Vec<u64>>, ..self }),
    {
        Builder { counts: None, ..self }
    }

    /// Sets the symbols of the groups.
    pub fn group_symbols(self, syms: Vec<String>) -> (r: Builder)
        ensures
            r == (Builder { symbols: Some(syms), ..self }),
    {
        Builder { symbols: Some(syms), ..self }
    }

    /// Removes the symbols line.
    pub fn no_group_symbols(self) -> (r: Builder)
        ensures
            r == (Builder { symbols: None::<Vec<String>>, ..self }),
    {
        Builder { symbols: None, ..self }
    }

    /// Sets the selective-dynamics flags.
    pub fn dynamics<V: DynamicsArgument>(self, vs: V) -> (r: Builder)
        ensures
            r == (Builder { dynamics: vs.spec_dynamics(), ..self }),
    {
        Builder { dynamics: vs.into_dynamics(), ..self }
    }

    /// Removes the selective-dynamics section.
    pub fn no_dynamics(self) -> (r: Builder)
        ensures
            r == (Builder { dynamics: Dynamics::Absent, ..self }),
    {
        Builder { dynamics: Dynamics::Absent, ..self }
    }

    /// Builds the raw structure, without validating it: exactly the
    /// structure [`sp_built`] assembles from the builder's fields.
    ///
    /// Explicit counts take precedence over the positions where a length
    /// is ambiguous; a length mismatch is left for validation to find.
    pub fn build_raw(self) -> (r: RawPoscar)
        requires
            sp_buildable(self),
        ensures
            r@ == sp_built(self),
            r.group_symbols == self.symbols,
            self.counts matches Some(c) ==> r.group_counts == c,
            self.positions matches Positions::These(p) ==> r.positions == p,
            self.velocities matches Velocities::These(v) ==> r.velocities == Some(v),
            self.dynamics matches Dynamics::These(d) ==> r.dynamics == Some(d),
    {
        let ghost b = self;
        let Builder { comment, scale, lattice, symbols, counts, positions, velocities, dynamics }
            = self;
        let lattice_vectors = match lattice {
            Some(m) => m,
            None => vstd::pervasive::unreached(),
        };
        let (positions, group_counts): (Coords<Vec<Real3>>, Vec<u64>) = match (positions, counts) {
            (Positions::Missing, _) => vstd::pervasive::unreached(),
            (Positions::Zero(tag), Some(cs)) => {
                proof {
                    lemma_total_nonneg(cs@);
                }
                let n = crate::types::total_count(&cs);
                let rows = zero_rows(n as usize);
                (Coords::of_tag(tag, rows), cs)
            }
            (Positions::Zero(tag), None) => vstd::pervasive::unreached(),
            (Positions::These(p), None) => {
                let n = match &p {
                    Coords::Cart(v) => v.len(),
                    Coords::Frac(v) => v.len(),
                };
                let mut cs: Vec<u64> = Vec::new();
                cs.push(n as u64);
                proof {
                    assert(cs@ =~= seq![p.spec_raw()@.len() as u64]);
                }
                (p, cs)
            }
            (Positions::These(p), Some(cs)) => (p, cs),
        };
        let velocities: Option<Coords<Vec<Real3>>> = match velocities {
            Velocities::Absent => None,
            Velocities::Zero(tag) => {
                let n = crate::types::total_count(&group_counts);
                proof {
                    lemma_total_nonneg(group_counts@);
                    if b.counts is Some {
                        assert(group_counts == b.counts->Some_0);
                    } else {
                        assert(b.positions matches Positions::These(p) && group_counts@
                            =~= seq![p.spec_raw()@.len() as u64]);
                        assert(group_counts@.drop_last() =~= Seq::<u64>::empty());
                        assert(sp_total(Seq::<u64>::empty()) == 0);
                        assert(group_counts@.last() == group_counts@[0]);
                        assert(sp_total(group_counts@) == sp_total(group_counts@.drop_last())
                            + group_counts@.last());
                        assert(sp_total(group_counts@) == group_counts@[0]);
                    }
                    assert(n <= usize::MAX as u128);
                }
                Some(Coords::of_tag(tag, zero_rows(n as usize)))
            }
            Velocities::These(v) => Some(v),
        };
        let dynamics: Option<Vec<Bool3>> = match dynamics {
            Dynamics::Absent => None,
            Dynamics::These(d) => Some(d),
        };
        let raw = RawPoscar {
            comment,
            scale,
            lattice_vectors,
            group_symbols: symbols,
            group_counts,
            positions,
            velocities,
            dynamics,
        };
        proof {
            let sb = sp_built(b);
            assert(raw@.counts == sb.counts);
            assert(raw@.positions == sb.positions) by {
                match b.positions {
                    Positions::Missing => {}
                    Positions::These(p) => {}
                    Positions::Zero(tag) => {
                        lemma_coords_view(raw.positions);
                        lemma_total_nonneg(b.counts->Some_0@);
                    }
                }
            }
            assert(raw@.velocities == sb.velocities) by {
                match b.velocities {
                    Velocities::Absent => {}
                    Velocities::These(v) => {}
                    Velocities::Zero(tag) => {
                        lemma_coords_view(raw.velocities->Some_0);
                        lemma_total_nonneg(raw.group_counts@);
                    }
                }
            }
            assert(raw@ == sb);
        }
        raw
    }

    /// Builds and validates in one step: exactly [`Builder::build_raw`]
    /// followed by [`RawPoscar::validate`].
    pub fn build(self) -> (r: Result<Poscar, ValidationError>)
        requires
            sp_buildable(self),
        ensures
            match sp_validate(sp_built(self)) {
                None => r matches Ok(p) && p@ == sp_built(self),
                Some(ev) => r matches Err(e) && sp_err_matches(e, ev),
            },
            sp_tokens_accepted(sp_built(self)),
    {
        self.build_raw().validate()
    }
}

} // verus!
