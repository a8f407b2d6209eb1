//! Reader and writer for the POSCAR structure-file format of atomistic
//! simulation tools.
//!
//! The crate parses the line-oriented text format into a validated
//! in-memory structure and serialises it back to a canonical text form.
//! Real numbers are carried verbatim as their decimal tokens (see
//! [`num::Real`]), which keeps every rule of the format, including the
//! round trip from a written file back to the same structure, a matter
//! of exact text logic; see [`laws`] for what is proved.
//!
//! Binary floating-point evaluation of the stored tokens (coordinate
//! conversion, scaled quantities) is a numeric concern outside this
//! crate's scope; the tokens expose everything such a layer needs.

pub mod builder;
pub mod grammar;
pub mod laws;
pub mod num;
pub mod parse;
pub mod style;
pub mod types;
pub mod write;

pub use crate::builder::{
    Builder, Dynamics, DynamicsArgument, Positions, PositionsArgument, Velocities,
    VelocitiesArgument, Zeroed,
};
pub use crate::grammar::from_lines;
pub use crate::num::Real;
pub use crate::parse::{ParseError, ParseErrorKind};
pub use crate::style::{fixed_token, styled_real, FloatStyle};
pub use crate::types::{
    Bool3, Coords, CoordsTag, Field, Mat3, Poscar, RawPoscar, Real3, ScaleLine, ValidationError,
};
pub use crate::write::{format_poscar, to_lines, to_lines_styled};
