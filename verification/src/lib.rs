//! Deterministic rendering of 2D L-systems as scalable vector images.
//!
//! An L-system is expanded by rewriting its initial string, a turtle walks
//! over the expanded string and leaves strokes, the strokes are mapped into
//! the unit square, and the result is written as an SVG document with one
//! path. All numbers are fixed-precision decimals, so that the same input
//! gives the same document on every machine.

pub mod decimal;
pub mod embed;
pub mod error;
pub mod grammar;
pub mod input;
pub mod lsystem;
pub mod normalize;
pub mod svg;
pub mod turtle;

pub use crate::decimal::Decimal;
pub use crate::error::RenderError;
pub use crate::grammar::RuleSet;
pub use crate::grammar::SymbolSet;
pub use crate::lsystem::LSystem;
pub use crate::svg::LengthUnit;
pub use crate::svg::SvgOptions;
pub use crate::turtle::Point;
pub use crate::turtle::Stroke;
