//! An L-system and its rendering: expansion of the grammar, the turtle's pass,
//! normalisation and serialisation, one after the other.

use crate::decimal::Decimal;
use crate::error::RenderError;
use crate::grammar::expand;
use crate::grammar::expansion;
use crate::grammar::RuleSet;
use crate::grammar::SymbolSet;
use crate::normalize::normalization;
use crate::normalize::normalize;
use crate::svg::serialization;
use crate::svg::serialize;
use crate::svg::SvgOptions;
use crate::turtle::interpret;
use crate::turtle::interpretation;
use crate::turtle::Stroke;
use vstd::prelude::*;

verus! {

/// Parameters for the L-system.
#[derive(Debug)]
pub struct LSystem {
    /// Initial string.
    pub initiator: String,
    /// Variables that are treated as a stroke and drawn.
    pub variables_to_draw: SymbolSet,
    /// Turn angle in radians.
    pub angle: Decimal,
    /// Number of times the rules run.
    pub iterations: usize,
    /// Rules for replacing characters with a new string.
    pub rules: RuleSet,
}

impl LSystem {
    /// The string after all iterations.
    pub open spec fn final_state(&self) -> Seq<char> {
        expansion(self.initiator@, self.rules@, self.iterations as nat)
    }

    /// The strokes of the turtle on the final state.
    pub open spec fn drawing(&self) -> Result<Seq<Stroke>, RenderError> {
        interpretation(self.final_state(), self.variables_to_draw@, self.angle)
    }

    /// The document of the L-system on a canvas, or the first error on the
    /// way: of the turtle's pass, of the normalisation, of the serialisation.
    pub open spec fn rendering(&self, options: SvgOptions) -> Result<Seq<char>, RenderError> {
        match self.drawing() {
            Ok(strokes) => match normalization(strokes, options.width, options.height) {
                Ok(placed) => serialization(placed, options),
                Err(e) => Err(e),
            },
            Err(e) => Err(e),
        }
    }

    /// Runs the L-system, returning its final state.
    pub fn calculate_final_state(&self) -> (state: String)
        ensures
            state@ == self.final_state(),
            self.iterations == 0 ==> state@ == self.initiator@,
    {
        expand(self.initiator.as_str(), &self.rules, self.iterations)
    }

    /// Runs the L-system and walks the turtle over its final state.
    pub fn strokes(&self) -> (r: Result<Vec<Stroke>, RenderError>)
        ensures
            match r {
                Ok(strokes) => self.drawing() == Ok::<Seq<Stroke>, RenderError>(strokes@),
                Err(e) => self.drawing() == Err::<Seq<Stroke>, RenderError>(e),
            },
    {
        let state = self.calculate_final_state();
        interpret(state.as_str(), &self.variables_to_draw, self.angle)
    }

    /// Runs the L-system and converts it into an SVG document.
    ///
    /// Fails with `UnbalancedBrackets` where a `]` has no `[` before it to
    /// match, with `EmptyDrawing` where the turtle makes no stroke, and with
    /// `NumericRange` where the decimal arithmetic has no result.
    pub fn to_svg(&self, options: &SvgOptions) -> (r: Result<String, RenderError>)
        ensures
            match r {
                Ok(text) => self.rendering(*options) == Ok::<Seq<char>, RenderError>(text@),
                Err(e) => self.rendering(*options) == Err::<Seq<char>, RenderError>(e),
            },
    {
        let strokes = match self.strokes() {
            Ok(strokes) => strokes,
            Err(e) => { return Err(e); },
        };
        let placed = match normalize(&strokes, options.width, options.height) {
            Ok(placed) => placed,
            Err(e) => { return Err(e); },
        };
        serialize(&placed, options)
    }
}

} // verus!
