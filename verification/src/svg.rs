//! The vector image: a document with one path, whose data are the strokes
//! of the drawing in the unit square and whose transform stretches the unit
//! square over the canvas.

use crate::decimal::Decimal;
use crate::error::RenderError;
use crate::normalize::shorter_side;
use crate::turtle::Stroke;
use vstd::prelude::*;
use vstd::string::StringExecFns;

verus! {

/// The unit in which the sides of the canvas are given.
#[derive(Clone, Copy, Debug, PartialEq, Eq)]
pub enum LengthUnit {
    /// No unit: a plain number.
    Unitless,
    Em,
    Ex,
    Px,
    In,
    Cm,
    Mm,
    Pt,
    Pc,
    Percent,
}

/// The canvas of the image.
#[derive(Clone, Copy, Debug, PartialEq, Eq)]
pub struct SvgOptions {
    /// Width in `units`.
    pub width: Decimal,
    /// Height in `units`.
    pub height: Decimal,
    /// The unit of the width and of the height.
    pub units: LengthUnit,
}

/// What is written behind a length for its unit.
pub open spec fn unit_suffix(units: LengthUnit) -> Seq<char> {
    match units {
        LengthUnit::Unitless => ""@,
        LengthUnit::Em => "em"@,
        LengthUnit::Ex => "ex"@,
        LengthUnit::Px => "px"@,
        LengthUnit::In => "in"@,
        LengthUnit::Cm => "cm"@,
        LengthUnit::Mm => "mm"@,
        LengthUnit::Pt => "pt"@,
        LengthUnit::Pc => "pc"@,
        LengthUnit::Percent => "%"@,
    }
}

/// The command of one stroke: the first stroke of a path is a move without
/// a blank before it; every later one is a move where the stroke is marked so
/// and a line where it is not.
pub open spec fn command(s: Stroke, first: bool) -> Seq<char> {
    (if first {
        "M "@
    } else if s.is_move {
        " M "@
    } else {
        " L "@
    }) + s.position.x.text() + " "@ + s.position.y.text()
}

/// The data of the path: the commands of the strokes in order.
pub open spec fn path_data(strokes: Seq<Stroke>) -> Seq<char>
    decreases strokes.len(),
{
    if strokes.len() == 0 {
        Seq::empty()
    } else {
        path_data(strokes.drop_last()) + command(strokes.last(), strokes.len() == 1)
    }
}

/// The width of the line: one unit of the shorter side of the canvas.
pub open spec fn line_width(options: SvgOptions) -> Option<Decimal> {
    Decimal::one().over(shorter_side(options.width, options.height))
}

/// The first line of the document.
pub open spec fn prolog() -> Seq<char> {
    "<?xml version=\"1.0\" encoding=\"UTF-8\"?>\n"@
}

/// The opening tag of the root element: the sides of the canvas with their
/// unit, and a view box of the same numbers.
pub open spec fn root_open(options: SvgOptions) -> Seq<char> {
    "<svg xmlns=\"http://www.w3.org/2000/svg\" xmlns:xlink=\"http://www.w3.org/1999/xlink\" width=\""@
        + options.width.text() + unit_suffix(options.units) + "\" height=\""@
        + options.height.text() + unit_suffix(options.units) + "\" viewBox=\"0 0 "@
        + options.width.text() + " "@ + options.height.text() + "\">\n"@
}

/// The path element.
pub open spec fn path_element(strokes: Seq<Stroke>, options: SvgOptions, width: Decimal) -> Seq<
    char,
> {
    "<path fill=\"none\" stroke-width=\""@ + width.text()
        + "\" stroke-linecap=\"butt\" stroke-linejoin=\"miter\" stroke=\"rgb(0%, 0%, 0%)\" stroke-opacity=\"1\" stroke-miterlimit=\"10\" d=\""@
        + path_data(strokes) + "\" transform=\"matrix("@ + options.width.text() + ", 0, 0, "@
        + options.height.text() + ", 0, 0)\"/>\n"@
}

/// The whole document.
pub open spec fn document(strokes: Seq<Stroke>, options: SvgOptions, width: Decimal) -> Seq<char> {
    prolog() + root_open(options) + path_element(strokes, options, width) + "</svg>\n"@
}

/// The document of a drawing, or `NumericRange` where the width of the line
/// cannot be computed.
pub open spec fn serialization(strokes: Seq<Stroke>, options: SvgOptions) -> Result<
    Seq<char>,
    RenderError,
> {
    match line_width(options) {
        Some(width) => Ok(document(strokes, options, width)),
        None => Err(RenderError::NumericRange),
    }
}

/// Serialising is a function of the strokes and the canvas: the same strokes
/// on the same canvas give the same document, character for character.
pub proof fn lemma_serialization_deterministic(
    strokes_a: Seq<Stroke>,
    options_a: SvgOptions,
    strokes_b: Seq<Stroke>,
    options_b: SvgOptions,
)
    requires
        strokes_a == strokes_b,
        options_a == options_b,
    ensures
        serialization(strokes_a, options_a) == serialization(strokes_b, options_b),
{
}

impl LengthUnit {
    /// What is written behind a length for the unit.
    pub fn suffix(&self) -> (s: &'static str)
        ensures
            s@ == unit_suffix(*self),
    {
        match self {
            LengthUnit::Unitless => "",
            LengthUnit::Em => "em",
            LengthUnit::Ex => "ex",
            LengthUnit::Px => "px",
            LengthUnit::In => "in",
            LengthUnit::Cm => "cm",
            LengthUnit::Mm => "mm",
            LengthUnit::Pt => "pt",
            LengthUnit::Pc => "pc",
            LengthUnit::Percent => "%",
        }
    }
}

/// Writes the data of the path for the strokes.
pub fn write_path(strokes: &Vec<Stroke>) -> (data: String)
    ensures
        data@ == path_data(strokes@),
{
    let mut data = String::new();
    let mut i: usize = 0;
    while i < strokes.len()
        invariant
            i <= strokes.len(),
            data@ == path_data(strokes@.take(i as int)),
        decreases strokes.len() - i,
    {
        let s = strokes[i];
        proof {
            let done = strokes@.take(i + 1);
            assert(done.drop_last() == strokes@.take(i as int));
            assert(done.last() == s);
        }
        if i == 0 {
            data.append("M ");
        } else if s.is_move {
            data.append(" M ");
        } else {
            data.append(" L ");
        }
        data.append(s.position.x.to_text().as_str());
        data.append(" ");
        data.append(s.position.y.to_text().as_str());
        i = i + 1;
    }
    assert(strokes@.take(strokes@.len() as int) == strokes@);
    data
}

/// Writes the document for strokes in the unit square.
///
/// Fails with `NumericRange` where the width of the line, one over the
/// shorter side of the canvas, cannot be computed: the side is zero.
pub fn serialize(strokes: &Vec<Stroke>, options: &SvgOptions) -> (r: Result<String, RenderError>)
    ensures
        match r {
            Ok(text) => serialization(strokes@, *options) == Ok::<Seq<char>, RenderError>(text@),
            Err(e) => serialization(strokes@, *options) == Err::<Seq<char>, RenderError>(e),
        },
{
    let shorter = options.width.min(options.height);
    let line = match Decimal::one().checked_div(shorter) {
        Some(line) => line,
        None => { return Err(RenderError::NumericRange); },
    };
    let width = options.width.to_text();
    let height = options.height.to_text();
    let suffix = options.units.suffix();
    let mut text = String::from_str("<?xml version=\"1.0\" encoding=\"UTF-8\"?>\n");
    text.append(
        "<svg xmlns=\"http://www.w3.org/2000/svg\" xmlns:xlink=\"http://www.w3.org/1999/xlink\" width=\"",
    );
    text.append(width.as_str());
    text.append(suffix);
    text.append("\" height=\"");
    text.append(height.as_str());
    text.append(suffix);
    text.append("\" viewBox=\"0 0 ");
    text.append(width.as_str());
    text.append(" ");
    text.append(height.as_str());
    text.append("\">\n");
    assert(text@ == prolog() + root_open(*options));
    text.append("<path fill=\"none\" stroke-width=\"");
    text.append(line.to_text().as_str());
    text.append(
        "\" stroke-linecap=\"butt\" stroke-linejoin=\"miter\" stroke=\"rgb(0%, 0%, 0%)\" stroke-opacity=\"1\" stroke-miterlimit=\"10\" d=\"",
    );
    text.append(write_path(strokes).as_str());
    text.append("\" transform=\"matrix(");
    text.append(width.as_str());
    text.append(", 0, 0, ");
    text.append(height.as_str());
    text.append(", 0, 0)\"/>\n");
    assert(text@ == prolog() + root_open(*options) + path_element(strokes@, *options, line));
    text.append("</svg>\n");
    Ok(text)
}

} // verus!
