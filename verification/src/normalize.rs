//! The bounding box of a drawing, and the mapping of the drawing into the
//! unit square.
//!
//! On each axis the span of the drawing is mapped onto the interval from 0 to
//! 1. The unit square is later stretched over the canvas, so on the longer
//! side of a canvas that is not square the coordinates are shrunk by the
//! ratio of the two sides and centred: a unit square then covers a centred
//! square of the canvas.

use crate::decimal::lemma_order_transitive;
use crate::decimal::lemma_rounded_scale;
use crate::decimal::Decimal;
use crate::error::RenderError;
use crate::turtle::Point;
use crate::turtle::Stroke;
use vstd::prelude::*;

verus! {

/// The decimal places to which a coordinate is rounded.
pub const PLACES: u32 = 7;

/// The smallest box with sides along the axes that holds every stroke.
#[derive(Clone, Copy, Debug, PartialEq, Eq)]
pub struct Bounds {
    pub low: Point,
    pub high: Point,
}

/// One axis of the mapping: the span of the drawing from `low` to `high`,
/// the length of the canvas along the axis, and the shorter of the two sides
/// of the canvas.
#[derive(Clone, Copy, Debug, PartialEq, Eq)]
pub struct Axis {
    pub low: Decimal,
    pub high: Decimal,
    pub length: Decimal,
    pub shorter: Decimal,
}

/// An axis with what does not depend on the coordinate computed once.
struct Prepared {
    axis: Axis,
    span: Option<Decimal>,
    ratio: Option<Decimal>,
    margin: Option<Decimal>,
}

/// The first of the smallest values.
pub open spec fn lowest(values: Seq<Decimal>) -> Decimal
    decreases values.len(),
{
    if values.len() <= 1 {
        values[0]
    } else {
        let rest = lowest(values.drop_last());
        if values.last().below(rest) {
            values.last()
        } else {
            rest
        }
    }
}

/// The last of the largest values.
pub open spec fn highest(values: Seq<Decimal>) -> Decimal
    decreases values.len(),
{
    if values.len() <= 1 {
        values[0]
    } else {
        let rest = highest(values.drop_last());
        if values.last().below(rest) {
            rest
        } else {
            values.last()
        }
    }
}

/// The horizontal coordinates of the strokes.
pub open spec fn xs(strokes: Seq<Stroke>) -> Seq<Decimal> {
    strokes.map_values(|s: Stroke| s.position.x)
}

/// The vertical coordinates of the strokes.
pub open spec fn ys(strokes: Seq<Stroke>) -> Seq<Decimal> {
    strokes.map_values(|s: Stroke| s.position.y)
}

/// The bounding box of a drawing with at least one stroke.
pub open spec fn bounds_of(strokes: Seq<Stroke>) -> Bounds {
    Bounds {
        low: Point { x: lowest(xs(strokes)), y: lowest(ys(strokes)) },
        high: Point { x: highest(xs(strokes)), y: highest(ys(strokes)) },
    }
}

/// The shorter side of a canvas; the width where the sides are equal.
pub open spec fn shorter_side(width: Decimal, height: Decimal) -> Decimal {
    if height.below(width) {
        height
    } else {
        width
    }
}

/// The horizontal axis of the mapping.
pub open spec fn axis_x(strokes: Seq<Stroke>, width: Decimal, height: Decimal) -> Axis {
    Axis {
        low: lowest(xs(strokes)),
        high: highest(xs(strokes)),
        length: width,
        shorter: shorter_side(width, height),
    }
}

/// The vertical axis of the mapping.
pub open spec fn axis_y(strokes: Seq<Stroke>, width: Decimal, height: Decimal) -> Axis {
    Axis {
        low: lowest(ys(strokes)),
        high: highest(ys(strokes)),
        length: height,
        shorter: shorter_side(width, height),
    }
}

/// The extent of the drawing along the axis.
pub open spec fn span(axis: Axis) -> Option<Decimal> {
    axis.high.minus(axis.low)
}

/// The shorter side of the canvas as a fraction of the side along the axis.
pub open spec fn ratio(axis: Axis) -> Option<Decimal> {
    axis.shorter.over(axis.length)
}

/// Half of what the ratio leaves of the unit interval.
pub open spec fn margin(axis: Axis) -> Option<Decimal> {
    match ratio(axis) {
        Some(r) => match Decimal::one().minus(r) {
            Some(rest) => rest.over(Decimal::two()),
            None => None,
        },
        None => None,
    }
}

/// Where `v` lies in the span of the drawing, as a fraction of the span:
/// `(v - low) / (high - low)`. On an axis along which the drawing has no
/// extent every coordinate goes to the middle, `0.5`.
pub open spec fn unit_position(v: Decimal, axis: Axis) -> Option<Decimal> {
    if axis.low.below(axis.high) {
        match (span(axis), v.minus(axis.low)) {
            (Some(s), Some(d)) => d.over(s),
            _ => None,
        }
    } else {
        Some(Decimal::half())
    }
}

/// A fraction of the span brought onto the canvas: along the shorter side of
/// the canvas it stays as it is, along the longer side it becomes
/// `u * ratio + margin`.
pub open spec fn fitted(u: Decimal, axis: Axis) -> Option<Decimal> {
    if axis.shorter.below(axis.length) {
        match (ratio(axis), margin(axis)) {
            (Some(r), Some(m)) => match u.times(r) {
                Some(t) => t.plus(m),
                None => None,
            },
            _ => None,
        }
    } else {
        Some(u)
    }
}

/// What becomes of a computed coordinate: it is rounded to seven places and
/// must then lie in the unit interval. It is an error where the arithmetic
/// had no result or the rounded result lies outside.
pub open spec fn settled(computed: Option<Decimal>) -> Result<Decimal, RenderError> {
    match computed {
        Some(f) => if f.rounded(PLACES).in_unit_interval() {
            Ok(f.rounded(PLACES))
        } else {
            Err(RenderError::NumericRange)
        },
        None => Err(RenderError::NumericRange),
    }
}

/// The normalised coordinate of `v`: its fraction of the span, brought onto
/// the canvas and settled.
pub open spec fn placed(v: Decimal, axis: Axis) -> Result<Decimal, RenderError> {
    settled(
        match unit_position(v, axis) {
            Some(u) => fitted(u, axis),
            None => None,
        },
    )
}

/// The normalised stroke: both coordinates placed, the kind of stroke kept.
pub open spec fn placed_stroke(s: Stroke, horizontal: Axis, vertical: Axis) -> Result<
    Stroke,
    RenderError,
> {
    match (placed(s.position.x, horizontal), placed(s.position.y, vertical)) {
        (Ok(x), Ok(y)) => Ok(Stroke { position: Point { x, y }, is_move: s.is_move }),
        _ => Err(RenderError::NumericRange),
    }
}

/// The drawing in the unit square.
///
/// A drawing without strokes has no bounding box: `EmptyDrawing`. Otherwise
/// every stroke is placed on the axes of the drawing's bounding box, in
/// order; if one of them cannot be placed the result is `NumericRange`.
pub open spec fn normalization(strokes: Seq<Stroke>, width: Decimal, height: Decimal) -> Result<
    Seq<Stroke>,
    RenderError,
> {
    let horizontal = axis_x(strokes, width, height);
    let vertical = axis_y(strokes, width, height);
    if strokes.len() == 0 {
        Err(RenderError::EmptyDrawing)
    } else if forall|i: int|
        0 <= i < strokes.len() ==> placed_stroke(#[trigger] strokes[i], horizontal, vertical) is Ok {
        Ok(strokes.map_values(|s: Stroke| placed_stroke(s, horizontal, vertical)->Ok_0))
    } else {
        Err(RenderError::NumericRange)
    }
}

/// Whether both coordinates of every stroke lie between 0 and 1.
pub open spec fn in_unit_square(strokes: Seq<Stroke>) -> bool {
    forall|i: int|
        0 <= i < strokes.len() ==> (#[trigger] strokes[i]).position.x.in_unit_interval()
            && strokes[i].position.y.in_unit_interval()
}

/// Whether no coordinate has more than seven decimal places.
pub open spec fn in_precision(strokes: Seq<Stroke>) -> bool {
    forall|i: int|
        0 <= i < strokes.len() ==> (#[trigger] strokes[i]).position.x.scale() <= PLACES
            && strokes[i].position.y.scale() <= PLACES
}

impl Prepared {
    spec fn consistent(self) -> bool {
        &&& self.span == span(self.axis)
        &&& self.ratio == ratio(self.axis)
        &&& self.margin == margin(self.axis)
    }
}

/// The lowest value is one of the values, none is below it, and it is the
/// first such value.
pub proof fn lemma_lowest(values: Seq<Decimal>)
    requires
        values.len() > 0,
    ensures
        forall|j: int| 0 <= j < values.len() ==> !(#[trigger] values[j]).below(lowest(values)),
        exists|i: int|
            0 <= i < values.len() && lowest(values) == #[trigger] values[i] && forall|j: int|
                0 <= j < i ==> lowest(values).below(#[trigger] values[j]),
    decreases values.len(),
{
    if values.len() <= 1 {
        assert(lowest(values) == values[0]);
    } else {
        let front = values.drop_last();
        lemma_lowest(front);
        let rest = lowest(front);
        let i = choose|i: int|
            0 <= i < front.len() && rest == #[trigger] front[i] && forall|j: int|
                0 <= j < i ==> rest.below(#[trigger] front[j]);
        if values.last().below(rest) {
            let last = values.len() - 1;
            assert forall|j: int| 0 <= j < values.len() implies !(#[trigger] values[j]).below(
                values.last(),
            ) by {
                if j < last {
                    assert(values[j] == front[j]);
                    lemma_order_transitive(values.last(), rest, values[j]);
                }
            }
            assert forall|j: int| 0 <= j < last implies values.last().below(
                #[trigger] values[j],
            ) by {
                assert(values[j] == front[j]);
                if !values.last().below(values[j]) {
                    lemma_order_transitive(rest, values[j], values.last());
                }
            }
            assert(lowest(values) == values[last]);
        } else {
            assert forall|j: int| 0 <= j < values.len() implies !(#[trigger] values[j]).below(
                rest,
            ) by {
                if j < front.len() {
                    assert(values[j] == front[j]);
                }
            }
            assert(lowest(values) == values[i]);
            assert forall|j: int| 0 <= j < i implies rest.below(#[trigger] values[j]) by {
                assert(values[j] == front[j]);
            }
        }
    }
}

/// The highest value is one of the values, it is below none, and it is the
/// last such value.
pub proof fn lemma_highest(values: Seq<Decimal>)
    requires
        values.len() > 0,
    ensures
        forall|j: int| 0 <= j < values.len() ==> !highest(values).below(#[trigger] values[j]),
        exists|i: int|
            0 <= i < values.len() && highest(values) == #[trigger] values[i] && forall|j: int|
                i < j < values.len() ==> (#[trigger] values[j]).below(highest(values)),
    decreases values.len(),
{
    if values.len() <= 1 {
        assert(highest(values) == values[0]);
    } else {
        let front = values.drop_last();
        lemma_highest(front);
        let rest = highest(front);
        let i = choose|i: int|
            0 <= i < front.len() && rest == #[trigger] front[i] && forall|j: int|
                i < j < front.len() ==> (#[trigger] front[j]).below(rest);
        let last = values.len() - 1;
        if values.last().below(rest) {
            assert forall|j: int| 0 <= j < values.len() implies !rest.below(
                #[trigger] values[j],
            ) by {
                if j < last {
                    assert(values[j] == front[j]);
                }
            }
            assert(highest(values) == values[i]);
            assert forall|j: int| i < j < values.len() implies (#[trigger] values[j]).below(
                rest,
            ) by {
                if j < last {
                    assert(values[j] == front[j]);
                }
            }
        } else {
            assert forall|j: int| 0 <= j < values.len() implies !values.last().below(
                #[trigger] values[j],
            ) by {
                if j < last {
                    assert(values[j] == front[j]);
                    lemma_order_transitive(values[j], rest, values.last());
                }
            }
            assert(highest(values) == values[last]);
        }
    }
}

/// The bounding box holds every stroke, and on each axis its upper side is
/// not below its lower side.
pub proof fn lemma_bounds_enclose(strokes: Seq<Stroke>)
    requires
        strokes.len() > 0,
    ensures
        forall|i: int|
            0 <= i < strokes.len() ==> {
                &&& !(#[trigger] strokes[i]).position.x.below(bounds_of(strokes).low.x)
                &&& !bounds_of(strokes).high.x.below(strokes[i].position.x)
                &&& !strokes[i].position.y.below(bounds_of(strokes).low.y)
                &&& !bounds_of(strokes).high.y.below(strokes[i].position.y)
            },
        !bounds_of(strokes).high.x.below(bounds_of(strokes).low.x),
        !bounds_of(strokes).high.y.below(bounds_of(strokes).low.y),
{
    let b = bounds_of(strokes);
    lemma_lowest(xs(strokes));
    lemma_highest(xs(strokes));
    lemma_lowest(ys(strokes));
    lemma_highest(ys(strokes));
    assert forall|i: int| 0 <= i < strokes.len() implies {
        &&& !(#[trigger] strokes[i]).position.x.below(b.low.x)
        &&& !b.high.x.below(strokes[i].position.x)
        &&& !strokes[i].position.y.below(b.low.y)
        &&& !b.high.y.below(strokes[i].position.y)
    } by {
        assert(xs(strokes)[i] == strokes[i].position.x);
        assert(ys(strokes)[i] == strokes[i].position.y);
    }
    assert(xs(strokes)[0] == strokes[0].position.x);
    assert(ys(strokes)[0] == strokes[0].position.y);
    lemma_order_transitive(b.low.x, strokes[0].position.x, b.high.x);
    lemma_order_transitive(b.low.y, strokes[0].position.y, b.high.y);
}

/// A coordinate that was placed lies in the unit interval and has at most
/// seven decimal places.
pub proof fn lemma_placed_in_unit_interval(v: Decimal, axis: Axis)
    requires
        placed(v, axis) is Ok,
    ensures
        placed(v, axis)->Ok_0.in_unit_interval(),
        placed(v, axis)->Ok_0.scale() <= PLACES,
{
    lemma_rounded_scale(fitted(unit_position(v, axis)->Some_0, axis)->Some_0, PLACES);
}

/// After normalisation every coordinate of every stroke lies in the closed
/// interval from 0 to 1; the strokes are as many as before, and each is a
/// move or a line as before.
pub proof fn lemma_normalized_in_unit_square(
    strokes: Seq<Stroke>,
    width: Decimal,
    height: Decimal,
)
    requires
        normalization(strokes, width, height) is Ok,
    ensures
        in_unit_square(normalization(strokes, width, height)->Ok_0),
        in_precision(normalization(strokes, width, height)->Ok_0),
        normalization(strokes, width, height)->Ok_0.len() == strokes.len(),
        forall|i: int|
            0 <= i < strokes.len() ==> (#[trigger] normalization(
                strokes,
                width,
                height,
            )->Ok_0[i]).is_move == strokes[i].is_move,
{
    let horizontal = axis_x(strokes, width, height);
    let vertical = axis_y(strokes, width, height);
    let out = normalization(strokes, width, height)->Ok_0;
    assert forall|i: int| 0 <= i < out.len() implies (#[trigger] out[i]).position.x.in_unit_interval()
        && out[i].position.y.in_unit_interval() && out[i].position.x.scale() <= PLACES
        && out[i].position.y.scale() <= PLACES && out[i].is_move == strokes[i].is_move by {
        assert(placed_stroke(strokes[i], horizontal, vertical) is Ok);
        lemma_placed_in_unit_interval(strokes[i].position.x, horizontal);
        lemma_placed_in_unit_interval(strokes[i].position.y, vertical);
    }
}

/// The bounding box of the strokes; `None` where there is no stroke.
pub fn bounding_box(strokes: &Vec<Stroke>) -> (r: Option<Bounds>)
    ensures
        r is Some <==> strokes@.len() > 0,
        r is Some ==> r == Some(bounds_of(strokes@)),
        r matches Some(b) ==> !b.high.x.below(b.low.x) && !b.high.y.below(b.low.y),
        r matches Some(b) ==> forall|i: int|
            0 <= i < strokes@.len() ==> {
                &&& !(#[trigger] strokes@[i]).position.x.below(b.low.x)
                &&& !b.high.x.below(strokes@[i].position.x)
                &&& !strokes@[i].position.y.below(b.low.y)
                &&& !b.high.y.below(strokes@[i].position.y)
            },
{
    if strokes.len() == 0 {
        return None;
    }
    proof {
        lemma_bounds_enclose(strokes@);
    }
    let first = strokes[0].position;
    let mut low = first;
    let mut high = first;
    let mut i: usize = 1;
    proof {
        assert(xs(strokes@.take(1)).len() == 1);
        assert(ys(strokes@.take(1)).len() == 1);
    }
    while i < strokes.len()
        invariant
            1 <= i <= strokes.len(),
            low.x == lowest(xs(strokes@.take(i as int))),
            low.y == lowest(ys(strokes@.take(i as int))),
            high.x == highest(xs(strokes@.take(i as int))),
            high.y == highest(ys(strokes@.take(i as int))),
        decreases strokes.len() - i,
    {
        let p = strokes[i].position;
        proof {
            let done = strokes@.take(i + 1);
            assert(done.drop_last() == strokes@.take(i as int));
            assert(xs(done).drop_last() == xs(strokes@.take(i as int)));
            assert(ys(done).drop_last() == ys(strokes@.take(i as int)));
            assert(xs(done).last() == p.x);
            assert(ys(done).last() == p.y);
        }
        if p.x.lt(low.x) {
            low = Point { x: p.x, y: low.y };
        }
        if p.y.lt(low.y) {
            low = Point { x: low.x, y: p.y };
        }
        if !p.x.lt(high.x) {
            high = Point { x: p.x, y: high.y };
        }
        if !p.y.lt(high.y) {
            high = Point { x: high.x, y: p.y };
        }
        i = i + 1;
    }
    assert(strokes@.take(strokes@.len() as int) == strokes@);
    Some(Bounds { low, high })
}

/// Computes what an axis needs for every coordinate.
fn prepare(axis: Axis) -> (p: Prepared)
    ensures
        p.axis == axis,
        p.consistent(),
{
    let ratio = axis.shorter.checked_div(axis.length);
    let margin = match ratio {
        Some(r) => match Decimal::one().checked_sub(r) {
            Some(rest) => rest.checked_div(Decimal::two()),
            None => None,
        },
        None => None,
    };
    Prepared { axis, span: axis.high.checked_sub(axis.low), ratio, margin }
}

/// The normalised coordinate of `v`.
fn place(v: Decimal, p: &Prepared) -> (r: Result<Decimal, RenderError>)
    requires
        p.consistent(),
    ensures
        r == placed(v, p.axis),
{
    let unit = if p.axis.low.lt(p.axis.high) {
        match (p.span, v.checked_sub(p.axis.low)) {
            (Some(s), Some(d)) => d.checked_div(s),
            _ => None,
        }
    } else {
        Some(Decimal::half())
    };
    let fit = match unit {
        Some(u) => if p.axis.shorter.lt(p.axis.length) {
            match (p.ratio, p.margin) {
                (Some(r), Some(m)) => match u.checked_mul(r) {
                    Some(t) => t.checked_add(m),
                    None => None,
                },
                _ => None,
            }
        } else {
            Some(u)
        },
        None => None,
    };
    settle(fit)
}

/// Settles a computed coordinate: rounds it to seven places and refuses it
/// where it then lies outside the unit interval, or where there is none.
///
/// The coordinate comes from decimal arithmetic that is not verified here;
/// that the coordinates of a normalised drawing lie in the unit square rests
/// on this test alone.
pub fn settle(computed: Option<Decimal>) -> (r: Result<Decimal, RenderError>)
    ensures
        r == settled(computed),
        r matches Ok(d) ==> d.in_unit_interval() && d.scale() <= PLACES,
{
    match computed {
        Some(f) => {
            let rounded = f.round_dp(PLACES);
            proof {
                lemma_rounded_scale(f, PLACES);
            }
            if rounded.is_in_unit_interval() {
                Ok(rounded)
            } else {
                Err(RenderError::NumericRange)
            }
        },
        None => Err(RenderError::NumericRange),
    }
}

/// Maps a drawing into the unit square of a canvas of the given sides, each
/// coordinate rounded to seven decimal places.
///
/// Fails with `EmptyDrawing` where there is no stroke, and with
/// `NumericRange` where a coordinate cannot be computed or comes out of the
/// unit interval.
pub fn normalize(strokes: &Vec<Stroke>, width: Decimal, height: Decimal) -> (r: Result<
    Vec<Stroke>,
    RenderError,
>)
    ensures
        match r {
            Ok(out) => normalization(strokes@, width, height) == Ok::<Seq<Stroke>, RenderError>(
                out@,
            ),
            Err(e) => normalization(strokes@, width, height) == Err::<Seq<Stroke>, RenderError>(e),
        },
        r matches Ok(out) ==> in_unit_square(out@) && in_precision(out@) && out@.len()
            == strokes@.len(),
{
    let bounds = match bounding_box(strokes) {
        Some(bounds) => bounds,
        None => { return Err(RenderError::EmptyDrawing); },
    };
    let shorter = width.min(height);
    let horizontal = prepare(
        Axis { low: bounds.low.x, high: bounds.high.x, length: width, shorter },
    );
    let vertical = prepare(
        Axis { low: bounds.low.y, high: bounds.high.y, length: height, shorter },
    );
    let mut out: Vec<Stroke> = Vec::new();
    let mut i: usize = 0;
    while i < strokes.len()
        invariant
            i <= strokes.len(),
            horizontal.consistent(),
            vertical.consistent(),
            horizontal.axis == axis_x(strokes@, width, height),
            vertical.axis == axis_y(strokes@, width, height),
            out@.len() == i,
            forall|j: int|
                0 <= j < i ==> placed_stroke(
                    #[trigger] strokes@[j],
                    horizontal.axis,
                    vertical.axis,
                ) == Ok::<Stroke, RenderError>(out@[j]),
        decreases strokes.len() - i,
    {
        let s = strokes[i];
        let x = match place(s.position.x, &horizontal) {
            Ok(x) => x,
            Err(_) => {
                assert(!(placed_stroke(strokes@[i as int], horizontal.axis, vertical.axis) is Ok));
                return Err(RenderError::NumericRange);
            },
        };
        let y = match place(s.position.y, &vertical) {
            Ok(y) => y,
            Err(_) => {
                assert(!(placed_stroke(strokes@[i as int], horizontal.axis, vertical.axis) is Ok));
                return Err(RenderError::NumericRange);
            },
        };
        out.push(Stroke { position: Point { x, y }, is_move: s.is_move });
        i = i + 1;
    }
    proof {
        let expected = strokes@.map_values(
            |s: Stroke| placed_stroke(s, horizontal.axis, vertical.axis)->Ok_0,
        );
        assert(out@ =~= expected);
        lemma_normalized_in_unit_square(strokes@, width, height);
    }
    Ok(out)
}

} // verus!
