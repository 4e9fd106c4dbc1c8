//! The turtle: one pass over the expanded string that turns symbols into an
//! ordered sequence of stroke points, with a stack of saved states for
//! branches.

use crate::decimal::Decimal;
use crate::error::RenderError;
use crate::grammar::SymbolSet;
use vstd::prelude::*;

verus! {

/// A position in the plane; `x` grows to the right and `y` grows downwards.
#[derive(Clone, Copy, Debug, PartialEq, Eq)]
pub struct Point {
    pub x: Decimal,
    pub y: Decimal,
}

/// A point of the drawing. With `is_move` the point starts a new sub-path;
/// without it a line leads to the point from the one before.
#[derive(Clone, Copy, Debug, PartialEq, Eq)]
pub struct Stroke {
    pub position: Point,
    pub is_move: bool,
}

/// Where the turtle is and where it looks, as an angle in radians.
#[derive(Clone, Copy, Debug, PartialEq, Eq)]
pub struct Turtle {
    pub position: Point,
    pub heading: Decimal,
}

/// The state of a pass: the turtle, the states saved and not yet restored
/// (the last saved comes last), and the strokes made so far.
pub struct Pass {
    pub turtle: Turtle,
    pub stack: Seq<Turtle>,
    pub strokes: Seq<Stroke>,
}

/// The turtle before the first symbol: at the origin, looking up.
pub open spec fn initial_turtle() -> Turtle {
    Turtle {
        position: Point { x: Decimal::zero(), y: Decimal::zero() },
        heading: Decimal::half_pi().negated(),
    }
}

/// The pass before the first symbol.
pub open spec fn initial_pass() -> Pass {
    Pass { turtle: initial_turtle(), stack: Seq::empty(), strokes: Seq::empty() }
}

/// Whether `c` changes the heading.
pub open spec fn is_turn(c: char) -> bool {
    c == '+' || c == '-' || c == '|'
}

/// The heading after a turn symbol: `+` adds the angle, `-` takes it away,
/// and `|` reverses the heading. `None` where the arithmetic overflows.
pub open spec fn turned(heading: Decimal, c: char, angle: Decimal) -> Option<Decimal> {
    if c == '+' {
        heading.plus(angle)
    } else if c == '-' {
        heading.minus(angle)
    } else {
        Some(heading.negated())
    }
}

/// The position one unit further along the heading. `None` where the
/// arithmetic overflows.
pub open spec fn advanced(turtle: Turtle) -> Option<Point> {
    match (turtle.heading.cosine(), turtle.heading.sine()) {
        (Some(dx), Some(dy)) => match (turtle.position.x.plus(dx), turtle.position.y.plus(dy)) {
            (Some(x), Some(y)) => Some(Point { x, y }),
            _ => None,
        },
        _ => None,
    }
}

/// The pass after one more symbol.
///
/// A turn symbol changes the heading. `[` saves the turtle. `]` restores the
/// turtle saved last and makes a move stroke at its position; with nothing
/// saved it is an error. A symbol of `drawn` advances the turtle by one unit
/// and makes a line stroke at the new position. Any other symbol does
/// nothing.
pub open spec fn step(pass: Pass, c: char, drawn: Set<char>, angle: Decimal) -> Result<
    Pass,
    RenderError,
> {
    if is_turn(c) {
        match turned(pass.turtle.heading, c, angle) {
            Some(heading) => Ok(
                Pass { turtle: Turtle { position: pass.turtle.position, heading }, ..pass },
            ),
            None => Err(RenderError::NumericRange),
        }
    } else if c == '[' {
        Ok(Pass { stack: pass.stack.push(pass.turtle), ..pass })
    } else if c == ']' {
        if pass.stack.len() == 0 {
            Err(RenderError::UnbalancedBrackets)
        } else {
            Ok(
                Pass {
                    turtle: pass.stack.last(),
                    stack: pass.stack.drop_last(),
                    strokes: pass.strokes.push(
                        Stroke { position: pass.stack.last().position, is_move: true },
                    ),
                },
            )
        }
    } else if drawn.contains(c) {
        match advanced(pass.turtle) {
            Some(position) => Ok(
                Pass {
                    turtle: Turtle { position, heading: pass.turtle.heading },
                    stack: pass.stack,
                    strokes: pass.strokes.push(Stroke { position, is_move: false }),
                },
            ),
            None => Err(RenderError::NumericRange),
        }
    } else {
        Ok(pass)
    }
}

/// The pass after all of `symbols`, from left to right; the first error ends
/// it.
pub open spec fn run(symbols: Seq<char>, drawn: Set<char>, angle: Decimal) -> Result<
    Pass,
    RenderError,
>
    decreases symbols.len(),
{
    if symbols.len() == 0 {
        Ok(initial_pass())
    } else {
        match run(symbols.drop_last(), drawn, angle) {
            Ok(pass) => step(pass, symbols.last(), drawn, angle),
            Err(e) => Err(e),
        }
    }
}

/// The strokes that `symbols` give.
pub open spec fn interpretation(symbols: Seq<char>, drawn: Set<char>, angle: Decimal) -> Result<
    Seq<Stroke>,
    RenderError,
> {
    match run(symbols, drawn, angle) {
        Ok(pass) => Ok(pass.strokes),
        Err(e) => Err(e),
    }
}

/// How many states are saved after `symbols`, were every `]` to find one:
/// the number of `[` less the number of `]`.
pub open spec fn depth(symbols: Seq<char>) -> int
    decreases symbols.len(),
{
    if symbols.len() == 0 {
        0
    } else {
        depth(symbols.drop_last()) + if symbols.last() == '[' {
            1int
        } else if symbols.last() == ']' {
            -1int
        } else {
            0int
        }
    }
}

/// How many of the symbols restore a saved state.
pub open spec fn restores(symbols: Seq<char>) -> nat
    decreases symbols.len(),
{
    if symbols.len() == 0 {
        0
    } else {
        restores(symbols.drop_last()) + if symbols.last() == ']' {
            1nat
        } else {
            0nat
        }
    }
}

/// Whether a symbol advances the turtle: it is to be drawn and has no other
/// meaning.
pub open spec fn advances(c: char, drawn: Set<char>) -> bool {
    !is_turn(c) && c != '[' && c != ']' && drawn.contains(c)
}

/// How many of the symbols advance the turtle.
pub open spec fn advance_count(symbols: Seq<char>, drawn: Set<char>) -> nat
    decreases symbols.len(),
{
    if symbols.len() == 0 {
        0
    } else {
        advance_count(symbols.drop_last(), drawn) + if advances(symbols.last(), drawn) {
            1nat
        } else {
            0nat
        }
    }
}

/// How many of the strokes start a new sub-path.
pub open spec fn move_count(strokes: Seq<Stroke>) -> nat
    decreases strokes.len(),
{
    if strokes.len() == 0 {
        0
    } else {
        move_count(strokes.drop_last()) + if strokes.last().is_move {
            1nat
        } else {
            0nat
        }
    }
}

/// An error stays: once a prefix of the symbols fails, the whole fails in
/// the same way.
pub proof fn lemma_error_stays(symbols: Seq<char>, drawn: Set<char>, angle: Decimal, k: int)
    requires
        0 <= k <= symbols.len(),
        run(symbols.take(k), drawn, angle) is Err,
    ensures
        run(symbols, drawn, angle) == run(symbols.take(k), drawn, angle),
    decreases symbols.len() - k,
{
    if k == symbols.len() {
        assert(symbols.take(k) == symbols);
    } else {
        assert(symbols.drop_last().take(k) == symbols.take(k));
        lemma_error_stays(symbols.drop_last(), drawn, angle, k);
    }
}

/// During a pass that succeeds the number of saved states is the bracket
/// depth, and the depth is never negative, after no prefix of the symbols.
pub proof fn lemma_depth_never_negative(symbols: Seq<char>, drawn: Set<char>, angle: Decimal)
    requires
        run(symbols, drawn, angle) is Ok,
    ensures
        run(symbols, drawn, angle)->Ok_0.stack.len() == depth(symbols),
        forall|k: int| 0 <= k <= symbols.len() ==> depth(#[trigger] symbols.take(k)) >= 0,
    decreases symbols.len(),
{
    if symbols.len() == 0 {
        assert forall|k: int| 0 <= k <= symbols.len() implies depth(#[trigger] symbols.take(k))
            >= 0 by {
            assert(symbols.take(k) == symbols);
        }
    } else {
        let front = symbols.drop_last();
        lemma_depth_never_negative(front, drawn, angle);
        assert forall|k: int| 0 <= k <= symbols.len() implies depth(#[trigger] symbols.take(k))
            >= 0 by {
            if k == symbols.len() {
                assert(symbols.take(k) == symbols);
            } else {
                assert(front.take(k) == symbols.take(k));
            }
        }
    }
}

/// A pass that succeeds makes one line stroke for every symbol that advances
/// the turtle and one move stroke for every `]`, and no other stroke: the
/// path breaks as often as a saved state is restored.
pub proof fn lemma_stroke_counts(symbols: Seq<char>, drawn: Set<char>, angle: Decimal)
    requires
        run(symbols, drawn, angle) is Ok,
    ensures
        run(symbols, drawn, angle)->Ok_0.strokes.len() == advance_count(symbols, drawn) + restores(
            symbols,
        ),
        move_count(run(symbols, drawn, angle)->Ok_0.strokes) == restores(symbols),
    decreases symbols.len(),
{
    if symbols.len() > 0 {
        let front = symbols.drop_last();
        lemma_stroke_counts(front, drawn, angle);
        let before = run(front, drawn, angle)->Ok_0;
        let after = run(symbols, drawn, angle)->Ok_0;
        let c = symbols.last();
        if c == ']' || advances(c, drawn) {
            assert(after.strokes.drop_last() == before.strokes);
        } else {
            assert(after.strokes == before.strokes);
        }
    }
}

/// An unmatched `]` is reported: where the depth is negative after some
/// prefix, the pass fails.
pub proof fn lemma_unmatched_pop_fails(
    symbols: Seq<char>,
    drawn: Set<char>,
    angle: Decimal,
    k: int,
)
    requires
        0 <= k <= symbols.len(),
        depth(symbols.take(k)) < 0,
    ensures
        run(symbols, drawn, angle) is Err,
{
    if run(symbols, drawn, angle) is Ok {
        lemma_depth_never_negative(symbols, drawn, angle);
    }
}

/// Unbalanced brackets are reported only where there are some: the pass
/// fails with that error exactly at a `]` that finds the depth at zero.
pub proof fn lemma_unbalanced_means_unmatched(symbols: Seq<char>, drawn: Set<char>, angle: Decimal)
    requires
        run(symbols, drawn, angle) == Err::<Pass, RenderError>(RenderError::UnbalancedBrackets),
    ensures
        exists|k: int| 0 <= k <= symbols.len() && depth(#[trigger] symbols.take(k)) < 0,
    decreases symbols.len(),
{
    if symbols.len() > 0 {
        let front = symbols.drop_last();
        if run(front, drawn, angle) is Ok {
            lemma_depth_never_negative(front, drawn, angle);
            assert(symbols.take(symbols.len() as int) == symbols);
            assert(depth(symbols.take(symbols.len() as int)) < 0);
        } else {
            lemma_unbalanced_means_unmatched(front, drawn, angle);
            let k = choose|k: int| 0 <= k <= front.len() && depth(#[trigger] front.take(k)) < 0;
            assert(front.take(k) == symbols.take(k));
        }
    }
}

/// The heading after the turn symbol `c`.
fn turn(heading: Decimal, c: char, angle: Decimal) -> (r: Option<Decimal>)
    requires
        is_turn(c),
    ensures
        r == turned(heading, c, angle),
{
    if c == '+' {
        heading.checked_add(angle)
    } else if c == '-' {
        heading.checked_sub(angle)
    } else {
        Some(heading.neg())
    }
}

/// The position one unit further along the heading.
fn advance(turtle: Turtle) -> (r: Option<Point>)
    ensures
        r == advanced(turtle),
{
    let dx = match turtle.heading.checked_cos() {
        Some(dx) => dx,
        None => { return None; },
    };
    let dy = match turtle.heading.checked_sin() {
        Some(dy) => dy,
        None => { return None; },
    };
    let x = match turtle.position.x.checked_add(dx) {
        Some(x) => x,
        None => { return None; },
    };
    let y = match turtle.position.y.checked_add(dy) {
        Some(y) => y,
        None => { return None; },
    };
    Some(Point { x, y })
}

/// Walks the turtle over `symbols` and returns the strokes it makes.
///
/// Fails with `UnbalancedBrackets` at a `]` that has no saved state to
/// restore, and with `NumericRange` where the decimal arithmetic overflows,
/// whichever comes first in the string. Where it succeeds, the number of
/// saved states was never negative, and the strokes are one line for every
/// symbol that advances the turtle and one move for every `]`.
pub fn interpret(symbols: &str, drawn: &SymbolSet, angle: Decimal) -> (r: Result<
    Vec<Stroke>,
    RenderError,
>)
    ensures
        match r {
            Ok(strokes) => interpretation(symbols@, drawn@, angle) == Ok::<
                Seq<Stroke>,
                RenderError,
            >(strokes@),
            Err(e) => interpretation(symbols@, drawn@, angle) == Err::<Seq<Stroke>, RenderError>(e),
        },
        r is Ok ==> forall|k: int| 0 <= k <= symbols@.len() ==> depth(#[trigger] symbols@.take(k)) >= 0,
        r matches Ok(strokes) ==> strokes@.len() == advance_count(symbols@, drawn@) + restores(
            symbols@,
        ) && move_count(strokes@) == restores(symbols@),
        r == Err::<Vec<Stroke>, RenderError>(RenderError::UnbalancedBrackets) ==> exists|k: int|
            0 <= k <= symbols@.len() && depth(#[trigger] symbols@.take(k)) < 0,
{
    proof {
        if run(symbols@, drawn@, angle) is Ok {
            lemma_depth_never_negative(symbols@, drawn@, angle);
            lemma_stroke_counts(symbols@, drawn@, angle);
        }
        if run(symbols@, drawn@, angle) == Err::<Pass, RenderError>(RenderError::UnbalancedBrackets) {
            lemma_unbalanced_means_unmatched(symbols@, drawn@, angle);
        }
    }
    let mut turtle = Turtle {
        position: Point { x: Decimal::zero(), y: Decimal::zero() },
        heading: Decimal::half_pi().neg(),
    };
    let mut stack: Vec<Turtle> = Vec::new();
    let mut strokes: Vec<Stroke> = Vec::new();
    for c in it: symbols.chars()
        invariant
            it.seq() == symbols@,
            run(symbols@.take(it.index() as int), drawn@, angle) == Ok::<Pass, RenderError>(
                Pass { turtle, stack: stack@, strokes: strokes@ },
            ),
            run(symbols@, drawn@, angle) is Ok ==> forall|k: int|
                0 <= k <= symbols@.len() ==> depth(#[trigger] symbols@.take(k)) >= 0,
            run(symbols@, drawn@, angle) is Ok ==> run(symbols@, drawn@, angle)->Ok_0.strokes.len()
                == advance_count(symbols@, drawn@) + restores(symbols@) && move_count(
                run(symbols@, drawn@, angle)->Ok_0.strokes,
            ) == restores(symbols@),
            run(symbols@, drawn@, angle) == Err::<Pass, RenderError>(
                RenderError::UnbalancedBrackets,
            ) ==> exists|k: int|
                0 <= k <= symbols@.len() && depth(#[trigger] symbols@.take(k)) < 0,
    {
        let ghost before = Pass { turtle, stack: stack@, strokes: strokes@ };
        proof {
            let done = symbols@.take(it.index() + 1);
            assert(done.drop_last() == symbols@.take(it.index() as int));
            assert(done.last() == c);
            assert(run(done, drawn@, angle) == step(before, c, drawn@, angle));
            if step(before, c, drawn@, angle) is Err {
                lemma_error_stays(symbols@, drawn@, angle, it.index() + 1);
            }
        }
        if c == '+' || c == '-' || c == '|' {
            match turn(turtle.heading, c, angle) {
                Some(heading) => {
                    turtle = Turtle { position: turtle.position, heading };
                },
                None => {
                    return Err(RenderError::NumericRange);
                },
            }
        } else if c == '[' {
            stack.push(turtle);
        } else if c == ']' {
            match stack.pop() {
                Some(saved) => {
                    turtle = saved;
                    strokes.push(Stroke { position: saved.position, is_move: true });
                },
                None => {
                    return Err(RenderError::UnbalancedBrackets);
                },
            }
        } else if drawn.contains(c) {
            match advance(turtle) {
                Some(position) => {
                    turtle = Turtle { position, heading: turtle.heading };
                    strokes.push(Stroke { position, is_move: false });
                },
                None => {
                    return Err(RenderError::NumericRange);
                },
            }
        }
    }
    assert(symbols@.take(symbols@.len() as int) == symbols@);
    Ok(strokes)
}

} // verus!
