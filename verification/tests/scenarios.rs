use lsys::Decimal;
use lsys::LSystem;
use lsys::LengthUnit;
use lsys::RuleSet;
use lsys::SvgOptions;
use lsys::SymbolSet;

fn from_outside(d: rust_decimal::Decimal) -> Decimal {
    Decimal::new(d.mantissa(), d.scale()).unwrap()
}

fn number(n: u32) -> rust_decimal::Decimal {
    rust_decimal::Decimal::from(n)
}

const EXPECTED_HEAD: &str = "<?xml version=\"1.0\" encoding=\"UTF-8\"?>\n\
<svg xmlns=\"http://www.w3.org/2000/svg\" xmlns:xlink=\"http://www.w3.org/1999/xlink\" \
width=\"100mm\" height=\"100mm\" viewBox=\"0 0 100 100\">\n\
<path fill=\"none\" stroke-width=\"0.01\" stroke-linecap=\"butt\" stroke-linejoin=\"miter\" \
stroke=\"rgb(0%, 0%, 0%)\" stroke-opacity=\"1\" stroke-miterlimit=\"10\" d=\"";

const EXPECTED_TAIL: &str = "\" transform=\"matrix(100, 0, 0, 100, 0, 0)\"/>\n</svg>\n";

struct Drawing {
    state: String,
    moves: usize,
    lines: usize,
}

fn coordinate(text: &str) -> rust_decimal::Decimal {
    let d = text.parse::<rust_decimal::Decimal>().unwrap();
    assert!(d >= rust_decimal::Decimal::ZERO);
    assert!(d <= rust_decimal::Decimal::ONE);
    assert!(d.scale() <= 7);
    assert_eq!(d.to_string(), text);
    d
}

fn harness(
    initiator: &str,
    variables_to_draw: &[char],
    rules: &[&str],
    angle: rust_decimal::Decimal,
    iterations: usize,
) -> Drawing {
    let mut set = RuleSet::new();
    for rule in rules {
        let (c, r) = rule.split_once("=>").unwrap();
        set.insert(c.chars().next().unwrap(), r.to_string());
    }
    let mut drawn = SymbolSet::new();
    for c in variables_to_draw {
        drawn.insert(*c);
    }
    let system = LSystem {
        initiator: initiator.to_string(),
        variables_to_draw: drawn,
        angle: from_outside(angle),
        iterations,
        rules: set,
    };
    let options = SvgOptions {
        width: from_outside(rust_decimal::Decimal::ONE_HUNDRED),
        height: from_outside(rust_decimal::Decimal::ONE_HUNDRED),
        units: LengthUnit::Mm,
    };
    let actual = system.to_svg(&options).unwrap();
    assert!(actual.starts_with(EXPECTED_HEAD));
    assert!(actual.ends_with(EXPECTED_TAIL));
    assert!(actual.contains("width=\"100mm\" height=\"100mm\" viewBox=\"0 0 100 100\""));
    let data = &actual[EXPECTED_HEAD.len()..actual.len() - EXPECTED_TAIL.len()];
    assert!(data.starts_with("M "));
    let tokens: Vec<&str> = data.split(' ').collect();
    assert_eq!(tokens.len() % 3, 0);
    let mut moves = 0;
    let mut lines = 0;
    let mut xs = Vec::new();
    let mut ys = Vec::new();
    for command in tokens.chunks(3) {
        match command[0] {
            "M" => moves += 1,
            "L" => lines += 1,
            other => panic!("unexpected path command {other}"),
        }
        xs.push(coordinate(command[1]));
        ys.push(coordinate(command[2]));
    }
    for axis in [&xs, &ys] {
        assert_eq!(axis.iter().min(), Some(&rust_decimal::Decimal::ZERO));
        assert_eq!(axis.iter().max(), Some(&rust_decimal::Decimal::ONE));
    }
    let state = system.calculate_final_state();
    let drawn_symbols = state.chars().filter(|c| variables_to_draw.contains(c)).count();
    let restores = state.chars().filter(|c| *c == ']').count();
    assert_eq!(moves + lines, drawn_symbols + restores);
    assert_eq!(moves, 1 + restores);
    assert_eq!(actual, system.to_svg(&options).unwrap());
    Drawing { state, moves, lines }
}

#[test]
fn koch() {
    let drawing =
        harness("F", &['F'], &["F=>F+F-F-F+F"], rust_decimal::Decimal::HALF_PI, 4);
    assert_eq!(drawing.state.chars().filter(|c| *c == 'F').count(), 625);
    assert_eq!(drawing.moves, 1);
    assert_eq!(drawing.lines, 624);
}

#[test]
fn sierpinski() {
    let drawing = harness(
        "F-G-G",
        &['F', 'G'],
        &["F=>F-G+F+G-F", "G=>GG"],
        rust_decimal::Decimal::TWO_PI / number(3),
        6,
    );
    assert_eq!(drawing.moves, 1);
    assert_eq!(drawing.lines, 3 * 729 - 1);
}

#[test]
fn arrowhead() {
    let drawing = harness(
        "A",
        &['A', 'B'],
        &["A=>B-A-B", "B=>A+B+A"],
        rust_decimal::Decimal::PI / number(3),
        7,
    );
    assert_eq!(drawing.moves, 1);
    assert_eq!(drawing.lines, 2187 - 1);
}

#[test]
fn dragon() {
    let drawing = harness(
        "FX",
        &['F'],
        &["X=>X+YF+", "Y=>-FX-Y", "F=>F"],
        rust_decimal::Decimal::HALF_PI,
        12,
    );
    assert_eq!(drawing.moves, 1);
    assert_eq!(drawing.lines, 4096 - 1);
}

#[test]
fn plant() {
    let drawing = harness(
        "X",
        &['F'],
        &["X=>F-[[X]+X]+F[+FX]-X", "F=>FF"],
        rust_decimal::Decimal::PI * number(25) / number(180),
        5,
    );
    let saves = drawing.state.chars().filter(|c| *c == '[').count();
    let restores = drawing.state.chars().filter(|c| *c == ']').count();
    assert_eq!(saves, restores);
    assert_eq!(restores, 1023);
    assert_eq!(drawing.lines, 1488 - 1);
    assert_eq!(drawing.moves, 1 + restores);
    assert!(drawing.moves > 1);
}

#[test]
fn moore() {
    let drawing = harness(
        "LFL+F+LFL",
        &['F'],
        &["L=>-RF+LFL+FR-", "R=>+LF-RFR-FL+", "F=>F"],
        rust_decimal::Decimal::HALF_PI,
        5,
    );
    assert_eq!(drawing.moves, 1);
    assert_eq!(drawing.lines, 4096 - 1 - 1);
}

#[test]
fn hilbert() {
    let drawing = harness(
        "A",
        &['F'],
        &["A=>-BF+AFA+FB-", "B=>+AF-BFB-FA+", "F=>F"],
        rust_decimal::Decimal::HALF_PI,
        6,
    );
    assert_eq!(drawing.moves, 1);
    assert_eq!(drawing.lines, 4096 - 1 - 1);
}

#[test]
fn sierpinski_carpet() {
    let drawing = harness(
        "F+F+F+F",
        &['F'],
        &["F=>FF+F+F+F+FF"],
        rust_decimal::Decimal::HALF_PI,
        4,
    );
    assert_eq!(drawing.moves, 1);
    assert_eq!(drawing.state.chars().count(), 16007);
    assert_eq!(drawing.lines, 9604 - 1);
}

#[test]
fn snowflake() {
    let drawing = harness(
        "F++F++F",
        &['F'],
        &["F=>F-F++F-F"],
        rust_decimal::Decimal::PI / number(3),
        4,
    );
    assert_eq!(drawing.moves, 1);
    assert_eq!(drawing.lines, 3 * 256 - 1);
}

#[test]
fn gosper() {
    let drawing = harness(
        "XF",
        &['F'],
        &["X=>X+YF++YF-FX--FXFX-YF+", "Y=>-FX+YFYF++YF+FX--FX-Y", "F=>F"],
        rust_decimal::Decimal::PI / number(3),
        5,
    );
    assert_eq!(drawing.moves, 1);
    assert_eq!(drawing.state.chars().count(), 56022);
    assert_eq!(drawing.lines, 16807 - 1);
}

#[test]
fn kolam() {
    let drawing = harness(
        "-D--D",
        &['F'],
        &[
            "A=>F++FFFF--F--FFFF++F++FFFF--F",
            "B=>F--FFFF++F++FFFF--F--FFFF++F",
            "C=>BFA--BFA",
            "D=>CFC--CFC",
            "F=>F",
        ],
        rust_decimal::Decimal::QUARTER_PI,
        7,
    );
    assert_eq!(drawing.moves, 1);
    assert_eq!(drawing.state.chars().count(), 939);
    assert_eq!(drawing.lines, 532 - 1);
}

#[test]
fn crystal() {
    let drawing = harness(
        "F+F+F+F",
        &['F'],
        &["F=>FF+F++F+F"],
        rust_decimal::Decimal::HALF_PI,
        4,
    );
    assert_eq!(drawing.moves, 1);
    assert_eq!(drawing.lines, 4 * 625 - 1);
}

fn from_float(angle: f64) -> rust_decimal::Decimal {
    rust_decimal::Decimal::try_from(angle).unwrap()
}

#[test]
fn main_koch() {
    let drawing =
        harness("F", &['F'], &["F=>F+F-F-F+F"], from_float(std::f64::consts::PI / 2.), 4);
    assert_eq!(drawing.moves, 1);
    assert_eq!(drawing.lines, 625 - 1);
}

#[test]
fn main_sierpinski() {
    let drawing = harness(
        "F-G-G",
        &['F', 'G'],
        &["F=>F-G+F+G-F", "G=>GG"],
        from_float(std::f64::consts::PI * 2. / 3.),
        6,
    );
    assert_eq!(drawing.moves, 1);
    assert_eq!(drawing.lines, 2187 - 1);
}

#[test]
fn main_arrowhead() {
    let drawing = harness(
        "A",
        &['A', 'B'],
        &["A=>B-A-B", "B=>A+B+A"],
        from_float(std::f64::consts::PI * 1. / 3.),
        7,
    );
    assert_eq!(drawing.moves, 1);
    assert_eq!(drawing.lines, 2187 - 1);
}

#[test]
fn main_dragon() {
    let drawing = harness(
        "FX",
        &['F'],
        &["X=>X+YF+", "Y=>-FX-Y", "F=>F"],
        from_float(std::f64::consts::PI / 2.),
        12,
    );
    assert_eq!(drawing.moves, 1);
    assert_eq!(drawing.lines, 4096 - 1);
}

#[test]
fn main_plant() {
    let drawing = harness(
        "X",
        &['F'],
        &["X=>F-[[X]+X]+F[+FX]-X", "F=>FF"],
        from_float(std::f64::consts::PI * 25.0 / 180.0),
        5,
    );
    assert_eq!(drawing.moves, 1 + 1023);
    assert_eq!(drawing.lines, 1488 - 1);
}

#[test]
fn main_moore() {
    let drawing = harness(
        "LFL+F+LFL",
        &['F'],
        &["L=>-RF+LFL+FR-", "R=>+LF-RFR-FL+", "F=>F"],
        from_float(std::f64::consts::PI * 90.0 / 180.0),
        5,
    );
    assert_eq!(drawing.moves, 1);
    assert_eq!(drawing.lines, 4095 - 1);
}

#[test]
fn main_hilbert() {
    let drawing = harness(
        "A",
        &['F'],
        &["A=>-BF+AFA+FB-", "B=>+AF-BFB-FA+", "F=>F"],
        from_float(std::f64::consts::PI / 2.0),
        6,
    );
    assert_eq!(drawing.moves, 1);
    assert_eq!(drawing.lines, 4095 - 1);
}

#[test]
fn main_sierpinski_carpet() {
    let drawing = harness(
        "F+F+F+F",
        &['F'],
        &["F=>FF+F+F+F+FF"],
        from_float(std::f64::consts::PI / 2.),
        4,
    );
    assert_eq!(drawing.moves, 1);
    assert_eq!(drawing.lines, 9604 - 1);
}

#[test]
fn main_snowflake() {
    let drawing = harness(
        "F++F++F",
        &['F'],
        &["F=>F-F++F-F"],
        from_float(std::f64::consts::PI / 3.),
        4,
    );
    assert_eq!(drawing.moves, 1);
    assert_eq!(drawing.lines, 768 - 1);
}

#[test]
fn main_gosper() {
    let drawing = harness(
        "XF",
        &['F'],
        &["X=>X+YF++YF-FX--FXFX-YF+", "Y=>-FX+YFYF++YF+FX--FX-Y", "F=>F"],
        from_float(std::f64::consts::PI / 3.),
        5,
    );
    assert_eq!(drawing.moves, 1);
    assert_eq!(drawing.lines, 16807 - 1);
}

#[test]
fn main_kolam() {
    let drawing = harness(
        "-D--D",
        &['F'],
        &[
            "A=>F++FFFF--F--FFFF++F++FFFF--F",
            "B=>F--FFFF++F++FFFF--F--FFFF++F",
            "C=>BFA--BFA",
            "D=>CFC--CFC",
            "F=>F",
        ],
        from_float(std::f64::consts::PI / 4.0),
        7,
    );
    assert_eq!(drawing.moves, 1);
    assert_eq!(drawing.lines, 532 - 1);
}

#[test]
fn main_crystal() {
    let drawing = harness(
        "F+F+F+F",
        &['F'],
        &["F=>FF+F++F+F"],
        from_float(std::f64::consts::PI / 2.),
        4,
    );
    assert_eq!(drawing.moves, 1);
    assert_eq!(drawing.lines, 2500 - 1);
}
