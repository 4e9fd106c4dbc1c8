use lsys::embed::lsys_svg_to_color_scheme_aware_svg;
use lsys::embed::download_link;
use lsys::Decimal;
use lsys::LSystem;
use lsys::LengthUnit;
use lsys::RuleSet;
use lsys::SvgOptions;
use lsys::SymbolSet;

const STYLE: &str = "<style>\
        @media (prefers-color-scheme: light) { path { stroke: black; } }\
        @media (prefers-color-scheme: dark) { path { stroke: white; } }\
    </style>";

fn as_the_page_does(svg: &str) -> String {
    svg.lines().take(2).chain(std::iter::once(STYLE)).chain(svg.lines().skip(2)).collect()
}

#[test]
fn the_style_goes_behind_the_second_line() {
    assert_eq!(lsys_svg_to_color_scheme_aware_svg("a\nb\nc\nd\n"), format!("ab{STYLE}cd"));
    assert_eq!(lsys_svg_to_color_scheme_aware_svg("a\nb\nc\nd"), format!("ab{STYLE}cd"));
    assert_eq!(lsys_svg_to_color_scheme_aware_svg("a\nb\n"), format!("ab{STYLE}"));
    assert_eq!(lsys_svg_to_color_scheme_aware_svg("a\nb"), format!("ab{STYLE}"));
    assert_eq!(lsys_svg_to_color_scheme_aware_svg("\n\nc"), format!("{STYLE}c"));
}

#[test]
fn with_fewer_than_two_lines_the_style_comes_last() {
    assert_eq!(lsys_svg_to_color_scheme_aware_svg(""), STYLE);
    assert_eq!(lsys_svg_to_color_scheme_aware_svg("a"), format!("a{STYLE}"));
    assert_eq!(lsys_svg_to_color_scheme_aware_svg("a\n"), format!("a{STYLE}"));
    assert_eq!(lsys_svg_to_color_scheme_aware_svg("\n"), STYLE);
}

#[test]
fn line_ends_are_dropped_and_lone_carriage_returns_kept() {
    assert_eq!(lsys_svg_to_color_scheme_aware_svg("a\r\nb\r\nc\r\n"), format!("ab{STYLE}c"));
    assert_eq!(lsys_svg_to_color_scheme_aware_svg("a\rb\nc\nd"), format!("a\rbc{STYLE}d"));
    assert_eq!(lsys_svg_to_color_scheme_aware_svg("a\r\r\nb\r"), format!("a\rb\r{STYLE}"));
    assert_eq!(lsys_svg_to_color_scheme_aware_svg("\r\n\r\n\r"), format!("{STYLE}\r"));
}

#[test]
fn the_result_is_what_joining_the_lines_gives() {
    let cases = [
        "",
        "\n",
        "\r",
        "\r\n",
        "a",
        "a\n",
        "a\nb",
        "a\nb\n",
        "a\nb\nc",
        "a\n\nb\n\nc\n",
        "a\r\nb\r\nc",
        "a\r\r\nb\n\rc\r",
        "\n\n\n\n",
        "é\nß\n→\n",
    ];
    for svg in cases {
        assert_eq!(lsys_svg_to_color_scheme_aware_svg(svg), as_the_page_does(svg));
    }
}

#[test]
fn a_rendered_document_gets_the_style_behind_its_root_tag() {
    let mut rules = RuleSet::new();
    rules.insert('F', "F+F-F-F+F".to_string());
    let system = LSystem {
        initiator: "F".to_string(),
        variables_to_draw: SymbolSet::from_symbols("F"),
        angle: Decimal::half_pi(),
        iterations: 2,
        rules,
    };
    let options = SvgOptions {
        width: Decimal::new(500, 0).unwrap(),
        height: Decimal::new(500, 0).unwrap(),
        units: LengthUnit::Px,
    };
    let svg = system.to_svg(&options).unwrap();
    let page = lsys_svg_to_color_scheme_aware_svg(&svg);
    assert_eq!(page, as_the_page_does(&svg));
    assert!(page.contains(&format!("viewBox=\"0 0 500 500\">{STYLE}<path fill=\"none\"")));
    assert!(page.ends_with("/></svg>"));
    assert!(!page.contains('\n'));
}

#[test]
fn a_link_holds_the_document_in_base64_without_padding() {
    assert_eq!(download_link("<svg/>"), "data:image/svg+xml;base64,PHN2Zy8+");
    assert_eq!(download_link("a"), "data:image/svg+xml;base64,YQ");
    assert_eq!(download_link(""), "data:image/svg+xml;base64,");
    assert_eq!(
        download_link("<?xml version=\"1.0\"?>\n<svg>é</svg>\n"),
        "data:image/svg+xml;base64,PD94bWwgdmVyc2lvbj0iMS4wIj8+Cjxzdmc+w6k8L3N2Zz4K"
    );
}
