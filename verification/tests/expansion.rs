use lsys::grammar::expand;
use lsys::grammar::reserved;
use lsys::grammar::rewrite;
use lsys::Decimal;
use lsys::LSystem;
use lsys::RuleSet;
use lsys::SymbolSet;

fn rules_of(pairs: &[(char, &str)]) -> RuleSet {
    let mut rules = RuleSet::new();
    for (symbol, replacement) in pairs {
        rules.insert(*symbol, replacement.to_string());
    }
    rules
}

fn koch_system(iterations: usize) -> LSystem {
    LSystem {
        initiator: "F".to_string(),
        variables_to_draw: SymbolSet::from_symbols("F"),
        angle: Decimal::half_pi(),
        iterations,
        rules: rules_of(&[('F', "F+F-F-F+F")]),
    }
}

#[test]
fn zero_iterations_return_the_initial_string() {
    assert_eq!(koch_system(0).calculate_final_state(), "F");
    assert_eq!(expand("A[B]-C", &rules_of(&[('A', "AA")]), 0), "A[B]-C");
    assert_eq!(expand("", &rules_of(&[('A', "AA")]), 0), "");
}

#[test]
fn one_iteration_applies_each_rule_once() {
    assert_eq!(koch_system(1).calculate_final_state(), "F+F-F-F+F");
}

#[test]
fn two_iterations_rewrite_the_rewritten_string() {
    assert_eq!(
        koch_system(2).calculate_final_state(),
        "F+F-F-F+F+F+F-F-F+F-F+F-F-F+F-F+F-F-F+F+F+F-F-F+F"
    );
}

#[test]
fn koch_has_five_to_the_fourth_segments() {
    let state = koch_system(4).calculate_final_state();
    assert_eq!(state.chars().filter(|c| *c == 'F').count(), 625);
    assert_eq!(state.chars().count(), 1249);
}

#[test]
fn symbols_are_replaced_at_once_not_one_after_the_other() {
    let rules = rules_of(&[('A', "AB"), ('B', "A")]);
    assert_eq!(rewrite("AB", &rules), "ABA");
    assert_eq!(expand("A", &rules, 1), "AB");
    assert_eq!(expand("A", &rules, 2), "ABA");
    assert_eq!(expand("A", &rules, 3), "ABAAB");
    assert_eq!(expand("A", &rules, 4), "ABAABABA");
}

#[test]
fn a_symbol_without_a_rule_stays() {
    let rules = rules_of(&[('X', "X+YF+")]);
    assert_eq!(rewrite("FXY", &rules), "FX+YF+Y");
    assert_eq!(expand("FX", &rules, 2), "FX+YF++YF+");
}

#[test]
fn reserved_symbols_are_never_rewritten() {
    let rules = rules_of(&[('+', "F"), ('-', "F"), ('|', "F"), ('[', "F"), (']', "F"), ('F', "G")]);
    assert_eq!(rewrite("+-|[]F", &rules), "+-|[]G");
    for c in ['+', '-', '|', '[', ']'] {
        assert!(reserved(c));
    }
    for c in ['F', 'X', '=', '>', ' ', '(', ')'] {
        assert!(!reserved(c));
    }
}

#[test]
fn a_rule_may_erase_its_symbol() {
    let rules = rules_of(&[('X', ""), ('F', "FX")]);
    assert_eq!(expand("FXF", &rules, 1), "FXFX");
    assert_eq!(expand("X", &rules, 3), "");
}

#[test]
fn expansion_is_repeatable() {
    let first = koch_system(3).calculate_final_state();
    let second = koch_system(3).calculate_final_state();
    assert_eq!(first, second);
    let system = koch_system(3);
    assert_eq!(system.calculate_final_state(), system.calculate_final_state());
}

#[test]
fn symbols_beyond_ascii_are_symbols_like_any_other() {
    let rules = rules_of(&[('é', "éß"), ('ß', "→")]);
    assert_eq!(expand("é", &rules, 2), "éß→");
}

#[test]
fn a_later_rule_for_a_symbol_replaces_the_earlier() {
    let mut rules = RuleSet::new();
    rules.insert('F', "A".to_string());
    rules.insert('F', "B".to_string());
    assert_eq!(rules.len(), 1);
    assert_eq!(rules.get('F').map(|s| s.as_str()), Some("B"));
    assert!(rules.contains('F'));
    assert!(!rules.contains('G'));
    assert_eq!(rules.get('G'), None);
    assert_eq!(rewrite("F", &rules), "B");
}

#[test]
fn rule_sets_know_which_symbols_they_mention() {
    let rules = rules_of(&[('X', "F-[[X]+X]"), ('F', "FF")]);
    assert_eq!(rules.len(), 2);
    for c in ['X', 'F', '-', '[', ']', '+'] {
        assert!(rules.mentions(c));
    }
    assert!(!rules.mentions('Y'));
    assert!(!RuleSet::new().mentions('X'));
}

#[test]
fn symbol_sets_hold_what_was_put_in() {
    let mut set = SymbolSet::new();
    assert!(!set.contains('F'));
    set.insert('F');
    set.insert('F');
    assert!(set.contains('F'));
    assert!(!set.contains('G'));
    let set = SymbolSet::from_symbols("AB");
    assert!(set.contains('A'));
    assert!(set.contains('B'));
    assert!(!set.contains('C'));
    assert!(!SymbolSet::from_symbols("").contains('A'));
}
