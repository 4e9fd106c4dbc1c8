//! Rules as text, and the checks that a front end makes on what a user
//! typed before it builds an L-system from it.
//!
//! A rule is written `<symbol>=><replacement>`: one symbol, the arrow `=>`,
//! and the string that replaces the symbol.

use crate::grammar::is_reserved;
use crate::grammar::occurs_in;
use crate::grammar::occurs_in_rules;
use crate::grammar::reserved;
use crate::grammar::symbols_of;
use crate::grammar::RuleSet;
use vstd::prelude::*;

verus! {

/// What is wrong with the text of an L-system.
#[derive(Clone, Copy, Debug, PartialEq, Eq)]
pub enum InputError {
    /// A rule holds no arrow `=>`.
    MissingArrow,
    /// The arrow of a rule does not follow exactly one symbol.
    SymbolNotSingle,
    /// Nothing follows the arrow of a rule.
    EmptyReplacement,
    /// A symbol of the initial string that is not reserved has no rule.
    MissingRule,
    /// A symbol that is to be drawn occurs neither in the initial string nor
    /// in a rule.
    UnknownVariable(char),
}

/// Whether an arrow `=>` stands at index `i`.
pub open spec fn arrow_at(text: Seq<char>, i: int) -> bool {
    0 <= i && i + 1 < text.len() && text[i] == '=' && text[i + 1] == '>'
}

/// Whether the first arrow of the text stands at index `i`.
pub open spec fn first_arrow_at(text: Seq<char>, i: int) -> bool {
    arrow_at(text, i) && forall|j: int| 0 <= j < i ==> !arrow_at(text, j)
}

/// The rule that a text stands for: the text is split at its first arrow;
/// what stands before it must be a single symbol, and what follows it is the
/// replacement, which may hold further arrows.
pub open spec fn parsed_rule(text: Seq<char>) -> Result<(char, Seq<char>), InputError> {
    if forall|i: int| !arrow_at(text, i) {
        Err(InputError::MissingArrow)
    } else if first_arrow_at(text, 1) {
        Ok((text[0], text.skip(3)))
    } else {
        Err(InputError::SymbolNotSingle)
    }
}

/// The rules that the entries stand for, a later entry for a symbol taking the
/// place of an earlier one; the first entry in error decides the error. With
/// `strict`, a rule with an empty replacement is an error.
pub open spec fn parsed_rules(entries: Seq<Seq<char>>, strict: bool) -> Result<
    Map<char, Seq<char>>,
    InputError,
>
    decreases entries.len(),
{
    if entries.len() == 0 {
        Ok(Map::empty())
    } else {
        match parsed_rules(entries.drop_last(), strict) {
            Ok(rules) => match parsed_rule(entries.last()) {
                Ok((symbol, replacement)) => if strict && replacement.len() == 0 {
                    Err(InputError::EmptyReplacement)
                } else {
                    Ok(rules.insert(symbol, replacement))
                },
                Err(e) => Err(e),
            },
            Err(e) => Err(e),
        }
    }
}

/// The texts of the entries.
pub open spec fn texts(entries: Seq<String>) -> Seq<Seq<char>> {
    entries.map_values(|entry: String| entry@)
}

/// Whether a symbol is rewritten by no rule though it is not reserved.
pub open spec fn lacks_rule(rules: Map<char, Seq<char>>, c: char) -> bool {
    !is_reserved(c) && !rules.contains_key(c)
}

/// The symbols of a string that lack a rule, in order and as often as they
/// occur.
pub open spec fn unruled(symbols: Seq<char>, rules: Map<char, Seq<char>>) -> Seq<char>
    decreases symbols.len(),
{
    if symbols.len() == 0 {
        Seq::empty()
    } else if lacks_rule(rules, symbols.last()) {
        unruled(symbols.drop_last(), rules).push(symbols.last())
    } else {
        unruled(symbols.drop_last(), rules)
    }
}

/// Whether a symbol occurs in the initial string or in a rule.
pub open spec fn is_known(c: char, initiator: Seq<char>, rules: Map<char, Seq<char>>) -> bool {
    initiator.contains(c) || occurs_in_rules(rules, c)
}

/// Whether the first unknown symbol of `variables` stands at index `i`.
pub open spec fn first_unknown_at(
    variables: Seq<char>,
    i: int,
    initiator: Seq<char>,
    rules: Map<char, Seq<char>>,
) -> bool {
    &&& 0 <= i < variables.len()
    &&& !is_known(variables[i], initiator, rules)
    &&& forall|j: int| 0 <= j < i ==> is_known(#[trigger] variables[j], initiator, rules)
}

/// What the checks of a form give: the rules, or the first error. The
/// entries are read strictly; then every symbol of the initial string must
/// have a rule or be reserved; then every symbol to be drawn must be known.
pub open spec fn checked_form(
    initiator: Seq<char>,
    entries: Seq<Seq<char>>,
    variables: Seq<char>,
) -> Result<Map<char, Seq<char>>, InputError> {
    match parsed_rules(entries, true) {
        Ok(rules) => if unruled(initiator, rules).len() > 0 {
            Err(InputError::MissingRule)
        } else if exists|i: int| first_unknown_at(variables, i, initiator, rules) {
            Err(
                InputError::UnknownVariable(
                    variables[choose|i: int| first_unknown_at(variables, i, initiator, rules)],
                ),
            )
        } else {
            Ok(rules)
        },
        Err(e) => Err(e),
    }
}

/// The first arrow of a text stands at one index only.
pub proof fn lemma_first_arrow_unique(text: Seq<char>, i: int, j: int)
    requires
        first_arrow_at(text, i),
        first_arrow_at(text, j),
    ensures
        i == j,
{
}

/// The first unknown symbol stands at one index only.
pub proof fn lemma_first_unknown_unique(
    variables: Seq<char>,
    i: int,
    j: int,
    initiator: Seq<char>,
    rules: Map<char, Seq<char>>,
)
    requires
        first_unknown_at(variables, i, initiator, rules),
        first_unknown_at(variables, j, initiator, rules),
    ensures
        i == j,
{
}

/// Reads one rule.
///
/// Fails with `MissingArrow` where the text holds no `=>`, and with
/// `SymbolNotSingle` where its first `=>` does not follow exactly one symbol.
pub fn parse_rule(text: &str) -> (r: Result<(char, String), InputError>)
    ensures
        match r {
            Ok((symbol, replacement)) => parsed_rule(text@) == Ok::<
                (char, Seq<char>),
                InputError,
            >((symbol, replacement@)),
            Err(e) => parsed_rule(text@) == Err::<(char, Seq<char>), InputError>(e),
        },
{
    let chars = symbols_of(text);
    let mut i: usize = 0;
    while i < chars.len() && !(chars[i] == '=' && i + 1 < chars.len() && chars[i + 1] == '>')
        invariant
            i <= chars.len(),
            forall|j: int| 0 <= j < i ==> !arrow_at(chars@, j),
        decreases chars.len() - i,
    {
        i = i + 1;
    }
    if i >= chars.len() {
        return Err(InputError::MissingArrow);
    }
    assert(first_arrow_at(chars@, i as int));
    if i != 1 {
        proof {
            if first_arrow_at(chars@, 1) {
                lemma_first_arrow_unique(chars@, i as int, 1);
            }
        }
        return Err(InputError::SymbolNotSingle);
    }
    let mut replacement = String::new();
    let mut k: usize = 3;
    while k < chars.len()
        invariant
            3 <= k <= chars.len(),
            replacement@ == chars@.subrange(3, k as int),
        decreases chars.len() - k,
    {
        replacement.push(chars[k]);
        assert(chars@.subrange(3, k + 1) == chars@.subrange(3, k as int).push(chars@[k as int]));
        k = k + 1;
    }
    assert(chars@.subrange(3, chars@.len() as int) == chars@.skip(3));
    Ok((chars[0], replacement))
}

/// Reads the rules of a grammar, one entry each; a later entry for a symbol
/// takes the place of an earlier one. With `strict`, an entry whose
/// replacement is empty is refused with `EmptyReplacement`.
pub fn parse_rules(entries: &Vec<String>, strict: bool) -> (r: Result<RuleSet, InputError>)
    ensures
        match r {
            Ok(rules) => parsed_rules(texts(entries@), strict) == Ok::<
                Map<char, Seq<char>>,
                InputError,
            >(rules@),
            Err(e) => parsed_rules(texts(entries@), strict) == Err::<
                Map<char, Seq<char>>,
                InputError,
            >(e),
        },
{
    let mut rules = RuleSet::new();
    let mut i: usize = 0;
    while i < entries.len()
        invariant
            i <= entries.len(),
            parsed_rules(texts(entries@).take(i as int), strict) == Ok::<
                Map<char, Seq<char>>,
                InputError,
            >(rules@),
        decreases entries.len() - i,
    {
        proof {
            let done = texts(entries@).take(i + 1);
            assert(done.drop_last() == texts(entries@).take(i as int));
            assert(done.last() == entries@[i as int]@);
        }
        let failed: Option<InputError> = match parse_rule(entries[i].as_str()) {
            Ok((symbol, replacement)) => {
                if strict && replacement.as_str().unicode_len() == 0 {
                    Some(InputError::EmptyReplacement)
                } else {
                    rules.insert(symbol, replacement);
                    None
                }
            },
            Err(e) => Some(e),
        };
        match failed {
            Some(e) => {
                proof {
                    lemma_entry_error_stays(texts(entries@), strict, i + 1);
                }
                return Err(e);
            },
            None => {},
        }
        i = i + 1;
    }
    assert(texts(entries@).take(entries@.len() as int) == texts(entries@));
    Ok(rules)
}

/// Once a prefix of the entries fails, the whole fails in the same way.
pub proof fn lemma_entry_error_stays(entries: Seq<Seq<char>>, strict: bool, k: int)
    requires
        0 <= k <= entries.len(),
        parsed_rules(entries.take(k), strict) is Err,
    ensures
        parsed_rules(entries, strict) == parsed_rules(entries.take(k), strict),
    decreases entries.len() - k,
{
    if k == entries.len() {
        assert(entries.take(k) == entries);
    } else {
        assert(entries.drop_last().take(k) == entries.take(k));
        lemma_entry_error_stays(entries.drop_last(), strict, k);
    }
}

/// The symbols of a string that are not reserved and have no rule: those
/// that the expansion leaves as they are for want of a rule.
pub fn without_rule(symbols: &str, rules: &RuleSet) -> (found: Vec<char>)
    ensures
        found@ == unruled(symbols@, rules@),
{
    let mut found: Vec<char> = Vec::new();
    for c in it: symbols.chars()
        invariant
            it.seq() == symbols@,
            found@ == unruled(symbols@.take(it.index() as int), rules@),
    {
        proof {
            let done = symbols@.take(it.index() + 1);
            assert(done.drop_last() == symbols@.take(it.index() as int));
            assert(done.last() == c);
        }
        if !reserved(c) && !rules.contains(c) {
            found.push(c);
        }
    }
    assert(symbols@.take(symbols@.len() as int) == symbols@);
    found
}

/// The first symbol of `variables` that occurs neither in the initial string
/// nor in a rule.
pub fn first_unknown(variables: &str, initiator: &str, rules: &RuleSet) -> (r: Option<char>)
    ensures
        match r {
            Some(c) => exists|i: int|
                first_unknown_at(variables@, i, initiator@, rules@) && variables@[i] == c,
            None => forall|i: int|
                0 <= i < variables@.len() ==> is_known(
                    #[trigger] variables@[i],
                    initiator@,
                    rules@,
                ),
        },
{
    for c in it: variables.chars()
        invariant
            it.seq() == variables@,
            forall|j: int|
                0 <= j < it.index() ==> is_known(#[trigger] variables@[j], initiator@, rules@),
    {
        if !occurs_in(initiator, c) && !rules.mentions(c) {
            assert(first_unknown_at(variables@, it.index() as int, initiator@, rules@));
            return Some(c);
        }
    }
    None
}

/// Checks what a user typed: the rules are read strictly, every symbol of the
/// initial string must be reserved or have a rule, and every symbol to be
/// drawn must occur in the initial string or in a rule. Returns the rules,
/// or the first error in that order.
pub fn check_form(initiator: &str, entries: &Vec<String>, variables: &str) -> (r: Result<
    RuleSet,
    InputError,
>)
    ensures
        match r {
            Ok(rules) => checked_form(initiator@, texts(entries@), variables@) == Ok::<
                Map<char, Seq<char>>,
                InputError,
            >(rules@),
            Err(e) => checked_form(initiator@, texts(entries@), variables@) == Err::<
                Map<char, Seq<char>>,
                InputError,
            >(e),
        },
{
    let rules = match parse_rules(entries, true) {
        Ok(rules) => rules,
        Err(e) => { return Err(e); },
    };
    if without_rule(initiator, &rules).len() > 0 {
        return Err(InputError::MissingRule);
    }
    match first_unknown(variables, initiator, &rules) {
        Some(c) => {
            proof {
                let i = choose|i: int|
                    first_unknown_at(variables@, i, initiator@, rules@) && variables@[i] == c;
                let j = choose|j: int| first_unknown_at(variables@, j, initiator@, rules@);
                lemma_first_unknown_unique(variables@, i, j, initiator@, rules@);
            }
            Err(InputError::UnknownVariable(c))
        },
        None => Ok(rules),
    }
}

} // verus!
