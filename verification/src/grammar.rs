//! The grammar of an L-system: symbols, production rules, and the rewriting
//! of a string by one generation or by several.

use std::collections::HashMap;
use std::collections::HashSet;
use vstd::prelude::*;
use vstd::string::StringExecFns;

verus! {

broadcast use vstd::std_specs::hash::group_hash_axioms;

/// The symbols that steer the turtle and that no rule rewrites: turn left,
/// turn right, reverse the heading, save the state, restore the state.
pub open spec fn is_reserved(c: char) -> bool {
    c == '+' || c == '-' || c == '|' || c == '[' || c == ']'
}

/// What one symbol becomes in one generation: a reserved symbol stays, a
/// symbol with a rule becomes the rule's replacement, and a symbol without a
/// rule stays as well.
pub open spec fn production(rules: Map<char, Seq<char>>, c: char) -> Seq<char> {
    if !is_reserved(c) && rules.contains_key(c) {
        rules[c]
    } else {
        seq![c]
    }
}

/// The string after one generation: every symbol replaced by its production,
/// all at once and in order.
pub open spec fn rewritten(state: Seq<char>, rules: Map<char, Seq<char>>) -> Seq<char>
    decreases state.len(),
{
    if state.len() == 0 {
        Seq::empty()
    } else {
        rewritten(state.drop_last(), rules) + production(rules, state.last())
    }
}

/// The string after `generations` generations, starting from `initiator`.
pub open spec fn expansion(initiator: Seq<char>, rules: Map<char, Seq<char>>, generations: nat) -> Seq<
    char,
>
    decreases generations,
{
    if generations == 0 {
        initiator
    } else {
        rewritten(expansion(initiator, rules, (generations - 1) as nat), rules)
    }
}

/// Whether `c` is one of the five reserved symbols.
pub fn reserved(c: char) -> (b: bool)
    ensures
        b == is_reserved(c),
{
    c == '+' || c == '-' || c == '|' || c == '[' || c == ']'
}

/// `String::push` appends one character.
pub assume_specification[ String::push ](s: &mut String, ch: char)
    ensures
        final(s)@ == old(s)@.push(ch),
;

/// The code point of a symbol, by which the collections below are keyed.
pub open spec fn code_of(c: char) -> u32 {
    c as u32
}

/// Different symbols have different code points.
pub proof fn lemma_code_injective(a: char, b: char)
    ensures
        code_of(a) == code_of(b) <==> a == b,
{
}

/// A set of symbols.
#[derive(Debug)]
pub struct SymbolSet {
    codes: HashSet<u32>,
}

impl View for SymbolSet {
    type V = Set<char>;

    closed spec fn view(&self) -> Set<char> {
        Set::new(|c: char| self.codes@.contains(code_of(c)))
    }
}

impl SymbolSet {
    /// The empty set.
    pub fn new() -> (set: SymbolSet)
        ensures
            set@ == Set::<char>::empty(),
    {
        let set = SymbolSet { codes: HashSet::new() };
        assert(set@ =~= Set::<char>::empty());
        set
    }

    /// The set of the symbols that occur in `symbols`.
    pub fn from_symbols(symbols: &str) -> (set: SymbolSet)
        ensures
            set@ == symbols@.to_set(),
    {
        let mut set = SymbolSet::new();
        for c in it: symbols.chars()
            invariant
                it.seq() == symbols@,
                set@ == symbols@.take(it.index() as int).to_set(),
        {
            let ghost before = symbols@.take(it.index() as int);
            set.insert(c);
            proof {
                let after = symbols@.take(it.index() + 1);
                assert(after == before.push(c));
                assert(after.to_set() =~= before.to_set().insert(c)) by {
                    assert forall|d: char| after.to_set().contains(d) implies before.to_set().insert(
                        c,
                    ).contains(d) by {
                        let i = choose|i: int| 0 <= i < after.len() && after[i] == d;
                        if i < before.len() {
                            assert(before[i] == d);
                        }
                    }
                    assert forall|d: char| before.to_set().insert(c).contains(
                        d,
                    ) implies after.to_set().contains(d) by {
                        if d == c {
                            assert(after[before.len() as int] == c);
                        } else {
                            let i = choose|i: int| 0 <= i < before.len() && before[i] == d;
                            assert(after[i] == d);
                        }
                    }
                }
            }
        }
        assert(symbols@.take(symbols@.len() as int) == symbols@);
        set
    }

    /// Adds a symbol.
    pub fn insert(&mut self, symbol: char)
        ensures
            final(self)@ == old(self)@.insert(symbol),
    {
        self.codes.insert(symbol as u32);
        proof {
            assert forall|d: char| self@.contains(d) == old(self)@.insert(symbol).contains(d) by {
                lemma_code_injective(d, symbol);
            }
            assert(self@ =~= old(self)@.insert(symbol));
        }
    }

    /// Whether the set holds `symbol`.
    pub fn contains(&self, symbol: char) -> (b: bool)
        ensures
            b == self@.contains(symbol),
    {
        let code = symbol as u32;
        self.codes.contains(&code)
    }
}

/// Production rules: for each symbol at most one replacement.
#[derive(Debug)]
pub struct RuleSet {
    replacements: HashMap<u32, String>,
    symbols: Vec<char>,
}

impl View for RuleSet {
    type V = Map<char, Seq<char>>;

    closed spec fn view(&self) -> Map<char, Seq<char>> {
        Map::new(
            |c: char| self.replacements@.contains_key(code_of(c)),
            |c: char| self.replacements@[code_of(c)]@,
        )
    }
}

/// Whether `c` occurs on either side of a rule.
pub open spec fn occurs_in_rules(rules: Map<char, Seq<char>>, c: char) -> bool {
    rules.contains_key(c) || exists|k: char| #[trigger]
        rules.contains_key(k) && rules[k].contains(c)
}

/// The symbols of a string, one character each.
pub fn symbols_of(text: &str) -> (symbols: Vec<char>)
    ensures
        symbols@ == text@,
{
    let mut symbols: Vec<char> = Vec::new();
    for c in it: text.chars()
        invariant
            it.seq() == text@,
            symbols@ == text@.take(it.index() as int),
    {
        symbols.push(c);
    }
    assert(text@.take(text@.len() as int) == text@);
    symbols
}

/// Whether `c` occurs in the string.
pub fn occurs_in(text: &str, c: char) -> (b: bool)
    ensures
        b == text@.contains(c),
{
    for d in it: text.chars()
        invariant
            it.seq() == text@,
            !text@.take(it.index() as int).contains(c),
    {
        if d == c {
            assert(text@[it.index() as int] == c);
            return true;
        }
        proof {
            let ghost before = text@.take(it.index() as int);
            let ghost after = text@.take(it.index() + 1);
            assert forall|i: int| 0 <= i < after.len() implies after[i] != c by {
                if i < before.len() {
                    assert(before[i] == after[i]);
                }
            }
        }
    }
    assert(text@.take(text@.len() as int) == text@);
    false
}

impl RuleSet {
    /// The symbols that have a rule are listed once each, in the order in
    /// which they got their first rule.
    #[verifier::type_invariant]
    spec fn listed(self) -> bool {
        &&& self.symbols@.no_duplicates()
        &&& forall|c: char|
            self.symbols@.contains(c) <==> self.replacements@.contains_key(code_of(c))
    }

    /// No rules.
    pub fn new() -> (rules: RuleSet)
        ensures
            rules@ == Map::<char, Seq<char>>::empty(),
    {
        let rules = RuleSet { replacements: HashMap::new(), symbols: Vec::new() };
        assert(rules@ =~= Map::<char, Seq<char>>::empty());
        rules
    }

    /// Sets the replacement of `symbol`; an earlier rule for it is dropped.
    pub fn insert(&mut self, symbol: char, replacement: String)
        ensures
            final(self)@ == old(self)@.insert(symbol, replacement@),
    {
        let mut taken = RuleSet::new();
        std::mem::swap(self, &mut taken);
        proof {
            use_type_invariant(&taken);
        }
        let RuleSet { mut replacements, mut symbols } = taken;
        let ghost before = symbols@;
        let ghost before_map = replacements@;
        let code = symbol as u32;
        if !replacements.contains_key(&code) {
            assert(!before.contains(symbol));
            symbols.push(symbol);
            assert(symbols@.no_duplicates()) by {
                assert forall|i: int, j: int|
                    0 <= i < symbols@.len() && 0 <= j < symbols@.len() && i != j implies symbols@[i]
                    != symbols@[j] by {
                    if i < before.len() {
                        assert(before.contains(symbols@[i]));
                    }
                    if j < before.len() {
                        assert(before.contains(symbols@[j]));
                    }
                }
            }
        }
        let ghost replacement_view = replacement@;
        replacements.insert(code, replacement);
        proof {
            assert forall|c: char| symbols@.contains(c) <==> replacements@.contains_key(
                code_of(c),
            ) by {
                lemma_code_injective(c, symbol);
                if symbols@.contains(c) {
                    let i = choose|i: int| 0 <= i < symbols@.len() && symbols@[i] == c;
                    if i < before.len() {
                        assert(before.contains(c));
                    }
                }
                if before.contains(c) {
                    let i = choose|i: int| 0 <= i < before.len() && before[i] == c;
                    assert(symbols@[i] == c);
                }
                if c == symbol {
                    if !before_map.contains_key(code) {
                        assert(symbols@[before.len() as int] == c);
                    }
                }
            }
        }
        *self = RuleSet { replacements, symbols };
        proof {
            assert forall|d: char| self@.contains_key(d) == old(self)@.insert(
                symbol,
                replacement_view,
            ).contains_key(d) by {
                lemma_code_injective(d, symbol);
            }
            assert forall|d: char| self@.contains_key(d) implies self@[d] == old(self)@.insert(
                symbol,
                replacement_view,
            )[d] by {
                lemma_code_injective(d, symbol);
            }
            assert(self@ =~= old(self)@.insert(symbol, replacement_view));
        }
    }

    /// The replacement of `symbol`, where there is a rule for it.
    pub fn get(&self, symbol: char) -> (r: Option<&String>)
        ensures
            match r {
                Some(replacement) => self@.contains_key(symbol) && self@[symbol] == replacement@,
                None => !self@.contains_key(symbol),
            },
    {
        let code = symbol as u32;
        self.replacements.get(&code)
    }

    /// Whether there is a rule for `symbol`.
    pub fn contains(&self, symbol: char) -> (b: bool)
        ensures
            b == self@.contains_key(symbol),
    {
        let code = symbol as u32;
        self.replacements.contains_key(&code)
    }

    /// The number of rules.
    pub fn len(&self) -> (n: usize)
        ensures
            n == self@.dom().len(),
    {
        proof {
            use_type_invariant(self);
            self.lemma_listed_domain();
            self.symbols@.unique_seq_to_set();
        }
        self.symbols.len()
    }

    /// Whether `c` occurs in a rule, as the symbol that is replaced or in a
    /// replacement.
    pub fn mentions(&self, c: char) -> (b: bool)
        ensures
            b == occurs_in_rules(self@, c),
    {
        proof {
            use_type_invariant(self);
        }
        if self.contains(c) {
            return true;
        }
        let mut i: usize = 0;
        while i < self.symbols.len()
            invariant
                i <= self.symbols.len(),
                self.listed(),
                forall|j: int| 0 <= j < i ==> !self@[#[trigger] self.symbols@[j]].contains(c),
            decreases self.symbols.len() - i,
        {
            let k = self.symbols[i];
            assert(self.symbols@.contains(k));
            match self.get(k) {
                Some(replacement) => {
                    if occurs_in(replacement.as_str(), c) {
                        return true;
                    }
                },
                None => {},
            }
            i = i + 1;
        }
        proof {
            assert forall|k: char| #[trigger] self@.contains_key(k) implies !self@[k].contains(c) by {
                assert(self.symbols@.contains(k));
                let j = choose|j: int| 0 <= j < self.symbols@.len() && self.symbols@[j] == k;
                assert(!self@[self.symbols@[j]].contains(c));
            }
        }
        false
    }

    proof fn lemma_listed_domain(self)
        requires
            self.listed(),
        ensures
            self.symbols@.to_set() == self@.dom(),
    {
        assert(self.symbols@.to_set() =~= self@.dom());
    }
}

/// Rewrites `state` by one generation.
pub fn rewrite(state: &str, rules: &RuleSet) -> (next: String)
    ensures
        next@ == rewritten(state@, rules@),
{
    let mut next = String::new();
    for c in it: state.chars()
        invariant
            it.seq() == state@,
            next@ == rewritten(state@.take(it.index() as int), rules@),
    {
        proof {
            let done = state@.take(it.index() + 1);
            assert(done.drop_last() == state@.take(it.index() as int));
            assert(done.last() == c);
        }
        if reserved(c) {
            next.push(c);
        } else {
            match rules.get(c) {
                Some(replacement) => {
                    next.append(replacement.as_str());
                },
                None => {
                    next.push(c);
                },
            }
        }
    }
    assert(state@.take(state@.len() as int) == state@);
    next
}

/// Rewrites `initiator` by `generations` generations.
pub fn expand(initiator: &str, rules: &RuleSet, generations: usize) -> (state: String)
    ensures
        state@ == expansion(initiator@, rules@, generations as nat),
{
    let mut state = String::from_str(initiator);
    let mut done: usize = 0;
    while done < generations
        invariant
            done <= generations,
            state@ == expansion(initiator@, rules@, done as nat),
        decreases generations - done,
    {
        state = rewrite(state.as_str(), rules);
        done = done + 1;
    }
    state
}

/// With no generations the initiator comes back as it is.
pub proof fn lemma_expansion_zero(initiator: Seq<char>, rules: Map<char, Seq<char>>)
    ensures
        expansion(initiator, rules, 0) == initiator,
{
}

/// The expansion is a function of the initiator, the rules and the number of
/// generations: equal inputs give equal strings.
pub proof fn lemma_expansion_deterministic(
    initiator_a: Seq<char>,
    rules_a: Map<char, Seq<char>>,
    generations_a: nat,
    initiator_b: Seq<char>,
    rules_b: Map<char, Seq<char>>,
    generations_b: nat,
)
    requires
        initiator_a == initiator_b,
        rules_a == rules_b,
        generations_a == generations_b,
    ensures
        expansion(initiator_a, rules_a, generations_a) == expansion(initiator_b, rules_b, generations_b),
{
}

} // verus!
