//! The grammar engine: production rules and the derivation of a symbol
//! sequence from an axiom.

use crate::engine::{
    advance_engine, empty_table, engine_rules, engine_state, expand, productions, rewrite,
    rewrites_any, set_production, start_engine,
};
use lsystem::MapRules;
use vstd::prelude::*;
use vstd::string::*;

verus! {

/// One production: `symbol` is replaced by the characters of `replacement`.
struct Rule {
    symbol: char,
    replacement: String,
}

/// A set of productions. A symbol without a production is a terminal: it
/// rewrites to itself.
pub struct RuleSet {
    rules: Vec<Rule>,
}

/// The productions that a list of rules amounts to: a later rule for a symbol
/// overrides an earlier one.
spec fn rules_of(rules: Seq<Rule>) -> Map<char, Seq<char>>
    decreases rules.len(),
{
    if rules.len() == 0 {
        Map::empty()
    } else {
        rules_of(rules.drop_last()).insert(rules.last().symbol, rules.last().replacement@)
    }
}

impl View for RuleSet {
    type V = Map<char, Seq<char>>;

    closed spec fn view(&self) -> Map<char, Seq<char>> {
        rules_of(self.rules@)
    }
}

impl RuleSet {
    /// A rule set without productions: every symbol is a terminal.
    pub fn new() -> (rules: RuleSet)
        ensures
            rules@ == Map::<char, Seq<char>>::empty(),
    {
        RuleSet { rules: Vec::new() }
    }

    /// Lets `symbol` produce the characters of `replacement`, in place of
    /// whatever it produced before.
    pub fn set_str(&mut self, symbol: char, replacement: &str)
        ensures
            final(self)@ == old(self)@.insert(symbol, replacement@),
    {
        let rule = Rule { symbol, replacement: String::from_str(replacement) };
        self.rules.push(rule);
        assert(self.rules@.drop_last() == old(self).rules@);
    }

    /// The same productions as a lookup table of the rewriting engine.
    fn to_table(&self) -> (table: MapRules<char>)
        ensures
            productions(table) == self@,
    {
        let mut table = empty_table();
        let mut i: usize = 0;
        while i < self.rules.len()
            invariant
                i <= self.rules.len(),
                productions(table) == rules_of(self.rules@.take(i as int)),
            decreases self.rules.len() - i,
        {
            let rule = &self.rules[i];
            set_production(&mut table, rule.symbol, rule.replacement.as_str());
            assert(self.rules@.take(i + 1).drop_last() == self.rules@.take(i as int));
            i += 1;
        }
        assert(self.rules@.take(i as int) == self.rules@);
        table
    }
}

/// The sequence after `generations` rewriting steps from the axiom `start`.
pub open spec fn derive_spec(rules: Map<char, Seq<char>>, start: Seq<char>, generations: nat) -> Seq<
    char,
>
    decreases generations,
{
    if generations == 0 {
        start
    } else {
        rewrite(rules, derive_spec(rules, start, (generations - 1) as nat))
    }
}

/// A step that replaces no symbol leaves the sequence as it is.
pub proof fn lemma_rewrite_without_production(rules: Map<char, Seq<char>>, sequence: Seq<char>)
    requires
        !rewrites_any(rules, sequence),
    ensures
        rewrite(rules, sequence) == sequence,
    decreases sequence.len(),
{
    if sequence.len() > 0 {
        let front = sequence.drop_last();
        assert forall|i: int| 0 <= i < front.len() implies !rules.contains_key(
            #[trigger] front[i],
        ) by {
            assert(front[i] == sequence[i]);
        }
        lemma_rewrite_without_production(rules, front);
        assert(!rules.contains_key(sequence[sequence.len() - 1]));
        assert(front + seq![sequence.last()] == sequence);
    }
}

/// Once a generation rewrites to itself, every later generation equals it.
pub proof fn lemma_derive_fixed_point(
    rules: Map<char, Seq<char>>,
    start: Seq<char>,
    reached: nat,
    generations: nat,
)
    requires
        reached <= generations,
        rewrite(rules, derive_spec(rules, start, reached)) == derive_spec(rules, start, reached),
    ensures
        derive_spec(rules, start, generations) == derive_spec(rules, start, reached),
    decreases generations,
{
    if reached < generations {
        lemma_derive_fixed_point(rules, start, reached, (generations - 1) as nat);
    }
}

/// Rewrites the axiom `start` `generations` times under `rules`. In each step
/// every symbol that has a production is replaced by it, every other symbol
/// stays, and the order of the symbols is kept.
pub fn derive(rules: &RuleSet, start: Vec<char>, generations: usize) -> (sequence: Vec<char>)
    ensures
        sequence@ == derive_spec(rules@, start@, generations as nat),
{
    let mut current = start.clone();
    assert(current@ == start@);
    let mut engine = start_engine(rules.to_table(), start);
    let mut done: usize = 0;
    while done < generations
        invariant
            done <= generations,
            engine_rules(engine) == rules@,
            engine_state(engine) == current@,
            current@ == derive_spec(rules@, start@, done as nat),
        decreases generations - done,
    {
        match advance_engine(&mut engine) {
            Some(next) => {
                current = next;
                done += 1;
            },
            None => {
                proof {
                    lemma_rewrite_without_production(rules@, current@);
                    lemma_derive_fixed_point(rules@, start@, done as nat, generations as nat);
                }
                return current;
            },
        }
    }
    current
}

/// The productions of the branch grammar: `X` grows a twig with three side
/// branches, `F` doubles a stretch.
pub open spec fn branch_rules_spec() -> Map<char, Seq<char>> {
    Map::<char, Seq<char>>::empty().insert('X', "F+[[X]-X]-F[-FX]+X"@).insert('F', "FF"@)
}

/// The axiom of the branch grammar: one bud.
pub open spec fn branch_start_spec() -> Seq<char> {
    seq!['X']
}

/// The productions of the branch grammar: `X -> F+[[X]-X]-F[-FX]+X` and
/// `F -> FF`.
pub fn branch_rules() -> (rules: RuleSet)
    ensures
        rules@ == branch_rules_spec(),
{
    let mut rules = RuleSet::new();
    rules.set_str('X', "F+[[X]-X]-F[-FX]+X");
    rules.set_str('F', "FF");
    rules
}

/// The axiom of the branch grammar: the single symbol `X`.
pub fn branch_start() -> (start: Vec<char>)
    ensures
        start@ == branch_start_spec(),
{
    let mut start: Vec<char> = Vec::new();
    start.push('X');
    assert(start@ == branch_start_spec());
    start
}

/// Zero generations is the identity: the derivation hands the axiom back.
pub proof fn lemma_zero_generations_is_identity(rules: Map<char, Seq<char>>, start: Seq<char>)
    ensures
        derive_spec(rules, start, 0) == start,
{
}

/// An empty axiom yields the empty sequence at every generation.
pub proof fn lemma_empty_axiom_stays_empty(rules: Map<char, Seq<char>>, generations: nat)
    ensures
        derive_spec(rules, Seq::empty(), generations) == Seq::<char>::empty(),
    decreases generations,
{
    if generations > 0 {
        lemma_empty_axiom_stays_empty(rules, (generations - 1) as nat);
    }
}

/// Whether no production erases its symbol: every replacement holds at least
/// one symbol.
pub open spec fn productive(rules: Map<char, Seq<char>>) -> bool {
    forall|symbol: char| rules.contains_key(symbol) ==> (#[trigger] rules[symbol]).len() >= 1
}

/// Under productions that erase nothing, a rewriting step does not shorten a
/// sequence.
pub proof fn lemma_rewrite_never_shrinks(rules: Map<char, Seq<char>>, sequence: Seq<char>)
    requires
        productive(rules),
    ensures
        rewrite(rules, sequence).len() >= sequence.len(),
    decreases sequence.len(),
{
    if sequence.len() > 0 {
        lemma_rewrite_never_shrinks(rules, sequence.drop_last());
    }
}

/// Under productions that erase nothing, a symbol whose expansion holds two
/// symbols or more makes the sequence longer in a rewriting step.
pub proof fn lemma_rewrite_grows(rules: Map<char, Seq<char>>, sequence: Seq<char>, symbol: char)
    requires
        productive(rules),
        sequence.contains(symbol),
        expand(rules, symbol).len() >= 2,
    ensures
        rewrite(rules, sequence).len() > sequence.len(),
    decreases sequence.len(),
{
    let front = sequence.drop_last();
    lemma_rewrite_never_shrinks(rules, front);
    if sequence.last() != symbol {
        let i = choose|i: int| 0 <= i < sequence.len() && sequence[i] == symbol;
        assert(front[i] == symbol);
        lemma_rewrite_grows(rules, front, symbol);
    }
}

/// What the expansion of a symbol of the sequence holds, the rewritten
/// sequence holds too.
pub proof fn lemma_rewrite_keeps(
    rules: Map<char, Seq<char>>,
    sequence: Seq<char>,
    symbol: char,
    kept: char,
)
    requires
        sequence.contains(symbol),
        expand(rules, symbol).contains(kept),
    ensures
        rewrite(rules, sequence).contains(kept),
    decreases sequence.len(),
{
    let front = sequence.drop_last();
    let tail = expand(rules, sequence.last());
    if sequence.last() == symbol {
        let k = choose|k: int| 0 <= k < tail.len() && tail[k] == kept;
        assert((rewrite(rules, front) + tail)[rewrite(rules, front).len() + k] == kept);
    } else {
        let i = choose|i: int| 0 <= i < sequence.len() && sequence[i] == symbol;
        assert(front[i] == symbol);
        lemma_rewrite_keeps(rules, front, symbol, kept);
        let k = choose|k: int|
            0 <= k < rewrite(rules, front).len() && rewrite(rules, front)[k] == kept;
        assert((rewrite(rules, front) + tail)[k] == kept);
    }
}

/// The length of a derivation grows monotonically with the number of
/// generations, under productions that erase nothing.
pub proof fn lemma_derivation_never_shrinks(
    rules: Map<char, Seq<char>>,
    start: Seq<char>,
    earlier: nat,
    later: nat,
)
    requires
        productive(rules),
        earlier <= later,
    ensures
        derive_spec(rules, start, earlier).len() <= derive_spec(rules, start, later).len(),
    decreases later,
{
    if earlier < later {
        lemma_derivation_never_shrinks(rules, start, earlier, (later - 1) as nat);
        lemma_rewrite_never_shrinks(rules, derive_spec(rules, start, (later - 1) as nat));
    }
}

/// Where the axiom holds a symbol whose replacement holds the symbol again
/// and one more at least, every generation holds that symbol and is longer
/// than the one before, under productions that erase nothing.
pub proof fn lemma_derivation_grows_strictly(
    rules: Map<char, Seq<char>>,
    start: Seq<char>,
    symbol: char,
    generations: nat,
)
    requires
        productive(rules),
        start.contains(symbol),
        rules.contains_key(symbol),
        rules[symbol].contains(symbol),
        rules[symbol].len() >= 2,
    ensures
        derive_spec(rules, start, generations).contains(symbol),
        derive_spec(rules, start, generations).len() < derive_spec(
            rules,
            start,
            generations + 1,
        ).len(),
    decreases generations,
{
    if generations > 0 {
        let before = derive_spec(rules, start, (generations - 1) as nat);
        lemma_derivation_grows_strictly(rules, start, symbol, (generations - 1) as nat);
        lemma_rewrite_keeps(rules, before, symbol, symbol);
    }
    lemma_rewrite_grows(rules, derive_spec(rules, start, generations), symbol);
}

/// The branch grammar grows strictly: from its axiom, every generation is
/// longer than the one before.
pub proof fn lemma_branch_grammar_grows_strictly(generations: nat)
    ensures
        derive_spec(branch_rules_spec(), branch_start_spec(), generations).len() < derive_spec(
            branch_rules_spec(),
            branch_start_spec(),
            generations + 1,
        ).len(),
{
    reveal_strlit("F+[[X]-X]-F[-FX]+X");
    reveal_strlit("FF");
    let rules = branch_rules_spec();
    assert(rules['X'][4] == 'X');
    assert(branch_start_spec()[0] == 'X');
    lemma_derivation_grows_strictly(rules, branch_start_spec(), 'X', generations);
}

} // verus!
