//! The rewriting engine of the `lsystem` crate, as far as this library relies
//! on it. Nothing in this file is proved: each contract restates what the
//! source of `lsystem` does, and the rest of the library is verified against
//! these contracts.

use lsystem::{LSystem, MapRules};
use std::hash::Hash;
use vstd::prelude::*;

verus! {

/// `lsystem::MapRules`, a lookup table from a symbol to its replacement.
#[verifier::external_type_specification]
#[verifier::external_body]
#[verifier::reject_recursive_types(T)]
pub struct ExMapRules<T: Hash + Eq>(MapRules<T>);

/// The productions that a table of `lsystem` holds.
pub uninterp spec fn productions(table: MapRules<char>) -> Map<char, Seq<char>>;

/// An `lsystem::LSystem` over characters: a table of productions together
/// with the sequence that the productions are applied to.
#[verifier::external_body]
pub struct Engine {
    system: LSystem<char, MapRules<char>>,
}

/// The productions that an engine applies.
pub uninterp spec fn engine_rules(engine: Engine) -> Map<char, Seq<char>>;

/// The sequence that an engine currently holds.
pub uninterp spec fn engine_state(engine: Engine) -> Seq<char>;

/// What one symbol becomes in a rewriting step: its replacement where the
/// productions have one, the symbol itself otherwise.
pub open spec fn expand(rules: Map<char, Seq<char>>, symbol: char) -> Seq<char> {
    if rules.contains_key(symbol) {
        rules[symbol]
    } else {
        seq![symbol]
    }
}

/// One rewriting step: every symbol is expanded, and the expansions are
/// concatenated in the order of the symbols.
pub open spec fn rewrite(rules: Map<char, Seq<char>>, sequence: Seq<char>) -> Seq<char>
    decreases sequence.len(),
{
    if sequence.len() == 0 {
        Seq::empty()
    } else {
        rewrite(rules, sequence.drop_last()) + expand(rules, sequence.last())
    }
}

/// Whether a rewriting step replaces at least one symbol of the sequence.
pub open spec fn rewrites_any(rules: Map<char, Seq<char>>, sequence: Seq<char>) -> bool {
    exists|i: int| 0 <= i < sequence.len() && rules.contains_key(#[trigger] sequence[i])
}

/// `MapRules::new`: a table without productions.
#[verifier::external_body]
pub(crate) fn empty_table() -> (table: MapRules<char>)
    ensures
        productions(table) =~= Map::empty(),
{
    MapRules::new()
}

/// `MapRules::set_str`: the table maps `symbol` to the characters of
/// `replacement` from now on, whatever it mapped the symbol to before; every
/// other production stays.
#[verifier::external_body]
pub(crate) fn set_production(table: &mut MapRules<char>, symbol: char, replacement: &str)
    ensures
        productions(*final(table)) == productions(*old(table)).insert(symbol, replacement@),
{
    table.set_str(symbol, replacement);
}

/// `LSystem::new`: an engine that applies the productions of `table` and
/// holds `start`.
#[verifier::external_body]
pub(crate) fn start_engine(table: MapRules<char>, start: Vec<char>) -> (engine: Engine)
    ensures
        engine_rules(engine) == productions(table),
        engine_state(engine) == start@,
{
    Engine { system: LSystem::new(table, start) }
}

/// `LSystem::next`: the engine rewrites the sequence it holds, once. It hands
/// out a copy of the new sequence if a production applied to at least one
/// symbol, and `None` if none did, in which case the sequence is unchanged.
#[verifier::external_body]
pub(crate) fn advance_engine(engine: &mut Engine) -> (next: Option<Vec<char>>)
    ensures
        engine_rules(*final(engine)) == engine_rules(*old(engine)),
        engine_state(*final(engine)) == rewrite(
            engine_rules(*old(engine)),
            engine_state(*old(engine)),
        ),
        match next {
            Some(sequence) => sequence@ == engine_state(*final(engine)) && rewrites_any(
                engine_rules(*old(engine)),
                engine_state(*old(engine)),
            ),
            None => !rewrites_any(engine_rules(*old(engine)), engine_state(*old(engine))),
        },
{
    engine.system.next()
}

} // verus!
