use lbranches::grammar::{branch_rules, branch_start, RuleSet};

fn chars(text: &str) -> Vec<char> {
    text.chars().collect()
}

fn generation(rules: &RuleSet, start: &str, generations: usize) -> String {
    lbranches::grammar::derive(rules, chars(start), generations).into_iter().collect()
}

#[test]
fn algae_generations() {
    let mut rules = RuleSet::new();
    rules.set_str('A', "AB");
    rules.set_str('B', "A");
    assert_eq!(generation(&rules, "A", 1), "AB");
    assert_eq!(generation(&rules, "A", 2), "ABA");
    assert_eq!(generation(&rules, "A", 3), "ABAAB");
    assert_eq!(generation(&rules, "A", 4), "ABAABABA");
    assert_eq!(generation(&rules, "A", 7), "ABAABABAABAABABAABABAABAABABAABAAB");
}

#[test]
fn pythagoras_tree_generations() {
    let mut rules = RuleSet::new();
    rules.set_str('1', "11");
    rules.set_str('0', "1[0]0");
    assert_eq!(generation(&rules, "0", 1), "1[0]0");
    assert_eq!(generation(&rules, "0", 2), "11[1[0]0]1[0]0");
    assert_eq!(generation(&rules, "0", 3), "1111[11[1[0]0]1[0]0]11[1[0]0]1[0]0");
}

#[test]
fn zero_generations_is_identity() {
    let rules = branch_rules();
    assert_eq!(lbranches::grammar::derive(&rules, branch_start(), 0), branch_start());
    assert_eq!(generation(&rules, "[X]", 0), "[X]");
    assert_eq!(generation(&rules, "F-F+X", 0), "F-F+X");
    assert_eq!(generation(&RuleSet::new(), "anything", 0), "anything");
    assert_eq!(generation(&rules, "", 0), "");
}

#[test]
fn empty_axiom_stays_empty() {
    let rules = branch_rules();
    for generations in 0..5 {
        assert_eq!(generation(&rules, "", generations), "");
    }
}

#[test]
fn symbols_without_a_rule_pass_through() {
    let rules = branch_rules();
    assert_eq!(generation(&rules, "[-+]", 1), "[-+]");
    assert_eq!(generation(&rules, "[-+]", 4), "[-+]");
    assert_eq!(generation(&rules, "a-F", 1), "a-FF");
    assert_eq!(generation(&RuleSet::new(), "XF", 3), "XF");
}

#[test]
fn derivation_stops_changing_once_no_rule_applies() {
    let mut rules = RuleSet::new();
    rules.set_str('A', "bc");
    assert_eq!(generation(&rules, "AxA", 1), "bcxbc");
    assert_eq!(generation(&rules, "AxA", 2), "bcxbc");
    assert_eq!(generation(&rules, "AxA", 1000), "bcxbc");
    assert_eq!(generation(&rules, "AxA", usize::MAX), "bcxbc");
}

#[test]
fn later_rule_overrides_earlier() {
    let mut rules = RuleSet::new();
    rules.set_str('A', "AA");
    rules.set_str('B', "A");
    rules.set_str('A', "B");
    assert_eq!(generation(&rules, "AB", 1), "BA");
    assert_eq!(generation(&rules, "AB", 2), "AB");
}

#[test]
fn erasing_rule_shortens_the_sequence() {
    let mut rules = RuleSet::new();
    rules.set_str('X', "");
    assert_eq!(generation(&rules, "aXbX", 1), "ab");
    assert_eq!(generation(&rules, "X", 1), "");
    assert_eq!(generation(&rules, "X", 3), "");
}

#[test]
fn replacement_is_not_rewritten_in_the_same_step() {
    let mut rules = RuleSet::new();
    rules.set_str('A', "BA");
    rules.set_str('B', "AAA");
    assert_eq!(generation(&rules, "AB", 1), "BAAAA");
}

#[test]
fn symbols_beyond_ascii_are_rewritten() {
    let mut rules = RuleSet::new();
    rules.set_str('é', "éß");
    assert_eq!(generation(&rules, "é→", 2), "éßß→");
}

#[test]
fn branch_grammar_generations() {
    let rules = branch_rules();
    assert_eq!(branch_start(), chars("X"));
    assert_eq!(generation(&rules, "X", 1), "F+[[X]-X]-F[-FX]+X");
    assert_eq!(
        generation(&rules, "X", 2),
        "FF+[[F+[[X]-X]-F[-FX]+X]-F+[[X]-X]-F[-FX]+X]-FF[-FFF+[[X]-X]-F[-FX]+X]+F+[[X]-X]-F[-FX]+X"
    );
    assert_eq!(generation(&rules, "[X]", 1), "[F+[[X]-X]-F[-FX]+X]");
    assert_eq!(generation(&rules, "F", 3), "FFFFFFFF");
}

#[test]
fn branch_grammar_grows_with_every_generation() {
    let rules = branch_rules();
    let lengths: Vec<usize> = (0..5)
        .map(|generations| lbranches::grammar::derive(&rules, branch_start(), generations).len())
        .collect();
    assert_eq!(lengths, vec![1, 18, 89, 379, 1551]);
    for pair in lengths.windows(2) {
        assert!(pair[0] < pair[1]);
    }
}

#[test]
fn derivation_never_shrinks_without_erasing_rules() {
    let mut rules = RuleSet::new();
    rules.set_str('A', "B");
    rules.set_str('B', "AB");
    let mut before = 0;
    for generations in 0..8 {
        let length = lbranches::grammar::derive(&rules, chars("ABxA"), generations).len();
        assert!(before <= length);
        before = length;
    }
}
