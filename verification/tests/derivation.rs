use shaderand::bnf_parser::Parser;
use shaderand::grammar::{pick_branch, Branch, Grammar, Rule};
use shaderand::node::FnNode;

fn count_unresolved(n: &FnNode) -> usize {
    match n {
        FnNode::Random | FnNode::Rule(_) => 1,
        FnNode::Unary(_, e) => count_unresolved(e),
        FnNode::Arithmetic(a, _, b) | FnNode::Compare(a, _, b) => {
            count_unresolved(a) + count_unresolved(b)
        }
        FnNode::If(a, b, c) | FnNode::Triple(a, b, c) => {
            count_unresolved(a) + count_unresolved(b) + count_unresolved(c)
        }
        _ => 0,
    }
}

#[test]
fn depth_zero_always_fails() {
    let g = Grammar::default();
    for _ in 0..100 {
        assert!(g.gen_from_rule(0, 0).is_none());
    }
}

#[test]
fn out_of_range_rule_fails() {
    let g = Grammar::default();
    assert!(g.gen_from_rule(17, 10).is_none());
}

#[test]
fn generated_trees_are_fully_resolved() {
    let g = Grammar::default();
    let mut produced = 0;
    for _ in 0..50 {
        if let Some(n) = g.gen_from_rule(0, 10) {
            produced += 1;
            assert_eq!(count_unresolved(&n), 0);
        }
    }
    assert!(produced > 0, "derivation never succeeded");
}

#[test]
fn end_to_end_two_rule_grammar() {
    let input = "E | vec3(C, C, C) ;\nC | x\n  | y\n  ;";
    let mut parser = Parser::new(input);
    let g = parser.parse().unwrap();
    for _ in 0..50 {
        let n = g.gen_from_rule(0, 10).expect("this grammar always derives");
        match n {
            FnNode::Triple(a, b, c) => {
                for leaf in [&*a, &*b, &*c] {
                    assert!(
                        matches!(leaf, FnNode::X | FnNode::Y),
                        "leaf must be x or y, got {:?}",
                        leaf,
                    );
                }
            }
            other => panic!("expected a triple, got {:?}", other),
        }
    }
}

#[test]
fn weighted_sampling_converges() {
    // A rule with weights 1 and 3: the second branch must be picked about
    // three quarters of the time.
    let input = "R | x\n ||| y\n ;";
    let mut parser = Parser::new(input);
    let g = parser.parse().unwrap();
    let total = 20_000;
    let mut second = 0;
    for _ in 0..total {
        match g.gen_from_rule(0, 2) {
            Some(FnNode::Y) => second += 1,
            Some(FnNode::X) => {}
            other => panic!("unexpected derivation {:?}", other),
        }
    }
    let share = second as f64 / total as f64;
    assert!(
        (share - 0.75).abs() < 0.03,
        "second-branch share {} is not close to 0.75",
        share,
    );
}

#[test]
fn branch_windows_are_exact() {
    // Weights 1 and 3 partition the 2^32 draws at exactly one quarter.
    let rule = Rule::new(vec![
        Branch::new(FnNode::X, 1),
        Branch::new(FnNode::Y, 3),
    ])
    .unwrap();
    assert_eq!(pick_branch(&rule, 0), 0);
    assert_eq!(pick_branch(&rule, 1 << 30), 0);
    assert_eq!(pick_branch(&rule, (1 << 30) + 1), 1);
    assert_eq!(pick_branch(&rule, u32::MAX), 1);
}

#[test]
fn random_terminals_stay_in_range() {
    let input = "R | random ;";
    let mut parser = Parser::new(input);
    let g = parser.parse().unwrap();
    for _ in 0..200 {
        match g.gen_from_rule(0, 2) {
            Some(FnNode::Number(shaderand::scalar::Scalar::Num(v))) => {
                assert!(-1_000_000 <= v && v < 1_000_000, "random scalar {} out of range", v);
            }
            other => panic!("unexpected derivation {:?}", other),
        }
    }
}

#[test]
fn default_grammar_structure() {
    let g = Grammar::default();
    assert_eq!(
        g.symbols,
        vec!["E".to_string(), "A".to_string(), "C".to_string()],
    );
    assert_eq!(g.map.len(), 3);
    assert_eq!(g.map[0].1.weight_sum, 2);
    assert_eq!(g.map[1].1.weight_sum, 6);
    assert_eq!(g.map[2].1.weight_sum, 11);
    assert_eq!(g.map[1].1.branches[0].node, FnNode::Random);
}

#[test]
fn add_rule_rejects_empty_branch_list() {
    let mut g = Grammar::new();
    assert!(g.add_rule(Vec::new(), "A".to_string()).is_err());
    assert_eq!(g.map.len(), 0);
    assert!(g.add_rule(vec![Branch::new(FnNode::X, 1)], "A".to_string()).is_ok());
    assert_eq!(g.map.len(), 1);
    assert_eq!(g.map[0].1.weight_sum, 1);
}

#[test]
fn shader_generation_end_to_end() {
    // The empty input selects the built-in default grammar.
    let shader = shaderand::generate_fragment_shader("").unwrap();
    assert!(shader.contains("fs_main"));
    assert!(shader.contains("map_rgb("));
    assert!(!shader.contains("%s"));

    let from_text = shaderand::generate_fragment_shader("E | vec3(x, y, t) ;").unwrap();
    assert!(from_text.contains("map_rgb(vec3(x, y, t))"));

    assert!(shaderand::generate_fragment_shader("E | nonsense ;").is_err());
}
