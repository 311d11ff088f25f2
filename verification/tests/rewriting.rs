use expr_simplifier::engine::{
    generalize, simplification_loop, simplify, simplify_binary, simplify_bracket,
};
use expr_simplifier::folding::{fold_constants, fold_power};
use expr_simplifier::node::{Node, Operator};
use expr_simplifier::parser::parse;
use expr_simplifier::tokenizer::tokenize;

fn num(value: i64) -> Node {
    Node::Constant { value }
}

fn var(text: &str) -> Node {
    Node::Variable { name: text.to_string() }
}

fn wrap(inner: Node) -> Node {
    Node::Bracket { expr: Box::new(inner) }
}

fn call(text: &str, argument: Node) -> Node {
    Node::Function { name: text.to_string(), expr: Box::new(argument) }
}

fn tree(text: &str) -> Node {
    parse(&tokenize(text).unwrap()).unwrap()
}

fn texts(steps: &Vec<Node>) -> Vec<String> {
    steps.iter().map(|step| step.render()).collect()
}

#[test]
fn generalization_double_brackets() {
    assert_eq!(simplify(wrap(wrap(num(3)))), wrap(num(3)));
}

#[test]
fn generalization_brackets_on_constant() {
    assert_eq!(simplify(wrap(num(3))), num(3));
}

#[test]
fn generalization_brackets_on_variable() {
    assert_eq!(simplify(wrap(var("x"))), var("x"));
}

#[test]
fn normalize_nested_brackets_around_a_constant() {
    assert_eq!(generalize(wrap(wrap(num(3)))), num(3));
}

#[test]
fn normalize_bracket_around_a_variable() {
    assert_eq!(generalize(wrap(var("x"))), var("x"));
}

#[test]
fn normalize_leaves_one_bracket_around_a_compound() {
    let sum = Node::binary(Operator::Plus, var("x"), var("y"));
    assert_eq!(generalize(wrap(wrap(wrap(sum.clone())))), wrap(sum.clone()));
    assert_eq!(generalize(wrap(sum.clone())), wrap(sum.clone()));
    assert_eq!(generalize(sum.clone()), sum);
}

#[test]
fn normalize_keeps_a_bracket_around_a_function() {
    let sin = call("sin", var("x"));
    assert_eq!(generalize(wrap(wrap(sin.clone()))), wrap(sin));
}

#[test]
fn normalize_goes_into_operands_and_arguments() {
    assert_eq!(generalize(tree("((a))+f(((b)))*((c-(1)))")), tree("a+f(b)*(c-1)"));
}

#[test]
fn normalize_does_not_rewrite_operators() {
    assert_eq!(generalize(tree("x+0")), tree("x+0"));
    assert_eq!(generalize(tree("(1+2)")), tree("(1+2)"));
}

#[test]
fn normalize_twice_is_normalize_once() {
    for text in ["((x))", "((x+1))*(((2)))", "f((((a))))", "((f(((a)+(b)))))", "a"] {
        let once = generalize(tree(text));
        assert_eq!(generalize(once.clone()), once);
    }
}

#[test]
fn fold_sums_differences_and_products() {
    assert_eq!(fold_constants(Operator::Plus, 2, 3), Some(5));
    assert_eq!(fold_constants(Operator::Minus, 2, 3), Some(-1));
    assert_eq!(fold_constants(Operator::Multiply, -4, 3), Some(-12));
    assert_eq!(fold_constants(Operator::Plus, i64::MAX, 1), None);
    assert_eq!(fold_constants(Operator::Plus, i64::MAX, 0), Some(i64::MAX));
    assert_eq!(fold_constants(Operator::Minus, i64::MIN, 1), None);
    assert_eq!(fold_constants(Operator::Multiply, i64::MAX, 2), None);
    assert_eq!(fold_constants(Operator::Multiply, i64::MIN, -1), None);
}

#[test]
fn fold_exact_divisions_only() {
    assert_eq!(fold_constants(Operator::Divide, 6, 3), Some(2));
    assert_eq!(fold_constants(Operator::Divide, -6, 3), Some(-2));
    assert_eq!(fold_constants(Operator::Divide, 6, -3), Some(-2));
    assert_eq!(fold_constants(Operator::Divide, -6, -3), Some(2));
    assert_eq!(fold_constants(Operator::Divide, 0, 5), Some(0));
    assert_eq!(fold_constants(Operator::Divide, 7, 2), None);
    assert_eq!(fold_constants(Operator::Divide, -7, 2), None);
    assert_eq!(fold_constants(Operator::Divide, 7, 0), None);
    assert_eq!(fold_constants(Operator::Divide, 0, 0), None);
    assert_eq!(fold_constants(Operator::Divide, i64::MIN, -1), None);
    assert_eq!(fold_constants(Operator::Divide, i64::MIN, 1), Some(i64::MIN));
}

#[test]
fn fold_powers() {
    assert_eq!(fold_constants(Operator::Power, 2, 10), Some(1024));
    assert_eq!(fold_power(2, 10), Some(1024));
    assert_eq!(fold_power(-3, 3), Some(-27));
    assert_eq!(fold_power(7, 1), Some(7));
    assert_eq!(fold_power(7, 0), Some(1));
    assert_eq!(fold_power(0, 0), Some(1));
    assert_eq!(fold_power(0, 5), Some(0));
    assert_eq!(fold_power(1, i64::MAX), Some(1));
    assert_eq!(fold_power(-1, i64::MAX), Some(-1));
    assert_eq!(fold_power(-1, i64::MAX - 1), Some(1));
    assert_eq!(fold_power(2, -1), None);
    assert_eq!(fold_power(1, -1), None);
    assert_eq!(fold_power(2, 62), Some(1 << 62));
    assert_eq!(fold_power(2, 63), None);
    assert_eq!(fold_power(-2, 63), Some(i64::MIN));
    assert_eq!(fold_power(-2, 64), None);
    assert_eq!(fold_power(10, 18), Some(1_000_000_000_000_000_000));
    assert_eq!(fold_power(10, 19), None);
    assert_eq!(fold_power(3, i64::MAX), None);
}

#[test]
fn simplify_folds_two_constants() {
    assert_eq!(simplify(tree("2+3")), num(5));
    assert_eq!(simplify(tree("2-3")), num(-1));
    assert_eq!(simplify(tree("2*3")), num(6));
    assert_eq!(simplify(tree("6/3")), num(2));
    assert_eq!(simplify(tree("2^3")), num(8));
}

#[test]
fn simplify_leaves_what_cannot_be_folded() {
    assert_eq!(simplify(tree("7/2")), tree("7/2"));
    assert_eq!(simplify(tree("7/0")), tree("7/0"));
    assert_eq!(simplify(tree("9223372036854775807+1")), tree("9223372036854775807+1"));
    let negative_exponent = Node::binary(Operator::Power, num(2), num(-1));
    assert_eq!(simplify(negative_exponent.clone()), negative_exponent);
}

#[test]
fn simplify_additive_identity() {
    assert_eq!(simplify(tree("x+0")), var("x"));
    assert_eq!(simplify(tree("0+x")), var("x"));
    assert_eq!(simplify(tree("x-0")), var("x"));
    assert_eq!(simplify(tree("0-x")), tree("0-x"));
}

#[test]
fn simplify_multiplicative_identity_and_annihilation() {
    assert_eq!(simplify(tree("x*1")), var("x"));
    assert_eq!(simplify(tree("1*x")), var("x"));
    assert_eq!(simplify(tree("x/1")), var("x"));
    assert_eq!(simplify(tree("1/x")), tree("1/x"));
    assert_eq!(simplify(tree("x*0")), num(0));
    assert_eq!(simplify(tree("0*x")), num(0));
    assert_eq!(simplify(tree("0*f(y+1)")), num(0));
    assert_eq!(simplify(tree("0/x")), tree("0/x"));
}

#[test]
fn simplify_power_of_zero_and_one() {
    assert_eq!(simplify(tree("x^0")), num(1));
    assert_eq!(simplify(tree("x^1")), var("x"));
    assert_eq!(simplify(tree("0^x")), tree("0^x"));
    assert_eq!(simplify(tree("1^x")), tree("1^x"));
}

#[test]
fn simplify_does_not_look_into_what_it_rewrote() {
    assert_eq!(simplify(tree("(1+2)+0")), tree("(1+2)"));
    assert_eq!(simplify(tree("((x+0))")), tree("(x+0)"));
}

#[test]
fn simplify_goes_on_in_the_children_where_no_identity_applies() {
    assert_eq!(simplify(tree("(1+2)+(x*1)")), tree("(3)+(x)"));
    assert_eq!(simplify(tree("f(2*3)")), tree("f(6)"));
    assert_eq!(simplify(tree("x+1+2")), tree("x+3"));
}

#[test]
fn simplify_leaves_leaves_alone() {
    assert_eq!(simplify(num(4)), num(4));
    assert_eq!(simplify(var("x")), var("x"));
    assert_eq!(simplify(tree("f(x)")), tree("f(x)"));
    assert_eq!(simplify(tree("(x+y)")), tree("(x+y)"));
}

#[test]
fn simplify_bracket_applies_the_bracket_rule() {
    assert_eq!(simplify_bracket(wrap(num(3))), num(3));
    assert_eq!(simplify_bracket(wrap(var("x"))), var("x"));
    assert_eq!(simplify_bracket(wrap(wrap(var("x")))), wrap(var("x")));
    assert_eq!(simplify_bracket(tree("(x+0)")), tree("(x)"));
    assert_eq!(simplify_bracket(tree("(f(1+1))")), tree("(f(2))"));
}

#[test]
fn simplify_bracket_leaves_other_trees_alone() {
    assert_eq!(simplify_bracket(tree("1+2")), tree("1+2"));
    assert_eq!(simplify_bracket(num(1)), num(1));
    assert_eq!(simplify_bracket(tree("f((x))")), tree("f((x))"));
}

#[test]
fn simplify_binary_is_the_step_on_an_operator_node() {
    assert_eq!(simplify_binary(Operator::Plus, num(1), num(2)), num(3));
    assert_eq!(simplify_binary(Operator::Minus, var("x"), wrap(num(2))), tree("x-2"));
    assert_eq!(simplify_binary(Operator::Multiply, var("x"), num(1)), var("x"));
    assert_eq!(simplify_binary(Operator::Divide, var("x"), var("y")), tree("x/y"));
    assert_eq!(simplify_binary(Operator::Power, var("x"), num(0)), num(1));
}

#[test]
fn simplify_never_adds_a_node() {
    for text in ["(1+2)*(x+0)", "((x))", "f(x^1)+0*y", "a+b", "2^3^2", "(((1)))"] {
        let before = tree(text);
        let after = simplify(before.clone());
        assert!(after.node_count() <= before.node_count());
        if after != before {
            assert!(after.node_count() < before.node_count());
        }
    }
}

#[test]
fn loop_runs_to_the_fixed_point() {
    let trace = simplification_loop(generalize(tree("(1+2)*(x+0)")), 100);
    assert!(trace.converged);
    assert_eq!(texts(&trace.steps), vec!["(1+2)*(x+0)", "(3)*(x)", "3*x"]);
}

#[test]
fn loop_on_a_fixed_point_emits_it_once() {
    let trace = simplification_loop(tree("x+y"), 100);
    assert!(trace.converged);
    assert_eq!(trace.steps, vec![tree("x+y")]);
    let trace = simplification_loop(num(7), 0);
    assert!(trace.converged);
    assert_eq!(trace.steps, vec![num(7)]);
}

#[test]
fn loop_ends_in_a_tree_that_one_more_step_leaves_unchanged() {
    for text in ["(1+2)*(x+0)", "2^3^2", "((a+0)*1)^1", "f((1+1)*g(0+y))", "1+2+3+4"] {
        let start = generalize(tree(text));
        let budget = start.node_count();
        let trace = simplification_loop(start, budget);
        assert!(trace.converged);
        let last = trace.steps.last().unwrap().clone();
        assert_eq!(simplify(last.clone()), last);
    }
}

#[test]
fn loop_takes_one_step_at_a_time_and_never_repeats_a_tree() {
    let start = generalize(tree("1+2+3+4"));
    let trace = simplification_loop(start.clone(), 100);
    assert_eq!(texts(&trace.steps), vec!["1+2+3+4", "1+2+7", "1+9", "10"]);
    assert_eq!(trace.steps[0], start);
    for i in 1..trace.steps.len() {
        assert_eq!(simplify(trace.steps[i - 1].clone()), trace.steps[i]);
    }
    for i in 0..trace.steps.len() {
        for j in 0..i {
            assert_ne!(trace.steps[i], trace.steps[j]);
        }
    }
}

#[test]
fn loop_halts_within_the_node_count() {
    for text in ["1+2+3+4", "(1+2)*(x+0)", "((a+0)*1)^1", "x", "f(0*(a+b+c+d))"] {
        let start = generalize(tree(text));
        let count = start.node_count();
        let trace = simplification_loop(start, usize::MAX);
        assert!(trace.converged);
        assert!(trace.steps.len() <= count);
    }
}

#[test]
fn loop_stops_at_the_cap() {
    let start = tree("1+2+3+4");
    let trace = simplification_loop(start.clone(), 0);
    assert!(!trace.converged);
    assert_eq!(trace.steps, vec![start.clone()]);
    let trace = simplification_loop(start.clone(), 2);
    assert!(!trace.converged);
    assert_eq!(texts(&trace.steps), vec!["1+2+3+4", "1+2+7", "1+9"]);
    let trace = simplification_loop(start, 3);
    assert!(trace.converged);
    assert_eq!(texts(&trace.steps), vec!["1+2+3+4", "1+2+7", "1+9", "10"]);
}

#[test]
fn loop_can_reach_a_negative_constant() {
    let trace = simplification_loop(tree("3-5"), 10);
    assert!(trace.converged);
    assert_eq!(trace.steps, vec![tree("3-5"), num(-2)]);
}
