use bughunter::{apply, mutants, Operator};

fn all_operators() -> [Operator; 8] {
    Operator::ALL
}

fn mutated_output(source: &str, operator: Operator) -> String {
    let found = mutants(source, "fixture.ts", &[operator]);
    assert_eq!(found.len(), 1);
    apply(source, &found[0])
}

#[test]
fn finds_each_supported_operator() {
    let source = "const gt = left > right;\nconst lt = left < right;\nconst and = left && right;\nconst or = left || right;\nconst equality = left === right;\nconst inequality = left !== right;\nfunction values() { return true; return false; }\n";
    let found = mutants(source, "fixture.ts", &all_operators());
    let operators: Vec<_> = found.iter().map(|mutant| mutant.operator).collect();
    let replacements: Vec<_> = found
        .iter()
        .map(|mutant| mutant.replacement.as_str())
        .collect();
    assert_eq!(operators, Operator::ALL);
    assert_eq!(
        replacements,
        vec![">=", "<=", "||", "&&", "!==", "===", "false", "true"]
    );
    assert_eq!(
        found.iter().map(|mutant| mutant.line).collect::<Vec<_>>(),
        vec![1, 2, 3, 4, 5, 6, 7, 7]
    );
}

#[test]
fn mutates_cond_boundary_gt() {
    let source = "const ready = left > right;\n";
    assert_eq!(
        mutated_output(source, Operator::CondBoundaryGt),
        "const ready = left >= right;\n"
    );
}

#[test]
fn mutates_cond_boundary_lt() {
    let source = "const ready = left < right;\n";
    assert_eq!(
        mutated_output(source, Operator::CondBoundaryLt),
        "const ready = left <= right;\n"
    );
}

#[test]
fn mutates_logical_and_to_or() {
    let source = "const ready = left && right;\n";
    assert_eq!(
        mutated_output(source, Operator::LogicalAndToOr),
        "const ready = left || right;\n"
    );
}

#[test]
fn mutates_logical_or_to_and() {
    let source = "const ready = left || right;\n";
    assert_eq!(
        mutated_output(source, Operator::LogicalOrToAnd),
        "const ready = left && right;\n"
    );
}

#[test]
fn mutates_strict_equality_to_strict_inequality() {
    let source = "const ready = left === right;\n";
    assert_eq!(
        mutated_output(source, Operator::EqualityStrictToLooseNeg),
        "const ready = left !== right;\n"
    );
}

#[test]
fn mutates_strict_inequality_to_strict_equality() {
    let source = "const ready = left !== right;\n";
    assert_eq!(
        mutated_output(source, Operator::InequalityToEquality),
        "const ready = left === right;\n"
    );
}

#[test]
fn mutates_return_true_to_false() {
    let source = "function ready() { return true; }\n";
    assert_eq!(
        mutated_output(source, Operator::ReturnTrueToFalse),
        "function ready() { return false; }\n"
    );
}

#[test]
fn mutates_return_false_to_true() {
    let source = "function ready() { return false; }\n";
    assert_eq!(
        mutated_output(source, Operator::ReturnFalseToTrue),
        "function ready() { return true; }\n"
    );
}

#[test]
fn ignores_operator_text_in_strings_and_comments() {
    let source = "const text = \"> < && || === !== return true; return false;\";\n// > < && || === !== return true; return false;\n/* > < && || === !== return true; return false; */\nconst gt = left > right;\nconst lt = left < right;\nconst and = left && right;\nconst or = left || right;\nconst equality = left === right;\nconst inequality = left !== right;\nfunction values() { return true; return false; }\n";
    let found = mutants(source, "fixture.ts", &all_operators());
    assert_eq!(found.len(), Operator::ALL.len());
    assert_eq!(
        found
            .iter()
            .map(|mutant| mutant.operator)
            .collect::<Vec<_>>(),
        Operator::ALL
    );
    assert!(found.iter().all(|mutant| mutant.line >= 4));
}

#[test]
fn apply_replaces_only_the_ast_selected_operator() {
    let source = "const ready = left === right;\n";
    let found = mutants(source, "fixture.ts", &[Operator::EqualityStrictToLooseNeg]);
    assert_eq!(apply(source, &found[0]), "const ready = left !== right;\n");
}

#[test]
fn results_are_stably_sorted_by_span() {
    let source = "const first = alpha && beta;\nconst second = gamma === delta;\nconst third = epsilon || zeta;\n";
    let first = mutants(source, "fixture.ts", &all_operators());
    let second = mutants(source, "fixture.ts", &all_operators());
    let starts: Vec<_> = first.iter().map(|mutant| mutant.span_start).collect();
    assert_eq!(first, second);
    assert!(starts.windows(2).all(|pair| pair[0] < pair[1]));
}

#[test]
fn does_not_mutate_inclusive_comparisons() {
    let source = "const greater = left >= right;\nconst lesser = left <= right;\n";
    let found = mutants(
        source,
        "fixture.ts",
        &[Operator::CondBoundaryGt, Operator::CondBoundaryLt],
    );
    assert!(found.is_empty());
}

#[test]
fn finds_return_in_nested_arrow_function() {
    let source =
        "const outer = () => { const nested = () => { return true; }; return false; };\n";
    let found = mutants(source, "fixture.ts", &[Operator::ReturnTrueToFalse]);
    assert_eq!(found.len(), 1);
    assert_eq!(found[0].line, 1);
    assert_eq!(
        apply(source, &found[0]),
        "const outer = () => { const nested = () => { return false; }; return false; };\n"
    );
}

#[test]
fn does_not_mutate_nonliteral_return() {
    let source = "function value(x) { return x; }\n";
    let found = mutants(
        source,
        "fixture.ts",
        &[Operator::ReturnTrueToFalse, Operator::ReturnFalseToTrue],
    );
    assert!(found.is_empty());
}
