use txt_to_json::ast::{CompileError, ErrorCode};
use txt_to_json::error::{CompileError as Report, ErrorKind};
use txt_to_json::expr::{parse_expression, BinaryOp, Expr, UnaryOp};
use txt_to_json::parser::parse_document;
use txt_to_json::validator::formula_trees;

const VARS: &[&str] = &["confidence", "prediction_error", "score"];

fn ident(name: &str) -> Box<Expr> {
    Box::new(Expr::Ident(name.to_string()))
}

fn number(text: &str) -> Box<Expr> {
    Box::new(Expr::Number(text.to_string()))
}

fn binary(op: BinaryOp, lhs: Box<Expr>, rhs: Box<Expr>) -> Box<Expr> {
    Box::new(Expr::Binary { op, lhs, rhs })
}

#[test]
fn sample_formula_tree() {
    let tree = parse_expression("confidence * (1 - prediction_error)", 6, VARS).unwrap();
    let expected = binary(
        BinaryOp::Mul,
        ident("confidence"),
        Box::new(Expr::Paren(binary(BinaryOp::Sub, number("1"), ident("prediction_error")))),
    );
    assert_eq!(tree, *expected);
}

#[test]
fn operators_group_to_the_left() {
    let tree = parse_expression("score - 1 - 2", 1, VARS).unwrap();
    let expected = binary(
        BinaryOp::Sub,
        binary(BinaryOp::Sub, ident("score"), number("1")),
        number("2"),
    );
    assert_eq!(tree, *expected);

    let tree = parse_expression("score / 2 % 3", 1, VARS).unwrap();
    let expected = binary(
        BinaryOp::Rem,
        binary(BinaryOp::Div, ident("score"), number("2")),
        number("3"),
    );
    assert_eq!(tree, *expected);
}

#[test]
fn precedence_of_products_over_sums() {
    let tree = parse_expression("1 + score * 2", 1, VARS).unwrap();
    let expected = binary(
        BinaryOp::Add,
        number("1"),
        binary(BinaryOp::Mul, ident("score"), number("2")),
    );
    assert_eq!(tree, *expected);
}

#[test]
fn powers_group_to_the_right_and_signs_nest() {
    let tree = parse_expression("2 ^ 3 ^ score", 1, VARS).unwrap();
    let expected = binary(
        BinaryOp::Pow,
        number("2"),
        binary(BinaryOp::Pow, number("3"), ident("score")),
    );
    assert_eq!(tree, *expected);

    let tree = parse_expression("- + score", 1, VARS).unwrap();
    let expected = Expr::Unary {
        sign: UnaryOp::Minus,
        operand: Box::new(Expr::Unary { sign: UnaryOp::Plus, operand: ident("score") }),
    };
    assert_eq!(tree, expected);

    let tree = parse_expression("2 ^ -score", 1, VARS).unwrap();
    let expected = binary(
        BinaryOp::Pow,
        number("2"),
        Box::new(Expr::Unary { sign: UnaryOp::Minus, operand: ident("score") }),
    );
    assert_eq!(tree, *expected);
}

#[test]
fn decimal_numbers_keep_their_text() {
    let tree = parse_expression("0.25 * score", 1, VARS).unwrap();
    assert_eq!(tree, *binary(BinaryOp::Mul, number("0.25"), ident("score")));
}

#[test]
fn tree_errors_match_the_check() {
    let err = parse_expression("confidence * (1 - )", 4, VARS).unwrap_err();
    assert_eq!(err, CompileError::new(ErrorCode::InvalidFormula, "malformed expression", Some(4)));
    let err = parse_expression("hidden_signal", 5, VARS).unwrap_err();
    assert_eq!(
        err,
        CompileError::new(ErrorCode::UnknownVariable, "variable not allowed: hidden_signal", Some(5))
    );
    let err = parse_expression("score score", 2, VARS).unwrap_err();
    assert_eq!(err.code, ErrorCode::InvalidFormula);
}

#[test]
fn formula_trees_of_a_document() {
    let input = "section: meta\ncontract: calibration\n\nsection: formula\nconfidence = confidence * (1 - prediction_error)\nscore = (score)\n";
    let document = parse_document(input).unwrap();
    let trees = formula_trees(&document).unwrap();
    assert_eq!(trees.len(), 2);
    match &trees[0] {
        Expr::Binary { op, .. } => assert_eq!(*op, BinaryOp::Mul),
        other => panic!("unexpected tree {other:?}"),
    }
    assert_eq!(trees[1], Expr::Paren(ident("score")));
}

#[test]
fn formula_trees_report_the_first_bad_formula() {
    let input = "section: formula\nconfidence = score\nscore = hidden_signal\nrisk = (\n";
    let document = parse_document(input).unwrap();
    let err = formula_trees(&document).unwrap_err();
    assert_eq!(
        err,
        CompileError::new(ErrorCode::UnknownVariable, "variable not allowed: hidden_signal", Some(3))
    );
}

#[test]
fn compile_error_text() {
    let err = CompileError::new(ErrorCode::UnknownSection, "unknown section: mystery", Some(4));
    assert_eq!(err.to_string(), "UNKNOWN_SECTION: unknown section: mystery (line 4)");
    let err = CompileError::new(ErrorCode::InvalidSyntax, "json serialization failed", None);
    assert_eq!(err.to_string(), "INVALID_SYNTAX: json serialization failed");
    let err = CompileError::new(ErrorCode::MissingMeta, "m", Some(1207));
    assert_eq!(err.to_string(), "MISSING_META: m (line 1207)");
    let err = CompileError::new(ErrorCode::EmptyFormula, "", Some(0));
    assert_eq!(err.to_string(), "EMPTY_FORMULA:  (line 0)");
    assert_eq!(ErrorCode::DuplicateMetaKey.to_string(), "DUPLICATE_META_KEY");
}

#[test]
fn report_text() {
    let report = Report::new(ErrorKind::InvalidFormula, "malformed expression", 6, Some(14));
    assert_eq!(report.to_string(), "InvalidFormula: malformed expression (line 6, column 14)");
    let report = Report::new(ErrorKind::IoError, "not found", 0, None);
    assert_eq!(report.to_string(), "IoError: not found (line 0)");
    let report = Report::new(ErrorKind::UnknownOp, "op", 90, Some(10));
    assert_eq!(report.to_string(), "UnknownOp: op (line 90, column 10)");
    assert_eq!(ErrorKind::MissingFormula.to_string(), "MissingFormula");
}

fn names(e: &Expr, out: &mut Vec<String>) {
    match e {
        Expr::Ident(name) => out.push(name.clone()),
        Expr::Number(_) => {}
        Expr::Unary { operand, .. } => names(operand, out),
        Expr::Binary { lhs, rhs, .. } => {
            names(lhs, out);
            names(rhs, out);
        }
        Expr::Paren(inner) => names(inner, out),
    }
}

#[test]
fn tree_names_are_allowed_variables() {
    let tree = parse_expression("-(confidence ^ 2) + score * (prediction_error - 1)", 1, VARS).unwrap();
    let mut found = Vec::new();
    names(&tree, &mut found);
    assert_eq!(found, vec!["confidence", "score", "prediction_error"]);
    assert!(found.iter().all(|n| VARS.contains(&n.as_str())));
}

#[test]
fn more_variables_keep_the_tree() {
    let narrow: &[&str] = &["score"];
    let wide: &[&str] = &["risk", "score", "confidence"];
    let a = parse_expression("score * (2 - score)", 1, narrow).unwrap();
    let b = parse_expression("score * (2 - score)", 1, wide).unwrap();
    assert_eq!(a, b);
    assert!(parse_expression("risk + score", 1, narrow).is_err());
    assert!(parse_expression("risk + score", 1, wide).is_ok());
}
