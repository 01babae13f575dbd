use txt_to_json::ast::{CompileError, ErrorCode, MetaMap};
use txt_to_json::error::{CompileError as Report, ErrorKind};
use txt_to_json::lexer::{
    classify_line, classify_number_literal, is_ident_continue, is_ident_start, is_identifier,
    validate_expression, LineKind, NumberLiteral,
};
use serde_json::Number;
use txt_to_json::number::{consume_expr_number, is_number_syntax, read_bound, Bound};

const VARS: &[&str] = &["confidence", "score", "risk"];

#[test]
fn identifier_characters() {
    assert!(is_ident_start('_'));
    assert!(is_ident_start('a'));
    assert!(is_ident_start('Z'));
    assert!(!is_ident_start('1'));
    assert!(!is_ident_start('é'));
    assert!(is_ident_continue('7'));
    assert!(!is_ident_continue('-'));
    assert!(is_identifier("prediction_error"));
    assert!(is_identifier("_x1"));
    assert!(!is_identifier(""));
    assert!(!is_identifier("1x"));
    assert!(!is_identifier("a b"));
}

#[test]
fn classifies_each_kind() {
    assert_eq!(
        classify_line("  section:  meta "),
        Some(LineKind::Section { name: "meta".to_string() })
    );
    assert_eq!(
        classify_line("contract: calibration"),
        Some(LineKind::KeyValue { key: "contract".to_string(), value: "calibration".to_string() })
    );
    assert_eq!(
        classify_line("confidence = confidence * (1 - prediction_error)"),
        Some(LineKind::Formula {
            lhs: "confidence".to_string(),
            rhs: "confidence * (1 - prediction_error)".to_string()
        })
    );
    assert_eq!(
        classify_line("confidence in [ 0 , 1.5 ]  "),
        Some(LineKind::Invariant {
            field: "confidence".to_string(),
            min: "0".to_string(),
            max: "1.5".to_string()
        })
    );
    assert_eq!(
        classify_line("op   confidence_update"),
        Some(LineKind::PipelineOp { name: "confidence_update".to_string() })
    );
}

#[test]
fn rejects_other_lines() {
    assert_eq!(classify_line(""), None);
    assert_eq!(classify_line("   \t"), None);
    assert_eq!(classify_line("???"), None);
    assert_eq!(classify_line("op a b"), None);
    assert_eq!(classify_line("x in [0,1] y"), None);
    assert_eq!(classify_line("xin [0,1]"), None);
    assert_eq!(classify_line("x inside [0,1]"), None);
    assert_eq!(classify_line("x in [0 1]"), None);
    assert_eq!(classify_line("key: two words"), None);
}

#[test]
fn section_header_takes_precedence() {
    assert_eq!(
        classify_line("section: pipeline"),
        Some(LineKind::Section { name: "pipeline".to_string() })
    );
    assert_eq!(
        classify_line("section: x = y"),
        None
    );
}

#[test]
fn expressions() {
    assert!(validate_expression("confidence * (1 - score)", 1, VARS).is_ok());
    assert!(validate_expression("-risk ^ 2 + 3.5e-2 % score", 1, VARS).is_ok());
    assert!(validate_expression("((score))", 1, VARS).is_ok());
    assert!(validate_expression("+-+score", 1, VARS).is_ok());

    let err = validate_expression("confidence * (1 - )", 4, VARS).unwrap_err();
    assert_eq!(err.code, ErrorCode::InvalidFormula);
    assert_eq!(err.line, Some(4));
    assert_eq!(err.message, "malformed expression");

    let err = validate_expression("hidden + )", 2, VARS).unwrap_err();
    assert_eq!(err.code, ErrorCode::UnknownVariable);
    assert_eq!(err.message, "variable not allowed: hidden");

    let err = validate_expression("score score", 2, VARS).unwrap_err();
    assert_eq!(err.code, ErrorCode::InvalidFormula);
    assert_eq!(validate_expression("", 1, VARS).unwrap_err().code, ErrorCode::InvalidFormula);
    assert_eq!(validate_expression("1e", 1, VARS).unwrap_err().code, ErrorCode::InvalidFormula);
    assert_eq!(validate_expression("1.", 1, VARS).unwrap_err().code, ErrorCode::InvalidFormula);
    assert_eq!(validate_expression("a & b", 1, &["a", "b"]).unwrap_err().code, ErrorCode::InvalidFormula);
    assert_eq!(validate_expression("(score", 1, VARS).unwrap_err().code, ErrorCode::InvalidFormula);
}

#[test]
fn number_syntax() {
    assert!(is_number_syntax("0"));
    assert!(is_number_syntax("-12.5e+3"));
    assert!(is_number_syntax("+7E2"));
    assert!(!is_number_syntax(""));
    assert!(!is_number_syntax("+"));
    assert!(!is_number_syntax("1."));
    assert!(!is_number_syntax(".5"));
    assert!(!is_number_syntax("1e"));
    assert!(!is_number_syntax("1 "));
    assert!(!is_number_syntax("0x10"));
}

#[test]
fn number_literals() {
    assert_eq!(classify_number_literal(" 42 "), Some(NumberLiteral::Integer(42)));
    assert_eq!(classify_number_literal("+7"), Some(NumberLiteral::Integer(7)));
    assert_eq!(classify_number_literal("-0"), Some(NumberLiteral::Integer(0)));
    assert_eq!(
        classify_number_literal("9223372036854775807"),
        Some(NumberLiteral::Integer(i64::MAX))
    );
    assert_eq!(
        classify_number_literal("-9223372036854775808"),
        Some(NumberLiteral::Integer(i64::MIN))
    );
    assert_eq!(
        classify_number_literal("9223372036854775808"),
        Some(NumberLiteral::Decimal("9223372036854775808".to_string()))
    );
    assert_eq!(
        classify_number_literal("+1.50"),
        Some(NumberLiteral::Decimal("1.50".to_string()))
    );
    assert_eq!(
        classify_number_literal("1e3"),
        Some(NumberLiteral::Decimal("1e3".to_string()))
    );
    assert_eq!(classify_number_literal("abc"), None);
    assert_eq!(classify_number_literal("1,5"), None);
}

#[test]
fn meta_map_reads_back_writes() {
    let mut m = MetaMap::new();
    assert_eq!(m.len(), 0);
    assert_eq!(m.get("a"), None);
    m.insert("a".to_string(), "1".to_string());
    m.insert("b".to_string(), "2".to_string());
    assert_eq!(m.get("a"), Some(&"1".to_string()));
    m.insert("a".to_string(), "3".to_string());
    assert_eq!(m.get("a"), Some(&"3".to_string()));
    assert_eq!(m.get("b"), Some(&"2".to_string()));
    assert_eq!(m.len(), 2);
    assert_eq!(
        m.into_entries(),
        vec![("a".to_string(), "3".to_string()), ("b".to_string(), "2".to_string())]
    );
}

#[test]
fn meta_map_keeps_keys_in_order() {
    let mut m = MetaMap::new();
    m.insert("version".to_string(), "v1".to_string());
    m.insert("contract".to_string(), "calibration".to_string());
    m.insert("Zeta".to_string(), "upper".to_string());
    m.insert("author".to_string(), "a".to_string());
    m.insert("ab".to_string(), "prefix".to_string());
    m.insert("contract".to_string(), "other".to_string());
    assert_eq!(m.len(), 5);
    assert_eq!(m.get("contract"), Some(&"other".to_string()));
    assert_eq!(m.get("missing"), None);
    let keys: Vec<String> = m.into_entries().into_iter().map(|(k, _)| k).collect();
    assert_eq!(keys, vec!["Zeta", "ab", "author", "contract", "version"]);
}

#[test]
fn error_kinds() {
    assert_eq!(ErrorKind::UnknownSection.as_str(), "UnknownSection");
    assert_eq!(ErrorKind::IoError.as_str(), "IoError");
    assert_eq!(ErrorKind::from_code(ErrorCode::EmptyFormula), ErrorKind::MissingFormula);
    assert_eq!(ErrorKind::from_code(ErrorCode::DuplicateMetaKey), ErrorKind::DuplicateMetaKey);
    let report = Report::from_compile_error(&txt_to_json::ast::CompileError::new(
        ErrorCode::InvalidFormula,
        "malformed expression",
        Some(5),
    ));
    assert_eq!(report.kind, ErrorKind::InvalidFormula);
    assert_eq!(report.line, 5);
    assert_eq!(report.column, None);
    assert_eq!(report.message, "malformed expression");
    let report = Report::from_compile_error(&txt_to_json::ast::CompileError::new(
        ErrorCode::MissingMeta,
        "meta section required",
        None,
    ));
    assert_eq!(report.line, 0);
    let made = Report::new(ErrorKind::IoError, "gone", 0, Some(2));
    assert_eq!(made.column, Some(2));
}

#[test]
fn bounds_read_as_numbers_or_text() {
    assert_eq!(read_bound(" +7 ", 3), Ok(Bound::Exact(Number::from(7))));
    assert_eq!(read_bound("-12", 3), Ok(Bound::Exact(Number::from(-12i64))));
    assert_eq!(read_bound("0", 3), Ok(Bound::Exact(Number::from(0))));
    assert_eq!(read_bound("0.5", 3), Ok(Bound::Inexact("0.5".to_string())));
    assert_eq!(read_bound("+1e3", 3), Ok(Bound::Inexact("1e3".to_string())));
    assert_eq!(
        read_bound("99999999999999999999", 3),
        Ok(Bound::Inexact("99999999999999999999".to_string()))
    );
    assert_eq!(
        read_bound("1.", 4),
        Err(CompileError::new(ErrorCode::InvalidInvariant, "invalid range", Some(4)))
    );
    assert_eq!(
        read_bound("", 5),
        Err(CompileError::new(ErrorCode::InvalidInvariant, "invalid range", Some(5)))
    );
}

#[test]
fn number_ends() {
    let chars: Vec<char> = "12.5e-3+x".chars().collect();
    assert_eq!(consume_expr_number(&chars, 0), Some(7));
    assert_eq!(consume_expr_number(&chars, 3), Some(7));
    assert_eq!(consume_expr_number(&chars, 8), Some(8));
    assert_eq!(consume_expr_number(&chars, 9), Some(9));
    assert_eq!(consume_expr_number(&chars, 20), Some(20));
    let bad: Vec<char> = "1.e".chars().collect();
    assert_eq!(consume_expr_number(&bad, 0), None);
    let bad: Vec<char> = "4e+".chars().collect();
    assert_eq!(consume_expr_number(&bad, 0), None);
}
