use serde_json::Number;
use txt_to_json::ast::{CompileError, ErrorCode};
use txt_to_json::builder::build_contract;
use txt_to_json::parser::parse_document;
use txt_to_json::validator::validate_document;

const SAMPLE: &str = "section: meta\ncontract: calibration\nversion: v1\n\nsection: formula\nconfidence = confidence * (1 - prediction_error)\n\nsection: invariant\nconfidence in [0,1]\n\nsection: pipeline\nop confidence_update\n";

fn unit_bounds() -> Vec<Option<(Number, Number)>> {
    vec![Some((Number::from(0i64), Number::from(1i64)))]
}

fn parse_err(input: &str) -> CompileError {
    parse_document(input).unwrap_err()
}

fn validate_err(input: &str, bounds: Vec<Option<(Number, Number)>>) -> CompileError {
    let document = parse_document(input).unwrap();
    validate_document(document, bounds).unwrap_err()
}

#[test]
fn parses_example_structure() {
    let input = "section: meta\ncontract: calibration\nversion: v1\n\nsection: formula\nconfidence = confidence * (1 - prediction_error)\n\nsection: invariant\nconfidence in [0,1]\n\nsection: pipeline\nop confidence_update\n";
    let document = parse_document(input).expect("document should parse");
    assert_eq!(document.sections.len(), 4);
    assert_eq!(document.meta.len(), 2);
    assert_eq!(document.formulas.len(), 1);
    assert_eq!(document.invariants.len(), 1);
    assert_eq!(document.pipeline.len(), 1);
}

#[test]
fn validates_example() {
    let input = "section: meta\ncontract: calibration\nversion: v1\n\nsection: formula\nconfidence = confidence * (1 - prediction_error)\n\nsection: invariant\nconfidence in [0,1]\n\nsection: pipeline\nop confidence_update\n";
    let document = parse_document(input).unwrap();
    let validated = validate_document(document, unit_bounds()).unwrap();
    assert_eq!(
        validated.meta.get("contract"),
        Some(&"calibration".to_string())
    );
    assert_eq!(validated.formulas.len(), 1);
    assert_eq!(validated.invariants.len(), 1);
    assert_eq!(validated.pipeline, vec!["confidence_update".to_string()]);
}

#[test]
fn rejects_unknown_variable() {
    let input = "section: meta\ncontract: calibration\n\nsection: formula\nmystery = confidence + 1\n\nsection: pipeline\nop confidence_update\n";
    let document = parse_document(input).unwrap();
    let err = validate_document(document, vec![]).unwrap_err();
    assert_eq!(err.code, ErrorCode::UnknownVariable);
}

#[test]
fn parse_rejects_unknown_section() {
    let input = "section: meta\ncontract: calibration\n\nsection: mystery\nvalue: x\n\nsection: formula\nconfidence = score\n\nsection: pipeline\nop confidence_update\n";
    let err = parse_err(input);
    assert_eq!(err.code, ErrorCode::UnknownSection);
    assert_eq!(err.line, Some(4));
    assert_eq!(err.message, "section not allowed");
}

#[test]
fn parsed_entries_keep_text_and_lines() {
    let document = parse_document(SAMPLE).unwrap();
    assert_eq!(document.sections[0].name, "meta");
    assert_eq!(document.sections[0].line, 1);
    assert_eq!(document.sections[3].name, "pipeline");
    assert_eq!(document.sections[3].line, 11);
    assert_eq!(document.meta[1].key, "version");
    assert_eq!(document.meta[1].value, "v1");
    assert_eq!(document.meta[1].line, 3);
    assert_eq!(document.formulas[0].lhs, "confidence");
    assert_eq!(document.formulas[0].rhs, "confidence * (1 - prediction_error)");
    assert_eq!(document.formulas[0].line, 6);
    assert_eq!(document.invariants[0].field, "confidence");
    assert_eq!(document.invariants[0].min, "0");
    assert_eq!(document.invariants[0].max, "1");
    assert_eq!(document.invariants[0].line, 9);
    assert_eq!(document.pipeline[0].name, "confidence_update");
    assert_eq!(document.pipeline[0].line, 12);
}

#[test]
fn parse_handles_crlf_and_indentation() {
    let input = "  section: meta \r\n\tcontract :  calibration\r\n";
    let document = parse_document(input).unwrap();
    assert_eq!(document.sections.len(), 1);
    assert_eq!(document.meta[0].key, "contract");
    assert_eq!(document.meta[0].value, "calibration");
    assert_eq!(document.meta[0].line, 2);
}

#[test]
fn parse_empty_document() {
    let document = parse_document("").unwrap();
    assert!(document.sections.is_empty());
    assert!(document.meta.is_empty());
    let document = parse_document("\n\n   \n").unwrap();
    assert!(document.sections.is_empty());
}

#[test]
fn parse_errors_have_codes_and_lines() {
    let err = parse_err("section: meta\n???\n");
    assert_eq!(err.code, ErrorCode::InvalidSyntax);
    assert_eq!(err.line, Some(2));
    assert_eq!(err.message, "syntax error");

    let err = parse_err("contract: calibration\n");
    assert_eq!(err.code, ErrorCode::InvalidSyntax);
    assert_eq!(err.line, Some(1));

    let err = parse_err("section: meta\nsection: meta\n");
    assert_eq!(err.code, ErrorCode::DuplicateSection);
    assert_eq!(err.line, Some(2));
    assert_eq!(err.message, "section already defined: meta");

    let err = parse_err("section: formula\ncontract: calibration\n");
    assert_eq!(err.code, ErrorCode::UnknownField);
    assert_eq!(err.line, Some(2));
    assert_eq!(err.message, "field not allowed in section `formula`");

    let err = parse_err("section: meta\nop confidence_update\n");
    assert_eq!(err.code, ErrorCode::UnknownField);
    assert_eq!(err.message, "field not allowed in section `meta`");
}

#[test]
fn validation_errors_in_order() {
    let err = validate_err("section: formula\nconfidence = score\n", vec![]);
    assert_eq!(err.code, ErrorCode::MissingMeta);
    assert_eq!(err.line, None);
    assert_eq!(err.message, "meta section required");

    let err = validate_err("section: meta\ncontract: calibration\n", vec![]);
    assert_eq!(err.code, ErrorCode::EmptyFormula);
    assert_eq!(err.message, "at least one formula required");

    let err = validate_err(
        "section: meta\ncontract: calibration\ncontract: other\n\nsection: formula\nconfidence = score\n",
        vec![],
    );
    assert_eq!(err.code, ErrorCode::DuplicateMetaKey);
    assert_eq!(err.line, Some(3));

    let err = validate_err(
        "section: meta\ncontract: calibration\n\nsection: formula\nconfidence = confidence * (1 - )\n",
        vec![],
    );
    assert_eq!(err.code, ErrorCode::InvalidFormula);
    assert_eq!(err.line, Some(5));
    assert_eq!(err.message, "malformed expression");

    let err = validate_err(
        "section: meta\ncontract: calibration\n\nsection: formula\nconfidence = hidden_signal\n",
        vec![],
    );
    assert_eq!(err.code, ErrorCode::UnknownVariable);
    assert_eq!(err.message, "variable not allowed: hidden_signal");

    let err = validate_err(
        "section: meta\ncontract: calibration\n\nsection: formula\nconfidence = score\n",
        vec![],
    );
    assert_eq!(err.code, ErrorCode::MissingPipeline);
    assert_eq!(err.message, "pipeline section required");

    let err = validate_err(
        "section: meta\ncontract: calibration\n\nsection: formula\nconfidence = score\nsection: invariant\nconfidence in [2, 1]\nsection: pipeline\nop confidence_update\n",
        vec![None],
    );
    assert_eq!(err.code, ErrorCode::InvalidInvariant);
    assert_eq!(err.line, Some(7));
    assert_eq!(err.message, "invalid range");

    let err = validate_err(
        "section: meta\ncontract: calibration\n\nsection: formula\nconfidence = score\nsection: invariant\nmystery in [0, 1]\nsection: pipeline\nop confidence_update\n",
        unit_bounds(),
    );
    assert_eq!(err.code, ErrorCode::UnknownVariable);
    assert_eq!(err.message, "variable not allowed: mystery");

    let err = validate_err(
        "section: meta\ncontract: calibration\n\nsection: formula\nconfidence = score\nsection: pipeline\nop launch\n",
        vec![],
    );
    assert_eq!(err.code, ErrorCode::UnknownOp);
    assert_eq!(err.line, Some(7));
    assert_eq!(err.message, "operation not registered: launch");
}

#[test]
fn builds_contract_from_sample() {
    let document = parse_document(SAMPLE).unwrap();
    let contract = build_contract(validate_document(document, unit_bounds()).unwrap());
    assert_eq!(contract.meta.len(), 2);
    assert_eq!(contract.meta.get("version"), Some(&"v1".to_string()));
    assert_eq!(contract.meta.get("missing"), None);
    assert_eq!(contract.formulas[0].lhs, "confidence");
    assert_eq!(contract.formulas[0].rhs, "confidence * (1 - prediction_error)");
    assert_eq!(contract.invariants[0].field, "confidence");
    assert_eq!(contract.invariants[0].min, Number::from(0i64));
    assert_eq!(contract.invariants[0].max, Number::from(1i64));
    assert_eq!(contract.pipeline, vec!["confidence_update".to_string()]);
}

#[test]
fn compile_error_new_keeps_fields() {
    let err = CompileError::new(ErrorCode::UnknownOp, "x", Some(3));
    assert_eq!(err.code, ErrorCode::UnknownOp);
    assert_eq!(err.message, "x");
    assert_eq!(err.line, Some(3));
}

#[test]
fn error_code_names() {
    assert_eq!(ErrorCode::UnknownSection.as_str(), "UNKNOWN_SECTION");
    assert_eq!(ErrorCode::DuplicateMetaKey.as_str(), "DUPLICATE_META_KEY");
    assert_eq!(ErrorCode::EmptyFormula.as_str(), "EMPTY_FORMULA");
}

#[test]
fn entries_stand_under_their_headers_in_line_order() {
    let input = "section: formula\nscore = risk\n\nrisk = score\nsection: meta\nb: x\na: y\nsection: pipeline\nop update_beliefs\n";
    let document = parse_document(input).unwrap();
    let header_lines: Vec<usize> = document.sections.iter().map(|s| s.line).collect();
    assert_eq!(header_lines, vec![1, 5, 8]);
    let formula_lines: Vec<usize> = document.formulas.iter().map(|f| f.line).collect();
    assert_eq!(formula_lines, vec![2, 4]);
    let meta_lines: Vec<usize> = document.meta.iter().map(|m| m.line).collect();
    assert_eq!(meta_lines, vec![6, 7]);
    assert_eq!(document.pipeline[0].line, 9);
    // the last header before each entry names the entry's section
    for f in &document.formulas {
        let last = document.sections.iter().filter(|s| s.line < f.line).last().unwrap();
        assert_eq!(last.name, "formula");
    }
    for m in &document.meta {
        let last = document.sections.iter().filter(|s| s.line < m.line).last().unwrap();
        assert_eq!(last.name, "meta");
    }
}

#[test]
fn following_lines_keep_what_came_before() {
    let short = "section: meta\ncontract: calibration";
    let long = format!("{short}\nversion: v1\nsection: formula\nconfidence = score");
    let a = parse_document(short).unwrap();
    let b = parse_document(&long).unwrap();
    assert_eq!(b.sections[..a.sections.len()], a.sections[..]);
    assert_eq!(b.meta[..a.meta.len()], a.meta[..]);
    assert_eq!(b.meta.len(), 2);
    assert_eq!(b.formulas.len(), 1);

    let bad = "section: meta\ncontract: calibration\nsection: mystery";
    let err = parse_document(bad).unwrap_err();
    let longer = format!("{bad}\nsection: formula\nconfidence = score");
    assert_eq!(parse_document(&longer).unwrap_err(), err);
}

const WITH_BOUNDS: &str = "section: meta\ncontract: c\nsection: formula\nconfidence = score\nsection: invariant\nconfidence in [MIN, MAX]\nsection: pipeline\nop confidence_update\n";

fn with_bounds(min: &str, max: &str) -> String {
    WITH_BOUNDS.replace("MIN", min).replace("MAX", max)
}

#[test]
fn bounds_that_are_not_numbers_are_rejected_whatever_the_reading() {
    let input = with_bounds("abc", "1");
    let err = validate_err(&input, vec![Some((Number::from(0i64), Number::from(1i64)))]);
    assert_eq!(err, CompileError::new(ErrorCode::InvalidInvariant, "invalid range", Some(6)));
    let input = with_bounds("0", "1.");
    let err = validate_err(&input, vec![Some((Number::from(0i64), Number::from(1i64)))]);
    assert_eq!(err, CompileError::new(ErrorCode::InvalidInvariant, "invalid range", Some(6)));
}

#[test]
fn integer_bounds_come_from_their_text() {
    let input = with_bounds("+2", "-0");
    let document = parse_document(&input).unwrap();
    let reading = vec![Some((Number::from(5i64), Number::from(7i64)))];
    let validated = validate_document(document, reading).unwrap();
    assert_eq!(validated.invariants[0].min, Number::from(2i64));
    assert_eq!(validated.invariants[0].max, Number::from(0i64));

    let input = with_bounds("0.25", "3");
    let document = parse_document(&input).unwrap();
    let quarter = Number::from_f64(0.25).unwrap();
    let reading = vec![Some((quarter.clone(), Number::from(9i64)))];
    let validated = validate_document(document, reading).unwrap();
    assert_eq!(validated.invariants[0].min, quarter);
    assert_eq!(validated.invariants[0].max, Number::from(3i64));

    let input = with_bounds("1", "0");
    let err = validate_err(&input, vec![None]);
    assert_eq!(err, CompileError::new(ErrorCode::InvalidInvariant, "invalid range", Some(6)));
}
