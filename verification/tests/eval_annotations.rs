use module_harness::eval::{parse_eval_type, EvalType};

fn range_bounds(t: Option<EvalType>) -> (f64, f64) {
    match t {
        Some(EvalType::Range { low, high }) => (low.parse::<f64>().unwrap(), high.parse::<f64>().unwrap()),
        other => panic!("not a range: {:?}", other),
    }
}

#[test]
fn parse_eval_type_boolean() {
    assert_eq!(parse_eval_type("boolean"), Some(EvalType::Boolean));
    assert_eq!(parse_eval_type("Boolean"), Some(EvalType::Boolean));
}

#[test]
fn parse_eval_type_continuous() {
    assert_eq!(parse_eval_type("continuous"), Some(EvalType::Continuous));
}

#[test]
fn parse_eval_type_ordinal() {
    assert_eq!(
        parse_eval_type("ordinal: 1..5"),
        Some(EvalType::Ordinal { min: 1, max: 5 })
    );
    assert_eq!(
        parse_eval_type("ordinal"),
        Some(EvalType::Ordinal { min: 1, max: 5 })
    );
}

#[test]
fn parse_eval_type_range() {
    assert_eq!(range_bounds(parse_eval_type("range: 5..10")), (5.0, 10.0));
}

#[test]
fn parse_eval_type_case_and_whitespace() {
    assert_eq!(parse_eval_type("  BOOLEAN \t"), Some(EvalType::Boolean));
    assert_eq!(parse_eval_type("CoNtInUoUs"), Some(EvalType::Continuous));
    assert_eq!(parse_eval_type("bool"), None);
    assert_eq!(parse_eval_type(""), None);
    assert_eq!(parse_eval_type("Ordinal: 2..3"), None);
}

#[test]
fn parse_eval_type_ordinal_forms() {
    assert_eq!(parse_eval_type("ordinal 0..10"), Some(EvalType::Ordinal { min: 0, max: 10 }));
    assert_eq!(parse_eval_type("ordinal:+3 .. 7"), Some(EvalType::Ordinal { min: 3, max: 7 }));
    assert_eq!(
        parse_eval_type("ordinal: 0..4294967295"),
        Some(EvalType::Ordinal { min: 0, max: 4294967295 })
    );
    // A bound that does not fit a u32, or is not a number, gives the default scale.
    assert_eq!(parse_eval_type("ordinal: 0..4294967296"), Some(EvalType::Ordinal { min: 1, max: 5 }));
    assert_eq!(parse_eval_type("ordinal: -1..5"), Some(EvalType::Ordinal { min: 1, max: 5 }));
    assert_eq!(parse_eval_type("ordinal: 1-5"), Some(EvalType::Ordinal { min: 1, max: 5 }));
    assert_eq!(parse_eval_type("ordinalx"), Some(EvalType::Ordinal { min: 1, max: 5 }));
}

#[test]
fn parse_eval_type_range_forms() {
    assert_eq!(range_bounds(parse_eval_type("range 3..8")), (3.0, 8.0));
    assert_eq!(range_bounds(parse_eval_type("range: 1.5..2e1")), (1.5, 20.0));
    assert_eq!(range_bounds(parse_eval_type("range: -1...5")), (-1.0, 0.5));
    assert_eq!(range_bounds(parse_eval_type("range: -inf..+Infinity")), (f64::NEG_INFINITY, f64::INFINITY));
    match parse_eval_type("range: NaN..1") {
        Some(EvalType::Range { low, high }) => {
            assert_eq!(low, "NaN");
            assert_eq!(high, "1");
        }
        other => panic!("not a range: {:?}", other),
    }
    assert_eq!(parse_eval_type("range: a..5"), None);
    assert_eq!(parse_eval_type("range: 5"), None);
    assert_eq!(parse_eval_type("range: ..5"), None);
    assert_eq!(parse_eval_type("range: 1e..5"), None);
    assert_eq!(parse_eval_type("range: .e1..5"), None);
    assert_eq!(parse_eval_type("range"), None);
}

#[test]
fn range_bounds_agree_with_f64_parsing() {
    for text in ["1", "+1", "-1", "1.", ".1", "1.5", "1e5", "1E-5", "1.5e+3", "inf", "INF", "-Infinity",
        "nan", "NaN", ".", "e", "1e", "+", "", "--1", "1e5.0", "0x10", "1_0", "in", "infinit"] {
        let ann = format!("range: {}..1", text);
        let accepted = matches!(parse_eval_type(&ann), Some(EvalType::Range { .. }));
        let lhs = ann["range: ".len()..].split_once("..").unwrap().0.trim();
        assert_eq!(accepted, lhs.parse::<f64>().is_ok(), "{}", text);
    }
}
