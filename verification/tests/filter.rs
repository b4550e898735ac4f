use memoria_core::filter::{parse_filter_arg, parse_filter_expr, FilterExpr, FilterOp, FilterValue};
use memoria_core::json::JsonTree;
use memoria_core::number::{order_key, Number, Reading, UNORDERED};
use memoria_core::payload::Payload;

/// A number that filters and limits compare with.
fn number(x: f64) -> Number {
    Number { key: order_key(x.to_bits()), text: x.to_string() }
}

/// The number that a number of a JSON text stands for.
fn json_number(s: &str) -> Option<Number> {
    s.parse::<f64>().ok().map(number)
}

/// What a text says as a number.
fn read(s: &str) -> Reading {
    match s.parse::<f64>() {
        Ok(x) if x.is_nan() => Reading::Unordered,
        Ok(x) => Reading::Ordered(order_key(x.to_bits())),
        Err(_) => Reading::Words,
    }
}

fn evaluate(expr: &FilterExpr, payload: &Payload) -> bool {
    memoria_core::filter::evaluate(expr, payload, &read)
}

fn payload(pairs: &[(&str, &str)]) -> Payload {
    Payload::from_pairs(pairs.iter().map(|(k, v)| (k.to_string(), v.to_string())).collect())
}

fn parse(json: &str) -> FilterExpr {
    let value: serde_json::Value = serde_json::from_str(json).expect("test JSON must be valid");
    parse_filter_expr(&JsonTree::of(&value), &json_number).expect("test filter must parse")
}

#[test]
fn parses_a_bare_equality_condition() {
    let expr = parse(r#"{"user_id": "alice"}"#);
    assert_eq!(expr, FilterExpr::Field("user_id".to_string(), FilterOp::Eq(FilterValue::String("alice".to_string()))));
}

#[test]
fn parses_an_eq_operator_condition() {
    let expr = parse(r#"{"user_id": {"eq": "alice"}}"#);
    assert_eq!(expr, FilterExpr::Field("user_id".to_string(), FilterOp::Eq(FilterValue::String("alice".to_string()))));
}

#[test]
fn parses_multiple_operators_on_the_same_field_as_an_implicit_and() {
    let expr = parse(r#"{"score": {"gte": 5, "lte": 10}}"#);
    let FilterExpr::And(clauses) = expr else { panic!("expected an implicit AND") };
    assert_eq!(clauses.len(), 2);
}

#[test]
fn parses_multiple_top_level_fields_as_an_implicit_and() {
    let expr = parse(r#"{"user_id": "alice", "memory_type": "fact"}"#);
    let FilterExpr::And(clauses) = expr else { panic!("expected an implicit AND") };
    assert_eq!(clauses.len(), 2);
}

#[test]
fn parses_an_explicit_and() {
    let expr = parse(r#"{"AND": [{"category": "programming"}, {"priority": {"gte": 5}}]}"#);
    assert!(matches!(expr, FilterExpr::And(clauses) if clauses.len() == 2));
}

#[test]
fn parses_an_explicit_or() {
    let expr = parse(r#"{"OR": [{"category": "programming"}, {"category": "design"}]}"#);
    assert!(matches!(expr, FilterExpr::Or(clauses) if clauses.len() == 2));
}

#[test]
fn parses_a_not() {
    let expr = parse(r#"{"NOT": [{"category": "spam"}]}"#);
    assert!(matches!(expr, FilterExpr::Not(_)));
}

#[test]
fn parses_an_in_and_nin_list() {
    let in_expr = parse(r#"{"category": {"in": ["a", "b"]}}"#);
    assert_eq!(
        in_expr,
        FilterExpr::Field(
            "category".to_string(),
            FilterOp::In(vec![FilterValue::String("a".to_string()), FilterValue::String("b".to_string())])
        )
    );
    let nin_expr = parse(r#"{"category": {"nin": ["a", "b"]}}"#);
    assert!(matches!(nin_expr, FilterExpr::Field(_, FilterOp::Nin(_))));
}

#[test]
fn parses_a_wildcard_string_into_the_wildcard_op() {
    let expr = parse(r#"{"user_id": "*"}"#);
    assert_eq!(expr, FilterExpr::Field("user_id".to_string(), FilterOp::Wildcard));
}

#[test]
fn rejects_an_unknown_operator() {
    let value: serde_json::Value = serde_json::from_str(r#"{"field": {"bogus": 1}}"#).expect("valid JSON");
    assert!(parse_filter_expr(&JsonTree::of(&value), &json_number).is_err());
}

#[test]
fn rejects_a_non_object_top_level_value() {
    let value: serde_json::Value = serde_json::from_str(r#""not an object""#).expect("valid JSON");
    assert!(parse_filter_expr(&JsonTree::of(&value), &json_number).is_err());
}

#[test]
fn eq_matches_a_real_payload_field() {
    let expr = FilterExpr::Field("user_id".to_string(), FilterOp::Eq(FilterValue::String("alice".to_string())));
    assert!(evaluate(&expr, &payload(&[("user_id", "alice")])));
    assert!(!evaluate(&expr, &payload(&[("user_id", "bob")])));
}

#[test]
fn eq_is_false_when_the_field_is_absent() {
    let expr = FilterExpr::Field("user_id".to_string(), FilterOp::Eq(FilterValue::String("alice".to_string())));
    assert!(!evaluate(&expr, &payload(&[])));
}

#[test]
fn ne_is_the_real_inverse_of_eq() {
    let expr = FilterExpr::Field("user_id".to_string(), FilterOp::Ne(FilterValue::String("alice".to_string())));
    assert!(!evaluate(&expr, &payload(&[("user_id", "alice")])));
    assert!(evaluate(&expr, &payload(&[("user_id", "bob")])));
}

#[test]
fn in_matches_any_real_listed_value() {
    let expr = FilterExpr::Field(
        "category".to_string(),
        FilterOp::In(vec![FilterValue::String("a".to_string()), FilterValue::String("b".to_string())]),
    );
    assert!(evaluate(&expr, &payload(&[("category", "a")])));
    assert!(evaluate(&expr, &payload(&[("category", "b")])));
    assert!(!evaluate(&expr, &payload(&[("category", "c")])));
}

#[test]
fn nin_is_the_real_inverse_of_in() {
    let expr = FilterExpr::Field(
        "category".to_string(),
        FilterOp::Nin(vec![FilterValue::String("a".to_string()), FilterValue::String("b".to_string())]),
    );
    assert!(!evaluate(&expr, &payload(&[("category", "a")])));
    assert!(evaluate(&expr, &payload(&[("category", "c")])));
}

#[test]
fn wildcard_matches_regardless_of_value_or_absence() {
    let expr = FilterExpr::Field("user_id".to_string(), FilterOp::Wildcard);
    assert!(evaluate(&expr, &payload(&[("user_id", "anyone")])));
    assert!(evaluate(&expr, &payload(&[])), "wildcard must match even when the field is entirely absent");
}

#[test]
fn eq_matches_a_number_against_its_real_stored_string_form() {
    let expr = FilterExpr::Field("priority".to_string(), FilterOp::Eq(FilterValue::Number(number(10.0))));
    assert!(evaluate(&expr, &payload(&[("priority", "10")])));
    assert!(!evaluate(&expr, &payload(&[("priority", "11")])));
}

#[test]
fn gt_gte_lt_lte_compare_numerically_when_both_sides_are_real_numbers() {
    let field = Payload::from_pairs(vec![("priority".to_string(), "10".to_string())]);
    assert!(evaluate(&FilterExpr::Field("priority".to_string(), FilterOp::Gt(FilterValue::Number(number(5.0)))), &field));
    assert!(!evaluate(&FilterExpr::Field("priority".to_string(), FilterOp::Gt(FilterValue::Number(number(10.0)))), &field));
    assert!(evaluate(&FilterExpr::Field("priority".to_string(), FilterOp::Gte(FilterValue::Number(number(10.0)))), &field));
    assert!(evaluate(&FilterExpr::Field("priority".to_string(), FilterOp::Lt(FilterValue::Number(number(20.0)))), &field));
    assert!(!evaluate(&FilterExpr::Field("priority".to_string(), FilterOp::Lt(FilterValue::Number(number(10.0)))), &field));
    assert!(evaluate(&FilterExpr::Field("priority".to_string(), FilterOp::Lte(FilterValue::Number(number(10.0)))), &field));
}

#[test]
fn gt_gte_lt_lte_fall_back_to_lexicographic_comparison_on_a_real_expiration_date_shaped_field() {
    let field = Payload::from_pairs(vec![("expiration_date".to_string(), "2026-06-15".to_string())]);
    assert!(evaluate(
        &FilterExpr::Field("expiration_date".to_string(), FilterOp::Gt(FilterValue::String("2026-01-01".to_string()))),
        &field
    ));
    assert!(!evaluate(
        &FilterExpr::Field("expiration_date".to_string(), FilterOp::Lt(FilterValue::String("2026-01-01".to_string()))),
        &field
    ));
    assert!(evaluate(
        &FilterExpr::Field("expiration_date".to_string(), FilterOp::Lte(FilterValue::String("2026-06-15".to_string()))),
        &field
    ));
}

#[test]
fn gt_is_false_when_the_field_is_absent() {
    let expr = FilterExpr::Field("priority".to_string(), FilterOp::Gt(FilterValue::Number(number(5.0))));
    assert!(!evaluate(&expr, &payload(&[])));
}

#[test]
fn contains_matches_a_real_substring() {
    let expr = FilterExpr::Field("content".to_string(), FilterOp::Contains("engineer".to_string()));
    assert!(evaluate(&expr, &payload(&[("content", "Alice is an engineer.")])));
    assert!(!evaluate(&expr, &payload(&[("content", "Alice is a designer.")])));
}

#[test]
fn contains_is_case_sensitive() {
    let expr = FilterExpr::Field("content".to_string(), FilterOp::Contains("Engineer".to_string()));
    assert!(!evaluate(&expr, &payload(&[("content", "alice is an engineer.")])));
}

#[test]
fn icontains_matches_regardless_of_case() {
    let expr = FilterExpr::Field("content".to_string(), FilterOp::Icontains("ENGINEER".to_string()));
    assert!(
        evaluate(&expr, &payload(&[("content", "Alice is an engineer.")])),
        "icontains must be genuinely case-insensitive (ADR-30)"
    );
}

#[test]
fn icontains_still_fails_on_a_real_non_match() {
    let expr = FilterExpr::Field("content".to_string(), FilterOp::Icontains("designer".to_string()));
    assert!(!evaluate(&expr, &payload(&[("content", "Alice is an engineer.")])));
}

#[test]
fn parses_range_and_substring_operators_from_real_json() {
    assert_eq!(parse(r#"{"priority": {"gt": 5}}"#), FilterExpr::Field("priority".to_string(), FilterOp::Gt(FilterValue::Number(number(5.0)))));
    assert_eq!(
        parse(r#"{"content": {"contains": "engineer"}}"#),
        FilterExpr::Field("content".to_string(), FilterOp::Contains("engineer".to_string()))
    );
    assert_eq!(
        parse(r#"{"content": {"icontains": "ENGINEER"}}"#),
        FilterExpr::Field("content".to_string(), FilterOp::Icontains("ENGINEER".to_string()))
    );
}

#[test]
fn and_requires_every_real_clause_to_hold() {
    let expr = FilterExpr::And(vec![
        FilterExpr::Field("category".to_string(), FilterOp::Eq(FilterValue::String("engineering".to_string()))),
        FilterExpr::Field("priority".to_string(), FilterOp::Gte(FilterValue::Number(number(5.0)))),
    ]);
    assert!(evaluate(&expr, &payload(&[("category", "engineering"), ("priority", "8")])));
    assert!(!evaluate(&expr, &payload(&[("category", "engineering"), ("priority", "2")])));
    assert!(!evaluate(&expr, &payload(&[("category", "sales"), ("priority", "8")])));
}

#[test]
fn or_requires_only_one_real_clause_to_hold() {
    let expr = FilterExpr::Or(vec![
        FilterExpr::Field("category".to_string(), FilterOp::Eq(FilterValue::String("engineering".to_string()))),
        FilterExpr::Field("category".to_string(), FilterOp::Eq(FilterValue::String("design".to_string()))),
    ]);
    assert!(evaluate(&expr, &payload(&[("category", "engineering")])));
    assert!(evaluate(&expr, &payload(&[("category", "design")])));
    assert!(!evaluate(&expr, &payload(&[("category", "sales")])));
}

#[test]
fn not_inverts_a_real_inner_expression() {
    let expr = FilterExpr::Not(Box::new(FilterExpr::Field(
        "category".to_string(),
        FilterOp::Eq(FilterValue::String("spam".to_string())),
    )));
    assert!(evaluate(&expr, &payload(&[("category", "engineering")])));
    assert!(!evaluate(&expr, &payload(&[("category", "spam")])));
}

#[test]
fn and_of_or_of_not_evaluates_correctly_nested_one_level_deeper() {
    let category_is_engineering_or_design = FilterExpr::Or(vec![
        FilterExpr::Field("category".to_string(), FilterOp::Eq(FilterValue::String("engineering".to_string()))),
        FilterExpr::Field("category".to_string(), FilterOp::Eq(FilterValue::String("design".to_string()))),
    ]);
    let priority_is_not_low = FilterExpr::Not(Box::new(FilterExpr::Field(
        "priority".to_string(),
        FilterOp::Lt(FilterValue::Number(number(5.0))),
    )));
    let expr = FilterExpr::And(vec![category_is_engineering_or_design, priority_is_not_low]);
    assert!(evaluate(&expr, &payload(&[("category", "engineering"), ("priority", "8")])), "engineering, high priority must match");
    assert!(evaluate(&expr, &payload(&[("category", "design"), ("priority", "5")])), "design, priority at the boundary must match");
    assert!(!evaluate(&expr, &payload(&[("category", "engineering"), ("priority", "2")])), "engineering but low priority must not match");
    assert!(!evaluate(&expr, &payload(&[("category", "sales"), ("priority", "8")])), "wrong category must not match regardless of priority");
}

#[test]
fn a_real_compound_filter_from_parsed_json_evaluates_correctly_end_to_end() {
    let expr = parse(r#"{"AND": [{"category": {"in": ["engineering", "design"]}}, {"priority": {"gte": 5}}]}"#);
    assert!(evaluate(&expr, &payload(&[("category", "engineering"), ("priority", "8")])));
    assert!(!evaluate(&expr, &payload(&[("category", "sales"), ("priority", "8")])));
    assert!(!evaluate(&expr, &payload(&[("category", "engineering"), ("priority", "2")])));
}

#[test]
fn parse_filter_arg_parses_a_bare_equality_condition() {
    let parsed = parse_filter_arg(r#"{"user_id":"alice"}"#, &json_number).expect("expected a valid filter");
    assert_eq!(
        parsed,
        FilterExpr::Field("user_id".to_string(), FilterOp::Eq(FilterValue::String("alice".to_string())))
    );
}

#[test]
fn parse_filter_arg_rejects_malformed_json() {
    let err = parse_filter_arg("not json", &json_number).expect_err("expected a parse error");
    assert!(err.contains("malformed filter JSON"), "got: {err}");
}

#[test]
fn parse_filter_arg_rejects_a_non_object_filter() {
    let err = parse_filter_arg(r#""just a string""#, &json_number).expect_err("expected a validation error");
    assert!(err.contains("malformed filters"), "got: {err}");
}

fn message(json: &str) -> String {
    parse_filter_arg(json, &json_number).expect_err("expected an error")
}

#[test]
fn every_malformed_filter_is_told_apart() {
    assert_eq!(message(r#"["x"]"#), r#"malformed filters: filters must be a JSON object, got ["x"]"#);
    assert_eq!(message(r#"{"AND": {}}"#), "malformed filters: AND/OR/NOT must hold a JSON array, got {}");
    assert_eq!(message(r#"{"a": null}"#), "malformed filters: filter value null must be a string, number, or boolean");
    assert_eq!(message(r#"{"a": {"in": "x"}}"#), r#"malformed filters: filter value "x" must be an array"#);
    assert_eq!(message(r#"{"a": {"contains": 3}}"#), "malformed filters: filter value 3 must be a string");
    assert_eq!(message(r#"{"a": {"bogus": 1}}"#), r#"malformed filters: unknown filter operator "bogus""#);
}

#[test]
fn numbers_compare_by_value_and_text_compares_as_text() {
    let level = FilterExpr::Field("n".to_string(), FilterOp::Eq(FilterValue::Number(number(10.0))));
    assert!(evaluate(&level, &payload(&[("n", "1e1")])));
    assert!(!evaluate(&level, &payload(&[("n", "NaN")])));
    let above = FilterExpr::Field("n".to_string(), FilterOp::Gt(FilterValue::Number(number(9.0))));
    assert!(evaluate(&above, &payload(&[("n", "10")])));
    let later = FilterExpr::Field("n".to_string(), FilterOp::Gt(FilterValue::String("9".to_string())));
    assert!(!evaluate(&later, &payload(&[("n", "10")])));
    let no = FilterExpr::Field("n".to_string(), FilterOp::Lte(FilterValue::Number(number(9.0))));
    assert!(!evaluate(&no, &payload(&[("n", "NaN")])));
}

#[test]
fn truth_values_compare_by_their_names() {
    let expr = parse(r#"{"done": true}"#);
    assert!(evaluate(&expr, &payload(&[("done", "true")])));
    assert!(!evaluate(&expr, &payload(&[("done", "false")])));
}

#[test]
fn a_negation_of_several_filters_holds_where_not_all_do() {
    let expr = parse(r#"{"NOT": [{"a": "1"}, {"b": "2"}]}"#);
    assert!(evaluate(&expr, &payload(&[("a", "1")])));
    assert!(!evaluate(&expr, &payload(&[("a", "1"), ("b", "2")])));
}

#[test]
fn a_filter_number_that_is_no_number_compares_with_nothing() {
    let field = payload(&[("n", "5"), ("word", "tea")]);
    let negative = Number { key: order_key((-f64::NAN).to_bits()), text: "NaN".to_string() };
    for nothing in [number(f64::NAN), negative, Number { key: UNORDERED, text: "NaN".to_string() }] {
        let value = FilterValue::Number(nothing);
        for op in [
            FilterOp::Gt(value.clone()),
            FilterOp::Gte(value.clone()),
            FilterOp::Lt(value.clone()),
            FilterOp::Lte(value.clone()),
            FilterOp::Eq(value.clone()),
            FilterOp::In(vec![value.clone()]),
        ] {
            assert!(!evaluate(&FilterExpr::Field("n".to_string(), op), &field));
        }
        assert!(evaluate(&FilterExpr::Field("n".to_string(), FilterOp::Ne(value.clone())), &field));
        assert!(evaluate(&FilterExpr::Field("word".to_string(), FilterOp::Gt(value)), &field), "words compare with the text of the number");
    }
    let infinite = FilterValue::Number(number(f64::INFINITY));
    assert!(evaluate(&FilterExpr::Field("n".to_string(), FilterOp::Lt(infinite)), &field));
}

#[test]
fn a_text_that_is_contained_is_contained_whatever_the_case() {
    let field = payload(&[("title", "Green TEA [x]")]);
    for needle in ["TEA", "Green", "[x]", ""] {
        assert!(evaluate(&FilterExpr::Field("title".to_string(), FilterOp::Contains(needle.to_string())), &field));
        assert!(evaluate(&FilterExpr::Field("title".to_string(), FilterOp::Icontains(needle.to_string())), &field));
    }
    assert!(evaluate(&FilterExpr::Field("title".to_string(), FilterOp::Icontains("gREEN tea".to_string())), &field));
    assert!(!evaluate(&FilterExpr::Field("title".to_string(), FilterOp::Icontains("{x}".to_string())), &field));
}
