use flatdb::entry::Entry;
use flatdb::query::{Condition, Operator, SelectCols};
use flatdb::table::Table;
use flatdb::types::DataType;

fn entry(pairs: &[(&str, &str)]) -> Entry {
    let mut e = Entry::new();
    for (k, v) in pairs {
        e.insert(k.to_string(), v.to_string());
    }
    e
}

fn cond(key: &str, operator: Operator, value: &str) -> Option<Condition> {
    Some(Condition {
        key: key.to_string(),
        value: value.to_string(),
        operator,
    })
}

#[test]
fn integer_validator_accepts_signed_digit_runs() {
    let t = DataType::Integer;
    assert!(t.is_valid("0"));
    assert!(t.is_valid("5"));
    assert!(t.is_valid("-3"));
    assert!(t.is_valid("007"));
    assert!(t.is_valid("123456789"));
    assert!(!t.is_valid(""));
    assert!(!t.is_valid("-"));
    assert!(!t.is_valid("12a"));
    assert!(!t.is_valid("+5"));
    assert!(!t.is_valid("1.5"));
    assert!(!t.is_valid(" 1"));
}

#[test]
fn boolean_validator_accepts_two_spellings() {
    let t = DataType::Boolean;
    assert!(t.is_valid("true"));
    assert!(t.is_valid("false"));
    assert!(!t.is_valid("True"));
    assert!(!t.is_valid("1"));
    assert!(!t.is_valid(""));
}

#[test]
fn text_validator_accepts_everything() {
    let t = DataType::Text;
    assert!(t.is_valid(""));
    assert!(t.is_valid("anything at all"));
}

#[test]
fn defaults_are_canonical_and_valid() {
    assert_eq!(DataType::Text.default_value(), "");
    assert_eq!(DataType::Integer.default_value(), "0");
    assert_eq!(DataType::Boolean.default_value(), "false");
    assert!(DataType::Text.is_valid(&DataType::Text.default_value()));
    assert!(DataType::Integer.is_valid(&DataType::Integer.default_value()));
    assert!(DataType::Boolean.is_valid(&DataType::Boolean.default_value()));
}

#[test]
fn match_query_without_condition_matches_all() {
    let e = entry(&[("sku", "a1")]);
    assert!(Table::match_query(&None, &e));
}

#[test]
fn match_query_missing_key_never_matches() {
    let e = entry(&[("sku", "a1")]);
    assert!(!Table::match_query(&cond("qty", Operator::Eq, "a1"), &e));
    assert!(!Table::match_query(&cond("qty", Operator::NotEq, "a1"), &e));
}

#[test]
fn match_query_equality_is_exact() {
    let e = entry(&[("qty", "5")]);
    assert!(Table::match_query(&cond("qty", Operator::Eq, "5"), &e));
    assert!(!Table::match_query(&cond("qty", Operator::Eq, "05"), &e));
    assert!(Table::match_query(&cond("qty", Operator::NotEq, "3"), &e));
    assert!(!Table::match_query(&cond("qty", Operator::NotEq, "5"), &e));
}

#[test]
fn match_query_ordering_is_lexicographic() {
    // "10" comes before "9" in lexicographic order, though not numerically.
    let e = entry(&[("qty", "10")]);
    assert!(Table::match_query(&cond("qty", Operator::Lt, "9"), &e));
    assert!(!Table::match_query(&cond("qty", Operator::Gt, "9"), &e));
    assert!(Table::match_query(&cond("qty", Operator::LtEq, "10"), &e));
    assert!(Table::match_query(&cond("qty", Operator::GtEq, "10"), &e));
    assert!(Table::match_query(&cond("qty", Operator::Gt, "0"), &e));
    let f = entry(&[("name", "apple")]);
    assert!(Table::match_query(&cond("name", Operator::Lt, "banana"), &f));
    assert!(Table::match_query(&cond("name", Operator::Lt, "apples"), &f));
    assert!(!Table::match_query(&cond("name", Operator::Lt, "apple"), &f));
}

#[test]
fn entry_insert_replaces_existing_key() {
    let mut e = entry(&[("sku", "a1"), ("qty", "5")]);
    e.insert("qty".to_string(), "9".to_string());
    assert_eq!(e.get("qty").map(|s| s.as_str()), Some("9"));
    assert_eq!(e.items().len(), 2);
}

#[test]
fn select_condition_with_ordering_operator() {
    let mut t = Table::new("stats".to_string(), "items".to_string());
    t.create(
        vec!["sku".to_string(), "qty".to_string()],
        vec![DataType::Text, DataType::Integer],
    );
    t.insert(
        SelectCols::All,
        vec![
            vec!["a1".to_string(), "5".to_string()],
            vec!["a2".to_string(), "3".to_string()],
            vec!["a3".to_string(), "7".to_string()],
        ],
    )
    .unwrap();
    let out = t
        .select(SelectCols::All, cond("qty", Operator::Gt, "4"))
        .unwrap();
    assert_eq!(out.len(), 2);
    assert_eq!(out[0].get("sku").map(|s| s.as_str()), Some("a1"));
    assert_eq!(out[1].get("sku").map(|s| s.as_str()), Some("a3"));
}
