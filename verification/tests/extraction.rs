//! Tests for connection validation, query building, and local payload
//! extraction, which never touch a store.

use vecstore::error::{ConfigError, ExtractionError};
use vecstore::ident::PointId;
use vecstore::payload::{ObjField, PayloadValue};
use vecstore::query::{FilterCondition, SearchQuery};
use vecstore::result::SearchResult;
use vecstore::schema::ConnectionConfig;

fn s(x: &str) -> String {
    x.to_string()
}

fn obj(fields: Vec<(&str, PayloadValue)>) -> PayloadValue {
    PayloadValue::Obj(
        fields
            .into_iter()
            .map(|(k, v)| ObjField { key: s(k), value: v })
            .collect(),
    )
}

fn result_with(payload: Option<PayloadValue>) -> SearchResult {
    SearchResult { id: PointId::Num(0), score_bits: 0, payload }
}

#[test]
fn connect_accepts_full_parameters() {
    let c = ConnectionConfig::connect(s("http://localhost:6334"), s("SECRET-REDACTED")).unwrap();
    assert_eq!(c.endpoint, s("http://localhost:6334"));
    assert_eq!(c.credential, s("SECRET-REDACTED"));
}

#[test]
fn connect_rejects_empty_endpoint() {
    let err = ConnectionConfig::connect(s(""), s("SECRET-REDACTED")).unwrap_err();
    assert_eq!(err, ConfigError::InvalidEndpoint);
}

#[test]
fn connect_rejects_missing_credential() {
    let err = ConnectionConfig::connect(s("http://localhost:6334"), s("")).unwrap_err();
    assert_eq!(err, ConfigError::MissingCredential);
}

#[test]
fn extract_nested_field() {
    let payload = obj(vec![(
        "baz",
        obj(vec![("qux", PayloadValue::Str(s("quux")))]),
    )]);
    let r = result_with(Some(payload));
    let qux = r.extract_field(&vec![s("baz"), s("qux")]).unwrap();
    assert_eq!(qux, PayloadValue::Str(s("quux")));
}

#[test]
fn extract_missing_field_names_segment() {
    let r = result_with(Some(obj(vec![("bar", PayloadValue::Int(12))])));
    let err = r.extract_field(&vec![s("baz")]).unwrap_err();
    assert_eq!(err, ExtractionError::FieldNotFound { segment: s("baz") });
}

#[test]
fn extract_through_scalar_names_segment() {
    let r = result_with(Some(obj(vec![("bar", PayloadValue::Int(12))])));
    let err = r.extract_field(&vec![s("bar"), s("deeper")]).unwrap_err();
    assert_eq!(err, ExtractionError::NotAMapping { segment: s("deeper") });
}

#[test]
fn extract_from_absent_payload_fails() {
    let r = result_with(None);
    let err = r.extract_field(&vec![s("foo")]).unwrap_err();
    assert_eq!(err, ExtractionError::FieldNotFound { segment: s("foo") });
}

#[test]
fn extract_empty_path_yields_whole_payload() {
    let payload = obj(vec![("bar", PayloadValue::Int(12))]);
    let r = result_with(Some(payload.clone()));
    assert_eq!(r.extract_field(&vec![]).unwrap(), payload);
}

#[test]
fn query_builder_collects_settings() {
    let q = SearchQuery::new(vec![1, 2, 3], 7)
        .filter(FilterCondition::equals(s("bar"), PayloadValue::Int(12)))
        .filter(FilterCondition::equals(s("foo"), PayloadValue::Str(s("Bar"))))
        .include_payload(true);
    assert_eq!(q.vector, vec![1, 2, 3]);
    assert_eq!(q.limit, 7);
    assert_eq!(q.conditions.len(), 2);
    assert!(q.with_payload);
    assert!(q.is_valid());
}

#[test]
fn query_with_zero_limit_is_invalid() {
    let q = SearchQuery {
        vector: vec![1],
        limit: 0,
        conditions: Vec::new(),
        with_payload: false,
    };
    assert!(!q.is_valid());
}

#[test]
fn query_with_structured_condition_value_is_invalid() {
    let q = SearchQuery {
        vector: vec![1],
        limit: 5,
        conditions: vec![FilterCondition {
            field: s("bar"),
            value: obj(vec![("nested", PayloadValue::Null)]),
        }],
        with_payload: false,
    };
    assert!(!q.is_valid());
}

#[test]
fn first_binding_of_duplicate_key_wins() {
    let payload = PayloadValue::Obj(vec![
        ObjField { key: s("k"), value: PayloadValue::Int(1) },
        ObjField { key: s("k"), value: PayloadValue::Int(2) },
    ]);
    let r = result_with(Some(payload));
    assert_eq!(r.extract_field(&vec![s("k")]).unwrap(), PayloadValue::Int(1));
}
