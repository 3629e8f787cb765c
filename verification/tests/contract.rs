//! Scenario tests for the store model: collection lifecycle, upsert, search,
//! and extraction, on concrete values.

use vecstore::error::ServiceError;
use vecstore::ident::PointId;
use vecstore::payload::{ObjField, PayloadValue};
use vecstore::point::{Point, PointBatch};
use vecstore::query::{FilterCondition, SearchQuery};
use vecstore::schema::{CollectionSchema, Metric};
use vecstore::store::VectorStore;

fn s(x: &str) -> String {
    x.to_string()
}

fn bits(value: f32, n: usize) -> Vec<u32> {
    vec![value.to_bits(); n]
}

fn obj(fields: Vec<(&str, PayloadValue)>) -> PayloadValue {
    PayloadValue::Obj(
        fields
            .into_iter()
            .map(|(k, v)| ObjField { key: s(k), value: v })
            .collect(),
    )
}

fn demo_payload() -> PayloadValue {
    obj(vec![
        ("foo", PayloadValue::Str(s("Bar"))),
        ("bar", PayloadValue::Int(12)),
        ("baz", obj(vec![("qux", PayloadValue::Str(s("quux")))])),
    ])
}

fn store_with_test_collection(dim: u64) -> VectorStore {
    let mut store = VectorStore::new();
    let schema = CollectionSchema::new(s("test"), dim, Metric::Cosine).unwrap();
    store.create_collection(schema).unwrap();
    store
}

#[test]
fn end_to_end_scenario() {
    let mut store = store_with_test_collection(10);
    let point = Point {
        id: PointId::Num(0),
        vector: bits(12.0, 10),
        payload: demo_payload(),
    };
    store.upsert(&s("test"), vec![point], true).unwrap();

    let names = store.list_collections();
    assert_eq!(names, vec![s("test")]);

    let query = SearchQuery::new(bits(11.0, 10), 10)
        .filter(FilterCondition::equals(s("bar"), PayloadValue::Int(12)))
        .include_payload(true);
    let results = store.search(&s("test"), &query).unwrap();
    assert_eq!(results.len(), 1);
    assert_eq!(results[0].id, PointId::Num(0));
    assert_eq!(results[0].score_bits, 0);

    let baz = results[0].extract_field(&vec![s("baz")]).unwrap();
    assert_eq!(baz, obj(vec![("qux", PayloadValue::Str(s("quux")))]));

    store.delete_collection(&s("test")).unwrap();
    assert!(store.list_collections().is_empty());
}

#[test]
fn round_trip_nested_payload() {
    let mut store = store_with_test_collection(3);
    let payload = obj(vec![
        ("null", PayloadValue::Null),
        ("flag", PayloadValue::Bool(true)),
        ("n", PayloadValue::Int(-7)),
        ("text", PayloadValue::Str(s("hello"))),
        (
            "list",
            PayloadValue::Arr(vec![
                PayloadValue::Int(1),
                PayloadValue::Str(s("two")),
                obj(vec![("deep", PayloadValue::Bool(false))]),
            ]),
        ),
        ("map", obj(vec![("inner", PayloadValue::Arr(vec![PayloadValue::Null]))])),
    ]);
    let point = Point {
        id: PointId::Num(5),
        vector: bits(1.5, 3),
        payload: payload.clone(),
    };
    store.upsert(&s("test"), vec![point], true).unwrap();

    let query = SearchQuery::new(bits(1.0, 3), 1).include_payload(true);
    let results = store.search(&s("test"), &query).unwrap();
    assert_eq!(results.len(), 1);
    let retrieved = results[0].extract_field(&vec![]).unwrap();
    assert_eq!(retrieved, payload);
}

#[test]
fn upsert_dimension_mismatch() {
    let mut store = store_with_test_collection(10);
    let point = Point {
        id: PointId::Num(1),
        vector: bits(1.0, 9),
        payload: demo_payload(),
    };
    let err = store.upsert(&s("test"), vec![point], true).unwrap_err();
    match err {
        ServiceError::DimensionMismatch { collection, point, expected, actual } => {
            assert_eq!(collection, s("test"));
            assert_eq!(point, Some(PointId::Num(1)));
            assert_eq!(expected, 10);
            assert_eq!(actual, 9);
        }
        other => panic!("unexpected error: {:?}", other),
    }
    // nothing was written
    let query = SearchQuery::new(bits(1.0, 10), 10).include_payload(true);
    assert!(store.search(&s("test"), &query).unwrap().is_empty());
}

#[test]
fn search_dimension_mismatch() {
    let store = store_with_test_collection(10);
    let query = SearchQuery::new(bits(1.0, 4), 10);
    let err = store.search(&s("test"), &query).unwrap_err();
    match err {
        ServiceError::DimensionMismatch { collection, point, expected, actual } => {
            assert_eq!(collection, s("test"));
            assert_eq!(point, None);
            assert_eq!(expected, 10);
            assert_eq!(actual, 4);
        }
        other => panic!("unexpected error: {:?}", other),
    }
}

#[test]
fn filter_returns_exactly_matching_points() {
    let mut store = store_with_test_collection(2);
    let values = [12i64, 7, 12];
    let mut batch = Vec::new();
    for (i, v) in values.iter().enumerate() {
        batch.push(Point {
            id: PointId::Num(i as u64),
            vector: bits(i as f32, 2),
            payload: obj(vec![("bar", PayloadValue::Int(*v))]),
        });
    }
    store.upsert(&s("test"), batch, true).unwrap();

    let query = SearchQuery::new(bits(0.0, 2), 10)
        .filter(FilterCondition::equals(s("bar"), PayloadValue::Int(12)))
        .include_payload(true);
    let results = store.search(&s("test"), &query).unwrap();
    assert_eq!(results.len(), 2);
    assert_eq!(results[0].id, PointId::Num(0));
    assert_eq!(results[1].id, PointId::Num(2));
    for r in &results {
        let bar = r.extract_field(&vec![s("bar")]).unwrap();
        assert_eq!(bar, PayloadValue::Int(12));
    }
}

#[test]
fn delete_nonexistent_fails_with_not_found() {
    let mut store = VectorStore::new();
    let err = store.delete_collection(&s("ghost")).unwrap_err();
    assert_eq!(err, ServiceError::NotFound { collection: s("ghost") });
}

#[test]
fn delete_then_list_no_longer_includes_name() {
    let mut store = VectorStore::new();
    for name in ["alpha", "beta", "gamma"] {
        let schema = CollectionSchema::new(s(name), 4, Metric::Euclid).unwrap();
        store.create_collection(schema).unwrap();
    }
    store.delete_collection(&s("beta")).unwrap();
    let names = store.list_collections();
    assert!(!names.contains(&s("beta")));
    assert_eq!(names.len(), 2);
    // deleting again now fails
    let err = store.delete_collection(&s("beta")).unwrap_err();
    assert_eq!(err, ServiceError::NotFound { collection: s("beta") });
}

#[test]
fn acknowledged_upsert_is_immediately_visible() {
    let mut store = store_with_test_collection(10);
    let point = Point {
        id: PointId::Num(0),
        vector: bits(12.0, 10),
        payload: demo_payload(),
    };
    store.upsert(&s("test"), vec![point], true).unwrap();
    let query = SearchQuery::new(bits(11.0, 10), 10)
        .filter(FilterCondition::equals(s("bar"), PayloadValue::Int(12)))
        .include_payload(true);
    let results = store.search(&s("test"), &query).unwrap();
    assert_eq!(results.len(), 1);
    let foo = results[0].extract_field(&vec![s("foo")]).unwrap();
    assert_eq!(foo, PayloadValue::Str(s("Bar")));
}

#[test]
fn upsert_replaces_whole_point_last_write_wins() {
    let mut store = store_with_test_collection(2);
    let first = Point {
        id: PointId::Num(3),
        vector: bits(1.0, 2),
        payload: obj(vec![("bar", PayloadValue::Int(1)), ("old", PayloadValue::Bool(true))]),
    };
    let second = Point {
        id: PointId::Num(3),
        vector: bits(2.0, 2),
        payload: obj(vec![("bar", PayloadValue::Int(2))]),
    };
    // both writes in one batch: the later one wins
    store.upsert(&s("test"), vec![first, second], true).unwrap();
    let query = SearchQuery::new(bits(0.0, 2), 10).include_payload(true);
    let results = store.search(&s("test"), &query).unwrap();
    assert_eq!(results.len(), 1);
    assert_eq!(
        results[0].extract_field(&vec![]).unwrap(),
        obj(vec![("bar", PayloadValue::Int(2))])
    );
    // the old field is gone entirely: no merge
    assert!(results[0].extract_field(&vec![s("old")]).is_err());
}

#[test]
fn create_duplicate_collection_fails() {
    let mut store = store_with_test_collection(10);
    let schema = CollectionSchema::new(s("test"), 10, Metric::Cosine).unwrap();
    let err = store.create_collection(schema).unwrap_err();
    assert_eq!(err, ServiceError::AlreadyExists { collection: s("test") });
}

#[test]
fn zero_dimensional_schema_is_invalid() {
    let err = CollectionSchema::new(s("test"), 0, Metric::Dot).unwrap_err();
    assert_eq!(err, ServiceError::InvalidSchema { collection: s("test") });
}

#[test]
fn store_rejects_zero_dimensional_schema() {
    let mut store = VectorStore::new();
    let schema = CollectionSchema { name: s("flat"), dim: 0, metric: Metric::Manhattan };
    let err = store.create_collection(schema).unwrap_err();
    assert_eq!(err, ServiceError::InvalidSchema { collection: s("flat") });
    assert!(store.list_collections().is_empty());
}

#[test]
fn upsert_into_missing_collection_fails() {
    let mut store = VectorStore::new();
    let point = Point {
        id: PointId::Num(0),
        vector: bits(1.0, 2),
        payload: demo_payload(),
    };
    let err = store.upsert(&s("nowhere"), vec![point], false).unwrap_err();
    assert_eq!(err, ServiceError::NotFound { collection: s("nowhere") });
}

#[test]
fn search_missing_collection_fails() {
    let store = VectorStore::new();
    let query = SearchQuery::new(bits(1.0, 2), 1);
    let err = store.search(&s("nowhere"), &query).unwrap_err();
    assert_eq!(err, ServiceError::NotFound { collection: s("nowhere") });
}

#[test]
fn results_come_back_in_identifier_order() {
    let mut store = store_with_test_collection(1);
    let ids = [
        PointId::Str(s("beta")),
        PointId::Num(7),
        PointId::Str(s("alpha")),
        PointId::Num(2),
    ];
    let mut batch = Vec::new();
    for id in ids {
        batch.push(Point {
            id,
            vector: bits(1.0, 1),
            payload: obj(vec![("kind", PayloadValue::Int(1))]),
        });
    }
    store.upsert(&s("test"), batch, true).unwrap();
    let query = SearchQuery::new(bits(1.0, 1), 10);
    let results = store.search(&s("test"), &query).unwrap();
    let got: Vec<PointId> = results.into_iter().map(|r| r.id).collect();
    assert_eq!(
        got,
        vec![
            PointId::Num(2),
            PointId::Num(7),
            PointId::Str(s("alpha")),
            PointId::Str(s("beta")),
        ]
    );
}

#[test]
fn limit_truncates_ranked_results() {
    let mut store = store_with_test_collection(1);
    let mut batch = Vec::new();
    for i in 0..5u64 {
        batch.push(Point {
            id: PointId::Num(i),
            vector: bits(1.0, 1),
            payload: obj(vec![("bar", PayloadValue::Int(12))]),
        });
    }
    store.upsert(&s("test"), batch, true).unwrap();
    let query = SearchQuery::new(bits(1.0, 1), 2)
        .filter(FilterCondition::equals(s("bar"), PayloadValue::Int(12)));
    let results = store.search(&s("test"), &query).unwrap();
    assert_eq!(results.len(), 2);
    assert_eq!(results[0].id, PointId::Num(0));
    assert_eq!(results[1].id, PointId::Num(1));
    // without payload requested, none is carried
    assert!(results[0].payload.is_none());
}

#[test]
fn batch_normalization_keeps_last_write() {
    let mut batch = PointBatch::new();
    batch.add(Point {
        id: PointId::Num(1),
        vector: bits(1.0, 2),
        payload: PayloadValue::Int(1),
    });
    batch.add(Point {
        id: PointId::Num(2),
        vector: bits(1.0, 2),
        payload: PayloadValue::Int(2),
    });
    batch.add(Point {
        id: PointId::Num(1),
        vector: bits(9.0, 2),
        payload: PayloadValue::Int(3),
    });
    let normal = batch.normalized();
    assert_eq!(normal.len(), 2);
    assert_eq!(normal[0].id, PointId::Num(2));
    assert_eq!(normal[0].payload, PayloadValue::Int(2));
    assert_eq!(normal[1].id, PointId::Num(1));
    assert_eq!(normal[1].payload, PayloadValue::Int(3));
    assert_eq!(normal[1].vector, bits(9.0, 2));
}
