use middleoffice::error::LocalError;
use middleoffice::filter::{
    create_date_filter, create_string_filter, get_date_filter, head_filter, split_dots, Filter,
};
use middleoffice::json::Json;
use middleoffice::oid::{fresh_oid, oid_valid};

#[test]
fn date_filter_parses_exact_timestamp() {
    let q = Json::Obj(vec![(
        "requestdate".to_string(),
        Json::Str("2023-01-01T00:00:00Z".to_string()),
    )]);
    match create_date_filter(q).unwrap() {
        Filter::DateGte(t) => assert_eq!(t, 1_672_531_200_000),
        Filter::Fields(_) => panic!("expected a date predicate"),
    }
}

#[test]
fn date_filter_missing_key() {
    let q = Json::Obj(vec![("other".to_string(), Json::Int(1))]);
    let err = create_date_filter(q).unwrap_err();
    assert_eq!(
        err.message(),
        "Filter exception : Filter value not found requestDate"
    );
}

#[test]
fn date_filter_malformed_timestamp() {
    let q = Json::Obj(vec![(
        "requestdate".to_string(),
        Json::Str("yesterday".to_string()),
    )]);
    let err = create_date_filter(q).unwrap_err();
    assert_eq!(err.message(), "Filter exception : Date filter wrongly formatted.");
}

#[test]
fn string_filter_rejects_non_object() {
    let err = create_string_filter(Json::Int(3)).unwrap_err();
    assert_eq!(
        err.message(),
        "Filter exception : Input Json String filter Data wrongly structure."
    );
}

#[test]
fn string_filter_splits_dotted_keys() {
    let q = Json::Obj(vec![(
        "policy.name".to_string(),
        Json::Str("bob".to_string()),
    )]);
    match create_string_filter(q).unwrap() {
        Filter::Fields(conds) => {
            assert_eq!(conds.len(), 1);
            assert_eq!(conds[0].path, vec!["policy".to_string(), "name".to_string()]);
            assert!(conds[0].value.deep_eq(&Json::Str("bob".to_string())));
        },
        Filter::DateGte(_) => panic!("expected a structured predicate"),
    }
}

#[test]
fn string_filter_matches_nested_value() {
    let q = Json::Obj(vec![(
        "policy.name".to_string(),
        Json::Str("bob".to_string()),
    )]);
    let f = create_string_filter(q).unwrap();
    let doc_hit = Json::Obj(vec![(
        "policy".to_string(),
        Json::Obj(vec![("name".to_string(), Json::Str("bob".to_string()))]),
    )]);
    let doc_miss = Json::Obj(vec![(
        "policy".to_string(),
        Json::Obj(vec![("name".to_string(), Json::Str("eve".to_string()))]),
    )]);
    assert!(f.matches(&doc_hit));
    assert!(!f.matches(&doc_miss));
}

#[test]
fn date_predicate_needs_a_date_field() {
    let f = Filter::DateGte(0);
    let without = Json::Obj(vec![("a".to_string(), Json::Int(1))]);
    assert!(!f.matches(&without));
    let with = Json::Obj(vec![("requestDate".to_string(), Json::Date(5))]);
    assert!(f.matches(&with));
    let too_old = Json::Obj(vec![("requestDate".to_string(), Json::Date(-1))]);
    assert!(!too_old.deep_eq(&with));
    assert!(!Filter::DateGte(0).matches(&too_old));
}

#[test]
fn split_on_dots() {
    assert_eq!(split_dots("policy.name"), vec!["policy".to_string(), "name".to_string()]);
    assert_eq!(split_dots("abc"), vec!["abc".to_string()]);
    assert_eq!(
        split_dots("a..b"),
        vec!["a".to_string(), "".to_string(), "b".to_string()]
    );
}

#[test]
fn head_filter_computes_skip_and_projection() {
    let d = head_filter(2, 10).unwrap();
    assert_eq!(d.skip, 10);
    assert_eq!(d.limit, 10);
    assert_eq!(
        d.excluded,
        vec![
            "policy.location".to_string(),
            "policy.title".to_string(),
            "policy.toto".to_string(),
            "requestDate".to_string(),
            "policyStartDate".to_string(),
            "policyEndDate".to_string(),
        ]
    );
    // pages below 1 are clamped rather than producing a negative skip
    assert_eq!(head_filter(0, 10).unwrap().skip, 0);
    assert_eq!(head_filter(-3, 10).unwrap().skip, 0);
    assert_eq!(head_filter(3, -1).unwrap().skip, 0);
    assert_eq!(head_filter(5, 7).unwrap().skip, 28);
}

#[test]
fn get_date_filter_reads_nested_timestamp() {
    let doc = Json::Obj(vec![(
        "context".to_string(),
        Json::Obj(vec![(
            "requestDate".to_string(),
            Json::Str("1970-01-01T00:00:01Z".to_string()),
        )]),
    )]);
    assert_eq!(get_date_filter(&doc, "context", "requestDate").unwrap(), 1000);
    let err = get_date_filter(&doc, "context", "policyStartDate").unwrap_err();
    assert_eq!(
        err.message(),
        "Context exception : Exception on value context policyStartDate"
    );
}

#[test]
fn oid_validation_and_generation() {
    assert!(!oid_valid("1234"));
    assert!(oid_valid("655c7c5b037c912bb7ce3973"));
    assert!(oid_valid("655C7C5B037C912BB7CE3973"));
    assert!(!oid_valid("655c7c5b037c912bb7ce397g"));
    assert!(!oid_valid("655c7c5b037c912bb7ce39731"));
    let a = fresh_oid(0);
    let b = fresh_oid(1);
    assert_eq!(a, "000000000000000000000000");
    assert_eq!(b, "000000000000000000000001");
    assert_eq!(fresh_oid(0xdead_beef), "0000000000000000deadbeef");
    assert!(oid_valid(a.as_str()) && oid_valid(b.as_str()));
}

#[test]
fn error_messages_render_with_fixed_prefixes() {
    let cases = vec![
        (
            LocalError::ParsingError("a".to_string()),
            "Parsing exception : a",
        ),
        (
            LocalError::OidFormatError("b".to_string()),
            "ObjectId exception : b",
        ),
        (
            LocalError::DataNotFoundError("c".to_string()),
            "Data not found : c",
        ),
        (
            LocalError::ConnectionError("d".to_string()),
            "Connection exception : d",
        ),
        (
            LocalError::ContextError("e".to_string()),
            "Context exception : e",
        ),
        (
            LocalError::FilterDateParsing("f".to_string()),
            "Filter exception : f",
        ),
        (
            LocalError::FilterStringParsing("g".to_string()),
            "Filter exception : g",
        ),
    ];
    for (e, want) in cases {
        let msg = e.message();
        assert_eq!(msg, want);
        let wrapped = middleoffice::error::ApiError::new(e);
        assert_eq!(wrapped.message(), want);
    }
}
