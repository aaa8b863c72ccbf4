use middleoffice::json::Json;
use middleoffice::models::Policy;
use middleoffice::store::DocumentStore;

fn ctx(rd: &str, sd: &str, ed: &str) -> (String, Json) {
    (
        "context".to_string(),
        Json::Obj(vec![
            ("requestDate".to_string(), Json::Str(rd.to_string())),
            ("policyStartDate".to_string(), Json::Str(sd.to_string())),
            ("policyEndDate".to_string(), Json::Str(ed.to_string())),
        ]),
    )
}

fn sample_doc(extra_key: &str, extra_val: Json) -> Json {
    Json::Obj(vec![
        ctx(
            "2023-01-01T00:00:00Z",
            "2023-02-01T00:00:00Z",
            "2024-01-01T00:00:00Z",
        ),
        (extra_key.to_string(), extra_val),
    ])
}

fn created_id(p: Policy) -> String {
    match p.content {
        Json::Str(s) => s,
        _ => panic!("create should return the new identifier as content"),
    }
}

#[test]
fn create_then_get_round_trip() {
    let mut store = DocumentStore::new();
    let doc = sample_doc("source", Json::Str("Dummy".to_string()));
    let created = store.create_any_at(doc, 42_000).unwrap();
    assert!(created.id.is_none());
    let id = created_id(created);
    assert_eq!(id.len(), 24);

    let got = store.get_any(&id).unwrap();
    assert!(got.id.is_none());
    let content = got.content;
    assert!(content
        .get("source")
        .unwrap()
        .deep_eq(&Json::Str("Dummy".to_string())));
    assert!(content
        .get("requestDate")
        .unwrap()
        .deep_eq(&Json::Date(1_672_531_200_000)));
    assert!(content
        .get("policyStartDate")
        .unwrap()
        .deep_eq(&Json::Date(1_675_209_600_000)));
    assert!(content
        .get("policyEndDate")
        .unwrap()
        .deep_eq(&Json::Date(1_704_067_200_000)));
    assert!(content
        .get("integrationDate")
        .unwrap()
        .deep_eq(&Json::Date(42_000)));
    // the untouched context passes through
    assert!(content.get("context").is_some());
}

#[test]
fn create_rejects_non_object() {
    let mut store = DocumentStore::new();
    let err = store
        .create_any_at(Json::Str("nope".to_string()), 0)
        .unwrap_err();
    assert_eq!(
        err.message(),
        "Parsing exception : Document creation exception"
    );
}

#[test]
fn create_rejects_missing_or_bad_dates() {
    let mut store = DocumentStore::new();
    let no_context = Json::Obj(vec![("a".to_string(), Json::Int(1))]);
    let err = store.create_any_at(no_context, 0).unwrap_err();
    assert_eq!(err.message(), "Context exception : Invalid requestDate");

    let bad_start = Json::Obj(vec![(
        "context".to_string(),
        Json::Obj(vec![
            (
                "requestDate".to_string(),
                Json::Str("2023-01-01T00:00:00Z".to_string()),
            ),
            (
                "policyStartDate".to_string(),
                Json::Str("not a date".to_string()),
            ),
            (
                "policyEndDate".to_string(),
                Json::Str("2024-01-01T00:00:00Z".to_string()),
            ),
        ]),
    )]);
    let err = store.create_any_at(bad_start, 0).unwrap_err();
    assert_eq!(err.message(), "Context exception : Invalid policyStartDate");

    let no_end = Json::Obj(vec![(
        "context".to_string(),
        Json::Obj(vec![
            (
                "requestDate".to_string(),
                Json::Str("2023-01-01T00:00:00Z".to_string()),
            ),
            (
                "policyStartDate".to_string(),
                Json::Str("2023-02-01T00:00:00Z".to_string()),
            ),
        ]),
    )]);
    let err = store.create_any_at(no_end, 0).unwrap_err();
    assert_eq!(err.message(), "Context exception : Invalid policyEndDate");
}

#[test]
fn get_api_oid_error() {
    let store = DocumentStore::new();
    let err = store.get_any(&"1234".to_string()).unwrap_err();
    assert_eq!(
        err.message(),
        "ObjectId exception : ObjectId wrongly structure."
    );
}

#[test]
fn get_api_oid_not_found() {
    let store = DocumentStore::new();
    let err = store
        .get_any(&"655c7c5b037c912bb7ce3973".to_string())
        .unwrap_err();
    assert_eq!(err.message(), "Data not found : No result.");
}

#[test]
fn get_api_delete_not_found() {
    let mut store = DocumentStore::new();
    let err = store
        .delete_any(&"654a03b71dd74c6443810c2f".to_string())
        .unwrap_err();
    assert_eq!(err.message(), "Data not found : No result.");
}

#[test]
fn delete_rejects_bad_oid() {
    let mut store = DocumentStore::new();
    let err = store.delete_any(&"zz".to_string()).unwrap_err();
    assert_eq!(err.message(), "ObjectId exception : Wrong structure.");
}

#[test]
fn get_api_put_not_found() {
    let mut store = DocumentStore::new();
    let body = Json::Obj(vec![("source".to_string(), Json::Str("Dummy".to_string()))]);
    let err = store
        .update_any_at(body, "655c7c41037c412bb7ce6971".to_string(), 0)
        .unwrap_err();
    assert_eq!(
        err.message(),
        "Connection exception : Get policy failed: Data not found : No result.."
    );
}

#[test]
fn update_wraps_create_failure() {
    let mut store = DocumentStore::new();
    let id = created_id(
        store
            .create_any_at(sample_doc("n", Json::Int(1)), 5)
            .unwrap(),
    );
    // new content without context dates: the inner create rejects it
    let bad = Json::Obj(vec![("source".to_string(), Json::Str("x".to_string()))]);
    let err = store.update_any_at(bad, id.clone(), 6).unwrap_err();
    assert_eq!(
        err.message(),
        "Connection exception : Create policy failed : Context exception : Invalid requestDate."
    );
    // the failed update left the store unchanged
    assert!(store.get_any(&id).is_ok());
    assert_eq!(store.history.len(), 0);
}

#[test]
fn update_chain_growth() {
    let mut store = DocumentStore::new();
    let id1 = created_id(
        store
            .create_any_at(sample_doc("v", Json::Int(1)), 10)
            .unwrap(),
    );
    let id2 = created_id(
        store
            .update_any_at(sample_doc("v", Json::Int(2)), id1.clone(), 20)
            .unwrap(),
    );
    let got = store.get_any(&id2).unwrap().content;
    let chain1 = Json::Arr(vec![Json::Str(id1.clone())]);
    assert!(got.get("previousObjectIds").unwrap().deep_eq(&chain1));

    let id3 = created_id(
        store
            .update_any_at(sample_doc("v", Json::Int(3)), id2.clone(), 30)
            .unwrap(),
    );
    let got = store.get_any(&id3).unwrap().content;
    let chain2 = Json::Arr(vec![Json::Str(id2.clone()), Json::Str(id1.clone())]);
    assert!(got.get("previousObjectIds").unwrap().deep_eq(&chain2));
}

#[test]
fn update_history_append_only() {
    let mut store = DocumentStore::new();
    let id1 = created_id(
        store
            .create_any_at(sample_doc("v", Json::Int(1)), 10)
            .unwrap(),
    );
    let before = store.get_any(&id1).unwrap().content;
    assert_eq!(store.history.len(), 0);
    store
        .update_any_at(sample_doc("v", Json::Int(2)), id1.clone(), 20)
        .unwrap();
    assert_eq!(store.history.len(), 1);
    assert!(store.history[0].deep_eq(&before));
    // the superseded identifier no longer resolves
    let err = store.get_any(&id1).unwrap_err();
    assert_eq!(err.message(), "Data not found : No result.");
    // nothing was archived as deleted
    assert_eq!(store.deleted.len(), 0);
}

#[test]
fn update_with_empty_content_reuses_original() {
    let mut store = DocumentStore::new();
    let id1 = created_id(
        store
            .create_any_at(sample_doc("kept", Json::Str("yes".to_string())), 10)
            .unwrap(),
    );
    let id2 = created_id(
        store
            .update_any_at(Json::Obj(vec![]), id1.clone(), 20)
            .unwrap(),
    );
    let got = store.get_any(&id2).unwrap().content;
    assert!(got
        .get("kept")
        .unwrap()
        .deep_eq(&Json::Str("yes".to_string())));
    assert!(got
        .get("previousObjectIds")
        .unwrap()
        .deep_eq(&Json::Arr(vec![Json::Str(id1.clone())])));
    // the reused content is re-stamped at the new integration time
    assert!(got
        .get("integrationDate")
        .unwrap()
        .deep_eq(&Json::Date(20)));
}

#[test]
fn delete_archival_exclusivity() {
    let mut store = DocumentStore::new();
    let id = created_id(
        store
            .create_any_at(sample_doc("v", Json::Int(7)), 10)
            .unwrap(),
    );
    let before = store.get_any(&id).unwrap().content;
    let res = store.delete_any(&id).unwrap();
    assert_eq!(res.deleted_count, 1);
    let err = store.get_any(&id).unwrap_err();
    assert_eq!(err.message(), "Data not found : No result.");
    assert_eq!(store.deleted.len(), 1);
    assert!(store.deleted[0].deep_eq(&before));
    // history is untouched by a delete
    assert_eq!(store.history.len(), 0);
}

#[test]
fn list_requires_a_filter() {
    let store = DocumentStore::new();
    let err = store.get_all_any(None, None, (1, 10)).unwrap_err();
    assert_eq!(err.message(), "Parsing exception : No filter defined.");
    let err = store.count_all_any(None, None).unwrap_err();
    assert_eq!(err.message(), "Parsing exception : No filter defined.");
}

#[test]
fn list_date_takes_precedence_over_policyholder() {
    let mut store = DocumentStore::new();
    let policy = Json::Obj(vec![("name".to_string(), Json::Str("alice".to_string()))]);
    store
        .create_any_at(sample_doc("policy", policy), 10)
        .unwrap();
    // the policyholder filter alone matches
    let by_holder = store
        .get_all_any(None, Some("alice".to_string()), (1, 10))
        .unwrap();
    assert_eq!(by_holder.len(), 1);
    // with both filters, the far-future date filter wins and excludes all
    let both = store
        .get_all_any(
            Some("2100-01-01T00:00:00Z".to_string()),
            Some("alice".to_string()),
            (1, 10),
        )
        .unwrap();
    assert_eq!(both.len(), 0);
}

#[test]
fn list_pagination_skips_matches() {
    let mut store = DocumentStore::new();
    for i in 0..15 {
        store
            .create_any_at(sample_doc("mark", Json::Int(i)), 10)
            .unwrap();
    }
    let date = Some("2022-01-01T00:00:00Z".to_string());
    let page1 = store.get_all_any(date.clone(), None, (1, 10)).unwrap();
    assert_eq!(page1.len(), 10);
    let page2 = store.get_all_any(date.clone(), None, (2, 10)).unwrap();
    assert_eq!(page2.len(), 5);
    // page 2 holds the matches after the first 10, in insertion order
    for (k, p) in page2.iter().enumerate() {
        assert!(p.content.get("mark").unwrap().deep_eq(&Json::Int(10 + k as i64)));
    }
    let count = store.count_all_any(date, None).unwrap();
    assert_eq!(count, 15);
}

#[test]
fn list_applies_projection() {
    let mut store = DocumentStore::new();
    let policy = Json::Obj(vec![
        ("name".to_string(), Json::Str("alice".to_string())),
        ("location".to_string(), Json::Str("paris".to_string())),
        ("title".to_string(), Json::Str("architect".to_string())),
    ]);
    store
        .create_any_at(sample_doc("policy", policy), 10)
        .unwrap();
    let listed = store
        .get_all_any(None, Some("alice".to_string()), (1, 10))
        .unwrap();
    assert_eq!(listed.len(), 1);
    let content = &listed[0].content;
    // the derived date fields are hidden from listings
    assert!(content.get("requestDate").is_none());
    assert!(content.get("policyStartDate").is_none());
    assert!(content.get("policyEndDate").is_none());
    // nested excluded fields are hidden, the rest of the object remains
    let p = content.get("policy").unwrap();
    assert!(p.get("location").is_none());
    assert!(p.get("title").is_none());
    assert!(p.get("name").unwrap().deep_eq(&Json::Str("alice".to_string())));
    // a field outside the exclusion set survives
    assert!(content.get("integrationDate").is_some());
}

#[test]
fn count_with_no_match() {
    let mut store = DocumentStore::new();
    store
        .create_any_at(sample_doc("v", Json::Int(1)), 10)
        .unwrap();
    let count = store
        .count_all_any(None, Some("nobody".to_string()))
        .unwrap();
    assert_eq!(count, 0);
}

#[test]
fn update_with_current_time_grows_chain() {
    let mut store = DocumentStore::new();
    let id1 = created_id(store.create_any(sample_doc("v", Json::Int(1))).unwrap());
    let id2 = created_id(
        store
            .update_any(sample_doc("v", Json::Int(2)), id1.clone())
            .unwrap(),
    );
    let got = store.get_any(&id2).unwrap().content;
    assert!(got
        .get("previousObjectIds")
        .unwrap()
        .deep_eq(&Json::Arr(vec![Json::Str(id1)])));
    assert_eq!(store.history.len(), 1);
}

#[test]
fn create_with_current_time_stamps_integration_date() {
    let mut store = DocumentStore::new();
    let id = created_id(store.create_any(sample_doc("v", Json::Int(1))).unwrap());
    let got = store.get_any(&id).unwrap().content;
    match got.get("integrationDate") {
        Some(Json::Date(ms)) => assert!(*ms > 1_600_000_000_000),
        other => panic!("integrationDate should be a date, got {:?}", other.is_some()),
    }
}
