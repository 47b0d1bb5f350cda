use ar_hist::snapshots::{filter_snapshots_checked, filter_spahshots, merged_snapshots, FilterError};

fn owned(v: Vec<(&str, &str)>) -> Vec<(String, String)> {
    v.into_iter().map(|(k, v)| (k.to_string(), v.to_string())).collect()
}

#[test]
fn not_filter_when_nothing_to() {
    let orig = || vec![("a", r#"[{"a":"b","id":4}]"#)];
    let filt = filter_spahshots(orig()).unwrap();
    assert_eq!(filt, owned(orig()));
}

#[test]
fn filter_identical() {
    let orig = vec![
        ("a", r#"[{"a":"b","id":4}]"#),
        ("b", r#"[{"a":"b","id":4}]"#),
        ("c", r#"[{"a":"b","id":4}, {"e":{"r":321},"id":11}]"#),
        ("d", r#"[{"a":"q","id":4}, {"e":{"r":321},"id":11}]"#),
    ];
    let expect = vec![
        ("a", r#"[{"a":"b","id":4}]"#),
        ("b", r#"[]"#),
        ("c", r#"[{"e":{"r":321},"id":11}]"#),
        ("d", r#"[{"a":"q","id":4}]"#),
    ];
    let filt = filter_spahshots(orig).unwrap();
    assert_eq!(filt, owned(expect));
}

#[test]
fn first_snapshot_is_written_compact_and_sorted() {
    let filt = filter_spahshots(vec![("k", r#"[ {"id": 2, "b": [1, 2]} , {"id":1} ]"#)]).unwrap();
    assert_eq!(filt, owned(vec![("k", r#"[{"b":[1,2],"id":2},{"id":1}]"#)]));
}

#[test]
fn repeated_snapshot_is_filtered_out() {
    let s = r#"[{"id":1,"v":"x"},{"id":2,"v":"y"}]"#;
    let filt = filter_spahshots(vec![("t1", s), ("t2", s), ("t3", s)]).unwrap();
    assert_eq!(filt, owned(vec![("t1", s), ("t2", "[]"), ("t3", "[]")]));
}

#[test]
fn equal_values_with_different_key_order_are_unchanged() {
    let filt = filter_spahshots(vec![
        ("t1", r#"[{"id":1,"v":"x"}]"#),
        ("t2", r#"[{"v":"x","id":1}]"#),
    ])
    .unwrap();
    assert_eq!(filt, owned(vec![("t1", r#"[{"id":1,"v":"x"}]"#), ("t2", "[]")]));
}

#[test]
fn changed_item_comes_back_when_it_returns_to_an_old_value() {
    let filt = filter_spahshots(vec![
        ("t1", r#"[{"id":1,"v":1}]"#),
        ("t2", r#"[{"id":1,"v":2}]"#),
        ("t3", r#"[{"id":1,"v":1}]"#),
    ])
    .unwrap();
    assert_eq!(
        filt,
        owned(vec![("t1", r#"[{"id":1,"v":1}]"#), ("t2", r#"[{"id":1,"v":2}]"#), ("t3", r#"[{"id":1,"v":1}]"#)])
    );
}

#[test]
fn empty_first_snapshot_allows_items_without_id() {
    let filt = filter_spahshots(vec![("t0", "[]"), ("t1", r#"[{"x":1}]"#)]).unwrap();
    assert_eq!(filt, owned(vec![("t0", "[]"), ("t1", r#"[{"x":1}]"#)]));
}

#[test]
fn invalid_snapshot_reports_its_index() {
    let r = filter_spahshots(vec![("t0", r#"[{"id":1}]"#), ("t1", "{not json"), ("t2", "also bad")]);
    match r {
        Err(FilterError::InvalidJson { index, .. }) => assert_eq!(index, 1),
        other => panic!("unexpected {:?}", other),
    }
}

#[test]
fn non_array_snapshot_is_invalid() {
    let r = filter_spahshots(vec![("t0", r#"{"id":1}"#)]);
    assert!(matches!(r, Err(FilterError::InvalidJson { index: 0, .. })));
}

#[test]
fn checked_filter_refuses_item_without_id_after_history() {
    let r = filter_snapshots_checked(vec![("t0", r#"[{"id":1}]"#), ("t1", r#"[{"name":"x"}]"#)]);
    assert!(r.is_none());
    let r = filter_snapshots_checked(vec![("t0", r#"[{"id":"1"}]"#), ("t1", r#"[{"id":1}]"#)]);
    assert!(r.is_none());
}

#[test]
fn checked_filter_runs_the_filter() {
    let r = filter_snapshots_checked(vec![("t0", r#"[{"id":1}]"#), ("t1", r#"[{"id":1},{"id":3}]"#)]);
    assert_eq!(r.unwrap().unwrap(), owned(vec![("t0", r#"[{"id":1}]"#), ("t1", r#"[{"id":3}]"#)]));
}

#[test]
fn merged_snapshots_accumulate_history() {
    let r = merged_snapshots(vec![
        ("t0", r#"[{"id":1,"v":1},{"id":2,"v":1}]"#),
        ("t1", r#"[{"id":2,"v":2},{"id":3,"v":1}]"#),
        ("t2", r#"[{"id":1,"v":1}]"#),
    ])
    .unwrap();
    assert_eq!(
        r,
        owned(vec![
            ("t0", r#"[{"id":1,"v":1},{"id":2,"v":1}]"#),
            ("t1", r#"[{"id":1,"v":1},{"id":2,"v":2},{"id":3,"v":1}]"#),
            ("t2", r#"[{"id":1,"v":1},{"id":2,"v":2},{"id":3,"v":1}]"#),
        ])
    );
}

#[test]
fn merged_snapshots_report_missing_id() {
    let r = merged_snapshots(vec![("t0", r#"[{"id":1}]"#), ("t1", r#"[{"id":1.5}]"#)]);
    assert!(matches!(r, Err(FilterError::MissingId { index: 1 })));
}

#[test]
fn filtered_history_merges_back_to_the_same_states() {
    let orig = vec![
        ("t0", r#"[{"id":1,"v":1},{"id":2,"v":1}]"#),
        ("t1", r#"[{"id":1,"v":1},{"id":2,"v":2},{"id":3,"v":1}]"#),
        ("t2", r#"[{"id":2,"v":2}]"#),
    ];
    let filt = filter_spahshots(orig.clone()).unwrap();
    let filt_ref: Vec<(&str, &str)> = filt.iter().map(|(k, v)| (k.as_str(), v.as_str())).collect();
    assert_eq!(merged_snapshots(filt_ref).unwrap(), merged_snapshots(orig).unwrap());
}

#[test]
fn filtering_a_filtered_history_removes_nothing_more() {
    let orig = vec![
        ("t0", r#"[{"id":1,"v":1},{"id":2,"v":1}]"#),
        ("t1", r#"[{"id":1,"v":1},{"id":2,"v":2}]"#),
        ("t2", r#"[{"id":1,"v":1},{"id":2,"v":2}]"#),
    ];
    let filt = filter_spahshots(orig).unwrap();
    let filt_ref: Vec<(&str, &str)> = filt.iter().map(|(k, v)| (k.as_str(), v.as_str())).collect();
    assert_eq!(filter_spahshots(filt_ref).unwrap(), filt);
}
