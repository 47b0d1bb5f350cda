use ar_hist::json_items::JsonItem;
use ar_hist::merge::{classify, merge, ItemStatus};

fn items(text: &str) -> Vec<JsonItem> {
    JsonItem::parse_array(text).unwrap()
}

fn text(v: &Vec<JsonItem>) -> String {
    JsonItem::write_array(v)
}

#[test]
fn merge_into_empty_copies_latest() {
    let mut all = Vec::new();
    let mut latest = items(r#"[{"id":1},{"x":2}]"#);
    merge(&mut all, &mut latest);
    assert_eq!(text(&all), r#"[{"id":1},{"x":2}]"#);
    assert_eq!(text(&latest), r#"[{"id":1},{"x":2}]"#);
}

#[test]
fn merge_sorts_out_unchanged_changed_and_new() {
    let mut all = items(r#"[{"id":1,"v":1},{"id":2,"v":1},{"id":3,"v":1}]"#);
    let mut latest = items(r#"[{"id":2,"v":2},{"id":1,"v":1},{"id":4,"v":1}]"#);
    merge(&mut all, &mut latest);
    assert_eq!(text(&all), r#"[{"id":1,"v":1},{"id":3,"v":1},{"id":2,"v":2},{"id":4,"v":1}]"#);
    assert_eq!(text(&latest), r#"[{"id":2,"v":2},{"id":4,"v":1}]"#);
}

#[test]
fn merge_with_duplicate_ids_in_snapshot() {
    let mut all = items(r#"[{"id":4,"v":"a"}]"#);
    let mut latest = items(r#"[{"id":4,"v":"a"},{"id":4,"v":"b"}]"#);
    merge(&mut all, &mut latest);
    assert_eq!(text(&all), r#"[{"id":4,"v":"b"}]"#);
    assert_eq!(text(&latest), "[]");
}

#[test]
fn merge_same_snapshot_twice_keeps_nothing() {
    let mut all = items(r#"[{"id":1,"v":0}]"#);
    let mut first = items(r#"[{"id":1,"v":1},{"id":2,"v":1}]"#);
    let mut second = items(r#"[{"id":1,"v":1},{"id":2,"v":1}]"#);
    merge(&mut all, &mut first);
    merge(&mut all, &mut second);
    assert_eq!(text(&second), "[]");
}

#[test]
fn classify_compares_values() {
    let all = items(r#"[{"id":1,"v":1},{"id":1,"v":2}]"#);
    let latest = items(r#"[{"v":1,"id":1},{"id":1,"v":2},{"id":7}]"#);
    assert_eq!(classify(&all, &latest[0]), ItemStatus::Unchanged);
    assert_eq!(classify(&all, &latest[1]), ItemStatus::Changed);
    assert_eq!(classify(&all, &latest[2]), ItemStatus::New);
}

#[test]
fn items_keep_id_and_compact_text() {
    let v = items(r#"[ {"id": -3, "b": null}, {"id": 18446744073709551615}, {"id":"7"}, 5 ]"#);
    assert_eq!(v[0].id(), Some(-3));
    assert_eq!(v[0].text(), r#"{"b":null,"id":-3}"#);
    assert_eq!(v[1].id(), None);
    assert_eq!(v[2].id(), None);
    assert_eq!(v[3].id(), None);
    assert_eq!(v[3].text(), "5");
    assert_eq!(v[0].duplicate().text(), v[0].text());
    assert!(JsonItem::parse_array("not json").is_err());
}

#[test]
fn merge_keeps_distinct_ids_with_newest_versions() {
    let mut all = items(r#"[{"id":1,"v":1},{"id":2,"v":1},{"id":5,"v":1}]"#);
    let mut latest = items(r#"[{"id":2,"v":3},{"id":9,"v":1},{"id":1,"v":1}]"#);
    merge(&mut all, &mut latest);
    let ids: Vec<Option<i64>> = all.iter().map(|x| x.id()).collect();
    assert_eq!(ids, vec![Some(1), Some(5), Some(2), Some(9)]);
    assert_eq!(text(&all), r#"[{"id":1,"v":1},{"id":5,"v":1},{"id":2,"v":3},{"id":9,"v":1}]"#);
}
