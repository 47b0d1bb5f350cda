use ar_hist::paging::{first_request, initiatives_url, next_request, page_outcome, parse_page, FetchOutcome, PageRequest};
use ar_hist::sql::{create_kv_table_sql, select_kv_sql, upsert_kv_sql};

#[test]
fn download_retries_then_moves_on() {
    let mut r = first_request();
    assert_eq!(r, PageRequest { page: 1, attempt: 1 });
    for attempt in 2..=4 {
        r = next_request(r, FetchOutcome::Failed).unwrap();
        assert_eq!(r, PageRequest { page: 1, attempt });
    }
    r = next_request(r, FetchOutcome::Failed).unwrap();
    assert_eq!(r, PageRequest { page: 2, attempt: 1 });
    r = next_request(r, FetchOutcome::Items).unwrap();
    assert_eq!(r, PageRequest { page: 3, attempt: 1 });
    assert_eq!(next_request(r, FetchOutcome::Empty), None);
}

#[test]
fn download_stops_after_last_page() {
    let last = PageRequest { page: 99, attempt: 1 };
    assert_eq!(next_request(last, FetchOutcome::Items), None);
    let last_try = PageRequest { page: 99, attempt: 4 };
    assert_eq!(next_request(last_try, FetchOutcome::Failed), None);
}

#[test]
fn download_makes_at_most_396_requests() {
    let mut r = Some(first_request());
    let mut n = 0;
    while let Some(cur) = r {
        n += 1;
        r = next_request(cur, FetchOutcome::Failed);
    }
    assert_eq!(n, 396);
}

#[test]
fn url_of_page() {
    assert_eq!(
        initiatives_url(7, None),
        "http://ar.rostov-gorod.ru/initiatives.json?filter%5Binitiative_from%5D=&order=1&page=7"
    );
    assert_eq!(
        initiatives_url(12, Some("active")),
        "http://ar.rostov-gorod.ru/initiatives.json?filter%5Binitiative_from%5D=&order=1&page=12&filter%5Baasm_state%5D=active"
    );
    assert!(initiatives_url(-3, None).ends_with("&page=-3"));
}

#[test]
fn sql_statements() {
    assert_eq!(select_kv_sql("kv"), "SELECT k, v FROM kv");
    assert_eq!(
        upsert_kv_sql("snaps"),
        "INSERT INTO snaps (k, v) VALUES ($1, $2) ON CONFLICT (k) DO UPDATE SET v=EXCLUDED.v"
    );
    assert_eq!(
        create_kv_table_sql("t"),
        "CREATE TABLE IF NOT EXISTS t (\n                    k   VARCHAR PRIMARY KEY,\n                    v   VARCHAR NOT NULL\n                  )"
    );
}

#[test]
fn page_body_parses_into_items() {
    let page = parse_page(br#"[{"id":3,"title":"x"}]"#);
    assert_eq!(page.as_ref().unwrap()[0].id(), Some(3));
    assert_eq!(page.as_ref().unwrap()[0].text(), r#"{"id":3,"title":"x"}"#);
    assert_eq!(page_outcome(&page), FetchOutcome::Items);
    let empty = parse_page(b"[]");
    assert_eq!(page_outcome(&empty), FetchOutcome::Empty);
}

#[test]
fn bad_page_body_is_a_failure() {
    let bad_utf8 = parse_page(&[0x5b, 0xff, 0x5d]);
    assert!(bad_utf8.is_none());
    assert_eq!(page_outcome(&bad_utf8), FetchOutcome::Failed);
    assert!(parse_page(b"{\"id\":1}").is_none());
    assert!(parse_page(b"<html>").is_none());
}
