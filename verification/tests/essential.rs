use ar_hist::essential::{add_weekago_info, select_recent, select_recent_checked, Essential, EssentialError};
use ar_hist::instant::{parse_instant, timestamp_valid, Instant, MAX_UTC_SECS, MIN_UTC_SECS};
use ar_hist::text::escape_commas;
use ar_hist::types::{Category, Initiative, ShareStatistic, Shares, User};
use chrono::{Duration, Utc};
use std::ops::Sub;

fn instant_of(t: chrono::DateTime<Utc>) -> Instant {
    Instant::new(t.timestamp(), t.timestamp_subsec_nanos()).unwrap()
}

fn ess(time: Instant, id: i32, views: i32, votes_total: i32, votes_positive: i32, votes_negative: i32, shares_all: i32, comments_count: i32) -> Essential {
    Essential::new(
        time,
        id,
        "0".to_string(),
        1,
        "".to_string(),
        1,
        "\u{0412}\u{0430}\u{0441}\u{044f}".to_string(),
        views,
        votes_total,
        votes_positive,
        votes_negative,
        shares_all,
        comments_count,
        "".to_string(),
        "test".to_string(),
    )
}

#[test]
fn test_add_weekago_info() {
    let last = ess(instant_of(Utc::now()), 1, 3, 7, 4, 3, 10, 1);
    let mut essentials = vec![
        ess(instant_of(Utc::now().sub(Duration::hours(7 * 24 + 1))), 1, 1, 3, 2, 1, 4, 2),
        ess(instant_of(Utc::now().sub(Duration::hours(24))), 1, 2, 5, 3, 2, 6, 3),
        last.clone(),
    ];
    add_weekago_info(&mut essentials);
    assert_eq!(last.eq(&essentials[2]), false, "{:?}\n==\n{:?}", last, &essentials[2]);
}

fn at(secs: i64) -> Instant {
    Instant::new(secs, 0).unwrap()
}

#[test]
fn weekago_uses_latest_snapshot_more_than_164_hours_before() {
    let h = 3600;
    let mut v = vec![
        ess(at(0), 1, 10, 0, 0, 0, 0, 0),
        ess(at(10 * h), 1, 20, 0, 0, 0, 0, 0),
        ess(at(10 * h), 2, 500, 0, 0, 0, 0, 0),
        ess(at(174 * h), 1, 35, 0, 0, 0, 0, 0),
        ess(at(174 * h + 1), 1, 50, 0, 0, 0, 0, 0),
    ];
    add_weekago_info(&mut v);
    assert_eq!(v[0].views_weekagos, 10);
    assert_eq!(v[1].views_weekagos, 20);
    assert_eq!(v[2].views_weekagos, 500);
    // exactly 164 hours after the second one: the first one is used
    assert_eq!(v[3].views_weekagos, 25);
    // more than 164 hours after the second one
    assert_eq!(v[4].views_weekagos, 30);
    let once = v.clone();
    add_weekago_info(&mut v);
    assert_eq!(v, once);
}

#[test]
fn with_weekagos_subtracts_every_count() {
    let mut e = ess(at(100), 1, 10, 20, 30, 40, 50, 60);
    let base = ess(at(0), 1, 1, 2, 3, 4, 5, 6);
    e.with_weekagos(&base);
    assert_eq!(
        (e.views_weekagos, e.votes_total_weekagos, e.votes_positive_weekagos, e.votes_negative_weekagos, e.shares_all_weekagos, e.comments_count_weekagos),
        (9, 18, 27, 36, 45, 54)
    );
    assert_eq!(e.views, 10);
}

fn initiative(id: i32, title: &str) -> Initiative {
    Initiative {
        id,
        user_id: 15590,
        status: "active".to_string(),
        aasm_state: "active".to_string(),
        created_at: "2017-12-25T13:10:14.295+03:00".to_string(),
        published_at: "2017-12-27T15:21:51.590+03:00".to_string(),
        user: User { id: 15590, fullname: "D B".to_string() },
        title: title.to_string(),
        category_id: 9,
        initiative_type: "voting".to_string(),
        positive: 35,
        negative: 12,
        category: Category { id: 9, title: "Roads".to_string() },
        description: "".to_string(),
        expire_date: "2018-03-25T00:00:00.000+03:00".to_string(),
        comments_count: 2,
        watch_count: 258,
        statistic: ShareStatistic {
            shares: Shares::Counts(vec![("ok".to_string(), Some(1)), ("total".to_string(), Some(2)), ("vk".to_string(), Some(1))]),
        },
    }
}

#[test]
fn parse_builds_essentials() {
    let inits = vec![initiative(1067, "Lights, please, now")];
    let v = Essential::parse("2018-01-09T13:26:55.5+03:00", &inits, &vec!["57.5".to_string()]).unwrap();
    assert_eq!(v.len(), 1);
    let e = &v[0];
    assert_eq!(e.time.secs(), 1515493615);
    assert_eq!(e.time.nanos(), 500_000_000);
    assert_eq!(e.id, 1067);
    assert_eq!(e.votes_total, 47);
    assert_eq!(e.shares_all, 4);
    assert_eq!(e.views, 258);
    assert_eq!(e.title, "Lights \u{0417}\u{041f}\u{0422} please \u{0417}\u{041f}\u{0422} now");
    assert_eq!(e.views_weekagos, 258);
    assert_eq!(e.lifetime_percent, "57.5");
}

#[test]
fn parse_rejects_bad_time() {
    let r = Essential::parse("yesterday", &vec![], &vec![]);
    assert!(matches!(r, Err(EssentialError::Time(_))));
}

#[test]
fn parse_accepts_leap_second() {
    let inits = vec![initiative(7, "t")];
    let v = Essential::parse("2016-12-31T23:59:60.25Z", &inits, &vec!["1".to_string()]).unwrap();
    assert_eq!(v.len(), 1);
    assert_eq!(v[0].time.secs(), 1483228799);
    assert_eq!(v[0].time.nanos(), 1_250_000_000);
    assert_eq!(v[0].time.display(), "2016-12-31 23:59:60.250 UTC");
}

#[test]
fn parse_instant_reads_rfc3339() {
    let t = parse_instant("1970-01-01T01:00:01.5+01:00").unwrap();
    assert_eq!((t.secs(), t.nanos()), (1, 500_000_000));
    assert!(parse_instant("1970-01-01").is_err());
}

#[test]
fn csv_line_and_header() {
    let e = ess(Instant::new(1515493615, 0).unwrap(), 5, 3, 7, 4, 3, 10, -1);
    assert_eq!(
        e.csv_line(),
        "2018-01-09 10:26:55 UTC,1515493615,0,5,1,,1,\u{0412}\u{0430}\u{0441}\u{044f},3,4,3,7,10,-1,,test,3,7,4,3,10,-1"
    );
    assert!(Essential::csv_header().starts_with("time,time_utc,lifetime_percent,id,"));
    assert_eq!(Essential::csv_header().split(',').count(), 22);
}

#[test]
fn select_recent_orders_counts_and_keeps_last_eight_days() {
    let day = 24 * 3600;
    let now = at(100 * day);
    let input = vec![
        ess(at(100 * day - 1), 1, 30, 0, 0, 0, 0, 0),
        ess(at(84 * day), 1, 1, 0, 0, 0, 0, 0),
        ess(at(90 * day), 1, 10, 0, 0, 0, 0, 0),
        ess(at(95 * day), 2, 7, 0, 0, 0, 0, 0),
    ];
    let r = select_recent(input, now);
    assert_eq!(r.len(), 2);
    assert_eq!((r[0].id, r[0].views, r[0].views_weekagos), (2, 7, 7));
    assert_eq!((r[1].id, r[1].views, r[1].views_weekagos), (1, 30, 20));
}

#[test]
fn instant_holds_leap_seconds_only_where_chrono_does() {
    let earliest = chrono::DateTime::<Utc>::MIN_UTC.timestamp();
    assert!(Instant::new(0, 2_000_000_000).is_none());
    assert!(Instant::new(0, 1_000_000_000).is_none());
    assert_eq!(Instant::new(59, 1_500_000_000).unwrap().nanos(), 1_500_000_000);
    assert_eq!(Instant::new(-5, 999_999_999).unwrap().secs(), -5);
    assert!(Instant::new(earliest, 0).is_some());
    assert!(Instant::new(earliest - 1, 0).is_none());
}

#[test]
fn hours_before_counts_like_chrono() {
    let t = at(7200).hours_before(1).unwrap();
    assert_eq!((t.secs(), t.nanos()), (3600, 0));
    let leap = Instant::new(59, 1_500_000_000).unwrap().hours_before(1).unwrap();
    assert_eq!((leap.secs(), leap.nanos()), (60 - 3600, 500_000_000));
    let earliest = chrono::DateTime::<Utc>::MIN_UTC.timestamp();
    assert!(at(earliest + 10).hours_before(1).is_none());
}

#[test]
fn more_than_hours_after_counts_like_chrono() {
    let h = 3600;
    assert!(!Instant::more_than_hours_after(at(164 * h), at(0), 164));
    assert!(Instant::more_than_hours_after(at(164 * h + 1), at(0), 164));
    assert!(!Instant::more_than_hours_after(at(0), at(164 * h + 1), 164));
}

#[test]
fn csv_line_of_a_leap_second_has_every_field() {
    let mut e = ess(Instant::new(1483228799, 1_000_000_000).unwrap(), 5, 3, 7, 4, 3, 10, -1);
    e.title = escape_commas("a, b");
    let line = e.csv_line();
    assert!(line.starts_with("2016-12-31 23:59:60 UTC,1483228799,0,5,"));
    assert_eq!(line.split(',').count(), Essential::csv_header().split(',').count());
}

#[test]
fn escape_commas_replaces_every_comma() {
    assert_eq!(escape_commas(",a,,b"), " \u{0417}\u{041f}\u{0422}a \u{0417}\u{041f}\u{0422} \u{0417}\u{041f}\u{0422}b");
    assert_eq!(escape_commas("none"), "none");
}

#[test]
fn select_recent_checked_needs_fifteen_days_of_dates() {
    let leap_now = Instant::new(59, 1_000_000_000).unwrap();
    assert_eq!(select_recent_checked(vec![], leap_now).unwrap().len(), 0);
    let earliest = chrono::DateTime::<Utc>::MIN_UTC.timestamp();
    assert!(select_recent_checked(vec![], at(earliest + 24 * 3600)).is_none());
    let day = 24 * 3600;
    let input = vec![ess(at(95 * day), 2, 7, 0, 0, 0, 0, 0), ess(at(99 * day), 2, 9, 0, 0, 0, 0, 0)];
    let r = select_recent_checked(input, at(100 * day)).unwrap();
    assert_eq!(r.len(), 2);
    assert_eq!((r[1].views, r[1].views_weekagos), (9, 9));
}

#[test]
fn select_recent_checked_refuses_overflowing_growth() {
    let day = 24 * 3600;
    let input = vec![ess(at(91 * day), 2, i32::MIN, 0, 0, 0, 0, 0), ess(at(99 * day), 2, 1, 0, 0, 0, 0, 0)];
    assert!(select_recent_checked(input, at(100 * day)).is_none());
}

#[test]
fn chrono_date_range_matches_library() {
    assert_eq!(chrono::DateTime::<Utc>::MIN_UTC.timestamp(), MIN_UTC_SECS);
    assert_eq!(chrono::DateTime::<Utc>::MAX_UTC.timestamp(), MAX_UTC_SECS);
    assert!(Instant::new(MAX_UTC_SECS, 1_999_999_999).is_some());
    assert!(Instant::new(MAX_UTC_SECS + 1, 0).is_none());
}

#[test]
fn timestamp_valid_agrees_with_from_timestamp() {
    let secs = [MIN_UTC_SECS - 1, MIN_UTC_SECS, MIN_UTC_SECS + 59, -61, -1, 0, 59, 60, 119, MAX_UTC_SECS, MAX_UTC_SECS + 1];
    let nanos = [0u32, 999_999_999, 1_000_000_000, 1_999_999_999, 2_000_000_000];
    for &s in secs.iter() {
        for &n in nanos.iter() {
            assert_eq!(timestamp_valid(s, n), chrono::DateTime::from_timestamp(s, n).is_some(), "{} {}", s, n);
        }
    }
}

#[test]
fn display_of_time_has_no_comma() {
    assert_eq!(Instant::new(1515504415, 123_456_789).unwrap().display(), "2018-01-09 13:26:55.123456789 UTC");
    assert!(!Instant::new(MIN_UTC_SECS, 0).unwrap().display().contains(','));
}
