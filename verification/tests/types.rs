use ar_hist::types::{ShareStatistic, Shares};

fn counts(entries: &[(&str, Option<i64>)]) -> ShareStatistic {
    ShareStatistic {
        shares: Shares::Counts(entries.iter().map(|(k, v)| (k.to_string(), *v)).collect()),
    }
}

#[test]
fn share_stat_sum() {
    // {"shares": {"ok": 1, "vk": 1, "total": 2}}, entries in key order
    let ss = counts(&[("ok", Some(1)), ("total", Some(2)), ("vk", Some(1))]);
    assert_eq!(4, ss.sum());
}

#[test]
fn share_stat_without_shares() {
    assert_eq!(-2, ShareStatistic { shares: Shares::Missing }.sum());
}

#[test]
fn share_stat_shares_not_object() {
    assert_eq!(-1, ShareStatistic { shares: Shares::NotObject }.sum());
}

#[test]
fn share_stat_skips_non_integers_and_cuts_to_32_bits() {
    let ss = counts(&[("a", None), ("b", Some(4_294_967_297)), ("c", Some(-3))]);
    assert_eq!(-2, ss.sum());
    assert_eq!(0, counts(&[]).sum());
}
