//! The initiatives published by the portal, as the library reads them.

use vstd::prelude::*;

verus! {

/// The author of an initiative.
#[derive(Debug, Clone)]
pub struct User {
    pub id: i32,
    pub fullname: String,
}

/// The category of an initiative.
#[derive(Debug, Clone)]
pub struct Category {
    pub id: i32,
    pub title: String,
}

/// What the `"shares"` field of an initiative's statistic holds.
#[derive(Debug, Clone)]
pub enum Shares {
    /// The statistic has no `"shares"` field.
    Missing,
    /// The `"shares"` field is not a JSON object.
    NotObject,
    /// The entries of the `"shares"` object in key order, each with its
    /// value where that is an integer that fits in `i64`.
    Counts(Vec<(String, Option<i64>)>),
}

/// The share statistic of an initiative.
#[derive(Debug, Clone)]
pub struct ShareStatistic {
    pub shares: Shares,
}

/// One initiative of a snapshot.
#[derive(Debug, Clone)]
pub struct Initiative {
    pub id: i32,
    pub user_id: i32,
    pub status: String,
    pub aasm_state: String,
    pub created_at: String,
    pub published_at: String,
    pub user: User,
    pub title: String,
    pub category_id: i32,
    pub initiative_type: String,
    pub positive: i32,
    pub negative: i32,
    pub category: Category,
    pub description: String,
    pub expire_date: String,
    pub comments_count: i32,
    pub watch_count: i32,
    pub statistic: ShareStatistic,
}

/// The integer values among the share counts, each cut to 32 bits, added
/// up in order.
pub open spec fn share_total(counts: Seq<Option<i64>>) -> int
    decreases counts.len(),
{
    if counts.len() == 0 {
        0
    } else {
        share_total(counts.drop_last()) + match counts.last() {
            Some(v) => (v as i32) as int,
            None => 0,
        }
    }
}

/// The values of the entries of a `"shares"` object.
pub open spec fn share_values(entries: Seq<(String, Option<i64>)>) -> Seq<Option<i64>> {
    entries.map_values(|e: (String, Option<i64>)| e.1)
}

/// The running total of the share counts stays within `i32`.
pub open spec fn share_total_fits(counts: Seq<Option<i64>>) -> bool {
    forall|k: int| 0 <= k <= counts.len() ==> i32::MIN <= #[trigger] share_total(counts.take(k)) <= i32::MAX
}

/// What the share statistic adds up to: the total of the counts, `-1`
/// where `"shares"` is not an object, `-2` where it is missing.
pub open spec fn share_sum(s: ShareStatistic) -> int {
    match s.shares {
        Shares::Missing => -2,
        Shares::NotObject => -1,
        Shares::Counts(entries) => share_total(share_values(entries@)),
    }
}

/// The sum can be taken without overflowing `i32`.
pub open spec fn share_sum_fits(s: ShareStatistic) -> bool {
    match s.shares {
        Shares::Counts(entries) => share_total_fits(share_values(entries@)),
        _ => true,
    }
}

impl ShareStatistic {
    /// Whether `sum` can be taken without overflowing `i32`.
    pub fn sum_fits(&self) -> (r: bool)
        ensures
            r == share_sum_fits(*self),
    {
        match &self.shares {
            Shares::Counts(entries) => {
                let ghost counts = share_values(entries@);
                let mut total: i64 = 0;
                let mut i: usize = 0;
                assert(share_sum_fits(*self) == share_total_fits(counts));
                assert(counts.len() == entries@.len());
                assert(counts.take(0) =~= Seq::<Option<i64>>::empty());
                while i < entries.len()
                    invariant
                        i <= entries.len(),
                        counts == share_values(entries@),
                        share_sum_fits(*self) == share_total_fits(counts),
                        counts.len() == entries@.len(),
                        total == share_total(counts.take(i as int)),
                        forall|k: int| 0 <= k <= i ==> i32::MIN <= #[trigger] share_total(counts.take(k)) <= i32::MAX,
                    decreases entries.len() - i,
                {
                    proof {
                        assert(counts.take(i + 1).drop_last() =~= counts.take(i as int));
                        assert(counts.take(i + 1).last() == entries@[i as int].1);
                    }
                    if let Some(v) = entries[i].1 {
                        total = total + (v as i32) as i64;
                    }
                    if total < i32::MIN as i64 || total > i32::MAX as i64 {
                        assert(!(i32::MIN <= share_total(counts.take(i + 1)) <= i32::MAX));
                        assert(i + 1 <= counts.len());
                        assert(!share_total_fits(counts));
                        return false;
                    }
                    i += 1;
                }
                assert(counts.take(entries.len() as int) =~= counts);
                true
            },
            _ => true,
        }
    }

    /// The total number of shares of every kind.
    pub fn sum(&self) -> (r: i32)
        requires
            share_sum_fits(*self),
        ensures
            r == share_sum(*self),
    {
        match &self.shares {
            Shares::Missing => -2,
            Shares::NotObject => -1,
            Shares::Counts(entries) => {
                let ghost counts = share_values(entries@);
                let mut sum: i32 = 0;
                let mut i: usize = 0;
                while i < entries.len()
                    invariant
                        i <= entries.len(),
                        counts == share_values(entries@),
                        share_total_fits(counts),
                        sum == share_total(counts.take(i as int)),
                    decreases entries.len() - i,
                {
                    proof {
                        assert(counts.take(i + 1).drop_last() =~= counts.take(i as int));
                        assert(counts.take(i + 1).last() == entries@[i as int].1);
                        assert(i32::MIN <= share_total(counts.take(i + 1)) <= i32::MAX);
                    }
                    if let Some(v) = entries[i].1 {
                        sum = sum + (v as i32);
                    }
                    i += 1;
                }
                assert(counts.take(entries.len() as int) =~= counts);
                sum
            },
        }
    }
}


/// What the share statistic adds up to: `-2` where there is no
/// `"shares"` field, `-1` where it is not an object, and otherwise the
/// sum of its integer counts, each cut to 32 bits, other values counting
/// nothing: no counts add up to nothing, and one more count adds its
/// value, or nothing where it is not an integer.
pub proof fn law_share_sum(s: ShareStatistic, counts: Seq<Option<i64>>, v: i64)
    ensures
        s.shares is Missing ==> share_sum(s) == -2,
        s.shares is NotObject ==> share_sum(s) == -1,
        s.shares matches Shares::Counts(entries) ==> share_sum(s) == share_total(share_values(entries@)),
        share_total(Seq::empty()) == 0,
        share_total(counts.push(Some(v))) == share_total(counts) + (v as i32),
        share_total(counts.push(None)) == share_total(counts),
{
    assert(counts.push(Some(v)).drop_last() =~= counts);
    assert(counts.push(None).drop_last() =~= counts);
}

} // verus!
