//! The essential figures of an initiative at the time of a snapshot, and
//! how they changed over the week before.

use vstd::prelude::*;
use crate::instant::{
    hours_before_rank, is_before, parse_instant, rfc3339_utc, utc_display, utc_hours_earlier,
    utc_more_than_hours, Instant,
};
use crate::text::{
    comma_count, comma_escaped, comma_free, comma_joined, replaced, decimal_i64, decimal_text, escape_commas,
    join_with_commas, lemma_decimal_comma_free, lemma_joined_comma_count,
};
use crate::seqs::{lemma_filter_keeps_all, lemma_filter_keeps_none};
use crate::types::{share_sum, share_sum_fits, Initiative};

verus! {

/// The figures of one initiative in one snapshot. The `*_weekagos`
/// fields hold how much each count grew since a snapshot taken about a
/// week before (the count itself when there is none).
#[derive(Debug, Clone, PartialEq)]
pub struct Essential {
    pub time: Instant,
    pub id: i32,
    pub lifetime_percent: String,
    pub cat_id: i32,
    pub cat_title: String,
    pub user_id: i32,
    pub user_fullname: String,
    pub views: i32,
    pub votes_total: i32,
    pub votes_positive: i32,
    pub votes_negative: i32,
    pub shares_all: i32,
    pub comments_count: i32,
    pub status: String,
    pub title: String,
    pub views_weekagos: i32,
    pub votes_total_weekagos: i32,
    pub votes_positive_weekagos: i32,
    pub votes_negative_weekagos: i32,
    pub shares_all_weekagos: i32,
    pub comments_count_weekagos: i32,
}

/// Each count of `e` minus the one of `base` fits in `i32`.
pub open spec fn deltas_fit(e: Essential, base: Essential) -> bool {
    &&& i32::MIN <= e.views - base.views <= i32::MAX
    &&& i32::MIN <= e.votes_total - base.votes_total <= i32::MAX
    &&& i32::MIN <= e.votes_positive - base.votes_positive <= i32::MAX
    &&& i32::MIN <= e.votes_negative - base.votes_negative <= i32::MAX
    &&& i32::MIN <= e.shares_all - base.shares_all <= i32::MAX
    &&& i32::MIN <= e.comments_count - base.comments_count <= i32::MAX
}

/// `e` with its growth counted from `base`.
pub open spec fn with_deltas(e: Essential, base: Essential) -> Essential {
    Essential {
        views_weekagos: (e.views - base.views) as i32,
        votes_total_weekagos: (e.votes_total - base.votes_total) as i32,
        votes_positive_weekagos: (e.votes_positive - base.votes_positive) as i32,
        votes_negative_weekagos: (e.votes_negative - base.votes_negative) as i32,
        shares_all_weekagos: (e.shares_all - base.shares_all) as i32,
        comments_count_weekagos: (e.comments_count - base.comments_count) as i32,
        ..e
    }
}

/// The hours that must pass between two snapshots for the earlier one to
/// count as a week before: six days and twenty hours.
pub const WEEK_AGO_HOURS: i64 = 164;

/// The latest index below `j` of an essential of the same initiative as
/// `s[i]` taken more than six days and twenty hours before it.
pub open spec fn week_ago_index(s: Seq<Essential>, i: int, j: int) -> Option<int>
    decreases j,
{
    if j <= 0 {
        None
    } else if s[j - 1].id == s[i].id && utc_more_than_hours(
        s[j - 1].time.secs_spec(),
        s[j - 1].time.nanos_spec(),
        s[i].time.secs_spec(),
        s[i].time.nanos_spec(),
        164,
    ) {
        Some(j - 1)
    } else {
        week_ago_index(s, i, j - 1)
    }
}

/// `s[i]` with its growth counted from the essential a week before it,
/// where there is one.
pub open spec fn with_week_ago(s: Seq<Essential>, i: int) -> Essential {
    match week_ago_index(s, i, i) {
        Some(j) => with_deltas(s[i], s[j]),
        None => s[i],
    }
}

/// Every essential with its growth counted from the one a week before.
pub open spec fn with_week_ago_info(s: Seq<Essential>) -> Seq<Essential> {
    Seq::new(s.len(), |i: int| with_week_ago(s, i))
}

/// The growth of every essential from the one a week before fits in
/// `i32`.
pub open spec fn week_ago_deltas_fit(s: Seq<Essential>) -> bool {
    forall|i: int|
        0 <= i < s.len() ==> (#[trigger] week_ago_index(s, i, i) matches Some(j) ==> deltas_fit(
            s[i],
            s[j],
        ))
}

/// Same counts, id and time.
pub open spec fn same_base(a: Essential, b: Essential) -> bool {
    &&& a.time == b.time
    &&& a.id == b.id
    &&& a.views == b.views
    &&& a.votes_total == b.votes_total
    &&& a.votes_positive == b.votes_positive
    &&& a.votes_negative == b.votes_negative
    &&& a.shares_all == b.shares_all
    &&& a.comments_count == b.comments_count
}

/// The counts of an essential, taken out of it.
#[derive(Clone, Copy)]
struct Counts {
    views: i32,
    votes_total: i32,
    votes_positive: i32,
    votes_negative: i32,
    shares_all: i32,
    comments_count: i32,
}

impl Essential {
    /// The figures of an initiative; their growth is not known yet and is
    /// set to the figures themselves.
    pub fn new(
        time: Instant,
        id: i32,
        lifetime_percent: String,
        cat_id: i32,
        cat_title: String,
        user_id: i32,
        user_fullname: String,
        views: i32,
        votes_total: i32,
        votes_positive: i32,
        votes_negative: i32,
        shares_all: i32,
        comments_count: i32,
        status: String,
        title: String,
    ) -> (r: Essential)
        ensures
            r == (Essential {
                time,
                id,
                lifetime_percent,
                cat_id,
                cat_title,
                user_id,
                user_fullname,
                views,
                votes_total,
                votes_positive,
                votes_negative,
                shares_all,
                comments_count,
                status,
                title,
                views_weekagos: views,
                votes_total_weekagos: votes_total,
                votes_positive_weekagos: votes_positive,
                votes_negative_weekagos: votes_negative,
                shares_all_weekagos: shares_all,
                comments_count_weekagos: comments_count,
            }),
    {
        Essential {
            time,
            id,
            lifetime_percent,
            cat_id,
            cat_title,
            user_id,
            user_fullname,
            views,
            votes_total,
            votes_positive,
            votes_negative,
            shares_all,
            comments_count,
            status,
            title,
            views_weekagos: views,
            votes_total_weekagos: votes_total,
            votes_positive_weekagos: votes_positive,
            votes_negative_weekagos: votes_negative,
            shares_all_weekagos: shares_all,
            comments_count_weekagos: comments_count,
        }
    }

    fn counts(&self) -> (r: Counts)
        ensures
            r.views == self.views,
            r.votes_total == self.votes_total,
            r.votes_positive == self.votes_positive,
            r.votes_negative == self.votes_negative,
            r.shares_all == self.shares_all,
            r.comments_count == self.comments_count,
    {
        Counts {
            views: self.views,
            votes_total: self.votes_total,
            votes_positive: self.votes_positive,
            votes_negative: self.votes_negative,
            shares_all: self.shares_all,
            comments_count: self.comments_count,
        }
    }

    fn subtract(&mut self, base: Counts)
        requires
            i32::MIN <= old(self).views - base.views <= i32::MAX,
            i32::MIN <= old(self).votes_total - base.votes_total <= i32::MAX,
            i32::MIN <= old(self).votes_positive - base.votes_positive <= i32::MAX,
            i32::MIN <= old(self).votes_negative - base.votes_negative <= i32::MAX,
            i32::MIN <= old(self).shares_all - base.shares_all <= i32::MAX,
            i32::MIN <= old(self).comments_count - base.comments_count <= i32::MAX,
        ensures
            *final(self) == (Essential {
                views_weekagos: (old(self).views - base.views) as i32,
                votes_total_weekagos: (old(self).votes_total - base.votes_total) as i32,
                votes_positive_weekagos: (old(self).votes_positive - base.votes_positive) as i32,
                votes_negative_weekagos: (old(self).votes_negative - base.votes_negative) as i32,
                shares_all_weekagos: (old(self).shares_all - base.shares_all) as i32,
                comments_count_weekagos: (old(self).comments_count - base.comments_count) as i32,
                ..*old(self)
            }),
    {
        self.views_weekagos = self.views - base.views;
        self.votes_total_weekagos = self.votes_total - base.votes_total;
        self.votes_positive_weekagos = self.votes_positive - base.votes_positive;
        self.votes_negative_weekagos = self.votes_negative - base.votes_negative;
        self.shares_all_weekagos = self.shares_all - base.shares_all;
        self.comments_count_weekagos = self.comments_count - base.comments_count;
    }

    /// Counts the growth of this essential from `other`.
    pub fn with_weekagos(&mut self, other: &Essential)
        requires
            deltas_fit(*old(self), *other),
        ensures
            *final(self) == with_deltas(*old(self), *other),
    {
        let base = other.counts();
        self.subtract(base);
    }
}

/// Counts the growth of every essential from the latest essential of the
/// same initiative taken more than six days and twenty hours before it,
/// looking only at the essentials before it in the list.
pub fn add_weekago_info(essentials: &mut Vec<Essential>)
    requires
        week_ago_deltas_fit(old(essentials)@),
    ensures
        final(essentials)@ == with_week_ago_info(old(essentials)@),
{
    let ghost orig = essentials@;
    let n = essentials.len();
    let mut i: usize = 0;
    while i < n
        invariant
            i <= n,
            n == orig.len(),
            essentials@.len() == n,
            week_ago_deltas_fit(orig),
            forall|k: int| 0 <= k < i ==> essentials@[k] == #[trigger] with_week_ago(orig, k),
            forall|k: int| i <= k < n ==> essentials@[k] == orig[k],
            forall|k: int| 0 <= k < n ==> #[trigger] same_base(essentials@[k], orig[k]),
        decreases n - i,
    {
        let ess_time = essentials[i].time;
        let ess_id = essentials[i].id;
        let mut j: usize = i;
        let mut found: Option<usize> = None;
        while j > 0 && found.is_none()
            invariant
                j <= i < n,
                essentials@.len() == n,
                ess_time == orig[i as int].time,
                ess_id == orig[i as int].id,
                forall|k: int| 0 <= k < n ==> #[trigger] same_base(essentials@[k], orig[k]),
                found matches Some(f) ==> f < i && week_ago_index(orig, i as int, i as int) == Some(f as int),
                found is None ==> week_ago_index(orig, i as int, i as int) == week_ago_index(orig, i as int, j as int),
            decreases j,
        {
            let k = j - 1;
            assert(same_base(essentials@[k as int], orig[k as int]));
            if essentials[k].id == ess_id && Instant::more_than_hours_after(
                ess_time,
                essentials[k].time,
                WEEK_AGO_HOURS,
            ) {
                found = Some(k);
            }
            j = k;
        }
        if let Some(k) = found {
            assert(same_base(essentials@[k as int], orig[k as int]));
            assert(deltas_fit(orig[i as int], orig[k as int]));
            let base = essentials[k].counts();
            essentials[i].subtract(base);
        }
        assert(essentials@[i as int] == with_week_ago(orig, i as int));
        i += 1;
    }
    assert(essentials@ =~= with_week_ago_info(orig));
}

proof fn lemma_week_ago_index_same_base(s: Seq<Essential>, t: Seq<Essential>, i: int, j: int)
    requires
        s.len() == t.len(),
        0 <= i < s.len(),
        j <= i,
        forall|k: int| 0 <= k < s.len() ==> #[trigger] same_base(t[k], s[k]),
    ensures
        week_ago_index(t, i, j) == week_ago_index(s, i, j),
    decreases j,
{
    if j > 0 {
        assert(same_base(t[j - 1], s[j - 1]));
        assert(same_base(t[i], s[i]));
        lemma_week_ago_index_same_base(s, t, i, j - 1);
    }
}

proof fn lemma_week_ago_index_in_range(s: Seq<Essential>, i: int, j: int)
    ensures
        week_ago_index(s, i, j) matches Some(k) ==> 0 <= k < j,
    decreases j,
{
    if j > 0 {
        lemma_week_ago_index_in_range(s, i, j - 1);
    }
}

/// Counting the growth from a week before only writes the growth fields:
/// the time, the id and every count stay as they were.
pub proof fn law_week_ago_keeps_figures(s: Seq<Essential>, i: int)
    requires
        0 <= i < s.len(),
    ensures
        same_base(with_week_ago_info(s)[i], s[i]),
{
}

/// Counting the growth from a week before a second time changes nothing.
pub proof fn law_week_ago_info_idempotent(s: Seq<Essential>)
    ensures
        with_week_ago_info(with_week_ago_info(s)) == with_week_ago_info(s),
{
    let t = with_week_ago_info(s);
    assert forall|k: int| 0 <= k < s.len() implies #[trigger] same_base(t[k], s[k]) by {}
    assert forall|i: int| 0 <= i < s.len() implies with_week_ago(t, i) == t[i] by {
        lemma_week_ago_index_same_base(s, t, i, i);
        if let Some(j) = week_ago_index(s, i, i) {
            lemma_week_ago_index_in_range(s, i, i);
            assert(same_base(t[j], s[j]));
            assert(with_deltas(t[i], t[j]) == with_deltas(s[i], s[j]));
        }
    }
    assert(with_week_ago_info(t) =~= t);
}

/// The latest essential before `s[i]`, among the first `j`, of the same
/// initiative and taken more than six days and twenty hours before it, is
/// the one `week_ago_index` finds; where it finds none, there is none.
proof fn lemma_week_ago_index_is_latest(s: Seq<Essential>, i: int, j: int)
    requires
        0 <= i < s.len(),
        j <= i,
    ensures
        week_ago_index(s, i, j) matches Some(k) ==> 0 <= k < j && s[k].id == s[i].id && utc_more_than_hours(
            s[k].time.secs_spec(),
            s[k].time.nanos_spec(),
            s[i].time.secs_spec(),
            s[i].time.nanos_spec(),
            164,
        ) && forall|m: int|
            k < m < j ==> !(#[trigger] s[m].id == s[i].id && utc_more_than_hours(
                s[m].time.secs_spec(),
                s[m].time.nanos_spec(),
                s[i].time.secs_spec(),
                s[i].time.nanos_spec(),
                164,
            )),
        week_ago_index(s, i, j) is None ==> forall|m: int|
            0 <= m < j ==> !(#[trigger] s[m].id == s[i].id && utc_more_than_hours(
                s[m].time.secs_spec(),
                s[m].time.nanos_spec(),
                s[i].time.secs_spec(),
                s[i].time.nanos_spec(),
                164,
            )),
    decreases j,
{
    if j > 0 {
        lemma_week_ago_index_is_latest(s, i, j - 1);
    }
}

/// The growth of each essential is counted from the latest essential
/// before it in the list of the same initiative taken more than six days
/// and twenty hours before it: each growth field is the count of the
/// essential minus the count of that one, and every other field stays.
/// Where there is no such essential, the essential stays as it was.
pub proof fn law_week_ago_growth(s: Seq<Essential>, i: int)
    requires
        0 <= i < s.len(),
        week_ago_deltas_fit(s),
    ensures
        week_ago_index(s, i, i) matches Some(j) ==> {
            let r = with_week_ago_info(s)[i];
            &&& 0 <= j < i
            &&& s[j].id == s[i].id
            &&& utc_more_than_hours(
                s[j].time.secs_spec(),
                s[j].time.nanos_spec(),
                s[i].time.secs_spec(),
                s[i].time.nanos_spec(),
                164,
            )
            &&& forall|m: int|
                j < m < i ==> !(#[trigger] s[m].id == s[i].id && utc_more_than_hours(
                    s[m].time.secs_spec(),
                    s[m].time.nanos_spec(),
                    s[i].time.secs_spec(),
                    s[i].time.nanos_spec(),
                    164,
                ))
            &&& r.views_weekagos == s[i].views - s[j].views
            &&& r.votes_total_weekagos == s[i].votes_total - s[j].votes_total
            &&& r.votes_positive_weekagos == s[i].votes_positive - s[j].votes_positive
            &&& r.votes_negative_weekagos == s[i].votes_negative - s[j].votes_negative
            &&& r.shares_all_weekagos == s[i].shares_all - s[j].shares_all
            &&& r.comments_count_weekagos == s[i].comments_count - s[j].comments_count
            &&& r.time == s[i].time && r.id == s[i].id && r.lifetime_percent == s[i].lifetime_percent
            &&& r.cat_id == s[i].cat_id && r.cat_title == s[i].cat_title && r.user_id == s[i].user_id
            &&& r.user_fullname == s[i].user_fullname && r.status == s[i].status && r.title == s[i].title
            &&& r.views == s[i].views && r.votes_total == s[i].votes_total
            &&& r.votes_positive == s[i].votes_positive && r.votes_negative == s[i].votes_negative
            &&& r.shares_all == s[i].shares_all && r.comments_count == s[i].comments_count
        },
        week_ago_index(s, i, i) is None ==> with_week_ago_info(s)[i] == s[i] && forall|m: int|
            0 <= m < i ==> !(#[trigger] s[m].id == s[i].id && utc_more_than_hours(
                s[m].time.secs_spec(),
                s[m].time.nanos_spec(),
                s[i].time.secs_spec(),
                s[i].time.nanos_spec(),
                164,
            )),
{
    lemma_week_ago_index_is_latest(s, i, i);
    assert(week_ago_index(s, i, i) matches Some(j) ==> deltas_fit(s[i], s[j]));
}

/// The essential read from an initiative holds the initiative's figures:
/// its id, category, author, status and lifetime; its views are the
/// initiative's watchers; its positive and negative votes are the
/// initiative's, and its total votes their sum; its shares are the sum of
/// the share counts; its comments are the initiative's; its title is the
/// initiative's with every comma escaped; and each growth field starts
/// as the count itself.
pub proof fn law_essential_holds_initiative(e: Essential, t: (i64, u32), x: Initiative, lifetime: Seq<char>)
    requires
        essential_of(e, t, x, lifetime),
    ensures
        e.time.secs_spec() == t.0 && e.time.nanos_spec() == t.1,
        e.id == x.id,
        e.lifetime_percent@ == lifetime,
        e.cat_id == x.category.id && e.cat_title@ == x.category.title@,
        e.user_id == x.user.id && e.user_fullname@ == x.user.fullname@,
        e.views == x.watch_count,
        e.votes_positive == x.positive,
        e.votes_negative == x.negative,
        e.votes_total == x.positive + x.negative,
        e.votes_total == e.votes_positive + e.votes_negative,
        e.shares_all == share_sum(x.statistic),
        e.comments_count == x.comments_count,
        e.status@ == x.status@,
        e.title@ == replaced(x.title@, ',', seq![' ', '\u{0417}', '\u{041f}', '\u{0422}']),
        e.views_weekagos == x.watch_count,
        e.votes_total_weekagos == x.positive + x.negative,
        e.votes_positive_weekagos == x.positive,
        e.votes_negative_weekagos == x.negative,
        e.shares_all_weekagos == share_sum(x.statistic),
        e.comments_count_weekagos == x.comments_count,
{
}

/// Why the essentials of a snapshot could not be read.
#[derive(Debug)]
pub enum EssentialError {
    /// The key of the snapshot is not an RFC 3339 date and time.
    Time(chrono::ParseError),
}

/// The figures of an initiative can be taken without overflowing `i32`.
pub open spec fn initiative_fits(x: Initiative) -> bool {
    &&& i32::MIN <= x.positive + x.negative <= i32::MAX
    &&& share_sum_fits(x.statistic)
}

/// `e` holds the figures of initiative `x` in the snapshot taken at `t`
/// (seconds and nanoseconds), with `lifetime` as its lifetime percentage.
pub open spec fn essential_of(e: Essential, t: (i64, u32), x: Initiative, lifetime: Seq<char>) -> bool {
    &&& e.time.secs_spec() == t.0
    &&& e.time.nanos_spec() == t.1
    &&& e.id == x.id
    &&& e.lifetime_percent@ == lifetime
    &&& e.cat_id == x.category.id
    &&& e.cat_title@ == x.category.title@
    &&& e.user_id == x.user.id
    &&& e.user_fullname@ == x.user.fullname@
    &&& e.views == x.watch_count
    &&& e.votes_total == x.positive + x.negative
    &&& e.votes_positive == x.positive
    &&& e.votes_negative == x.negative
    &&& e.shares_all == share_sum(x.statistic)
    &&& e.comments_count == x.comments_count
    &&& e.status@ == x.status@
    &&& e.title@ == comma_escaped(x.title@)
    &&& e.views_weekagos == e.views
    &&& e.votes_total_weekagos == e.votes_total
    &&& e.votes_positive_weekagos == e.votes_positive
    &&& e.votes_negative_weekagos == e.votes_negative
    &&& e.shares_all_weekagos == e.shares_all
    &&& e.comments_count_weekagos == e.comments_count
}

impl Essential {
    /// The figures of initiative `x` in the snapshot taken at `time`.
    pub fn from_initiative(time: Instant, x: &Initiative, lifetime_percent: String) -> (r: Essential)
        requires
            initiative_fits(*x),
        ensures
            essential_of(r, (time.secs_spec(), time.nanos_spec()), *x, lifetime_percent@),
            r.time == time,
    {
        Essential::new(
            time,
            x.id,
            lifetime_percent,
            x.category.id,
            x.category.title.clone(),
            x.user.id,
            x.user.fullname.clone(),
            x.watch_count,
            x.positive + x.negative,
            x.positive,
            x.negative,
            x.statistic.sum(),
            x.comments_count,
            x.status.clone(),
            escape_commas(x.title.as_str()),
        )
    }

    /// The essentials of the snapshot taken at the time written in `k`
    /// (RFC 3339), one for each initiative, with the lifetime percentage
    /// given for it.
    pub fn parse(k: &str, initiatives: &Vec<Initiative>, lifetime_percents: &Vec<String>) -> (r: Result<
        Vec<Essential>,
        EssentialError,
    >)
        requires
            initiatives@.len() == lifetime_percents@.len(),
            forall|i: int| 0 <= i < initiatives@.len() ==> initiative_fits(#[trigger] initiatives@[i]),
        ensures
            r is Err <==> rfc3339_utc(k@) is None,
            r matches Ok(v) ==> rfc3339_utc(k@) matches Some(t) && v@.len() == initiatives@.len() && (
            forall|i: int|
                0 <= i < v@.len() ==> essential_of(
                    #[trigger] v@[i],
                    t,
                    initiatives@[i],
                    lifetime_percents@[i]@,
                )),
    {
        let time = match parse_instant(k) {
            Ok(t) => t,
            Err(e) => {
                return Err(EssentialError::Time(e));
            },
        };
        let ghost secs = time.secs_spec();
        let ghost nanos = time.nanos_spec();
        let mut res: Vec<Essential> = Vec::new();
        let mut i: usize = 0;
        while i < initiatives.len()
            invariant
                i <= initiatives@.len(),
                initiatives@.len() == lifetime_percents@.len(),
                forall|j: int| 0 <= j < initiatives@.len() ==> initiative_fits(#[trigger] initiatives@[j]),
                time.secs_spec() == secs,
                time.nanos_spec() == nanos,
                res@.len() == i,
                forall|j: int|
                    0 <= j < i ==> essential_of(
                        #[trigger] res@[j],
                        (secs, nanos),
                        initiatives@[j],
                        lifetime_percents@[j]@,
                    ),
            decreases initiatives.len() - i,
        {
            let e = Essential::from_initiative(time, &initiatives[i], lifetime_percents[i].clone());
            res.push(e);
            i += 1;
        }
        Ok(res)
    }
}

/// The essentials of `s` not taken before `cutoff` (nanoseconds since the
/// epoch), in order.
pub open spec fn taken_since(s: Seq<Essential>, cutoff: int) -> Seq<Essential> {
    s.filter(|e: Essential| e.time.rank() >= cutoff)
}

/// `s` is ordered by time.
pub open spec fn sorted_by_time(s: Seq<Essential>) -> bool {
    forall|i: int, j: int| 0 <= i <= j < s.len() ==> s[i].time.rank() <= s[j].time.rank()
}

/// The essentials of `s` taken at `t` (nanoseconds since the epoch), in
/// order.
pub open spec fn taken_at(s: Seq<Essential>, t: int) -> Seq<Essential> {
    s.filter(|e: Essential| e.time.rank() == t)
}

/// `after` is `before` ordered by time, essentials of the same time
/// keeping their order.
pub open spec fn stably_sorted(before: Seq<Essential>, after: Seq<Essential>) -> bool {
    &&& sorted_by_time(after)
    &&& forall|t: int| #[trigger] taken_at(after, t) == taken_at(before, t)
}

/// Sorts essentials by time with `slice::sort_by_key`, keyed by the
/// seconds and nanoseconds of the time. Claimed, as the documentation of
/// `sort_by_key` states: the sort is stable.
#[verifier::external_body]
fn sort_by_time(v: &mut Vec<Essential>)
    ensures
        stably_sorted(old(v)@, final(v)@),
{
    v.sort_by_key(|e| (e.time.secs(), e.time.nanos()));
}

/// `v` in reverse order.
fn reversed(v: Vec<Essential>) -> (r: Vec<Essential>)
    ensures
        r@ == v@.reverse(),
{
    let ghost orig = v@;
    let mut v = v;
    let mut r: Vec<Essential> = Vec::new();
    while v.len() > 0
        invariant
            orig.len() == v@.len() + r@.len(),
            v@ == orig.take(v@.len() as int),
            r@ == orig.skip(v@.len() as int).reverse(),
        decreases v.len(),
    {
        let ghost m = v@.len() as int;
        let x = v.pop().unwrap();
        assert(orig.skip(m - 1).reverse() =~= orig.skip(m).reverse().push(x));
        assert(v@ =~= orig.take(m - 1));
        r.push(x);
    }
    assert(orig.skip(0) =~= orig);
    r
}

/// The essentials of `v` not taken before `start`, in order.
fn keep_since(v: Vec<Essential>, start: Instant) -> (r: Vec<Essential>)
    ensures
        r@ == taken_since(v@, start.rank()),
{
    let ghost orig = v@;
    let ghost cutoff = start.rank();
    let ghost p = |e: Essential| e.time.rank() >= cutoff;
    let mut v = v;
    let mut kept_rev: Vec<Essential> = Vec::new();
    assert(orig.skip(orig.len() as int) =~= Seq::<Essential>::empty());
    assert(kept_rev@.reverse() =~= orig.skip(orig.len() as int).filter(p)) by {
        reveal(Seq::filter);
    }
    while v.len() > 0
        invariant
            v@.len() <= orig.len(),
            v@ == orig.take(v@.len() as int),
            p == (|e: Essential| e.time.rank() >= cutoff),
            cutoff == start.rank(),
            kept_rev@.reverse() == orig.skip(v@.len() as int).filter(p),
        decreases v.len(),
    {
        let ghost m = v@.len() as int;
        let x = v.pop().unwrap();
        assert(x == orig[m - 1]);
        proof {
            assert(orig.skip(m - 1) =~= seq![x] + orig.skip(m));
            Seq::filter_distributes_over_add(seq![x], orig.skip(m), p);
            assert(seq![x].filter(p) == if p(x) { seq![x] } else { Seq::<Essential>::empty() }) by {
                reveal_with_fuel(Seq::filter, 2);
                assert(seq![x].drop_last() =~= Seq::<Essential>::empty());
            }
        }
        assert(v@ =~= orig.take(m - 1));
        if !is_before(x.time, start) {
            assert(kept_rev@.push(x).reverse() =~= seq![x] + kept_rev@.reverse());
            kept_rev.push(x);
        } else {
            assert(seq![x].filter(p) + orig.skip(m).filter(p) =~= orig.skip(m).filter(p));
        }
    }
    assert(orig.skip(0) =~= orig);
    let ghost kept = kept_rev@;
    assert(kept.reverse().reverse() =~= kept);
    reversed(kept_rev)
}

/// The hours of history that the weekly growth is counted from.
pub const HISTORY_HOURS: i64 = 24 * 15;

/// The hours of the most recent essentials that are reported.
pub const REPORT_HOURS: i64 = 24 * 8;

/// The essentials to report at `now`: those of the last fifteen days,
/// ordered by time, with their growth over the week before counted, and
/// of those the ones of the last eight days.
pub open spec fn recent_report(s: Seq<Essential>, now: Instant, sorted: Seq<Essential>) -> (Seq<Essential>, bool) {
    (
        taken_since(with_week_ago_info(sorted), hours_before_rank(now, 192)),
        stably_sorted(taken_since(s, hours_before_rank(now, 360)), sorted),
    )
}

/// Whether chrono has the dates fifteen and eight days before `now`,
/// from which `select_recent` counts.
pub open spec fn history_start_exists(now: Instant) -> bool {
    &&& utc_hours_earlier(now.secs_spec(), now.nanos_spec(), HISTORY_HOURS) is Some
    &&& utc_hours_earlier(now.secs_spec(), now.nanos_spec(), REPORT_HOURS) is Some
}

/// Picks the essentials to report at `now`: drops those taken more than
/// fifteen days before, orders the rest by time, counts the growth of
/// each from the essential of the same initiative a week before, and
/// keeps those of the last eight days.
pub fn select_recent(essentials: Vec<Essential>, now: Instant) -> (r: Vec<Essential>)
    requires
        history_start_exists(now),
        forall|sorted: Seq<Essential>|
            #[trigger] stably_sorted(taken_since(essentials@, hours_before_rank(now, 360)), sorted)
                ==> week_ago_deltas_fit(sorted),
    ensures
        exists|sorted: Seq<Essential>| #[trigger] recent_report(essentials@, now, sorted).1,
        forall|sorted: Seq<Essential>|
            #[trigger] recent_report(essentials@, now, sorted).1 ==> r@ == recent_report(essentials@, now, sorted).0,
{
    let ghost input = essentials@;
    let start = now.hours_before(HISTORY_HOURS).unwrap();
    let report_start = now.hours_before(REPORT_HOURS).unwrap();
    let mut recent = keep_since(essentials, start);
    sort_by_time(&mut recent);
    let ghost sorted = recent@;
    assert(stably_sorted(taken_since(input, hours_before_rank(now, 360)), sorted));
    add_weekago_info(&mut recent);
    let r = keep_since(recent, report_start);
    assert(recent_report(input, now, sorted).1);
    assert forall|other: Seq<Essential>| #[trigger] recent_report(input, now, other).1 implies r@
        == recent_report(input, now, other).0 by {
        law_stable_order_unique(taken_since(input, hours_before_rank(now, 360)), sorted, other);
    }
    r
}

/// The names of the columns of the CSV report, in order.
pub open spec fn csv_header_names() -> Seq<Seq<char>> {
    seq![
        "time"@,
        "time_utc"@,
        "lifetime_percent"@,
        "id"@,
        "cat_id"@,
        "cat_title"@,
        "user_id"@,
        "user_fullname"@,
        "views"@,
        "votes_positive"@,
        "votes_negative"@,
        "votes_total"@,
        "shares_all"@,
        "comments_count"@,
        "status"@,
        "title"@,
        "views_weekagos"@,
        "votes_total_weekagos"@,
        "votes_positive_weekagos"@,
        "votes_negative_weekagos"@,
        "shares_all_weekagos"@,
        "comments_count_weekagos"@,
    ]
}

/// The header line of the CSV report: the column names separated by
/// commas.
pub open spec fn csv_header_text() -> Seq<char> {
    comma_joined(csv_header_names())
}

/// The fields of the CSV line of `e`, in the order of the header.
pub open spec fn csv_fields(e: Essential) -> Seq<Seq<char>> {
    seq![
        utc_display(e.time.secs_spec(), e.time.nanos_spec()),
        decimal_text(e.time.secs_spec() as int),
        e.lifetime_percent@,
        decimal_text(e.id as int),
        decimal_text(e.cat_id as int),
        e.cat_title@,
        decimal_text(e.user_id as int),
        e.user_fullname@,
        decimal_text(e.views as int),
        decimal_text(e.votes_positive as int),
        decimal_text(e.votes_negative as int),
        decimal_text(e.votes_total as int),
        decimal_text(e.shares_all as int),
        decimal_text(e.comments_count as int),
        e.status@,
        e.title@,
        decimal_text(e.views_weekagos as int),
        decimal_text(e.votes_total_weekagos as int),
        decimal_text(e.votes_positive_weekagos as int),
        decimal_text(e.votes_negative_weekagos as int),
        decimal_text(e.shares_all_weekagos as int),
        decimal_text(e.comments_count_weekagos as int),
    ]
}

impl Essential {
    /// The header line of the CSV report.
    pub fn csv_header() -> (r: String)
        ensures
            r@ == csv_header_text(),
    {
        let mut names: Vec<String> = Vec::new();
        names.push(String::from_str("time"));
        names.push(String::from_str("time_utc"));
        names.push(String::from_str("lifetime_percent"));
        names.push(String::from_str("id"));
        names.push(String::from_str("cat_id"));
        names.push(String::from_str("cat_title"));
        names.push(String::from_str("user_id"));
        names.push(String::from_str("user_fullname"));
        names.push(String::from_str("views"));
        names.push(String::from_str("votes_positive"));
        names.push(String::from_str("votes_negative"));
        names.push(String::from_str("votes_total"));
        names.push(String::from_str("shares_all"));
        names.push(String::from_str("comments_count"));
        names.push(String::from_str("status"));
        names.push(String::from_str("title"));
        names.push(String::from_str("views_weekagos"));
        names.push(String::from_str("votes_total_weekagos"));
        names.push(String::from_str("votes_positive_weekagos"));
        names.push(String::from_str("votes_negative_weekagos"));
        names.push(String::from_str("shares_all_weekagos"));
        names.push(String::from_str("comments_count_weekagos"));
        assert(names@.map_values(|s: String| s@) =~= csv_header_names());
        join_with_commas(&names)
    }

    /// The CSV line of this essential: its fields in the order of the
    /// header, separated by commas.
    pub fn csv_line(&self) -> (r: String)
        ensures
            r@ == comma_joined(csv_fields(*self)),
            comma_free(self.lifetime_percent@) && comma_free(self.cat_title@) && comma_free(
                self.user_fullname@,
            ) && comma_free(self.status@) && comma_free(self.title@) ==> comma_count(r@) == comma_count(
                csv_header_text(),
            ) == 21,
    {
        let mut fields: Vec<String> = Vec::new();
        fields.push(self.time.display());
        fields.push(decimal_i64(self.time.secs()));
        fields.push(self.lifetime_percent.clone());
        fields.push(decimal_i64(self.id as i64));
        fields.push(decimal_i64(self.cat_id as i64));
        fields.push(self.cat_title.clone());
        fields.push(decimal_i64(self.user_id as i64));
        fields.push(self.user_fullname.clone());
        fields.push(decimal_i64(self.views as i64));
        fields.push(decimal_i64(self.votes_positive as i64));
        fields.push(decimal_i64(self.votes_negative as i64));
        fields.push(decimal_i64(self.votes_total as i64));
        fields.push(decimal_i64(self.shares_all as i64));
        fields.push(decimal_i64(self.comments_count as i64));
        fields.push(self.status.clone());
        fields.push(self.title.clone());
        fields.push(decimal_i64(self.views_weekagos as i64));
        fields.push(decimal_i64(self.votes_total_weekagos as i64));
        fields.push(decimal_i64(self.votes_positive_weekagos as i64));
        fields.push(decimal_i64(self.votes_negative_weekagos as i64));
        fields.push(decimal_i64(self.shares_all_weekagos as i64));
        fields.push(decimal_i64(self.comments_count_weekagos as i64));
        assert(fields@.map_values(|s: String| s@) =~= csv_fields(*self));
        proof {
            if comma_free(self.lifetime_percent@) && comma_free(self.cat_title@) && comma_free(
                self.user_fullname@,
            ) && comma_free(self.status@) && comma_free(self.title@) {
                law_csv_line_fits_header(*self);
            }
        }
        join_with_commas(&fields)
    }
}

/// The header and every CSV line agree column by column: the header
/// names, in order, the columns time, time_utc, lifetime_percent, id,
/// cat_id, cat_title, user_id, user_fullname, views, votes_positive,
/// votes_negative, votes_total, shares_all, comments_count, status, title
/// and the six growth columns (views, votes_total, votes_positive,
/// votes_negative, shares_all, comments_count, each with `_weekagos`); the
/// field of a line under each column is the figure of the essential that
/// the column names, written in decimal (the time as chrono displays it,
/// the texts as they are).
pub proof fn law_csv_columns(e: Essential)
    ensures
        csv_header_names().len() == 22,
        csv_fields(e).len() == 22,
        csv_header_names()[0] == "time"@ && csv_fields(e)[0] == utc_display(e.time.secs_spec(), e.time.nanos_spec()),
        csv_header_names()[1] == "time_utc"@ && csv_fields(e)[1] == decimal_text(e.time.secs_spec() as int),
        csv_header_names()[2] == "lifetime_percent"@ && csv_fields(e)[2] == e.lifetime_percent@,
        csv_header_names()[3] == "id"@ && csv_fields(e)[3] == decimal_text(e.id as int),
        csv_header_names()[4] == "cat_id"@ && csv_fields(e)[4] == decimal_text(e.cat_id as int),
        csv_header_names()[5] == "cat_title"@ && csv_fields(e)[5] == e.cat_title@,
        csv_header_names()[6] == "user_id"@ && csv_fields(e)[6] == decimal_text(e.user_id as int),
        csv_header_names()[7] == "user_fullname"@ && csv_fields(e)[7] == e.user_fullname@,
        csv_header_names()[8] == "views"@ && csv_fields(e)[8] == decimal_text(e.views as int),
        csv_header_names()[9] == "votes_positive"@ && csv_fields(e)[9] == decimal_text(e.votes_positive as int),
        csv_header_names()[10] == "votes_negative"@ && csv_fields(e)[10] == decimal_text(e.votes_negative as int),
        csv_header_names()[11] == "votes_total"@ && csv_fields(e)[11] == decimal_text(e.votes_total as int),
        csv_header_names()[12] == "shares_all"@ && csv_fields(e)[12] == decimal_text(e.shares_all as int),
        csv_header_names()[13] == "comments_count"@ && csv_fields(e)[13] == decimal_text(e.comments_count as int),
        csv_header_names()[14] == "status"@ && csv_fields(e)[14] == e.status@,
        csv_header_names()[15] == "title"@ && csv_fields(e)[15] == e.title@,
        csv_header_names()[16] == "views_weekagos"@ && csv_fields(e)[16] == decimal_text(e.views_weekagos as int),
        csv_header_names()[17] == "votes_total_weekagos"@ && csv_fields(e)[17] == decimal_text(e.votes_total_weekagos as int),
        csv_header_names()[18] == "votes_positive_weekagos"@ && csv_fields(e)[18] == decimal_text(e.votes_positive_weekagos as int),
        csv_header_names()[19] == "votes_negative_weekagos"@ && csv_fields(e)[19] == decimal_text(e.votes_negative_weekagos as int),
        csv_header_names()[20] == "shares_all_weekagos"@ && csv_fields(e)[20] == decimal_text(e.shares_all_weekagos as int),
        csv_header_names()[21] == "comments_count_weekagos"@ && csv_fields(e)[21] == decimal_text(e.comments_count_weekagos as int),
{
}

/// Every CSV line has as many fields as the header. Where the texts that
/// go into a line unchanged (the time as chrono displays it, the lifetime,
/// the category's title, the author's name, the status and the title) hold
/// no comma, the line and the header are each twenty-two texts without
/// commas joined by commas, so they split at their commas into as many
/// pieces, and the piece of the line at each place is the field that the
/// header's piece at that place names. The time as chrono displays it
/// never holds a comma (`Instant::display` states it), so
/// `Essential::csv_line` states this law with the other five texts alone.
pub proof fn law_csv_line_fits_header(e: Essential)
    requires
        comma_free(utc_display(e.time.secs_spec(), e.time.nanos_spec())),
        comma_free(e.lifetime_percent@),
        comma_free(e.cat_title@),
        comma_free(e.user_fullname@),
        comma_free(e.status@),
        comma_free(e.title@),
    ensures
        csv_fields(e).len() == 22,
        csv_header_names().len() == 22,
        forall|k: int| 0 <= k < 22 ==> comma_free(#[trigger] csv_fields(e)[k]),
        forall|k: int| 0 <= k < 22 ==> comma_free(#[trigger] csv_header_names()[k]),
        comma_count(comma_joined(csv_fields(e))) == 21,
        comma_count(csv_header_text()) == 21,
{
    let f = csv_fields(e);
    let h = csv_header_names();
    lemma_decimal_comma_free(e.time.secs_spec() as int);
    lemma_decimal_comma_free(e.id as int);
    lemma_decimal_comma_free(e.cat_id as int);
    lemma_decimal_comma_free(e.user_id as int);
    lemma_decimal_comma_free(e.views as int);
    lemma_decimal_comma_free(e.votes_positive as int);
    lemma_decimal_comma_free(e.votes_negative as int);
    lemma_decimal_comma_free(e.votes_total as int);
    lemma_decimal_comma_free(e.shares_all as int);
    lemma_decimal_comma_free(e.comments_count as int);
    lemma_decimal_comma_free(e.views_weekagos as int);
    lemma_decimal_comma_free(e.votes_total_weekagos as int);
    lemma_decimal_comma_free(e.votes_positive_weekagos as int);
    lemma_decimal_comma_free(e.votes_negative_weekagos as int);
    lemma_decimal_comma_free(e.shares_all_weekagos as int);
    lemma_decimal_comma_free(e.comments_count_weekagos as int);
    assert forall|k: int| 0 <= k < 22 implies comma_free(#[trigger] f[k]) by {}
    lemma_csv_names_comma_free();
    lemma_joined_comma_count(f);
    lemma_joined_comma_count(h);
}

/// No column name holds a comma.
proof fn lemma_csv_names_comma_free()
    ensures
        forall|k: int| 0 <= k < 22 ==> comma_free(#[trigger] csv_header_names()[k]),
{
    reveal_strlit("time");
    reveal_strlit("time_utc");
    reveal_strlit("lifetime_percent");
    reveal_strlit("id");
    reveal_strlit("cat_id");
    reveal_strlit("cat_title");
    reveal_strlit("user_id");
    reveal_strlit("user_fullname");
    reveal_strlit("views");
    reveal_strlit("votes_positive");
    reveal_strlit("votes_negative");
    reveal_strlit("votes_total");
    reveal_strlit("shares_all");
    reveal_strlit("comments_count");
    reveal_strlit("status");
    reveal_strlit("title");
    reveal_strlit("views_weekagos");
    reveal_strlit("votes_total_weekagos");
    reveal_strlit("votes_positive_weekagos");
    reveal_strlit("votes_negative_weekagos");
    reveal_strlit("shares_all_weekagos");
    reveal_strlit("comments_count_weekagos");
    let h = csv_header_names();
    assert forall|k: int| 0 <= k < 22 implies comma_free(#[trigger] h[k]) by {}
}

impl Essential {
    /// Whether the figures of initiative `x` can be taken without
    /// overflowing `i32`.
    pub fn fits(x: &Initiative) -> (r: bool)
        ensures
            r == initiative_fits(*x),
    {
        let votes = x.positive as i64 + x.negative as i64;
        votes >= i32::MIN as i64 && votes <= i32::MAX as i64 && x.statistic.sum_fits()
    }
}

/// Whether the growth of every essential of `v` from the one a week
/// before fits in `i32`.
pub fn week_ago_deltas_fit_check(v: &Vec<Essential>) -> (r: bool)
    ensures
        r == week_ago_deltas_fit(v@),
{
    let ghost s = v@;
    let n = v.len();
    let mut i: usize = 0;
    while i < n
        invariant
            i <= n,
            n == s.len(),
            s == v@,
            forall|k: int| 0 <= k < i ==> (#[trigger] week_ago_index(s, k, k) matches Some(j) ==> deltas_fit(s[k], s[j])),
        decreases n - i,
    {
        let mut j: usize = i;
        let mut found: Option<usize> = None;
        while j > 0 && found.is_none()
            invariant
                j <= i < n,
                n == s.len(),
                s == v@,
                found matches Some(f) ==> f < i && week_ago_index(s, i as int, i as int) == Some(f as int),
                found is None ==> week_ago_index(s, i as int, i as int) == week_ago_index(s, i as int, j as int),
            decreases j,
        {
            let k = j - 1;
            if v[k].id == v[i].id && Instant::more_than_hours_after(v[i].time, v[k].time, WEEK_AGO_HOURS) {
                found = Some(k);
            }
            j = k;
        }
        if let Some(k) = found {
            let e = &v[i];
            let b = &v[k];
            let fits = |x: i32, y: i32| -> (r: bool)
                ensures
                    r == (i32::MIN <= x - y <= i32::MAX),
                {
                    let d = x as i64 - y as i64;
                    d >= i32::MIN as i64 && d <= i32::MAX as i64
                };
            if !(fits(e.views, b.views) && fits(e.votes_total, b.votes_total) && fits(
                e.votes_positive,
                b.votes_positive,
            ) && fits(e.votes_negative, b.votes_negative) && fits(e.shares_all, b.shares_all) && fits(
                e.comments_count,
                b.comments_count,
            )) {
                assert(!deltas_fit(s[i as int], s[k as int]));
                return false;
            }
        }
        i += 1;
    }
    true
}

/// Picks the essentials to report at `now` as `select_recent` does, where
/// the history can be counted back from `now` and no growth overflows
/// `i32`; `None` otherwise.
pub fn select_recent_checked(essentials: Vec<Essential>, now: Instant) -> (r: Option<Vec<Essential>>)
    ensures
        !history_start_exists(now) ==> r is None,
        history_start_exists(now) ==> exists|sorted: Seq<Essential>|
            #[trigger] recent_report(essentials@, now, sorted).1,
        history_start_exists(now) && r is None ==> forall|sorted: Seq<Essential>|
            #[trigger] recent_report(essentials@, now, sorted).1 ==> !week_ago_deltas_fit(sorted),
        r matches Some(v) ==> forall|sorted: Seq<Essential>|
            #[trigger] recent_report(essentials@, now, sorted).1 ==> week_ago_deltas_fit(sorted) && v@
                == recent_report(essentials@, now, sorted).0,
{
    let start = now.hours_before(HISTORY_HOURS);
    if start.is_none() || now.hours_before(REPORT_HOURS).is_none() {
        return None;
    }
    let start = start.unwrap();
    let ghost input = essentials@;
    let ghost cutoff = hours_before_rank(now, 360);
    let mut recent = keep_since(essentials, start);
    sort_by_time(&mut recent);
    let ghost sorted = recent@;
    assert(recent_report(input, now, sorted).1);
    assert forall|other: Seq<Essential>| #[trigger] recent_report(input, now, other).1 implies other == sorted by {
        law_stable_order_unique(taken_since(input, cutoff), sorted, other);
    }
    if !week_ago_deltas_fit_check(&recent) {
        return None;
    }
    proof {
        lemma_sorted_history_all_since(input, sorted, cutoff);
        assert(stably_sorted(sorted, sorted));
        assert forall|other: Seq<Essential>| #[trigger]
            stably_sorted(taken_since(sorted, cutoff), other) implies week_ago_deltas_fit(other) by {
            law_stable_order_unique(sorted, sorted, other);
        }
    }
    let r = select_recent(recent, now);
    assert(recent_report(sorted, now, sorted).1);
    Some(r)
}

/// A stable order of the essentials of `b` taken since `cutoff` holds only
/// essentials taken since `cutoff`.
proof fn lemma_sorted_history_all_since(b: Seq<Essential>, a: Seq<Essential>, cutoff: int)
    requires
        stably_sorted(taken_since(b, cutoff), a),
    ensures
        taken_since(a, cutoff) == a,
{
    let tb = taken_since(b, cutoff);
    let p = |e: Essential| e.time.rank() >= cutoff;
    assert forall|i: int| 0 <= i < a.len() implies p(#[trigger] a[i]) by {
        let t = a[i].time.rank();
        lemma_taken_at_contains(a, i);
        assert(taken_at(a, t) == taken_at(tb, t));
        lemma_taken_at_present(tb, t);
        let j = choose|j: int| 0 <= j < tb.len() && (#[trigger] tb[j]).time.rank() == t;
        b.lemma_filter_pred(p, j);
    }
    lemma_filter_keeps_all(a, p);
}

proof fn lemma_filter_keeps_time_order(s: Seq<Essential>, p: spec_fn(Essential) -> bool)
    requires
        sorted_by_time(s),
    ensures
        sorted_by_time(s.filter(p)),
    decreases s.len(),
{
    reveal(Seq::filter);
    if s.len() > 0 {
        let init = s.drop_last();
        assert(sorted_by_time(init));
        lemma_filter_keeps_time_order(init, p);
        if p(s.last()) {
            let f = init.filter(p);
            assert forall|i: int| 0 <= i < f.len() implies f[i].time.rank() <= s.last().time.rank() by {
                assert(f.contains(f[i]));
                init.lemma_filter_contains_rev(p, f[i]);
                let k = choose|k: int| 0 <= k < init.len() && init[k] == f[i];
                assert(s[k] == init[k]);
            }
            assert(s.filter(p) =~= f.push(s.last()));
        }
    }
}

/// The report is ordered by time, and it holds only essentials taken in
/// the last eight days.
pub proof fn law_report_ordered_and_recent(s: Seq<Essential>, now: Instant, sorted: Seq<Essential>)
    requires
        recent_report(s, now, sorted).1,
    ensures
        sorted_by_time(recent_report(s, now, sorted).0),
        forall|i: int|
            0 <= i < recent_report(s, now, sorted).0.len() ==> (#[trigger] recent_report(s, now, sorted).0[i]).time.rank()
                >= hours_before_rank(now, 192),
{
    let w = with_week_ago_info(sorted);
    assert forall|i: int, j: int| 0 <= i <= j < w.len() implies w[i].time.rank() <= w[j].time.rank() by {
        assert(same_base(w[i], sorted[i]));
        assert(same_base(w[j], sorted[j]));
    }
    let p = |e: Essential| e.time.rank() >= hours_before_rank(now, 192);
    lemma_filter_keeps_time_order(w, p);
    assert forall|i: int| 0 <= i < w.filter(p).len() implies (#[trigger] w.filter(p)[i]).time.rank()
        >= hours_before_rank(now, 192) by {
        w.lemma_filter_pred(p, i);
    }
}

/// `r` holds the figures of `e`: the same time, initiative, counts and
/// texts, whatever growth it has counted.
pub open spec fn same_figures(r: Essential, e: Essential) -> bool {
    &&& same_base(r, e)
    &&& r.lifetime_percent == e.lifetime_percent
    &&& r.cat_id == e.cat_id
    &&& r.cat_title == e.cat_title
    &&& r.user_id == e.user_id
    &&& r.user_fullname == e.user_fullname
    &&& r.status == e.status
    &&& r.title == e.title
}

/// `r` holds the figures of an essential of `s` taken since fifteen days
/// and since eight days before `now`.
pub open spec fn recent_in(s: Seq<Essential>, now: Instant, r: Essential) -> bool {
    exists|i: int|
        0 <= i < s.len() && s[i].time.rank() >= hours_before_rank(now, 360) && s[i].time.rank()
            >= hours_before_rank(now, 192) && same_figures(r, #[trigger] s[i])
}

/// The report holds every essential of the input taken since fifteen days
/// and since eight days before `now`, with its figures, and nothing else:
/// each essential of the report holds the figures of such an essential of
/// the input.
pub proof fn law_report_holds_recent(s: Seq<Essential>, now: Instant, sorted: Seq<Essential>)
    requires
        recent_report(s, now, sorted).1,
    ensures
        forall|i: int|
            0 <= i < s.len() && s[i].time.rank() >= hours_before_rank(now, 360) && s[i].time.rank()
                >= hours_before_rank(now, 192) ==> exists|j: int|
                0 <= j < recent_report(s, now, sorted).0.len() && same_figures(
                    #[trigger] recent_report(s, now, sorted).0[j],
                    s[i],
                ),
        forall|j: int|
            0 <= j < recent_report(s, now, sorted).0.len() ==> recent_in(
                s,
                now,
                #[trigger] recent_report(s, now, sorted).0[j],
            ),
{
    let c360 = hours_before_rank(now, 360);
    let c192 = hours_before_rank(now, 192);
    let p360 = |e: Essential| e.time.rank() >= c360;
    let p192 = |e: Essential| e.time.rank() >= c192;
    let b = taken_since(s, c360);
    let w = with_week_ago_info(sorted);
    let report = recent_report(s, now, sorted).0;
    assert(report == w.filter(p192));
    assert forall|k: int| 0 <= k < sorted.len() implies #[trigger] same_figures(w[k], sorted[k]) by {}
    assert forall|i: int|
        0 <= i < s.len() && s[i].time.rank() >= c360 && s[i].time.rank() >= c192 implies exists|j: int|
        0 <= j < report.len() && same_figures(#[trigger] report[j], s[i]) by {
        let e = s[i];
        let t = e.time.rank();
        let pt = |x: Essential| x.time.rank() == t;
        s.lemma_filter_contains(p360, i);
        let kb = choose|kb: int| 0 <= kb < b.len() && b[kb] == e;
        b.lemma_filter_contains(pt, kb);
        assert(taken_at(sorted, t) == taken_at(b, t));
        sorted.lemma_filter_contains_rev(pt, e);
        let k = choose|k: int| 0 <= k < sorted.len() && sorted[k] == e;
        assert(same_figures(w[k], sorted[k]));
        w.lemma_filter_contains(p192, k);
        let j = choose|j: int| 0 <= j < report.len() && report[j] == w[k];
        assert(same_figures(report[j], s[i]));
    }
    assert forall|j: int| 0 <= j < report.len() implies recent_in(s, now, #[trigger] report[j]) by {
        let r = report[j];
        w.lemma_filter_pred(p192, j);
        assert(report.contains(r));
        w.lemma_filter_contains_rev(p192, r);
        let k = choose|k: int| 0 <= k < w.len() && w[k] == r;
        assert(same_figures(w[k], sorted[k]));
        let e = sorted[k];
        let t = e.time.rank();
        let pt = |x: Essential| x.time.rank() == t;
        sorted.lemma_filter_contains(pt, k);
        assert(taken_at(sorted, t) == taken_at(b, t));
        b.lemma_filter_contains_rev(pt, e);
        let m = choose|m: int| 0 <= m < b.len() && b[m] == e;
        s.lemma_filter_pred(p360, m);
        assert(b.contains(e));
        s.lemma_filter_contains_rev(p360, e);
        let i = choose|i: int| 0 <= i < s.len() && s[i] == e;
        assert(same_figures(report[j], s[i]));
    }
}

proof fn lemma_filter_single(x: Essential, p: spec_fn(Essential) -> bool)
    ensures
        seq![x].filter(p) == if p(x) {
            seq![x]
        } else {
            Seq::<Essential>::empty()
        },
{
    reveal_with_fuel(Seq::filter, 2);
    assert(seq![x].drop_last() =~= Seq::<Essential>::empty());
}

/// The last index of an essential of `b` taken at `t`, or `-1`.
spec fn last_index_at(b: Seq<Essential>, t: int) -> int
    decreases b.len(),
{
    if b.len() == 0 {
        -1
    } else if b.last().time.rank() == t {
        b.len() - 1
    } else {
        last_index_at(b.drop_last(), t)
    }
}

proof fn lemma_last_index_at(b: Seq<Essential>, t: int, i: int)
    requires
        0 <= i < b.len(),
        b[i].time.rank() == t,
    ensures
        0 <= last_index_at(b, t) < b.len(),
        b[last_index_at(b, t)].time.rank() == t,
        forall|k: int| last_index_at(b, t) < k < b.len() ==> (#[trigger] b[k]).time.rank() != t,
    decreases b.len(),
{
    if b.last().time.rank() != t {
        assert(i < b.len() - 1);
        assert(b.drop_last()[i] == b[i]);
        lemma_last_index_at(b.drop_last(), t, i);
        let j = last_index_at(b, t);
        assert(b[j] == b.drop_last()[j]);
        assert forall|k: int| j < k < b.len() implies (#[trigger] b[k]).time.rank() != t by {
            if k < b.len() - 1 {
                assert(b[k] == b.drop_last()[k]);
            }
        }
    }
}

proof fn lemma_taken_at_drop_last(a: Seq<Essential>, t: int)
    requires
        a.len() > 0,
    ensures
        taken_at(a, t) == if a.last().time.rank() == t {
            taken_at(a.drop_last(), t).push(a.last())
        } else {
            taken_at(a.drop_last(), t)
        },
{
    reveal(Seq::filter);
}

proof fn lemma_taken_at_contains(a: Seq<Essential>, i: int)
    requires
        0 <= i < a.len(),
    ensures
        taken_at(a, a[i].time.rank()).len() > 0,
{
    let t = a[i].time.rank();
    a.lemma_filter_contains(|e: Essential| e.time.rank() == t, i);
}

proof fn lemma_taken_at_present(a: Seq<Essential>, t: int)
    requires
        taken_at(a, t).len() > 0,
    ensures
        exists|i: int| 0 <= i < a.len() && (#[trigger] a[i]).time.rank() == t,
{
    let p = |e: Essential| e.time.rank() == t;
    a.lemma_filter_pred(p, 0);
    assert(a.filter(p).contains(a.filter(p)[0]));
    a.lemma_filter_contains_rev(p, a.filter(p)[0]);
}

proof fn lemma_sorted_last_is_latest(a: Seq<Essential>, t: int)
    requires
        a.len() > 0,
        sorted_by_time(a),
        taken_at(a, t).len() > 0,
    ensures
        t <= a.last().time.rank(),
{
    lemma_taken_at_present(a, t);
    let i = choose|i: int| 0 <= i < a.len() && (#[trigger] a[i]).time.rank() == t;
    assert(a[i].time.rank() <= a[a.len() - 1].time.rank());
}

/// Removing the last essential of a stable order by time leaves a stable
/// order of the essentials without the last one taken at that time.
proof fn lemma_stably_sorted_drop_last(b: Seq<Essential>, a: Seq<Essential>, j: int)
    requires
        stably_sorted(b, a),
        a.len() > 0,
        0 <= j < b.len(),
        b[j].time.rank() == a.last().time.rank(),
        forall|k: int| j < k < b.len() ==> (#[trigger] b[k]).time.rank() != a.last().time.rank(),
    ensures
        stably_sorted(b.remove(j), a.drop_last()),
{
    let m = a.last().time.rank();
    let x = a.last();
    let pre = b.subrange(0, j);
    let post = b.subrange(j + 1, b.len() as int);
    assert(b =~= pre + seq![b[j]] + post);
    assert(b.remove(j) =~= pre + post);
    assert forall|i: int, k: int| 0 <= i <= k < a.drop_last().len() implies a.drop_last()[i].time.rank()
        <= a.drop_last()[k].time.rank() by {
        assert(a.drop_last()[i] == a[i]);
        assert(a.drop_last()[k] == a[k]);
    }
    assert forall|t: int| #[trigger] taken_at(a.drop_last(), t) == taken_at(b.remove(j), t) by {
        let p = |e: Essential| e.time.rank() == t;
        Seq::filter_distributes_over_add(pre + seq![b[j]], post, p);
        Seq::filter_distributes_over_add(pre, seq![b[j]], p);
        Seq::filter_distributes_over_add(pre, post, p);
        lemma_filter_single(b[j], p);
        lemma_taken_at_drop_last(a, t);
        assert(taken_at(a, t) == taken_at(b, t));
        if t == m {
            assert forall|i: int| 0 <= i < post.len() implies !p(#[trigger] post[i]) by {
                assert(post[i] == b[j + 1 + i]);
            }
            lemma_filter_keeps_none(post, p);
            assert(pre.filter(p) + seq![b[j]] + Seq::<Essential>::empty() =~= pre.filter(p).push(b[j]));
            assert(pre.filter(p) + Seq::<Essential>::empty() =~= pre.filter(p));
            assert(taken_at(a.drop_last(), t) == taken_at(a, t).drop_last());
            assert(taken_at(b.remove(j), t) =~= taken_at(b, t).drop_last());
        } else {
            assert(pre.filter(p) + Seq::<Essential>::empty() =~= pre.filter(p));
        }
    }
}

/// A stable order by time is unique: two of them of the same essentials
/// are equal, so the report does not depend on which one was taken.
pub proof fn law_stable_order_unique(b: Seq<Essential>, a1: Seq<Essential>, a2: Seq<Essential>)
    requires
        stably_sorted(b, a1),
        stably_sorted(b, a2),
    ensures
        a1 == a2,
    decreases b.len(),
{
    if a1.len() == 0 || a2.len() == 0 {
        if a1.len() > 0 {
            lemma_taken_at_contains(a1, 0);
            let t = a1[0].time.rank();
            assert(taken_at(a2, t) == taken_at(a1, t));
            assert(a2 =~= Seq::<Essential>::empty());
            reveal(Seq::filter);
        }
        if a2.len() > 0 {
            lemma_taken_at_contains(a2, 0);
            let t = a2[0].time.rank();
            assert(taken_at(a2, t) == taken_at(a1, t));
            assert(a1 =~= Seq::<Essential>::empty());
            reveal(Seq::filter);
        }
        assert(a1 =~= a2);
    } else {
        let m1 = a1.last().time.rank();
        let m2 = a2.last().time.rank();
        lemma_taken_at_contains(a1, a1.len() - 1);
        lemma_taken_at_contains(a2, a2.len() - 1);
        assert(taken_at(a2, m1) == taken_at(a1, m1));
        assert(taken_at(a1, m2) == taken_at(a2, m2));
        lemma_sorted_last_is_latest(a2, m1);
        lemma_sorted_last_is_latest(a1, m2);
        let m = m1;
        lemma_taken_at_drop_last(a1, m);
        lemma_taken_at_drop_last(a2, m);
        assert(taken_at(a1, m).last() == a1.last());
        assert(taken_at(a2, m).last() == a2.last());
        assert(taken_at(b, m) == taken_at(a1, m));
        lemma_taken_at_present(b, m);
        let i = choose|i: int| 0 <= i < b.len() && (#[trigger] b[i]).time.rank() == m;
        lemma_last_index_at(b, m, i);
        let j = last_index_at(b, m);
        lemma_stably_sorted_drop_last(b, a1, j);
        lemma_stably_sorted_drop_last(b, a2, j);
        law_stable_order_unique(b.remove(j), a1.drop_last(), a2.drop_last());
        assert(a1 =~= a1.drop_last().push(a1.last()));
        assert(a2 =~= a2.drop_last().push(a2.last()));
    }
}

} // verus!
