//! Merging a new snapshot into the accumulated state of all items seen
//! so far, and the part of the new snapshot that is kept after dropping
//! the items that did not change.

use std::collections::BTreeSet;
use vstd::prelude::*;
use crate::seqs::{lemma_filter_keeps_all, lemma_filter_keeps_none};
use crate::json_items::{
    items_view, same_item, same_json_value, ItemView, JsonItem,
};

verus! {

broadcast use vstd::laws_cmp::group_laws_cmp, vstd::std_specs::btree::group_btree_axioms;

/// The first item of `s` whose `"id"` is `id`.
pub open spec fn first_with_id(s: Seq<ItemView>, id: Option<i64>) -> Option<ItemView>
    decreases s.len(),
{
    if s.len() == 0 {
        None
    } else if s[0].0 == id {
        Some(s[0])
    } else {
        first_with_id(s.drop_first(), id)
    }
}

/// How an item of a new snapshot relates to the accumulated items: the
/// first accumulated item with its id is equal to it, differs from it,
/// or there is none.
#[derive(PartialEq, Eq, Structural, Debug, Clone, Copy)]
pub enum ItemStatus {
    Unchanged,
    Changed,
    New,
}

/// The status of `item` against the accumulated items `all`.
pub open spec fn item_status(all: Seq<ItemView>, item: ItemView) -> ItemStatus {
    match first_with_id(all, item.0) {
        None => ItemStatus::New,
        Some(prev) => if same_item(item, prev) {
            ItemStatus::Unchanged
        } else {
            ItemStatus::Changed
        },
    }
}

/// The ids of the items of `latest` that have status `st`.
pub open spec fn ids_with_status(all: Seq<ItemView>, latest: Seq<ItemView>, st: ItemStatus) -> Set<i64> {
    Set::new(
        |id: i64|
            exists|i: int|
                0 <= i < latest.len() && #[trigger] latest[i].0 == Some(id) && item_status(all, latest[i])
                    == st,
    )
}

/// Whether an optional id is one of `ids`.
pub open spec fn id_in(ids: Set<i64>, id: Option<i64>) -> bool {
    match id {
        Some(v) => ids.contains(v),
        None => false,
    }
}

/// The accumulated items after a merge: the old ones whose id was not seen
/// changed, then the changed items, then the new ones, each in the order
/// of the snapshot.
pub open spec fn merged_all(all: Seq<ItemView>, latest: Seq<ItemView>) -> Seq<ItemView> {
    let changed = ids_with_status(all, latest, ItemStatus::Changed);
    all.filter(|x: ItemView| !id_in(changed, x.0)) + latest.filter(
        |x: ItemView| item_status(all, x) == ItemStatus::Changed,
    ) + latest.filter(|x: ItemView| item_status(all, x) == ItemStatus::New)
}

/// The snapshot after a merge: its items whose id was not seen unchanged.
pub open spec fn kept_latest(all: Seq<ItemView>, latest: Seq<ItemView>) -> Seq<ItemView> {
    let unchanged = ids_with_status(all, latest, ItemStatus::Unchanged);
    latest.filter(|x: ItemView| !id_in(unchanged, x.0))
}

/// Every item has an integer id.
pub open spec fn ids_present(s: Seq<ItemView>) -> bool {
    forall|i: int| 0 <= i < s.len() ==> (#[trigger] s[i]).0 is Some
}

/// A merge reads the integer id of every item unless nothing was
/// accumulated yet.
pub open spec fn mergeable(all: Seq<ItemView>, latest: Seq<ItemView>) -> bool {
    all.len() == 0 || (ids_present(all) && ids_present(latest))
}

proof fn lemma_first_with_id_skip(s: Seq<ItemView>, id: Option<i64>, j: int)
    requires
        0 <= j <= s.len(),
        forall|k: int| 0 <= k < j ==> (#[trigger] s[k]).0 != id,
    ensures
        first_with_id(s, id) == first_with_id(s.skip(j), id),
    decreases j,
{
    if j > 0 {
        assert(s[0].0 != id);
        let t = s.drop_first();
        assert forall|k: int| 0 <= k < j - 1 implies (#[trigger] t[k]).0 != id by {
            assert(t[k] == s[k + 1]);
        }
        lemma_first_with_id_skip(t, id, j - 1);
        assert(t.skip(j - 1) =~= s.skip(j));
    } else {
        assert(s.skip(0) =~= s);
    }
}

proof fn lemma_filter_take_step(s: Seq<ItemView>, p: spec_fn(ItemView) -> bool, i: int)
    requires
        0 <= i < s.len(),
    ensures
        s.take(i + 1).filter(p) == if p(s[i]) {
            s.take(i).filter(p).push(s[i])
        } else {
            s.take(i).filter(p)
        },
{
    reveal(Seq::filter);
    assert(s.take(i + 1).drop_last() =~= s.take(i));
}

proof fn lemma_ids_step(all: Seq<ItemView>, latest: Seq<ItemView>, i: int, st: ItemStatus)
    requires
        0 <= i < latest.len(),
    ensures
        ids_with_status(all, latest.take(i + 1), st) == if item_status(all, latest[i]) == st
            && latest[i].0 is Some {
            ids_with_status(all, latest.take(i), st).insert(latest[i].0->0)
        } else {
            ids_with_status(all, latest.take(i), st)
        },
{
    let a = ids_with_status(all, latest.take(i + 1), st);
    let b = ids_with_status(all, latest.take(i), st);
    let t1 = latest.take(i + 1);
    let t0 = latest.take(i);
    assert forall|id: i64| a.contains(id) implies (b.contains(id) || (item_status(all, latest[i])
        == st && latest[i].0 == Some(id))) by {
        let k = choose|k: int| 0 <= k < t1.len() && #[trigger] t1[k].0 == Some(id) && item_status(all, t1[k]) == st;
        if k < i {
            assert(t0[k] == t1[k]);
        }
    }
    assert forall|id: i64| b.contains(id) implies a.contains(id) by {
        let k = choose|k: int| 0 <= k < t0.len() && #[trigger] t0[k].0 == Some(id) && item_status(all, t0[k]) == st;
        assert(t1[k] == t0[k]);
    }
    if item_status(all, latest[i]) == st && latest[i].0 is Some {
        assert(t1[i] == latest[i]);
        assert(a.contains(latest[i].0->0));
        assert(a =~= b.insert(latest[i].0->0));
    } else {
        assert(a =~= b);
    }
}

proof fn lemma_items_view_push(s: Seq<JsonItem>, x: JsonItem)
    ensures
        items_view(s.push(x)) == items_view(s).push(x@),
{
    assert(items_view(s.push(x)) =~= items_view(s).push(x@));
}

proof fn lemma_items_view_add(a: Seq<JsonItem>, b: Seq<JsonItem>)
    ensures
        items_view(a + b) == items_view(a) + items_view(b),
{
    assert(items_view(a + b) =~= items_view(a) + items_view(b));
}

/// Finds the first item of `all` whose id is `id`.
fn find_first_with_id(all: &Vec<JsonItem>, id: Option<i64>) -> (r: Option<usize>)
    ensures
        match r {
            None => first_with_id(items_view(all@), id) is None,
            Some(j) => j < all.len() && first_with_id(items_view(all@), id) == Some(all@[j as int]@),
        },
{
    let ghost s = items_view(all@);
    let mut j: usize = 0;
    while j < all.len()
        invariant
            j <= all.len(),
            s == items_view(all@),
            forall|k: int| 0 <= k < j ==> (#[trigger] s[k]).0 != id,
        decreases all.len() - j,
    {
        if all[j].id() == id {
            proof {
                lemma_first_with_id_skip(s, id, j as int);
                assert(s.skip(j as int)[0] == s[j as int]);
            }
            return Some(j);
        }
        j += 1;
    }
    proof {
        lemma_first_with_id_skip(s, id, j as int);
    }
    None
}

/// The status of `item` against the accumulated items.
pub fn classify(all: &Vec<JsonItem>, item: &JsonItem) -> (r: ItemStatus)
    ensures
        r == item_status(items_view(all@), item@),
{
    match find_first_with_id(all, item.id()) {
        None => ItemStatus::New,
        Some(j) => {
            if same_json_value(item, &all[j]) {
                ItemStatus::Unchanged
            } else {
                ItemStatus::Changed
            }
        },
    }
}

/// Whether the id of `item` is one of `ids`.
fn id_listed(ids: &BTreeSet<i64>, item: &JsonItem) -> (r: bool)
    ensures
        r == id_in(ids@, item@.0),
{
    match item.id() {
        Some(v) => ids.contains(&v),
        None => false,
    }
}

/// The items of `s` whose id is not one of `ids`, in order.
fn without_ids(s: &Vec<JsonItem>, ids: &BTreeSet<i64>) -> (r: Vec<JsonItem>)
    ensures
        items_view(r@) == items_view(s@).filter(|x: ItemView| !id_in(ids@, x.0)),
{
    let ghost v = items_view(s@);
    let ghost p = |x: ItemView| !id_in(ids@, x.0);
    let mut r: Vec<JsonItem> = Vec::new();
    let mut k: usize = 0;
    while k < s.len()
        invariant
            k <= s.len(),
            v == items_view(s@),
            p == (|x: ItemView| !id_in(ids@, x.0)),
            items_view(r@) == v.take(k as int).filter(p),
        decreases s.len() - k,
    {
        proof {
            lemma_filter_take_step(v, p, k as int);
        }
        if !id_listed(ids, &s[k]) {
            let x = s[k].duplicate();
            proof {
                lemma_items_view_push(r@, x);
            }
            r.push(x);
        }
        k += 1;
    }
    assert(v.take(s.len() as int) =~= v);
    r
}

proof fn lemma_merge_into_empty(a: Seq<ItemView>, l: Seq<ItemView>)
    requires
        a.len() == 0,
    ensures
        merged_all(a, l) == l,
        kept_latest(a, l) == l,
{
    lemma_filter_keeps_none(a, |x: ItemView| !id_in(ids_with_status(a, l, ItemStatus::Changed), x.0));
    lemma_filter_keeps_none(l, |x: ItemView| item_status(a, x) == ItemStatus::Changed);
    lemma_filter_keeps_all(l, |x: ItemView| item_status(a, x) == ItemStatus::New);
    assert(ids_with_status(a, l, ItemStatus::Unchanged) =~= Set::<i64>::empty());
    lemma_filter_keeps_all(l, |x: ItemView| !id_in(ids_with_status(a, l, ItemStatus::Unchanged), x.0));
    assert(merged_all(a, l) =~= l);
}

/// The items of a snapshot sorted by their status against the
/// accumulated items: the changed items, the ids of the changed items,
/// the new items, and the ids of the unchanged items.
fn partition_snapshot(all: &Vec<JsonItem>, latest: &Vec<JsonItem>) -> (r: (
    Vec<JsonItem>,
    BTreeSet<i64>,
    Vec<JsonItem>,
    BTreeSet<i64>,
))
    requires
        ids_present(items_view(latest@)),
    ensures
        items_view(r.0@) == items_view(latest@).filter(
            |x: ItemView| item_status(items_view(all@), x) == ItemStatus::Changed,
        ),
        r.1@ == ids_with_status(items_view(all@), items_view(latest@), ItemStatus::Changed),
        items_view(r.2@) == items_view(latest@).filter(
            |x: ItemView| item_status(items_view(all@), x) == ItemStatus::New,
        ),
        r.3@ == ids_with_status(items_view(all@), items_view(latest@), ItemStatus::Unchanged),
{
    let ghost a = items_view(all@);
    let ghost l = items_view(latest@);
    let ghost pc = |x: ItemView| item_status(a, x) == ItemStatus::Changed;
    let ghost pn = |x: ItemView| item_status(a, x) == ItemStatus::New;
    let mut replace_in_all: Vec<JsonItem> = Vec::new();
    let mut replace_in_all_ids: BTreeSet<i64> = BTreeSet::new();
    let mut add_to_all: Vec<JsonItem> = Vec::new();
    let mut remove_in_latest_ids: BTreeSet<i64> = BTreeSet::new();
    proof {
        assert(ids_with_status(a, l.take(0), ItemStatus::Changed) =~= Set::<i64>::empty());
        assert(ids_with_status(a, l.take(0), ItemStatus::Unchanged) =~= Set::<i64>::empty());
        assert(l.take(0) =~= Seq::<ItemView>::empty());
        reveal(Seq::filter);
        assert(items_view(replace_in_all@) =~= l.take(0).filter(pc));
        assert(items_view(add_to_all@) =~= l.take(0).filter(pn));
    }
    let mut i: usize = 0;
    while i < latest.len()
        invariant
            i <= latest.len(),
            a == items_view(all@),
            l == items_view(latest@),
            ids_present(l),
            pc == (|x: ItemView| item_status(a, x) == ItemStatus::Changed),
            pn == (|x: ItemView| item_status(a, x) == ItemStatus::New),
            remove_in_latest_ids@ == ids_with_status(a, l.take(i as int), ItemStatus::Unchanged),
            replace_in_all_ids@ == ids_with_status(a, l.take(i as int), ItemStatus::Changed),
            items_view(replace_in_all@) == l.take(i as int).filter(pc),
            items_view(add_to_all@) == l.take(i as int).filter(pn),
        decreases latest.len() - i,
    {
        let lv = &latest[i];
        let status = classify(all, lv);
        proof {
            assert(l[i as int] == lv@);
            lemma_ids_step(a, l, i as int, ItemStatus::Unchanged);
            lemma_ids_step(a, l, i as int, ItemStatus::Changed);
            lemma_filter_take_step(l, pc, i as int);
            lemma_filter_take_step(l, pn, i as int);
        }
        match status {
            ItemStatus::Unchanged => {
                match lv.id() {
                    Some(id) => {
                        remove_in_latest_ids.insert(id);
                    },
                    None => {},
                }
            },
            ItemStatus::Changed => {
                let x = lv.duplicate();
                proof {
                    lemma_items_view_push(replace_in_all@, x);
                }
                replace_in_all.push(x);
                match lv.id() {
                    Some(id) => {
                        replace_in_all_ids.insert(id);
                    },
                    None => {},
                }
            },
            ItemStatus::New => {
                let x = lv.duplicate();
                proof {
                    lemma_items_view_push(add_to_all@, x);
                }
                add_to_all.push(x);
            },
        }
        i += 1;
    }
    proof {
        assert(l.take(latest.len() as int) =~= l);
    }
    (replace_in_all, replace_in_all_ids, add_to_all, remove_in_latest_ids)
}

/// A copy of every item of `s`.
fn copy_items(s: &Vec<JsonItem>) -> (r: Vec<JsonItem>)
    ensures
        items_view(r@) == items_view(s@),
{
    let ghost l = items_view(s@);
    let mut r: Vec<JsonItem> = Vec::new();
    let mut i: usize = 0;
    while i < s.len()
        invariant
            i <= s.len(),
            l == items_view(s@),
            items_view(r@) == l.take(i as int),
        decreases s.len() - i,
    {
        let x = s[i].duplicate();
        proof {
            lemma_items_view_push(r@, x);
            assert(l.take(i as int).push(x@) =~= l.take(i + 1));
        }
        r.push(x);
        i += 1;
    }
    assert(l.take(s.len() as int) =~= l);
    r
}

/// Merges the snapshot `latest` into the accumulated items `all`.
///
/// When nothing was accumulated yet, `all` becomes a copy of `latest`.
/// Otherwise every item of `latest` is compared with the first item of
/// `all` that has its id: items found equal are dropped from `latest`
/// (with every other item of `latest` that has their id), items found
/// different replace all items of `all` with their id, and items whose id
/// is unknown are added to `all`.
pub fn merge(all: &mut Vec<JsonItem>, latest: &mut Vec<JsonItem>)
    requires
        mergeable(items_view(old(all)@), items_view(old(latest)@)),
    ensures
        items_view(final(all)@) == merged_all(items_view(old(all)@), items_view(old(latest)@)),
        items_view(final(latest)@) == kept_latest(items_view(old(all)@), items_view(old(latest)@)),
{
    let ghost a = items_view(all@);
    let ghost l = items_view(latest@);
    if all.len() == 0 {
        let copied = copy_items(latest);
        proof {
            lemma_merge_into_empty(a, l);
        }
        *all = copied;
        return;
    }
    let (mut replace_in_all, replace_in_all_ids, mut add_to_all, remove_in_latest_ids) =
        partition_snapshot(all, latest);
    let mut new_all = without_ids(all, &replace_in_all_ids);
    proof {
        lemma_items_view_add(new_all@, replace_in_all@);
    }
    new_all.append(&mut replace_in_all);
    proof {
        lemma_items_view_add(new_all@, add_to_all@);
    }
    new_all.append(&mut add_to_all);
    let new_latest = without_ids(latest, &remove_in_latest_ids);
    assert(items_view(new_all@) == merged_all(a, l));
    *all = new_all;
    *latest = new_latest;
}

proof fn lemma_first_with_id_found(s: Seq<ItemView>, id: Option<i64>)
    ensures
        first_with_id(s, id) matches Some(c) ==> c.0 == id && s.contains(c),
        first_with_id(s, id) is None ==> forall|i: int| 0 <= i < s.len() ==> (#[trigger] s[i]).0 != id,
    decreases s.len(),
{
    if s.len() > 0 {
        lemma_first_with_id_found(s.drop_first(), id);
        if s[0].0 != id {
            if let Some(c) = first_with_id(s, id) {
                let k = choose|k: int| 0 <= k < s.drop_first().len() && s.drop_first()[k] == c;
                assert(s[k + 1] == c);
            }
            assert forall|i: int| 0 <= i < s.len() && first_with_id(s, id) is None implies (#[trigger] s[i]).0 != id by {
                if i > 0 {
                    assert(s[i] == s.drop_first()[i - 1]);
                }
            }
        } else {
            assert(s.contains(s[0]));
        }
    }
}

proof fn lemma_first_with_id_concat(s1: Seq<ItemView>, s2: Seq<ItemView>, id: Option<i64>)
    ensures
        first_with_id(s1 + s2, id) == if first_with_id(s1, id) is Some {
            first_with_id(s1, id)
        } else {
            first_with_id(s2, id)
        },
    decreases s1.len(),
{
    if s1.len() == 0 {
        assert(s1 + s2 =~= s2);
    } else {
        assert((s1 + s2).drop_first() =~= s1.drop_first() + s2);
        lemma_first_with_id_concat(s1.drop_first(), s2, id);
    }
}

proof fn lemma_first_with_id_filter(s: Seq<ItemView>, p: spec_fn(ItemView) -> bool, q: spec_fn(Option<i64>) -> bool, id: Option<i64>)
    requires
        forall|x: ItemView| #[trigger] p(x) == q(x.0),
    ensures
        first_with_id(s.filter(p), id) == if q(id) {
            first_with_id(s, id)
        } else {
            None
        },
    decreases s.len(),
{
    reveal(Seq::filter);
    if s.len() > 0 {
        let init = s.drop_last();
        let last = s.last();
        lemma_first_with_id_filter(init, p, q, id);
        assert(first_with_id(seq![last], id) == if last.0 == id {
            Some(last)
        } else {
            None::<ItemView>
        }) by {
            reveal_with_fuel(first_with_id, 2);
            assert(seq![last][0] == last);
            assert(seq![last].drop_first() =~= Seq::<ItemView>::empty());
        }
        assert(p(last) == q(last.0));
        assert(init + seq![last] =~= s);
        lemma_first_with_id_concat(init, seq![last], id);
        if p(last) {
            assert(s.filter(p) =~= init.filter(p) + seq![last]);
            lemma_first_with_id_concat(init.filter(p), seq![last], id);
        } else {
            assert(s.filter(p) =~= init.filter(p));
        }
        assert(seq![last].drop_first() =~= Seq::<ItemView>::empty());
    }
}

/// After a merge the accumulated items hold the snapshot: each id of the
/// snapshot is, against them, the id of an unchanged item of the
/// snapshot.
pub proof fn law_merged_history_holds_snapshot(all: Seq<ItemView>, latest: Seq<ItemView>, i: int)
    requires
        0 <= i < latest.len(),
        ids_present(latest),
    ensures
        ids_with_status(merged_all(all, latest), latest, ItemStatus::Unchanged).contains(latest[i].0->0),
{
    let x = latest[i].0;
    let changed = ids_with_status(all, latest, ItemStatus::Changed);
    let pf = |y: ItemView| !id_in(changed, y.0);
    let qf = |id: Option<i64>| !id_in(changed, id);
    let pc = |y: ItemView| item_status(all, y) == ItemStatus::Changed;
    let pn = |y: ItemView| item_status(all, y) == ItemStatus::New;
    let qn = |id: Option<i64>| first_with_id(all, id) is None;
    let f = all.filter(pf);
    let c = latest.filter(pc);
    let n = latest.filter(pn);
    let m = merged_all(all, latest);
    assert(m == f + c + n);
    assert forall|y: ItemView| #[trigger] pf(y) == qf(y.0) by {}
    assert forall|y: ItemView| #[trigger] pn(y) == qn(y.0) by {}
    lemma_first_with_id_filter(all, pf, qf, x);
    lemma_first_with_id_filter(latest, pn, qn, x);
    lemma_first_with_id_concat(f + c, n, x);
    lemma_first_with_id_concat(f, c, x);
    lemma_first_with_id_found(c, x);
    lemma_first_with_id_found(latest, x);
    lemma_first_with_id_found(all, x);
    // the item of the snapshot that ends up first with id `x`
    let w: ItemView = if id_in(changed, x) {
        first_with_id(c, x)->0
    } else if first_with_id(all, x) is Some {
        latest[i]
    } else {
        first_with_id(latest, x)->0
    };
    if id_in(changed, x) {
        let k = choose|k: int| 0 <= k < latest.len() && #[trigger] latest[k].0 == Some(x->0)
            && item_status(all, latest[k]) == ItemStatus::Changed;
        assert(pc(latest[k]));
        latest.lemma_filter_contains(pc, k);
        let j = choose|j: int| 0 <= j < c.len() && c[j] == latest[k];
        assert(c[j].0 == x);
        assert(first_with_id(c, x) is Some);
        latest.lemma_filter_contains_rev(pc, w);
        assert(first_with_id(m, x) == Some(w));
    } else if first_with_id(all, x) is Some {
        assert(item_status(all, latest[i]) != ItemStatus::Changed) by {
            if item_status(all, latest[i]) == ItemStatus::Changed {
                assert(changed.contains(x->0));
            }
        }
        assert(first_with_id(m, x) == first_with_id(all, x));
        assert(latest.contains(w));
    } else {
        assert(first_with_id(c, x) is None) by {
            if let Some(cc) = first_with_id(c, x) {
                latest.lemma_filter_contains_rev(pc, cc);
                let k = choose|k: int| 0 <= k < latest.len() && latest[k] == cc;
                let j = choose|j: int| 0 <= j < c.len() && c[j] == cc;
                latest.lemma_filter_pred(pc, j);
                assert(latest[k].0 == Some(x->0));
                assert(changed.contains(x->0));
            }
        }
        assert(first_with_id(latest, x) is Some) by {
            if first_with_id(latest, x) is None {
                assert(latest[i].0 != x);
            }
        }
        assert(first_with_id(m, x) == Some(w));
    }
    let k = choose|k: int| 0 <= k < latest.len() && latest[k] == w;
    assert(latest[k].0 == Some(x->0));
    assert(item_status(m, latest[k]) == ItemStatus::Unchanged);
}

/// A snapshot merged a second time right after itself keeps nothing:
/// once merged, every one of its items is known unchanged.
pub proof fn law_merge_twice_keeps_nothing(all: Seq<ItemView>, latest: Seq<ItemView>)
    requires
        mergeable(all, latest),
        ids_present(latest),
    ensures
        mergeable(merged_all(all, latest), latest),
        kept_latest(merged_all(all, latest), latest) == Seq::<ItemView>::empty(),
{
    let m = merged_all(all, latest);
    let u = ids_with_status(m, latest, ItemStatus::Unchanged);
    assert forall|i: int| 0 <= i < latest.len() implies !(|x: ItemView| !id_in(u, x.0))(#[trigger] latest[i]) by {
        law_merged_history_holds_snapshot(all, latest, i);
    }
    lemma_filter_keeps_none(latest, |x: ItemView| !id_in(u, x.0));
    let changed = ids_with_status(all, latest, ItemStatus::Changed);
    let f = all.filter(|x: ItemView| !id_in(changed, x.0));
    let c = latest.filter(|x: ItemView| item_status(all, x) == ItemStatus::Changed);
    let n = latest.filter(|x: ItemView| item_status(all, x) == ItemStatus::New);
    assert forall|j: int| 0 <= j < m.len() implies (#[trigger] m[j]).0 is Some by {
        if j < f.len() {
            all.lemma_filter_contains_rev(|x: ItemView| !id_in(changed, x.0), m[j]);
        } else if j < f.len() + c.len() {
            assert(m[j] == c[j - f.len()]);
            latest.lemma_filter_contains_rev(|x: ItemView| item_status(all, x) == ItemStatus::Changed, m[j]);
        } else {
            assert(m[j] == n[j - f.len() - c.len()]);
            latest.lemma_filter_contains_rev(|x: ItemView| item_status(all, x) == ItemStatus::New, m[j]);
        }
    }
}

/// Nothing of the first snapshot is dropped: merged into an empty
/// history, a snapshot is kept whole and becomes the history.
pub proof fn law_first_snapshot_kept(latest: Seq<ItemView>)
    ensures
        merged_all(Seq::empty(), latest) == latest,
        kept_latest(Seq::empty(), latest) == latest,
{
    lemma_merge_into_empty(Seq::empty(), latest);
}

/// What is kept of a snapshot is a part of it, in its order: each kept
/// item is an item of the snapshot whose id was not found unchanged.
pub proof fn law_kept_items_come_from_snapshot(all: Seq<ItemView>, latest: Seq<ItemView>, j: int)
    requires
        0 <= j < kept_latest(all, latest).len(),
    ensures
        latest.contains(kept_latest(all, latest)[j]),
        !id_in(ids_with_status(all, latest, ItemStatus::Unchanged), kept_latest(all, latest)[j].0),
{
    let u = ids_with_status(all, latest, ItemStatus::Unchanged);
    let p = |x: ItemView| !id_in(u, x.0);
    latest.lemma_filter_pred(p, j);
    assert(latest.filter(p).contains(latest.filter(p)[j]));
    latest.lemma_filter_contains_rev(p, latest.filter(p)[j]);
}

/// No two items have the same id.
pub open spec fn distinct_ids(s: Seq<ItemView>) -> bool {
    forall|i: int, j: int| 0 <= i < s.len() && 0 <= j < s.len() && i != j ==> s[i].0 != s[j].0
}

proof fn lemma_filter_same_on(s: Seq<ItemView>, p: spec_fn(ItemView) -> bool, q: spec_fn(ItemView) -> bool)
    requires
        forall|i: int| 0 <= i < s.len() ==> p(#[trigger] s[i]) == q(s[i]),
    ensures
        s.filter(p) == s.filter(q),
    decreases s.len(),
{
    reveal(Seq::filter);
    if s.len() > 0 {
        let init = s.drop_last();
        assert forall|i: int| 0 <= i < init.len() implies p(#[trigger] init[i]) == q(init[i]) by {
            assert(init[i] == s[i]);
        }
        lemma_filter_same_on(init, p, q);
        assert(p(s[s.len() - 1]) == q(s[s.len() - 1]));
    }
}

proof fn lemma_filter_filter(s: Seq<ItemView>, p: spec_fn(ItemView) -> bool, q: spec_fn(ItemView) -> bool)
    ensures
        s.filter(p).filter(q) == s.filter(|x: ItemView| p(x) && q(x)),
    decreases s.len(),
{
    reveal(Seq::filter);
    if s.len() > 0 {
        lemma_filter_filter(s.drop_last(), p, q);
        let init = s.drop_last();
        let last = s.last();
        if p(last) {
            assert(s.filter(p) =~= init.filter(p).push(last));
            assert(s.filter(p).drop_last() =~= init.filter(p));
        } else {
            assert(s.filter(p) =~= init.filter(p));
        }
    }
}

proof fn lemma_filter_distinct(s: Seq<ItemView>, p: spec_fn(ItemView) -> bool)
    requires
        distinct_ids(s),
    ensures
        distinct_ids(s.filter(p)),
    decreases s.len(),
{
    reveal(Seq::filter);
    if s.len() > 0 {
        let init = s.drop_last();
        let last = s.last();
        assert(distinct_ids(init)) by {
            assert forall|i: int, j: int| 0 <= i < init.len() && 0 <= j < init.len() && i != j implies init[i].0 != init[j].0 by {
                assert(init[i] == s[i] && init[j] == s[j]);
            }
        }
        lemma_filter_distinct(init, p);
        if p(last) {
            let f = init.filter(p);
            assert forall|i: int| 0 <= i < f.len() implies (#[trigger] f[i]).0 != last.0 by {
                assert(f.contains(f[i]));
                init.lemma_filter_contains_rev(p, f[i]);
                let k = choose|k: int| 0 <= k < init.len() && init[k] == f[i];
                assert(s[k] == init[k]);
                assert(s[s.len() - 1] == last);
            }
            assert(s.filter(p) =~= f.push(last));
        }
    }
}

/// Within a snapshot of distinct ids, an item's id is seen unchanged
/// exactly when the item itself is unchanged.
proof fn lemma_unchanged_id_is_own(all: Seq<ItemView>, latest: Seq<ItemView>, st: ItemStatus, i: int)
    requires
        ids_present(latest),
        distinct_ids(latest),
        0 <= i < latest.len(),
    ensures
        id_in(ids_with_status(all, latest, st), latest[i].0) == (item_status(all, latest[i]) == st),
{
    let ids = ids_with_status(all, latest, st);
    if id_in(ids, latest[i].0) {
        let k = choose|k: int| 0 <= k < latest.len() && #[trigger] latest[k].0 == Some(latest[i].0->0)
            && item_status(all, latest[k]) == st;
        assert(k == i);
    } else {
        assert(latest[i].0 is Some);
    }
}

/// The kept part of a snapshot of distinct ids merges like the whole
/// snapshot, and nothing more of it is dropped when it is merged.
proof fn lemma_kept_merges_like_snapshot(all: Seq<ItemView>, latest: Seq<ItemView>)
    requires
        ids_present(latest),
        distinct_ids(latest),
    ensures
        merged_all(all, kept_latest(all, latest)) == merged_all(all, latest),
        kept_latest(all, kept_latest(all, latest)) == kept_latest(all, latest),
{
    let u = ids_with_status(all, latest, ItemStatus::Unchanged);
    let q = |x: ItemView| !id_in(u, x.0);
    let notu = |x: ItemView| item_status(all, x) != ItemStatus::Unchanged;
    let pc = |x: ItemView| item_status(all, x) == ItemStatus::Changed;
    let pn = |x: ItemView| item_status(all, x) == ItemStatus::New;
    let k = latest.filter(q);
    assert forall|i: int| 0 <= i < latest.len() implies q(#[trigger] latest[i]) == notu(latest[i]) by {
        lemma_unchanged_id_is_own(all, latest, ItemStatus::Unchanged, i);
    }
    lemma_filter_same_on(latest, q, notu);
    lemma_filter_filter(latest, notu, pc);
    lemma_filter_filter(latest, notu, pn);
    lemma_filter_same_on(latest, |x: ItemView| notu(x) && pc(x), pc);
    lemma_filter_same_on(latest, |x: ItemView| notu(x) && pn(x), pn);
    assert(k.filter(pc) == latest.filter(pc));
    assert(k.filter(pn) == latest.filter(pn));
    let ck = ids_with_status(all, k, ItemStatus::Changed);
    let cl = ids_with_status(all, latest, ItemStatus::Changed);
    assert forall|id: i64| ck.contains(id) implies cl.contains(id) by {
        let j = choose|j: int| 0 <= j < k.len() && #[trigger] k[j].0 == Some(id) && item_status(all, k[j]) == ItemStatus::Changed;
        assert(k.contains(k[j]));
        latest.lemma_filter_contains_rev(q, k[j]);
        let m = choose|m: int| 0 <= m < latest.len() && latest[m] == k[j];
        assert(latest[m].0 == Some(id));
    }
    assert forall|id: i64| cl.contains(id) implies ck.contains(id) by {
        let m = choose|m: int| 0 <= m < latest.len() && #[trigger] latest[m].0 == Some(id) && item_status(all, latest[m]) == ItemStatus::Changed;
        assert(q(latest[m]));
        latest.lemma_filter_contains(q, m);
        let j = choose|j: int| 0 <= j < k.len() && k[j] == latest[m];
        assert(k[j].0 == Some(id));
    }
    assert(ck =~= cl);
    let uk = ids_with_status(all, k, ItemStatus::Unchanged);
    assert forall|j: int| 0 <= j < k.len() implies (|x: ItemView| !id_in(uk, x.0))(#[trigger] k[j]) by {
        if id_in(uk, k[j].0) {
            let id = k[j].0->0;
            let m = choose|m: int| 0 <= m < k.len() && #[trigger] k[m].0 == Some(id) && item_status(all, k[m]) == ItemStatus::Unchanged;
            latest.lemma_filter_pred(notu, m);
            assert(false);
        }
    }
    lemma_filter_keeps_all(k, |x: ItemView| !id_in(uk, x.0));
}

/// The items accumulated from a list of snapshots, merged one after the
/// other, after the first `n`.
pub open spec fn accumulated(snaps: Seq<Seq<ItemView>>, n: nat) -> Seq<ItemView>
    decreases n,
{
    if n == 0 {
        Seq::empty()
    } else {
        merged_all(accumulated(snaps, (n - 1) as nat), snaps[n - 1])
    }
}

/// What is kept of each snapshot once merged after the ones before it.
pub open spec fn kept_history(snaps: Seq<Seq<ItemView>>) -> Seq<Seq<ItemView>> {
    Seq::new(snaps.len(), |i: int| kept_latest(accumulated(snaps, i as nat), snaps[i]))
}

/// Every snapshot has integer ids, no two alike.
pub open spec fn snapshots_well_keyed(snaps: Seq<Seq<ItemView>>) -> bool {
    forall|i: int| 0 <= i < snaps.len() ==> ids_present(#[trigger] snaps[i]) && distinct_ids(snaps[i])
}

/// Filtering loses nothing: merging what is kept of each snapshot, one
/// after the other, accumulates the same items as merging the snapshots
/// themselves.
pub proof fn law_kept_history_merges_back(snaps: Seq<Seq<ItemView>>, n: nat)
    requires
        snapshots_well_keyed(snaps),
        n <= snaps.len(),
    ensures
        accumulated(kept_history(snaps), n) == accumulated(snaps, n),
    decreases n,
{
    if n > 0 {
        law_kept_history_merges_back(snaps, (n - 1) as nat);
        assert(ids_present(snaps[n - 1]) && distinct_ids(snaps[n - 1]));
        lemma_kept_merges_like_snapshot(accumulated(snaps, (n - 1) as nat), snaps[n - 1]);
    }
}

/// Filtering a filtered history removes nothing more.
pub proof fn law_filtering_twice_changes_nothing(snaps: Seq<Seq<ItemView>>)
    requires
        snapshots_well_keyed(snaps),
    ensures
        kept_history(kept_history(snaps)) == kept_history(snaps),
{
    let kh = kept_history(snaps);
    assert forall|i: int| 0 <= i < snaps.len() implies #[trigger] kept_history(kh)[i] == kh[i] by {
        law_kept_history_merges_back(snaps, i as nat);
        assert(ids_present(snaps[i]) && distinct_ids(snaps[i]));
        lemma_kept_merges_like_snapshot(accumulated(snaps, i as nat), snaps[i]);
    }
    assert(kept_history(kh) =~= kh);
}

/// A merge of snapshots with distinct ids keeps the ids distinct and
/// holds the newest version of each: every item of the snapshot is there
/// (or an equal one), every accumulated item whose id the snapshot does
/// not have stays, and nothing else comes in.
pub proof fn law_merge_keeps_newest(all: Seq<ItemView>, latest: Seq<ItemView>)
    requires
        mergeable(all, latest),
        ids_present(latest),
        distinct_ids(all),
        distinct_ids(latest),
    ensures
        distinct_ids(merged_all(all, latest)),
        forall|i: int|
            #![trigger latest[i]]
            0 <= i < latest.len() ==> exists|j: int|
                0 <= j < merged_all(all, latest).len() && (#[trigger] merged_all(all, latest)[j]).0
                    == latest[i].0 && same_item(latest[i], merged_all(all, latest)[j]),
        forall|i: int|
            0 <= i < all.len() && (forall|k: int| 0 <= k < latest.len() ==> (#[trigger] latest[k]).0 != all[i].0)
                ==> merged_all(all, latest).contains(#[trigger] all[i]),
        forall|j: int|
            0 <= j < merged_all(all, latest).len() ==> all.contains(#[trigger] merged_all(all, latest)[j])
                || latest.contains(merged_all(all, latest)[j]),
{
    let changed = ids_with_status(all, latest, ItemStatus::Changed);
    let pf = |x: ItemView| !id_in(changed, x.0);
    let pc = |x: ItemView| item_status(all, x) == ItemStatus::Changed;
    let pn = |x: ItemView| item_status(all, x) == ItemStatus::New;
    let f = all.filter(pf);
    let c = latest.filter(pc);
    let n = latest.filter(pn);
    let m = merged_all(all, latest);
    assert(m == f + c + n);
    lemma_filter_distinct(all, pf);
    lemma_filter_distinct(latest, pc);
    lemma_filter_distinct(latest, pn);
    // where each item of the merge comes from
    assert forall|j: int| 0 <= j < m.len() implies (j < f.len() ==> all.contains(#[trigger] m[j]) && pf(m[j]))
        && (f.len() <= j < f.len() + c.len() ==> latest.contains(m[j]) && pc(m[j]))
        && (f.len() + c.len() <= j ==> latest.contains(m[j]) && pn(m[j])) by {
        if j < f.len() {
            assert(m[j] == f[j]);
            all.lemma_filter_pred(pf, j);
            assert(f.contains(f[j]));
            all.lemma_filter_contains_rev(pf, f[j]);
        } else if j < f.len() + c.len() {
            assert(m[j] == c[j - f.len()]);
            latest.lemma_filter_pred(pc, j - f.len());
            assert(c.contains(c[j - f.len()]));
            latest.lemma_filter_contains_rev(pc, c[j - f.len()]);
        } else {
            assert(m[j] == n[j - f.len() - c.len()]);
            latest.lemma_filter_pred(pn, j - f.len() - c.len());
            assert(n.contains(n[j - f.len() - c.len()]));
            latest.lemma_filter_contains_rev(pn, n[j - f.len() - c.len()]);
        }
    }
    assert forall|a: int, b: int| 0 <= a < m.len() && 0 <= b < m.len() && a != b implies m[a].0 != m[b].0 by {
        assert(all.contains(m[a]) || latest.contains(m[a]));
        if m[a].0 == m[b].0 {
            let (lo, hi) = if a < b { (a, b) } else { (b, a) };
            assert(m[lo].0 == m[hi].0);
            if hi < f.len() {
                assert(m[lo] == f[lo] && m[hi] == f[hi]);
            } else if lo >= f.len() && hi < f.len() + c.len() {
                assert(m[lo] == c[lo - f.len()] && m[hi] == c[hi - f.len()]);
            } else if lo >= f.len() + c.len() {
                assert(m[lo] == n[lo - f.len() - c.len()] && m[hi] == n[hi - f.len() - c.len()]);
            } else if lo < f.len() && hi < f.len() + c.len() {
                // a changed id is not among the old items kept
                assert(pf(m[lo]) && pc(m[hi]));
                let k = choose|k: int| 0 <= k < latest.len() && latest[k] == m[hi];
                assert(latest[k].0 == Some(m[hi].0->0));
                assert(changed.contains(m[hi].0->0));
            } else if lo < f.len() {
                // a new id is not among the old items
                assert(pn(m[hi]));
                let k = choose|k: int| 0 <= k < all.len() && all[k] == m[lo];
                lemma_first_with_id_found(all, m[hi].0);
                assert(all[k].0 == m[hi].0);
            } else {
                // one item of the snapshot is changed and another new
                let k1 = choose|k: int| 0 <= k < latest.len() && latest[k] == m[lo];
                let k2 = choose|k: int| 0 <= k < latest.len() && latest[k] == m[hi];
                assert(pc(m[lo]) && pn(m[hi]));
                assert(k1 == k2);
            }
        }
    }
    assert forall|i: int| #![trigger latest[i]] 0 <= i < latest.len() implies exists|j: int|
        0 <= j < m.len() && (#[trigger] m[j]).0 == latest[i].0 && same_item(latest[i], m[j]) by {
        let lv = latest[i];
        if pc(lv) {
            latest.lemma_filter_contains(pc, i);
            let j = choose|j: int| 0 <= j < c.len() && c[j] == lv;
            assert(m[f.len() + j] == lv);
        } else if pn(lv) {
            latest.lemma_filter_contains(pn, i);
            let j = choose|j: int| 0 <= j < n.len() && n[j] == lv;
            assert(m[f.len() + c.len() + j] == lv);
        } else {
            lemma_first_with_id_found(all, lv.0);
            let av = first_with_id(all, lv.0)->0;
            let k = choose|k: int| 0 <= k < all.len() && all[k] == av;
            assert(same_item(lv, av));
            assert(pf(av)) by {
                if id_in(changed, av.0) {
                    let w = choose|w: int| 0 <= w < latest.len() && #[trigger] latest[w].0 == Some(av.0->0)
                        && item_status(all, latest[w]) == ItemStatus::Changed;
                    assert(w == i);
                }
            }
            all.lemma_filter_contains(pf, k);
            let j = choose|j: int| 0 <= j < f.len() && f[j] == av;
            assert(m[j] == av);
        }
    }
    assert forall|i: int|
        0 <= i < all.len() && (forall|k: int| 0 <= k < latest.len() ==> (#[trigger] latest[k]).0 != all[i].0)
        implies m.contains(#[trigger] all[i]) by {
        assert(pf(all[i])) by {
            if id_in(changed, all[i].0) {
                let w = choose|w: int| 0 <= w < latest.len() && #[trigger] latest[w].0 == Some(all[i].0->0)
                    && item_status(all, latest[w]) == ItemStatus::Changed;
            }
        }
        all.lemma_filter_contains(pf, i);
        let j = choose|j: int| 0 <= j < f.len() && f[j] == all[i];
        assert(m[j] == all[i]);
    }
}

} // verus!
