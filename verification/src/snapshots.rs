//! A history of snapshots, each a key (the time it was taken) and the
//! JSON text of the array of initiatives: replaying the history merges
//! the snapshots one after the other into the items seen so far.

use vstd::prelude::*;
use crate::json_items::{
    item_texts, items_view, json_array_text, parse_json_array, parsed_json_array, write_json_array,
    ItemView, JsonItem,
};
use crate::merge::{
    accumulated, distinct_ids, ids_present, kept_history, kept_latest,
    law_filtering_twice_changes_nothing, law_first_snapshot_kept, law_kept_history_merges_back,
    law_kept_items_come_from_snapshot, law_merge_keeps_newest, law_merge_twice_keeps_nothing, merge,
    merged_all, mergeable, snapshots_well_keyed,
};

verus! {

broadcast use vstd::string::group_string_axioms;

/// The JSON texts of a list of snapshots.
pub open spec fn snapshot_texts(orig: Seq<(&str, &str)>) -> Seq<Seq<char>> {
    orig.map_values(|kv: (&str, &str)| kv.1@)
}

/// The items accumulated after merging the first `n` snapshots, or
/// `None` where one of them is not a JSON array.
pub open spec fn history(texts: Seq<Seq<char>>, n: nat) -> Option<Seq<ItemView>>
    decreases n,
{
    if n == 0 {
        Some(Seq::empty())
    } else {
        match history(texts, (n - 1) as nat) {
            Some(all) => match parsed_json_array(texts[n - 1]) {
                Some(latest) => Some(merged_all(all, latest)),
                None => None,
            },
            None => None,
        }
    }
}

/// What is kept of snapshot `i` once merged after the ones before it.
pub open spec fn kept_at(texts: Seq<Seq<char>>, i: int) -> Seq<ItemView> {
    kept_latest(history(texts, i as nat)->0, parsed_json_array(texts[i])->0)
}

/// Snapshot `i` parses and can be merged after the ones before it.
pub open spec fn step_ok(texts: Seq<Seq<char>>, i: int) -> bool {
    &&& history(texts, i as nat) is Some
    &&& parsed_json_array(texts[i]) is Some
    &&& mergeable(history(texts, i as nat)->0, parsed_json_array(texts[i])->0)
}

/// The first `n` snapshots parse and merge.
pub open spec fn steps_ok(texts: Seq<Seq<char>>, n: int) -> bool {
    forall|i: int| 0 <= i < n ==> #[trigger] step_ok(texts, i)
}

/// Snapshot `i` is the first one that is not a JSON array.
pub open spec fn first_invalid(texts: Seq<Seq<char>>, i: int) -> bool {
    &&& 0 <= i < texts.len()
    &&& history(texts, i as nat) is Some
    &&& parsed_json_array(texts[i]) is None
}

/// Snapshot `i` parses but cannot be merged: an item without an integer
/// id meets a non-empty history.
pub open spec fn first_unmergeable(texts: Seq<Seq<char>>, i: int) -> bool {
    &&& 0 <= i < texts.len()
    &&& history(texts, i as nat) is Some
    &&& parsed_json_array(texts[i]) is Some
    &&& !mergeable(history(texts, i as nat)->0, parsed_json_array(texts[i])->0)
}

/// No snapshot meets a history it cannot be merged into.
pub open spec fn snapshots_mergeable(texts: Seq<Seq<char>>) -> bool {
    forall|i: int| !first_unmergeable(texts, i)
}

/// Why a history of snapshots could not be replayed.
#[derive(Debug)]
pub enum FilterError {
    /// The snapshot at `index` is not a JSON array.
    InvalidJson { index: usize, error: serde_json::Error },
    /// The snapshot at `index` has an item without an integer id, or meets
    /// a history that has one.
    MissingId { index: usize },
}

proof fn lemma_history_some(texts: Seq<Seq<char>>, n: int)
    requires
        0 <= n <= texts.len(),
        steps_ok(texts, n),
    ensures
        history(texts, n as nat) is Some,
    decreases n,
{
    if n > 0 {
        assert(step_ok(texts, n - 1));
    }
}

proof fn lemma_history_stays_none(texts: Seq<Seq<char>>, i: int, n: int)
    requires
        0 <= i < n <= texts.len(),
        history(texts, (i + 1) as nat) is None,
    ensures
        history(texts, n as nat) is None,
    decreases n,
{
    if n > i + 1 {
        lemma_history_stays_none(texts, i, n - 1);
    }
}

/// Every item has an integer id.
fn all_ids_present(items: &Vec<JsonItem>) -> (r: bool)
    ensures
        r == ids_present(items_view(items@)),
{
    let ghost v = items_view(items@);
    let mut i: usize = 0;
    while i < items.len()
        invariant
            i <= items.len(),
            v == items_view(items@),
            forall|k: int| 0 <= k < i ==> (#[trigger] v[k]).0 is Some,
        decreases items.len() - i,
    {
        if items[i].id().is_none() {
            assert(v[i as int].0 is None);
            return false;
        }
        i += 1;
    }
    true
}

/// The text written for snapshot `i`: what is kept of it, or the whole
/// history after it.
pub open spec fn replay_text(texts: Seq<Seq<char>>, i: int, whole_history: bool) -> Seq<char> {
    if whole_history {
        json_array_text(item_texts(history(texts, (i + 1) as nat)->0))
    } else {
        json_array_text(item_texts(kept_at(texts, i)))
    }
}

/// The result of a replay that did not stop.
pub open spec fn replay_output(
    orig: Seq<(&str, &str)>,
    out: Seq<(String, String)>,
    whole_history: bool,
) -> bool {
    &&& out.len() == orig.len()
    &&& forall|i: int|
        0 <= i < out.len() ==> (#[trigger] out[i]).0@ == orig[i].0@ && out[i].1@ == replay_text(
            snapshot_texts(orig),
            i,
            whole_history,
        )
}

/// Replays the snapshots in order, writing for each one its key and the
/// text of what is kept of it, or of the whole history after it.
fn replay(orig: &Vec<(&str, &str)>, whole_history: bool) -> (r: Result<Vec<(String, String)>, FilterError>)
    ensures
        r matches Ok(out) ==> steps_ok(snapshot_texts(orig@), orig@.len() as int) && replay_output(
            orig@,
            out@,
            whole_history,
        ),
        r matches Err(FilterError::InvalidJson { index, .. }) ==> first_invalid(snapshot_texts(orig@), index as int)
            && steps_ok(snapshot_texts(orig@), index as int),
        r matches Err(FilterError::MissingId { index }) ==> first_unmergeable(snapshot_texts(orig@), index as int)
            && steps_ok(snapshot_texts(orig@), index as int),
{
    let ghost texts = snapshot_texts(orig@);
    let mut all: Vec<JsonItem> = Vec::new();
    let mut out: Vec<(String, String)> = Vec::new();
    let mut i: usize = 0;
    while i < orig.len()
        invariant
            i <= orig.len(),
            texts == snapshot_texts(orig@),
            steps_ok(texts, i as int),
            history(texts, i as nat) == Some(items_view(all@)),
            out@.len() == i,
            forall|j: int|
                0 <= j < i ==> (#[trigger] out@[j]).0@ == orig@[j].0@ && out@[j].1@ == replay_text(
                    texts,
                    j,
                    whole_history,
                ),
        decreases orig.len() - i,
    {
        let (k, v) = orig[i];
        assert(texts[i as int] == v@);
        let mut latest = match parse_json_array(v) {
            Ok(items) => items,
            Err(error) => {
                return Err(FilterError::InvalidJson { index: i, error });
            },
        };
        if !(all.len() == 0 || (all_ids_present(&all) && all_ids_present(&latest))) {
            return Err(FilterError::MissingId { index: i });
        }
        let ghost before = items_view(all@);
        merge(&mut all, &mut latest);
        assert(step_ok(texts, i as int));
        let text = if whole_history {
            write_json_array(&all)
        } else {
            write_json_array(&latest)
        };
        out.push((k.to_string(), text));
        i += 1;
    }
    Ok(out)
}

/// Filters a history of snapshots: each snapshot loses the items that did
/// not change since they were last seen, and is written back as a JSON
/// array next to its key.
pub fn filter_spahshots(orig: Vec<(&str, &str)>) -> (r: Result<Vec<(String, String)>, FilterError>)
    requires
        snapshots_mergeable(snapshot_texts(orig@)),
    ensures
        r is Ok <==> history(snapshot_texts(orig@), orig@.len()) is Some,
        r matches Err(e) ==> e matches FilterError::InvalidJson { index, .. } && first_invalid(
            snapshot_texts(orig@),
            index as int,
        ),
        r matches Ok(out) ==> replay_output(orig@, out@, false),
{
    let r = replay(&orig, false);
    proof {
        let texts = snapshot_texts(orig@);
        match r {
            Ok(_) => {
                lemma_history_some(texts, orig@.len() as int);
            },
            Err(FilterError::InvalidJson { index, .. }) => {
                lemma_history_stays_none(texts, index as int, orig@.len() as int);
            },
            Err(FilterError::MissingId { index }) => {
                assert(!first_unmergeable(texts, index as int));
            },
        }
    }
    r
}

/// Filters a history of snapshots as `filter_spahshots` does, where no
/// snapshot meets a history it cannot be merged into; `None` otherwise.
pub fn filter_snapshots_checked(orig: Vec<(&str, &str)>) -> (r: Option<Result<Vec<(String, String)>, FilterError>>)
    ensures
        r is None <==> !snapshots_mergeable(snapshot_texts(orig@)),
        r matches Some(res) ==> (res is Ok <==> history(snapshot_texts(orig@), orig@.len()) is Some),
        r matches Some(Err(e)) ==> e matches FilterError::InvalidJson { index, .. } && first_invalid(
            snapshot_texts(orig@),
            index as int,
        ),
        r matches Some(Ok(out)) ==> replay_output(orig@, out@, false),
{
    let probe = replay(&orig, false);
    let ghost texts = snapshot_texts(orig@);
    assert(texts.len() == orig@.len());
    match probe {
        Err(FilterError::MissingId { .. }) => None,
        _ => {
            proof {
                assert forall|i: int| !first_unmergeable(texts, i) by {
                    match probe {
                        Ok(_) => {
                            if 0 <= i < texts.len() {
                                assert(step_ok(texts, i));
                            }
                        },
                        Err(FilterError::InvalidJson { index, .. }) => {
                            if index < i < texts.len() {
                                lemma_history_stays_none(texts, index as int, i);
                            }
                            if 0 <= i < index {
                                assert(step_ok(texts, i));
                            }
                        },
                        _ => {},
                    }
                }
            }
            Some(filter_spahshots(orig))
        },
    }
}

/// Replays a history of snapshots and writes, next to each key, the whole
/// history accumulated up to that snapshot.
pub fn merged_snapshots(orig: Vec<(&str, &str)>) -> (r: Result<Vec<(String, String)>, FilterError>)
    ensures
        r is Ok <==> steps_ok(snapshot_texts(orig@), orig@.len() as int),
        r matches Err(FilterError::InvalidJson { index, .. }) ==> first_invalid(snapshot_texts(orig@), index as int),
        r matches Err(FilterError::MissingId { index }) ==> first_unmergeable(snapshot_texts(orig@), index as int),
        r matches Ok(out) ==> replay_output(orig@, out@, true),
{
    let r = replay(&orig, true);
    proof {
        let texts = snapshot_texts(orig@);
        match r {
            Err(FilterError::InvalidJson { index, .. }) => {
                assert(!step_ok(texts, index as int));
            },
            Err(FilterError::MissingId { index }) => {
                assert(!step_ok(texts, index as int));
            },
            _ => {},
        }
    }
    r
}

/// The first snapshot of a history is kept whole.
pub proof fn law_first_snapshot_unfiltered(texts: Seq<Seq<char>>)
    requires
        texts.len() > 0,
        parsed_json_array(texts[0]) is Some,
    ensures
        kept_at(texts, 0) == parsed_json_array(texts[0])->0,
{
    let s0 = parsed_json_array(texts[0])->0;
    assert(history(texts, 0) == Some(Seq::<ItemView>::empty()));
    law_first_snapshot_kept(s0);
}

/// A snapshot equal to the one before it is filtered down to nothing.
pub proof fn law_repeated_snapshot_filtered_out(texts: Seq<Seq<char>>, i: int)
    requires
        0 <= i < i + 1 < texts.len(),
        steps_ok(texts, i + 1),
        texts[i + 1] == texts[i],
        ids_present(parsed_json_array(texts[i])->0),
    ensures
        kept_at(texts, i + 1) == Seq::<ItemView>::empty(),
{
    assert(step_ok(texts, i));
    law_merge_twice_keeps_nothing(history(texts, i as nat)->0, parsed_json_array(texts[i])->0);
}

/// Every snapshot is a JSON array.
pub open spec fn all_parse(texts: Seq<Seq<char>>) -> bool {
    forall|i: int| 0 <= i < texts.len() ==> (#[trigger] parsed_json_array(texts[i])) is Some
}

/// The items of every snapshot.
pub open spec fn parsed_snapshots(texts: Seq<Seq<char>>) -> Seq<Seq<ItemView>> {
    Seq::new(texts.len(), |i: int| parsed_json_array(texts[i])->0)
}

proof fn lemma_history_accumulates(texts: Seq<Seq<char>>, n: nat)
    requires
        all_parse(texts),
        n <= texts.len(),
    ensures
        history(texts, n) == Some(accumulated(parsed_snapshots(texts), n)),
    decreases n,
{
    if n > 0 {
        lemma_history_accumulates(texts, (n - 1) as nat);
        assert(parsed_json_array(texts[n - 1]) is Some);
    }
}

/// Filtering a history loses nothing: where every snapshot has integer
/// ids, no two alike, what is kept of each snapshot is what the whole
/// history says of it, and merging the kept parts one after the other
/// gives back the history after every snapshot.
pub proof fn law_filtered_history_merges_back(texts: Seq<Seq<char>>, n: nat)
    requires
        all_parse(texts),
        snapshots_well_keyed(parsed_snapshots(texts)),
        n <= texts.len(),
    ensures
        forall|i: int| 0 <= i < texts.len() ==> #[trigger] kept_at(texts, i) == kept_history(parsed_snapshots(texts))[i],
        history(texts, n) == Some(accumulated(kept_history(parsed_snapshots(texts)), n)),
{
    let snaps = parsed_snapshots(texts);
    assert forall|i: int| 0 <= i < texts.len() implies #[trigger] kept_at(texts, i) == kept_history(snaps)[i] by {
        lemma_history_accumulates(texts, i as nat);
    }
    lemma_history_accumulates(texts, n);
    law_kept_history_merges_back(snaps, n);
}

/// Filtering the filtered history of snapshots with integer ids, no two
/// alike, drops nothing more.
pub proof fn law_filtering_filtered_history(texts: Seq<Seq<char>>)
    requires
        all_parse(texts),
        snapshots_well_keyed(parsed_snapshots(texts)),
    ensures
        kept_history(kept_history(parsed_snapshots(texts))) == kept_history(parsed_snapshots(texts)),
{
    law_filtering_twice_changes_nothing(parsed_snapshots(texts));
}

/// The texts that filtering writes for a history, one for each snapshot.
pub open spec fn filtered_texts(texts: Seq<Seq<char>>) -> Seq<Seq<char>> {
    Seq::new(texts.len(), |i: int| replay_text(texts, i, false))
}

/// Every text that filtering writes for the history reads back as the
/// items it was written from. serde_json does not promise this of a float
/// that it writes and reads again without its `float_roundtrip` feature,
/// so the laws on filtered texts hold of the histories where it holds.
pub open spec fn filtered_texts_read_back(texts: Seq<Seq<char>>) -> bool {
    forall|i: int|
        0 <= i < texts.len() ==> #[trigger] parsed_json_array(filtered_texts(texts)[i]) == Some(
            kept_at(texts, i),
        )
}

proof fn lemma_filtered_texts_parse(texts: Seq<Seq<char>>)
    requires
        all_parse(texts),
        snapshots_well_keyed(parsed_snapshots(texts)),
        filtered_texts_read_back(texts),
    ensures
        all_parse(filtered_texts(texts)),
        parsed_snapshots(filtered_texts(texts)) == kept_history(parsed_snapshots(texts)),
{
    let ft = filtered_texts(texts);
    law_filtered_history_merges_back(texts, 0);
    assert forall|i: int| 0 <= i < ft.len() implies (#[trigger] parsed_json_array(ft[i])) is Some by {
        assert(parsed_json_array(filtered_texts(texts)[i]) == Some(kept_at(texts, i)));
    }
    assert forall|i: int| 0 <= i < ft.len() implies #[trigger] parsed_snapshots(ft)[i] == kept_history(
        parsed_snapshots(texts),
    )[i] by {
        assert(parsed_json_array(filtered_texts(texts)[i]) == Some(kept_at(texts, i)));
        assert(kept_at(texts, i) == kept_history(parsed_snapshots(texts))[i]);
    }
    assert(parsed_snapshots(ft) =~= kept_history(parsed_snapshots(texts)));
}

/// Merging the filtered history back gives the same states: where every
/// snapshot has integer ids, no two alike, and the texts that filtering
/// writes read back, replaying those texts accumulates after every
/// snapshot the same items as replaying the snapshots themselves.
pub proof fn law_filtered_texts_merge_back(texts: Seq<Seq<char>>, n: nat)
    requires
        all_parse(texts),
        snapshots_well_keyed(parsed_snapshots(texts)),
        filtered_texts_read_back(texts),
        n <= texts.len(),
    ensures
        history(filtered_texts(texts), n) == history(texts, n),
{
    let ft = filtered_texts(texts);
    law_filtered_history_merges_back(texts, n);
    lemma_filtered_texts_parse(texts);
    lemma_history_accumulates(ft, n);
}

/// Merging snapshots with integer ids, no two alike, accumulates items
/// with integer ids, no two alike.
proof fn lemma_accumulated_well_keyed(snaps: Seq<Seq<ItemView>>, n: nat)
    requires
        snapshots_well_keyed(snaps),
        n <= snaps.len(),
    ensures
        ids_present(accumulated(snaps, n)),
        distinct_ids(accumulated(snaps, n)),
    decreases n,
{
    if n > 0 {
        lemma_accumulated_well_keyed(snaps, (n - 1) as nat);
        let all = accumulated(snaps, (n - 1) as nat);
        let latest = snaps[n - 1];
        assert(ids_present(latest) && distinct_ids(latest));
        law_merge_keeps_newest(all, latest);
        let m = merged_all(all, latest);
        assert forall|j: int| 0 <= j < m.len() implies (#[trigger] m[j]).0 is Some by {
            if all.contains(m[j]) {
                let k = choose|k: int| 0 <= k < all.len() && all[k] == m[j];
            } else {
                let k = choose|k: int| 0 <= k < latest.len() && latest[k] == m[j];
            }
        }
    }
}

/// Filtering a filtered history removes nothing more: where every
/// snapshot has integer ids, no two alike, and the texts that filtering
/// writes read back, those texts can be filtered again, and filtering
/// them writes the same texts.
pub proof fn law_filtering_filtered_texts(texts: Seq<Seq<char>>)
    requires
        all_parse(texts),
        snapshots_well_keyed(parsed_snapshots(texts)),
        filtered_texts_read_back(texts),
    ensures
        snapshots_mergeable(filtered_texts(texts)),
        history(filtered_texts(texts), texts.len()) is Some,
        filtered_texts(filtered_texts(texts)) == filtered_texts(texts),
{
    let ft = filtered_texts(texts);
    let snaps = parsed_snapshots(texts);
    let kh = kept_history(snaps);
    lemma_filtered_texts_parse(texts);
    law_filtering_twice_changes_nothing(snaps);
    law_filtered_texts_merge_back(texts, texts.len());
    law_filtered_history_merges_back(texts, texts.len());
    lemma_history_accumulates(texts, texts.len());
    assert forall|i: int| 0 <= i < ft.len() implies #[trigger] kept_at(ft, i) == kept_at(texts, i) by {
        law_filtered_texts_merge_back(texts, i as nat);
        law_filtered_history_merges_back(texts, i as nat);
        law_kept_history_merges_back(snaps, i as nat);
        assert(kept_history(kh)[i] == kh[i]);
        assert(parsed_json_array(filtered_texts(texts)[i]) == Some(kept_at(texts, i)));
    }
    assert(filtered_texts(ft) =~= ft);
    assert forall|i: int| !first_unmergeable(ft, i) by {
        if 0 <= i < ft.len() {
            law_filtered_texts_merge_back(texts, i as nat);
            lemma_history_accumulates(texts, i as nat);
            lemma_accumulated_well_keyed(snaps, i as nat);
            assert(parsed_json_array(filtered_texts(texts)[i]) == Some(kept_at(texts, i)));
            let k = kept_at(texts, i);
            let hist = history(texts, i as nat)->0;
            let latest = parsed_json_array(texts[i])->0;
            assert(latest == snaps[i]);
            assert forall|j: int| 0 <= j < k.len() implies (#[trigger] k[j]).0 is Some by {
                law_kept_items_come_from_snapshot(hist, latest, j);
                let q = choose|q: int| 0 <= q < latest.len() && latest[q] == k[j];
            }
        }
    }
}

} // verus!
