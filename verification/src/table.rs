//! Sequences of recordings kept in order of their ids, and the finite map
//! from id to recording that such a sequence stands for.

use vstd::prelude::*;
use crate::recording::{Recording, RecordingView, views};

verus! {

/// Ids grow strictly from front to back, so no id occurs twice.
pub open spec fn ascending(rows: Seq<RecordingView>) -> bool {
    forall|i: int, j: int| 0 <= i < j < rows.len() ==> rows[i].id < rows[j].id
}

/// Some row carries `id`.
pub open spec fn has_id(rows: Seq<RecordingView>, id: u32) -> bool {
    exists|i: int| 0 <= i < rows.len() && #[trigger] rows[i].id == id
}

/// The place of the row that carries `id`, where there is one.
pub open spec fn slot_of(rows: Seq<RecordingView>, id: u32) -> int {
    choose|i: int| 0 <= i < rows.len() && #[trigger] rows[i].id == id
}

/// The map from id to recording that `rows` stands for.
pub open spec fn as_map(rows: Seq<RecordingView>) -> Map<u32, RecordingView> {
    Map::new(|id: u32| has_id(rows, id), |id: u32| rows[slot_of(rows, id)])
}

/// In an ascending sequence a row is found at its own place.
pub proof fn lemma_slot(rows: Seq<RecordingView>, i: int)
    requires
        ascending(rows),
        0 <= i < rows.len(),
    ensures
        has_id(rows, rows[i].id),
        slot_of(rows, rows[i].id) == i,
        as_map(rows).contains_key(rows[i].id),
        as_map(rows)[rows[i].id] == rows[i],
{
    let id = rows[i].id;
    assert(rows[i].id == id);
    let k = slot_of(rows, id);
    assert(0 <= k < rows.len() && rows[k].id == id);
    if k < i {
        assert(rows[k].id < rows[i].id);
    } else if i < k {
        assert(rows[i].id < rows[k].id);
    }
}

/// Every key of the map sits at some place of the sequence.
pub proof fn lemma_key_has_slot(rows: Seq<RecordingView>, id: u32)
    requires
        has_id(rows, id),
    ensures
        0 <= slot_of(rows, id) < rows.len(),
        rows[slot_of(rows, id)].id == id,
{
}

/// Appending a row with a new, larger id adds one entry to the map.
pub proof fn lemma_map_push(rows: Seq<RecordingView>, row: RecordingView)
    requires
        ascending(rows),
        forall|i: int| 0 <= i < rows.len() ==> rows[i].id < row.id,
    ensures
        ascending(rows.push(row)),
        as_map(rows.push(row)) == as_map(rows).insert(row.id, row),
{
    lemma_map_insert(rows, rows.len() as int, row);
    assert(rows.insert(rows.len() as int, row) =~= rows.push(row));
}

/// Putting a row with a new id at its ordered place adds one entry to the map.
pub proof fn lemma_map_insert(rows: Seq<RecordingView>, at: int, row: RecordingView)
    requires
        ascending(rows),
        0 <= at <= rows.len(),
        forall|i: int| 0 <= i < at ==> rows[i].id < row.id,
        forall|i: int| at <= i < rows.len() ==> row.id < rows[i].id,
    ensures
        ascending(rows.insert(at, row)),
        as_map(rows.insert(at, row)) == as_map(rows).insert(row.id, row),
{
    let after = rows.insert(at, row);
    assert(ascending(after)) by {
        assert forall|i: int, j: int| 0 <= i < j < after.len() implies after[i].id < after[j].id by {
            let a = if i < at { i } else { i - 1 };
            let b = if j < at { j } else { j - 1 };
            if i != at && j != at {
                assert(rows[a].id < rows[b].id);
            }
        }
    }
    let left = as_map(after);
    let right = as_map(rows).insert(row.id, row);
    assert forall|id: u32| left.contains_key(id) <==> right.contains_key(id) by {
        if has_id(after, id) {
            let k = slot_of(after, id);
            if k < at {
                assert(rows[k].id == id);
            } else if k > at {
                assert(rows[k - 1].id == id);
            }
        }
        if id == row.id {
            assert(after[at].id == id);
        } else if has_id(rows, id) {
            let k = slot_of(rows, id);
            if k < at {
                assert(after[k].id == id);
            } else {
                assert(after[k + 1].id == id);
            }
        }
    }
    assert forall|id: u32| left.contains_key(id) implies left[id] == right[id] by {
        let k = slot_of(after, id);
        lemma_slot(after, k);
        if k < at {
            lemma_slot(rows, k);
        } else if k > at {
            lemma_slot(rows, k - 1);
        }
    }
    assert(left =~= right);
}

/// Replacing a row by one of the same id replaces one entry of the map.
pub proof fn lemma_map_update(rows: Seq<RecordingView>, at: int, row: RecordingView)
    requires
        ascending(rows),
        0 <= at < rows.len(),
        rows[at].id == row.id,
    ensures
        ascending(rows.update(at, row)),
        as_map(rows.update(at, row)) == as_map(rows).insert(row.id, row),
{
    let after = rows.update(at, row);
    assert(ascending(after)) by {
        assert forall|i: int, j: int| 0 <= i < j < after.len() implies after[i].id < after[j].id by {
            assert(rows[i].id < rows[j].id);
        }
    }
    let left = as_map(after);
    let right = as_map(rows).insert(row.id, row);
    assert forall|id: u32| left.contains_key(id) <==> right.contains_key(id) by {
        if has_id(after, id) {
            let k = slot_of(after, id);
            assert(rows[k].id == id);
        }
        if id == row.id {
            assert(after[at].id == id);
        } else if has_id(rows, id) {
            let k = slot_of(rows, id);
            assert(after[k].id == id);
        }
    }
    assert forall|id: u32| left.contains_key(id) implies left[id] == right[id] by {
        let k = slot_of(after, id);
        lemma_slot(after, k);
        lemma_slot(rows, k);
    }
    assert(left =~= right);
}

/// Taking a row out takes its entry out of the map.
pub proof fn lemma_map_remove(rows: Seq<RecordingView>, at: int)
    requires
        ascending(rows),
        0 <= at < rows.len(),
    ensures
        ascending(rows.remove(at)),
        as_map(rows.remove(at)) == as_map(rows).remove(rows[at].id),
{
    let gone = rows[at].id;
    let after = rows.remove(at);
    assert(ascending(after)) by {
        assert forall|i: int, j: int| 0 <= i < j < after.len() implies after[i].id < after[j].id by {
            let a = if i < at { i } else { i + 1 };
            let b = if j < at { j } else { j + 1 };
            assert(rows[a].id < rows[b].id);
        }
    }
    let left = as_map(after);
    let right = as_map(rows).remove(gone);
    assert forall|id: u32| left.contains_key(id) <==> right.contains_key(id) by {
        if has_id(after, id) {
            let k = slot_of(after, id);
            let a = if k < at { k } else { k + 1 };
            assert(rows[a].id == id);
            if a < at {
                assert(rows[a].id < rows[at].id);
            } else {
                assert(rows[at].id < rows[a].id);
            }
        }
        if id != gone && has_id(rows, id) {
            let k = slot_of(rows, id);
            if k < at {
                assert(after[k].id == id);
            } else {
                assert(after[k - 1].id == id);
            }
        }
    }
    assert forall|id: u32| left.contains_key(id) implies left[id] == right[id] by {
        let k = slot_of(after, id);
        lemma_slot(after, k);
        let a = if k < at { k } else { k + 1 };
        lemma_slot(rows, a);
    }
    assert(left =~= right);
}

/// Finds the first place whose id is not below `id`.
///
/// Every row before the result has a smaller id and every row from it on has
/// an id at least as large, so the result is where `id` is or would be put.
pub fn lower_bound(rows: &Vec<Recording>, id: u32) -> (at: usize)
    requires
        ascending(views(rows@)),
    ensures
        at <= rows.len(),
        forall|i: int| 0 <= i < at ==> views(rows@)[i].id < id,
        forall|i: int| at <= i < rows.len() ==> id <= views(rows@)[i].id,
{
    let mut low: usize = 0;
    let mut high: usize = rows.len();
    while low < high
        invariant
            low <= high <= rows.len(),
            ascending(views(rows@)),
            forall|i: int| 0 <= i < low ==> views(rows@)[i].id < id,
            forall|i: int| high <= i < rows.len() ==> id <= views(rows@)[i].id,
        decreases high - low,
    {
        let middle: usize = low + (high - low) / 2;
        if rows[middle].id < id {
            assert forall|i: int| 0 <= i < middle + 1 implies views(rows@)[i].id < id by {
                if i < middle {
                    assert(views(rows@)[i].id < views(rows@)[middle as int].id);
                }
            }
            low = middle + 1;
        } else {
            assert forall|i: int| middle <= i < rows.len() implies id <= views(rows@)[i].id by {
                if middle < i {
                    assert(views(rows@)[middle as int].id < views(rows@)[i].id);
                }
            }
            high = middle;
        }
    }
    low
}

/// Looks `id` up: the place of its row, or `None` where no row carries it.
pub fn find(rows: &Vec<Recording>, id: u32) -> (found: Option<usize>)
    requires
        ascending(views(rows@)),
    ensures
        match found {
            Some(at) => at < rows.len() && views(rows@)[at as int].id == id
                && slot_of(views(rows@), id) == at,
            None => !has_id(views(rows@), id),
        },
        found is Some <==> has_id(views(rows@), id),
{
    let at = lower_bound(rows, id);
    if at < rows.len() && rows[at].id == id {
        proof {
            lemma_slot(views(rows@), at as int);
        }
        Some(at)
    } else {
        proof {
            assert forall|i: int| 0 <= i < rows.len() implies views(rows@)[i].id != id by {
                if i > at {
                    assert(views(rows@)[at as int].id < views(rows@)[i].id);
                }
            }
        }
        None
    }
}

} // verus!
