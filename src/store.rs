use vstd::prelude::*;

use crate::error::{message_of, ApiError};
use crate::records::{live, Owned, Versioned};

verus! {

/// The positions of the rows that satisfy `pred`, in table order.
pub open spec fn indices_where<T>(rows: Seq<T>, pred: spec_fn(T) -> bool) -> Seq<usize>
    decreases rows.len(),
{
    if rows.len() == 0 {
        Seq::empty()
    } else {
        let before = indices_where(rows.drop_last(), pred);
        if pred(rows.last()) {
            before.push((rows.len() - 1) as usize)
        } else {
            before
        }
    }
}

/// Rows visible at `head`.
pub open spec fn live_pred<T: Versioned>(head: int) -> spec_fn(T) -> bool {
    |x: T| live(x, head)
}

/// Rows visible at `head` whose natural key is `key`.
pub open spec fn keyed_pred<T: Versioned>(key: Seq<char>, head: int) -> spec_fn(T) -> bool {
    |x: T| live(x, head) && x.key_spec() == key
}

/// What `indices_where` holds: exactly the positions whose row satisfies the
/// predicate, each once, in increasing order.
pub proof fn lemma_indices_where<T>(rows: Seq<T>, pred: spec_fn(T) -> bool)
    requires
        rows.len() <= usize::MAX,
    ensures
        forall|k: int|
            0 <= k < indices_where(rows, pred).len() ==> (#[trigger] indices_where(rows, pred)[k]) < rows.len()
                && pred(rows[indices_where(rows, pred)[k] as int]),
        forall|i: int|
            0 <= i < rows.len() && pred(#[trigger] rows[i]) ==> indices_where(rows, pred).contains(i as usize),
        forall|a: int, b: int|
            0 <= a < b < indices_where(rows, pred).len() ==> indices_where(rows, pred)[a] < indices_where(rows, pred)[b],
        indices_where(rows, pred).len() <= rows.len(),
    decreases rows.len(),
{
    if rows.len() > 0 {
        let init = rows.drop_last();
        lemma_indices_where(init, pred);
        let before = indices_where(init, pred);
        assert forall|i: int| 0 <= i < rows.len() && pred(#[trigger] rows[i]) implies indices_where(rows, pred).contains(i as usize) by {
            if i < rows.len() - 1 {
                assert(init[i] == rows[i]);
                let k = choose|k: int| 0 <= k < before.len() && before[k] == i as usize;
                assert(indices_where(rows, pred)[k] == i as usize);
            } else {
                assert(indices_where(rows, pred).last() == i as usize);
            }
        }
    }
}

/// Whether `r` holds at most `n` positions, each below `n`.
pub open spec fn positions_in(r: Seq<usize>, n: int) -> bool {
    r.len() <= n && forall|k: int| 0 <= k < r.len() ==> (#[trigger] r[k]) < n
}

/// The positions of the rows visible at `head`, in table order.
pub fn live_rows<T: Versioned>(rows: &Vec<T>, head: i64) -> (r: Vec<usize>)
    ensures
        r@ == indices_where(rows@, live_pred::<T>(head as int)),
        positions_in(r@, rows@.len() as int),
{
    let mut out: Vec<usize> = Vec::new();
    let mut i: usize = 0;
    while i < rows.len()
        invariant
            i <= rows@.len(),
            out@ == indices_where(rows@.take(i as int), live_pred::<T>(head as int)),
        decreases rows@.len() - i,
    {
        proof {
            assert(rows@.take(i as int + 1).drop_last() =~= rows@.take(i as int));
        }
        let row = &rows[i];
        if row.start_block() <= head && head < row.end_block() {
            out.push(i);
        }
        i = i + 1;
    }
    proof {
        assert(rows@.take(rows@.len() as int) =~= rows@);
        lemma_indices_where(rows@, live_pred::<T>(head as int));
    }
    out
}

/// The positions of the rows visible at `head` whose natural key is `key`,
/// in table order.
pub fn keyed_rows<T: Versioned>(rows: &Vec<T>, key: &String, head: i64) -> (r: Vec<usize>)
    ensures
        r@ == indices_where(rows@, keyed_pred::<T>(key@, head as int)),
        positions_in(r@, rows@.len() as int),
{
    let mut out: Vec<usize> = Vec::new();
    let mut i: usize = 0;
    while i < rows.len()
        invariant
            i <= rows@.len(),
            out@ == indices_where(rows@.take(i as int), keyed_pred::<T>(key@, head as int)),
        decreases rows@.len() - i,
    {
        proof {
            assert(rows@.take(i as int + 1).drop_last() =~= rows@.take(i as int));
        }
        let row = &rows[i];
        if row.start_block() <= head && head < row.end_block() && row.natural_key().eq(key) {
            out.push(i);
        }
        i = i + 1;
    }
    proof {
        assert(rows@.take(rows@.len() as int) =~= rows@);
        lemma_indices_where(rows@, keyed_pred::<T>(key@, head as int));
    }
    out
}

/// The outcome of a lookup that must find at most one row among the
/// matching positions `m`: none, the one, or `Err` for more than one.
pub open spec fn unique_of(m: Seq<usize>) -> Result<Option<usize>, ()> {
    if m.len() == 0 {
        Ok(None)
    } else if m.len() == 1 {
        Ok(Some(m[0]))
    } else {
        Err(())
    }
}

/// The outcome of looking up `key` at `head`: the position of its one
/// visible version, none, or `Err` when more than one is visible.
pub open spec fn lookup<T: Versioned>(rows: Seq<T>, key: Seq<char>, head: int) -> Result<Option<usize>, ()> {
    unique_of(indices_where(rows, keyed_pred::<T>(key, head)))
}

/// Picks the one matching position; more than one breaks the non-overlap
/// invariant of the table and is an internal error, never a silent pick.
pub fn unique(m: &Vec<usize>) -> (r: Result<Option<usize>, ApiError>)
    ensures
        unique_of(m@) matches Ok(o) ==> r == Ok::<Option<usize>, ApiError>(o),
        unique_of(m@) is Err ==> (r matches Err(e) && e.is_internal()),
{
    if m.len() == 0 {
        Ok(None)
    } else if m.len() == 1 {
        Ok(Some(m[0]))
    } else {
        Err(ApiError::InternalError(message_of("more than one version of a key is visible at one head")))
    }
}

/// Looks up the one version of `key` visible at `head`. No version gives
/// `Ok(None)`; more than one is an internal error.
pub fn get<T: Versioned>(rows: &Vec<T>, key: &String, head: i64) -> (r: Result<Option<usize>, ApiError>)
    ensures
        lookup(rows@, key@, head as int) matches Ok(o) ==> r == Ok::<Option<usize>, ApiError>(o),
        lookup(rows@, key@, head as int) is Err ==> (r matches Err(e) && e.is_internal()),
        r matches Ok(Some(i)) ==> i < rows@.len() && live(rows@[i as int], head as int)
            && rows@[i as int].key_spec() == key@
            && forall|j: int| 0 <= j < rows@.len() && live(#[trigger] rows@[j], head as int)
                && rows@[j].key_spec() == key@ ==> j == i,
{
    let m = keyed_rows(rows, key, head);
    let n = rows.len();
    proof {
        lemma_indices_where(rows@, keyed_pred::<T>(key@, head as int));
        if m@.len() == 1 {
            assert forall|j: int| 0 <= j < rows@.len() && live(#[trigger] rows@[j], head as int)
                && rows@[j].key_spec() == key@ implies j == m@[0] by {
                assert(keyed_pred::<T>(key@, head as int)(rows@[j]));
                assert(m@.contains(j as usize));
            }
        }
    }
    unique(&m)
}

/// A row visible at one head stays visible at every later head before its
/// interval ends, and is gone from the first head at or past its end.
pub proof fn lemma_live_until_superseded<T: Versioned>(rows: Seq<T>, i: int, h1: int, h2: int)
    requires
        rows.len() <= usize::MAX,
        0 <= i < rows.len(),
        h1 < h2,
        live(rows[i], h1),
    ensures
        h2 < rows[i].end_spec() ==> indices_where(rows, live_pred::<T>(h2)).contains(i as usize),
        rows[i].end_spec() <= h2 ==> !indices_where(rows, live_pred::<T>(h2)).contains(i as usize),
{
    lemma_indices_where(rows, live_pred::<T>(h2));
    if h2 < rows[i].end_spec() {
        assert(live_pred::<T>(h2)(rows[i]));
    }
    if rows[i].end_spec() <= h2 {
        let m = indices_where(rows, live_pred::<T>(h2));
        if m.contains(i as usize) {
            let k = choose|k: int| 0 <= k < m.len() && m[k] == i as usize;
            assert(m[k] as int == i);
            assert(live_pred::<T>(h2)(rows[m[k] as int]));
        }
    }
}

/// Two versions of one key whose intervals share a block.
pub open spec fn overlap<T: Versioned>(a: T, b: T) -> bool {
    a.key_spec() == b.key_spec() && a.start_spec() < b.end_spec() && b.start_spec() < a.end_spec()
}

/// The two invariants that ingestion must keep: every interval is
/// non-empty, and no two versions of one key overlap.
pub open spec fn versions_consistent<T: Versioned>(rows: Seq<T>) -> bool {
    &&& forall|i: int| 0 <= i < rows.len() ==> (#[trigger] rows[i]).start_spec() < rows[i].end_spec()
    &&& forall|i: int, j: int| 0 <= i < j < rows.len() ==> !overlap(#[trigger] rows[i], #[trigger] rows[j])
}

/// Checks a table against the invariants that ingestion must keep, so that
/// a violation is found before it shows up as an internal error of a read.
pub fn check_versions<T: Versioned>(rows: &Vec<T>) -> (r: bool)
    ensures
        r == versions_consistent(rows@),
{
    let n = rows.len();
    let mut i: usize = 0;
    while i < n
        invariant
            n == rows@.len(),
            i <= n,
            forall|a: int| 0 <= a < i ==> (#[trigger] rows@[a]).start_spec() < rows@[a].end_spec(),
            forall|a: int, b: int| 0 <= a < i && a < b < n ==> !overlap(#[trigger] rows@[a], #[trigger] rows@[b]),
        decreases n - i,
    {
        let a = &rows[i];
        if a.start_block() >= a.end_block() {
            return false;
        }
        let mut j: usize = i + 1;
        while j < n
            invariant
                n == rows@.len(),
                i < n,
                i < j <= n,
                *a == rows@[i as int],
                forall|b: int| i < b < j ==> !overlap(rows@[i as int], #[trigger] rows@[b]),
            decreases n - j,
        {
            let b = &rows[j];
            if a.natural_key().eq(b.natural_key()) && a.start_block() < b.end_block() && b.start_block() < a.end_block() {
                proof {
                    assert(overlap(rows@[i as int], rows@[j as int]));
                }
                return false;
            }
            j = j + 1;
        }
        i = i + 1;
    }
    true
}

/// Under the non-overlap invariant a lookup never finds two visible
/// versions of one key: at most one row is visible for any key and head.
pub proof fn lemma_consistent_lookup_unique<T: Versioned>(rows: Seq<T>, key: Seq<char>, head: int)
    requires
        rows.len() <= usize::MAX,
        versions_consistent(rows),
    ensures
        lookup(rows, key, head) is Ok,
{
    let m = indices_where(rows, keyed_pred::<T>(key, head));
    lemma_indices_where(rows, keyed_pred::<T>(key, head));
    if m.len() > 1 {
        let a = m[0] as int;
        let b = m[1] as int;
        assert(keyed_pred::<T>(key, head)(rows[a]));
        assert(keyed_pred::<T>(key, head)(rows[b]));
        assert(a < b);
        assert(overlap(rows[a], rows[b]));
    }
}

/// Rows visible at `head` that belong to the entity `k`.
pub open spec fn owned_pred<T: Versioned + Owned>(k: Seq<char>, head: int) -> spec_fn(T) -> bool {
    |x: T| live(x, head) && x.owner_spec() == k
}

/// The outcome of looking up the one row visible at `head` that belongs to
/// `k`.
pub open spec fn lookup_owned<T: Versioned + Owned>(rows: Seq<T>, k: Seq<char>, head: int) -> Result<Option<usize>, ()> {
    unique_of(indices_where(rows, owned_pred::<T>(k, head)))
}

/// The positions of the rows visible at `head` that belong to `owner`, in
/// table order.
pub fn owned_rows<T: Versioned + Owned>(rows: &Vec<T>, owner: &String, head: i64) -> (r: Vec<usize>)
    ensures
        r@ == indices_where(rows@, owned_pred::<T>(owner@, head as int)),
        positions_in(r@, rows@.len() as int),
{
    let mut out: Vec<usize> = Vec::new();
    let mut i: usize = 0;
    while i < rows.len()
        invariant
            i <= rows@.len(),
            out@ == indices_where(rows@.take(i as int), owned_pred::<T>(owner@, head as int)),
        decreases rows@.len() - i,
    {
        proof {
            assert(rows@.take(i as int + 1).drop_last() =~= rows@.take(i as int));
        }
        let row = &rows[i];
        if row.start_block() <= head && head < row.end_block() && row.owner_key().eq(owner) {
            out.push(i);
        }
        i = i + 1;
    }
    proof {
        assert(rows@.take(rows@.len() as int) =~= rows@);
        lemma_indices_where(rows@, owned_pred::<T>(owner@, head as int));
    }
    out
}

/// Fans the rows visible at `head` out to the entities they belong to, in
/// one pass over the table: entry `j` holds the positions of the rows that
/// belong to `owners[j]`, in table order.
pub fn group_by_owner<T: Versioned + Owned>(rows: &Vec<T>, owners: &Vec<String>, head: i64) -> (r: Vec<Vec<usize>>)
    ensures
        r@.len() == owners@.len(),
        forall|j: int|
            0 <= j < owners@.len() ==> (#[trigger] r@[j])@ == indices_where(rows@, owned_pred::<T>(owners@[j]@, head as int)),
{
    let mut groups: Vec<Vec<usize>> = Vec::new();
    let mut j: usize = 0;
    while j < owners.len()
        invariant
            j <= owners@.len(),
            groups@.len() == j,
            forall|k: int| 0 <= k < j ==> (#[trigger] groups@[k])@ == Seq::<usize>::empty(),
        decreases owners@.len() - j,
    {
        groups.push(Vec::new());
        j = j + 1;
    }
    let mut i: usize = 0;
    while i < rows.len()
        invariant
            i <= rows@.len(),
            groups@.len() == owners@.len(),
            forall|k: int|
                0 <= k < owners@.len() ==> (#[trigger] groups@[k])@ == indices_where(
                    rows@.take(i as int),
                    owned_pred::<T>(owners@[k]@, head as int),
                ),
        decreases rows@.len() - i,
    {
        proof {
            assert(rows@.take(i as int + 1).drop_last() =~= rows@.take(i as int));
        }
        let row = &rows[i];
        let visible = row.start_block() <= head && head < row.end_block();
        let ghost before = groups@;
        let mut j: usize = 0;
        while j < owners.len()
            invariant
                i < rows@.len(),
                *row == rows@[i as int],
                j <= owners@.len(),
                groups@.len() == owners@.len(),
                visible == live(rows@[i as int], head as int),
                rows@.take(i as int + 1).drop_last() == rows@.take(i as int),
                rows@.take(i as int + 1).last() == rows@[i as int],
                forall|k: int| j <= k < owners@.len() ==> #[trigger] groups@[k] == before[k],
                forall|k: int|
                    0 <= k < j ==> (#[trigger] groups@[k])@ == indices_where(
                        rows@.take(i as int + 1),
                        owned_pred::<T>(owners@[k]@, head as int),
                    ),
                forall|k: int|
                    0 <= k < owners@.len() ==> (#[trigger] before[k])@ == indices_where(
                        rows@.take(i as int),
                        owned_pred::<T>(owners@[k]@, head as int),
                    ),
            decreases owners@.len() - j,
        {
            let ghost at_j = groups@;
            if visible && row.owner_key().eq(&owners[j]) {
                groups[j].push(i);
            }
            proof {
                assert forall|k: int| 0 <= k < owners@.len() && k != j implies #[trigger] groups@[k] == at_j[k] by {}
                assert(groups@[j as int]@ == indices_where(
                    rows@.take(i as int + 1),
                    owned_pred::<T>(owners@[j as int]@, head as int),
                ));
            }
            j = j + 1;
        }
        i = i + 1;
    }
    proof {
        assert(rows@.take(rows@.len() as int) =~= rows@);
    }
    groups
}

/// Whether `rows2` is `rows1` after ingestion past `head`: the rows of
/// `rows1` in their places with the same keys and starts, each with its end
/// unchanged or both ends past `head` (a row closed after `head`), followed by
/// rows that start after `head`.
pub open spec fn grown_past<T: Versioned>(rows1: Seq<T>, rows2: Seq<T>, head: int) -> bool {
    &&& rows1.len() <= rows2.len()
    &&& forall|i: int|
        0 <= i < rows1.len() ==> {
            &&& (#[trigger] rows2[i]).key_spec() == rows1[i].key_spec()
            &&& rows2[i].start_spec() == rows1[i].start_spec()
            &&& (rows2[i].end_spec() == rows1[i].end_spec() || (rows1[i].end_spec() > head
                && rows2[i].end_spec() > head))
        }
    &&& forall|i: int| rows1.len() <= i < rows2.len() ==> (#[trigger] rows2[i]).start_spec() > head
}

/// Positions selected by a predicate stay the same when the rows it holds
/// of keep their answers and the rows added after them fail it.
pub proof fn lemma_indices_same<T>(rows1: Seq<T>, rows2: Seq<T>, pred: spec_fn(T) -> bool)
    requires
        rows1.len() <= rows2.len(),
        forall|i: int| 0 <= i < rows1.len() ==> pred(#[trigger] rows2[i]) == pred(rows1[i]),
        forall|i: int| rows1.len() <= i < rows2.len() ==> !pred(#[trigger] rows2[i]),
    ensures
        indices_where(rows2, pred) == indices_where(rows1, pred),
    decreases rows2.len(),
{
    if rows2.len() > rows1.len() {
        let d2 = rows2.drop_last();
        assert(!pred(rows2[rows2.len() - 1]));
        assert forall|i: int| 0 <= i < rows1.len() implies pred(#[trigger] d2[i]) == pred(rows1[i]) by {
            assert(d2[i] == rows2[i]);
        }
        assert forall|i: int| rows1.len() <= i < d2.len() implies !pred(#[trigger] d2[i]) by {
            assert(d2[i] == rows2[i]);
        }
        lemma_indices_same(rows1, d2, pred);
    } else if rows2.len() > 0 {
        let d1 = rows1.drop_last();
        let d2 = rows2.drop_last();
        assert(pred(rows2[rows2.len() - 1]) == pred(rows1[rows1.len() - 1]));
        assert forall|i: int| 0 <= i < d1.len() implies pred(#[trigger] d2[i]) == pred(d1[i]) by {
            assert(d2[i] == rows2[i] && d1[i] == rows1[i]);
        }
        lemma_indices_same(d1, d2, pred);
    } else {
        assert(rows1.len() == 0);
    }
}

/// The rows visible at `head`, and their positions, are the same before and
/// after ingestion past `head`.
pub proof fn lemma_live_rows_after_ingestion<T: Versioned>(rows1: Seq<T>, rows2: Seq<T>, head: int)
    requires
        grown_past(rows1, rows2, head),
    ensures
        indices_where(rows2, live_pred::<T>(head)) == indices_where(rows1, live_pred::<T>(head)),
{
    let pred = live_pred::<T>(head);
    assert forall|i: int| 0 <= i < rows1.len() implies pred(#[trigger] rows2[i]) == pred(rows1[i]) by {
        assert(rows2[i].key_spec() == rows1[i].key_spec());
    }
    assert forall|i: int| rows1.len() <= i < rows2.len() implies !pred(#[trigger] rows2[i]) by {
        assert(rows2[i].start_spec() > head);
    }
    lemma_indices_same(rows1, rows2, pred);
}

/// Whether the rows of `rows1` keep their owners in `rows2`.
pub open spec fn owners_kept<T: Owned>(rows1: Seq<T>, rows2: Seq<T>) -> bool {
    forall|i: int| 0 <= i < rows1.len() ==> (#[trigger] rows2[i]).owner_spec() == rows1[i].owner_spec()
}

/// A lookup by key at `head` finds the same row before and after ingestion
/// past `head`.
pub proof fn lemma_lookup_after_ingestion<T: Versioned>(rows1: Seq<T>, rows2: Seq<T>, key: Seq<char>, head: int)
    requires
        grown_past(rows1, rows2, head),
    ensures
        lookup(rows2, key, head) == lookup(rows1, key, head),
{
    let pred = keyed_pred::<T>(key, head);
    assert forall|i: int| 0 <= i < rows1.len() implies pred(#[trigger] rows2[i]) == pred(rows1[i]) by {
        assert(rows2[i].key_spec() == rows1[i].key_spec());
    }
    assert forall|i: int| rows1.len() <= i < rows2.len() implies !pred(#[trigger] rows2[i]) by {
        assert(rows2[i].start_spec() > head);
    }
    lemma_indices_same(rows1, rows2, pred);
}

/// A lookup by owner at `head` finds the same row before and after
/// ingestion past `head`, when the rows keep their owners.
pub proof fn lemma_lookup_owned_after_ingestion<T: Versioned + Owned>(
    rows1: Seq<T>,
    rows2: Seq<T>,
    k: Seq<char>,
    head: int,
)
    requires
        grown_past(rows1, rows2, head),
        owners_kept(rows1, rows2),
    ensures
        lookup_owned(rows2, k, head) == lookup_owned(rows1, k, head),
{
    let pred = owned_pred::<T>(k, head);
    assert forall|i: int| 0 <= i < rows1.len() implies pred(#[trigger] rows2[i]) == pred(rows1[i]) by {
        assert(rows2[i].key_spec() == rows1[i].key_spec());
        assert(rows2[i].owner_spec() == rows1[i].owner_spec());
    }
    assert forall|i: int| rows1.len() <= i < rows2.len() implies !pred(#[trigger] rows2[i]) by {
        assert(rows2[i].start_spec() > head);
    }
    lemma_indices_same(rows1, rows2, pred);
}

/// The rows visible at `head` that belong to `k`, and their positions, are
/// the same before and after ingestion past `head`, when the rows keep their
/// owners.
pub proof fn lemma_owned_rows_after_ingestion<T: Versioned + Owned>(
    rows1: Seq<T>,
    rows2: Seq<T>,
    k: Seq<char>,
    head: int,
)
    requires
        grown_past(rows1, rows2, head),
        owners_kept(rows1, rows2),
    ensures
        indices_where(rows2, owned_pred::<T>(k, head)) == indices_where(rows1, owned_pred::<T>(k, head)),
{
    lemma_lookup_owned_after_ingestion(rows1, rows2, k, head);
    let pred = owned_pred::<T>(k, head);
    assert forall|i: int| 0 <= i < rows1.len() implies pred(#[trigger] rows2[i]) == pred(rows1[i]) by {
        assert(rows2[i].key_spec() == rows1[i].key_spec());
        assert(rows2[i].owner_spec() == rows1[i].owner_spec());
    }
    assert forall|i: int| rows1.len() <= i < rows2.len() implies !pred(#[trigger] rows2[i]) by {
        assert(rows2[i].start_spec() > head);
    }
    lemma_indices_same(rows1, rows2, pred);
}

} // verus!
