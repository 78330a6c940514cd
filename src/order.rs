use vstd::prelude::*;
use vstd::string::StrSliceExecFns;

use crate::records::Versioned;

verus! {

/// Lexicographic order of natural keys, character by character (the order
/// of `String` in Rust).
pub open spec fn key_le(a: Seq<char>, b: Seq<char>) -> bool
    decreases a.len(),
{
    if a.len() == 0 {
        true
    } else if b.len() == 0 {
        false
    } else if (a[0] as u32) != (b[0] as u32) {
        (a[0] as u32) < (b[0] as u32)
    } else {
        key_le(a.drop_first(), b.drop_first())
    }
}

proof fn lemma_key_le_skip(a: Seq<char>, b: Seq<char>, i: int)
    requires
        0 <= i <= a.len(),
        i <= b.len(),
        forall|j: int| 0 <= j < i ==> (a[j] as u32) == (b[j] as u32),
    ensures
        key_le(a, b) == key_le(a.skip(i), b.skip(i)),
    decreases i,
{
    if i == 0 {
        assert(a.skip(0) =~= a);
        assert(b.skip(0) =~= b);
    } else {
        lemma_key_le_skip(a.drop_first(), b.drop_first(), i - 1);
        assert(a.drop_first().skip(i - 1) =~= a.skip(i));
        assert(b.drop_first().skip(i - 1) =~= b.skip(i));
    }
}

/// Any two keys are ordered one way or the other.
pub proof fn lemma_key_le_total(a: Seq<char>, b: Seq<char>)
    ensures
        key_le(a, b) || key_le(b, a),
    decreases a.len(),
{
    if a.len() > 0 && b.len() > 0 && (a[0] as u32) == (b[0] as u32) {
        lemma_key_le_total(a.drop_first(), b.drop_first());
    }
}

/// The order of keys is transitive.
pub proof fn lemma_key_le_trans(a: Seq<char>, b: Seq<char>, c: Seq<char>)
    requires
        key_le(a, b),
        key_le(b, c),
    ensures
        key_le(a, c),
    decreases a.len(),
{
    if a.len() > 0 && b.len() > 0 && c.len() > 0 && (a[0] as u32) == (b[0] as u32) && (b[0] as u32) == (c[0] as u32) {
        lemma_key_le_trans(a.drop_first(), b.drop_first(), c.drop_first());
    }
}

/// Compares two keys.
pub fn key_le_exec(a: &String, b: &String) -> (r: bool)
    ensures
        r == key_le(a@, b@),
{
    let la = a.as_str().unicode_len();
    let lb = b.as_str().unicode_len();
    let mut i: usize = 0;
    while i < la && i < lb
        invariant
            la == a@.len(),
            lb == b@.len(),
            i <= la,
            i <= lb,
            forall|j: int| 0 <= j < i ==> (a@[j] as u32) == (b@[j] as u32),
        decreases la - i,
    {
        let ca = a.as_str().get_char(i);
        let cb = b.as_str().get_char(i);
        if (ca as u32) != (cb as u32) {
            proof {
                lemma_key_le_skip(a@, b@, i as int);
                assert(a@.skip(i as int)[0] == ca);
                assert(b@.skip(i as int)[0] == cb);
            }
            return (ca as u32) < (cb as u32);
        }
        i = i + 1;
    }
    proof {
        lemma_key_le_skip(a@, b@, i as int);
    }
    i == la
}

/// Where `x` goes in `sorted`: before the first entry whose key is greater
/// than its own, so that entries with equal keys keep their order.
pub open spec fn insert_pos<T: Versioned>(rows: Seq<T>, sorted: Seq<usize>, x: usize) -> int
    decreases sorted.len(),
{
    if sorted.len() == 0 {
        0
    } else if !key_le(rows[sorted[0] as int].key_spec(), rows[x as int].key_spec()) {
        0
    } else {
        1 + insert_pos(rows, sorted.drop_first(), x)
    }
}

/// The positions `idx` ordered by the natural keys of their rows, ascending
/// and stable.
pub open spec fn sort_by_key<T: Versioned>(rows: Seq<T>, idx: Seq<usize>) -> Seq<usize>
    decreases idx.len(),
{
    if idx.len() == 0 {
        idx
    } else {
        let s = sort_by_key(rows, idx.drop_last());
        s.insert(insert_pos(rows, s, idx.last()), idx.last())
    }
}

proof fn lemma_insert_pos_bounds<T: Versioned>(rows: Seq<T>, sorted: Seq<usize>, x: usize)
    ensures
        0 <= insert_pos(rows, sorted, x) <= sorted.len(),
    decreases sorted.len(),
{
    if sorted.len() > 0 {
        lemma_insert_pos_bounds(rows, sorted.drop_first(), x);
    }
}

/// Orders positions of `rows` by the natural keys of their rows.
pub fn sort_indices_by_key<T: Versioned>(rows: &Vec<T>, idx: &Vec<usize>) -> (r: Vec<usize>)
    requires
        forall|k: int| 0 <= k < idx@.len() ==> (#[trigger] idx@[k]) < rows@.len(),
    ensures
        r@ == sort_by_key(rows@, idx@),
{
    let mut out: Vec<usize> = Vec::new();
    let mut i: usize = 0;
    while i < idx.len()
        invariant
            i <= idx@.len(),
            forall|k: int| 0 <= k < idx@.len() ==> (#[trigger] idx@[k]) < rows@.len(),
            out@ == sort_by_key(rows@, idx@.take(i as int)),
            forall|k: int| 0 <= k < out@.len() ==> (#[trigger] out@[k]) < rows@.len(),
            out@.len() == i,
        decreases idx@.len() - i,
    {
        let x = idx[i];
        let mut p: usize = 0;
        proof {
            assert(out@.skip(0) =~= out@);
        }
        while p < out.len() && key_le_exec(rows[out[p]].natural_key(), rows[x].natural_key())
            invariant
                p <= out@.len(),
                x < rows@.len(),
                forall|k: int| 0 <= k < out@.len() ==> (#[trigger] out@[k]) < rows@.len(),
                insert_pos(rows@, out@, x) == p + insert_pos(rows@, out@.skip(p as int), x),
            decreases out@.len() - p,
        {
            proof {
                assert(out@.skip(p as int).drop_first() =~= out@.skip(p as int + 1));
            }
            p = p + 1;
        }
        proof {
            if p == out@.len() {
                assert(out@.skip(p as int).len() == 0);
            }
            lemma_insert_pos_bounds(rows@, out@, x);
            assert(idx@.take(i as int + 1).drop_last() =~= idx@.take(i as int));
            assert(idx@.take(i as int + 1).last() == x);
        }
        let ghost before = out@;
        out.insert(p, x);
        proof {
            assert forall|k: int| 0 <= k < out@.len() implies (#[trigger] out@[k]) < rows@.len() by {
                if k < p {
                    assert(out@[k] == before[k]);
                } else if k > p {
                    assert(out@[k] == before[k - 1]);
                }
            }
        }
        i = i + 1;
    }
    proof {
        assert(idx@.take(idx@.len() as int) =~= idx@);
    }
    out
}

proof fn lemma_insert_pos_bounds_all<T: Versioned>(rows: Seq<T>, s: Seq<usize>, x: usize)
    ensures
        0 <= insert_pos(rows, s, x) <= s.len(),
{
    lemma_insert_pos_bounds(rows, s, x);
}

/// Sorting keeps the entries: the result holds the same positions, as many
/// times each, and so the same number of them.
pub proof fn lemma_sort_keeps_positions<T: Versioned>(rows: Seq<T>, idx: Seq<usize>)
    ensures
        sort_by_key(rows, idx).len() == idx.len(),
        sort_by_key(rows, idx).to_multiset() == idx.to_multiset(),
        forall|k: int| 0 <= k < sort_by_key(rows, idx).len() ==> idx.contains(#[trigger] sort_by_key(rows, idx)[k]),
    decreases idx.len(),
{
    if idx.len() > 0 {
        let init = idx.drop_last();
        lemma_sort_keeps_positions(rows, init);
        let s = sort_by_key(rows, init);
        let x = idx.last();
        let p = insert_pos(rows, s, x);
        lemma_insert_pos_bounds_all(rows, s, x);
        vstd::seq_lib::to_multiset_insert(s, p, x);
        vstd::seq_lib::to_multiset_build(init, x);
        assert(init.push(x) =~= idx);
        let r = sort_by_key(rows, idx);
        assert forall|k: int| 0 <= k < r.len() implies idx.contains(#[trigger] r[k]) by {
            r.to_multiset_ensures();
            idx.to_multiset_ensures();
            assert(r.contains(r[k]));
        }
    }
}

/// Whether the rows at positions `s` come in ascending order of natural key.
pub open spec fn sorted_by_key<T: Versioned>(rows: Seq<T>, s: Seq<usize>) -> bool {
    forall|a: int, b: int|
        0 <= a < b < s.len() ==> key_le(
            #[trigger] rows[s[a] as int].key_spec(),
            #[trigger] rows[s[b] as int].key_spec(),
        )
}

proof fn lemma_insert_pos_splits<T: Versioned>(rows: Seq<T>, s: Seq<usize>, x: usize)
    requires
        sorted_by_key(rows, s),
    ensures
        forall|k: int| 0 <= k < insert_pos(rows, s, x) ==> key_le(#[trigger] rows[s[k] as int].key_spec(), rows[x as int].key_spec()),
        insert_pos(rows, s, x) < s.len() ==> !key_le(rows[s[insert_pos(rows, s, x)] as int].key_spec(), rows[x as int].key_spec()),
    decreases s.len(),
{
    lemma_insert_pos_bounds(rows, s, x);
    if s.len() > 0 && key_le(rows[s[0] as int].key_spec(), rows[x as int].key_spec()) {
        let t = s.drop_first();
        lemma_insert_pos_bounds(rows, t, x);
        assert(insert_pos(rows, s, x) == 1 + insert_pos(rows, t, x));
        assert(sorted_by_key(rows, t)) by {
            assert forall|a: int, b: int| 0 <= a < b < t.len() implies key_le(
                #[trigger] rows[t[a] as int].key_spec(),
                #[trigger] rows[t[b] as int].key_spec(),
            ) by {
                assert(t[a] == s[a + 1] && t[b] == s[b + 1]);
            }
        }
        lemma_insert_pos_splits(rows, t, x);
        assert forall|k: int| 0 <= k < insert_pos(rows, s, x) implies key_le(#[trigger] rows[s[k] as int].key_spec(), rows[x as int].key_spec()) by {
            if k > 0 {
                assert(s[k] == t[k - 1]);
            }
        }
        if insert_pos(rows, s, x) < s.len() {
            assert(s[insert_pos(rows, s, x)] == t[insert_pos(rows, t, x)]);
        }
    }
}

/// Sorting orders the positions by the natural keys of their rows,
/// ascending.
pub proof fn lemma_sort_sorted<T: Versioned>(rows: Seq<T>, idx: Seq<usize>)
    ensures
        sorted_by_key(rows, sort_by_key(rows, idx)),
    decreases idx.len(),
{
    if idx.len() > 0 {
        lemma_sort_sorted(rows, idx.drop_last());
        let s = sort_by_key(rows, idx.drop_last());
        let x = idx.last();
        let p = insert_pos(rows, s, x);
        lemma_insert_pos_bounds(rows, s, x);
        lemma_insert_pos_splits(rows, s, x);
        let r = s.insert(p, x);
        assert(r == sort_by_key(rows, idx));
        let kx = rows[x as int].key_spec();
        assert forall|k: int| p <= k < s.len() implies key_le(kx, #[trigger] rows[s[k] as int].key_spec()) by {
            lemma_key_le_total(rows[s[p] as int].key_spec(), kx);
            if k > p {
                lemma_key_le_trans(kx, rows[s[p] as int].key_spec(), rows[s[k] as int].key_spec());
            }
        }
        assert forall|a: int, b: int| 0 <= a < b < r.len() implies key_le(
            #[trigger] rows[r[a] as int].key_spec(),
            #[trigger] rows[r[b] as int].key_spec(),
        ) by {
            if a < p && b < p {
                assert(r[a] == s[a] && r[b] == s[b]);
            } else if a < p && b == p {
                assert(r[a] == s[a] && r[b] == x);
            } else if a < p {
                assert(r[a] == s[a] && r[b] == s[b - 1]);
            } else if a == p {
                assert(r[a] == x && r[b] == s[b - 1]);
            } else {
                assert(r[a] == s[a - 1] && r[b] == s[b - 1]);
            }
        }
    }
}

proof fn lemma_insert_pos_same_keys<T: Versioned>(rows1: Seq<T>, rows2: Seq<T>, s: Seq<usize>, x: usize)
    requires
        x < rows1.len(),
        forall|k: int| 0 <= k < s.len() ==> (#[trigger] s[k]) < rows1.len(),
        rows1.len() <= rows2.len(),
        forall|i: int| 0 <= i < rows1.len() ==> (#[trigger] rows2[i]).key_spec() == rows1[i].key_spec(),
    ensures
        insert_pos(rows2, s, x) == insert_pos(rows1, s, x),
    decreases s.len(),
{
    if s.len() > 0 {
        let t = s.drop_first();
        assert forall|k: int| 0 <= k < t.len() implies (#[trigger] t[k]) < rows1.len() by {
            assert(t[k] == s[k + 1]);
        }
        assert(rows2[s[0] as int].key_spec() == rows1[s[0] as int].key_spec());
        assert(rows2[x as int].key_spec() == rows1[x as int].key_spec());
        lemma_insert_pos_same_keys(rows1, rows2, t, x);
    }
}

/// Sorting positions depends only on the keys of the rows at those
/// positions: tables that agree on those keys sort them alike.
pub proof fn lemma_sort_same_keys<T: Versioned>(rows1: Seq<T>, rows2: Seq<T>, idx: Seq<usize>)
    requires
        forall|k: int| 0 <= k < idx.len() ==> (#[trigger] idx[k]) < rows1.len(),
        rows1.len() <= rows2.len(),
        forall|i: int| 0 <= i < rows1.len() ==> (#[trigger] rows2[i]).key_spec() == rows1[i].key_spec(),
    ensures
        sort_by_key(rows2, idx) == sort_by_key(rows1, idx),
    decreases idx.len(),
{
    if idx.len() > 0 {
        let init = idx.drop_last();
        assert forall|k: int| 0 <= k < init.len() implies (#[trigger] init[k]) < rows1.len() by {
            assert(init[k] == idx[k]);
        }
        lemma_sort_same_keys(rows1, rows2, init);
        lemma_sort_keeps_positions(rows1, init);
        let s = sort_by_key(rows1, init);
        assert forall|k: int| 0 <= k < s.len() implies (#[trigger] s[k]) < rows1.len() by {
            assert(init.contains(s[k]));
        }
        lemma_insert_pos_same_keys(rows1, rows2, s, idx.last());
    }
}

} // verus!
