use vstd::prelude::*;

use crate::records::{live, Address, Certificate, Versioned};

verus! {

/// The least trigram similarity, in thousandths, at which a fuzzy filter
/// accepts a stored value.
pub const SIMILARITY_THRESHOLD: u32 = 200;

/// Whether `k` is one of `keys`.
pub open spec fn in_keys(keys: Seq<String>, k: Seq<char>) -> bool {
    exists|j: int| 0 <= j < keys.len() && (#[trigger] keys[j])@ == k
}

/// Whether some row among the first `n`, visible at `head` and flagged in
/// `hits`, has the natural key `k`.
pub open spec fn hit_key_below<T: Versioned>(rows: Seq<T>, hits: Seq<bool>, head: int, k: Seq<char>, n: int) -> bool {
    exists|i: int| 0 <= i < n && live(#[trigger] rows[i], head) && hits[i] && rows[i].key_spec() == k
}

/// Whether some row visible at `head` and flagged in `hits` has the natural
/// key `k`.
pub open spec fn hit_key<T: Versioned>(rows: Seq<T>, hits: Seq<bool>, head: int, k: Seq<char>) -> bool {
    hit_key_below(rows, hits, head, k, rows.len() as int)
}

/// Whether `k` is in `keys`.
pub fn contains_key(keys: &Vec<String>, k: &String) -> (r: bool)
    ensures
        r == in_keys(keys@, k@),
{
    let mut j: usize = 0;
    while j < keys.len()
        invariant
            j <= keys@.len(),
            forall|t: int| 0 <= t < j ==> (#[trigger] keys@[t])@ != k@,
        decreases keys@.len() - j,
    {
        if keys[j].eq(k) {
            return true;
        }
        j = j + 1;
    }
    false
}

/// The natural keys of the rows visible at `head` that `hits` flags; `hits`
/// has one entry per row.
pub fn keys_of_hits<T: Versioned>(rows: &Vec<T>, hits: &Vec<bool>, head: i64) -> (r: Vec<String>)
    requires
        hits@.len() == rows@.len(),
    ensures
        forall|k: Seq<char>| in_keys(r@, k) <==> hit_key(rows@, hits@, head as int, k),
{
    let mut out: Vec<String> = Vec::new();
    let mut i: usize = 0;
    while i < rows.len()
        invariant
            i <= rows@.len(),
            hits@.len() == rows@.len(),
            forall|k: Seq<char>| in_keys(out@, k) <==> hit_key_below(rows@, hits@, head as int, k, i as int),
        decreases rows@.len() - i,
    {
        let row = &rows[i];
        let ghost old_out = out@;
        if hits[i] && row.start_block() <= head && head < row.end_block() {
            out.push(row.natural_key().clone());
            proof {
                assert forall|k: Seq<char>| in_keys(out@, k) <==> hit_key_below(rows@, hits@, head as int, k, i + 1) by {
                    if in_keys(out@, k) {
                        let j = choose|j: int| 0 <= j < out@.len() && (#[trigger] out@[j])@ == k;
                        if j < old_out.len() {
                            assert(old_out[j] == out@[j]);
                            assert(in_keys(old_out, k));
                        } else {
                            assert(live(rows@[i as int], head as int) && hits@[i as int]);
                        }
                    }
                    if hit_key_below(rows@, hits@, head as int, k, i + 1) {
                        let t = choose|t: int| 0 <= t < i + 1 && live(#[trigger] rows@[t], head as int) && hits@[t] && rows@[t].key_spec() == k;
                        if t < i {
                            assert(hit_key_below(rows@, hits@, head as int, k, i as int));
                            assert(in_keys(old_out, k));
                            let j = choose|j: int| 0 <= j < old_out.len() && (#[trigger] old_out[j])@ == k;
                            assert(out@[j] == old_out[j]);
                        } else {
                            assert(out@[old_out.len() as int]@ == k);
                        }
                    }
                }
            }
        } else {
            proof {
                assert forall|k: Seq<char>| in_keys(out@, k) <==> hit_key_below(rows@, hits@, head as int, k, i + 1) by {
                    if hit_key_below(rows@, hits@, head as int, k, i + 1) {
                        let t = choose|t: int| 0 <= t < i + 1 && live(#[trigger] rows@[t], head as int) && hits@[t] && rows@[t].key_spec() == k;
                        assert(t < i);
                        assert(hit_key_below(rows@, hits@, head as int, k, i as int));
                    }
                }
            }
        }
        i = i + 1;
    }
    out
}

/// Whether a similarity, in thousandths, is close enough for a fuzzy filter.
pub open spec fn similar_enough(score: u32) -> bool {
    score >= SIMILARITY_THRESHOLD
}

/// The organizations whose address, visible at `head`, is similar enough to
/// a fuzzy filter's query. `scores` holds, for each address row, the trigram
/// similarity of the filtered field to the query, in thousandths.
pub fn fuzzy_matching_keys(addresses: &Vec<Address>, scores: &Vec<u32>, head: i64) -> (r: Vec<String>)
    requires
        scores@.len() == addresses@.len(),
    ensures
        forall|k: Seq<char>| in_keys(r@, k) <==> fuzzy_key(addresses@, scores@, head as int, k),
{
    let mut hits: Vec<bool> = Vec::new();
    let mut i: usize = 0;
    while i < scores.len()
        invariant
            i <= scores@.len(),
            hits@.len() == i,
            forall|t: int| 0 <= t < i ==> hits@[t] == similar_enough(scores@[t]),
        decreases scores@.len() - i,
    {
        hits.push(scores[i] >= SIMILARITY_THRESHOLD);
        i = i + 1;
    }
    let r = keys_of_hits(addresses, &hits, head);
    proof {
        assert forall|k: Seq<char>| hit_key(addresses@, hits@, head as int, k) <==> fuzzy_key(addresses@, scores@, head as int, k) by {
            if hit_key(addresses@, hits@, head as int, k) {
                let t = choose|t: int| 0 <= t < addresses@.len() && live(#[trigger] addresses@[t], head as int) && hits@[t] && addresses@[t].key_spec() == k;
                assert(fuzzy_hit(addresses@, scores@, head as int, t));
            }
            if fuzzy_key(addresses@, scores@, head as int, k) {
                let t = choose|t: int| #[trigger] fuzzy_hit(addresses@, scores@, head as int, t) && addresses@[t].organization_id@ == k;
                assert(live(addresses@[t], head as int) && hits@[t]);
            }
        }
    }
    r
}

/// Whether address row `i` is visible at `head` and similar enough.
pub open spec fn fuzzy_hit(addresses: Seq<Address>, scores: Seq<u32>, head: int, i: int) -> bool {
    &&& 0 <= i < addresses.len()
    &&& live(addresses[i], head)
    &&& similar_enough(scores[i])
}

/// Whether organization `k` has an address that a fuzzy filter accepts.
pub open spec fn fuzzy_key(addresses: Seq<Address>, scores: Seq<u32>, head: int, k: Seq<char>) -> bool {
    exists|i: int| #[trigger] fuzzy_hit(addresses, scores, head, i) && addresses[i].organization_id@ == k
}

/// Whether a certificate visible at `head` is held by factory `k` and
/// names a standard among `standards`.
pub open spec fn certified_key(certificates: Seq<Certificate>, standards: Seq<String>, head: int, k: Seq<char>) -> bool {
    exists|c: int|
        0 <= c < certificates.len() && live(#[trigger] certificates[c], head) && certificates[c].factory_id@ == k
            && in_keys(standards, certificates[c].standard_id@)
}

/// The factories that hold a certificate, visible at `head`, against one of
/// `standards`.
pub fn certified_factories(certificates: &Vec<Certificate>, standards: &Vec<String>, head: i64) -> (r: Vec<String>)
    ensures
        forall|k: Seq<char>| in_keys(r@, k) <==> certified_key(certificates@, standards@, head as int, k),
{
    let mut out: Vec<String> = Vec::new();
    let mut i: usize = 0;
    while i < certificates.len()
        invariant
            i <= certificates@.len(),
            forall|k: Seq<char>| in_keys(out@, k) <==> certified_key(certificates@.take(i as int), standards@, head as int, k),
        decreases certificates@.len() - i,
    {
        let c = &certificates[i];
        let ghost old_out = out@;
        let ghost pre = certificates@.take(i as int);
        let ghost post = certificates@.take(i as int + 1);
        let hit = c.start_block_num <= head && head < c.end_block_num && contains_key(standards, &c.standard_id);
        if hit {
            out.push(c.factory_id.clone());
        }
        proof {
            assert forall|k: Seq<char>| in_keys(out@, k) <==> certified_key(post, standards@, head as int, k) by {
                if in_keys(out@, k) {
                    let j = choose|j: int| 0 <= j < out@.len() && (#[trigger] out@[j])@ == k;
                    if j < old_out.len() {
                        assert(old_out[j] == out@[j]);
                        assert(in_keys(old_out, k));
                        let t = choose|t: int|
                            0 <= t < pre.len() && live(#[trigger] pre[t], head as int) && pre[t].factory_id@ == k
                                && in_keys(standards@, pre[t].standard_id@);
                        assert(post[t] == pre[t]);
                    } else {
                        assert(post[i as int] == certificates@[i as int]);
                    }
                }
                if certified_key(post, standards@, head as int, k) {
                    let t = choose|t: int|
                        0 <= t < post.len() && live(#[trigger] post[t], head as int) && post[t].factory_id@ == k
                            && in_keys(standards@, post[t].standard_id@);
                    if t < i {
                        assert(post[t] == pre[t]);
                        assert(certified_key(pre, standards@, head as int, k));
                        assert(in_keys(old_out, k));
                        let j = choose|j: int| 0 <= j < old_out.len() && (#[trigger] old_out[j])@ == k;
                        assert(out@[j] == old_out[j]);
                    } else {
                        assert(post[t] == certificates@[i as int]);
                        assert(out@[old_out.len() as int]@ == k);
                    }
                }
            }
        }
        i = i + 1;
    }
    proof {
        assert(certificates@.take(certificates@.len() as int) =~= certificates@);
    }
    out
}

/// Appends the keys of `more` to `keys`.
pub fn union_keys(keys: &mut Vec<String>, more: Vec<String>)
    ensures
        forall|k: Seq<char>| #[trigger] in_keys(final(keys)@, k) <==> (in_keys(old(keys)@, k) || in_keys(more@, k)),
{
    let ghost a = keys@;
    let mut more = more;
    let ghost b = more@;
    keys.append(&mut more);
    proof {
        assert forall|k: Seq<char>| in_keys(keys@, k) <==> (in_keys(a, k) || in_keys(b, k)) by {
            if in_keys(keys@, k) {
                let j = choose|j: int| 0 <= j < keys@.len() && (#[trigger] keys@[j])@ == k;
                if j < a.len() {
                    assert(a[j] == keys@[j]);
                } else {
                    assert(b[j - a.len()] == keys@[j]);
                }
            }
            if in_keys(a, k) {
                let j = choose|j: int| 0 <= j < a.len() && (#[trigger] a[j])@ == k;
                assert(keys@[j] == a[j]);
            }
            if in_keys(b, k) {
                let j = choose|j: int| 0 <= j < b.len() && (#[trigger] b[j])@ == k;
                assert(keys@[a.len() + j] == b[j]);
            }
        }
    }
}

/// The per-row outcome of a full-text query, as the database's text search
/// reported it: for each organization row whether its name matches, for
/// each standard row whether its name matches, and for each address row
/// whether its searchable text matches.
pub struct TextSearch {
    pub query: String,
    pub organization_names: Vec<bool>,
    pub standard_names: Vec<bool>,
    pub addresses: Vec<bool>,
}

/// Whether organization `k` matches a full-text query at `head`: by its own
/// name, by the name of a standard it is certified against, or by its
/// address.
pub open spec fn full_text_key(
    organizations: Seq<crate::records::Organization>,
    addresses: Seq<Address>,
    certificates: Seq<Certificate>,
    standards: Seq<crate::records::Standard>,
    search: TextSearch,
    head: int,
    k: Seq<char>,
) -> bool {
    ||| hit_key(organizations, search.organization_names@, head, k)
    ||| hit_key(addresses, search.addresses@, head, k)
    ||| exists|c: int|
        0 <= c < certificates.len() && live(#[trigger] certificates[c], head) && certificates[c].factory_id@ == k
            && hit_key(standards, search.standard_names@, head, certificates[c].standard_id@)
}

/// The organizations that match a full-text query at `head`: the union of
/// the three sub-matches.
pub fn full_text_matching_keys(
    organizations: &Vec<crate::records::Organization>,
    addresses: &Vec<Address>,
    certificates: &Vec<Certificate>,
    standards: &Vec<crate::records::Standard>,
    search: &TextSearch,
    head: i64,
) -> (r: Vec<String>)
    requires
        search.organization_names@.len() == organizations@.len(),
        search.standard_names@.len() == standards@.len(),
        search.addresses@.len() == addresses@.len(),
    ensures
        forall|k: Seq<char>|
            in_keys(r@, k) <==> full_text_key(organizations@, addresses@, certificates@, standards@, *search, head as int, k),
{
    let standard_ids = keys_of_hits(standards, &search.standard_names, head);
    let mut keys = keys_of_hits(organizations, &search.organization_names, head);
    let ghost k0 = keys@;
    let by_address = keys_of_hits(addresses, &search.addresses, head);
    let ghost k1 = by_address@;
    union_keys(&mut keys, by_address);
    let ghost k01 = keys@;
    let by_standard = certified_factories(certificates, &standard_ids, head);
    let ghost k2 = by_standard@;
    union_keys(&mut keys, by_standard);
    proof {
        assert forall|k: Seq<char>|
            certified_key(certificates@, standard_ids@, head as int, k) <==> exists|c: int|
                0 <= c < certificates@.len() && live(#[trigger] certificates@[c], head as int)
                    && certificates@[c].factory_id@ == k
                    && hit_key(standards@, search.standard_names@, head as int, certificates@[c].standard_id@) by {
            if certified_key(certificates@, standard_ids@, head as int, k) {
                let c = choose|c: int|
                    0 <= c < certificates@.len() && live(#[trigger] certificates@[c], head as int)
                        && certificates@[c].factory_id@ == k && in_keys(standard_ids@, certificates@[c].standard_id@);
                assert(hit_key(standards@, search.standard_names@, head as int, certificates@[c].standard_id@));
            }
        }
        assert forall|k: Seq<char>|
            in_keys(keys@, k) <==> full_text_key(organizations@, addresses@, certificates@, standards@, *search, head as int, k) by {
            assert(in_keys(keys@, k) <==> (in_keys(k01, k) || in_keys(k2, k)));
            assert(in_keys(k01, k) <==> (in_keys(k0, k) || in_keys(k1, k)));
            assert(in_keys(k2, k) <==> certified_key(certificates@, standard_ids@, head as int, k));
        }
    }
    keys
}

} // verus!
