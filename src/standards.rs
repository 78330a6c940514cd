use vstd::prelude::*;
use vstd::string::StringExecFns;

use crate::decimal::decimal;
use crate::error::ApiError;
use crate::head::{get_head_block_num, resolved_head};
use crate::encode::rocket_encoded;
use crate::links::{param, push_head, push_text_param};
use crate::listing::{page_of, sorted_page, Listed};
use crate::order::{lemma_sort_keeps_positions, sort_by_key, sort_indices_by_key};
use crate::paging::{describes_page, effective, paging_ok, DEFAULT_LIMIT, DEFAULT_OFFSET};
use crate::planner::{lookup_about, Ledger};
use crate::records::{live, Assertion, Standard, StandardVersion};
use crate::store::{
    group_by_owner, indices_where, lemma_indices_where, owned_pred, positions_in, unique,
};

verus! {

/// A standard joined at one head with the assertion made about it and,
/// where asked for, its versions ordered by approval date. Each field is a
/// position in the corresponding table of the ledger.
pub struct StandardView {
    pub standard: usize,
    pub assertion: Option<usize>,
    pub versions: Option<Vec<usize>>,
}

/// Where version `x` goes among `sorted`: before the first one approved
/// later, so that versions approved on one date keep their order.
pub open spec fn date_pos(rows: Seq<StandardVersion>, sorted: Seq<usize>, x: usize) -> int
    decreases sorted.len(),
{
    if sorted.len() == 0 {
        0
    } else if rows[sorted[0] as int].approval_date > rows[x as int].approval_date {
        0
    } else {
        1 + date_pos(rows, sorted.drop_first(), x)
    }
}

/// The positions `idx` ordered by approval date, ascending and stable.
pub open spec fn sort_by_date(rows: Seq<StandardVersion>, idx: Seq<usize>) -> Seq<usize>
    decreases idx.len(),
{
    if idx.len() == 0 {
        idx
    } else {
        let s = sort_by_date(rows, idx.drop_last());
        s.insert(date_pos(rows, s, idx.last()), idx.last())
    }
}

proof fn lemma_date_pos_bounds(rows: Seq<StandardVersion>, sorted: Seq<usize>, x: usize)
    ensures
        0 <= date_pos(rows, sorted, x) <= sorted.len(),
    decreases sorted.len(),
{
    if sorted.len() > 0 {
        lemma_date_pos_bounds(rows, sorted.drop_first(), x);
    }
}

/// Whether the version rows at positions `s` come in ascending order of
/// approval date.
pub open spec fn sorted_by_date(rows: Seq<StandardVersion>, s: Seq<usize>) -> bool {
    forall|a: int, b: int|
        0 <= a < b < s.len() ==> #[trigger] rows[s[a] as int].approval_date <= #[trigger] rows[s[b] as int].approval_date
}

proof fn lemma_date_pos_splits(rows: Seq<StandardVersion>, s: Seq<usize>, x: usize)
    requires
        sorted_by_date(rows, s),
    ensures
        forall|k: int| 0 <= k < date_pos(rows, s, x) ==> (#[trigger] rows[s[k] as int]).approval_date <= rows[x as int].approval_date,
        date_pos(rows, s, x) < s.len() ==> rows[s[date_pos(rows, s, x)] as int].approval_date > rows[x as int].approval_date,
    decreases s.len(),
{
    lemma_date_pos_bounds(rows, s, x);
    if s.len() > 0 && rows[s[0] as int].approval_date <= rows[x as int].approval_date {
        let t = s.drop_first();
        lemma_date_pos_bounds(rows, t, x);
        assert(date_pos(rows, s, x) == 1 + date_pos(rows, t, x));
        assert(sorted_by_date(rows, t)) by {
            assert forall|a: int, b: int| 0 <= a < b < t.len() implies #[trigger] rows[t[a] as int].approval_date
                <= #[trigger] rows[t[b] as int].approval_date by {
                assert(t[a] == s[a + 1] && t[b] == s[b + 1]);
            }
        }
        lemma_date_pos_splits(rows, t, x);
        assert forall|k: int| 0 <= k < date_pos(rows, s, x) implies (#[trigger] rows[s[k] as int]).approval_date
            <= rows[x as int].approval_date by {
            if k > 0 {
                assert(s[k] == t[k - 1]);
            }
        }
        if date_pos(rows, s, x) < s.len() {
            assert(s[date_pos(rows, s, x)] == t[date_pos(rows, t, x)]);
        }
    }
}

/// Ordering versions by date yields them in ascending order of approval
/// date.
pub proof fn lemma_sort_by_date_sorted(rows: Seq<StandardVersion>, idx: Seq<usize>)
    ensures
        sorted_by_date(rows, sort_by_date(rows, idx)),
    decreases idx.len(),
{
    if idx.len() > 0 {
        lemma_sort_by_date_sorted(rows, idx.drop_last());
        let s = sort_by_date(rows, idx.drop_last());
        let x = idx.last();
        let p = date_pos(rows, s, x);
        lemma_date_pos_bounds(rows, s, x);
        lemma_date_pos_splits(rows, s, x);
        let r = s.insert(p, x);
        assert(r == sort_by_date(rows, idx));
        assert forall|a: int, b: int| 0 <= a < b < r.len() implies #[trigger] rows[r[a] as int].approval_date
            <= #[trigger] rows[r[b] as int].approval_date by {
            if a < p && b < p {
                assert(r[a] == s[a] && r[b] == s[b]);
            } else if a < p && b == p {
                assert(r[a] == s[a] && r[b] == x);
            } else if a < p {
                assert(r[a] == s[a] && r[b] == s[b - 1]);
            } else if a == p {
                assert(r[a] == x && r[b] == s[b - 1]);
                assert(rows[s[p] as int].approval_date <= rows[s[b - 1] as int].approval_date || b - 1 == p);
            } else {
                assert(r[a] == s[a - 1] && r[b] == s[b - 1]);
            }
        }
    }
}

/// Ordering versions by date keeps them: the same positions, as many times
/// each.
pub proof fn lemma_sort_by_date_keeps_positions(rows: Seq<StandardVersion>, idx: Seq<usize>)
    ensures
        sort_by_date(rows, idx).to_multiset() == idx.to_multiset(),
        sort_by_date(rows, idx).len() == idx.len(),
    decreases idx.len(),
{
    if idx.len() > 0 {
        let init = idx.drop_last();
        lemma_sort_by_date_keeps_positions(rows, init);
        let s = sort_by_date(rows, init);
        let x = idx.last();
        let p = date_pos(rows, s, x);
        lemma_date_pos_bounds(rows, s, x);
        vstd::seq_lib::to_multiset_insert(s, p, x);
        vstd::seq_lib::to_multiset_build(init, x);
        assert(init.push(x) =~= idx);
        s.to_multiset_ensures();
        s.insert(p, x).to_multiset_ensures();
    }
}

/// Orders positions of version rows by approval date.
pub fn sort_versions_by_date(rows: &Vec<StandardVersion>, idx: &Vec<usize>) -> (r: Vec<usize>)
    requires
        forall|k: int| 0 <= k < idx@.len() ==> (#[trigger] idx@[k]) < rows@.len(),
    ensures
        r@ == sort_by_date(rows@, idx@),
{
    let mut out: Vec<usize> = Vec::new();
    let mut i: usize = 0;
    while i < idx.len()
        invariant
            i <= idx@.len(),
            forall|k: int| 0 <= k < idx@.len() ==> (#[trigger] idx@[k]) < rows@.len(),
            out@ == sort_by_date(rows@, idx@.take(i as int)),
            forall|k: int| 0 <= k < out@.len() ==> (#[trigger] out@[k]) < rows@.len(),
        decreases idx@.len() - i,
    {
        let x = idx[i];
        let mut p: usize = 0;
        proof {
            assert(out@.skip(0) =~= out@);
        }
        while p < out.len() && rows[out[p]].approval_date <= rows[x].approval_date
            invariant
                p <= out@.len(),
                x < rows@.len(),
                forall|k: int| 0 <= k < out@.len() ==> (#[trigger] out@[k]) < rows@.len(),
                date_pos(rows@, out@, x) == p + date_pos(rows@, out@.skip(p as int), x),
            decreases out@.len() - p,
        {
            proof {
                assert(out@.skip(p as int).drop_first() =~= out@.skip(p as int + 1));
            }
            p = p + 1;
        }
        proof {
            if p == out@.len() {
                assert(out@.skip(p as int).len() == 0);
            }
            lemma_date_pos_bounds(rows@, out@, x);
            assert(idx@.take(i as int + 1).drop_last() =~= idx@.take(i as int));
            assert(idx@.take(i as int + 1).last() == x);
        }
        let ghost before = out@;
        out.insert(p, x);
        proof {
            assert forall|k: int| 0 <= k < out@.len() implies (#[trigger] out@[k]) < rows@.len() by {
                if k < p {
                    assert(out@[k] == before[k]);
                } else if k > p {
                    assert(out@[k] == before[k - 1]);
                }
            }
        }
        i = i + 1;
    }
    proof {
        assert(idx@.take(idx@.len() as int) =~= idx@);
    }
    out
}

/// The versions of standard row `s` visible at `head`, by approval date.
pub open spec fn versions_of(l: Ledger, head: int, s: usize) -> Seq<usize> {
    sort_by_date(
        l.standard_versions@,
        indices_where(l.standard_versions@, owned_pred::<StandardVersion>(l.standards@[s as int].standard_id@, head)),
    )
}

/// Whether joining standard row `s` at `head` breaks integrity: two
/// visible assertions about it.
pub open spec fn standard_join_fails(l: Ledger, head: int, s: usize) -> bool {
    lookup_about(l.assertions@, l.standards@[s as int].standard_id@, head) is Err
}

/// Whether `v` is standard row `s` joined at `head`, with its versions when
/// `with_versions`.
pub open spec fn is_standard_view(l: Ledger, head: int, s: usize, with_versions: bool, v: StandardView) -> bool {
    &&& v.standard == s
    &&& lookup_about(l.assertions@, l.standards@[s as int].standard_id@, head) == Ok::<Option<usize>, ()>(v.assertion)
    &&& if with_versions {
        v.versions matches Some(vs) && vs@ == versions_of(l, head, s)
    } else {
        v.versions is None
    }
}

/// Assembles standard row `s` at `head` from the positions, gathered
/// beforehand, of the assertions about it and of its versions (the latter
/// read only when asked for).
fn assemble_standard(
    l: &Ledger,
    head: i64,
    s: usize,
    with_versions: bool,
    assertions: &Vec<usize>,
    versions: &Vec<usize>,
) -> (r: Result<StandardView, ApiError>)
    requires
        s < l.standards@.len(),
        ({
            let k = l.standards@[s as int].standard_id@;
            &&& assertions@ == indices_where(l.assertions@, owned_pred::<Assertion>(k, head as int))
            &&& with_versions ==> versions@ == indices_where(
                l.standard_versions@,
                owned_pred::<StandardVersion>(k, head as int),
            )
        }),
    ensures
        standard_join_fails(*l, head as int, s) <==> r is Err,
        r matches Err(e) ==> e.is_internal(),
        r matches Ok(v) ==> is_standard_view(*l, head as int, s, with_versions, v),
{
    let assertion = unique(assertions)?;
    let mut sorted: Option<Vec<usize>> = None;
    if with_versions {
        let k = Ghost(l.standards@[s as int].standard_id@);
        proof {
            assert(l.standard_versions@.len() == l.standard_versions.len());
            lemma_indices_where(l.standard_versions@, owned_pred::<StandardVersion>(k@, head as int));
        }
        sorted = Some(sort_versions_by_date(&l.standard_versions, versions));
    }
    Ok(StandardView { standard: s, assertion, versions: sorted })
}

/// Whether joining some entry of `page` breaks integrity.
pub open spec fn standards_fail(l: Ledger, head: int, page: Seq<usize>) -> bool {
    exists|i: int| 0 <= i < page.len() && #[trigger] standard_join_fails(l, head, page[i])
}

/// Whether `data` is `page` joined entry by entry.
pub open spec fn is_standard_page(l: Ledger, head: int, page: Seq<usize>, with_versions: bool, data: Seq<StandardView>) -> bool {
    &&& data.len() == page.len()
    &&& forall|i: int| 0 <= i < page.len() ==> #[trigger] is_standard_view(l, head, page[i], with_versions, data[i])
}

/// The standard ids of the rows of `page`.
fn page_standard_ids(l: &Ledger, page: &Vec<usize>) -> (r: Vec<String>)
    requires
        forall|i: int| 0 <= i < page@.len() ==> (#[trigger] page@[i]) < l.standards@.len(),
    ensures
        r@.len() == page@.len(),
        forall|i: int| 0 <= i < page@.len() ==> (#[trigger] r@[i])@ == l.standards@[page@[i] as int].standard_id@,
{
    let mut out: Vec<String> = Vec::new();
    let mut i: usize = 0;
    while i < page.len()
        invariant
            i <= page@.len(),
            forall|j: int| 0 <= j < page@.len() ==> (#[trigger] page@[j]) < l.standards@.len(),
            out@.len() == i,
            forall|j: int| 0 <= j < i ==> (#[trigger] out@[j])@ == l.standards@[page@[j] as int].standard_id@,
        decreases page@.len() - i,
    {
        out.push(l.standards[page[i]].standard_id.clone());
        i = i + 1;
    }
    out
}

/// Joins every standard row of `page` at `head`, reading the assertions and
/// the versions once for the whole page.
fn join_standards(l: &Ledger, head: i64, page: &Vec<usize>, with_versions: bool) -> (r: Result<Vec<StandardView>, ApiError>)
    requires
        forall|i: int| 0 <= i < page@.len() ==> (#[trigger] page@[i]) < l.standards@.len(),
    ensures
        standards_fail(*l, head as int, page@) <==> r is Err,
        r matches Err(e) ==> e.is_internal(),
        r matches Ok(data) ==> is_standard_page(*l, head as int, page@, with_versions, data@),
{
    let owners = page_standard_ids(l, page);
    let assertions = group_by_owner(&l.assertions, &owners, head);
    let versions = if with_versions {
        group_by_owner(&l.standard_versions, &owners, head)
    } else {
        Vec::new()
    };
    let none: Vec<usize> = Vec::new();
    let mut out: Vec<StandardView> = Vec::new();
    let mut i: usize = 0;
    while i < page.len()
        invariant
            i <= page@.len(),
            forall|j: int| 0 <= j < page@.len() ==> (#[trigger] page@[j]) < l.standards@.len(),
            owners@.len() == page@.len(),
            forall|j: int| 0 <= j < page@.len() ==> (#[trigger] owners@[j])@ == l.standards@[page@[j] as int].standard_id@,
            assertions@.len() == page@.len(),
            with_versions ==> versions@.len() == page@.len(),
            forall|j: int| 0 <= j < page@.len() ==> (#[trigger] assertions@[j])@ == indices_where(l.assertions@, owned_pred::<Assertion>(owners@[j]@, head as int)),
            with_versions ==> forall|j: int| 0 <= j < page@.len() ==> (#[trigger] versions@[j])@ == indices_where(
                l.standard_versions@,
                owned_pred::<StandardVersion>(owners@[j]@, head as int),
            ),
            out@.len() == i,
            forall|j: int| 0 <= j < i ==> !(#[trigger] standard_join_fails(*l, head as int, page@[j])),
            forall|j: int| 0 <= j < i ==> #[trigger] is_standard_view(*l, head as int, page@[j], with_versions, out@[j]),
        decreases page@.len() - i,
    {
        let own = if with_versions {
            &versions[i]
        } else {
            &none
        };
        let v = assemble_standard(l, head, page[i], with_versions, &assertions[i], own)?;
        out.push(v);
        i = i + 1;
    }
    Ok(out)
}

/// The parameters of a standards search.
pub struct StandardParams {
    pub name: Option<String>,
    pub organization_id: Option<String>,
    pub standard_id: Option<String>,
    pub head: Option<i64>,
}

/// Whether standard row `s` is selected by `p` at `head`.
pub open spec fn standard_selected(p: StandardParams, head: int, s: Standard) -> bool {
    &&& live(s, head)
    &&& p.name matches Some(n) ==> s.name@ == n@
    &&& p.organization_id matches Some(o) ==> s.organization_id@ == o@
    &&& p.standard_id matches Some(i) ==> s.standard_id@ == i@
}

/// `standard_selected` as a predicate on rows.
pub open spec fn standard_pred(p: StandardParams, head: int) -> spec_fn(Standard) -> bool {
    |s: Standard| standard_selected(p, head, s)
}

/// The selected standards, ordered by standard id.
pub open spec fn selected_standards(l: Ledger, p: StandardParams, head: int) -> Seq<usize> {
    sort_by_key(l.standards@, indices_where(l.standards@, standard_pred(p, head)))
}

fn select_standards(l: &Ledger, p: &StandardParams, head: i64) -> (r: Vec<usize>)
    ensures
        r@ == indices_where(l.standards@, standard_pred(*p, head as int)),
        positions_in(r@, l.standards@.len() as int),
{
    let rows = &l.standards;
    let mut out: Vec<usize> = Vec::new();
    let mut i: usize = 0;
    while i < rows.len()
        invariant
            i <= rows@.len(),
            rows == &l.standards,
            out@ == indices_where(rows@.take(i as int), standard_pred(*p, head as int)),
        decreases rows@.len() - i,
    {
        proof {
            assert(rows@.take(i as int + 1).drop_last() =~= rows@.take(i as int));
        }
        let s = &rows[i];
        let mut ok = s.start_block_num <= head && head < s.end_block_num;
        match &p.name {
            Some(n) => {
                ok = ok && s.name.eq(n);
            },
            None => {},
        }
        match &p.organization_id {
            Some(o) => {
                ok = ok && s.organization_id.eq(o);
            },
            None => {},
        }
        match &p.standard_id {
            Some(x) => {
                ok = ok && s.standard_id.eq(x);
            },
            None => {},
        }
        if ok {
            out.push(i);
        }
        i = i + 1;
    }
    proof {
        assert(rows@.take(rows@.len() as int) =~= rows@);
        lemma_indices_where(l.standards@, standard_pred(*p, head as int));
    }
    out
}

/// What a standards search returns for the parameters `p`.
pub open spec fn standards_listed(l: Ledger, p: StandardParams, r: Result<Vec<StandardView>, ApiError>) -> bool {
    match resolved_head(p.head, l.blocks@) {
        None => r matches Err(e) && e.is_internal(),
        Some(h) => {
            let sorted = selected_standards(l, p, h);
            if standards_fail(l, h, sorted) {
                r matches Err(e) && e.is_internal()
            } else {
                r matches Ok(data) && is_standard_page(l, h, sorted, false, data@)
            }
        },
    }
}

/// Lists the standards visible at the resolved head that match the filters,
/// ordered by standard id, each with the assertion made about it.
pub fn list_standards_with_params(l: &Ledger, p: &StandardParams) -> (r: Result<Vec<StandardView>, ApiError>)
    ensures
        standards_listed(*l, *p, r),
{
    let h = get_head_block_num(p.head, &l.blocks)?;
    let selected = select_standards(l, p, h);
    let sorted = sort_indices_by_key(&l.standards, &selected);
    proof {
        lemma_sort_keeps_positions(l.standards@, selected@);
        assert forall|i: int| 0 <= i < sorted@.len() implies (#[trigger] sorted@[i]) < l.standards@.len() by {
            assert(selected@.contains(sorted@[i]));
        }
    }
    join_standards(l, h, &sorted, false)
}

/// The parameters of a listing of one standards body's standards.
pub struct StandardBodyParams {
    pub organization_id: String,
    pub limit: Option<i64>,
    pub offset: Option<i64>,
    pub head: Option<i64>,
}

/// Standards visible at `head` published by organization `o`.
pub open spec fn published_by_pred(o: Seq<char>, head: int) -> spec_fn(Standard) -> bool {
    |s: Standard| live(s, head) && s.organization_id@ == o
}

/// The standards of a body, ordered by standard id.
pub open spec fn body_standards(l: Ledger, o: Seq<char>, head: int) -> Seq<usize> {
    sort_by_key(l.standards@, indices_where(l.standards@, published_by_pred(o, head)))
}

/// The link template of a standards body listing.
pub open spec fn body_template(o: Seq<char>, head: int) -> Seq<char> {
    "/api/standards_body/standards?"@ + param("organization_id"@, rocket_encoded(o)) + param("head"@, decimal(head))
}

fn standards_published_by(l: &Ledger, o: &String, head: i64) -> (r: Vec<usize>)
    ensures
        r@ == indices_where(l.standards@, published_by_pred(o@, head as int)),
        positions_in(r@, l.standards@.len() as int),
{
    let rows = &l.standards;
    let mut out: Vec<usize> = Vec::new();
    let mut i: usize = 0;
    while i < rows.len()
        invariant
            i <= rows@.len(),
            rows == &l.standards,
            out@ == indices_where(rows@.take(i as int), published_by_pred(o@, head as int)),
        decreases rows@.len() - i,
    {
        proof {
            assert(rows@.take(i as int + 1).drop_last() =~= rows@.take(i as int));
        }
        let s = &rows[i];
        if s.start_block_num <= head && head < s.end_block_num && s.organization_id.eq(o) {
            out.push(i);
        }
        i = i + 1;
    }
    proof {
        assert(rows@.take(rows@.len() as int) =~= rows@);
        lemma_indices_where(l.standards@, published_by_pred(o@, head as int));
    }
    out
}

/// Lists, a page at a time, the standards of one standards body visible at
/// the resolved head, ordered by standard id, each with its versions by
/// approval date and the assertion made about it.
pub fn list_standards_belonging_to_org(l: &Ledger, p: &StandardBodyParams) -> (r: Result<Listed<StandardView>, ApiError>)
    requires
        l.standards@.len() <= i64::MAX,
    ensures
        match resolved_head(p.head, l.blocks@) {
            None => r matches Err(e) && e.is_internal(),
            Some(h) => {
                let sorted = body_standards(*l, p.organization_id@, h);
                let limit = effective(p.limit, DEFAULT_LIMIT);
                let offset = effective(p.offset, DEFAULT_OFFSET);
                let page = page_of(sorted, offset, limit);
                if !paging_ok(p.limit, p.offset) {
                    r matches Err(e) && e.is_bad_request()
                } else if standards_fail(*l, h, page) {
                    r matches Err(e) && e.is_internal()
                } else {
                    r matches Ok(res) && res.head == h && describes_page(
                        res.paging,
                        body_template(p.organization_id@, h),
                        limit,
                        offset,
                        sorted.len() as int,
                    ) && is_standard_page(*l, h, page, true, res.data@)
                }
            },
        },
{
    let h = get_head_block_num(p.head, &l.blocks)?;
    let selected = standards_published_by(l, &p.organization_id, h);
    let mut template = String::from_str("/api/standards_body/standards?");
    push_text_param(&mut template, "organization_id", &p.organization_id);
    push_head(&mut template, h);
    let (paging, page) = sorted_page(&l.standards, &selected, p.limit, p.offset, &template)?;
    let data = join_standards(l, h, &page, true)?;
    Ok(Listed { data, head: h, paging })
}

/// Lists every standard visible at the latest head.
pub fn list_standards(l: &Ledger) -> (r: Result<Vec<StandardView>, ApiError>)
    ensures
        standards_listed(*l, StandardParams { name: None, organization_id: None, standard_id: None, head: None }, r),
{
    list_standards_with_params(l, &StandardParams { name: None, organization_id: None, standard_id: None, head: None })
}

} // verus!
