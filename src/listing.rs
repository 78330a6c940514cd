use vstd::prelude::*;

use crate::error::ApiError;
use crate::order::{lemma_sort_keeps_positions, sort_by_key, sort_indices_by_key};
use crate::paging::{
    describes_page, effective, get_response_paging_info, paging_ok, PagingInfo, DEFAULT_LIMIT, DEFAULT_OFFSET,
};
use crate::planner::{assemble_organization, is_joined, join_fails, Ledger, OrganizationView};
use crate::records::{Address, Assertion, Authorization, Certificate, Contact, Versioned};
use crate::store::{group_by_owner, indices_where, owned_pred};

verus! {

/// A single-entity response: the row, the head it was read at, and the
/// link that reads it again at that head.
pub struct Fetched<T> {
    pub data: T,
    pub head: i64,
    pub link: String,
}

/// A list response: one page of rows, the head they were read at, and the
/// paging descriptor with the page's own link.
pub struct Listed<T> {
    pub data: Vec<T>,
    pub head: i64,
    pub paging: PagingInfo,
}

/// The page of `sorted` that starts at `offset` and holds at most `limit`
/// entries.
pub open spec fn page_of(sorted: Seq<usize>, offset: int, limit: int) -> Seq<usize> {
    let n = sorted.len() as int;
    let start = if offset < n { offset } else { n };
    let end = if limit < n - start { start + limit } else { n };
    sorted.subrange(start, end)
}

/// Cuts the page at `offset` of size `limit` out of `sorted`.
pub fn page_slice(sorted: &Vec<usize>, offset: i64, limit: i64) -> (r: Vec<usize>)
    requires
        offset >= 0,
        limit > 0,
        sorted@.len() <= i64::MAX,
    ensures
        r@ == page_of(sorted@, offset as int, limit as int),
{
    let n: i64 = sorted.len() as i64;
    let start: i64 = if offset < n { offset } else { n };
    let end: i64 = if limit < n - start { start + limit } else { n };
    let mut out: Vec<usize> = Vec::new();
    let mut i: i64 = start;
    while i < end
        invariant
            0 <= start <= i <= end <= n,
            n == sorted@.len(),
            out@ == sorted@.subrange(start as int, i as int),
            sorted@.len() <= usize::MAX,
        decreases end - i,
    {
        let x = sorted[i as usize];
        out.push(x);
        proof {
            assert(x == sorted@[i as int]);
            assert(sorted@.subrange(start as int, i + 1) =~= sorted@.subrange(start as int, i as int).push(sorted@[i as int]));
        }
        i = i + 1;
    }
    out
}

/// Whether joining some entry of `page` at `head` breaks integrity.
pub open spec fn page_fails(l: Ledger, head: int, page: Seq<usize>, expand: bool) -> bool {
    exists|i: int| 0 <= i < page.len() && #[trigger] join_fails(l, head, page[i], expand)
}

/// Whether `data` is `page` joined entry by entry at `head`.
pub open spec fn is_joined_page(l: Ledger, head: int, page: Seq<usize>, expand: bool, data: Seq<OrganizationView>) -> bool {
    &&& data.len() == page.len()
    &&& forall|i: int| 0 <= i < page.len() ==> #[trigger] is_joined(l, head, page[i], expand, data[i])
}

/// The natural keys of the organization rows of `page`.
fn page_owners(l: &Ledger, page: &Vec<usize>) -> (r: Vec<String>)
    requires
        forall|i: int| 0 <= i < page@.len() ==> (#[trigger] page@[i]) < l.organizations@.len(),
    ensures
        r@.len() == page@.len(),
        forall|i: int| 0 <= i < page@.len() ==> (#[trigger] r@[i])@ == l.organizations@[page@[i] as int].organization_id@,
{
    let mut out: Vec<String> = Vec::new();
    let mut i: usize = 0;
    while i < page.len()
        invariant
            i <= page@.len(),
            forall|j: int| 0 <= j < page@.len() ==> (#[trigger] page@[j]) < l.organizations@.len(),
            out@.len() == i,
            forall|j: int| 0 <= j < i ==> (#[trigger] out@[j])@ == l.organizations@[page@[j] as int].organization_id@,
        decreases page@.len() - i,
    {
        out.push(l.organizations[page[i]].organization_id.clone());
        i = i + 1;
    }
    out
}

/// Joins every organization row of `page` at `head`. Each dependent table
/// is read once for the whole page and its rows fanned out to the page's
/// organizations by natural key.
pub fn join_page(l: &Ledger, head: i64, page: &Vec<usize>, expand: bool) -> (r: Result<Vec<OrganizationView>, ApiError>)
    requires
        forall|i: int| 0 <= i < page@.len() ==> (#[trigger] page@[i]) < l.organizations@.len(),
    ensures
        page_fails(*l, head as int, page@, expand) <==> r is Err,
        r matches Err(e) ==> e.is_internal(),
        r matches Ok(data) ==> is_joined_page(*l, head as int, page@, expand, data@),
{
    let owners = page_owners(l, page);
    let mut contacts = group_by_owner(&l.contacts, &owners, head);
    let mut authorizations = group_by_owner(&l.authorizations, &owners, head);
    let addresses = group_by_owner(&l.addresses, &owners, head);
    let assertions = group_by_owner(&l.assertions, &owners, head);
    let certificates = if expand {
        group_by_owner(&l.certificates, &owners, head)
    } else {
        Vec::new()
    };
    let none: Vec<usize> = Vec::new();
    let mut out: Vec<OrganizationView> = Vec::new();
    let mut i: usize = 0;
    while i < page.len()
        invariant
            i <= page@.len(),
            forall|j: int| 0 <= j < page@.len() ==> (#[trigger] page@[j]) < l.organizations@.len(),
            owners@.len() == page@.len(),
            forall|j: int| 0 <= j < page@.len() ==> (#[trigger] owners@[j])@ == l.organizations@[page@[j] as int].organization_id@,
            contacts@.len() == page@.len(),
            authorizations@.len() == page@.len(),
            addresses@.len() == page@.len(),
            assertions@.len() == page@.len(),
            expand ==> certificates@.len() == page@.len(),
            forall|j: int| i <= j < page@.len() ==> (#[trigger] contacts@[j])@ == indices_where(l.contacts@, owned_pred::<Contact>(owners@[j]@, head as int)),
            forall|j: int| i <= j < page@.len() ==> (#[trigger] authorizations@[j])@ == indices_where(l.authorizations@, owned_pred::<Authorization>(owners@[j]@, head as int)),
            forall|j: int| 0 <= j < page@.len() ==> (#[trigger] addresses@[j])@ == indices_where(l.addresses@, owned_pred::<Address>(owners@[j]@, head as int)),
            forall|j: int| 0 <= j < page@.len() ==> (#[trigger] assertions@[j])@ == indices_where(l.assertions@, owned_pred::<Assertion>(owners@[j]@, head as int)),
            expand ==> forall|j: int| 0 <= j < page@.len() ==> (#[trigger] certificates@[j])@ == indices_where(l.certificates@, owned_pred::<Certificate>(owners@[j]@, head as int)),
            out@.len() == i,
            forall|j: int| 0 <= j < i ==> !(#[trigger] join_fails(*l, head as int, page@[j], expand)),
            forall|j: int| 0 <= j < i ==> #[trigger] is_joined(*l, head as int, page@[j], expand, out@[j]),
        decreases page@.len() - i,
    {
        let mut c: Vec<usize> = Vec::new();
        std::mem::swap(&mut contacts[i], &mut c);
        let mut a: Vec<usize> = Vec::new();
        std::mem::swap(&mut authorizations[i], &mut a);
        let held = if expand {
            &certificates[i]
        } else {
            &none
        };
        let v = assemble_organization(l, head, page[i], expand, c, a, &addresses[i], &assertions[i], held)?;
        out.push(v);
        i = i + 1;
    }
    Ok(out)
}

/// Orders the selected positions of `rows` by natural key, counts them, and
/// cuts the page that the request asks for, with its paging descriptor.
pub fn sorted_page<T: Versioned>(
    rows: &Vec<T>,
    selected: &Vec<usize>,
    limit: Option<i64>,
    offset: Option<i64>,
    template: &String,
) -> (r: Result<(PagingInfo, Vec<usize>), ApiError>)
    requires
        forall|k: int| 0 <= k < selected@.len() ==> (#[trigger] selected@[k]) < rows@.len(),
        selected@.len() <= i64::MAX,
    ensures
        !paging_ok(limit, offset) ==> (r matches Err(e) && e.is_bad_request()),
        paging_ok(limit, offset) ==> (r matches Ok(res) && {
            let sorted = sort_by_key(rows@, selected@);
            let l = effective(limit, DEFAULT_LIMIT);
            let o = effective(offset, DEFAULT_OFFSET);
            &&& describes_page(res.0, template@, l, o, sorted.len() as int)
            &&& res.1@ == page_of(sorted, o, l)
            &&& forall|k: int| 0 <= k < res.1@.len() ==> (#[trigger] res.1@[k]) < rows@.len()
        }),
{
    let sorted = sort_indices_by_key(rows, selected);
    proof {
        lemma_sort_keeps_positions(rows@, selected@);
    }
    let total: i64 = sorted.len() as i64;
    let paging = get_response_paging_info(limit, offset, template, total)?;
    let lim: i64 = match limit {
        Some(x) => x,
        None => DEFAULT_LIMIT,
    };
    let off: i64 = match offset {
        Some(x) => x,
        None => DEFAULT_OFFSET,
    };
    let page = page_slice(&sorted, off, lim);
    proof {
        assert forall|i: int| 0 <= i < page@.len() implies (#[trigger] page@[i]) < rows@.len() by {
            let n = sorted@.len() as int;
            let start = if (off as int) < n { off as int } else { n };
            assert(page@[i] == sorted@[start + i]);
            assert(selected@.contains(sorted@[start + i]));
        }
    }
    Ok((paging, page))
}

} // verus!
