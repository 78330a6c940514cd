use vstd::prelude::*;
use vstd::string::StringExecFns;

use crate::decimal::decimal;
use crate::error::{message_of, ApiError};
use crate::head::{get_head_block_num, resolved_head};
use crate::links::{entity_link, make_entity_link, param, push_head};
use crate::listing::{page_of, sorted_page, Fetched, Listed};
use crate::order::{lemma_sort_same_keys, sort_by_key};
use crate::paging::{describes_page, effective, paging_ok, DEFAULT_LIMIT, DEFAULT_OFFSET};
use crate::planner::Ledger;
use crate::records::{Assertion, Versioned};
use crate::store::{
    get, grown_past, indices_where, lemma_indices_where, lemma_live_rows_after_ingestion, live_pred, live_rows, lookup,
};

verus! {

/// The parameters of an assertion listing.
pub struct AssertionParams {
    pub limit: Option<i64>,
    pub offset: Option<i64>,
    pub head: Option<i64>,
}

/// The assertions visible at `head`, ordered by assertion id.
pub open spec fn visible_assertions(l: Ledger, head: int) -> Seq<usize> {
    sort_by_key(l.assertions@, indices_where(l.assertions@, live_pred::<Assertion>(head)))
}

/// The link template of an assertion listing.
pub open spec fn assertions_template(head: int) -> Seq<char> {
    "/api/assertions?"@ + param("head"@, decimal(head))
}

/// What reading assertion `id` at `head` returns.
pub open spec fn assertion_fetched(l: Ledger, id: Seq<char>, head: Option<i64>, r: Result<Fetched<usize>, ApiError>) -> bool {
    match resolved_head(head, l.blocks@) {
        None => r matches Err(e) && e.is_internal(),
        Some(h) => match lookup(l.assertions@, id, h) {
            Err(_) => r matches Err(e) && e.is_internal(),
            Ok(None) => r matches Err(e) && e.is_not_found(),
            Ok(Some(a)) => r matches Ok(f) && f.head == h && f.data == a && f.link@ == entity_link(
                "/api/assertions/"@,
                id,
                h,
            ),
        },
    }
}

/// Reads one assertion at the resolved head.
pub fn fetch_assertions_with_params(l: &Ledger, assertion_id: &String, head: Option<i64>) -> (r: Result<Fetched<usize>, ApiError>)
    ensures
        assertion_fetched(*l, assertion_id@, head, r),
{
    let h = get_head_block_num(head, &l.blocks)?;
    match get(&l.assertions, assertion_id, h)? {
        None => Err(ApiError::NotFound(message_of("no assertion with this id exists"))),
        Some(a) => {
            let link = make_entity_link("/api/assertions/", assertion_id, h);
            Ok(Fetched { data: a, head: h, link })
        },
    }
}

/// What an assertion listing returns for the parameters `p`.
pub open spec fn assertions_listed(l: Ledger, p: AssertionParams, r: Result<Listed<usize>, ApiError>) -> bool {
    match resolved_head(p.head, l.blocks@) {
        None => r matches Err(e) && e.is_internal(),
        Some(h) => {
            let sorted = visible_assertions(l, h);
            let limit = effective(p.limit, DEFAULT_LIMIT);
            let offset = effective(p.offset, DEFAULT_OFFSET);
            if !paging_ok(p.limit, p.offset) {
                r matches Err(e) && e.is_bad_request()
            } else {
                r matches Ok(res) && res.head == h && describes_page(
                    res.paging,
                    assertions_template(h),
                    limit,
                    offset,
                    sorted.len() as int,
                ) && res.data@ == page_of(sorted, offset, limit)
            }
        },
    }
}

/// Lists the assertions visible at the resolved head, ordered by assertion
/// id.
pub fn list_assertions_with_params(l: &Ledger, p: &AssertionParams) -> (r: Result<Listed<usize>, ApiError>)
    requires
        l.assertions@.len() <= i64::MAX,
    ensures
        assertions_listed(*l, *p, r),
{
    let h = get_head_block_num(p.head, &l.blocks)?;
    let selected = live_rows(&l.assertions, h);
    let mut template = String::from_str("/api/assertions?");
    push_head(&mut template, h);
    let (paging, data) = sorted_page(&l.assertions, &selected, p.limit, p.offset, &template)?;
    Ok(Listed { data, head: h, paging })
}

/// Reads one assertion at the latest head.
pub fn fetch_assertions(l: &Ledger, assertion_id: &String) -> (r: Result<Fetched<usize>, ApiError>)
    ensures
        assertion_fetched(*l, assertion_id@, None, r),
{
    fetch_assertions_with_params(l, assertion_id, None)
}

/// Lists assertions at the latest head, first page.
pub fn list_assertions(l: &Ledger) -> (r: Result<Listed<usize>, ApiError>)
    requires
        l.assertions@.len() <= i64::MAX,
    ensures
        assertions_listed(*l, AssertionParams { limit: None, offset: None, head: None }, r),
{
    list_assertions_with_params(l, &AssertionParams { limit: None, offset: None, head: None })
}

/// Repeating an assertion listing with the same explicit head after the
/// table grew only past that head (rows closed after it, rows added that
/// start after it) yields the same rows, the same total and the same links.
pub proof fn lemma_assertion_listing_stable(
    l1: Ledger,
    l2: Ledger,
    p: AssertionParams,
    r1: Result<Listed<usize>, ApiError>,
    r2: Result<Listed<usize>, ApiError>,
)
    requires
        p.head is Some,
        l1.assertions@.len() <= usize::MAX,
        grown_past(l1.assertions@, l2.assertions@, p.head->Some_0 as int),
        assertions_listed(l1, p, r1),
        assertions_listed(l2, p, r2),
    ensures
        r1 is Ok <==> r2 is Ok,
        r1 matches Ok(a) ==> (r2 matches Ok(b) && a.data@ == b.data@ && a.head == b.head
            && a.paging.paging.total == b.paging.paging.total && a.paging.link@ == b.paging.link@),
{
    let h = p.head->Some_0 as int;
    lemma_live_rows_after_ingestion(l1.assertions@, l2.assertions@, h);
    let idx = indices_where(l1.assertions@, live_pred::<Assertion>(h));
    lemma_indices_where(l1.assertions@, live_pred::<Assertion>(h));
    assert forall|i: int| 0 <= i < l1.assertions@.len() implies (#[trigger] l2.assertions@[i]).key_spec()
        == l1.assertions@[i].key_spec() by {}
    lemma_sort_same_keys(l1.assertions@, l2.assertions@, idx);
    assert(visible_assertions(l1, h) == visible_assertions(l2, h));
}

} // verus!
