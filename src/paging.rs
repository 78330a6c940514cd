use vstd::prelude::*;
use vstd::string::StringExecFns;

use crate::decimal::{decimal, decimal_string};
use crate::error::{message_of, ApiError};

verus! {

/// The page size used when a request names none.
pub const DEFAULT_LIMIT: i64 = 100;

/// The offset used when a request names none.
pub const DEFAULT_OFFSET: i64 = 0;

/// The offset of the last page: the largest multiple of `limit` below
/// `total`, or 0 when there is nothing to page.
pub open spec fn last_offset(total: int, limit: int) -> int {
    if total <= 0 {
        0
    } else {
        ((total - 1) / limit) * limit
    }
}

/// The offset of the next page, never past the last page.
pub open spec fn next_offset(offset: int, limit: int, last: int) -> int {
    if offset + limit > last {
        last
    } else {
        offset + limit
    }
}

/// The offset of the previous page, never below 0.
pub open spec fn prev_offset(offset: int, limit: int) -> int {
    if offset - limit < 0 {
        0
    } else {
        offset - limit
    }
}

/// A link to one page: the template followed by `limit=..&offset=..`.
pub open spec fn page_link(template: Seq<char>, limit: int, offset: int) -> Seq<char> {
    template + "limit="@ + decimal(limit) + "&offset="@ + decimal(offset)
}

/// The paging part of a list response.
pub struct Paging {
    pub first: String,
    pub prev: String,
    pub next: String,
    pub last: String,
    pub limit: i64,
    pub offset: i64,
    pub total: i64,
}

/// A list response's own link and its paging descriptor.
pub struct PagingInfo {
    pub link: String,
    pub paging: Paging,
}

/// The limit and offset in force: the given ones, else the defaults.
pub open spec fn effective(v: Option<i64>, default: i64) -> int {
    match v {
        Some(x) => x as int,
        None => default as int,
    }
}

/// Whether `info` is the descriptor of the page at `offset` of size `limit`
/// over `total` rows, with links built from `template`.
pub open spec fn describes_page(info: PagingInfo, template: Seq<char>, limit: int, offset: int, total: int) -> bool {
    let last = last_offset(total, limit);
    &&& info.paging.limit == limit
    &&& info.paging.offset == offset
    &&& info.paging.total == total
    &&& info.link@ == page_link(template, limit, offset)
    &&& info.paging.first@ == page_link(template, limit, 0)
    &&& info.paging.last@ == page_link(template, limit, last)
    &&& info.paging.next@ == page_link(template, limit, next_offset(offset, limit, last))
    &&& info.paging.prev@ == page_link(template, limit, prev_offset(offset, limit))
}

/// Whether a request's paging parameters are acceptable: a positive limit
/// and a non-negative offset.
pub open spec fn paging_ok(limit: Option<i64>, offset: Option<i64>) -> bool {
    effective(limit, DEFAULT_LIMIT) > 0 && effective(offset, DEFAULT_OFFSET) >= 0
}

fn link_to(template: &String, limit: i64, offset: i64) -> (r: String)
    ensures
        r@ == page_link(template@, limit as int, offset as int),
{
    let mut s = template.clone();
    s.append("limit=");
    let l = decimal_string(limit);
    s.append(l.as_str());
    s.append("&offset=");
    let o = decimal_string(offset);
    s.append(o.as_str());
    s
}

/// The offset of the last page, computed.
pub fn compute_last_offset(total: i64, limit: i64) -> (r: i64)
    requires
        total >= 0,
        limit > 0,
    ensures
        r == last_offset(total as int, limit as int),
{
    if total == 0 {
        0
    } else {
        let q: i64 = (total - 1) / limit;
        proof {
            lemma_div_mul_below(total - 1, limit as int);
        }
        q * limit
    }
}

proof fn lemma_div_mul_below(a: int, b: int)
    requires
        a >= 0,
        b > 0,
    ensures
        0 <= (a / b) * b <= a,
        a < (a / b) * b + b,
{
    vstd::arithmetic::div_mod::lemma_fundamental_div_mod(a, b);
    vstd::arithmetic::div_mod::lemma_mod_pos_bound(a, b);
    assert((a / b) * b == b * (a / b)) by (nonlinear_arith);
    assert(0 <= a / b) by (nonlinear_arith)
        requires a >= 0, b > 0;
    assert(0 <= (a / b) * b) by (nonlinear_arith)
        requires 0 <= a / b, b > 0;
}

/// Builds the paging descriptor of a list request: the limit and offset
/// default to 100 and 0, `first` points at offset 0, `last` at the last
/// page, `next` and `prev` step by the limit and are clamped to
/// `[0, last]` from each side. All four links are always present.
/// A limit under 1 or a negative offset is a bad request.
pub fn get_response_paging_info(
    limit: Option<i64>,
    offset: Option<i64>,
    link: &String,
    total_count: i64,
) -> (r: Result<PagingInfo, ApiError>)
    requires
        total_count >= 0,
    ensures
        paging_ok(limit, offset) <==> r is Ok,
        r matches Ok(info) ==> describes_page(
            info,
            link@,
            effective(limit, DEFAULT_LIMIT),
            effective(offset, DEFAULT_OFFSET),
            total_count as int,
        ),
        r matches Err(e) ==> e.is_bad_request(),
{
    let limit: i64 = match limit {
        Some(l) => l,
        None => DEFAULT_LIMIT,
    };
    let offset: i64 = match offset {
        Some(o) => o,
        None => DEFAULT_OFFSET,
    };
    if limit <= 0 {
        return Err(ApiError::BadRequest(message_of("limit must be positive")));
    }
    if offset < 0 {
        return Err(ApiError::BadRequest(message_of("offset must not be negative")));
    }
    let last = compute_last_offset(total_count, limit);
    let next: i64 = if offset > last - limit {
        last
    } else {
        offset + limit
    };
    let prev: i64 = if offset < limit {
        0
    } else {
        offset - limit
    };
    let paging = Paging {
        first: link_to(link, limit, 0),
        prev: link_to(link, limit, prev),
        next: link_to(link, limit, next),
        last: link_to(link, limit, last),
        limit,
        offset,
        total: total_count,
    };
    Ok(PagingInfo { link: link_to(link, limit, offset), paging })
}

/// The last page of a non-empty result starts inside it, and reaches or
/// passes its end; with no rows it starts at 0.
pub proof fn lemma_last_page_bounds(total: int, limit: int)
    requires
        total >= 0,
        limit > 0,
    ensures
        last_offset(total, limit) >= 0,
        total == 0 ==> last_offset(total, limit) == 0,
        total > 0 ==> last_offset(total, limit) < total,
        last_offset(total, limit) + limit >= total,
{
    if total > 0 {
        lemma_div_mul_below(total - 1, limit);
    }
}

} // verus!
