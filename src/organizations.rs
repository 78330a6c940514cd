use vstd::prelude::*;
use vstd::string::StringExecFns;

use crate::decimal::{decimal, decimal_string};
use crate::error::{message_of, ApiError};
use crate::head::{get_head_block_num, resolved_head};
use crate::links::{entity_link, make_entity_link, opt_param, param, push_head, push_opt_param, push_param};
use crate::listing::{is_joined_page, join_page, page_fails, page_of, sorted_page, Fetched, Listed};
use crate::order::sort_by_key;
use crate::paging::{describes_page, effective, paging_ok, DEFAULT_LIMIT, DEFAULT_OFFSET};
use crate::planner::{is_joined, join_fails, join_organization, Ledger, OrganizationView};
use crate::records::{live, Organization, OrganizationType};
use crate::store::{
    get, indices_where, keyed_pred, lemma_consistent_lookup_unique, lemma_indices_where, lookup, positions_in,
    versions_consistent,
};

verus! {

/// The parameters of an organization listing. The type filter is a code:
/// 1 asks for certifying bodies, any other value for standards bodies.
pub struct OrganizationParams {
    pub name: Option<String>,
    pub organization_type: Option<i64>,
    pub limit: Option<i64>,
    pub offset: Option<i64>,
    pub head: Option<i64>,
}

/// The organization type that a type code asks for.
pub open spec fn type_of_code(code: i64) -> OrganizationType {
    if code == 1 {
        OrganizationType::CertifyingBody
    } else {
        OrganizationType::StandardsBody
    }
}

/// Whether organization row `o` is selected by `p` at `head`.
pub open spec fn organization_selected(p: OrganizationParams, head: int, o: Organization) -> bool {
    &&& live(o, head)
    &&& p.name matches Some(n) ==> o.name@ == n@
    &&& p.organization_type matches Some(t) ==> o.organization_type == type_of_code(t)
}

/// `organization_selected` as a predicate on rows.
pub open spec fn organization_pred(p: OrganizationParams, head: int) -> spec_fn(Organization) -> bool {
    |o: Organization| organization_selected(p, head, o)
}

/// The selected organizations, ordered by organization id.
pub open spec fn selected_organizations(l: Ledger, p: OrganizationParams, head: int) -> Seq<usize> {
    sort_by_key(l.organizations@, indices_where(l.organizations@, organization_pred(p, head)))
}

/// The link template of an organization listing.
pub open spec fn organizations_template(p: OrganizationParams, head: int) -> Seq<char> {
    "/api/organizations?"@ + opt_param("name"@, p.name) + match p.organization_type {
        Some(t) => param("organization_type"@, decimal(t as int)),
        None => Seq::empty(),
    } + param("head"@, decimal(head))
}

fn make_organizations_template(p: &OrganizationParams, head: i64) -> (r: String)
    ensures
        r@ == organizations_template(*p, head as int),
{
    let mut link = String::from_str("/api/organizations?");
    push_opt_param(&mut link, "name", &p.name);
    match p.organization_type {
        Some(t) => {
            let code = decimal_string(t);
            push_param(&mut link, "organization_type", code.as_str());
        },
        None => {
            assert(link@ + Seq::<char>::empty() =~= link@);
        },
    }
    push_head(&mut link, head);
    link
}

fn select_organizations(l: &Ledger, p: &OrganizationParams, head: i64) -> (r: Vec<usize>)
    ensures
        r@ == indices_where(l.organizations@, organization_pred(*p, head as int)),
        positions_in(r@, l.organizations@.len() as int),
{
    let rows = &l.organizations;
    let mut out: Vec<usize> = Vec::new();
    let mut i: usize = 0;
    while i < rows.len()
        invariant
            i <= rows@.len(),
            rows == &l.organizations,
            out@ == indices_where(rows@.take(i as int), organization_pred(*p, head as int)),
        decreases rows@.len() - i,
    {
        proof {
            assert(rows@.take(i as int + 1).drop_last() =~= rows@.take(i as int));
        }
        let o = &rows[i];
        let mut ok = o.start_block_num <= head && head < o.end_block_num;
        match &p.name {
            Some(n) => {
                ok = ok && o.name.eq(n);
            },
            None => {},
        }
        match p.organization_type {
            Some(t) => {
                let wanted = if t == 1 {
                    OrganizationType::CertifyingBody
                } else {
                    OrganizationType::StandardsBody
                };
                ok = ok && o.organization_type == wanted;
            },
            None => {},
        }
        if ok {
            out.push(i);
        }
        i = i + 1;
    }
    proof {
        assert(rows@.take(rows@.len() as int) =~= rows@);
        lemma_indices_where(l.organizations@, organization_pred(*p, head as int));
    }
    out
}

/// What reading organization `id` at `head` returns.
pub open spec fn organization_fetched(l: Ledger, id: Seq<char>, head: Option<i64>, r: Result<Fetched<OrganizationView>, ApiError>) -> bool {
    match resolved_head(head, l.blocks@) {
        None => r matches Err(e) && e.is_internal(),
        Some(h) => match lookup(l.organizations@, id, h) {
            Err(_) => r matches Err(e) && e.is_internal(),
            Ok(None) => r matches Err(e) && e.is_not_found(),
            Ok(Some(p)) => if join_fails(l, h, p, false) {
                r matches Err(e) && e.is_internal()
            } else {
                r matches Ok(f) && f.head == h && is_joined(l, h, p, false, f.data) && f.link@ == entity_link(
                    "/api/organizations/"@,
                    id,
                    h,
                )
            },
        },
    }
}

/// Reads one organization of any type at the resolved head, joined with
/// its contacts and authorizations, and for a factory its address and
/// assertion.
pub fn fetch_organization_with_params(l: &Ledger, organization_id: &String, head: Option<i64>) -> (r: Result<
    Fetched<OrganizationView>,
    ApiError,
>)
    ensures
        organization_fetched(*l, organization_id@, head, r),
{
    let h = get_head_block_num(head, &l.blocks)?;
    match get(&l.organizations, organization_id, h)? {
        None => Err(ApiError::NotFound(message_of("no organization with this id exists"))),
        Some(p) => {
            let data = join_organization(l, h, p, false)?;
            let link = make_entity_link("/api/organizations/", organization_id, h);
            Ok(Fetched { data, head: h, link })
        },
    }
}

/// What an organization listing returns for the parameters `p`.
pub open spec fn organizations_listed(l: Ledger, p: OrganizationParams, r: Result<Listed<OrganizationView>, ApiError>) -> bool {
    match resolved_head(p.head, l.blocks@) {
        None => r matches Err(e) && e.is_internal(),
        Some(h) => {
            let sorted = selected_organizations(l, p, h);
            let limit = effective(p.limit, DEFAULT_LIMIT);
            let offset = effective(p.offset, DEFAULT_OFFSET);
            let page = page_of(sorted, offset, limit);
            if !paging_ok(p.limit, p.offset) {
                r matches Err(e) && e.is_bad_request()
            } else if page_fails(l, h, page, false) {
                r matches Err(e) && e.is_internal()
            } else {
                r matches Ok(res) && res.head == h && describes_page(
                    res.paging,
                    organizations_template(p, h),
                    limit,
                    offset,
                    sorted.len() as int,
                ) && is_joined_page(l, h, page, false, res.data@)
            }
        },
    }
}

/// Lists organizations at the resolved head, ordered by organization id,
/// each joined at the same head.
pub fn list_organizations_with_params(l: &Ledger, p: &OrganizationParams) -> (r: Result<Listed<OrganizationView>, ApiError>)
    requires
        l.organizations@.len() <= i64::MAX,
    ensures
        organizations_listed(*l, *p, r),
{
    let h = get_head_block_num(p.head, &l.blocks)?;
    let selected = select_organizations(l, p, h);
    let template = make_organizations_template(p, h);
    let (paging, page) = sorted_page(&l.organizations, &selected, p.limit, p.offset, &template)?;
    let data = join_page(l, h, &page, false)?;
    Ok(Listed { data, head: h, paging })
}

/// No filters, the default page, the latest head.
pub open spec fn default_organization_params() -> OrganizationParams {
    OrganizationParams { name: None, organization_type: None, limit: None, offset: None, head: None }
}

/// Reads one organization at the latest head.
pub fn fetch_organization(l: &Ledger, organization_id: &String) -> (r: Result<Fetched<OrganizationView>, ApiError>)
    ensures
        organization_fetched(*l, organization_id@, None, r),
{
    fetch_organization_with_params(l, organization_id, None)
}

/// Lists organizations at the latest head, first page.
pub fn list_organizations(l: &Ledger) -> (r: Result<Listed<OrganizationView>, ApiError>)
    requires
        l.organizations@.len() <= i64::MAX,
    ensures
        organizations_listed(*l, default_organization_params(), r),
{
    let p = OrganizationParams { name: None, organization_type: None, limit: None, offset: None, head: None };
    list_organizations_with_params(l, &p)
}

/// Reading one organization returns at most one row: when no two versions
/// of an organization overlap, the read finds the one version of the key
/// visible at the head, answers not found exactly when there is none, and
/// fails otherwise only because a dependent row of that version breaks
/// integrity.
pub proof fn lemma_fetch_organization_unique(
    l: Ledger,
    k: Seq<char>,
    head: Option<i64>,
    h: int,
    r: Result<Fetched<OrganizationView>, ApiError>,
)
    requires
        l.organizations@.len() <= usize::MAX,
        versions_consistent(l.organizations@),
        resolved_head(head, l.blocks@) == Some(h),
        organization_fetched(l, k, head, r),
    ensures
        r matches Ok(f) ==> {
            let p = f.data.organization as int;
            &&& f.head == h
            &&& 0 <= p < l.organizations@.len()
            &&& live(l.organizations@[p], h)
            &&& l.organizations@[p].organization_id@ == k
            &&& forall|j: int|
                0 <= j < l.organizations@.len() && live(#[trigger] l.organizations@[j], h)
                    && l.organizations@[j].organization_id@ == k ==> j == p
        },
        (r matches Err(e) && e.is_not_found()) <==> forall|j: int|
            0 <= j < l.organizations@.len() ==> !(live(#[trigger] l.organizations@[j], h)
                && l.organizations@[j].organization_id@ == k),
        r matches Err(e) && e.is_internal() ==> (lookup(l.organizations@, k, h) matches Ok(Some(p)) && join_fails(
            l,
            h,
            p,
            false,
        )),
{
    let rows = l.organizations@;
    let pred = keyed_pred::<Organization>(k, h);
    let m = indices_where(rows, pred);
    lemma_consistent_lookup_unique(rows, k, h);
    lemma_indices_where(rows, pred);
    if m.len() == 1 {
        let p = m[0] as int;
        assert(pred(rows[p]));
        assert forall|j: int| 0 <= j < rows.len() && live(#[trigger] rows[j], h) && rows[j].organization_id@ == k implies j
            == p by {
            assert(pred(rows[j]));
            assert(m.contains(j as usize));
        }
        if r is Ok {
            assert(is_joined(l, h, m[0], false, r->Ok_0.data));
        }
    } else {
        assert(m.len() == 0);
        assert forall|j: int| 0 <= j < rows.len() implies !(live(#[trigger] rows[j], h) && rows[j].organization_id@
            == k) by {
            if live(rows[j], h) && rows[j].organization_id@ == k {
                assert(pred(rows[j]));
                assert(m.contains(j as usize));
            }
        }
    }
}

} // verus!
