use vstd::prelude::*;
use vstd::string::StringExecFns;

use crate::certificates::{certificates_grown_past, lemma_cert_views_after_ingestion};
use crate::decimal::decimal;
use crate::error::{message_of, ApiError};
use crate::head::{get_head_block_num, resolved_head};
use crate::links::{
    bool_text, entity_link, make_entity_link, opt_param, param, push_head, push_opt_flag, push_opt_param,
};
use crate::listing::{is_joined_page, join_page, page_fails, page_of, sorted_page, Fetched, Listed};
use crate::order::{lemma_sort_keeps_positions, lemma_sort_same_keys, sort_by_key};
use crate::paging::{describes_page, effective, paging_ok, DEFAULT_LIMIT, DEFAULT_OFFSET};
use crate::planner::{cert_views, held_certificates, is_joined, join_fails, join_organization, Ledger, OrganizationView};
use crate::records::{
    live, Authorization, Certificate, Contact, Organization, OrganizationType, Owned, Versioned,
};
use crate::search::{
    contains_key, full_text_key, full_text_matching_keys, fuzzy_key, fuzzy_matching_keys, in_keys, union_keys,
    TextSearch,
};
use crate::store::{
    get, grown_past, indices_where, lemma_indices_same, lemma_indices_where, lemma_lookup_owned_after_ingestion,
    lemma_owned_rows_after_ingestion, lookup, lookup_owned, owned_pred, owners_kept, positions_in,
};

verus! {

/// A fuzzy filter on one address field: the query, and for each address row
/// the trigram similarity of that row's field to the query, in thousandths.
pub struct FuzzyFilter {
    pub query: String,
    pub scores: Vec<u32>,
}

/// The parameters of a factory query.
pub struct FactoryParams {
    pub name: Option<String>,
    pub search: Option<TextSearch>,
    pub city: Option<FuzzyFilter>,
    pub state_province: Option<FuzzyFilter>,
    pub country: Option<FuzzyFilter>,
    pub postal_code: Option<FuzzyFilter>,
    pub limit: Option<i64>,
    pub offset: Option<i64>,
    pub head: Option<i64>,
    pub expand: Option<bool>,
}

/// Whether a fuzzy filter has one score per address row.
pub open spec fn fuzzy_fits(f: Option<FuzzyFilter>, l: Ledger) -> bool {
    f matches Some(x) ==> x.scores@.len() == l.addresses@.len()
}

/// Whether the per-row outcomes of the filters fit the ledger's tables.
pub open spec fn params_fit(p: FactoryParams, l: Ledger) -> bool {
    &&& p.search matches Some(s) ==> {
        &&& s.organization_names@.len() == l.organizations@.len()
        &&& s.standard_names@.len() == l.standards@.len()
        &&& s.addresses@.len() == l.addresses@.len()
    }
    &&& fuzzy_fits(p.city, l)
    &&& fuzzy_fits(p.state_province, l)
    &&& fuzzy_fits(p.country, l)
    &&& fuzzy_fits(p.postal_code, l)
}

/// Whether one fuzzy filter is present and accepts organization `k`.
pub open spec fn fuzzy_one(l: Ledger, f: Option<FuzzyFilter>, head: int, k: Seq<char>) -> bool {
    f matches Some(x) && fuzzy_key(l.addresses@, x.scores@, head, k)
}

/// Whether some fuzzy filter is present.
pub open spec fn any_fuzzy(p: FactoryParams) -> bool {
    p.city is Some || p.state_province is Some || p.country is Some || p.postal_code is Some
}

/// The fuzzy filters together: their key sets are unioned, and with none
/// present every organization passes.
pub open spec fn fuzzy_accepts(l: Ledger, p: FactoryParams, head: int, k: Seq<char>) -> bool {
    !any_fuzzy(p) || fuzzy_one(l, p.city, head, k) || fuzzy_one(l, p.state_province, head, k)
        || fuzzy_one(l, p.country, head, k) || fuzzy_one(l, p.postal_code, head, k)
}

/// Whether organization row `o` is a factory selected by `p` at `head`: a
/// factory visible at the head, with the name asked for, matching the
/// full-text query, and accepted by the fuzzy filters.
pub open spec fn factory_selected(l: Ledger, p: FactoryParams, head: int, o: Organization) -> bool {
    &&& live(o, head)
    &&& o.organization_type == OrganizationType::Factory
    &&& p.name matches Some(n) ==> o.name@ == n@
    &&& p.search matches Some(s) ==> full_text_key(
        l.organizations@,
        l.addresses@,
        l.certificates@,
        l.standards@,
        s,
        head,
        o.organization_id@,
    )
    &&& fuzzy_accepts(l, p, head, o.organization_id@)
}

/// `factory_selected` as a predicate on rows.
pub open spec fn factory_pred(l: Ledger, p: FactoryParams, head: int) -> spec_fn(Organization) -> bool {
    |o: Organization| factory_selected(l, p, head, o)
}

/// The selected factories, ordered by organization id.
pub open spec fn selected_factories(l: Ledger, p: FactoryParams, head: int) -> Seq<usize> {
    sort_by_key(l.organizations@, indices_where(l.organizations@, factory_pred(l, p, head)))
}

/// The value of an optional fuzzy filter as a link shows it.
pub open spec fn fuzzy_query(f: Option<FuzzyFilter>) -> Option<String> {
    match f {
        Some(x) => Some(x.query),
        None => None,
    }
}

/// The value of an optional full-text filter as a link shows it.
pub open spec fn search_query(s: Option<TextSearch>) -> Option<String> {
    match s {
        Some(x) => Some(x.query),
        None => None,
    }
}

/// The link template of a factory listing: the path and every filter given,
/// in a fixed order, then the head and the expansion flag.
pub open spec fn factories_template(p: FactoryParams, head: int) -> Seq<char> {
    "/api/factories?"@ + opt_param("name"@, p.name) + opt_param("search"@, search_query(p.search))
        + opt_param("city"@, fuzzy_query(p.city)) + opt_param("state_province"@, fuzzy_query(p.state_province))
        + opt_param("country"@, fuzzy_query(p.country)) + opt_param("postal_code"@, fuzzy_query(p.postal_code))
        + param("head"@, decimal(head)) + match p.expand {
        Some(b) => param("expand"@, bool_text(b)),
        None => Seq::empty(),
    }
}

fn opt_fuzzy_query(f: &Option<FuzzyFilter>) -> (r: Option<String>)
    ensures
        r == fuzzy_query(*f),
{
    match f {
        Some(x) => Some(x.query.clone()),
        None => None,
    }
}

fn make_factories_template(p: &FactoryParams, head: i64) -> (r: String)
    ensures
        r@ == factories_template(*p, head as int),
{
    let mut link = String::from_str("/api/factories?");
    push_opt_param(&mut link, "name", &p.name);
    let search = match &p.search {
        Some(s) => Some(s.query.clone()),
        None => None,
    };
    push_opt_param(&mut link, "search", &search);
    push_opt_param(&mut link, "city", &opt_fuzzy_query(&p.city));
    push_opt_param(&mut link, "state_province", &opt_fuzzy_query(&p.state_province));
    push_opt_param(&mut link, "country", &opt_fuzzy_query(&p.country));
    push_opt_param(&mut link, "postal_code", &opt_fuzzy_query(&p.postal_code));
    push_head(&mut link, head);
    push_opt_flag(&mut link, "expand", p.expand);
    link
}

fn add_fuzzy(l: &Ledger, f: &Option<FuzzyFilter>, head: i64, keys: &mut Vec<String>)
    requires
        fuzzy_fits(*f, *l),
    ensures
        forall|k: Seq<char>|
            #[trigger] in_keys(final(keys)@, k) <==> (in_keys(old(keys)@, k) || fuzzy_one(*l, *f, head as int, k)),
{
    match f {
        Some(x) => {
            let found = fuzzy_matching_keys(&l.addresses, &x.scores, head);
            union_keys(keys, found);
        },
        None => {},
    }
}

/// The organization ids that the fuzzy filters accept together, or none
/// when no fuzzy filter is given.
fn fuzzy_keys(l: &Ledger, p: &FactoryParams, head: i64) -> (r: Option<Vec<String>>)
    requires
        params_fit(*p, *l),
    ensures
        r is None <==> !any_fuzzy(*p),
        r matches Some(keys) ==> forall|k: Seq<char>| #[trigger] in_keys(keys@, k) <==> fuzzy_accepts(*l, *p, head as int, k),
{
    if p.city.is_none() && p.state_province.is_none() && p.country.is_none() && p.postal_code.is_none() {
        return None;
    }
    let mut keys: Vec<String> = Vec::new();
    add_fuzzy(l, &p.city, head, &mut keys);
    add_fuzzy(l, &p.state_province, head, &mut keys);
    add_fuzzy(l, &p.country, head, &mut keys);
    add_fuzzy(l, &p.postal_code, head, &mut keys);
    Some(keys)
}

/// The positions of the factories selected by `p` at `head`, in table order.
fn select_factories(l: &Ledger, p: &FactoryParams, head: i64) -> (r: Vec<usize>)
    requires
        params_fit(*p, *l),
    ensures
        r@ == indices_where(l.organizations@, factory_pred(*l, *p, head as int)),
        positions_in(r@, l.organizations@.len() as int),
{
    let search_keys: Option<Vec<String>> = match &p.search {
        Some(s) => Some(
            full_text_matching_keys(&l.organizations, &l.addresses, &l.certificates, &l.standards, s, head),
        ),
        None => None,
    };
    let fuzzy = fuzzy_keys(l, p, head);
    let rows = &l.organizations;
    let mut out: Vec<usize> = Vec::new();
    let mut i: usize = 0;
    while i < rows.len()
        invariant
            i <= rows@.len(),
            rows == &l.organizations,
            params_fit(*p, *l),
            out@ == indices_where(rows@.take(i as int), factory_pred(*l, *p, head as int)),
            p.search is None <==> search_keys is None,
            search_keys matches Some(keys) ==> p.search matches Some(s) && forall|k: Seq<char>|
                #[trigger] in_keys(keys@, k) <==> full_text_key(
                    l.organizations@,
                    l.addresses@,
                    l.certificates@,
                    l.standards@,
                    s,
                    head as int,
                    k,
                ),
            fuzzy is None <==> !any_fuzzy(*p),
            fuzzy matches Some(keys) ==> forall|k: Seq<char>| #[trigger] in_keys(keys@, k) <==> fuzzy_accepts(*l, *p, head as int, k),
        decreases rows@.len() - i,
    {
        proof {
            assert(rows@.take(i as int + 1).drop_last() =~= rows@.take(i as int));
        }
        let o = &rows[i];
        let mut ok = o.start_block_num <= head && head < o.end_block_num
            && o.organization_type == OrganizationType::Factory;
        match &p.name {
            Some(n) => {
                ok = ok && o.name.eq(n);
            },
            None => {},
        }
        match &search_keys {
            Some(keys) => {
                ok = ok && contains_key(keys, &o.organization_id);
            },
            None => {},
        }
        match &fuzzy {
            Some(keys) => {
                ok = ok && contains_key(keys, &o.organization_id);
            },
            None => {},
        }
        proof {
            assert(ok == factory_selected(*l, *p, head as int, *o));
        }
        if ok {
            out.push(i);
        }
        i = i + 1;
    }
    proof {
        assert(rows@.take(rows@.len() as int) =~= rows@);
        lemma_indices_where(l.organizations@, factory_pred(*l, *p, head as int));
    }
    out
}

/// What reading factory `id` at `head`, expanded or not, returns.
pub open spec fn factory_fetched(l: Ledger, id: Seq<char>, head: Option<i64>, expand: bool, r: Result<Fetched<OrganizationView>, ApiError>) -> bool {
    match resolved_head(head, l.blocks@) {
        None => r matches Err(e) && e.is_internal(),
        Some(h) => match lookup(l.organizations@, id, h) {
            Err(_) => r matches Err(e) && e.is_internal(),
            Ok(None) => r matches Err(e) && e.is_not_found(),
            Ok(Some(p)) => if l.organizations@[p as int].organization_type != OrganizationType::Factory {
                r matches Err(e) && e.is_not_found()
            } else if join_fails(l, h, p, expand) {
                r matches Err(e) && e.is_internal()
            } else {
                r matches Ok(f) && f.head == h && is_joined(l, h, p, expand, f.data) && f.link@ == entity_link(
                    "/api/factories/"@,
                    id,
                    h,
                )
            },
        },
    }
}

/// Reads one factory at the resolved head, joined with what it owns; with
/// `expand` also with its certificates. No factory version of the id
/// visible at the head is not found; two visible versions, or a certificate
/// whose partners are missing, are internal errors.
pub fn fetch_factory_with_head_param(l: &Ledger, organization_id: &String, head: Option<i64>, expand: bool) -> (r: Result<
    Fetched<OrganizationView>,
    ApiError,
>)
    ensures
        factory_fetched(*l, organization_id@, head, expand, r),
{
    let h = get_head_block_num(head, &l.blocks)?;
    let found = get(&l.organizations, organization_id, h)?;
    match found {
        None => Err(ApiError::NotFound(message_of("no factory with this organization id exists"))),
        Some(p) => {
            if l.organizations[p].organization_type != OrganizationType::Factory {
                return Err(ApiError::NotFound(message_of("no factory with this organization id exists")));
            }
            let data = join_organization(l, h, p, expand)?;
            let link = make_entity_link("/api/factories/", organization_id, h);
            Ok(Fetched { data, head: h, link })
        },
    }
}

/// What a factory listing returns for the parameters `p`: an internal error
/// without a head; a bad request for bad paging; an internal error when a
/// row of the page cannot be joined; else the page of the selected
/// factories, each joined at the head, with its paging descriptor.
pub open spec fn factories_listed(l: Ledger, p: FactoryParams, r: Result<Listed<OrganizationView>, ApiError>) -> bool {
    match resolved_head(p.head, l.blocks@) {
        None => r matches Err(e) && e.is_internal(),
        Some(h) => {
            let sorted = selected_factories(l, p, h);
            let limit = effective(p.limit, DEFAULT_LIMIT);
            let offset = effective(p.offset, DEFAULT_OFFSET);
            let expand = p.expand == Some(true);
            let page = page_of(sorted, offset, limit);
            if !paging_ok(p.limit, p.offset) {
                r matches Err(e) && e.is_bad_request()
            } else if page_fails(l, h, page, expand) {
                r matches Err(e) && e.is_internal()
            } else {
                r matches Ok(res) && res.head == h && describes_page(
                    res.paging,
                    factories_template(p, h),
                    limit,
                    offset,
                    sorted.len() as int,
                ) && is_joined_page(l, h, page, expand, res.data@)
            }
        },
    }
}

/// Lists factories at the resolved head: the filters select, the rows are
/// ordered by organization id, the count is taken before the page is cut,
/// and each row of the page is joined at the same head.
pub fn list_factories_params(l: &Ledger, p: &FactoryParams) -> (r: Result<Listed<OrganizationView>, ApiError>)
    requires
        params_fit(*p, *l),
        l.organizations@.len() <= i64::MAX,
    ensures
        factories_listed(*l, *p, r),
{
    let h = get_head_block_num(p.head, &l.blocks)?;
    let selected = select_factories(l, p, h);
    let template = make_factories_template(p, h);
    let (paging, page) = sorted_page(&l.organizations, &selected, p.limit, p.offset, &template)?;
    let expand = p.expand == Some(true);
    let data = join_page(l, h, &page, expand)?;
    Ok(Listed { data, head: h, paging })
}

/// Whether two joined organizations are the same rows.
pub open spec fn same_join(a: OrganizationView, b: OrganizationView) -> bool {
    &&& a.organization == b.organization
    &&& a.contacts@ == b.contacts@
    &&& a.authorizations@ == b.authorizations@
    &&& a.address == b.address
    &&& a.assertion == b.assertion
    &&& match (a.certificates, b.certificates) {
        (Some(x), Some(y)) => x@ == y@,
        (None, None) => true,
        _ => false,
    }
}

/// Repeating a factory listing with the same explicit head over the same
/// tables yields the same rows and the same total, or the same kind of
/// error.
pub proof fn lemma_factory_listing_repeatable(
    l: Ledger,
    p: FactoryParams,
    r1: Result<Listed<OrganizationView>, ApiError>,
    r2: Result<Listed<OrganizationView>, ApiError>,
)
    requires
        p.head is Some,
        factories_listed(l, p, r1),
        factories_listed(l, p, r2),
    ensures
        r1 is Ok <==> r2 is Ok,
        r1 matches Err(e1) ==> (r2 matches Err(e2) && e1.is_bad_request() == e2.is_bad_request()
            && e1.is_internal() == e2.is_internal()),
        r1 matches Ok(a) ==> (r2 matches Ok(b) && a.head == b.head && a.paging.paging.total == b.paging.paging.total
            && a.data@.len() == b.data@.len() && forall|i: int|
            0 <= i < a.data@.len() ==> #[trigger] same_join(a.data@[i], b.data@[i])),
{
    if r1 is Ok {
        let h = resolved_head(p.head, l.blocks@)->Some_0;
        let sorted = selected_factories(l, p, h);
        let page = page_of(sorted, effective(p.offset, DEFAULT_OFFSET), effective(p.limit, DEFAULT_LIMIT));
        let a = r1->Ok_0;
        let b = r2->Ok_0;
        let expand = p.expand == Some(true);
        assert forall|i: int| 0 <= i < a.data@.len() implies #[trigger] same_join(a.data@[i], b.data@[i]) by {
            assert(is_joined(l, h, page[i], expand, a.data@[i]));
            assert(is_joined(l, h, page[i], expand, b.data@[i]));
        }
    }
}

/// No filters, the default page, the latest head, no expansion.
pub open spec fn default_factory_params() -> FactoryParams {
    FactoryParams {
        name: None,
        search: None,
        city: None,
        state_province: None,
        country: None,
        postal_code: None,
        limit: None,
        offset: None,
        head: None,
        expand: None,
    }
}

/// Reads one factory at the latest head, not expanded.
pub fn fetch_factory(l: &Ledger, organization_id: &String) -> (r: Result<Fetched<OrganizationView>, ApiError>)
    ensures
        factory_fetched(*l, organization_id@, None, false, r),
{
    fetch_factory_with_head_param(l, organization_id, None, false)
}

/// Lists factories at the latest head, first page.
pub fn list_factories(l: &Ledger) -> (r: Result<Listed<OrganizationView>, ApiError>)
    requires
        l.organizations@.len() <= i64::MAX,
    ensures
        factories_listed(*l, default_factory_params(), r),
{
    let p = FactoryParams {
        name: None,
        search: None,
        city: None,
        state_province: None,
        country: None,
        postal_code: None,
        limit: None,
        offset: None,
        head: None,
        expand: None,
    };
    list_factories_params(l, &p)
}

/// Whether `p` selects by head alone: no name, full-text or fuzzy filter,
/// and the first page.
pub open spec fn unfiltered_first_page(p: FactoryParams) -> bool {
    &&& p.name is None
    &&& p.search is None
    &&& !any_fuzzy(p)
    &&& effective(p.offset, DEFAULT_OFFSET) == 0
}

/// A factory version visible at one head and still open at a later head is
/// listed at the later head, joined from that same row; one whose interval
/// ended at or before the later head is neither listed nor counted. (For an
/// unfiltered first page large enough to hold every factory, and a listing
/// that succeeded.)
pub proof fn lemma_factory_listing_across_heads(
    l: Ledger,
    p: FactoryParams,
    i: usize,
    h1: int,
    h2: int,
    r: Result<Listed<OrganizationView>, ApiError>,
)
    requires
        l.organizations@.len() <= usize::MAX,
        unfiltered_first_page(p),
        i64::MIN <= h2 <= i64::MAX,
        p.head == Some(h2 as i64),
        h1 < h2,
        i < l.organizations@.len(),
        l.organizations@[i as int].organization_type == OrganizationType::Factory,
        live(l.organizations@[i as int], h1),
        effective(p.limit, DEFAULT_LIMIT) >= selected_factories(l, p, h2).len(),
        factories_listed(l, p, r),
        r is Ok,
    ensures
        h2 < l.organizations@[i as int].end_spec() ==> exists|k: int|
            0 <= k < r->Ok_0.data@.len() && (#[trigger] r->Ok_0.data@[k]).organization == i,
        l.organizations@[i as int].end_spec() <= h2 ==> forall|k: int|
            0 <= k < r->Ok_0.data@.len() ==> (#[trigger] r->Ok_0.data@[k]).organization != i,
        l.organizations@[i as int].end_spec() <= h2 ==> !selected_factories(l, p, h2).contains(i),
{
    let rows = l.organizations@;
    let pred = factory_pred(l, p, h2);
    let idx = indices_where(rows, pred);
    let sorted = selected_factories(l, p, h2);
    lemma_indices_where(rows, pred);
    lemma_sort_keeps_positions(rows, idx);
    sorted.to_multiset_ensures();
    idx.to_multiset_ensures();
    let limit = effective(p.limit, DEFAULT_LIMIT);
    let page = page_of(sorted, 0, limit);
    assert(page =~= sorted);
    let res = r->Ok_0;
    assert(is_joined_page(l, h2, page, p.expand == Some(true), res.data@));
    if h2 < rows[i as int].end_spec() {
        assert(pred(rows[i as int]));
        assert(idx.contains(i));
        assert(idx.to_multiset().count(i) > 0);
        assert(sorted.to_multiset().count(i) > 0);
        assert(sorted.contains(i));
        let k = choose|k: int| 0 <= k < sorted.len() && sorted[k] == i;
        assert(is_joined(l, h2, page[k], p.expand == Some(true), res.data@[k]));
    } else {
        if sorted.contains(i) {
            assert(idx.contains(i));
            let k = choose|k: int| 0 <= k < idx.len() && idx[k] == i;
            assert(pred(rows[idx[k] as int]));
        }
        assert forall|k: int| 0 <= k < res.data@.len() implies (#[trigger] res.data@[k]).organization != i by {
            assert(is_joined(l, h2, page[k], p.expand == Some(true), res.data@[k]));
            assert(sorted.contains(sorted[k]));
        }
    }
}

/// Whether `l2` is `l1` after ingestion past `head`, in the tables that a
/// factory listing reads: each grew only past `head`, and the rows of `l1`
/// keep their names, types and owners, and the fields that join
/// certificates.
pub open spec fn factories_grown_past(l1: Ledger, l2: Ledger, head: int) -> bool {
    &&& certificates_grown_past(l1, l2, head)
    &&& forall|i: int|
        0 <= i < l1.organizations@.len() ==> {
            &&& (#[trigger] l2.organizations@[i]).name@ == l1.organizations@[i].name@
            &&& l2.organizations@[i].organization_type == l1.organizations@[i].organization_type
        }
    &&& grown_past(l1.contacts@, l2.contacts@, head)
    &&& owners_kept(l1.contacts@, l2.contacts@)
    &&& grown_past(l1.authorizations@, l2.authorizations@, head)
    &&& owners_kept(l1.authorizations@, l2.authorizations@)
    &&& grown_past(l1.addresses@, l2.addresses@, head)
    &&& owners_kept(l1.addresses@, l2.addresses@)
}

proof fn lemma_join_after_ingestion(l1: Ledger, l2: Ledger, head: int, p: usize)
    requires
        factories_grown_past(l1, l2, head),
        p < l1.organizations@.len(),
        l1.certificates@.len() <= usize::MAX,
    ensures
        ({
            let k = l1.organizations@[p as int].organization_id@;
            &&& l2.organizations@[p as int].organization_id@ == k
            &&& l2.organizations@[p as int].organization_type == l1.organizations@[p as int].organization_type
            &&& indices_where(l2.contacts@, owned_pred::<Contact>(k, head)) == indices_where(
                l1.contacts@,
                owned_pred::<Contact>(k, head),
            )
            &&& indices_where(l2.authorizations@, owned_pred::<Authorization>(k, head)) == indices_where(
                l1.authorizations@,
                owned_pred::<Authorization>(k, head),
            )
            &&& lookup_owned(l2.addresses@, k, head) == lookup_owned(l1.addresses@, k, head)
            &&& lookup_owned(l2.assertions@, k, head) == lookup_owned(l1.assertions@, k, head)
            &&& held_certificates(l2, head, p) == held_certificates(l1, head, p)
            &&& cert_views(l2, head, held_certificates(l1, head, p)) == cert_views(
                l1,
                head,
                held_certificates(l1, head, p),
            )
        }),
{
    let k = l1.organizations@[p as int].organization_id@;
    assert(l2.organizations@[p as int].key_spec() == l1.organizations@[p as int].key_spec());
    lemma_owned_rows_after_ingestion(l1.contacts@, l2.contacts@, k, head);
    lemma_owned_rows_after_ingestion(l1.authorizations@, l2.authorizations@, k, head);
    lemma_lookup_owned_after_ingestion(l1.addresses@, l2.addresses@, k, head);
    lemma_lookup_owned_after_ingestion(l1.assertions@, l2.assertions@, k, head);
    assert forall|i: int| 0 <= i < l1.certificates@.len() implies (#[trigger] l2.certificates@[i]).owner_spec()
        == l1.certificates@[i].owner_spec() by {}
    lemma_owned_rows_after_ingestion(l1.certificates@, l2.certificates@, k, head);
    let held = held_certificates(l1, head, p);
    lemma_indices_where(l1.certificates@, owned_pred::<Certificate>(k, head));
    lemma_cert_views_after_ingestion(l1, l2, head, held);
}

/// Repeating a factory listing without full-text or fuzzy filters, with the
/// same explicit head, after the tables grew only past that head, yields the
/// same rows joined alike, the same total and the same links, or the same
/// kind of error.
pub proof fn lemma_factory_listing_stable(
    l1: Ledger,
    l2: Ledger,
    p: FactoryParams,
    r1: Result<Listed<OrganizationView>, ApiError>,
    r2: Result<Listed<OrganizationView>, ApiError>,
)
    requires
        p.head is Some,
        p.search is None,
        !any_fuzzy(p),
        l1.organizations@.len() <= usize::MAX,
        l1.certificates@.len() <= usize::MAX,
        factories_grown_past(l1, l2, p.head->Some_0 as int),
        factories_listed(l1, p, r1),
        factories_listed(l2, p, r2),
    ensures
        r1 is Ok <==> r2 is Ok,
        r1 matches Err(e1) ==> (r2 matches Err(e2) && e1.is_bad_request() == e2.is_bad_request()
            && e1.is_internal() == e2.is_internal()),
        r1 matches Ok(a) ==> (r2 matches Ok(b) && a.head == b.head && a.paging.paging.total == b.paging.paging.total
            && a.paging.link@ == b.paging.link@ && a.data@.len() == b.data@.len() && forall|i: int|
            0 <= i < a.data@.len() ==> #[trigger] same_join(a.data@[i], b.data@[i])),
{
    let h = p.head->Some_0 as int;
    let rows1 = l1.organizations@;
    let rows2 = l2.organizations@;
    let pred1 = factory_pred(l1, p, h);
    let pred2 = factory_pred(l2, p, h);
    assert forall|i: int| 0 <= i < rows1.len() implies pred1(#[trigger] rows2[i]) == pred1(rows1[i]) by {
        assert(rows2[i].key_spec() == rows1[i].key_spec());
    }
    assert forall|i: int| rows1.len() <= i < rows2.len() implies !pred1(#[trigger] rows2[i]) by {
        assert(rows2[i].start_spec() > h);
    }
    assert forall|o: Organization| #[trigger] pred1(o) == pred2(o) by {}
    assert(pred1 =~= pred2);
    lemma_indices_same(rows1, rows2, pred1);
    let idx = indices_where(rows1, pred1);
    lemma_indices_where(rows1, pred1);
    assert forall|i: int| 0 <= i < rows1.len() implies (#[trigger] rows2[i]).key_spec() == rows1[i].key_spec() by {}
    lemma_sort_same_keys(rows1, rows2, idx);
    let sorted = selected_factories(l1, p, h);
    assert(selected_factories(l2, p, h) == sorted);
    lemma_sort_keeps_positions(rows1, idx);
    if paging_ok(p.limit, p.offset) {
        let page = page_of(sorted, effective(p.offset, DEFAULT_OFFSET), effective(p.limit, DEFAULT_LIMIT));
        let expand = p.expand == Some(true);
        assert forall|k: int| 0 <= k < page.len() implies (#[trigger] page[k]) < rows1.len() by {
            let n = sorted.len() as int;
            let o = effective(p.offset, DEFAULT_OFFSET);
            let start = if o < n { o } else { n };
            assert(page[k] == sorted[start + k]);
            assert(idx.contains(sorted[start + k]));
        }
        assert forall|k: int| 0 <= k < page.len() implies #[trigger] join_fails(l2, h, page[k], expand)
            == join_fails(l1, h, page[k], expand) by {
            lemma_join_after_ingestion(l1, l2, h, page[k]);
        }
        if page_fails(l1, h, page, expand) {
            let k = choose|k: int| 0 <= k < page.len() && #[trigger] join_fails(l1, h, page[k], expand);
            assert(join_fails(l2, h, page[k], expand));
        }
        if page_fails(l2, h, page, expand) {
            let k = choose|k: int| 0 <= k < page.len() && #[trigger] join_fails(l2, h, page[k], expand);
            assert(join_fails(l1, h, page[k], expand));
        }
        if r1 is Ok && r2 is Ok {
            let a = r1->Ok_0;
            let b = r2->Ok_0;
            assert forall|i: int| 0 <= i < a.data@.len() implies #[trigger] same_join(a.data@[i], b.data@[i]) by {
                lemma_join_after_ingestion(l1, l2, h, page[i]);
                assert(is_joined(l1, h, page[i], expand, a.data@[i]));
                assert(is_joined(l2, h, page[i], expand, b.data@[i]));
            }
        }
    }
}

} // verus!
