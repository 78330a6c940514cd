use vstd::prelude::*;
use vstd::string::StringExecFns;

use crate::decimal::decimal;
use crate::error::{message_of, ApiError};
use crate::head::{get_head_block_num, resolved_head};
use crate::links::{entity_link, make_entity_link, opt_param, param, push_head, push_opt_param};
use crate::listing::{page_of, sorted_page, Fetched, Listed};
use crate::paging::{describes_page, effective, paging_ok, DEFAULT_LIMIT, DEFAULT_OFFSET};
use crate::planner::{
    cert_view, cert_views, expand_certificate, expand_certificates, lemma_missing_standard_fails_join, CertificateView,
    Ledger,
};
use crate::order::{lemma_sort_keeps_positions, lemma_sort_same_keys, sort_by_key};
use crate::records::{live, Certificate, Versioned};
use crate::store::{
    get, grown_past, indices_where, lemma_indices_same, lemma_indices_where, lemma_lookup_after_ingestion,
    lemma_lookup_owned_after_ingestion, lookup, owners_kept, positions_in,
};

verus! {

/// The parameters of a certificate listing.
pub struct CertificateParams {
    pub certifying_body_id: Option<String>,
    pub factory_id: Option<String>,
    pub limit: Option<i64>,
    pub offset: Option<i64>,
    pub head: Option<i64>,
}

/// Whether certificate row `c` is selected by `p` at `head`.
pub open spec fn certificate_selected(p: CertificateParams, head: int, c: Certificate) -> bool {
    &&& live(c, head)
    &&& p.certifying_body_id matches Some(b) ==> c.certifying_body_id@ == b@
    &&& p.factory_id matches Some(f) ==> c.factory_id@ == f@
}

/// `certificate_selected` as a predicate on rows.
pub open spec fn certificate_pred(p: CertificateParams, head: int) -> spec_fn(Certificate) -> bool {
    |c: Certificate| certificate_selected(p, head, c)
}

/// The selected certificates, ordered by certificate id.
pub open spec fn selected_certificates(l: Ledger, p: CertificateParams, head: int) -> Seq<usize> {
    sort_by_key(l.certificates@, indices_where(l.certificates@, certificate_pred(p, head)))
}

/// The link template of a certificate listing.
pub open spec fn certificates_template(p: CertificateParams, head: int) -> Seq<char> {
    "/api/certificates?"@ + opt_param("certifying_body_id"@, p.certifying_body_id) + opt_param(
        "factory_id"@,
        p.factory_id,
    ) + param("head"@, decimal(head))
}

fn make_certificates_template(p: &CertificateParams, head: i64) -> (r: String)
    ensures
        r@ == certificates_template(*p, head as int),
{
    let mut link = String::from_str("/api/certificates?");
    push_opt_param(&mut link, "certifying_body_id", &p.certifying_body_id);
    push_opt_param(&mut link, "factory_id", &p.factory_id);
    push_head(&mut link, head);
    link
}

fn select_certificates(l: &Ledger, p: &CertificateParams, head: i64) -> (r: Vec<usize>)
    ensures
        r@ == indices_where(l.certificates@, certificate_pred(*p, head as int)),
        positions_in(r@, l.certificates@.len() as int),
{
    let rows = &l.certificates;
    let mut out: Vec<usize> = Vec::new();
    let mut i: usize = 0;
    while i < rows.len()
        invariant
            i <= rows@.len(),
            rows == &l.certificates,
            out@ == indices_where(rows@.take(i as int), certificate_pred(*p, head as int)),
        decreases rows@.len() - i,
    {
        proof {
            assert(rows@.take(i as int + 1).drop_last() =~= rows@.take(i as int));
        }
        let c = &rows[i];
        let mut ok = c.start_block_num <= head && head < c.end_block_num;
        match &p.certifying_body_id {
            Some(b) => {
                ok = ok && c.certifying_body_id.eq(b);
            },
            None => {},
        }
        match &p.factory_id {
            Some(f) => {
                ok = ok && c.factory_id.eq(f);
            },
            None => {},
        }
        if ok {
            out.push(i);
        }
        i = i + 1;
    }
    proof {
        assert(rows@.take(rows@.len() as int) =~= rows@);
        lemma_indices_where(l.certificates@, certificate_pred(*p, head as int));
    }
    out
}

/// What reading certificate `id` at `head` returns.
pub open spec fn certificate_fetched(l: Ledger, id: Seq<char>, head: Option<i64>, r: Result<Fetched<CertificateView>, ApiError>) -> bool {
    match resolved_head(head, l.blocks@) {
        None => r matches Err(e) && e.is_internal(),
        Some(h) => match lookup(l.certificates@, id, h) {
            Err(_) => r matches Err(e) && e.is_internal(),
            Ok(None) => r matches Err(e) && e.is_not_found(),
            Ok(Some(c)) => match cert_view(l, h, c) {
                None => r matches Err(e) && e.is_internal(),
                Some(v) => r matches Ok(f) && f.head == h && f.data == v && f.link@ == entity_link(
                    "/api/certificates/"@,
                    id,
                    h,
                ),
            },
        },
    }
}

/// Reads one certificate at the resolved head, joined with its factory,
/// standard, certifying body and assertion. A factory, standard or
/// certifying body missing at that head is an internal error, never a
/// silently dropped certificate.
pub fn fetch_certificate_with_head_param(l: &Ledger, certificate_id: &String, head: Option<i64>) -> (r: Result<
    Fetched<CertificateView>,
    ApiError,
>)
    ensures
        certificate_fetched(*l, certificate_id@, head, r),
{
    let h = get_head_block_num(head, &l.blocks)?;
    let found = get(&l.certificates, certificate_id, h)?;
    match found {
        None => Err(ApiError::NotFound(message_of("no certificate with this id exists"))),
        Some(c) => {
            let data = expand_certificate(l, h, c)?;
            let link = make_entity_link("/api/certificates/", certificate_id, h);
            Ok(Fetched { data, head: h, link })
        },
    }
}

/// What a certificate listing returns for the parameters `p`.
pub open spec fn certificates_listed(l: Ledger, p: CertificateParams, r: Result<Listed<CertificateView>, ApiError>) -> bool {
    match resolved_head(p.head, l.blocks@) {
        None => r matches Err(e) && e.is_internal(),
        Some(h) => {
            let sorted = selected_certificates(l, p, h);
            let limit = effective(p.limit, DEFAULT_LIMIT);
            let offset = effective(p.offset, DEFAULT_OFFSET);
            let page = page_of(sorted, offset, limit);
            if !paging_ok(p.limit, p.offset) {
                r matches Err(e) && e.is_bad_request()
            } else {
                match cert_views(l, h, page) {
                    None => r matches Err(e) && e.is_internal(),
                    Some(v) => r matches Ok(res) && res.head == h && describes_page(
                        res.paging,
                        certificates_template(p, h),
                        limit,
                        offset,
                        sorted.len() as int,
                    ) && res.data@ == v,
                }
            }
        },
    }
}

/// Lists certificates at the resolved head, ordered by certificate id, each
/// joined with its partners at the same head.
pub fn list_certificates_with_params(l: &Ledger, p: &CertificateParams) -> (r: Result<Listed<CertificateView>, ApiError>)
    requires
        l.certificates@.len() <= i64::MAX,
    ensures
        certificates_listed(*l, *p, r),
{
    let h = get_head_block_num(p.head, &l.blocks)?;
    let selected = select_certificates(l, p, h);
    let template = make_certificates_template(p, h);
    let (paging, page) = sorted_page(&l.certificates, &selected, p.limit, p.offset, &template)?;
    let data = expand_certificates(l, h, &page)?;
    Ok(Listed { data, head: h, paging })
}

/// No filters, the default page, the latest head.
pub open spec fn default_certificate_params() -> CertificateParams {
    CertificateParams { certifying_body_id: None, factory_id: None, limit: None, offset: None, head: None }
}

/// Reads one certificate at the latest head.
pub fn fetch_certificate(l: &Ledger, certificate_id: &String) -> (r: Result<Fetched<CertificateView>, ApiError>)
    ensures
        certificate_fetched(*l, certificate_id@, None, r),
{
    fetch_certificate_with_head_param(l, certificate_id, None)
}

/// Lists certificates at the latest head, first page.
pub fn list_certificates(l: &Ledger) -> (r: Result<Listed<CertificateView>, ApiError>)
    requires
        l.certificates@.len() <= i64::MAX,
    ensures
        certificates_listed(*l, default_certificate_params(), r),
{
    let p = CertificateParams { certifying_body_id: None, factory_id: None, limit: None, offset: None, head: None };
    list_certificates_with_params(l, &p)
}

/// A certificate that falls in the requested page while its standard has no
/// version visible at the head makes the listing an internal error; it is
/// never silently dropped from the page.
pub proof fn lemma_listing_with_missing_standard_fails(
    l: Ledger,
    p: CertificateParams,
    h: int,
    c: usize,
    r: Result<Listed<CertificateView>, ApiError>,
)
    requires
        l.standards@.len() <= usize::MAX,
        resolved_head(p.head, l.blocks@) == Some(h),
        paging_ok(p.limit, p.offset),
        page_of(
            selected_certificates(l, p, h),
            effective(p.offset, DEFAULT_OFFSET),
            effective(p.limit, DEFAULT_LIMIT),
        ).contains(c),
        c < l.certificates@.len(),
        forall|j: int|
            0 <= j < l.standards@.len() ==> !(live(#[trigger] l.standards@[j], h)
                && l.standards@[j].standard_id@ == l.certificates@[c as int].standard_id@),
        certificates_listed(l, p, r),
    ensures
        r matches Err(e) && e.is_internal(),
{
    let page = page_of(
        selected_certificates(l, p, h),
        effective(p.offset, DEFAULT_OFFSET),
        effective(p.limit, DEFAULT_LIMIT),
    );
    let k = choose|k: int| 0 <= k < page.len() && page[k] == c;
    lemma_missing_standard_fails_join(l, h, page, k);
}

/// Whether `l2` is `l1` after ingestion past `head`, in the tables that a
/// certificate listing reads: each grew only past `head`, and the rows of
/// `l1` keep the fields that select and join certificates.
pub open spec fn certificates_grown_past(l1: Ledger, l2: Ledger, head: int) -> bool {
    &&& grown_past(l1.organizations@, l2.organizations@, head)
    &&& grown_past(l1.standards@, l2.standards@, head)
    &&& grown_past(l1.assertions@, l2.assertions@, head)
    &&& owners_kept(l1.assertions@, l2.assertions@)
    &&& grown_past(l1.certificates@, l2.certificates@, head)
    &&& forall|i: int|
        0 <= i < l1.certificates@.len() ==> {
            &&& (#[trigger] l2.certificates@[i]).factory_id@ == l1.certificates@[i].factory_id@
            &&& l2.certificates@[i].certifying_body_id@ == l1.certificates@[i].certifying_body_id@
            &&& l2.certificates@[i].standard_id@ == l1.certificates@[i].standard_id@
        }
}

/// Joining certificates of `l1` at `head` gives the same result after
/// ingestion past `head`.
pub proof fn lemma_cert_views_after_ingestion(l1: Ledger, l2: Ledger, head: int, cs: Seq<usize>)
    requires
        certificates_grown_past(l1, l2, head),
        forall|k: int| 0 <= k < cs.len() ==> (#[trigger] cs[k]) < l1.certificates@.len(),
    ensures
        cert_views(l2, head, cs) == cert_views(l1, head, cs),
    decreases cs.len(),
{
    if cs.len() > 0 {
        let init = cs.drop_last();
        assert forall|k: int| 0 <= k < init.len() implies (#[trigger] init[k]) < l1.certificates@.len() by {
            assert(init[k] == cs[k]);
        }
        lemma_cert_views_after_ingestion(l1, l2, head, init);
        let c = cs.last();
        let c1 = l1.certificates@[c as int];
        let c2 = l2.certificates@[c as int];
        assert(c2.key_spec() == c1.key_spec());
        lemma_lookup_after_ingestion(l1.organizations@, l2.organizations@, c1.factory_id@, head);
        lemma_lookup_after_ingestion(l1.standards@, l2.standards@, c1.standard_id@, head);
        lemma_lookup_after_ingestion(l1.organizations@, l2.organizations@, c1.certifying_body_id@, head);
        lemma_lookup_owned_after_ingestion(l1.assertions@, l2.assertions@, c1.certificate_id@, head);
        assert(cert_view(l2, head, c) == cert_view(l1, head, c));
    }
}

/// Repeating a certificate listing with the same explicit head after the
/// tables grew only past that head yields the same rows, the same total and
/// the same links, or the same kind of error.
pub proof fn lemma_certificate_listing_stable(
    l1: Ledger,
    l2: Ledger,
    p: CertificateParams,
    r1: Result<Listed<CertificateView>, ApiError>,
    r2: Result<Listed<CertificateView>, ApiError>,
)
    requires
        p.head is Some,
        l1.certificates@.len() <= usize::MAX,
        certificates_grown_past(l1, l2, p.head->Some_0 as int),
        certificates_listed(l1, p, r1),
        certificates_listed(l2, p, r2),
    ensures
        r1 is Ok <==> r2 is Ok,
        r1 matches Err(e1) ==> (r2 matches Err(e2) && e1.is_bad_request() == e2.is_bad_request()
            && e1.is_internal() == e2.is_internal()),
        r1 matches Ok(a) ==> (r2 matches Ok(b) && a.data@ == b.data@ && a.head == b.head
            && a.paging.paging.total == b.paging.paging.total && a.paging.link@ == b.paging.link@),
{
    let h = p.head->Some_0 as int;
    let rows1 = l1.certificates@;
    let rows2 = l2.certificates@;
    let pred = certificate_pred(p, h);
    assert forall|i: int| 0 <= i < rows1.len() implies pred(#[trigger] rows2[i]) == pred(rows1[i]) by {
        assert(rows2[i].key_spec() == rows1[i].key_spec());
    }
    assert forall|i: int| rows1.len() <= i < rows2.len() implies !pred(#[trigger] rows2[i]) by {
        assert(rows2[i].start_spec() > h);
    }
    lemma_indices_same(rows1, rows2, pred);
    let idx = indices_where(rows1, pred);
    lemma_indices_where(rows1, pred);
    assert forall|i: int| 0 <= i < rows1.len() implies (#[trigger] rows2[i]).key_spec() == rows1[i].key_spec() by {}
    lemma_sort_same_keys(rows1, rows2, idx);
    let sorted = selected_certificates(l1, p, h);
    assert(selected_certificates(l2, p, h) == sorted);
    lemma_sort_keeps_positions(rows1, idx);
    if paging_ok(p.limit, p.offset) {
        let page = page_of(sorted, effective(p.offset, DEFAULT_OFFSET), effective(p.limit, DEFAULT_LIMIT));
        assert forall|k: int| 0 <= k < page.len() implies (#[trigger] page[k]) < rows1.len() by {
            let n = sorted.len() as int;
            let o = effective(p.offset, DEFAULT_OFFSET);
            let start = if o < n { o } else { n };
            assert(page[k] == sorted[start + k]);
            assert(idx.contains(sorted[start + k]));
        }
        lemma_cert_views_after_ingestion(l1, l2, h, page);
    }
}

} // verus!
