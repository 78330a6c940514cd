use vstd::prelude::*;

use crate::error::{message_of, ApiError};
use crate::head::Block;
use crate::records::{
    live, Address, Assertion, Authorization, Certificate, Contact, Organization, OrganizationType, Standard,
    StandardVersion, Versioned,
};
use crate::store::{
    get, indices_where, keyed_pred, lemma_indices_where, lookup, lookup_owned, owned_pred, owned_rows, unique,
};

verus! {

/// The versioned tables that queries read, and the ledger of committed
/// blocks.
pub struct Ledger {
    pub blocks: Vec<Block>,
    pub organizations: Vec<Organization>,
    pub addresses: Vec<Address>,
    pub contacts: Vec<Contact>,
    pub authorizations: Vec<Authorization>,
    pub certificates: Vec<Certificate>,
    pub standards: Vec<Standard>,
    pub standard_versions: Vec<StandardVersion>,
    pub assertions: Vec<Assertion>,
}

/// A certificate joined, at one head, with the factory that holds it, the
/// standard it is issued against, the body that issued it, and the
/// assertion made about it, if any. Each field is a position in the
/// corresponding table of the ledger.
#[derive(PartialEq, Eq, Structural, Clone, Copy, Debug)]
pub struct CertificateView {
    pub certificate: usize,
    pub factory: usize,
    pub standard: usize,
    pub certifying_body: usize,
    pub assertion: Option<usize>,
}

/// A required lookup: the one visible version, or nothing when there is none
/// or more than one.
pub open spec fn required(r: Result<Option<usize>, ()>) -> Option<usize> {
    match r {
        Ok(Some(p)) => Some(p),
        _ => None,
    }
}

/// Certificate `c` joined at `head`, or none when one of its required
/// partners (factory, standard, certifying body) is missing at that head, or
/// one of its lookups finds more than one version.
pub open spec fn cert_view(l: Ledger, head: int, c: usize) -> Option<CertificateView> {
    let cert = l.certificates@[c as int];
    let f = required(lookup(l.organizations@, cert.factory_id@, head));
    let s = required(lookup(l.standards@, cert.standard_id@, head));
    let b = required(lookup(l.organizations@, cert.certifying_body_id@, head));
    let a = lookup_about(l.assertions@, cert.certificate_id@, head);
    if f is Some && s is Some && b is Some && a is Ok {
        Some(
            CertificateView {
                certificate: c,
                factory: f->Some_0,
                standard: s->Some_0,
                certifying_body: b->Some_0,
                assertion: a->Ok_0,
            },
        )
    } else {
        None
    }
}

/// The certificates at positions `cs` joined at `head`; none when any one of
/// them cannot be.
pub open spec fn cert_views(l: Ledger, head: int, cs: Seq<usize>) -> Option<Seq<CertificateView>>
    decreases cs.len(),
{
    if cs.len() == 0 {
        Some(Seq::empty())
    } else {
        match (cert_views(l, head, cs.drop_last()), cert_view(l, head, cs.last())) {
            (Some(v), Some(x)) => Some(v.push(x)),
            _ => None,
        }
    }
}

proof fn lemma_cert_views_prefix_none(l: Ledger, head: int, cs: Seq<usize>, i: int)
    requires
        0 <= i <= cs.len(),
        cert_views(l, head, cs.take(i)) is None,
    ensures
        cert_views(l, head, cs) is None,
    decreases cs.len() - i,
{
    if i < cs.len() {
        assert(cs.take(i + 1).drop_last() =~= cs.take(i));
        lemma_cert_views_prefix_none(l, head, cs, i + 1);
    } else {
        assert(cs.take(i) =~= cs);
    }
}

/// The outcome of looking up the one assertion about the entity `k` at
/// `head`.
pub open spec fn lookup_about(assertions: Seq<Assertion>, k: Seq<char>, head: int) -> Result<Option<usize>, ()> {
    lookup_owned(assertions, k, head)
}

/// Looks up the one assertion, visible at `head`, about the entity
/// `object_id`; more than one is an internal error.
pub fn assertion_about(assertions: &Vec<Assertion>, object_id: &String, head: i64) -> (r: Result<Option<usize>, ApiError>)
    ensures
        lookup_about(assertions@, object_id@, head as int) matches Ok(o) ==> r == Ok::<Option<usize>, ApiError>(o),
        lookup_about(assertions@, object_id@, head as int) is Err ==> (r matches Err(e) && e.is_internal()),
{
    let found = owned_rows(assertions, object_id, head);
    unique(&found)
}

/// A certificate whose standard has no version visible at `head` cannot be
/// joined, and neither can any sequence of certificates holding it: the
/// whole join fails rather than dropping it.
pub proof fn lemma_missing_standard_fails_join(l: Ledger, head: int, cs: Seq<usize>, k: int)
    requires
        l.standards@.len() <= usize::MAX,
        0 <= k < cs.len(),
        cs[k] < l.certificates@.len(),
        forall|j: int|
            0 <= j < l.standards@.len() ==> !(live(#[trigger] l.standards@[j], head)
                && l.standards@[j].standard_id@ == l.certificates@[cs[k] as int].standard_id@),
    ensures
        cert_view(l, head, cs[k]) is None,
        cert_views(l, head, cs) is None,
{
    let id = l.certificates@[cs[k] as int].standard_id@;
    let m = indices_where(l.standards@, keyed_pred::<Standard>(id, head));
    lemma_indices_where(l.standards@, keyed_pred::<Standard>(id, head));
    if m.len() > 0 {
        assert(keyed_pred::<Standard>(id, head)(l.standards@[m[0] as int]));
    }
    assert(cs.take(k + 1).drop_last() =~= cs.take(k));
    assert(cs.take(k + 1).last() == cs[k]);
    lemma_cert_views_prefix_none(l, head, cs, k + 1);
}

/// Looks up a partner that must exist at `head`.
pub fn require<T: Versioned>(rows: &Vec<T>, key: &String, head: i64) -> (r: Result<usize, ApiError>)
    ensures
        required(lookup(rows@, key@, head as int)) matches Some(p) ==> r == Ok::<usize, ApiError>(p),
        required(lookup(rows@, key@, head as int)) is None ==> (r matches Err(e) && e.is_internal()),
{
    match get(rows, key, head) {
        Ok(Some(p)) => Ok(p),
        Ok(None) => Err(ApiError::InternalError(message_of("a required row is missing at the resolved head"))),
        Err(e) => Err(e),
    }
}

/// Joins certificate `c` at `head`.
pub fn expand_certificate(l: &Ledger, head: i64, c: usize) -> (r: Result<CertificateView, ApiError>)
    requires
        c < l.certificates@.len(),
    ensures
        cert_view(*l, head as int, c) matches Some(v) ==> r == Ok::<CertificateView, ApiError>(v),
        cert_view(*l, head as int, c) is None ==> (r matches Err(e) && e.is_internal()),
{
    let cert = &l.certificates[c];
    let factory = require(&l.organizations, &cert.factory_id, head)?;
    let standard = require(&l.standards, &cert.standard_id, head)?;
    let certifying_body = require(&l.organizations, &cert.certifying_body_id, head)?;
    let assertion = assertion_about(&l.assertions, &cert.certificate_id, head)?;
    Ok(CertificateView { certificate: c, factory, standard, certifying_body, assertion })
}

/// Joins the certificates at positions `cs` at `head`, failing on the first
/// one that cannot be.
pub fn expand_certificates(l: &Ledger, head: i64, cs: &Vec<usize>) -> (r: Result<Vec<CertificateView>, ApiError>)
    requires
        forall|k: int| 0 <= k < cs@.len() ==> (#[trigger] cs@[k]) < l.certificates@.len(),
    ensures
        cert_views(*l, head as int, cs@) matches Some(v) ==> (r matches Ok(out) && out@ == v),
        cert_views(*l, head as int, cs@) is None ==> (r matches Err(e) && e.is_internal()),
{
    let mut out: Vec<CertificateView> = Vec::new();
    let mut i: usize = 0;
    while i < cs.len()
        invariant
            i <= cs@.len(),
            forall|k: int| 0 <= k < cs@.len() ==> (#[trigger] cs@[k]) < l.certificates@.len(),
            cert_views(*l, head as int, cs@.take(i as int)) == Some(out@),
        decreases cs@.len() - i,
    {
        proof {
            assert(cs@.take(i as int + 1).drop_last() =~= cs@.take(i as int));
        }
        match expand_certificate(l, head, cs[i]) {
            Ok(v) => {
                out.push(v);
            },
            Err(e) => {
                proof {
                    lemma_cert_views_prefix_none(*l, head as int, cs@, i as int + 1);
                }
                return Err(e);
            },
        }
        i = i + 1;
    }
    proof {
        assert(cs@.take(cs@.len() as int) =~= cs@);
    }
    Ok(out)
}

/// An organization joined at one head with what it owns: its contacts and
/// authorizations; for a factory also its address and the assertion made
/// about it; and, when expanded, the certificates it holds. Each field is a
/// position in the corresponding table of the ledger.
pub struct OrganizationView {
    pub organization: usize,
    pub contacts: Vec<usize>,
    pub authorizations: Vec<usize>,
    pub address: Option<usize>,
    pub assertion: Option<usize>,
    pub certificates: Option<Vec<CertificateView>>,
}

/// Whether organization row `p` is a factory.
pub open spec fn is_factory(l: Ledger, p: usize) -> bool {
    l.organizations@[p as int].organization_type == OrganizationType::Factory
}

/// The certificates visible at `head` held by organization row `p`.
pub open spec fn held_certificates(l: Ledger, head: int, p: usize) -> Seq<usize> {
    indices_where(l.certificates@, owned_pred::<Certificate>(l.organizations@[p as int].organization_id@, head))
}

/// Whether joining organization row `p` at `head` breaks the integrity of
/// the tables: two visible versions of its address or of its assertion, or,
/// when expanded, a certificate that cannot be joined.
pub open spec fn join_fails(l: Ledger, head: int, p: usize, expand: bool) -> bool {
    let k = l.organizations@[p as int].organization_id@;
    ||| is_factory(l, p) && lookup_owned(l.addresses@, k, head) is Err
    ||| is_factory(l, p) && lookup_about(l.assertions@, k, head) is Err
    ||| expand && cert_views(l, head, held_certificates(l, head, p)) is None
}

/// Whether `v` is organization row `p` joined at `head`.
pub open spec fn is_joined(l: Ledger, head: int, p: usize, expand: bool, v: OrganizationView) -> bool {
    let k = l.organizations@[p as int].organization_id@;
    &&& v.organization == p
    &&& v.contacts@ == indices_where(l.contacts@, owned_pred::<Contact>(k, head))
    &&& v.authorizations@ == indices_where(l.authorizations@, owned_pred::<Authorization>(k, head))
    &&& if is_factory(l, p) {
        &&& lookup_owned(l.addresses@, k, head) == Ok::<Option<usize>, ()>(v.address)
        &&& lookup_about(l.assertions@, k, head) == Ok::<Option<usize>, ()>(v.assertion)
    } else {
        v.address is None && v.assertion is None
    }
    &&& if expand {
        v.certificates matches Some(cs) && cert_views(l, head, held_certificates(l, head, p)) == Some(cs@)
    } else {
        v.certificates is None
    }
}

/// Assembles organization row `p` at `head` from the positions of the rows
/// that belong to it, gathered beforehand: its contacts, authorizations,
/// addresses, the assertions about it and the certificates it holds (the
/// last read only when expanded).
pub fn assemble_organization(
    l: &Ledger,
    head: i64,
    p: usize,
    expand: bool,
    contacts: Vec<usize>,
    authorizations: Vec<usize>,
    addresses: &Vec<usize>,
    assertions: &Vec<usize>,
    certificates: &Vec<usize>,
) -> (r: Result<OrganizationView, ApiError>)
    requires
        p < l.organizations@.len(),
        ({
            let k = l.organizations@[p as int].organization_id@;
            &&& contacts@ == indices_where(l.contacts@, owned_pred::<Contact>(k, head as int))
            &&& authorizations@ == indices_where(l.authorizations@, owned_pred::<Authorization>(k, head as int))
            &&& addresses@ == indices_where(l.addresses@, owned_pred::<Address>(k, head as int))
            &&& assertions@ == indices_where(l.assertions@, owned_pred::<Assertion>(k, head as int))
            &&& expand ==> certificates@ == indices_where(l.certificates@, owned_pred::<Certificate>(k, head as int))
        }),
    ensures
        join_fails(*l, head as int, p, expand) <==> r is Err,
        r matches Err(e) ==> e.is_internal(),
        r matches Ok(v) ==> is_joined(*l, head as int, p, expand, v),
{
    let mut address: Option<usize> = None;
    let mut assertion: Option<usize> = None;
    if l.organizations[p].organization_type == OrganizationType::Factory {
        address = unique(addresses)?;
        assertion = unique(assertions)?;
    }
    let mut certs: Option<Vec<CertificateView>> = None;
    if expand {
        let k = Ghost(l.organizations@[p as int].organization_id@);
        proof {
            assert(l.certificates@.len() == l.certificates.len());
            lemma_indices_where(l.certificates@, owned_pred::<Certificate>(k@, head as int));
        }
        certs = Some(expand_certificates(l, head, certificates)?);
    }
    Ok(OrganizationView { organization: p, contacts, authorizations, address, assertion, certificates: certs })
}

/// Joins organization row `p` at `head`: every dependent collection is
/// re-filtered to the same head; an absent address or assertion stays
/// absent, while a certificate whose partners are missing is an internal
/// error.
pub fn join_organization(l: &Ledger, head: i64, p: usize, expand: bool) -> (r: Result<OrganizationView, ApiError>)
    requires
        p < l.organizations@.len(),
    ensures
        join_fails(*l, head as int, p, expand) <==> r is Err,
        r matches Err(e) ==> e.is_internal(),
        r matches Ok(v) ==> is_joined(*l, head as int, p, expand, v),
{
    let key = &l.organizations[p].organization_id;
    let contacts = owned_rows(&l.contacts, key, head);
    let authorizations = owned_rows(&l.authorizations, key, head);
    let addresses = owned_rows(&l.addresses, key, head);
    let assertions = owned_rows(&l.assertions, key, head);
    let certificates = if expand {
        owned_rows(&l.certificates, key, head)
    } else {
        Vec::new()
    };
    assemble_organization(l, head, p, expand, contacts, authorizations, &addresses, &assertions, &certificates)
}

} // verus!
