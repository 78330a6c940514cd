use consensource_api::assertions::{
    fetch_assertions, fetch_assertions_with_params, list_assertions, list_assertions_with_params, AssertionParams,
};
use consensource_api::certificates::{
    fetch_certificate, fetch_certificate_with_head_param, list_certificates, list_certificates_with_params,
    CertificateParams,
};
use consensource_api::error::ApiError;
use consensource_api::factories::{
    fetch_factory, fetch_factory_with_head_param, list_factories, list_factories_params, FactoryParams, FuzzyFilter,
};
use consensource_api::head::{Block, OPEN_END};
use consensource_api::organizations::{
    fetch_organization, fetch_organization_with_params, list_organizations, list_organizations_with_params,
    OrganizationParams,
};
use consensource_api::planner::Ledger;
use consensource_api::records::{
    Address, Assertion, AssertionType, Authorization, Certificate, Contact, Organization, OrganizationType, Role,
    Standard, StandardVersion,
};
use consensource_api::search::{full_text_matching_keys, fuzzy_matching_keys, TextSearch};
use consensource_api::standards::{
    list_standards, list_standards_belonging_to_org, list_standards_with_params, StandardBodyParams, StandardParams,
};
use consensource_api::store::{check_versions, get, group_by_owner, live_rows, owned_rows};

fn s(x: &str) -> String {
    x.to_string()
}

fn empty_ledger() -> Ledger {
    Ledger {
        blocks: vec![Block { block_num: 1, block_id: s("123") }],
        organizations: Vec::new(),
        addresses: Vec::new(),
        contacts: Vec::new(),
        authorizations: Vec::new(),
        certificates: Vec::new(),
        standards: Vec::new(),
        standard_versions: Vec::new(),
        assertions: Vec::new(),
    }
}

fn org(id: &str, name: &str, t: OrganizationType, start: i64, end: i64) -> Organization {
    Organization {
        organization_id: s(id),
        name: s(name),
        organization_type: t,
        start_block_num: start,
        end_block_num: end,
    }
}

fn address(owner: &str, city: &str) -> Address {
    Address {
        organization_id: s(owner),
        street_line_1: format!("{}_street_line_1", owner),
        street_line_2: None,
        city: s(city),
        state_province: Some(format!("{}_province", owner)),
        country: format!("{}_country", owner),
        postal_code: Some(format!("{}_code", owner)),
        start_block_num: 1,
        end_block_num: OPEN_END,
    }
}

fn contact(owner: &str) -> Contact {
    Contact {
        organization_id: s(owner),
        name: format!("{}_contact", owner),
        phone_number: format!("{}_phone", owner),
        language_code: s("en"),
        start_block_num: 1,
        end_block_num: OPEN_END,
    }
}

fn authorization(owner: &str) -> Authorization {
    Authorization {
        organization_id: s(owner),
        public_key: format!("{}_key", owner),
        role: Role::Admin,
        start_block_num: 1,
        end_block_num: OPEN_END,
    }
}

fn standard(id: &str, body: &str, name: &str, start: i64, end: i64) -> Standard {
    Standard { standard_id: s(id), organization_id: s(body), name: s(name), start_block_num: start, end_block_num: end }
}

fn certificate(id: &str, factory: &str, standard: &str, body: &str) -> Certificate {
    Certificate {
        certificate_id: s(id),
        certifying_body_id: s(body),
        factory_id: s(factory),
        standard_id: s(standard),
        standard_version: s("test_standard_version"),
        valid_from: 1,
        valid_to: 2,
        start_block_num: 1,
        end_block_num: OPEN_END,
    }
}

fn assertion(id: &str, object: &str, t: AssertionType) -> Assertion {
    Assertion {
        assertion_id: s(id),
        address: s("some_state_address"),
        assertor_pub_key: s("test_key"),
        assertion_type: t,
        object_id: s(object),
        data_id: None,
        start_block_num: 1,
        end_block_num: OPEN_END,
    }
}

fn factory_params() -> FactoryParams {
    FactoryParams {
        name: None,
        search: None,
        city: None,
        state_province: None,
        country: None,
        postal_code: None,
        limit: None,
        offset: None,
        head: None,
        expand: None,
    }
}

/// Two factories, a certifying body, a standards body, one standard and one
/// certificate held by the first factory.
fn certified_ledger() -> Ledger {
    let mut l = empty_ledger();
    l.organizations.push(org("factory_b", "second factory", OrganizationType::Factory, 1, OPEN_END));
    l.organizations.push(org("factory_a", "test_factory_name", OrganizationType::Factory, 1, OPEN_END));
    l.organizations.push(org("cert_body", "test_cert_body_name", OrganizationType::CertifyingBody, 1, OPEN_END));
    l.organizations.push(org("std_body", "test_standards_body", OrganizationType::StandardsBody, 1, OPEN_END));
    l.addresses.push(address("factory_a", "springfield"));
    l.addresses.push(address("factory_b", "shelbyville"));
    l.contacts.push(contact("factory_a"));
    l.authorizations.push(authorization("factory_a"));
    l.standards.push(standard("std_1", "std_body", "test_standard_name", 1, OPEN_END));
    l.certificates.push(certificate("cert_1", "factory_a", "std_1", "cert_body"));
    l
}

#[test]
fn factory_visible_only_inside_its_interval() {
    let mut l = empty_ledger();
    l.organizations.push(org("f", "test_factory_name", OrganizationType::Factory, 1, 2));
    let at_one = fetch_factory_with_head_param(&l, &s("f"), Some(1), false).ok().unwrap();
    assert_eq!(at_one.data.organization, 0);
    assert_eq!(at_one.head, 1);
    assert_eq!(at_one.link, "/api/factories/f?head=1");
    let at_two = fetch_factory_with_head_param(&l, &s("f"), Some(2), false);
    assert!(matches!(at_two, Err(ApiError::NotFound(_))));

    let mut p = factory_params();
    p.head = Some(1);
    assert_eq!(list_factories_params(&l, &p).ok().unwrap().data.len(), 1);
    p.head = Some(2);
    let at_two = list_factories_params(&l, &p).ok().unwrap();
    assert_eq!(at_two.data.len(), 0);
    assert_eq!(at_two.paging.paging.total, 0);
}

#[test]
fn fetch_factory_joins_owned_rows() {
    let mut l = certified_ledger();
    l.assertions.push(assertion("assert_1", "factory_a", AssertionType::Factory));
    let f = fetch_factory_with_head_param(&l, &s("factory_a"), None, false).ok().unwrap();
    assert_eq!(f.head, 1);
    assert_eq!(f.data.organization, 1);
    assert_eq!(f.data.address, Some(0));
    assert_eq!(f.data.contacts, vec![0]);
    assert_eq!(f.data.authorizations, vec![0]);
    assert_eq!(f.data.assertion, Some(0));
    assert!(f.data.certificates.is_none());
    let b = fetch_factory_with_head_param(&l, &s("factory_b"), None, false).ok().unwrap();
    assert_eq!(b.data.address, Some(1));
    assert!(b.data.contacts.is_empty());
    assert_eq!(b.data.assertion, None);
}

#[test]
fn fetch_factory_expands_certificates() {
    let l = certified_ledger();
    let f = fetch_factory_with_head_param(&l, &s("factory_a"), None, true).ok().unwrap();
    let certs = f.data.certificates.unwrap();
    assert_eq!(certs.len(), 1);
    assert_eq!(certs[0].certificate, 0);
    assert_eq!(certs[0].factory, 1);
    assert_eq!(certs[0].standard, 0);
    assert_eq!(certs[0].certifying_body, 2);
    assert_eq!(certs[0].assertion, None);
}

#[test]
fn fetch_factory_of_non_factory_is_not_found() {
    let l = certified_ledger();
    let r = fetch_factory_with_head_param(&l, &s("cert_body"), None, false);
    assert!(matches!(r, Err(ApiError::NotFound(_))));
    let r = fetch_factory_with_head_param(&l, &s("nobody"), None, false);
    assert!(matches!(r, Err(ApiError::NotFound(_))));
}

#[test]
fn overlapping_versions_are_an_internal_error() {
    let mut l = empty_ledger();
    l.organizations.push(org("f", "one", OrganizationType::Factory, 1, 5));
    l.organizations.push(org("f", "two", OrganizationType::Factory, 3, 9));
    assert_eq!(get(&l.organizations, &s("f"), 2).ok(), Some(Some(0)));
    assert_eq!(get(&l.organizations, &s("f"), 7).ok(), Some(Some(1)));
    assert!(matches!(get(&l.organizations, &s("f"), 4), Err(ApiError::InternalError(_))));
    assert!(matches!(fetch_factory_with_head_param(&l, &s("f"), Some(4), false), Err(ApiError::InternalError(_))));
    assert_eq!(get(&l.organizations, &s("f"), 10).ok(), Some(None));
}

#[test]
fn open_rows_stay_visible_until_superseded() {
    let mut l = empty_ledger();
    l.organizations.push(org("a", "a", OrganizationType::Factory, 2, OPEN_END));
    l.organizations.push(org("b", "b", OrganizationType::Factory, 2, 6));
    assert_eq!(live_rows(&l.organizations, 3), vec![0, 1]);
    assert_eq!(live_rows(&l.organizations, 5), vec![0, 1]);
    assert_eq!(live_rows(&l.organizations, 6), vec![0]);
    assert_eq!(live_rows(&l.organizations, 1000), vec![0]);
    assert_eq!(live_rows(&l.organizations, 1), Vec::<usize>::new());
}

#[test]
fn list_factories_orders_by_id_and_pages() {
    let l = certified_ledger();
    let p = factory_params();
    let r = list_factories_params(&l, &p).ok().unwrap();
    assert_eq!(r.data.len(), 2);
    assert_eq!(r.data[0].organization, 1);
    assert_eq!(r.data[1].organization, 0);
    assert_eq!(r.paging.paging.total, 2);
    assert_eq!(r.paging.link, "/api/factories?head=1&limit=100&offset=0");

    let mut p = factory_params();
    p.limit = Some(1);
    p.offset = Some(1);
    p.expand = Some(false);
    let r = list_factories_params(&l, &p).ok().unwrap();
    assert_eq!(r.data.len(), 1);
    assert_eq!(r.data[0].organization, 0);
    assert_eq!(r.paging.paging.total, 2);
    assert_eq!(r.paging.link, "/api/factories?head=1&expand=false&limit=1&offset=1");
    assert_eq!(r.paging.paging.prev, "/api/factories?head=1&expand=false&limit=1&offset=0");
    assert_eq!(r.paging.paging.next, "/api/factories?head=1&expand=false&limit=1&offset=1");
}

#[test]
fn list_factories_by_name() {
    let l = certified_ledger();
    let mut p = factory_params();
    p.name = Some(s("test_factory_name"));
    let r = list_factories_params(&l, &p).ok().unwrap();
    assert_eq!(r.data.len(), 1);
    assert_eq!(r.data[0].organization, 1);
    assert_eq!(r.paging.link, "/api/factories?name=test_factory_name&head=1&limit=100&offset=0");
}

#[test]
fn fuzzy_city_filter_keeps_scores_at_or_above_threshold() {
    let l = certified_ledger();
    let mut p = factory_params();
    p.city = Some(FuzzyFilter { query: s("springfield_similar"), scores: vec![250, 0] });
    let r = list_factories_params(&l, &p).ok().unwrap();
    assert_eq!(r.data.len(), 1);
    assert_eq!(r.data[0].organization, 1);
    assert_eq!(r.paging.link, "/api/factories?city=springfield_similar&head=1&limit=100&offset=0");

    let mut p = factory_params();
    p.city = Some(FuzzyFilter { query: s("totally_different"), scores: vec![50, 0] });
    assert_eq!(list_factories_params(&l, &p).ok().unwrap().data.len(), 0);

    let at_threshold = fuzzy_matching_keys(&l.addresses, &vec![200, 199], 1);
    assert_eq!(at_threshold, vec![s("factory_a")]);
}

#[test]
fn fuzzy_filters_on_several_fields_are_unioned() {
    let l = certified_ledger();
    let mut p = factory_params();
    p.city = Some(FuzzyFilter { query: s("springfield"), scores: vec![900, 0] });
    p.country = Some(FuzzyFilter { query: s("factory_b_country"), scores: vec![0, 1000] });
    let r = list_factories_params(&l, &p).ok().unwrap();
    assert_eq!(r.data.len(), 2);
}

#[test]
fn fuzzy_match_ignores_rows_not_visible_at_head() {
    let mut addresses = vec![address("x", "springfield")];
    addresses[0].start_block_num = 5;
    assert!(fuzzy_matching_keys(&addresses, &vec![1000], 4).is_empty());
    assert_eq!(fuzzy_matching_keys(&addresses, &vec![1000], 5), vec![s("x")]);
}

#[test]
fn full_text_search_unions_name_standard_and_address_matches() {
    let l = certified_ledger();
    let by_standard = TextSearch {
        query: s("test_standard_name"),
        organization_names: vec![false; 4],
        standard_names: vec![true],
        addresses: vec![false, false],
    };
    assert_eq!(
        full_text_matching_keys(&l.organizations, &l.addresses, &l.certificates, &l.standards, &by_standard, 1),
        vec![s("factory_a")]
    );
    let by_address = TextSearch {
        query: s("shelbyville"),
        organization_names: vec![false; 4],
        standard_names: vec![false],
        addresses: vec![false, true],
    };
    let mut p = factory_params();
    p.search = Some(by_address);
    let r = list_factories_params(&l, &p).ok().unwrap();
    assert_eq!(r.data.len(), 1);
    assert_eq!(r.data[0].organization, 0);
    let by_name = TextSearch {
        query: s("second"),
        organization_names: vec![true, false, false, false],
        standard_names: vec![false],
        addresses: vec![false, false],
    };
    let mut p = factory_params();
    p.search = Some(by_name);
    assert_eq!(list_factories_params(&l, &p).ok().unwrap().data[0].organization, 0);
}

#[test]
fn certificate_with_superseded_standard_is_an_internal_error() {
    let mut l = certified_ledger();
    l.blocks.push(Block { block_num: 5, block_id: s("456") });
    l.standards[0].end_block_num = 3;
    assert!(matches!(fetch_certificate_with_head_param(&l, &s("cert_1"), Some(4)), Err(ApiError::InternalError(_))));
    let p = CertificateParams { certifying_body_id: None, factory_id: None, limit: None, offset: None, head: Some(4) };
    assert!(matches!(list_certificates_with_params(&l, &p), Err(ApiError::InternalError(_))));
    assert!(matches!(fetch_factory_with_head_param(&l, &s("factory_a"), Some(4), true), Err(ApiError::InternalError(_))));
    assert!(fetch_factory_with_head_param(&l, &s("factory_a"), Some(4), false).is_ok());
    assert!(fetch_certificate_with_head_param(&l, &s("cert_1"), Some(2)).is_ok());
}

#[test]
fn certificate_without_certifying_body_is_an_internal_error() {
    let mut l = certified_ledger();
    l.organizations[2].end_block_num = 1;
    assert!(matches!(fetch_certificate_with_head_param(&l, &s("cert_1"), Some(1)), Err(ApiError::InternalError(_))));
}

#[test]
fn fetch_certificate_joins_partners() {
    let mut l = certified_ledger();
    l.assertions.push(assertion("assert_c", "cert_1", AssertionType::Certificate));
    let c = fetch_certificate_with_head_param(&l, &s("cert_1"), Some(1)).ok().unwrap();
    assert_eq!(c.data.certificate, 0);
    assert_eq!(c.data.factory, 1);
    assert_eq!(c.data.standard, 0);
    assert_eq!(c.data.certifying_body, 2);
    assert_eq!(c.data.assertion, Some(0));
    assert_eq!(c.link, "/api/certificates/cert_1?head=1");
    assert!(matches!(fetch_certificate_with_head_param(&l, &s("missing"), Some(1)), Err(ApiError::NotFound(_))));
}

#[test]
fn list_certificates_filters_and_links() {
    let mut l = certified_ledger();
    l.certificates.push(certificate("cert_0", "factory_b", "std_1", "cert_body"));
    let p = CertificateParams { certifying_body_id: None, factory_id: None, limit: None, offset: None, head: None };
    let r = list_certificates_with_params(&l, &p).ok().unwrap();
    assert_eq!(r.data.len(), 2);
    assert_eq!(r.data[0].certificate, 1);
    assert_eq!(r.data[1].certificate, 0);
    assert_eq!(r.paging.link, "/api/certificates?head=1&limit=100&offset=0");
    let p = CertificateParams {
        certifying_body_id: Some(s("cert_body")),
        factory_id: Some(s("factory_a")),
        limit: None,
        offset: None,
        head: None,
    };
    let r = list_certificates_with_params(&l, &p).ok().unwrap();
    assert_eq!(r.data.len(), 1);
    assert_eq!(r.data[0].factory, 1);
    assert_eq!(
        r.paging.link,
        "/api/certificates?certifying_body_id=cert_body&factory_id=factory_a&head=1&limit=100&offset=0"
    );
}

#[test]
fn assertions_list_and_fetch() {
    let mut l = empty_ledger();
    let mut a = assertion("test_assertion_id", "test_object_id", AssertionType::Factory);
    a.end_block_num = 2;
    l.assertions.push(a);
    let r = list_assertions_with_params(&l, &AssertionParams { limit: Some(100), offset: Some(0), head: None }).ok().unwrap();
    assert_eq!(r.data, vec![0]);
    assert_eq!(r.head, 1);
    let expected = "/api/assertions?head=1&limit=100&offset=0";
    assert_eq!(r.paging.link, expected);
    assert_eq!(r.paging.paging.first, expected);
    assert_eq!(r.paging.paging.last, expected);
    assert_eq!(r.paging.paging.next, expected);
    assert_eq!(r.paging.paging.prev, expected);
    assert_eq!(r.paging.paging.total, 1);
    let f = fetch_assertions_with_params(&l, &s("test_assertion_id"), None).ok().unwrap();
    assert_eq!(f.data, 0);
    assert_eq!(f.link, "/api/assertions/test_assertion_id?head=1");
    assert!(matches!(fetch_assertions_with_params(&l, &s("0"), None), Err(ApiError::NotFound(_))));
}

#[test]
fn empty_tables_give_empty_listings() {
    let l = empty_ledger();
    let r = list_assertions_with_params(&l, &AssertionParams { limit: None, offset: None, head: None }).ok().unwrap();
    assert!(r.data.is_empty());
    assert_eq!(r.paging.paging.total, 0);
    let r = list_factories_params(&l, &factory_params()).ok().unwrap();
    assert!(r.data.is_empty());
    let p = OrganizationParams { name: None, organization_type: None, limit: None, offset: None, head: None };
    assert!(list_organizations_with_params(&l, &p).ok().unwrap().data.is_empty());
    assert!(matches!(fetch_organization_with_params(&l, &s("0"), None), Err(ApiError::NotFound(_))));
}

#[test]
fn organizations_list_orders_filters_and_joins() {
    let l = certified_ledger();
    let p = OrganizationParams { name: None, organization_type: None, limit: None, offset: None, head: None };
    let r = list_organizations_with_params(&l, &p).ok().unwrap();
    let order: Vec<usize> = r.data.iter().map(|v| v.organization).collect();
    assert_eq!(order, vec![2, 1, 0, 3]);
    assert_eq!(r.data[1].contacts, vec![0]);
    assert_eq!(r.data[1].address, Some(0));
    assert_eq!(r.data[0].address, None);
    assert_eq!(r.paging.link, "/api/organizations?head=1&limit=100&offset=0");

    let p = OrganizationParams { name: None, organization_type: Some(1), limit: None, offset: None, head: None };
    let r = list_organizations_with_params(&l, &p).ok().unwrap();
    assert_eq!(r.data.len(), 1);
    assert_eq!(r.data[0].organization, 2);
    assert_eq!(r.paging.link, "/api/organizations?organization_type=1&head=1&limit=100&offset=0");
    let p = OrganizationParams { name: None, organization_type: Some(7), limit: None, offset: None, head: None };
    assert_eq!(list_organizations_with_params(&l, &p).ok().unwrap().data[0].organization, 3);
}

#[test]
fn fetch_organization_of_any_type() {
    let l = certified_ledger();
    let f = fetch_organization_with_params(&l, &s("cert_body"), None).ok().unwrap();
    assert_eq!(f.data.organization, 2);
    assert_eq!(f.link, "/api/organizations/cert_body?head=1");
    let f = fetch_organization_with_params(&l, &s("factory_a"), Some(1)).ok().unwrap();
    assert_eq!(f.data.address, Some(0));
    assert_eq!(f.data.authorizations, vec![0]);
}

#[test]
fn repeated_listing_is_identical() {
    let l = certified_ledger();
    let mut p = factory_params();
    p.head = Some(1);
    p.expand = Some(true);
    let a = list_factories_params(&l, &p).ok().unwrap();
    let b = list_factories_params(&l, &p).ok().unwrap();
    assert_eq!(a.paging.paging.total, b.paging.paging.total);
    assert_eq!(a.data.len(), b.data.len());
    for i in 0..a.data.len() {
        assert_eq!(a.data[i].organization, b.data[i].organization);
        assert_eq!(a.data[i].contacts, b.data[i].contacts);
        assert_eq!(a.data[i].certificates, b.data[i].certificates);
    }
}

#[test]
fn standards_listing_with_filters_and_assertions() {
    let mut l = certified_ledger();
    l.standards.push(standard("std_0", "other_body", "first_standard", 1, OPEN_END));
    l.assertions.push(assertion("a_std", "std_1", AssertionType::Standard));
    let p = StandardParams { name: None, organization_id: None, standard_id: None, head: None };
    let r = list_standards_with_params(&l, &p).ok().unwrap();
    assert_eq!(r.len(), 2);
    assert_eq!(r[0].standard, 1);
    assert_eq!(r[1].standard, 0);
    assert_eq!(r[1].assertion, Some(0));
    assert!(r[0].versions.is_none());
    let p = StandardParams { name: Some(s("first_standard")), organization_id: None, standard_id: None, head: None };
    let r = list_standards_with_params(&l, &p).ok().unwrap();
    assert_eq!(r.len(), 1);
    assert_eq!(r[0].standard, 1);
}

#[test]
fn standards_of_a_body_carry_versions_by_approval_date() {
    let mut l = certified_ledger();
    let version = |v: &str, date: i64| StandardVersion {
        standard_id: s("std_1"),
        version: s(v),
        link: s("test_link"),
        description: s("test_description"),
        approval_date: date,
        start_block_num: 1,
        end_block_num: OPEN_END,
    };
    l.standard_versions.push(version("v2", 20));
    l.standard_versions.push(version("v1", 10));
    l.standard_versions.push(version("v3", 20));
    let p = StandardBodyParams { organization_id: s("std_body"), limit: None, offset: None, head: None };
    let r = list_standards_belonging_to_org(&l, &p).ok().unwrap();
    assert_eq!(r.data.len(), 1);
    assert_eq!(r.data[0].versions, Some(vec![1, 0, 2]));
    assert_eq!(r.paging.link, "/api/standards_body/standards?organization_id=std_body&head=1&limit=100&offset=0");
}

#[test]
fn test_invalid_assertions_fetch_endpoint() {
    let l = empty_ledger();
    assert!(matches!(fetch_assertions(&l, &s("0")), Err(ApiError::NotFound(_))));
}

#[test]
fn test_invalid_certificates_list_endpoint() {
    let l = empty_ledger();
    assert!(matches!(fetch_certificate(&l, &s("0")), Err(ApiError::NotFound(_))));
}

#[test]
fn test_empty_certificates_list_endpoint() {
    let l = empty_ledger();
    assert!(list_certificates(&l).ok().unwrap().data.is_empty());
}

#[test]
fn test_invalid_organization_factories_list_endpoint() {
    let l = empty_ledger();
    assert!(matches!(fetch_factory(&l, &s("0")), Err(ApiError::NotFound(_))));
}

#[test]
fn test_empty_factories_list_endpoint() {
    let l = empty_ledger();
    assert!(list_factories(&l).ok().unwrap().data.is_empty());
}

#[test]
fn test_invalid_organizations_list_endpoint() {
    let l = empty_ledger();
    assert!(matches!(fetch_organization(&l, &s("0")), Err(ApiError::NotFound(_))));
}

#[test]
fn test_empty_organizations_list_endpoint() {
    let l = empty_ledger();
    assert!(list_organizations(&l).ok().unwrap().data.is_empty());
}

#[test]
fn test_empty_standards_list_endpoint() {
    let l = empty_ledger();
    assert!(list_standards(&l).ok().unwrap().is_empty());
}

#[test]
fn test_empty_standards_body_list_endpoint() {
    let l = empty_ledger();
    let p = StandardBodyParams { organization_id: s("nobody"), limit: None, offset: None, head: None };
    assert!(list_standards_belonging_to_org(&l, &p).ok().unwrap().data.is_empty());
}

#[test]
fn test_empty_assertions_list_endpoint() {
    let l = empty_ledger();
    assert!(list_assertions(&l).ok().unwrap().data.is_empty());
}

#[test]
fn filter_values_are_encoded_in_links() {
    let l = certified_ledger();
    let mut p = factory_params();
    p.name = Some(s("second factory"));
    let r = list_factories_params(&l, &p).ok().unwrap();
    assert_eq!(r.data.len(), 1);
    assert_eq!(r.paging.link, "/api/factories?name=second%20factory&head=1&limit=100&offset=0");
}

#[test]
fn check_versions_finds_overlaps_and_empty_intervals() {
    let mut rows = vec![
        org("a", "one", OrganizationType::Factory, 1, 5),
        org("a", "two", OrganizationType::Factory, 5, OPEN_END),
        org("b", "three", OrganizationType::Factory, 2, 3),
    ];
    assert!(check_versions(&rows));
    rows.push(org("a", "four", OrganizationType::Factory, 4, 6));
    assert!(!check_versions(&rows));
    let empty_interval = vec![org("c", "c", OrganizationType::Factory, 3, 3)];
    assert!(!check_versions(&empty_interval));
    assert!(check_versions(&Vec::<Organization>::new()));
}

#[test]
fn offset_past_the_end_gives_an_empty_page() {
    let l = certified_ledger();
    let mut p = factory_params();
    p.offset = Some(i64::MAX);
    let r = list_factories_params(&l, &p).ok().unwrap();
    assert!(r.data.is_empty());
    assert_eq!(r.paging.paging.total, 2);
    assert_eq!(r.paging.paging.next, "/api/factories?head=1&limit=100&offset=0");
}

#[test]
fn dependents_fan_out_to_their_owners_in_one_pass() {
    let mut contacts = vec![contact("a"), contact("b"), contact("a"), contact("c")];
    contacts[2].end_block_num = 3;
    let owners = vec![s("a"), s("b"), s("z"), s("a")];
    let groups = group_by_owner(&contacts, &owners, 1);
    assert_eq!(groups, vec![vec![0, 2], vec![1], vec![], vec![0, 2]]);
    let groups = group_by_owner(&contacts, &owners, 3);
    assert_eq!(groups, vec![vec![0], vec![1], vec![], vec![0]]);
    assert_eq!(owned_rows(&contacts, &s("a"), 3), vec![0]);
    assert_eq!(owned_rows(&contacts, &s("c"), 0), Vec::<usize>::new());
}

#[test]
fn open_factory_stays_listed_at_later_heads_until_superseded() {
    let mut l = certified_ledger();
    l.organizations[0].end_block_num = 5;
    let mut p = factory_params();
    p.head = Some(4);
    let at_four: Vec<usize> = list_factories_params(&l, &p).ok().unwrap().data.iter().map(|v| v.organization).collect();
    assert_eq!(at_four, vec![1, 0]);
    p.head = Some(5);
    let r = list_factories_params(&l, &p).ok().unwrap();
    let at_five: Vec<usize> = r.data.iter().map(|v| v.organization).collect();
    assert_eq!(at_five, vec![1]);
    assert_eq!(r.paging.paging.total, 1);
}

#[test]
fn listing_with_explicit_head_ignores_later_ingestion() {
    let l1 = certified_ledger();
    let mut l2 = certified_ledger();
    l2.organizations[0].end_block_num = 7;
    l2.organizations.push(org("factory_0", "later factory", OrganizationType::Factory, 3, OPEN_END));
    l2.contacts.push(Contact { start_block_num: 4, ..contact("factory_a") });
    l2.certificates.push(Certificate { start_block_num: 2, ..certificate("cert_2", "factory_a", "std_1", "cert_body") });
    let mut p = factory_params();
    p.head = Some(1);
    p.expand = Some(true);
    let a = list_factories_params(&l1, &p).ok().unwrap();
    let b = list_factories_params(&l2, &p).ok().unwrap();
    assert_eq!(a.paging.paging.total, b.paging.paging.total);
    assert_eq!(a.paging.link, b.paging.link);
    assert_eq!(a.data.len(), b.data.len());
    for i in 0..a.data.len() {
        assert_eq!(a.data[i].organization, b.data[i].organization);
        assert_eq!(a.data[i].contacts, b.data[i].contacts);
        assert_eq!(a.data[i].certificates, b.data[i].certificates);
    }
    let p = CertificateParams { certifying_body_id: None, factory_id: None, limit: None, offset: None, head: Some(1) };
    assert_eq!(
        list_certificates_with_params(&l1, &p).ok().unwrap().data,
        list_certificates_with_params(&l2, &p).ok().unwrap().data
    );
    let ap = AssertionParams { limit: None, offset: None, head: Some(1) };
    let mut l3 = certified_ledger();
    l3.assertions.push(assertion("later", "factory_a", AssertionType::Factory));
    l3.assertions[0].start_block_num = 2;
    assert_eq!(
        list_assertions_with_params(&l1, &ap).ok().unwrap().data,
        list_assertions_with_params(&l3, &ap).ok().unwrap().data
    );
}
