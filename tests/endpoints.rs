use consensource_api::assertions::{fetch_assertions, list_assertions};
use consensource_api::certificates::{fetch_certificate, list_certificates};
use consensource_api::factories::{fetch_factory, list_factories, list_factories_params, FactoryParams, FuzzyFilter};
use consensource_api::head::{Block, OPEN_END};
use consensource_api::listing::Listed;
use consensource_api::organizations::{fetch_organization, list_organizations};
use consensource_api::planner::{CertificateView, Ledger, OrganizationView};
use consensource_api::records::{
    Address, Assertion, AssertionType, Authorization, Certificate, Contact, Organization, OrganizationType, Role,
    Standard, StandardVersion,
};
use consensource_api::search::TextSearch;
use consensource_api::standards::{
    list_standards_belonging_to_org, list_standards_with_params, StandardBodyParams, StandardParams,
};

const FACTORY_NAME_BASE: &str = "test_factory";
const FACTORY_NAME_ASSERTION_BASE: &str = "test_factory_assertion";
const STD_NAME_BASE: &str = "test_std";
const ASSERTION_NAME_BASE: &str = "test_assertion";

fn genesis_ledger() -> Ledger {
    Ledger {
        blocks: vec![Block { block_num: 1, block_id: "123".to_string() }],
        organizations: Vec::new(),
        addresses: Vec::new(),
        contacts: Vec::new(),
        authorizations: Vec::new(),
        certificates: Vec::new(),
        standards: Vec::new(),
        standard_versions: Vec::new(),
        assertions: Vec::new(),
    }
}

fn factory_params_base() -> FactoryParams {
    FactoryParams {
        name: None,
        search: None,
        city: None,
        state_province: None,
        country: None,
        postal_code: None,
        limit: Some(100),
        offset: Some(0),
        head: Some(1),
        expand: None,
    }
}

fn create_test_factory(l: &mut Ledger, factory_name: &str) {
    l.organizations.push(Organization {
        start_block_num: 1,
        end_block_num: OPEN_END,
        organization_id: format!("{}_id", factory_name),
        name: format!("{}_name", factory_name),
        organization_type: OrganizationType::Factory,
    });
    l.authorizations.push(Authorization {
        start_block_num: 1,
        end_block_num: OPEN_END,
        organization_id: format!("{}_id", factory_name),
        public_key: format!("{}_key", factory_name),
        role: Role::Admin,
    });
    l.addresses.push(Address {
        start_block_num: 1,
        end_block_num: OPEN_END,
        organization_id: format!("{}_id", factory_name),
        street_line_1: format!("{}_street_line_1", factory_name),
        street_line_2: None,
        city: format!("{}_city", factory_name),
        state_province: Some(format!("{}_province", factory_name)),
        country: format!("{}_country", factory_name),
        postal_code: Some(format!("{}_code", factory_name)),
    });
    l.contacts.push(Contact {
        start_block_num: 1,
        end_block_num: OPEN_END,
        organization_id: format!("{}_id", factory_name),
        name: format!("{}_contact", factory_name),
        phone_number: format!("{}_phone", factory_name),
        language_code: "en".to_string(),
    });
}

fn create_test_std_and_cert(l: &mut Ledger, std_name: &str) {
    l.organizations.push(Organization {
        start_block_num: 1,
        end_block_num: OPEN_END,
        organization_id: "test_certifying_body_id".to_string(),
        name: "test_certifying_body_name".to_string(),
        organization_type: OrganizationType::CertifyingBody,
    });
    l.standards.push(Standard {
        start_block_num: 1,
        end_block_num: OPEN_END,
        standard_id: "test_standard_id".to_string(),
        organization_id: "test_standards_body_id".to_string(),
        name: format!("{}_name", std_name),
    });
    l.certificates.push(Certificate {
        start_block_num: 1,
        end_block_num: OPEN_END,
        certificate_id: "test_cert_id".to_string(),
        certifying_body_id: "test_certifying_body_id".to_string(),
        factory_id: "test_factory_id".to_string(),
        standard_id: "test_standard_id".to_string(),
        standard_version: "test_standard_version".to_string(),
        valid_from: 1,
        valid_to: 2,
    });
}

fn create_test_factory_with_assertion(l: &mut Ledger, factory_name: &str, assertion_name: &str) {
    create_test_factory(l, factory_name);
    l.assertions.push(Assertion {
        start_block_num: 1,
        end_block_num: OPEN_END,
        assertion_id: format!("{}_id", assertion_name),
        address: "some_state_address".to_string(),
        assertor_pub_key: format!("{}_key", assertion_name),
        assertion_type: AssertionType::Factory,
        object_id: format!("{}_id", factory_name),
        data_id: None,
    });
}

fn setup_factory_db(include_assertion: bool) -> Ledger {
    let mut l = genesis_ledger();
    create_test_factory(&mut l, FACTORY_NAME_BASE);
    create_test_std_and_cert(&mut l, STD_NAME_BASE);
    if include_assertion {
        create_test_factory_with_assertion(&mut l, FACTORY_NAME_ASSERTION_BASE, ASSERTION_NAME_BASE);
    }
    l
}

/// Asserts that `v` is the factory built by `create_test_factory(base)`.
fn assert_test_factory(l: &Ledger, v: &OrganizationView, base: &str) {
    let o = &l.organizations[v.organization];
    assert_eq!(o.organization_id, format!("{}_id", base));
    assert_eq!(o.name, format!("{}_name", base));
    assert_eq!(o.organization_type, OrganizationType::Factory);
    assert_eq!(v.contacts.len(), 1);
    let c = &l.contacts[v.contacts[0]];
    assert_eq!(c.name, format!("{}_contact", base));
    assert_eq!(c.language_code, "en");
    assert_eq!(c.phone_number, format!("{}_phone", base));
    assert_eq!(v.authorizations.len(), 1);
    let a = &l.authorizations[v.authorizations[0]];
    assert_eq!(a.public_key, format!("{}_key", base));
    assert_eq!(a.role, Role::Admin);
    let addr = &l.addresses[v.address.unwrap()];
    assert_eq!(addr.street_line_1, format!("{}_street_line_1", base));
    assert_eq!(addr.street_line_2, None);
    assert_eq!(addr.city, format!("{}_city", base));
    assert_eq!(addr.state_province, Some(format!("{}_province", base)));
    assert_eq!(addr.country, format!("{}_country", base));
    assert_eq!(addr.postal_code, Some(format!("{}_code", base)));
    assert!(v.certificates.is_none());
}

/// Asserts that every link of a listing is `link`, with the given total.
fn assert_single_page<T>(r: &Listed<T>, link: &str, total: i64) {
    assert_eq!(r.head, 1);
    assert_eq!(r.paging.link, link);
    assert_eq!(r.paging.paging.first, link);
    assert_eq!(r.paging.paging.last, link);
    assert_eq!(r.paging.paging.next, link);
    assert_eq!(r.paging.paging.prev, link);
    assert_eq!(r.paging.paging.limit, 100);
    assert_eq!(r.paging.paging.offset, 0);
    assert_eq!(r.paging.paging.total, total);
}

fn num_factories(l: &Ledger, p: &FactoryParams) -> usize {
    list_factories_params(l, p).ok().unwrap().data.len()
}

#[test]
fn test_factory_fetch_valid_id_success() {
    let l = setup_factory_db(true);
    let org_id = format!("{}_id", FACTORY_NAME_BASE);
    let f = fetch_factory(&l, &org_id).ok().unwrap();
    assert_test_factory(&l, &f.data, FACTORY_NAME_BASE);
    assert_eq!(f.data.assertion, None);
    assert_eq!(f.head, 1);
    assert_eq!(f.link, "/api/factories/test_factory_id?head=1");
}

#[test]
fn test_factories_list_endpoint() {
    let l = setup_factory_db(true);
    let r = list_factories(&l).ok().unwrap();
    assert_eq!(r.data.len(), 2);
    assert_test_factory(&l, &r.data[0], FACTORY_NAME_ASSERTION_BASE);
    assert_eq!(l.assertions[r.data[0].assertion.unwrap()].assertion_id, "test_assertion_id");
    assert_test_factory(&l, &r.data[1], FACTORY_NAME_BASE);
    assert_eq!(r.data[1].assertion, None);
    assert_single_page(&r, "/api/factories?head=1&limit=100&offset=0", 2);
}

#[test]
fn test_factories_list_with_params_endpoint() {
    let l = setup_factory_db(false);
    let mut p = factory_params_base();
    p.name = Some(format!("{}_name", FACTORY_NAME_BASE));
    assert_eq!(num_factories(&l, &p), 1);
}

/// A fuzzy filter whose similarity to the one stored address is `score`
/// thousandths.
fn fuzzy(query: String, score: u32) -> Option<FuzzyFilter> {
    Some(FuzzyFilter { query, scores: vec![score] })
}

#[test]
fn test_factories_list_with_similar_city_param() {
    let l = setup_factory_db(false);
    let mut p = factory_params_base();
    p.city = fuzzy(format!("{}_city_similar", FACTORY_NAME_BASE), 650);
    assert_eq!(num_factories(&l, &p), 1);
}

#[test]
fn test_factories_list_with_dissimilar_city_param() {
    let l = setup_factory_db(false);
    let mut p = factory_params_base();
    p.city = fuzzy("dissimilar_city".to_string(), 120);
    assert_eq!(num_factories(&l, &p), 0);
}

#[test]
fn test_factories_list_with_similar_state_province_param() {
    let l = setup_factory_db(false);
    let mut p = factory_params_base();
    p.state_province = fuzzy(format!("{}_state_province_similar", FACTORY_NAME_BASE), 480);
    assert_eq!(num_factories(&l, &p), 1);
}

#[test]
fn test_factories_list_with_dissimilar_state_province_param() {
    let l = setup_factory_db(false);
    let mut p = factory_params_base();
    p.state_province = fuzzy("dissimilar_sp".to_string(), 90);
    assert_eq!(num_factories(&l, &p), 0);
}

#[test]
fn test_factories_list_with_similar_country_param() {
    let l = setup_factory_db(false);
    let mut p = factory_params_base();
    p.country = fuzzy(format!("{}_country_similar", FACTORY_NAME_BASE), 640);
    assert_eq!(num_factories(&l, &p), 1);
}

#[test]
fn test_factories_list_with_dissimilar_country_param() {
    let l = setup_factory_db(false);
    let mut p = factory_params_base();
    p.country = fuzzy("dissimilar_ctry".to_string(), 100);
    assert_eq!(num_factories(&l, &p), 0);
}

#[test]
fn test_factories_list_with_similar_postal_code_param() {
    let l = setup_factory_db(false);
    let mut p = factory_params_base();
    p.postal_code = fuzzy(format!("{}_postal_code_similar", FACTORY_NAME_BASE), 520);
    assert_eq!(num_factories(&l, &p), 1);
}

#[test]
fn test_factories_list_with_dissimilar_postal_code_param() {
    let l = setup_factory_db(false);
    let mut p = factory_params_base();
    p.postal_code = fuzzy("dissimilar_code".to_string(), 150);
    assert_eq!(num_factories(&l, &p), 0);
}

/// The outcome of a full-text query on the tables of `setup_factory_db(false)`:
/// organizations (factory, certifying body), one standard, one address.
fn text_search(query: String, org_names: Vec<bool>, std_names: Vec<bool>, addresses: Vec<bool>) -> Option<TextSearch> {
    Some(TextSearch { query, organization_names: org_names, standard_names: std_names, addresses })
}

#[test]
fn test_factories_list_endpoint_with_search_param_cert_std_name() {
    let l = setup_factory_db(false);
    let mut p = factory_params_base();
    p.search = text_search(format!("{}_name", STD_NAME_BASE), vec![false, false], vec![true], vec![false]);
    assert_eq!(num_factories(&l, &p), 1);
}

#[test]
fn test_factories_list_endpoint_with_search_param_address() {
    let l = setup_factory_db(false);
    let mut p = factory_params_base();
    p.search = text_search(format!("{}_city", FACTORY_NAME_BASE), vec![false, false], vec![false], vec![true]);
    assert_eq!(num_factories(&l, &p), 1);
}

#[test]
fn test_factories_list_endpoint_with_search_param_org_name() {
    let l = setup_factory_db(false);
    let mut p = factory_params_base();
    p.search = text_search("test_factory_name".to_string(), vec![true, false], vec![false], vec![false]);
    assert_eq!(num_factories(&l, &p), 1);
}

/// The certificate fixture: certificate, factory, certifying body and
/// standard, each valid on `[1, 2)`; with an assertion about the certificate
/// when `assertion` is given.
fn cert_ledger(assertion: Option<AssertionType>) -> Ledger {
    let mut l = genesis_ledger();
    l.certificates.push(Certificate {
        start_block_num: 1,
        end_block_num: 2,
        certificate_id: "test_cert_id".to_string(),
        certifying_body_id: "test_cert_body_id".to_string(),
        factory_id: "test_factory_id".to_string(),
        standard_id: "test_standard_id".to_string(),
        standard_version: "test_standard_version".to_string(),
        valid_from: 1,
        valid_to: 2,
    });
    l.organizations.push(Organization {
        start_block_num: 1,
        end_block_num: 2,
        organization_id: "test_factory_id".to_string(),
        name: "test_factory_name".to_string(),
        organization_type: OrganizationType::Factory,
    });
    l.organizations.push(Organization {
        start_block_num: 1,
        end_block_num: 2,
        organization_id: "test_cert_body_id".to_string(),
        name: "test_cert_body_name".to_string(),
        organization_type: OrganizationType::CertifyingBody,
    });
    l.standards.push(Standard {
        start_block_num: 1,
        end_block_num: 2,
        standard_id: "test_standard_id".to_string(),
        organization_id: "test_standards_body_id".to_string(),
        name: "test_standard_name".to_string(),
    });
    if let Some(t) = assertion {
        l.assertions.push(Assertion {
            start_block_num: 1,
            end_block_num: 2,
            assertion_id: "test_assertion_id".to_string(),
            address: String::new(),
            assertor_pub_key: "test_key".to_string(),
            assertion_type: t,
            object_id: "test_cert_id".to_string(),
            data_id: None,
        });
    }
    l
}

/// Asserts that `v` is the certificate of `cert_ledger`.
fn assert_test_certificate(l: &Ledger, v: &CertificateView) {
    let c = &l.certificates[v.certificate];
    assert_eq!(c.certificate_id, "test_cert_id");
    let body = &l.organizations[v.certifying_body];
    assert_eq!(body.organization_id, "test_cert_body_id");
    assert_eq!(body.name, "test_cert_body_name");
    let factory = &l.organizations[v.factory];
    assert_eq!(factory.organization_id, "test_factory_id");
    assert_eq!(factory.name, "test_factory_name");
    let standard = &l.standards[v.standard];
    assert_eq!(c.standard_id, "test_standard_id");
    assert_eq!(standard.standard_id, "test_standard_id");
    assert_eq!(standard.name, "test_standard_name");
    assert_eq!(c.standard_version, "test_standard_version");
    assert_eq!(c.valid_from, 1);
    assert_eq!(c.valid_to, 2);
}

#[test]
fn test_certificate_fetch_valid_id_success() {
    let l = cert_ledger(None);
    let f = fetch_certificate(&l, &"test_cert_id".to_string()).ok().unwrap();
    assert_test_certificate(&l, &f.data);
    assert_eq!(f.data.assertion, None);
    assert_eq!(f.head, 1);
    assert_eq!(f.link, "/api/certificates/test_cert_id?head=1");
}

#[test]
fn test_certificate_fetch_valid_id_with_assertion_success() {
    let l = cert_ledger(Some(AssertionType::Factory));
    let f = fetch_certificate(&l, &"test_cert_id".to_string()).ok().unwrap();
    assert_test_certificate(&l, &f.data);
    assert_eq!(l.assertions[f.data.assertion.unwrap()].assertion_id, "test_assertion_id");
    assert_eq!(f.head, 1);
    assert_eq!(f.link, "/api/certificates/test_cert_id?head=1");
}

#[test]
fn test_certificates_list_endpoint() {
    let l = cert_ledger(None);
    let r = list_certificates(&l).ok().unwrap();
    assert_eq!(r.data.len(), 1);
    assert_test_certificate(&l, &r.data[0]);
    assert_eq!(r.data[0].assertion, None);
    assert_single_page(&r, "/api/certificates?head=1&limit=100&offset=0", 1);
}

#[test]
fn test_certificates_list_endpoint_with_assertion() {
    let l = cert_ledger(Some(AssertionType::Certificate));
    let r = list_certificates(&l).ok().unwrap();
    assert_eq!(r.data.len(), 1);
    assert_test_certificate(&l, &r.data[0]);
    assert_eq!(l.assertions[r.data[0].assertion.unwrap()].assertion_id, "test_assertion_id");
    assert_single_page(&r, "/api/certificates?head=1&limit=100&offset=0", 1);
}

/// The organization fixture: one factory valid on `[1, 2)` with an
/// authorization, an address and a contact; with an assertion about it when
/// asked for.
fn organization_ledger(with_assertion: bool) -> Ledger {
    let mut l = genesis_ledger();
    l.organizations.push(Organization {
        start_block_num: 1,
        end_block_num: 2,
        organization_id: "test_factory_id".to_string(),
        name: "test_factory_name".to_string(),
        organization_type: OrganizationType::Factory,
    });
    l.authorizations.push(Authorization {
        start_block_num: 1,
        end_block_num: 2,
        organization_id: "test_factory_id".to_string(),
        public_key: "test_key".to_string(),
        role: Role::Admin,
    });
    l.addresses.push(Address {
        start_block_num: 1,
        end_block_num: 2,
        organization_id: "test_factory_id".to_string(),
        street_line_1: "test_street_line_1".to_string(),
        street_line_2: None,
        city: "test_city".to_string(),
        state_province: Some("test_province".to_string()),
        country: "test_country".to_string(),
        postal_code: Some("test_code".to_string()),
    });
    l.contacts.push(Contact {
        start_block_num: 1,
        end_block_num: 2,
        organization_id: "test_factory_id".to_string(),
        name: "test_contact".to_string(),
        phone_number: "test_phone".to_string(),
        language_code: "en".to_string(),
    });
    if with_assertion {
        l.assertions.push(Assertion {
            start_block_num: 1,
            end_block_num: 2,
            assertion_id: "test_assertion_id".to_string(),
            address: String::new(),
            assertor_pub_key: "test_key".to_string(),
            assertion_type: AssertionType::Factory,
            object_id: "test_factory_id".to_string(),
            data_id: None,
        });
    }
    l
}

/// Asserts that `v` is the factory of `organization_ledger`.
fn assert_test_organization(l: &Ledger, v: &OrganizationView) {
    let o = &l.organizations[v.organization];
    assert_eq!(o.organization_id, "test_factory_id");
    assert_eq!(o.name, "test_factory_name");
    assert_eq!(o.organization_type, OrganizationType::Factory);
    assert_eq!(v.contacts.len(), 1);
    let c = &l.contacts[v.contacts[0]];
    assert_eq!(c.name, "test_contact");
    assert_eq!(c.language_code, "en");
    assert_eq!(c.phone_number, "test_phone");
    assert_eq!(v.authorizations.len(), 1);
    let a = &l.authorizations[v.authorizations[0]];
    assert_eq!(a.public_key, "test_key");
    assert_eq!(a.role, Role::Admin);
    let addr = &l.addresses[v.address.unwrap()];
    assert_eq!(addr.street_line_1, "test_street_line_1");
    assert_eq!(addr.street_line_2, None);
    assert_eq!(addr.city, "test_city");
    assert_eq!(addr.state_province, Some("test_province".to_string()));
    assert_eq!(addr.country, "test_country");
    assert_eq!(addr.postal_code, Some("test_code".to_string()));
    assert!(v.certificates.is_none());
}

#[test]
fn test_organization_fetch_valid_id_success() {
    let l = organization_ledger(false);
    let f = fetch_organization(&l, &"test_factory_id".to_string()).ok().unwrap();
    assert_test_organization(&l, &f.data);
    assert_eq!(f.data.assertion, None);
    assert_eq!(f.head, 1);
    assert_eq!(f.link, "/api/organizations/test_factory_id?head=1");
}

#[test]
fn test_organization_fetch_valid_id_with_assertion_success() {
    let l = organization_ledger(true);
    let f = fetch_organization(&l, &"test_factory_id".to_string()).ok().unwrap();
    assert_test_organization(&l, &f.data);
    assert_eq!(l.assertions[f.data.assertion.unwrap()].assertion_id, "test_assertion_id");
    assert_eq!(f.head, 1);
    assert_eq!(f.link, "/api/organizations/test_factory_id?head=1");
}

#[test]
fn test_organizations_list_endpoint() {
    let l = organization_ledger(false);
    let r = list_organizations(&l).ok().unwrap();
    assert_eq!(r.data.len(), 1);
    assert_test_organization(&l, &r.data[0]);
    assert_eq!(r.data[0].assertion, None);
    assert_single_page(&r, "/api/organizations?head=1&limit=100&offset=0", 1);
}

#[test]
fn test_organizations_list_endpoint_with_assertion() {
    let l = organization_ledger(true);
    let r = list_organizations(&l).ok().unwrap();
    assert_eq!(r.data.len(), 1);
    assert_test_organization(&l, &r.data[0]);
    assert_eq!(l.assertions[r.data[0].assertion.unwrap()].assertion_id, "test_assertion_id");
    assert_single_page(&r, "/api/organizations?head=1&limit=100&offset=0", 1);
}

fn assertion_ledger() -> Ledger {
    let mut l = genesis_ledger();
    l.assertions.push(Assertion {
        start_block_num: 1,
        end_block_num: 2,
        assertion_id: "test_assertion_id".to_string(),
        address: "some_state_address".to_string(),
        assertor_pub_key: "test_key".to_string(),
        assertion_type: AssertionType::Factory,
        object_id: "test_object_id".to_string(),
        data_id: None,
    });
    l
}

fn assert_test_assertion(a: &Assertion) {
    assert_eq!(a.assertion_id, "test_assertion_id");
    assert_eq!(a.address, "some_state_address");
    assert_eq!(a.assertor_pub_key, "test_key");
    assert_eq!(a.assertion_type, AssertionType::Factory);
    assert_eq!(a.object_id, "test_object_id");
    assert_eq!(a.data_id, None);
}

#[test]
fn test_assertion_fetch_valid_id_success() {
    let l = assertion_ledger();
    let f = fetch_assertions(&l, &"test_assertion_id".to_string()).ok().unwrap();
    assert_test_assertion(&l.assertions[f.data]);
    assert_eq!(f.head, 1);
    assert_eq!(f.link, "/api/assertions/test_assertion_id?head=1");
}

#[test]
fn test_assertions_list_endpoint() {
    let l = assertion_ledger();
    let r = list_assertions(&l).ok().unwrap();
    assert_eq!(r.data.len(), 1);
    assert_test_assertion(&l.assertions[r.data[0]]);
    assert_single_page(&r, "/api/assertions?head=1&limit=100&offset=0", 1);
}

fn create_test_standard(l: &mut Ledger, standard_name: &str) {
    l.standards.push(Standard {
        start_block_num: 1,
        end_block_num: OPEN_END,
        standard_id: format!("{}_id", standard_name),
        organization_id: format!("{}_organization_id", standard_name),
        name: format!("{}_name", standard_name),
    });
}

fn create_test_standard_with_assertion(l: &mut Ledger, standard_name: &str, assertion_name: &str) {
    create_test_standard(l, standard_name);
    l.assertions.push(Assertion {
        start_block_num: 1,
        end_block_num: OPEN_END,
        assertion_id: format!("{}_id", assertion_name),
        address: "some_state_address".to_string(),
        assertor_pub_key: format!("{}_key", assertion_name),
        assertion_type: AssertionType::Factory,
        object_id: format!("{}_id", standard_name),
        data_id: None,
    });
}

#[test]
fn test_standards_list_endpoint() {
    let mut l = genesis_ledger();
    create_test_standard(&mut l, "test_standard");
    let p = StandardParams {
        name: None,
        standard_id: None,
        organization_id: Some("test_standard_organization_id".to_string()),
        head: None,
    };
    let r = list_standards_with_params(&l, &p).ok().unwrap();
    assert_eq!(r.len(), 1);
    let s = &l.standards[r[0].standard];
    assert_eq!(s.standard_id, "test_standard_id");
    assert_eq!(s.name, "test_standard_name");
    assert_eq!(r[0].assertion, None);
    assert!(r[0].versions.is_none());
}

#[test]
fn test_standards_list_endpoint_with_assertion() {
    let mut l = genesis_ledger();
    create_test_standard_with_assertion(&mut l, "test_standard", "test_assertion");
    let p = StandardParams {
        name: None,
        standard_id: None,
        organization_id: Some("test_standard_organization_id".to_string()),
        head: None,
    };
    let r = list_standards_with_params(&l, &p).ok().unwrap();
    assert_eq!(r.len(), 1);
    let s = &l.standards[r[0].standard];
    assert_eq!(s.standard_id, "test_standard_id");
    assert_eq!(s.name, "test_standard_name");
    assert_eq!(l.assertions[r[0].assertion.unwrap()].assertion_id, "test_assertion_id");
}

#[test]
fn test_standards_list_endpoint_with_query() {
    let mut l = genesis_ledger();
    create_test_standard_with_assertion(&mut l, "first_standard", "first_assertion");
    create_test_standard_with_assertion(&mut l, "second_standard", "second_assertion");
    let p = StandardParams {
        name: Some("second_standard_name".to_string()),
        standard_id: None,
        organization_id: None,
        head: None,
    };
    let r = list_standards_with_params(&l, &p).ok().unwrap();
    assert_eq!(r.len(), 1);
    let s = &l.standards[r[0].standard];
    assert_eq!(s.standard_id, "second_standard_id");
    assert_eq!(s.name, "second_standard_name");
    assert_eq!(l.assertions[r[0].assertion.unwrap()].assertion_id, "second_assertion_id");
}

fn standards_body_ledger(with_assertion: bool) -> Ledger {
    let mut l = genesis_ledger();
    l.standards.push(Standard {
        start_block_num: 1,
        end_block_num: 2,
        standard_id: "test_standard_id".to_string(),
        organization_id: "test_standards_body_id".to_string(),
        name: "test_standard_name".to_string(),
    });
    l.standard_versions.push(StandardVersion {
        start_block_num: 1,
        end_block_num: 2,
        standard_id: "test_standard_id".to_string(),
        version: "test_standard_version".to_string(),
        link: "test_link".to_string(),
        description: "test_description".to_string(),
        approval_date: 1,
    });
    if with_assertion {
        l.assertions.push(Assertion {
            start_block_num: 1,
            end_block_num: 2,
            assertion_id: "test_assertion_id".to_string(),
            address: String::new(),
            assertor_pub_key: "test_key".to_string(),
            assertion_type: AssertionType::Standard,
            object_id: "test_standard_id".to_string(),
            data_id: None,
        });
    }
    l
}

fn body_params() -> StandardBodyParams {
    StandardBodyParams { organization_id: "test_standards_body_id".to_string(), limit: None, offset: None, head: None }
}

const BODY_LINK: &str = "/api/standards_body/standards?organization_id=test_standards_body_id&head=1&limit=100&offset=0";

fn assert_test_body_standard(l: &Ledger, r: &Listed<consensource_api::standards::StandardView>) {
    assert_eq!(r.data.len(), 1);
    let s = &l.standards[r.data[0].standard];
    assert_eq!(s.standard_id, "test_standard_id");
    assert_eq!(s.organization_id, "test_standards_body_id");
    assert_eq!(s.name, "test_standard_name");
    let versions = r.data[0].versions.as_ref().unwrap();
    assert_eq!(versions.len(), 1);
    let v = &l.standard_versions[versions[0]];
    assert_eq!(v.version, "test_standard_version");
    assert_eq!(v.link, "test_link");
    assert_eq!(v.description, "test_description");
    assert_eq!(v.approval_date, 1);
    assert_single_page(r, BODY_LINK, 1);
}

#[test]
fn test_standards_by_body_list_endpoint() {
    let l = standards_body_ledger(false);
    let r = list_standards_belonging_to_org(&l, &body_params()).ok().unwrap();
    assert_test_body_standard(&l, &r);
    assert_eq!(r.data[0].assertion, None);
}

#[test]
fn test_standards_by_body_list_endpoint_with_assertion() {
    let l = standards_body_ledger(true);
    let r = list_standards_belonging_to_org(&l, &body_params()).ok().unwrap();
    assert_test_body_standard(&l, &r);
    assert_eq!(l.assertions[r.data[0].assertion.unwrap()].assertion_id, "test_assertion_id");
}
