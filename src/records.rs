use vstd::prelude::*;

use crate::head::valid_at;

verus! {

/// A row of a versioned table: its validity interval and the natural key of
/// the logical entity that it is one version of.
pub trait Versioned {
    spec fn start_spec(&self) -> int;

    spec fn end_spec(&self) -> int;

    spec fn key_spec(&self) -> Seq<char>;

    fn start_block(&self) -> (r: i64)
        ensures
            r as int == self.start_spec(),
    ;

    fn end_block(&self) -> (r: i64)
        ensures
            r as int == self.end_spec(),
    ;

    fn natural_key(&self) -> (r: &String)
        ensures
            r@ == self.key_spec(),
    ;
}

/// A row that belongs to another entity, named by that entity's natural
/// key: the organization of an address, contact or authorization, the
/// factory that holds a certificate, the entity an assertion is about, the
/// standard a version belongs to.
pub trait Owned {
    spec fn owner_spec(&self) -> Seq<char>;

    fn owner_key(&self) -> (r: &String)
        ensures
            r@ == self.owner_spec(),
    ;
}

/// Whether a versioned row is visible at `head`.
pub open spec fn live<T: Versioned>(row: T, head: int) -> bool {
    valid_at(row.start_spec(), row.end_spec(), head)
}

#[derive(PartialEq, Eq, Structural, Clone, Copy, Debug)]
pub enum OrganizationType {
    CertifyingBody,
    StandardsBody,
    Factory,
    Ingestion,
    UnsetType,
}

#[derive(PartialEq, Eq, Structural, Clone, Copy, Debug)]
pub enum Role {
    Admin,
    Transactor,
    UnsetRole,
}

#[derive(PartialEq, Eq, Structural, Clone, Copy, Debug)]
pub enum AssertionType {
    Factory,
    Certificate,
    Standard,
}

/// An organization; its natural key is `organization_id`.
pub struct Organization {
    pub organization_id: String,
    pub name: String,
    pub organization_type: OrganizationType,
    pub start_block_num: i64,
    pub end_block_num: i64,
}

/// The address of an organization, keyed by its owner.
pub struct Address {
    pub organization_id: String,
    pub street_line_1: String,
    pub street_line_2: Option<String>,
    pub city: String,
    pub state_province: Option<String>,
    pub country: String,
    pub postal_code: Option<String>,
    pub start_block_num: i64,
    pub end_block_num: i64,
}

/// A contact of an organization, keyed by its owner.
pub struct Contact {
    pub organization_id: String,
    pub name: String,
    pub phone_number: String,
    pub language_code: String,
    pub start_block_num: i64,
    pub end_block_num: i64,
}

/// A key authorized to act for an organization, keyed by its owner.
pub struct Authorization {
    pub organization_id: String,
    pub public_key: String,
    pub role: Role,
    pub start_block_num: i64,
    pub end_block_num: i64,
}

/// A certificate issued to a factory against a standard by a certifying
/// body; its natural key is `certificate_id`.
pub struct Certificate {
    pub certificate_id: String,
    pub certifying_body_id: String,
    pub factory_id: String,
    pub standard_id: String,
    pub standard_version: String,
    pub valid_from: i64,
    pub valid_to: i64,
    pub start_block_num: i64,
    pub end_block_num: i64,
}

/// A standard published by a standards body; its natural key is
/// `standard_id`.
pub struct Standard {
    pub standard_id: String,
    pub organization_id: String,
    pub name: String,
    pub start_block_num: i64,
    pub end_block_num: i64,
}

/// One version of a standard, keyed by the standard it belongs to.
pub struct StandardVersion {
    pub standard_id: String,
    pub version: String,
    pub link: String,
    pub description: String,
    pub approval_date: i64,
    pub start_block_num: i64,
    pub end_block_num: i64,
}

/// A claim made by a user about another entity (`object_id`); its natural
/// key is `assertion_id`.
pub struct Assertion {
    pub assertion_id: String,
    pub address: String,
    pub assertor_pub_key: String,
    pub assertion_type: AssertionType,
    pub object_id: String,
    pub data_id: Option<String>,
    pub start_block_num: i64,
    pub end_block_num: i64,
}

impl Versioned for Organization {
    open spec fn start_spec(&self) -> int { self.start_block_num as int }
    open spec fn end_spec(&self) -> int { self.end_block_num as int }
    open spec fn key_spec(&self) -> Seq<char> { self.organization_id@ }
    fn start_block(&self) -> (r: i64) { self.start_block_num }
    fn end_block(&self) -> (r: i64) { self.end_block_num }
    fn natural_key(&self) -> (r: &String) { &self.organization_id }
}

impl Versioned for Address {
    open spec fn start_spec(&self) -> int { self.start_block_num as int }
    open spec fn end_spec(&self) -> int { self.end_block_num as int }
    open spec fn key_spec(&self) -> Seq<char> { self.organization_id@ }
    fn start_block(&self) -> (r: i64) { self.start_block_num }
    fn end_block(&self) -> (r: i64) { self.end_block_num }
    fn natural_key(&self) -> (r: &String) { &self.organization_id }
}

impl Versioned for Contact {
    open spec fn start_spec(&self) -> int { self.start_block_num as int }
    open spec fn end_spec(&self) -> int { self.end_block_num as int }
    open spec fn key_spec(&self) -> Seq<char> { self.organization_id@ }
    fn start_block(&self) -> (r: i64) { self.start_block_num }
    fn end_block(&self) -> (r: i64) { self.end_block_num }
    fn natural_key(&self) -> (r: &String) { &self.organization_id }
}

impl Versioned for Authorization {
    open spec fn start_spec(&self) -> int { self.start_block_num as int }
    open spec fn end_spec(&self) -> int { self.end_block_num as int }
    open spec fn key_spec(&self) -> Seq<char> { self.organization_id@ }
    fn start_block(&self) -> (r: i64) { self.start_block_num }
    fn end_block(&self) -> (r: i64) { self.end_block_num }
    fn natural_key(&self) -> (r: &String) { &self.organization_id }
}

impl Versioned for Certificate {
    open spec fn start_spec(&self) -> int { self.start_block_num as int }
    open spec fn end_spec(&self) -> int { self.end_block_num as int }
    open spec fn key_spec(&self) -> Seq<char> { self.certificate_id@ }
    fn start_block(&self) -> (r: i64) { self.start_block_num }
    fn end_block(&self) -> (r: i64) { self.end_block_num }
    fn natural_key(&self) -> (r: &String) { &self.certificate_id }
}

impl Versioned for Standard {
    open spec fn start_spec(&self) -> int { self.start_block_num as int }
    open spec fn end_spec(&self) -> int { self.end_block_num as int }
    open spec fn key_spec(&self) -> Seq<char> { self.standard_id@ }
    fn start_block(&self) -> (r: i64) { self.start_block_num }
    fn end_block(&self) -> (r: i64) { self.end_block_num }
    fn natural_key(&self) -> (r: &String) { &self.standard_id }
}

impl Versioned for Assertion {
    open spec fn start_spec(&self) -> int { self.start_block_num as int }
    open spec fn end_spec(&self) -> int { self.end_block_num as int }
    open spec fn key_spec(&self) -> Seq<char> { self.assertion_id@ }
    fn start_block(&self) -> (r: i64) { self.start_block_num }
    fn end_block(&self) -> (r: i64) { self.end_block_num }
    fn natural_key(&self) -> (r: &String) { &self.assertion_id }
}

impl Versioned for StandardVersion {
    open spec fn start_spec(&self) -> int { self.start_block_num as int }
    open spec fn end_spec(&self) -> int { self.end_block_num as int }
    open spec fn key_spec(&self) -> Seq<char> { self.standard_id@ }
    fn start_block(&self) -> (r: i64) { self.start_block_num }
    fn end_block(&self) -> (r: i64) { self.end_block_num }
    fn natural_key(&self) -> (r: &String) { &self.standard_id }
}

impl Owned for Address {
    open spec fn owner_spec(&self) -> Seq<char> { self.organization_id@ }
    fn owner_key(&self) -> (r: &String) { &self.organization_id }
}

impl Owned for Contact {
    open spec fn owner_spec(&self) -> Seq<char> { self.organization_id@ }
    fn owner_key(&self) -> (r: &String) { &self.organization_id }
}

impl Owned for Authorization {
    open spec fn owner_spec(&self) -> Seq<char> { self.organization_id@ }
    fn owner_key(&self) -> (r: &String) { &self.organization_id }
}

impl Owned for Certificate {
    open spec fn owner_spec(&self) -> Seq<char> { self.factory_id@ }
    fn owner_key(&self) -> (r: &String) { &self.factory_id }
}

impl Owned for Assertion {
    open spec fn owner_spec(&self) -> Seq<char> { self.object_id@ }
    fn owner_key(&self) -> (r: &String) { &self.object_id }
}

impl Owned for StandardVersion {
    open spec fn owner_spec(&self) -> Seq<char> { self.standard_id@ }
    fn owner_key(&self) -> (r: &String) { &self.standard_id }
}

} // verus!
