use vstd::prelude::*;
use vstd::string::StringExecFns;

verus! {

/// The reply to a CORS preflight request on `/api/users`.
pub fn cors_users_route() -> (r: String)
    ensures
        r@ == "Hello from CORS /api/users"@,
{
    String::from_str("Hello from CORS /api/users")
}

/// The reply to a CORS preflight request on `/api/users/authenticate`.
pub fn cors_users_auth_route() -> (r: String)
    ensures
        r@ == "Hello from CORS /api/users/authenticate"@,
{
    String::from_str("Hello from CORS /api/users/authenticate")
}

/// The reply to a CORS preflight request on `/batches`.
pub fn cors_batches_route() -> (r: String)
    ensures
        r@ == "Hello from CORS /batches"@,
{
    String::from_str("Hello from CORS /batches")
}

/// One response header.
pub struct Header {
    pub name: String,
    pub value: String,
}

/// What the CORS layer does to a response: the headers it sets and whether
/// it replaces the body with an empty plain-text one.
pub struct CorsChange {
    pub headers: Vec<Header>,
    pub plain_empty_body: bool,
}

/// The CORS headers, by name and value, in the order they are set.
pub open spec fn cors_header_names() -> Seq<Seq<char>> {
    seq![
        "Access-Control-Allow-Origin"@,
        "Access-Control-Allow-Methods"@,
        "Access-Control-Allow-Headers"@,
        "Access-Control-Allow-Credentials"@,
    ]
}

pub open spec fn cors_header_values() -> Seq<Seq<char>> {
    seq!["*"@, "POST, GET, OPTIONS, PATCH"@, "Content-Type, Authentication"@, "true"@]
}

/// The layer that adds CORS headers to responses.
pub struct CORS;

fn header(name: &str, value: &str) -> (r: Header)
    ensures
        r.name@ == name@,
        r.value@ == value@,
{
    Header { name: String::from_str(name), value: String::from_str(value) }
}

impl CORS {
    /// A preflight (`OPTIONS`) request, or a response carrying JSON, gets the
    /// four CORS headers; a preflight request also gets an empty plain-text
    /// body.
    pub fn on_response(&self, is_options: bool, is_json: bool) -> (r: CorsChange)
        ensures
            r.plain_empty_body == is_options,
            (is_options || is_json) ==> r.headers@.len() == 4 && forall|i: int|
                0 <= i < 4 ==> (#[trigger] r.headers@[i]).name@ == cors_header_names()[i]
                    && r.headers@[i].value@ == cors_header_values()[i],
            !(is_options || is_json) ==> r.headers@.len() == 0,
    {
        let mut headers: Vec<Header> = Vec::new();
        if is_options || is_json {
            headers.push(header("Access-Control-Allow-Origin", "*"));
            headers.push(header("Access-Control-Allow-Methods", "POST, GET, OPTIONS, PATCH"));
            headers.push(header("Access-Control-Allow-Headers", "Content-Type, Authentication"));
            headers.push(header("Access-Control-Allow-Credentials", "true"));
        }
        CorsChange { headers, plain_empty_body: is_options }
    }
}

} // verus!
