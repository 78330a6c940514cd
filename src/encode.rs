use vstd::prelude::*;

verus! {

/// What Rocket's percent-encoding makes of a value: the characters of its
/// default encode set (controls, characters not allowed in a URI path,
/// `/`, `%`, `+`, `&`, `=`, and every non-ASCII character) written as `%XX`
/// escapes of their UTF-8 bytes, the rest as they are.
pub uninterp spec fn rocket_encoded(s: Seq<char>) -> Seq<char>;

/// Relies on `rocket::http::RawStr::percent_encode`: the value escaped with
/// Rocket's default encode set; the result depends on the value alone.
#[verifier::external_body]
pub(crate) fn percent_encode(v: &String) -> (r: String)
    ensures
        r@ == rocket_encoded(v@),
{
    rocket::http::RawStr::new(v.as_str()).percent_encode().as_str().to_string()
}

} // verus!
