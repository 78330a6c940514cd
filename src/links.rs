use vstd::prelude::*;
use vstd::string::StringExecFns;

use crate::decimal::{decimal, decimal_string};
use crate::encode::{percent_encode, rocket_encoded};

verus! {

/// One query-string parameter of a link, with its separator.
pub open spec fn param(name: Seq<char>, value: Seq<char>) -> Seq<char> {
    name + "="@ + value + "&"@
}

/// The parameter for an optional text filter, its value encoded: nothing
/// when it is absent.
pub open spec fn opt_param(name: Seq<char>, value: Option<String>) -> Seq<char> {
    match value {
        Some(v) => param(name, rocket_encoded(v@)),
        None => Seq::empty(),
    }
}

/// How a flag is written in a link.
pub open spec fn bool_text(b: bool) -> Seq<char> {
    if b {
        "true"@
    } else {
        "false"@
    }
}

/// Appends `name=value&` to `link`.
pub fn push_param(link: &mut String, name: &str, value: &str)
    ensures
        final(link)@ == old(link)@ + param(name@, value@),
{
    link.append(name);
    link.append("=");
    link.append(value);
    link.append("&");
}

/// Appends `name=value&` to `link`, the value encoded.
pub fn push_text_param(link: &mut String, name: &str, value: &String)
    ensures
        final(link)@ == old(link)@ + param(name@, rocket_encoded(value@)),
{
    let v = percent_encode(value);
    push_param(link, name, v.as_str());
}

/// Appends `name=value&` to `link` when the filter is present, the value
/// encoded.
pub fn push_opt_param(link: &mut String, name: &str, value: &Option<String>)
    ensures
        final(link)@ == old(link)@ + opt_param(name@, *value),
{
    match value {
        Some(v) => push_text_param(link, name, v),
        None => {
            assert(link@ + Seq::<char>::empty() =~= link@);
        },
    }
}

/// Appends `head=<head>&` to `link`.
pub fn push_head(link: &mut String, head: i64)
    ensures
        final(link)@ == old(link)@ + param("head"@, decimal(head as int)),
{
    let h = decimal_string(head);
    push_param(link, "head", h.as_str());
}

/// Appends `name=true&` or `name=false&` to `link` when the flag is given.
pub fn push_opt_flag(link: &mut String, name: &str, value: Option<bool>)
    ensures
        final(link)@ == old(link)@ + match value {
            Some(b) => param(name@, bool_text(b)),
            None => Seq::empty(),
        },
{
    match value {
        Some(true) => push_param(link, name, "true"),
        Some(false) => push_param(link, name, "false"),
        None => {
            assert(link@ + Seq::<char>::empty() =~= link@);
        },
    }
}

/// The link of a single entity: `<path><id>?head=<head>`.
pub open spec fn entity_link(path: Seq<char>, id: Seq<char>, head: int) -> Seq<char> {
    path + id + "?head="@ + decimal(head)
}

/// Builds the link of a single entity.
pub fn make_entity_link(path: &str, id: &String, head: i64) -> (r: String)
    ensures
        r@ == entity_link(path@, id@, head as int),
{
    let mut link = String::from_str(path);
    link.append(id.as_str());
    link.append("?head=");
    let h = decimal_string(head);
    link.append(h.as_str());
    link
}

} // verus!
