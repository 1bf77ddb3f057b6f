//! HTTP request methods as the rules tell them apart.

use vstd::prelude::*;
use crate::text::{chars_of, same_chars};

verus! {

/// The request methods that a rule can be restricted to. Every method
/// without a variant of its own is `Other`.
#[derive(Clone, Copy, Debug, PartialEq, Eq, Hash, Structural)]
pub enum HttpMethod {
    Get,
    Post,
    Put,
    Delete,
    Patch,
    Head,
    Options,
    Connect,
    Trace,
    Other,
}

/// The method that a request line's method token stands for. Tokens are
/// case-sensitive: only the upper-case standard names are told apart.
pub open spec fn method_of(token: Seq<char>) -> HttpMethod {
    if token == "GET"@ {
        HttpMethod::Get
    } else if token == "POST"@ {
        HttpMethod::Post
    } else if token == "PUT"@ {
        HttpMethod::Put
    } else if token == "DELETE"@ {
        HttpMethod::Delete
    } else if token == "PATCH"@ {
        HttpMethod::Patch
    } else if token == "HEAD"@ {
        HttpMethod::Head
    } else if token == "OPTIONS"@ {
        HttpMethod::Options
    } else if token == "CONNECT"@ {
        HttpMethod::Connect
    } else if token == "TRACE"@ {
        HttpMethod::Trace
    } else {
        HttpMethod::Other
    }
}

fn spells(token: &Vec<char>, name: &str) -> (yes: bool)
    ensures
        yes == (token@ == name@),
{
    let letters = chars_of(name);
    same_chars(token, &letters)
}

/// Maps the method token of a request to the method it names.
pub fn map_method(token: &str) -> (method: HttpMethod)
    ensures
        method == method_of(token@),
{
    let t = chars_of(token);
    if spells(&t, "GET") {
        HttpMethod::Get
    } else if spells(&t, "POST") {
        HttpMethod::Post
    } else if spells(&t, "PUT") {
        HttpMethod::Put
    } else if spells(&t, "DELETE") {
        HttpMethod::Delete
    } else if spells(&t, "PATCH") {
        HttpMethod::Patch
    } else if spells(&t, "HEAD") {
        HttpMethod::Head
    } else if spells(&t, "OPTIONS") {
        HttpMethod::Options
    } else if spells(&t, "CONNECT") {
        HttpMethod::Connect
    } else if spells(&t, "TRACE") {
        HttpMethod::Trace
    } else {
        HttpMethod::Other
    }
}

} // verus!
