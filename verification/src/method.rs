//! HTTP methods, as plain values.

use vstd::prelude::*;

verus! {

/// The HTTP methods a route may declare.
#[derive(Clone, Copy, Debug, PartialEq, Eq, Hash, Structural)]
pub enum HttpMethod {
    Get,
    Head,
    Post,
    Put,
    Delete,
    Options,
    Patch,
}

/// The canonical upper-case name of a method.
pub open spec fn spec_method_name(m: HttpMethod) -> Seq<char> {
    match m {
        HttpMethod::Get => "GET"@,
        HttpMethod::Head => "HEAD"@,
        HttpMethod::Post => "POST"@,
        HttpMethod::Put => "PUT"@,
        HttpMethod::Delete => "DELETE"@,
        HttpMethod::Options => "OPTIONS"@,
        HttpMethod::Patch => "PATCH"@,
    }
}

impl HttpMethod {
    /// The canonical upper-case name, as used in an `Allow` header.
    pub fn as_str(&self) -> (r: &'static str)
        ensures
            r@ == spec_method_name(*self),
    {
        match self {
            HttpMethod::Get => "GET",
            HttpMethod::Head => "HEAD",
            HttpMethod::Post => "POST",
            HttpMethod::Put => "PUT",
            HttpMethod::Delete => "DELETE",
            HttpMethod::Options => "OPTIONS",
            HttpMethod::Patch => "PATCH",
        }
    }

    /// Looks a method up by its canonical name.
    pub fn from_name(name: &str) -> (r: Option<HttpMethod>)
        ensures
            r matches Some(m) ==> name@ == spec_method_name(m),
            r is None ==> forall|m: HttpMethod| name@ != spec_method_name(m),
    {
        if crate::text::str_eq(name, "GET") {
            Some(HttpMethod::Get)
        } else if crate::text::str_eq(name, "HEAD") {
            Some(HttpMethod::Head)
        } else if crate::text::str_eq(name, "POST") {
            Some(HttpMethod::Post)
        } else if crate::text::str_eq(name, "PUT") {
            Some(HttpMethod::Put)
        } else if crate::text::str_eq(name, "DELETE") {
            Some(HttpMethod::Delete)
        } else if crate::text::str_eq(name, "OPTIONS") {
            Some(HttpMethod::Options)
        } else if crate::text::str_eq(name, "PATCH") {
            Some(HttpMethod::Patch)
        } else {
            None
        }
    }
}

/// Whether `ms` holds `m`.
pub open spec fn spec_contains_method(ms: Seq<HttpMethod>, m: HttpMethod) -> bool {
    exists|i: int| 0 <= i < ms.len() && ms[i] == m
}

/// Linear search through a method list.
pub fn contains_method(ms: &Vec<HttpMethod>, m: HttpMethod) -> (r: bool)
    ensures
        r == spec_contains_method(ms@, m),
{
    let mut i: usize = 0;
    while i < ms.len()
        invariant
            i <= ms@.len(),
            forall|j: int| 0 <= j < i ==> ms@[j] != m,
        decreases ms@.len() - i,
    {
        if ms[i] == m {
            return true;
        }
        i = i + 1;
    }
    false
}

} // verus!
