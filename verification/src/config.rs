//! Presentation constants the core decides on: the CSS badge class shown
//! next to a method name.

use vstd::prelude::*;
use crate::strings::str_eq;

verus! {

/// The badge class a method name is styled with; unknown names fall back to
/// the default badge.
pub open spec fn badge_class(method: Seq<char>) -> Seq<char> {
    if method == "GET"@ {
        "badge-get"@
    } else if method == "POST"@ {
        "badge-post"@
    } else if method == "PATCH"@ {
        "badge-patch"@
    } else if method == "PUT"@ {
        "badge-put"@
    } else if method == "DELETE"@ {
        "badge-delete"@
    } else {
        "badge-default"@
    }
}

/// The CSS badge class for a method name.
pub fn get_badge_class(method: &str) -> (r: &'static str)
    ensures
        r@ == badge_class(method@),
{
    if str_eq(method, "GET") {
        "badge-get"
    } else if str_eq(method, "POST") {
        "badge-post"
    } else if str_eq(method, "PATCH") {
        "badge-patch"
    } else if str_eq(method, "PUT") {
        "badge-put"
    } else if str_eq(method, "DELETE") {
        "badge-delete"
    } else {
        "badge-default"
    }
}

} // verus!
