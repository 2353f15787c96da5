use vstd::prelude::*;

verus! {

/// The closed set of HTTP methods a request can use.
///
/// The enum is bidirectionally convertible to a stable ordinal index
/// (`0..=4`) and to its canonical uppercase name; both mappings are total
/// and fixed.
#[derive(Clone, Copy, Debug, PartialEq, Eq, Structural)]
pub enum Method {
    GET,
    POST,
    PUT,
    PATCH,
    DELETE,
}

/// Canonical uppercase name of a method.
pub open spec fn method_name(m: Method) -> Seq<char> {
    match m {
        Method::GET => "GET"@,
        Method::POST => "POST"@,
        Method::PUT => "PUT"@,
        Method::PATCH => "PATCH"@,
        Method::DELETE => "DELETE"@,
    }
}

/// Stable ordinal of a method.
pub open spec fn method_index(m: Method) -> u32 {
    match m {
        Method::GET => 0,
        Method::POST => 1,
        Method::PUT => 2,
        Method::PATCH => 3,
        Method::DELETE => 4,
    }
}

/// Method denoted by an ordinal; any ordinal outside `0..=4` falls back
/// to `GET`.
pub open spec fn method_of_index(index: u32) -> Method {
    if index == 1 {
        Method::POST
    } else if index == 2 {
        Method::PUT
    } else if index == 3 {
        Method::PATCH
    } else if index == 4 {
        Method::DELETE
    } else {
        Method::GET
    }
}

/// The method denoted by a canonical uppercase name, or an error for any
/// other text.
pub open spec fn parse_method_name(s: Seq<char>) -> Result<Method, ()> {
    if s == "GET"@ {
        Ok(Method::GET)
    } else if s == "POST"@ {
        Ok(Method::POST)
    } else if s == "PUT"@ {
        Ok(Method::PUT)
    } else if s == "PATCH"@ {
        Ok(Method::PATCH)
    } else if s == "DELETE"@ {
        Ok(Method::DELETE)
    } else {
        Err(())
    }
}

impl Method {
    /// Parses a canonical uppercase method name; any other text is refused.
    pub fn from_str(s: &str) -> (r: Result<Method, ()>)
        ensures
            r == parse_method_name(s@),
    {
        if crate::strings::str_eq(s, "GET") {
            Ok(Method::GET)
        } else if crate::strings::str_eq(s, "POST") {
            Ok(Method::POST)
        } else if crate::strings::str_eq(s, "PUT") {
            Ok(Method::PUT)
        } else if crate::strings::str_eq(s, "PATCH") {
            Ok(Method::PATCH)
        } else if crate::strings::str_eq(s, "DELETE") {
            Ok(Method::DELETE)
        } else {
            Err(())
        }
    }

    /// Canonical uppercase string of this method.
    pub fn as_str(&self) -> (r: &'static str)
        ensures
            r@ == method_name(*self),
    {
        match self {
            Method::GET => "GET",
            Method::POST => "POST",
            Method::PUT => "PUT",
            Method::PATCH => "PATCH",
            Method::DELETE => "DELETE",
        }
    }

    /// Method selected by an ordinal index; out-of-range indices fall back
    /// to `GET`.
    pub fn from_index(index: u32) -> (r: Self)
        ensures
            r == method_of_index(index),
    {
        match index {
            0 => Method::GET,
            1 => Method::POST,
            2 => Method::PUT,
            3 => Method::PATCH,
            4 => Method::DELETE,
            _ => Method::GET,
        }
    }

    /// Stable ordinal index of this method.
    pub fn to_index(&self) -> (r: u32)
        ensures
            r == method_index(*self),
            r <= 4,
    {
        match self {
            Method::GET => 0,
            Method::POST => 1,
            Method::PUT => 2,
            Method::PATCH => 3,
            Method::DELETE => 4,
        }
    }
}

/// The index mapping is a bijection on `0..=4`: converting a method to its
/// ordinal and back yields the same method.
pub proof fn lemma_method_index_round_trip(m: Method)
    ensures
        method_of_index(method_index(m)) == m,
{
}

} // verus!
