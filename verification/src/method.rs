use crate::error::Error;
use crate::text::str_eq;
use vstd::prelude::*;
use vstd::std_specs::convert::FromSpecImpl;

verus! {

/// The HTTP methods that a route can be registered for.
#[derive(Debug, Copy, Clone, PartialEq, Eq, Hash, Structural)]
pub enum Method {
    /// HTTP GET
    GET,
    /// HTTP HEAD
    HEAD,
    /// HTTP POST
    POST,
    /// HTTP PUT
    PUT,
    /// HTTP DELETE
    DELETE,
    /// HTTP PATCH
    PATCH,
    /// HTTP OPTIONS
    OPTIONS,
    /// HTTP TRACE
    TRACE,
}

/// The method with the given name, which is written in capitals.
pub open spec fn method_named(name: Seq<char>) -> Option<Method> {
    if name == "GET"@ {
        Some(Method::GET)
    } else if name == "HEAD"@ {
        Some(Method::HEAD)
    } else if name == "POST"@ {
        Some(Method::POST)
    } else if name == "PUT"@ {
        Some(Method::PUT)
    } else if name == "DELETE"@ {
        Some(Method::DELETE)
    } else if name == "PATCH"@ {
        Some(Method::PATCH)
    } else if name == "OPTIONS"@ {
        Some(Method::OPTIONS)
    } else if name == "TRACE"@ {
        Some(Method::TRACE)
    } else {
        None
    }
}

impl Method {
    /// The method with the given name, or the error that names what was
    /// given instead.
    pub fn from_name(s: &str) -> (method: Result<Method, Error>)
        ensures
            match method_named(s@) {
                Some(m) => method == Ok::<Method, Error>(m),
                None => method matches Err(Error::UnknownHTTPMethod(name)) && name@ == s@,
            },
    {
        if str_eq(s, "GET") {
            Ok(Method::GET)
        } else if str_eq(s, "HEAD") {
            Ok(Method::HEAD)
        } else if str_eq(s, "POST") {
            Ok(Method::POST)
        } else if str_eq(s, "PUT") {
            Ok(Method::PUT)
        } else if str_eq(s, "DELETE") {
            Ok(Method::DELETE)
        } else if str_eq(s, "PATCH") {
            Ok(Method::PATCH)
        } else if str_eq(s, "OPTIONS") {
            Ok(Method::OPTIONS)
        } else if str_eq(s, "TRACE") {
            Ok(Method::TRACE)
        } else {
            Err(Error::UnknownHTTPMethod(s.to_owned()))
        }
    }
}

impl std::str::FromStr for Method {
    type Err = Error;

    /// Converts a method name in capitals into a `Method`.
    fn from_str(s: &str) -> (method: Result<Self, Self::Err>)
        ensures
            match method_named(s@) {
                Some(m) => method == Ok::<Method, Error>(m),
                None => method matches Err(Error::UnknownHTTPMethod(name)) && name@ == s@,
            },
    {
        Method::from_name(s)
    }
}

impl From<&str> for Method {
    /// The method with the given name; a name that is not known counts as
    /// `GET`.
    fn from(s: &str) -> (method: Method) {
        match Method::from_name(s) {
            Ok(m) => m,
            Err(_) => Method::GET,
        }
    }
}

impl FromSpecImpl<&str> for Method {
    open spec fn obeys_from_spec() -> bool {
        true
    }

    open spec fn from_spec(s: &str) -> Method {
        match method_named(s@) {
            Some(m) => m,
            None => Method::GET,
        }
    }
}

} // verus!
