//! The request methods that the parser knows.
use vstd::prelude::*;

use crate::text::str_eq;

verus! {

#[derive(Debug, PartialEq, Eq, Clone, Copy, Structural)]
pub enum Method {
    GET,
    DELETE,
    POST,
    PUT,
    HEAD,
    OPTIONS,
    TRACE,
    PATCH,
}

/// A method name that is none of the known ones.
#[derive(Debug)]
pub struct MethodError;

/// The method whose name is exactly `name` (upper case), if any.
pub open spec fn method_named(name: Seq<char>) -> Option<Method> {
    if name == "GET"@ {
        Some(Method::GET)
    } else if name == "DELETE"@ {
        Some(Method::DELETE)
    } else if name == "POST"@ {
        Some(Method::POST)
    } else if name == "PUT"@ {
        Some(Method::PUT)
    } else if name == "HEAD"@ {
        Some(Method::HEAD)
    } else if name == "OPTIONS"@ {
        Some(Method::OPTIONS)
    } else if name == "TRACE"@ {
        Some(Method::TRACE)
    } else if name == "PATCH"@ {
        Some(Method::PATCH)
    } else {
        None
    }
}

impl Method {
    /// Parses a method name; the names are case sensitive.
    pub fn from_name(name: &str) -> (r: Result<Method, MethodError>)
        ensures
            r is Ok <==> method_named(name@) is Some,
            r matches Ok(m) ==> method_named(name@) == Some(m),
    {
        if str_eq(name, "GET") {
            Ok(Method::GET)
        } else if str_eq(name, "DELETE") {
            Ok(Method::DELETE)
        } else if str_eq(name, "POST") {
            Ok(Method::POST)
        } else if str_eq(name, "PUT") {
            Ok(Method::PUT)
        } else if str_eq(name, "HEAD") {
            Ok(Method::HEAD)
        } else if str_eq(name, "OPTIONS") {
            Ok(Method::OPTIONS)
        } else if str_eq(name, "TRACE") {
            Ok(Method::TRACE)
        } else if str_eq(name, "PATCH") {
            Ok(Method::PATCH)
        } else {
            Err(MethodError)
        }
    }
}

impl std::str::FromStr for Method {
    type Err = MethodError;

    fn from_str(method: &str) -> (r: Result<Self, Self::Err>)
        ensures
            r is Ok <==> method_named(method@) is Some,
            r matches Ok(m) ==> method_named(method@) == Some(m),
    {
        Method::from_name(method)
    }
}

} // verus!
