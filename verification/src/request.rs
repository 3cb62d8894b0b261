use vstd::prelude::*;
use crate::method::HttpMethod;
use crate::strmap::StrMap;

verus! {

/// An inbound request, already decoded by the transport: method, path
/// (always `/`-prefixed), headers, body bytes and the query map.  The
/// path parameters are bound by the dispatcher during resolution.
pub struct Request {
    pub method: HttpMethod,
    pub path: String,
    pub headers: StrMap,
    pub body: Vec<u8>,
    pub params: StrMap,
    pub query: StrMap,
}

impl Request {
    /// The request path.
    pub fn path(&self) -> (r: &str)
        ensures
            r@ == self.path@,
    {
        self.path.as_str()
    }

    /// One bound path parameter.
    pub fn param(&self, key: &str) -> (r: Option<&str>)
        ensures
            match r {
                Some(v) => self.params@.contains_key(key@) && v@ == self.params@[key@],
                None => !self.params@.contains_key(key@),
            },
    {
        match self.params.get(key) {
            Some(s) => Some(s.as_str()),
            None => None,
        }
    }

    /// One query value.
    pub fn query(&self, key: &str) -> (r: Option<&str>)
        ensures
            match r {
                Some(v) => self.query@.contains_key(key@) && v@ == self.query@[key@],
                None => !self.query@.contains_key(key@),
            },
    {
        match self.query.get(key) {
            Some(s) => Some(s.as_str()),
            None => None,
        }
    }

    /// All bound path parameters.
    pub fn params(&self) -> (r: &StrMap)
        ensures
            r@ == self.params@,
    {
        &self.params
    }

    /// The whole query map.
    pub fn query_all(&self) -> (r: &StrMap)
        ensures
            r@ == self.query@,
    {
        &self.query
    }
}

} // verus!
