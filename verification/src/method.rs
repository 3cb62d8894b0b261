use vstd::prelude::*;

verus! {

/// The closed set of HTTP methods the router understands.
#[derive(Clone, Copy, Debug, PartialEq, Eq, Hash, Structural)]
pub enum HttpMethod {
    GET,
    POST,
    PUT,
    DELETE,
    PATCH,
    HEAD,
    OPTIONS,
}

/// ASCII upper-casing of a single character; anything outside `a..=z`
/// is kept as it is.
pub open spec fn upper_char(c: char) -> char {
    if 97 <= (c as u32) && (c as u32) <= 122 {
        (((c as u32) - 32) as u8) as char
    } else {
        c
    }
}

/// ASCII upper-casing of a character sequence.
pub open spec fn upper_seq(s: Seq<char>) -> Seq<char> {
    s.map_values(|c: char| upper_char(c))
}

/// The canonical (upper-case) token of a method, as it appears on the
/// wire and in the `Allow` header.
pub open spec fn method_token(m: HttpMethod) -> Seq<char> {
    match m {
        HttpMethod::GET => "GET"@,
        HttpMethod::POST => "POST"@,
        HttpMethod::PUT => "PUT"@,
        HttpMethod::DELETE => "DELETE"@,
        HttpMethod::PATCH => "PATCH"@,
        HttpMethod::HEAD => "HEAD"@,
        HttpMethod::OPTIONS => "OPTIONS"@,
    }
}

/// Case-insensitive parse of a method token; `None` for any token that
/// is not one of the seven methods.
pub open spec fn parse_method(s: Seq<char>) -> Option<HttpMethod> {
    if upper_seq(s) == "GET"@ {
        Some(HttpMethod::GET)
    } else if upper_seq(s) == "POST"@ {
        Some(HttpMethod::POST)
    } else if upper_seq(s) == "PUT"@ {
        Some(HttpMethod::PUT)
    } else if upper_seq(s) == "DELETE"@ {
        Some(HttpMethod::DELETE)
    } else if upper_seq(s) == "PATCH"@ {
        Some(HttpMethod::PATCH)
    } else if upper_seq(s) == "HEAD"@ {
        Some(HttpMethod::HEAD)
    } else if upper_seq(s) == "OPTIONS"@ {
        Some(HttpMethod::OPTIONS)
    } else {
        None
    }
}

fn upper_char_exec(c: char) -> (r: char)
    ensures
        r == upper_char(c),
{
    let x = c as u32;
    if 97 <= x && x <= 122 {
        ((x - 32) as u8) as char
    } else {
        c
    }
}

/// True exactly when upper-casing `a` yields `b` (so a case-insensitive
/// comparison of `a` against an already upper-case `b`).
fn eq_fold_upper(a: &str, b: &str) -> (r: bool)
    ensures
        r == (upper_seq(a@) == b@),
{
    let alen = a.unicode_len();
    let blen = b.unicode_len();
    if alen != blen {
        proof {
            assert(upper_seq(a@).len() != b@.len());
        }
        return false;
    }
    let mut i: usize = 0;
    while i < alen
        invariant
            i <= alen,
            alen == a@.len(),
            alen == b@.len(),
            forall|j: int| 0 <= j < i ==> upper_char(a@[j]) == b@[j],
        decreases alen - i,
    {
        let ca = a.get_char(i);
        let cb = b.get_char(i);
        if upper_char_exec(ca) != cb {
            proof {
                assert(upper_seq(a@)[i as int] != b@[i as int]);
            }
            return false;
        }
        i += 1;
    }
    proof {
        assert(upper_seq(a@) =~= b@);
    }
    true
}

impl HttpMethod {
    /// Case-insensitive textual parse; yields `None` on any token other
    /// than the seven recognized methods.
    pub fn from(method: &str) -> (r: Option<HttpMethod>)
        ensures
            r == parse_method(method@),
    {
        if eq_fold_upper(method, "GET") {
            Some(HttpMethod::GET)
        } else if eq_fold_upper(method, "POST") {
            Some(HttpMethod::POST)
        } else if eq_fold_upper(method, "PUT") {
            Some(HttpMethod::PUT)
        } else if eq_fold_upper(method, "DELETE") {
            Some(HttpMethod::DELETE)
        } else if eq_fold_upper(method, "PATCH") {
            Some(HttpMethod::PATCH)
        } else if eq_fold_upper(method, "HEAD") {
            Some(HttpMethod::HEAD)
        } else if eq_fold_upper(method, "OPTIONS") {
            Some(HttpMethod::OPTIONS)
        } else {
            None
        }
    }

    /// The canonical upper-case token of this method.
    pub fn name(&self) -> (r: String)
        ensures
            r@ == method_token(*self),
    {
        match self {
            HttpMethod::GET => String::from_str("GET"),
            HttpMethod::POST => String::from_str("POST"),
            HttpMethod::PUT => String::from_str("PUT"),
            HttpMethod::DELETE => String::from_str("DELETE"),
            HttpMethod::PATCH => String::from_str("PATCH"),
            HttpMethod::HEAD => String::from_str("HEAD"),
            HttpMethod::OPTIONS => String::from_str("OPTIONS"),
        }
    }
}

} // verus!
