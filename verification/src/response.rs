use vstd::prelude::*;
use vstd::utf8::encode_utf8;
use crate::decimal::{dec_digits, usize_to_dec};
use crate::split::views_of;
use crate::strmap::StrMap;

verus! {

/// An HTTP response: status, headers and body, built by a handler or
/// by the router's own fallbacks.
pub struct Response {
    status: u16,
    headers: StrMap,
    body: Vec<u8>,
}

/// The headers a freshly built response carries: its content type and
/// the decimal length of its body.
pub open spec fn base_headers(ct: Seq<char>, len: nat) -> Map<Seq<char>, Seq<char>> {
    Map::<Seq<char>, Seq<char>>::empty().insert("Content-Type"@, ct).insert(
        "Content-Length"@,
        dec_digits(len),
    )
}

/// The comma-and-space join of the `Allow` header.
pub open spec fn join_comma(parts: Seq<Seq<char>>) -> Seq<char>
    decreases parts.len(),
{
    if parts.len() == 0 {
        Seq::<char>::empty()
    } else if parts.len() == 1 {
        parts[0]
    } else {
        join_comma(parts.drop_last()) + ", "@ + parts.last()
    }
}

fn join_comma_exec(parts: &Vec<String>) -> (r: String)
    ensures
        r@ == join_comma(views_of(parts@)),
{
    let mut r = String::new();
    let n = parts.len();
    let mut i: usize = 0;
    proof {
        assert(views_of(parts@).take(0) =~= Seq::<Seq<char>>::empty());
    }
    while i < n
        invariant
            i <= n,
            n == parts@.len(),
            r@ == join_comma(views_of(parts@).take(i as int)),
        decreases n - i,
    {
        if i > 0 {
            r.append(", ");
        }
        r.append(parts[i].as_str());
        proof {
            let vs = views_of(parts@);
            assert(vs.take(i + 1).drop_last() =~= vs.take(i as int));
            assert(vs.take(i + 1).last() == parts@[i as int]@);
            if i == 0 {
                assert(r@ =~= vs.take(1)[0]);
            }
        }
        i += 1;
    }
    proof {
        assert(views_of(parts@).take(n as int) =~= views_of(parts@));
    }
    r
}

/// The `Content-Length` of a freshly built response is the decimal
/// length of its body.
pub proof fn lemma_content_length_tracks_body(ct: Seq<char>, len: nat)
    ensures
        base_headers(ct, len)["Content-Length"@] == dec_digits(len),
        base_headers(ct, len)["Content-Type"@] == ct,
{
    reveal_strlit("Content-Type");
    reveal_strlit("Content-Length");
    assert(("Content-Type"@).len() != ("Content-Length"@).len());
}

impl Response {
    /// The status code.
    pub closed spec fn spec_status(&self) -> u16 {
        self.status
    }

    /// The header map.
    pub closed spec fn spec_headers(&self) -> Map<Seq<char>, Seq<char>> {
        self.headers@
    }

    /// The body bytes.
    pub closed spec fn spec_body(&self) -> Seq<u8> {
        self.body@
    }

    pub fn status_code(&self) -> (r: u16)
        ensures
            r == self.spec_status(),
    {
        self.status
    }

    pub fn headers(&self) -> (r: &StrMap)
        ensures
            r@ == self.spec_headers(),
    {
        &self.headers
    }

    pub fn body(&self) -> (r: &Vec<u8>)
        ensures
            r@ == self.spec_body(),
    {
        &self.body
    }

    pub fn into_parts(self) -> (r: (u16, StrMap, Vec<u8>))
        ensures
            r.0 == self.spec_status(),
            r.1@ == self.spec_headers(),
            r.2@ == self.spec_body(),
    {
        let Response { status, headers, body } = self;
        (status, headers, body)
    }

    fn build(status: u16, content_type: &str, body: Vec<u8>) -> (r: Response)
        ensures
            r.spec_status() == status,
            r.spec_headers() == base_headers(content_type@, body@.len() as nat),
            r.spec_body() == body@,
    {
        let len = body.len();
        let headers = StrMap::new().insert(
            String::from_str("Content-Type"),
            String::from_str(content_type),
        ).insert(String::from_str("Content-Length"), usize_to_dec(len));
        Response { status, headers, body }
    }

    /// A 200 response with a plain-text content type.
    pub fn ok(body: Vec<u8>) -> (r: Response)
        ensures
            r.spec_status() == 200,
            r.spec_headers() == base_headers("text/plain; charset=utf-8"@, body@.len() as nat),
            r.spec_body() == body@,
    {
        Self::build(200, "text/plain; charset=utf-8", body)
    }

    /// A 200 response framing an already serialized JSON payload.
    pub fn json_bytes(body: Vec<u8>) -> (r: Response)
        ensures
            r.spec_status() == 200,
            r.spec_headers() == base_headers("application/json"@, body@.len() as nat),
            r.spec_body() == body@,
    {
        Self::build(200, "application/json", body)
    }

    /// The 404 fallback.
    pub fn not_found() -> (r: Response)
        ensures
            r.spec_status() == 404,
            r.spec_headers() == base_headers(
                "text/plain; charset=utf-8"@,
                encode_utf8("Not Found"@).len(),
            ),
            r.spec_body() == encode_utf8("Not Found"@),
    {
        Self::build(404, "text/plain; charset=utf-8", "Not Found".as_bytes_vec())
    }

    /// The 405 fallback, advertising the allowed methods.
    pub fn method_not_allowed(allowed: &Vec<String>) -> (r: Response)
        ensures
            r.spec_status() == 405,
            r.spec_headers() == base_headers(
                "text/plain; charset=utf-8"@,
                encode_utf8("Method Not Allowed"@).len(),
            ).insert("Allow"@, join_comma(views_of(allowed@))),
            r.spec_body() == encode_utf8("Method Not Allowed"@),
    {
        let res = Self::build(
            405,
            "text/plain; charset=utf-8",
            "Method Not Allowed".as_bytes_vec(),
        );
        let Response { status, headers, body } = res;
        let headers = headers.insert(String::from_str("Allow"), join_comma_exec(allowed));
        Response { status, headers, body }
    }

    /// The 500 fallback for handlers that cannot produce a response.
    pub fn internal_error() -> (r: Response)
        ensures
            r.spec_status() == 500,
            r.spec_headers() == base_headers(
                "text/plain; charset=utf-8"@,
                encode_utf8("Internal Server Error"@).len(),
            ),
            r.spec_body() == encode_utf8("Internal Server Error"@),
    {
        Self::build(500, "text/plain; charset=utf-8", "Internal Server Error".as_bytes_vec())
    }

    /// Replaces the status code; a code outside `100..=999` is
    /// rejected and the response is handed back unchanged inside the
    /// error.
    pub fn status(self, status: u16) -> (r: Result<Response, &'static str>)
        ensures
            match r {
                Ok(resp) => 100 <= status <= 999 && resp.spec_status() == status
                    && resp.spec_headers() == self.spec_headers() && resp.spec_body()
                    == self.spec_body(),
                Err(m) => !(100 <= status <= 999) && m@
                    == "Invalid HTTP status code: must be between 100 and 999"@,
            },
    {
        if 100 <= status && status <= 999 {
            let Response { status: _, headers, body } = self;
            Ok(Response { status, headers, body })
        } else {
            Err("Invalid HTTP status code: must be between 100 and 999")
        }
    }

    /// Inserts (or replaces) one header.
    pub fn header(self, key: &str, value: &str) -> (r: Response)
        ensures
            r.spec_status() == self.spec_status(),
            r.spec_body() == self.spec_body(),
            r.spec_headers() == self.spec_headers().insert(key@, value@),
    {
        let Response { status, headers, body } = self;
        let headers = headers.insert(key.to_owned(), value.to_owned());
        Response { status, headers, body }
    }

    /// Empties the body and resets `Content-Length`, as a HEAD
    /// response requires; status and all other headers are kept.
    pub fn clear_body(self) -> (r: Response)
        ensures
            r.spec_status() == self.spec_status(),
            r.spec_body() == Seq::<u8>::empty(),
            r.spec_headers() == self.spec_headers().insert("Content-Length"@, dec_digits(0)),
    {
        let Response { status, headers, body: _ } = self;
        let headers = headers.insert(String::from_str("Content-Length"), usize_to_dec(0));
        let empty: Vec<u8> = Vec::new();
        proof {
            assert(empty@ =~= Seq::<u8>::empty());
        }
        Response { status, headers, body: empty }
    }
}

} // verus!
