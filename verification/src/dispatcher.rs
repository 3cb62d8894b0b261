use vstd::prelude::*;
use crate::codec::{decode_component, decoded};
use crate::decimal::dec_digits;
use crate::method::HttpMethod;
use crate::request::Request;
use crate::response::{base_headers, join_comma, Response};
use crate::router::{allow_list, allow_tokens, MethodTable, Router};
use crate::split::{split_char, split_str, views_of};
use crate::strmap::StrMap;
use vstd::utf8::encode_utf8;

verus! {

/// Path normalization: one trailing slash is dropped unless the path
/// is exactly `/`.
pub open spec fn norm_path(p: Seq<char>) -> Seq<char> {
    if p.len() > 1 && p.last() == '/' {
        p.drop_last()
    } else {
        p
    }
}

/// Strips a trailing slash from any path other than `/` itself.
pub fn normalize_path(path: &str) -> (r: String)
    ensures
        r@ == norm_path(path@),
{
    let n = path.unicode_len();
    if n > 1 && path.get_char(n - 1) == '/' {
        let s = path.substring_char(0, n - 1).to_owned();
        proof {
            assert(s@ =~= path@.drop_last());
        }
        s
    } else {
        path.to_owned()
    }
}

/// Matching a split pattern against split path segments, position by
/// position: a `:name` segment binds the decoded concrete segment, a
/// literal segment must agree exactly, and the segment counts must be
/// equal.  `None` on any disagreement.
pub open spec fn match_segs(pat: Seq<Seq<char>>, segs: Seq<Seq<char>>) -> Option<
    Map<Seq<char>, Seq<char>>,
>
    decreases pat.len(),
{
    if pat.len() != segs.len() {
        None
    } else if pat.len() == 0 {
        Some(Map::<Seq<char>, Seq<char>>::empty())
    } else {
        match match_segs(pat.drop_last(), segs.drop_last()) {
            None => None,
            Some(m) => {
                let p = pat.last();
                let s = segs.last();
                if p.len() > 0 && p[0] == ':' {
                    Some(m.insert(p.drop_first(), decoded(s)))
                } else if p == s {
                    Some(m)
                } else {
                    None
                }
            },
        }
    }
}

/// Matching a full pattern against a normalized path, both split at
/// every `/`.
pub open spec fn pattern_match(pattern: Seq<char>, path: Seq<char>) -> Option<
    Map<Seq<char>, Seq<char>>,
> {
    match_segs(split_char(pattern, '/'), split_char(path, '/'))
}

proof fn lemma_match_none(pat: Seq<Seq<char>>, segs: Seq<Seq<char>>, i: int)
    requires
        pat.len() == segs.len(),
        0 <= i < pat.len(),
        !(pat[i].len() > 0 && pat[i][0] == ':'),
        pat[i] != segs[i],
    ensures
        match_segs(pat, segs) is None,
    decreases pat.len(),
{
    if i == pat.len() - 1 {
    } else {
        let pd = pat.drop_last();
        let sd = segs.drop_last();
        assert(pd[i] == pat[i]);
        assert(sd[i] == segs[i]);
        lemma_match_none(pd, sd, i);
    }
}

/// The three outcomes of resolution.
pub enum Resolution {
    Found { handler: u64, params: Map<Seq<char>, Seq<char>>, middlewares: Seq<u64> },
    NotAllowed { allowed: Seq<Seq<char>> },
    Missed,
}

/// The method the handler table is consulted with: HEAD falls back to
/// GET when no HEAD handler is registered at the node.
pub open spec fn effective_method(t: MethodTable, m: HttpMethod) -> HttpMethod {
    if m == HttpMethod::HEAD && t.head is None {
        HttpMethod::GET
    } else {
        m
    }
}

/// What one node alone concludes about a request, given the composed
/// pattern `full` of the node and the middleware inherited from its
/// ancestors: a handler, a method-not-allowed verdict, or nothing
/// (the node does not match, or matches but registers no handler at
/// all).
pub open spec fn node_outcome(
    route: Router,
    method: HttpMethod,
    path: Seq<char>,
    full: Seq<char>,
    inherited: Seq<u64>,
) -> Resolution {
    match pattern_match(full, path) {
        Some(params) => {
            match route.handlers.spec_lookup(effective_method(route.handlers, method)) {
                Some(h) => Resolution::Found {
                    handler: h,
                    params: params,
                    middlewares: inherited + route.middlewares@,
                },
                None => {
                    if !route.handlers.spec_is_empty() {
                        Resolution::NotAllowed { allowed: allow_tokens(route.handlers) }
                    } else {
                        Resolution::Missed
                    }
                },
            }
        },
        None => Resolution::Missed,
    }
}

/// The prefix a node hands to its children: its own composed pattern,
/// with a trailing slash dropped.  Children's patterns are themselves
/// `/`-prefixed, so without this a root pattern of `/` would compose
/// with a child into a double slash, which no path can match.
pub open spec fn child_prefix(full: Seq<char>) -> Seq<char> {
    if full.len() > 0 && full.last() == '/' {
        full.drop_last()
    } else {
        full
    }
}

/// The resolution of a request against a node: the node's own verdict
/// if it has one, otherwise the first non-miss among its children, in
/// registration order, each tried with the composed prefix and with
/// the middleware inherited so far plus this node's own.
pub open spec fn resolve_spec(
    route: Router,
    method: HttpMethod,
    path: Seq<char>,
    prefix: Seq<char>,
    inherited: Seq<u64>,
) -> Resolution
    decreases route, 1int, 0int,
{
    let full = prefix + route.path@;
    let node = node_outcome(route, method, path, full, inherited);
    if node is Missed {
        resolve_children(route, 0, method, path, child_prefix(full), inherited + route.middlewares@)
    } else {
        node
    }
}

/// The first non-miss resolution among the children of `route` from
/// index `i` on, each tried with the prefix the parent hands down.
pub open spec fn resolve_children(
    route: Router,
    i: int,
    method: HttpMethod,
    path: Seq<char>,
    prefix: Seq<char>,
    mws: Seq<u64>,
) -> Resolution
    decreases route, 0int, route.children@.len() - i,
{
    if i < 0 || i >= route.children@.len() {
        Resolution::Missed
    } else {
        let r = resolve_spec(route.children@[i], method, path, prefix, mws);
        if r is Missed {
            resolve_children(route, i + 1, method, path, prefix, mws)
        } else {
            r
        }
    }
}

pub(crate) proof fn lemma_children_skip(
    route: Router,
    i: int,
    k: int,
    method: HttpMethod,
    path: Seq<char>,
    prefix: Seq<char>,
    mws: Seq<u64>,
)
    requires
        0 <= i <= k <= route.children@.len(),
        forall|j: int|
            i <= j < k ==> resolve_spec(#[trigger] route.children@[j], method, path, prefix, mws)
                is Missed,
    ensures
        resolve_children(route, i, method, path, prefix, mws) == resolve_children(
            route,
            k,
            method,
            path,
            prefix,
            mws,
        ),
    decreases k - i,
{
    if i < k {
        lemma_children_skip(route, i + 1, k, method, path, prefix, mws);
    }
}

fn child_prefix_str(full: &str) -> (r: String)
    ensures
        r@ == child_prefix(full@),
{
    let n = full.unicode_len();
    if n > 0 && full.get_char(n - 1) == '/' {
        let s = full.substring_char(0, n - 1).to_owned();
        proof {
            assert(s@ =~= full@.drop_last());
        }
        s
    } else {
        full.to_owned()
    }
}

/// The resolution a dispatcher run reports.
pub enum ResolveResult {
    Found(u64, StrMap, Vec<u64>),
    MethodNotAllowed(Vec<String>),
    NotFound,
}

/// The exec resolution carries exactly the model resolution.
pub open spec fn resolution_matches(r: ResolveResult, m: Resolution) -> bool {
    match (r, m) {
        (
            ResolveResult::Found(h, p, mw),
            Resolution::Found { handler, params, middlewares },
        ) => h == handler && p@ == params && mw@ == middlewares,
        (ResolveResult::MethodNotAllowed(a), Resolution::NotAllowed { allowed }) => views_of(a@)
            == allowed,
        (ResolveResult::NotFound, Resolution::Missed) => true,
        _ => false,
    }
}

fn concat_ids(a: &Vec<u64>, b: &Vec<u64>) -> (r: Vec<u64>)
    ensures
        r@ == a@ + b@,
{
    let mut r: Vec<u64> = Vec::new();
    let mut i: usize = 0;
    proof {
        assert(r@ =~= a@.take(0));
    }
    while i < a.len()
        invariant
            i <= a@.len(),
            r@ == a@.take(i as int),
        decreases a@.len() - i,
    {
        r.push(a[i]);
        proof {
            assert(r@ =~= a@.take(i + 1));
        }
        i += 1;
    }
    let mut j: usize = 0;
    proof {
        assert(r@ =~= a@ + b@.take(0));
    }
    while j < b.len()
        invariant
            j <= b@.len(),
            r@ == a@ + b@.take(j as int),
        decreases b@.len() - j,
    {
        r.push(b[j]);
        proof {
            assert(r@ =~= a@ + b@.take(j + 1));
        }
        j += 1;
    }
    proof {
        assert(a@ + b@.take(b@.len() as int) =~= a@ + b@);
    }
    r
}

/// What the dispatcher hands back for one request: either a handler
/// to invoke, with the middleware chain and the request carrying its
/// bound parameters, or a finished fallback response.
pub enum Dispatch {
    Invoke { handler: u64, middlewares: Vec<u64>, request: Request },
    Done { response: Response },
}

/// The resolution engine over a route tree.
pub struct Dispatcher {
    pub root: Router,
}

impl Dispatcher {
    pub fn new(root: Router) -> (r: Dispatcher)
        ensures
            r.root == root,
    {
        Dispatcher { root }
    }

    /// Matches a composed pattern against a normalized path; `Some`
    /// holds the parameter bindings, decoded.
    pub fn match_path(&self, pattern: &str, path: &str) -> (r: Option<StrMap>)
        ensures
            r.is_some() == pattern_match(pattern@, path@).is_some(),
            (match r {
                Some(m) => m@ == pattern_match(pattern@, path@).unwrap(),
                None => true,
            }),
    {
        let pat = split_str(pattern, '/');
        let segs = split_str(path, '/');
        let ghost vp = views_of(pat@);
        let ghost vs = views_of(segs@);
        if pat.len() != segs.len() {
            return None;
        }
        let n = pat.len();
        let mut m = StrMap::new();
        let mut i: usize = 0;
        proof {
            assert(vp.take(0) =~= Seq::<Seq<char>>::empty());
            assert(vs.take(0) =~= Seq::<Seq<char>>::empty());
        }
        while i < n
            invariant
                i <= n,
                n == pat@.len(),
                n == segs@.len(),
                vp == views_of(pat@),
                vs == views_of(segs@),
                vp == split_char(pattern@, '/'),
                vs == split_char(path@, '/'),
                match_segs(vp.take(i as int), vs.take(i as int)) is Some,
                m@ == match_segs(vp.take(i as int), vs.take(i as int)).unwrap(),
            decreases n - i,
        {
            let p = &pat[i];
            let plen = p.as_str().unicode_len();
            proof {
                assert(vp.take(i + 1).drop_last() =~= vp.take(i as int));
                assert(vs.take(i + 1).drop_last() =~= vs.take(i as int));
                assert(vp.take(i + 1).last() == pat@[i as int]@);
                assert(vs.take(i + 1).last() == segs@[i as int]@);
            }
            if plen > 0 && p.as_str().get_char(0) == ':' {
                let name = p.as_str().substring_char(1, plen).to_owned();
                let val = decode_component(segs[i].as_str());
                proof {
                    assert(name@ =~= pat@[i as int]@.drop_first());
                }
                m = m.insert(name, val);
            } else {
                if !(pat[i] == segs[i]) {
                    proof {
                        lemma_match_none(vp, vs, i as int);
                    }
                    return None;
                }
            }
            i += 1;
        }
        proof {
            assert(vp.take(n as int) =~= vp);
            assert(vs.take(n as int) =~= vs);
        }
        Some(m)
    }

    /// The recursive walk: this node first, then the children in
    /// order, with composed prefix and accumulated middleware.
    pub fn resolve(&self, route: &Router, req: &Request, prefix: &str, inherited: &Vec<u64>) -> (r:
        ResolveResult)
        ensures
            resolution_matches(
                r,
                resolve_spec(*route, req.method, req.path@, prefix@, inherited@),
            ),
        decreases route,
    {
        let full: String = prefix.to_owned().concat(route.path.as_str());
        let ghost fullv = prefix@ + route.path@;
        match self.match_path(full.as_str(), req.path.as_str()) {
            Some(params) => {
                let em = if req.method == HttpMethod::HEAD && route.handlers.head.is_none() {
                    HttpMethod::GET
                } else {
                    req.method
                };
                proof {
                    assert(em == effective_method(route.handlers, req.method));
                }
                match route.handlers.lookup(em) {
                    Some(h) => {
                        return ResolveResult::Found(
                            h,
                            params,
                            concat_ids(inherited, &route.middlewares),
                        );
                    },
                    None => {
                        if route.handlers.any() {
                            return ResolveResult::MethodNotAllowed(
                                allow_list(&route.handlers),
                            );
                        }
                    },
                }
            },
            None => {},
        }
        let mws = concat_ids(inherited, &route.middlewares);
        let cp = child_prefix_str(full.as_str());
        let n = route.children.len();
        let mut i: usize = 0;
        while i < n
            invariant
                i <= n,
                n == route.children@.len(),
                fullv == prefix@ + route.path@,
                cp@ == child_prefix(fullv),
                mws@ == inherited@ + route.middlewares@,
                node_outcome(*route, req.method, req.path@, fullv, inherited@) is Missed,
                forall|j: int|
                    0 <= j < i ==> resolve_spec(
                        #[trigger] route.children@[j],
                        req.method,
                        req.path@,
                        child_prefix(fullv),
                        mws@,
                    ) is Missed,
            decreases n - i,
        {
            let child_r = self.resolve(&route.children[i], req, cp.as_str(), &mws);
            match child_r {
                ResolveResult::NotFound => {
                    i += 1;
                },
                other => {
                    proof {
                        lemma_children_skip(
                            *route,
                            0,
                            i as int,
                            req.method,
                            req.path@,
                            child_prefix(fullv),
                            mws@,
                        );
                    }
                    return other;
                },
            }
        }
        proof {
            lemma_children_skip(*route, 0, n as int, req.method, req.path@, child_prefix(fullv), mws@);
        }
        ResolveResult::NotFound
    }

    /// Resolves one request against the tree: normalizes the path,
    /// walks the tree, and either names the handler to invoke (with
    /// the parameters bound on the request and the middleware chain in
    /// ancestor-first order) or finishes with the 404 or 405 fallback.
    pub fn dispatch(&self, req: Request) -> (r: Dispatch)
        ensures
            ({
                let res = resolve_spec(
                    self.root,
                    req.method,
                    norm_path(req.path@),
                    Seq::<char>::empty(),
                    Seq::<u64>::empty(),
                );
                match r {
                    Dispatch::Invoke { handler, middlewares, request } => res == (
                    Resolution::Found {
                        handler: handler,
                        params: request.params@,
                        middlewares: middlewares@,
                    }) && request.method == req.method && request.path@ == norm_path(req.path@)
                        && request.headers@ == req.headers@ && request.body@ == req.body@
                        && request.query@ == req.query@,
                    Dispatch::Done { response } => match res {
                        Resolution::Found { .. } => false,
                        Resolution::NotAllowed { allowed } => response.spec_status() == 405
                            && response.spec_body() == encode_utf8("Method Not Allowed"@)
                            && response.spec_headers() == base_headers(
                            "text/plain; charset=utf-8"@,
                            encode_utf8("Method Not Allowed"@).len(),
                        ).insert("Allow"@, join_comma(allowed)),
                        Resolution::Missed => response.spec_status() == 404
                            && response.spec_body() == encode_utf8("Not Found"@)
                            && response.spec_headers() == base_headers(
                            "text/plain; charset=utf-8"@,
                            encode_utf8("Not Found"@).len(),
                        ),
                    },
                }
            }),
    {
        let normalized = normalize_path(req.path.as_str());
        let Request { method, path: _, headers, body, params: _, query } = req;
        let req2 = Request {
            method,
            path: normalized,
            headers,
            body,
            params: StrMap::new(),
            query,
        };
        let empty_prefix = String::new();
        let no_mw: Vec<u64> = Vec::new();
        proof {
            assert(no_mw@ =~= Seq::<u64>::empty());
        }
        match self.resolve(&self.root, &req2, empty_prefix.as_str(), &no_mw) {
            ResolveResult::Found(handler, params, middlewares) => {
                let Request { method, path, headers, body, params: _, query } = req2;
                let request = Request { method, path, headers, body, params, query };
                Dispatch::Invoke { handler, middlewares, request }
            },
            ResolveResult::MethodNotAllowed(allowed) => Dispatch::Done {
                response: Response::method_not_allowed(&allowed),
            },
            ResolveResult::NotFound => Dispatch::Done { response: Response::not_found() },
        }
    }

    /// The HEAD finalization step: a response to a HEAD request loses
    /// its body and has `Content-Length` reset; every other request
    /// passes the response through untouched.
    pub fn finalize(method: HttpMethod, response: Response) -> (r: Response)
        ensures
            method == HttpMethod::HEAD ==> r.spec_status() == response.spec_status()
                && r.spec_body() == Seq::<u8>::empty() && r.spec_headers()
                == response.spec_headers().insert("Content-Length"@, dec_digits(0)),
            method != HttpMethod::HEAD ==> r == response,
    {
        if method == HttpMethod::HEAD {
            response.clear_body()
        } else {
            response
        }
    }
}

} // verus!
