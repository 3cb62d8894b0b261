//! Properties of the resolution model that cut across several
//! functions: normalization, HEAD aliasing, the method-not-allowed
//! verdict, middleware ordering and parameter binding.

use vstd::prelude::*;
use crate::codec::decoded;
use crate::dispatcher::{
    child_prefix, effective_method, match_segs, node_outcome, norm_path, pattern_match,
    resolve_children, resolve_spec, Resolution,
};
use crate::method::HttpMethod;
use crate::router::{allow_tokens, MethodTable, Router};

verus! {

/// Normalization is idempotent: stripping a trailing slash once
/// leaves nothing more to strip.  A path that ends in two slashes is
/// the one exception (only its outermost slash is ever stripped), so
/// such paths are left out.
pub proof fn lemma_norm_idempotent(p: Seq<char>)
    requires
        !(p.len() > 2 && p[p.len() - 1] == '/' && p[p.len() - 2] == '/'),
    ensures
        norm_path(norm_path(p)) == norm_path(p),
{
    if p.len() > 1 && p.last() == '/' {
        let d = p.drop_last();
        if d.len() > 1 {
            assert(d.last() == p[p.len() - 2]);
        }
    }
}

/// A trailing slash added to a path that does not already end in one
/// normalizes away: both forms resolve from the same normalized path.
pub proof fn lemma_norm_trailing_slash(q: Seq<char>)
    requires
        q.len() >= 1,
        q.last() != '/',
    ensures
        norm_path(q.push('/')) == q,
        norm_path(q) == q,
{
    assert(q.push('/').last() == '/');
    assert(q.push('/').drop_last() =~= q);
}

/// Requesting a path with a trailing slash resolves identically to
/// requesting the path without it, for any path that does not already
/// end in a slash.
pub proof fn lemma_trailing_slash_resolves_identically(
    route: Router,
    method: HttpMethod,
    q: Seq<char>,
)
    requires
        q.len() >= 1,
        q.last() != '/',
    ensures
        resolve_spec(route, method, norm_path(q.push('/')), Seq::<char>::empty(), Seq::<u64>::empty())
            == resolve_spec(route, method, norm_path(q), Seq::<char>::empty(), Seq::<u64>::empty()),
{
    lemma_norm_trailing_slash(q);
}

/// A HEAD request to a node without a HEAD handler looks the GET
/// handler up.
pub proof fn lemma_head_uses_get(t: MethodTable)
    requires
        t.head is None,
    ensures
        effective_method(t, HttpMethod::HEAD) == HttpMethod::GET,
        t.spec_lookup(effective_method(t, HttpMethod::HEAD)) == t.get,
{
}

/// A request whose method is registered at a matching node resolves,
/// at that node, to the registered handler, with the parameters the
/// pattern binds and the inherited middleware followed by the node's
/// own.
pub proof fn lemma_registered_resolves(
    route: Router,
    method: HttpMethod,
    path: Seq<char>,
    prefix: Seq<char>,
    inherited: Seq<u64>,
)
    requires
        pattern_match(prefix + route.path@, path) is Some,
        route.handlers.spec_lookup(method) is Some,
    ensures
        resolve_spec(route, method, path, prefix, inherited) == (Resolution::Found {
            handler: route.handlers.spec_lookup(method).unwrap(),
            params: pattern_match(prefix + route.path@, path).unwrap(),
            middlewares: inherited + route.middlewares@,
        }),
{
    let em = effective_method(route.handlers, method);
    if method == HttpMethod::HEAD {
        assert(route.handlers.head is Some);
        assert(em == method);
    }
}

/// A matching node that registers handlers, but none for the
/// effective method, answers method-not-allowed with exactly its
/// advertised tokens; children are never consulted.
pub proof fn lemma_method_not_allowed_at_node(
    route: Router,
    method: HttpMethod,
    path: Seq<char>,
    prefix: Seq<char>,
    inherited: Seq<u64>,
)
    requires
        pattern_match(prefix + route.path@, path) is Some,
        route.handlers.spec_lookup(effective_method(route.handlers, method)) is None,
        !route.handlers.spec_is_empty(),
    ensures
        resolve_spec(route, method, path, prefix, inherited) == (Resolution::NotAllowed {
            allowed: allow_tokens(route.handlers),
        }),
{
}

/// A request that matches no node at all misses: nothing in an empty
/// tree resolves.
pub proof fn lemma_no_match_misses(
    route: Router,
    method: HttpMethod,
    path: Seq<char>,
    prefix: Seq<char>,
    inherited: Seq<u64>,
)
    requires
        pattern_match(prefix + route.path@, path) is None,
        route.children@.len() == 0,
    ensures
        resolve_spec(route, method, path, prefix, inherited) is Missed,
{
}

/// Middleware inherited from the ancestors stands, in order, at the
/// front of every resolved chain; whatever the matched node and its
/// subtree attach comes after it.  Ancestor middleware therefore runs
/// before descendant middleware when the chain is invoked front to
/// back.
pub proof fn lemma_inherited_prefix(
    route: Router,
    method: HttpMethod,
    path: Seq<char>,
    prefix: Seq<char>,
    inherited: Seq<u64>,
)
    ensures
        (match resolve_spec(route, method, path, prefix, inherited) {
            Resolution::Found { middlewares, .. } => inherited.is_prefix_of(middlewares),
            _ => true,
        }),
    decreases route, 1int, 0int,
{
    let full = prefix + route.path@;
    let node = node_outcome(route, method, path, full, inherited);
    if node is Missed {
        assert(inherited.is_prefix_of(inherited + route.middlewares@)) by {
            assert((inherited + route.middlewares@).subrange(0, inherited.len() as int)
                =~= inherited);
        }
        lemma_inherited_prefix_children(
            route,
            0,
            method,
            path,
            child_prefix(full),
            inherited + route.middlewares@,
            inherited,
        );
    } else {
        match node {
            Resolution::Found { middlewares, .. } => {
                assert(middlewares.subrange(0, inherited.len() as int) =~= inherited);
            },
            _ => {},
        }
    }
}

proof fn lemma_inherited_prefix_children(
    route: Router,
    i: int,
    method: HttpMethod,
    path: Seq<char>,
    prefix: Seq<char>,
    mws: Seq<u64>,
    inherited: Seq<u64>,
)
    requires
        inherited.is_prefix_of(mws),
    ensures
        (match resolve_children(route, i, method, path, prefix, mws) {
            Resolution::Found { middlewares, .. } => inherited.is_prefix_of(middlewares),
            _ => true,
        }),
    decreases route, 0int, route.children@.len() - i,
{
    if 0 <= i < route.children@.len() {
        lemma_inherited_prefix(route.children@[i], method, path, prefix, mws);
        match resolve_spec(route.children@[i], method, path, prefix, mws) {
            Resolution::Found { middlewares, .. } => {
                assert(inherited.is_prefix_of(middlewares)) by {
                    assert(mws.subrange(0, mws.len() as int) =~= mws);
                    assert(middlewares.subrange(0, mws.len() as int).subrange(
                        0,
                        inherited.len() as int,
                    ) =~= middlewares.subrange(0, inherited.len() as int));
                }
            },
            _ => {
                lemma_inherited_prefix_children(route, i + 1, method, path, prefix, mws, inherited);
            },
        }
    }
}

/// Strict lexicographic order on character sequences, by code point.
pub open spec fn lex_lt(a: Seq<char>, b: Seq<char>) -> bool
    decreases a.len(),
{
    if b.len() == 0 {
        false
    } else if a.len() == 0 {
        true
    } else if (a[0] as u32) < (b[0] as u32) {
        true
    } else if a[0] == b[0] {
        lex_lt(a.drop_first(), b.drop_first())
    } else {
        false
    }
}

proof fn lemma_method_tokens_order()
    ensures
        lex_lt("DELETE"@, "GET"@),
        lex_lt("DELETE"@, "HEAD"@),
        lex_lt("DELETE"@, "OPTIONS"@),
        lex_lt("DELETE"@, "PATCH"@),
        lex_lt("DELETE"@, "POST"@),
        lex_lt("DELETE"@, "PUT"@),
        lex_lt("GET"@, "HEAD"@),
        lex_lt("GET"@, "OPTIONS"@),
        lex_lt("GET"@, "PATCH"@),
        lex_lt("GET"@, "POST"@),
        lex_lt("GET"@, "PUT"@),
        lex_lt("HEAD"@, "OPTIONS"@),
        lex_lt("HEAD"@, "PATCH"@),
        lex_lt("HEAD"@, "POST"@),
        lex_lt("HEAD"@, "PUT"@),
        lex_lt("OPTIONS"@, "PATCH"@),
        lex_lt("OPTIONS"@, "POST"@),
        lex_lt("OPTIONS"@, "PUT"@),
        lex_lt("PATCH"@, "POST"@),
        lex_lt("PATCH"@, "PUT"@),
        lex_lt("POST"@, "PUT"@),
{
    reveal_strlit("DELETE");
    reveal_strlit("GET");
    reveal_strlit("HEAD");
    reveal_strlit("OPTIONS");
    reveal_strlit("PATCH");
    reveal_strlit("POST");
    reveal_strlit("PUT");
    assert(lex_lt("PATCH"@, "POST"@)) by {
        assert(lex_lt("PATCH"@.drop_first(), "POST"@.drop_first()));
    }
    assert(lex_lt("PATCH"@, "PUT"@)) by {
        assert(lex_lt("PATCH"@.drop_first(), "PUT"@.drop_first()));
    }
    assert(lex_lt("POST"@, "PUT"@)) by {
        assert(lex_lt("POST"@.drop_first(), "PUT"@.drop_first()));
    }
}

/// The tokens a 405 advertises stand in strictly increasing
/// lexicographic order, whatever is registered at the node.
#[verifier::rlimit(60)]
pub proof fn lemma_allow_tokens_sorted(t: MethodTable)
    ensures
        forall|i: int, j: int|
            0 <= i < j < allow_tokens(t).len() ==> lex_lt(
                #[trigger] allow_tokens(t)[i],
                #[trigger] allow_tokens(t)[j],
            ),
{
    lemma_method_tokens_order();
}

/// The node reached from `route` by following child indexes.
pub open spec fn node_at(route: Router, idxs: Seq<int>) -> Router
    decreases idxs.len(),
{
    if idxs.len() == 0 {
        route
    } else {
        node_at(route.children@[idxs[0]], idxs.drop_first())
    }
}

/// The composed pattern of the node at the end of the index path,
/// starting from `prefix`.
pub open spec fn full_pattern_at(route: Router, idxs: Seq<int>, prefix: Seq<char>) -> Seq<char>
    decreases idxs.len(),
{
    let full = prefix + route.path@;
    if idxs.len() == 0 {
        full
    } else {
        full_pattern_at(route.children@[idxs[0]], idxs.drop_first(), child_prefix(full))
    }
}

/// The middleware that `route` and the nodes along the index path
/// attach: each node's own list, in root-to-leaf order.
pub open spec fn middlewares_along(route: Router, idxs: Seq<int>) -> Seq<u64>
    decreases idxs.len(),
{
    if idxs.len() == 0 {
        route.middlewares@
    } else {
        route.middlewares@ + middlewares_along(route.children@[idxs[0]], idxs.drop_first())
    }
}

/// The middleware the node at the end of the path inherits: what came
/// in at `route`, plus the own lists of every strict ancestor.
pub open spec fn inherited_at(route: Router, idxs: Seq<int>, inherited: Seq<u64>) -> Seq<u64>
    decreases idxs.len(),
{
    if idxs.len() == 0 {
        inherited
    } else {
        inherited_at(route.children@[idxs[0]], idxs.drop_first(), inherited + route.middlewares@)
    }
}

/// Resolution entered at `route` walks exactly down the index path:
/// every node along it (the target excluded) concludes nothing of its
/// own, and every sibling before the taken index misses outright.
pub open spec fn reaches(
    route: Router,
    idxs: Seq<int>,
    method: HttpMethod,
    path: Seq<char>,
    prefix: Seq<char>,
    inherited: Seq<u64>,
) -> bool
    decreases idxs.len(),
{
    if idxs.len() == 0 {
        true
    } else {
        let full = prefix + route.path@;
        &&& node_outcome(route, method, path, full, inherited) is Missed
        &&& 0 <= idxs[0] < route.children@.len()
        &&& (forall|j: int|
            0 <= j < idxs[0] ==> resolve_spec(
                #[trigger] route.children@[j],
                method,
                path,
                child_prefix(full),
                inherited + route.middlewares@,
            ) is Missed)
        &&& reaches(
            route.children@[idxs[0]],
            idxs.drop_first(),
            method,
            path,
            child_prefix(full),
            inherited + route.middlewares@,
        )
    }
}

/// When resolution reaches the node at the end of an index path and
/// that node has a verdict of its own, the whole walk returns exactly
/// that verdict.
pub proof fn lemma_resolve_at_node(
    route: Router,
    idxs: Seq<int>,
    method: HttpMethod,
    path: Seq<char>,
    prefix: Seq<char>,
    inherited: Seq<u64>,
)
    requires
        reaches(route, idxs, method, path, prefix, inherited),
        !(node_outcome(
            node_at(route, idxs),
            method,
            path,
            full_pattern_at(route, idxs, prefix),
            inherited_at(route, idxs, inherited),
        ) is Missed),
    ensures
        resolve_spec(route, method, path, prefix, inherited) == node_outcome(
            node_at(route, idxs),
            method,
            path,
            full_pattern_at(route, idxs, prefix),
            inherited_at(route, idxs, inherited),
        ),
    decreases idxs.len(),
{
    if idxs.len() == 0 {
    } else {
        let full = prefix + route.path@;
        let k = idxs[0];
        let cp = child_prefix(full);
        let mws = inherited + route.middlewares@;
        lemma_resolve_at_node(route.children@[k], idxs.drop_first(), method, path, cp, mws);
        crate::dispatcher::lemma_children_skip(route, 0, k, method, path, cp, mws);
    }
}

proof fn lemma_inherited_at_decomposes(route: Router, idxs: Seq<int>, inherited: Seq<u64>)
    ensures
        inherited_at(route, idxs, inherited) + node_at(route, idxs).middlewares@ == inherited
            + middlewares_along(route, idxs),
    decreases idxs.len(),
{
    if idxs.len() == 0 {
    } else {
        let rest = middlewares_along(route.children@[idxs[0]], idxs.drop_first());
        lemma_inherited_at_decomposes(
            route.children@[idxs[0]],
            idxs.drop_first(),
            inherited + route.middlewares@,
        );
        assert((inherited + route.middlewares@) + rest =~= inherited + (route.middlewares@
            + rest));
    }
}

/// A registered pair resolves over the whole tree: when resolution
/// reaches a node whose composed pattern matches the path and whose
/// table registers the request's method, the result is that handler,
/// the pattern's decoded bindings, and the middleware of the whole
/// root-to-node path, ancestor lists first and each list in
/// attachment order.
pub proof fn lemma_registered_resolves_at(
    route: Router,
    idxs: Seq<int>,
    method: HttpMethod,
    path: Seq<char>,
    prefix: Seq<char>,
    inherited: Seq<u64>,
)
    requires
        reaches(route, idxs, method, path, prefix, inherited),
        pattern_match(full_pattern_at(route, idxs, prefix), path) is Some,
        node_at(route, idxs).handlers.spec_lookup(method) is Some,
    ensures
        resolve_spec(route, method, path, prefix, inherited) == (Resolution::Found {
            handler: node_at(route, idxs).handlers.spec_lookup(method).unwrap(),
            params: pattern_match(full_pattern_at(route, idxs, prefix), path).unwrap(),
            middlewares: inherited + middlewares_along(route, idxs),
        }),
{
    let n = node_at(route, idxs);
    let em = effective_method(n.handlers, method);
    if method == HttpMethod::HEAD {
        assert(n.handlers.head is Some);
    }
    assert(n.handlers.spec_lookup(em) == n.handlers.spec_lookup(method));
    lemma_resolve_at_node(route, idxs, method, path, prefix, inherited);
    lemma_inherited_at_decomposes(route, idxs, inherited);
}

/// HEAD-as-GET over the whole tree: a HEAD request reaching a node
/// that registers GET but not HEAD resolves to the GET handler.
pub proof fn lemma_head_resolves_through_get_at(
    route: Router,
    idxs: Seq<int>,
    path: Seq<char>,
    prefix: Seq<char>,
    inherited: Seq<u64>,
)
    requires
        reaches(route, idxs, HttpMethod::HEAD, path, prefix, inherited),
        pattern_match(full_pattern_at(route, idxs, prefix), path) is Some,
        node_at(route, idxs).handlers.head is None,
        node_at(route, idxs).handlers.get is Some,
    ensures
        resolve_spec(route, HttpMethod::HEAD, path, prefix, inherited) == (Resolution::Found {
            handler: node_at(route, idxs).handlers.get.unwrap(),
            params: pattern_match(full_pattern_at(route, idxs, prefix), path).unwrap(),
            middlewares: inherited + middlewares_along(route, idxs),
        }),
{
    lemma_resolve_at_node(route, idxs, HttpMethod::HEAD, path, prefix, inherited);
    lemma_inherited_at_decomposes(route, idxs, inherited);
}

/// Method-not-allowed over the whole tree: the first matching node
/// with handlers but none for the effective method decides the whole
/// walk, advertising exactly its own sorted tokens; nothing deeper is
/// consulted.
pub proof fn lemma_method_not_allowed_at(
    route: Router,
    idxs: Seq<int>,
    method: HttpMethod,
    path: Seq<char>,
    prefix: Seq<char>,
    inherited: Seq<u64>,
)
    requires
        reaches(route, idxs, method, path, prefix, inherited),
        pattern_match(full_pattern_at(route, idxs, prefix), path) is Some,
        node_at(route, idxs).handlers.spec_lookup(
            effective_method(node_at(route, idxs).handlers, method),
        ) is None,
        !node_at(route, idxs).handlers.spec_is_empty(),
    ensures
        resolve_spec(route, method, path, prefix, inherited) == (Resolution::NotAllowed {
            allowed: allow_tokens(node_at(route, idxs).handlers),
        }),
{
    lemma_resolve_at_node(route, idxs, method, path, prefix, inherited);
}

/// True when position `i` of the pattern is a `:name` parameter
/// segment.
pub open spec fn is_param_at(pat: Seq<Seq<char>>, i: int) -> bool {
    pat[i].len() > 0 && pat[i][0] == ':'
}

/// The name a parameter segment binds.
pub open spec fn param_name(pat: Seq<Seq<char>>, i: int) -> Seq<char> {
    pat[i].drop_first()
}

/// True when some parameter segment of the pattern carries this name.
pub open spec fn binds_name(pat: Seq<Seq<char>>, k: Seq<char>) -> bool {
    exists|i: int| 0 <= i < pat.len() && #[trigger] is_param_at(pat, i) && param_name(pat, i) == k
}

/// The bindings of a successful match are exactly the pattern's
/// parameter names: a literal segment inserts nothing.
pub proof fn lemma_match_domain(pat: Seq<Seq<char>>, segs: Seq<Seq<char>>)
    requires
        match_segs(pat, segs) is Some,
    ensures
        forall|k: Seq<char>|
            match_segs(pat, segs).unwrap().contains_key(k) <==> binds_name(pat, k),
    decreases pat.len(),
{
    if pat.len() == 0 {
    } else {
        let pd = pat.drop_last();
        let sd = segs.drop_last();
        lemma_match_domain(pd, sd);
        let m = match_segs(pat, segs).unwrap();
        let m0 = match_segs(pd, sd).unwrap();
        let p = pat.last();
        assert(forall|i: int| 0 <= i < pd.len() ==> pd[i] == pat[i]);
        assert forall|k: Seq<char>| m.contains_key(k) implies binds_name(pat, k) by {
            if p.len() > 0 && p[0] == ':' && k == p.drop_first() {
                assert(is_param_at(pat, pat.len() - 1));
                assert(param_name(pat, pat.len() - 1) == k);
            } else {
                assert(m0.contains_key(k));
                assert(binds_name(pd, k));
                let i = choose|i: int|
                    0 <= i < pd.len() && #[trigger] is_param_at(pd, i) && param_name(pd, i) == k;
                assert(is_param_at(pat, i));
                assert(param_name(pat, i) == k);
            }
        }
        assert forall|k: Seq<char>| binds_name(pat, k) implies m.contains_key(k) by {
            let i = choose|i: int|
                0 <= i < pat.len() && #[trigger] is_param_at(pat, i) && param_name(pat, i) == k;
            if i == pat.len() - 1 {
                assert(p.len() > 0 && p[0] == ':');
            } else {
                assert(is_param_at(pd, i));
                assert(param_name(pd, i) == k);
                assert(binds_name(pd, k));
                assert(m0.contains_key(k));
            }
        }
    }
}

/// A `:name` segment of a matching pattern binds exactly the decoded
/// concrete segment at its position, as long as no later segment
/// reuses the same name.
pub proof fn lemma_param_binding(pat: Seq<Seq<char>>, segs: Seq<Seq<char>>, i: int)
    requires
        match_segs(pat, segs) is Some,
        0 <= i < pat.len(),
        pat[i].len() > 0,
        pat[i][0] == ':',
        forall|j: int|
            i < j < pat.len() ==> !(#[trigger] pat[j].len() > 0 && pat[j][0] == ':'
                && pat[j].drop_first() == pat[i].drop_first()),
    ensures
        match_segs(pat, segs).unwrap().contains_key(pat[i].drop_first()),
        match_segs(pat, segs).unwrap()[pat[i].drop_first()] == decoded(segs[i]),
    decreases pat.len(),
{
    let pd = pat.drop_last();
    let sd = segs.drop_last();
    if i == pat.len() - 1 {
    } else {
        assert(forall|j: int| 0 <= j < pd.len() ==> pd[j] == pat[j]);
        assert(forall|j: int| 0 <= j < sd.len() ==> sd[j] == segs[j]);
        lemma_param_binding(pd, sd, i);
    }
}

} // verus!
