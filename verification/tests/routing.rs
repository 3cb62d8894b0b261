use huio::{Dispatch, Dispatcher, HttpMethod, Request, Response, Router, StrMap};

fn request(method: HttpMethod, path: &str) -> Request {
    Request {
        method,
        path: path.to_string(),
        headers: StrMap::new(),
        body: Vec::new(),
        params: StrMap::new(),
        query: StrMap::new(),
    }
}

#[test]
fn registered_route_resolves_to_its_handler() {
    let root = Router::new("/items").add_handler(HttpMethod::GET, 7);
    let d = Dispatcher::new(root);
    match d.dispatch(request(HttpMethod::GET, "/items")) {
        Dispatch::Invoke { handler, middlewares, request } => {
            assert_eq!(handler, 7);
            assert!(middlewares.is_empty());
            assert_eq!(request.path(), "/items");
        }
        Dispatch::Done { .. } => panic!("expected the registered handler"),
    }
}

#[test]
fn nested_param_route_binds_decoded_value() {
    // root `/` with child `/users/:id`; a trailing slash on the request
    // still binds `id` and reaches the handler untouched
    let child = Router::new("/users/:id").add_handler(HttpMethod::GET, 1);
    let root = Router::new("/").nest(child);
    let d = Dispatcher::new(root);
    match d.dispatch(request(HttpMethod::GET, "/users/42/")) {
        Dispatch::Invoke { handler, request, .. } => {
            assert_eq!(handler, 1);
            assert_eq!(request.param("id"), Some("42"));
        }
        Dispatch::Done { .. } => panic!("expected the GET handler"),
    }
}

#[test]
fn empty_root_pattern_composes_the_same_way() {
    let child = Router::new("/users/:id").add_handler(HttpMethod::GET, 1);
    let root = Router::new("").nest(child);
    let d = Dispatcher::new(root);
    match d.dispatch(request(HttpMethod::GET, "/users/7")) {
        Dispatch::Invoke { handler, request, .. } => {
            assert_eq!(handler, 1);
            assert_eq!(request.param("id"), Some("7"));
        }
        Dispatch::Done { .. } => panic!("expected the GET handler"),
    }
}

#[test]
fn slash_root_still_serves_its_own_handler_and_nests() {
    let child = Router::new("/a").add_handler(HttpMethod::GET, 2);
    let root = Router::new("/").add_handler(HttpMethod::GET, 1).nest(child);
    let d = Dispatcher::new(root);
    match d.dispatch(request(HttpMethod::GET, "/")) {
        Dispatch::Invoke { handler, .. } => assert_eq!(handler, 1),
        Dispatch::Done { .. } => panic!("the root itself must match /"),
    }
    match d.dispatch(request(HttpMethod::GET, "/a")) {
        Dispatch::Invoke { handler, .. } => assert_eq!(handler, 2),
        Dispatch::Done { .. } => panic!("the nested child must match /a"),
    }
}

#[test]
fn deep_nesting_composes_prefixes() {
    let leaf = Router::new("/c/:x").add_handler(HttpMethod::GET, 3);
    let mid = Router::new("/b").nest(leaf);
    let root = Router::new("/a").nest(mid);
    let d = Dispatcher::new(root);
    match d.dispatch(request(HttpMethod::GET, "/a/b/c/9")) {
        Dispatch::Invoke { handler, request, .. } => {
            assert_eq!(handler, 3);
            assert_eq!(request.param("x"), Some("9"));
        }
        Dispatch::Done { .. } => panic!("the composed pattern must match"),
    }
}

#[test]
fn param_capture_is_percent_and_plus_decoded() {
    let root = Router::new("/f/:name").add_handler(HttpMethod::GET, 3);
    let d = Dispatcher::new(root);
    match d.dispatch(request(HttpMethod::GET, "/f/a%20b+c")) {
        Dispatch::Invoke { request, .. } => {
            assert_eq!(request.param("name"), Some("a b c"));
        }
        Dispatch::Done { .. } => panic!("expected a match"),
    }
}

#[test]
fn trailing_slash_and_bare_path_resolve_identically() {
    let root = Router::new("/a/b").add_handler(HttpMethod::GET, 5);
    let d = Dispatcher::new(root);
    let with = d.dispatch(request(HttpMethod::GET, "/a/b/"));
    let without = d.dispatch(request(HttpMethod::GET, "/a/b"));
    match (with, without) {
        (Dispatch::Invoke { handler: h1, request: r1, .. },
         Dispatch::Invoke { handler: h2, request: r2, .. }) => {
            assert_eq!(h1, 5);
            assert_eq!(h2, 5);
            assert_eq!(r1.path(), r2.path());
        }
        _ => panic!("both forms must reach the handler"),
    }
}

#[test]
fn root_path_is_not_stripped() {
    let root = Router::new("/").add_handler(HttpMethod::GET, 9);
    let d = Dispatcher::new(root);
    match d.dispatch(request(HttpMethod::GET, "/")) {
        Dispatch::Invoke { handler, request, .. } => {
            assert_eq!(handler, 9);
            assert_eq!(request.path(), "/");
        }
        Dispatch::Done { .. } => panic!("root must resolve"),
    }
}

#[test]
fn unmatched_path_yields_404() {
    let root = Router::new("/items").add_handler(HttpMethod::GET, 7);
    let d = Dispatcher::new(root);
    match d.dispatch(request(HttpMethod::GET, "/nothing/here")) {
        Dispatch::Done { response } => {
            assert_eq!(response.status_code(), 404);
            assert_eq!(response.body().as_slice(), b"Not Found");
        }
        Dispatch::Invoke { .. } => panic!("nothing should match"),
    }
}

#[test]
fn wrong_method_yields_405_with_allow() {
    // node `/items` registers only POST; GET answers 405 Allow: POST
    let root = Router::new("/items").add_handler(HttpMethod::POST, 2);
    let d = Dispatcher::new(root);
    match d.dispatch(request(HttpMethod::GET, "/items")) {
        Dispatch::Done { response } => {
            assert_eq!(response.status_code(), 405);
            assert_eq!(response.headers().get("Allow").map(|s| s.as_str()), Some("POST"));
        }
        Dispatch::Invoke { .. } => panic!("GET is not registered"),
    }
}

#[test]
fn allow_header_is_sorted_and_adds_head_for_get() {
    let root = Router::new("/x")
        .add_handler(HttpMethod::POST, 1)
        .add_handler(HttpMethod::GET, 2);
    let d = Dispatcher::new(root);
    match d.dispatch(request(HttpMethod::DELETE, "/x")) {
        Dispatch::Done { response } => {
            assert_eq!(response.status_code(), 405);
            assert_eq!(
                response.headers().get("Allow").map(|s| s.as_str()),
                Some("GET, HEAD, POST")
            );
        }
        Dispatch::Invoke { .. } => panic!("DELETE is not registered"),
    }
}

#[test]
fn head_resolves_through_get_handler() {
    let root = Router::new("/doc").add_handler(HttpMethod::GET, 11);
    let d = Dispatcher::new(root);
    match d.dispatch(request(HttpMethod::HEAD, "/doc")) {
        Dispatch::Invoke { handler, request, .. } => {
            assert_eq!(handler, 11);
            // the request object itself still says HEAD
            assert_eq!(request.method, HttpMethod::HEAD);
        }
        Dispatch::Done { .. } => panic!("HEAD must alias to GET"),
    }
}

#[test]
fn explicit_head_handler_wins_over_get() {
    let root = Router::new("/doc")
        .add_handler(HttpMethod::GET, 11)
        .add_handler(HttpMethod::HEAD, 12);
    let d = Dispatcher::new(root);
    match d.dispatch(request(HttpMethod::HEAD, "/doc")) {
        Dispatch::Invoke { handler, .. } => assert_eq!(handler, 12),
        Dispatch::Done { .. } => panic!("the HEAD handler is registered"),
    }
}

#[test]
fn finalize_strips_head_body_keeps_other_headers() {
    let res = Response::ok(b"payload".to_vec()).header("X-Extra", "kept");
    let out = Dispatcher::finalize(HttpMethod::HEAD, res);
    assert_eq!(out.status_code(), 200);
    assert!(out.body().is_empty());
    assert_eq!(out.headers().get("Content-Length").map(|s| s.as_str()), Some("0"));
    assert_eq!(out.headers().get("X-Extra").map(|s| s.as_str()), Some("kept"));
    assert_eq!(
        out.headers().get("Content-Type").map(|s| s.as_str()),
        Some("text/plain; charset=utf-8")
    );
}

#[test]
fn finalize_leaves_non_head_untouched() {
    let res = Response::ok(b"payload".to_vec());
    let out = Dispatcher::finalize(HttpMethod::GET, res);
    assert_eq!(out.body().as_slice(), b"payload");
    assert_eq!(out.headers().get("Content-Length").map(|s| s.as_str()), Some("7"));
}

#[test]
fn middleware_chain_is_ancestor_first_then_attachment_order() {
    let child = Router::new("/c")
        .middleware(31)
        .middleware(32)
        .add_handler(HttpMethod::GET, 1);
    let root = Router::new("").middleware(21).middleware(22).nest(child);
    let d = Dispatcher::new(root);
    match d.dispatch(request(HttpMethod::GET, "/c")) {
        Dispatch::Invoke { middlewares, .. } => {
            assert_eq!(middlewares, vec![21u64, 22, 31, 32]);
        }
        Dispatch::Done { .. } => panic!("the child route must match"),
    }
}

#[test]
fn first_matching_child_wins() {
    let a = Router::new("/same").add_handler(HttpMethod::GET, 1);
    let b = Router::new("/same").add_handler(HttpMethod::GET, 2);
    let root = Router::new("").nest(a).nest(b);
    let d = Dispatcher::new(root);
    match d.dispatch(request(HttpMethod::GET, "/same")) {
        Dispatch::Invoke { handler, .. } => assert_eq!(handler, 1),
        Dispatch::Done { .. } => panic!("a child must match"),
    }
}

#[test]
fn shallow_405_shadows_deeper_match() {
    // a matching node with handlers but the wrong method answers 405 at
    // once; a child that also matches the path can never rescue it
    let child = Router::new("").add_handler(HttpMethod::GET, 8);
    let root = Router::new("/items").add_handler(HttpMethod::POST, 2).nest(child);
    let d = Dispatcher::new(root);
    match d.dispatch(request(HttpMethod::GET, "/items")) {
        Dispatch::Done { response } => {
            assert_eq!(response.status_code(), 405);
            assert_eq!(response.headers().get("Allow").map(|s| s.as_str()), Some("POST"));
        }
        Dispatch::Invoke { .. } => panic!("the shallow 405 must win"),
    }
}

#[test]
fn handler_reregistration_overwrites() {
    let root = Router::new("/r")
        .add_handler(HttpMethod::GET, 1)
        .add_handler(HttpMethod::GET, 2);
    let d = Dispatcher::new(root);
    match d.dispatch(request(HttpMethod::GET, "/r")) {
        Dispatch::Invoke { handler, .. } => assert_eq!(handler, 2),
        Dispatch::Done { .. } => panic!("the route is registered"),
    }
}

#[test]
fn multi_segment_pattern_on_one_node() {
    let root = Router::new("/api/v1/users/:id/posts/:post")
        .add_handler(HttpMethod::GET, 4);
    let d = Dispatcher::new(root);
    match d.dispatch(request(HttpMethod::GET, "/api/v1/users/7/posts/9")) {
        Dispatch::Invoke { handler, request, .. } => {
            assert_eq!(handler, 4);
            assert_eq!(request.param("id"), Some("7"));
            assert_eq!(request.param("post"), Some("9"));
        }
        Dispatch::Done { .. } => panic!("the long pattern must match"),
    }
}

#[test]
fn literal_segments_compare_without_decoding() {
    // only `:name` captures are decoded; a literal segment must agree
    // byte for byte with the concrete path
    let root = Router::new("/a%20b").add_handler(HttpMethod::GET, 6);
    let d = Dispatcher::new(root);
    match d.dispatch(request(HttpMethod::GET, "/a%20b")) {
        Dispatch::Invoke { handler, .. } => assert_eq!(handler, 6),
        Dispatch::Done { .. } => panic!("the literal must match itself"),
    }
    match d.dispatch(request(HttpMethod::GET, "/a b")) {
        Dispatch::Done { response } => assert_eq!(response.status_code(), 404),
        Dispatch::Invoke { .. } => panic!("a decoded form must not match the literal"),
    }
}

#[test]
fn normalize_is_idempotent_on_single_trailing_slash() {
    assert_eq!(huio::normalize_path("/a/b/"), "/a/b");
    assert_eq!(huio::normalize_path(&huio::normalize_path("/a/b/")), "/a/b");
    assert_eq!(huio::normalize_path("/a/b"), "/a/b");
    assert_eq!(huio::normalize_path("/"), "/");
    // only the outermost slash is ever stripped
    assert_eq!(huio::normalize_path("/a//"), "/a/");
}

#[test]
fn request_query_getter_reads_decoded_map() {
    let mut req = request(HttpMethod::GET, "/");
    req.query = huio::decode_query("name=a%20b");
    assert_eq!(req.query("name"), Some("a b"));
    assert_eq!(req.query("other"), None);
}

#[test]
fn length_mismatch_never_matches() {
    let root = Router::new("/a/:x").add_handler(HttpMethod::GET, 1);
    let d = Dispatcher::new(root);
    match d.dispatch(request(HttpMethod::GET, "/a/b/c")) {
        Dispatch::Done { response } => assert_eq!(response.status_code(), 404),
        Dispatch::Invoke { .. } => panic!("no wildcard tails"),
    }
}
