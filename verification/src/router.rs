use vstd::prelude::*;
use crate::method::HttpMethod;
use crate::split::views_of;

verus! {

/// The handlers registered at one node: at most one per method.  A
/// handler is an opaque id owned by the host embedding, which maps it
/// back to the function value it registered.
pub struct MethodTable {
    pub get: Option<u64>,
    pub post: Option<u64>,
    pub put: Option<u64>,
    pub delete: Option<u64>,
    pub patch: Option<u64>,
    pub head: Option<u64>,
    pub options: Option<u64>,
}

impl MethodTable {
    /// The handler registered for a method, if any.
    pub open spec fn spec_lookup(&self, m: HttpMethod) -> Option<u64> {
        match m {
            HttpMethod::GET => self.get,
            HttpMethod::POST => self.post,
            HttpMethod::PUT => self.put,
            HttpMethod::DELETE => self.delete,
            HttpMethod::PATCH => self.patch,
            HttpMethod::HEAD => self.head,
            HttpMethod::OPTIONS => self.options,
        }
    }

    /// True when no method is registered at all.
    pub open spec fn spec_is_empty(&self) -> bool {
        self.get is None && self.post is None && self.put is None && self.delete is None
            && self.patch is None && self.head is None && self.options is None
    }

    pub fn new() -> (r: MethodTable)
        ensures
            forall|m: HttpMethod| r.spec_lookup(m) is None,
            r.spec_is_empty(),
    {
        MethodTable {
            get: None,
            post: None,
            put: None,
            delete: None,
            patch: None,
            head: None,
            options: None,
        }
    }

    pub fn lookup(&self, m: HttpMethod) -> (r: Option<u64>)
        ensures
            r == self.spec_lookup(m),
    {
        match m {
            HttpMethod::GET => self.get,
            HttpMethod::POST => self.post,
            HttpMethod::PUT => self.put,
            HttpMethod::DELETE => self.delete,
            HttpMethod::PATCH => self.patch,
            HttpMethod::HEAD => self.head,
            HttpMethod::OPTIONS => self.options,
        }
    }

    /// Registers a handler; an earlier registration of the same method
    /// is overwritten.
    pub fn set(self, m: HttpMethod, h: u64) -> (r: MethodTable)
        ensures
            r.spec_lookup(m) == Some(h),
            forall|m2: HttpMethod| m2 != m ==> r.spec_lookup(m2) == self.spec_lookup(m2),
    {
        match m {
            HttpMethod::GET => MethodTable { get: Some(h), ..self },
            HttpMethod::POST => MethodTable { post: Some(h), ..self },
            HttpMethod::PUT => MethodTable { put: Some(h), ..self },
            HttpMethod::DELETE => MethodTable { delete: Some(h), ..self },
            HttpMethod::PATCH => MethodTable { patch: Some(h), ..self },
            HttpMethod::HEAD => MethodTable { head: Some(h), ..self },
            HttpMethod::OPTIONS => MethodTable { options: Some(h), ..self },
        }
    }

    pub fn any(&self) -> (r: bool)
        ensures
            r == !self.spec_is_empty(),
    {
        self.get.is_some() || self.post.is_some() || self.put.is_some() || self.delete.is_some()
            || self.patch.is_some() || self.head.is_some() || self.options.is_some()
    }
}

/// The method tokens a node advertises in a 405 `Allow` header: every
/// registered method, plus HEAD whenever GET is registered (HEAD
/// serves through GET then), listed in lexicographic order.
pub open spec fn allow_tokens(t: MethodTable) -> Seq<Seq<char>> {
    (if t.delete is Some {
        seq!["DELETE"@]
    } else {
        Seq::<Seq<char>>::empty()
    }) + (if t.get is Some {
        seq!["GET"@]
    } else {
        Seq::<Seq<char>>::empty()
    }) + (if t.head is Some || t.get is Some {
        seq!["HEAD"@]
    } else {
        Seq::<Seq<char>>::empty()
    }) + (if t.options is Some {
        seq!["OPTIONS"@]
    } else {
        Seq::<Seq<char>>::empty()
    }) + (if t.patch is Some {
        seq!["PATCH"@]
    } else {
        Seq::<Seq<char>>::empty()
    }) + (if t.post is Some {
        seq!["POST"@]
    } else {
        Seq::<Seq<char>>::empty()
    }) + (if t.put is Some {
        seq!["PUT"@]
    } else {
        Seq::<Seq<char>>::empty()
    })
}

/// The `Allow` tokens of a node, as strings.
pub fn allow_list(t: &MethodTable) -> (r: Vec<String>)
    ensures
        views_of(r@) == allow_tokens(*t),
{
    let mut r: Vec<String> = Vec::new();
    if t.delete.is_some() {
        r.push(String::from_str("DELETE"));
    }
    if t.get.is_some() {
        r.push(String::from_str("GET"));
    }
    if t.head.is_some() || t.get.is_some() {
        r.push(String::from_str("HEAD"));
    }
    if t.options.is_some() {
        r.push(String::from_str("OPTIONS"));
    }
    if t.patch.is_some() {
        r.push(String::from_str("PATCH"));
    }
    if t.post.is_some() {
        r.push(String::from_str("POST"));
    }
    if t.put.is_some() {
        r.push(String::from_str("PUT"));
    }
    proof {
        assert(views_of(r@) =~= allow_tokens(*t));
    }
    r
}

/// One node of the routing tree: a `/`-prefixed segment pattern (not
/// yet composed with its ancestors), the handlers registered here, the
/// middleware attached here, and the child nodes in registration
/// order.
pub struct Router {
    pub path: String,
    pub handlers: MethodTable,
    pub middlewares: Vec<u64>,
    pub children: Vec<Router>,
}

impl Router {
    /// A fresh node for a segment pattern such as `/users/:id`.
    pub fn new(path: &str) -> (r: Router)
        ensures
            r.path@ == path@,
            r.handlers.spec_is_empty(),
            forall|m: HttpMethod| r.handlers.spec_lookup(m) is None,
            r.middlewares@ == Seq::<u64>::empty(),
            r.children@ == Seq::<Router>::empty(),
    {
        let r = Router {
            path: path.to_owned(),
            handlers: MethodTable::new(),
            middlewares: Vec::new(),
            children: Vec::new(),
        };
        proof {
            assert(r.middlewares@ =~= Seq::<u64>::empty());
            assert(r.children@ =~= Seq::<Router>::empty());
        }
        r
    }

    /// Registers a handler for one method on this node; registering
    /// the same method again overwrites the earlier handler.
    pub fn add_handler(self, method: HttpMethod, handler: u64) -> (r: Router)
        ensures
            r.path == self.path,
            r.middlewares == self.middlewares,
            r.children == self.children,
            r.handlers.spec_lookup(method) == Some(handler),
            forall|m2: HttpMethod|
                m2 != method ==> r.handlers.spec_lookup(m2) == self.handlers.spec_lookup(m2),
    {
        let Router { path, handlers, middlewares, children } = self;
        Router { path, handlers: handlers.set(method, handler), middlewares, children }
    }

    /// Appends one middleware to this node's list; at dispatch time it
    /// applies to every request resolving through or below this node.
    pub fn middleware(self, m: u64) -> (r: Router)
        ensures
            r.path == self.path,
            r.handlers == self.handlers,
            r.children == self.children,
            r.middlewares@ == self.middlewares@.push(m),
    {
        let Router { path, handlers, mut middlewares, children } = self;
        middlewares.push(m);
        Router { path, handlers, middlewares, children }
    }

    /// Appends a fully built child node.
    pub fn nest(self, child: Router) -> (r: Router)
        ensures
            r.path == self.path,
            r.handlers == self.handlers,
            r.middlewares == self.middlewares,
            r.children@ == self.children@.push(child),
    {
        let Router { path, handlers, middlewares, mut children } = self;
        children.push(child);
        Router { path, handlers, middlewares, children }
    }
}

} // verus!
