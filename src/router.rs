use vstd::prelude::*;

use crate::request::{Method, Request};
use crate::response::{contains_method, method_not_allowed_model, not_found_model, Response};

verus! {

/// A route's key as the contracts see it: a path and a list of methods.
pub type RouteKey = (Seq<char>, Seq<Method>);

/// A route's key: the path it serves and the methods it accepts.
#[derive(Clone, Debug, PartialEq)]
pub struct Route {
    /// The path, compared exactly.
    pub path: String,
    /// The methods.
    pub methods: Vec<Method>,
}

impl View for Route {
    type V = RouteKey;

    open spec fn view(&self) -> RouteKey {
        (self.path@, self.methods@)
    }
}

impl Route {
    /// The route that a request asks for: its path and its method alone.
    pub fn from_request(val: &Request) -> (r: Route)
        ensures
            r@ == (val.path@, seq![val.method]),
    {
        let r = Route { path: val.path.clone(), methods: vec![val.method] };
        assert(r.methods@ =~= seq![val.method]);
        r
    }

    /// Whether two keys are equal.
    fn same(&self, path: &String, methods: &Vec<Method>) -> (r: bool)
        ensures
            r == (self@ == (path@, methods@)),
    {
        if self.path != *path || self.methods.len() != methods.len() {
            return false;
        }
        let mut i: usize = 0;
        while i < methods.len()
            invariant
                self.methods@.len() == methods@.len(),
                i <= methods@.len(),
                forall|j: int| 0 <= j < i ==> self.methods@[j] == methods@[j],
            decreases methods@.len() - i,
        {
            if self.methods[i] != methods[i] {
                return false;
            }
            i = i + 1;
        }
        assert(self.methods@ =~= methods@);
        true
    }
}

/// Whether no two routes share a key.
pub open spec fn keys_distinct(t: Seq<RouteKey>) -> bool {
    forall|i: int, j: int| 0 <= i < t.len() && 0 <= j < t.len() && i != j ==> t[i] != t[j]
}

/// Whether some route has key `k`.
pub open spec fn has_key(t: Seq<RouteKey>, k: RouteKey) -> bool {
    exists|i: int| 0 <= i < t.len() && t[i] == k
}

/// The position of key `k` in a table that holds it.
pub open spec fn key_index(t: Seq<RouteKey>, k: RouteKey) -> int {
    choose|i: int| 0 <= i < t.len() && t[i] == k
}

/// The keys after registering key `k`: a new key goes to the end.
pub open spec fn register_keys(t: Seq<RouteKey>, k: RouteKey) -> Seq<RouteKey> {
    if has_key(t, k) {
        t
    } else {
        t.push(k)
    }
}

/// The handlers after registering `h` under key `k`: it replaces the handler
/// of an existing key, else it goes to the end.
pub open spec fn register_handlers<H>(t: Seq<RouteKey>, hs: Seq<H>, k: RouteKey, h: H) -> Seq<H> {
    if has_key(t, k) {
        hs.update(key_index(t, k), h)
    } else {
        hs.push(h)
    }
}

/// Whether some route serves path `p`.
pub open spec fn path_known(t: Seq<RouteKey>, p: Seq<char>) -> bool {
    exists|i: int| 0 <= i < t.len() && t[i].0 == p
}

/// The first route that serves path `p` with method `m`, or `t.len()`.
pub open spec fn first_match(t: Seq<RouteKey>, p: Seq<char>, m: Method) -> int
    decreases t.len(),
{
    if t.len() == 0 {
        0
    } else if t[0].0 == p && t[0].1.contains(m) {
        0
    } else {
        1 + first_match(t.drop_first(), p, m)
    }
}

/// The methods of all routes that serve path `p`, in registration order.
pub open spec fn allowed(t: Seq<RouteKey>, p: Seq<char>) -> Seq<Method>
    decreases t.len(),
{
    if t.len() == 0 {
        Seq::empty()
    } else if t.last().0 == p {
        allowed(t.drop_last(), p) + t.last().1
    } else {
        allowed(t.drop_last(), p)
    }
}

/// Registering a key twice leaves one route with that key, bound to the
/// handler registered last.
pub proof fn lemma_register_twice<H>(t: Seq<RouteKey>, hs: Seq<H>, k: RouteKey, h1: H, h2: H)
    requires
        keys_distinct(t),
        t.len() == hs.len(),
    ensures
        ({
            let t1 = register_keys(t, k);
            let t2 = register_keys(t1, k);
            let hs2 = register_handlers(t1, register_handlers(t, hs, k, h1), k, h2);
            exists|i: int|
                0 <= i < t2.len() && t2[i] == k && hs2[i] == h2 && forall|j: int|
                    0 <= j < t2.len() && #[trigger] t2[j] == k ==> j == i
        }),
{
    lemma_register_keys(t, k);
    let t1 = register_keys(t, k);
    let hs1 = register_handlers(t, hs, k, h1);
    assert(has_key(t1, k)) by {
        if !has_key(t, k) {
            assert(t1[t.len() as int] == k);
        }
    }
    let i = key_index(t1, k);
    assert(register_keys(t1, k) == t1);
    assert(register_handlers(t1, hs1, k, h2)[i] == h2);
}

/// Registering keeps the keys distinct, and afterwards the key is present.
pub proof fn lemma_register_keys(t: Seq<RouteKey>, k: RouteKey)
    requires
        keys_distinct(t),
    ensures
        keys_distinct(register_keys(t, k)),
        has_key(register_keys(t, k), k),
{
    if !has_key(t, k) {
        assert(register_keys(t, k)[t.len() as int] == k);
    }
}

/// The first match lies in `[0, t.len()]`; it serves `p` with `m` where it
/// is inside the table, and no earlier route does.
pub proof fn lemma_first_match(t: Seq<RouteKey>, p: Seq<char>, m: Method)
    ensures
        0 <= first_match(t, p, m) <= t.len(),
        first_match(t, p, m) < t.len() ==> t[first_match(t, p, m)].0 == p && t[first_match(
            t,
            p,
            m,
        )].1.contains(m),
        forall|j: int| 0 <= j < first_match(t, p, m) ==> !(t[j].0 == p && t[j].1.contains(m)),
    decreases t.len(),
{
    if t.len() > 0 && !(t[0].0 == p && t[0].1.contains(m)) {
        lemma_first_match(t.drop_first(), p, m);
        assert forall|j: int| 0 <= j < first_match(t, p, m) implies !(t[j].0 == p && t[j].1.contains(
            m,
        )) by {
            if j > 0 {
                assert(t[j] == t.drop_first()[j - 1]);
            }
        }
    }
}

/// Appends a list of methods to another.
fn push_all(out: &mut Vec<Method>, ms: &Vec<Method>)
    ensures
        final(out)@ == old(out)@ + ms@,
{
    let mut i: usize = 0;
    while i < ms.len()
        invariant
            i <= ms@.len(),
            out@ == old(out)@ + ms@.subrange(0, i as int),
        decreases ms@.len() - i,
    {
        out.push(ms[i]);
        i = i + 1;
        assert(out@ =~= old(out)@ + ms@.subrange(0, i as int));
    }
    assert(ms@.subrange(0, ms@.len() as int) =~= ms@);
}

/// The route table: keys with their handlers, in registration order.
pub struct Router<H> {
    routes: Vec<Route>,
    handlers: Vec<H>,
}

impl<H> Router<H> {
    /// The keys, in registration order.
    pub closed spec fn table(&self) -> Seq<RouteKey> {
        self.routes@.map_values(|r: Route| r@)
    }

    /// The handlers, one for each key.
    pub closed spec fn handler_seq(&self) -> Seq<H> {
        self.handlers@
    }

    /// One handler per key, and no key twice.
    #[verifier::type_invariant]
    spec fn well_formed(&self) -> bool {
        self.routes@.len() == self.handlers@.len() && keys_distinct(self.table())
    }

    /// A router with no routes.
    pub fn new() -> (r: Router<H>)
        ensures
            r.table() == Seq::<RouteKey>::empty(),
            r.handler_seq() == Seq::<H>::empty(),
    {
        let r = Router { routes: Vec::new(), handlers: Vec::new() };
        assert(r.table() =~= Seq::<RouteKey>::empty());
        r
    }

    /// The number of routes.
    pub fn len(&self) -> (r: usize)
        ensures
            r == self.table().len(),
    {
        self.routes.len()
    }

    /// Whether a route with exactly this key is registered.
    pub fn contains_route(&self, route: &Route) -> (r: bool)
        ensures
            r == has_key(self.table(), route@),
    {
        self.position(&route.path, &route.methods).is_some()
    }

    /// The position of a key.
    fn position(&self, path: &String, methods: &Vec<Method>) -> (r: Option<usize>)
        ensures
            match r {
                Some(i) => i < self.table().len() && self.table()[i as int] == (path@, methods@),
                None => !has_key(self.table(), (path@, methods@)),
            },
    {
        let mut i: usize = 0;
        while i < self.routes.len()
            invariant
                i <= self.routes@.len(),
                forall|j: int| 0 <= j < i ==> self.table()[j] != (path@, methods@),
            decreases self.routes@.len() - i,
        {
            if self.routes[i].same(path, methods) {
                return Some(i);
            }
            i = i + 1;
        }
        None
    }
}

impl<H: Fn(Request) -> Response> Router<H> {
    /// Whether every handler accepts every request.
    pub open spec fn accepts_all(&self) -> bool {
        forall|i: int, req: Request|
            0 <= i < self.handler_seq().len() ==> #[trigger] call_requires(
                self.handler_seq()[i],
                (req,),
            )
    }

    /// Registers `handler` for `path` and `methods`; a handler already
    /// registered for the same path and methods is replaced.
    pub fn add_route(&mut self, methods: Vec<Method>, path: &str, handler: H) -> (r: &mut Self)
        requires
            old(self).accepts_all(),
            forall|req: Request| call_requires(handler, (req,)),
        ensures
            r.table() == register_keys(old(self).table(), (path@, methods@)),
            r.handler_seq() == register_handlers(
                old(self).table(),
                old(self).handler_seq(),
                (path@, methods@),
                handler,
            ),
            r.accepts_all(),
            *final(self) == *final(r),
    {
        proof {
            use_type_invariant(&*self);
        }
        let path = String::from_str(path);
        proof {
            lemma_register_keys(self.table(), (path@, methods@));
        }
        let found = self.position(&path, &methods);
        let mut taken = Router::new();
        std::mem::swap(&mut taken, self);
        assert(taken.routes@ == old(self).routes@ && taken.handlers@ == old(self).handlers@);
        let Router { mut routes, mut handlers } = taken;
        let ghost key = (path@, methods@);
        match found {
            Some(i) => {
                proof {
                    let k = key_index(old(self).table(), (path@, methods@));
                    assert(old(self).table()[k] == old(self).table()[i as int]);
                }
                handlers.set(i, handler);
            },
            None => {
                routes.push(Route { path, methods });
                handlers.push(handler);
            },
        }
        assert(routes@.map_values(|r: Route| r@) =~= register_keys(old(self).table(), key));
        assert(handlers@ =~= register_handlers(old(self).table(), old(self).handler_seq(), key, handler));
        *self = Router { routes, handlers };
        self
    }

    /// Registers a GET route.
    pub fn get(&mut self, path: &str, handler: H) -> (r: &mut Self)
        requires
            old(self).accepts_all(),
            forall|req: Request| call_requires(handler, (req,)),
        ensures
            r.table() == register_keys(old(self).table(), (path@, seq![Method::Get])),
            r.handler_seq() == register_handlers(
                old(self).table(),
                old(self).handler_seq(),
                (path@, seq![Method::Get]),
                handler,
            ),
            r.accepts_all(),
            *final(self) == *final(r),
    {
        let methods = vec![Method::Get];
        assert(methods@ =~= seq![Method::Get]);
        self.add_route(methods, path, handler)
    }

    /// Registers a POST route.
    pub fn post(&mut self, path: &str, handler: H) -> (r: &mut Self)
        requires
            old(self).accepts_all(),
            forall|req: Request| call_requires(handler, (req,)),
        ensures
            r.table() == register_keys(old(self).table(), (path@, seq![Method::Post])),
            r.handler_seq() == register_handlers(
                old(self).table(),
                old(self).handler_seq(),
                (path@, seq![Method::Post]),
                handler,
            ),
            r.accepts_all(),
            *final(self) == *final(r),
    {
        let methods = vec![Method::Post];
        assert(methods@ =~= seq![Method::Post]);
        self.add_route(methods, path, handler)
    }

    /// Registers a PUT route.
    pub fn put(&mut self, path: &str, handler: H) -> (r: &mut Self)
        requires
            old(self).accepts_all(),
            forall|req: Request| call_requires(handler, (req,)),
        ensures
            r.table() == register_keys(old(self).table(), (path@, seq![Method::Put])),
            r.handler_seq() == register_handlers(
                old(self).table(),
                old(self).handler_seq(),
                (path@, seq![Method::Put]),
                handler,
            ),
            r.accepts_all(),
            *final(self) == *final(r),
    {
        let methods = vec![Method::Put];
        assert(methods@ =~= seq![Method::Put]);
        self.add_route(methods, path, handler)
    }

    /// Registers a DELETE route.
    pub fn delete(&mut self, path: &str, handler: H) -> (r: &mut Self)
        requires
            old(self).accepts_all(),
            forall|req: Request| call_requires(handler, (req,)),
        ensures
            r.table() == register_keys(old(self).table(), (path@, seq![Method::Delete])),
            r.handler_seq() == register_handlers(
                old(self).table(),
                old(self).handler_seq(),
                (path@, seq![Method::Delete]),
                handler,
            ),
            r.accepts_all(),
            *final(self) == *final(r),
    {
        let methods = vec![Method::Delete];
        assert(methods@ =~= seq![Method::Delete]);
        self.add_route(methods, path, handler)
    }

    /// Whether `r` answers `request` as `handle` does.
    pub open spec fn answers(&self, request: Request, r: Response) -> bool {
        let t = self.table();
        let p = request.path@;
        let i = first_match(t, p, request.method);
        if !path_known(t, p) {
            r@ == not_found_model()
        } else if i < t.len() {
            call_ensures(self.handler_seq()[i], (request,), r)
        } else {
            r@ == method_not_allowed_model(allowed(t, p))
        }
    }

    /// Answers a request: a 404 where no route serves its path; else the
    /// first route, in registration order, that serves its path and method
    /// hands the request to its handler; else a 405 that lists the methods of
    /// every route serving the path.
    pub fn handle(&self, request: Request) -> (r: Response)
        requires
            self.accepts_all(),
        ensures
            self.answers(request, r),
    {
        proof {
            use_type_invariant(self);
        }
        let ghost t = self.table();
        let ghost p = request.path@;
        let m = request.method;
        proof {
            lemma_first_match(t, p, m);
        }
        let mut known = false;
        let mut methods: Vec<Method> = Vec::new();
        let mut i: usize = 0;
        while i < self.routes.len()
            invariant
                t == self.table(),
                t.len() == self.handlers@.len(),
                self.accepts_all(),
                p == request.path@,
                m == request.method,
                i <= t.len(),
                0 <= first_match(t, p, m) <= t.len(),
                first_match(t, p, m) < t.len() ==> t[first_match(t, p, m)].0 == p && t[first_match(
                    t,
                    p,
                    m,
                )].1.contains(m),
                forall|j: int| 0 <= j < first_match(t, p, m) ==> !(t[j].0 == p && t[j].1.contains(m)),
                i <= first_match(t, p, m),
                known == (exists|j: int| 0 <= j < i && t[j].0 == p),
                methods@ == allowed(t.subrange(0, i as int), p),
            decreases t.len() - i,
        {
            let route = &self.routes[i];
            assert(t[i as int] == route@);
            proof {
                assert(t.subrange(0, i + 1).drop_last() =~= t.subrange(0, i as int));
            }
            if route.path == request.path {
                if contains_method(route.methods.as_slice(), m) {
                    assert(path_known(t, p));
                    assert(call_requires(self.handler_seq()[i as int], (request,)));
                    let h = &self.handlers[i];
                    return h(request);
                }
                push_all(&mut methods, &route.methods);
                known = true;
            }
            i = i + 1;
        }
        proof {
            assert(t.subrange(0, t.len() as int) =~= t);
        }
        if !known {
            return Response::not_found();
        }
        Response::method_not_allowed(methods.as_slice())
    }
}

impl<H> Default for Router<H> {
    /// A router with no routes.
    fn default() -> (r: Router<H>)
        ensures
            r.table() == Seq::<RouteKey>::empty(),
    {
        Router::new()
    }
}

/// A router with no routes answers every request with a 404 reading
/// `Not Found`.
pub proof fn lemma_no_routes_not_found<H: Fn(Request) -> Response>(
    router: &Router<H>,
    request: Request,
    r: Response,
)
    requires
        router.table().len() == 0,
        router.answers(request, r),
    ensures
        r@ == not_found_model(),
{
}

/// After `h` is registered for path `p` and the single method `m`, a request
/// for `p` with `m` is answered by `h`, whatever was registered for that pair
/// before, unless another route on `p` with other methods also accepts `m`.
pub proof fn lemma_last_registration_answers<H: Fn(Request) -> Response>(
    before: &Router<H>,
    after: &Router<H>,
    h: H,
    request: Request,
    r: Response,
)
    requires
        keys_distinct(before.table()),
        before.table().len() == before.handler_seq().len(),
        after.table() == register_keys(before.table(), (request.path@, seq![request.method])),
        after.handler_seq() == register_handlers(
            before.table(),
            before.handler_seq(),
            (request.path@, seq![request.method]),
            h,
        ),
        forall|i: int|
            0 <= i < before.table().len() && before.table()[i].0 == request.path@
                && before.table()[i].1.contains(request.method) ==> before.table()[i] == (
                request.path@,
                seq![request.method],
            ),
        after.answers(request, r),
    ensures
        call_ensures(h, (request,), r),
{
    let t = before.table();
    let t2 = after.table();
    let p = request.path@;
    let m = request.method;
    let k = (p, seq![m]);
    lemma_register_keys(t, k);
    lemma_first_match(t2, p, m);
    assert(seq![m][0] == m);
    assert(seq![m].contains(m));
    let ki = if has_key(t, k) {
        key_index(t, k)
    } else {
        t.len() as int
    };
    assert(0 <= ki < t2.len() && t2[ki] == k);
    assert(path_known(t2, p));
    let fm = first_match(t2, p, m);
    assert(fm <= ki) by {
        if fm > ki {
            assert(!(t2[ki].0 == p && t2[ki].1.contains(m)));
        }
    }
    assert(t2[fm] == k) by {
        if fm < t.len() {
            assert(t2[fm] == t[fm]);
        }
    }
    assert(fm == ki);
    assert(after.handler_seq()[ki] == h);
}

} // verus!
