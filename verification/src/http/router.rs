//! The router: a table from path and method to the handler that answers.

use crate::http::request::{HttpMethod, HttpRequest};
use crate::http::response::{HttpResponse, HttpStatusCode, ResponseModel};
use vstd::prelude::*;

verus! {

/// What answers a request. Every function from a request to a response is
/// a handler; `accepts` is its precondition and `responds` its
/// postcondition.
pub trait Handler: Send + Sync {
    /// True if the handler may be called on `req`.
    spec fn accepts(&self, req: &HttpRequest) -> bool;

    /// True if `resp` is a response that the handler may give to `req`.
    spec fn responds(&self, req: &HttpRequest, resp: HttpResponse) -> bool;

    /// Answers `req`.
    fn handle(&self, req: &HttpRequest) -> (resp: HttpResponse)
        requires
            self.accepts(req),
        ensures
            self.responds(req, resp),
    ;
}

impl<F: Fn(&HttpRequest) -> HttpResponse + Send + Sync> Handler for F {
    open spec fn accepts(&self, req: &HttpRequest) -> bool {
        call_requires(*self, (req,))
    }

    open spec fn responds(&self, req: &HttpRequest, resp: HttpResponse) -> bool {
        call_ensures(*self, (req,), resp)
    }

    fn handle(&self, req: &HttpRequest) -> (resp: HttpResponse) {
        self(req)
    }
}

/// What a route is registered under: a path and a method.
pub type RouteKey = (Seq<char>, HttpMethod);

/// The responses that a handler may give to a request.
pub type Responder = spec_fn(HttpRequest, HttpResponse) -> bool;

/// One entry of the table.
struct Route {
    path: String,
    method: HttpMethod,
    handler: Box<dyn Handler>,
    responder: Ghost<Responder>,
}

impl Route {
    spec fn key(self) -> RouteKey {
        (self.path@, self.method)
    }

    fn new<F>(path: String, method: HttpMethod, handler: F) -> (route: Route) where
        F: Fn(&HttpRequest) -> HttpResponse + Send + Sync + 'static,

        requires
            forall|req: &HttpRequest| call_requires(handler, (req,)),
        ensures
            route.key() == (path@, method),
            route.responder@ == (|req: HttpRequest, resp: HttpResponse|
                call_ensures(handler, (&req,), resp)),
            route.sound(),
    {
        let ghost responder: Responder = |req: HttpRequest, resp: HttpResponse|
            call_ensures(handler, (&req,), resp);
        let boxed: Box<dyn Handler> = Box::new(handler);
        Route { path, method, handler: boxed, responder: Ghost(responder) }
    }

    /// The handler answers every request, and only as the route says.
    spec fn sound(self) -> bool {
        &&& forall|req: &HttpRequest| self.handler.accepts(req)
        &&& forall|req: &HttpRequest, resp: HttpResponse| #[trigger]
            self.handler.responds(req, resp) ==> (self.responder@)(*req, resp)
    }
}

spec fn has_key(routes: Seq<Route>, key: RouteKey) -> bool {
    exists|i: int| 0 <= i < routes.len() && #[trigger] routes[i].key() == key
}

spec fn index_of(routes: Seq<Route>, key: RouteKey) -> int {
    choose|i: int| 0 <= i < routes.len() && #[trigger] routes[i].key() == key
}

spec fn table(routes: Seq<Route>) -> Map<RouteKey, Responder> {
    Map::new(
        |key: RouteKey| has_key(routes, key),
        |key: RouteKey| routes[index_of(routes, key)].responder@,
    )
}

/// The response to a request that no route matches.
pub open spec fn not_found() -> ResponseModel {
    ResponseModel {
        status: HttpStatusCode::NotFound,
        headers: seq![("Content-Type"@, "text/plain"@)],
        body: "404 Not Found\n"@,
    }
}

/// The routes of a server. At most one handler stands under each path and
/// method; registering under a key that is taken replaces the handler.
///
/// The routes stand in a vector that is searched in order. vstd models the
/// hashing of integer keys only, so of a `HashMap` keyed by a path and a
/// method nothing could be proved, not even that a route just registered is
/// found.
pub struct Router {
    routes: Vec<Route>,
}

impl View for Router {
    type V = Map<RouteKey, Responder>;

    closed spec fn view(&self) -> Map<RouteKey, Responder> {
        table(self.routes@)
    }
}

impl Router {
    #[verifier::type_invariant]
    spec fn well_formed(self) -> bool {
        &&& forall|i: int| 0 <= i < self.routes@.len() ==> (#[trigger] self.routes@[i]).sound()
        &&& forall|i: int, j: int|
            0 <= i < j < self.routes@.len() ==> (#[trigger] self.routes@[i]).key() != (
            #[trigger] self.routes@[j]).key()
    }

    /// True if `resp` is a response that the router may give to `req`: one
    /// of the handler registered for the request's path and method, or the
    /// fixed not-found response if there is none.
    pub open spec fn routes_to(&self, req: HttpRequest, resp: HttpResponse) -> bool {
        let key = (req.path@, req.method);
        if self@.contains_key(key) {
            (self@[key])(req, resp)
        } else {
            resp@ == not_found()
        }
    }

    /// A router without routes.
    pub fn new() -> (router: Self)
        ensures
            router@ == Map::<RouteKey, Responder>::empty(),
    {
        let router = Self { routes: Vec::new() };
        assert(router@ =~= Map::<RouteKey, Responder>::empty());
        router
    }

    /// The place of the route with the given key, if there is one.
    fn find(&self, path: &String, method: HttpMethod) -> (found: Option<usize>)
        ensures
            match found {
                Some(i) => i < self.routes@.len() && self.routes@[i as int].key() == (
                    path@,
                    method,
                ),
                None => !has_key(self.routes@, (path@, method)),
            },
    {
        let mut i: usize = 0;
        while i < self.routes.len()
            invariant
                i <= self.routes@.len(),
                forall|j: int| 0 <= j < i ==> (#[trigger] self.routes@[j]).key() != (path@, method),
            decreases self.routes@.len() - i,
        {
            if self.routes[i].method == method && self.routes[i].path == *path {
                return Some(i);
            }
            i += 1;
        }
        None
    }

    /// Registers `handler` for requests of `method` to `path`. The handler
    /// must answer every request.
    pub fn register<F>(&mut self, path: &str, method: HttpMethod, handler: F) where
        F: Fn(&HttpRequest) -> HttpResponse + Send + Sync + 'static,

        requires
            forall|req: &HttpRequest| call_requires(handler, (req,)),
        ensures
            final(self)@ == old(self)@.insert(
                (path@, method),
                |req: HttpRequest, resp: HttpResponse| call_ensures(handler, (&req,), resp),
            ),
    {
        proof {
            use_type_invariant(&*self);
        }
        let path = path.to_owned();
        let ghost key = (path@, method);
        let ghost responder: Responder = |req: HttpRequest, resp: HttpResponse|
            call_ensures(handler, (&req,), resp);
        let ghost before = self.routes@;
        let found = self.find(&path, method);
        let route = Route::new(path, method, handler);
        // The routes are taken out while they change and put back after.
        let mut routes: Vec<Route> = Vec::new();
        core::mem::swap(&mut self.routes, &mut routes);
        match found {
            Some(i) => {
                routes.set(i, route);
                proof {
                    let after = routes@;
                    assert forall|k: RouteKey| has_key(after, k) == has_key(before, k) by {
                        if has_key(before, k) {
                            let j = index_of(before, k);
                            assert(after[j].key() == k);
                        }
                        if has_key(after, k) {
                            let j = index_of(after, k);
                            assert(before[j].key() == k);
                        }
                    }
                    assert forall|k: RouteKey| has_key(after, k) implies #[trigger] table(
                        after,
                    )[k] == table(before).insert(key, responder)[k] by {
                        let j = index_of(after, k);
                        assert(before[j].key() == k);
                        assert(before[index_of(before, k)].key() == k);
                    }
                    assert(table(after) =~= table(before).insert(key, responder));
                }
            },
            None => {
                routes.push(route);
                proof {
                    let after = routes@;
                    assert(after[before.len() as int].key() == key);
                    assert forall|k: RouteKey| has_key(after, k) == (has_key(before, k) || k
                        == key) by {
                        if has_key(before, k) {
                            let j = index_of(before, k);
                            assert(after[j].key() == k);
                        }
                        if has_key(after, k) {
                            let j = index_of(after, k);
                            if j < before.len() {
                                assert(before[j].key() == k);
                            }
                        }
                    }
                    assert forall|k: RouteKey| has_key(after, k) implies #[trigger] table(
                        after,
                    )[k] == table(before).insert(key, responder)[k] by {
                        let j = index_of(after, k);
                        if j < before.len() {
                            assert(before[j].key() == k);
                            assert(before[index_of(before, k)].key() == k);
                        }
                    }
                    assert(table(after) =~= table(before).insert(key, responder));
                }
            },
        }
        core::mem::swap(&mut self.routes, &mut routes);
    }

    /// Answers a request: with the response of the handler registered for
    /// its path and method, or with the not-found response.
    pub fn route(&self, req: &HttpRequest) -> (resp: HttpResponse)
        ensures
            self.routes_to(*req, resp),
    {
        proof {
            use_type_invariant(self);
        }
        match self.find(&req.path, req.method) {
            Some(i) => {
                let resp = self.routes[i].handler.handle(req);
                proof {
                    let key = (req.path@, req.method);
                    assert(self.routes@[i as int].key() == key);
                    assert(has_key(self.routes@, key));
                    assert(self.routes@[index_of(self.routes@, key)].key() == key);
                }
                resp
            },
            None => {
                let mut res = HttpResponse::new(HttpStatusCode::NotFound);
                res.set_header("Content-Type", "text/plain");
                res.set_content("404 Not Found\n");
                assert(res@.headers =~= not_found().headers);
                res
            },
        }
    }
}

} // verus!
