//! The route table: routes registered by method and clean path, frozen once
//! the server listens, and looked up by exact match with a fallback to the
//! routes that answer any method.
use vstd::prelude::*;
use vstd::string::StringExecFns;
use crate::query::{Flags, TypedValue};
use crate::request::HttpMethod;
use crate::route::{clean_path, schema_of, Route, RouteMethod};
use crate::text::{chars_of, debug_quoted, debug_text, string_of};

verus! {

/// What a route table holds for each route: its method, its clean path, its
/// schema and its handler.
pub type RouteEntry<H> = (RouteMethod, Seq<char>, Seq<(Seq<char>, (TypedValue, Flags))>, H);

/// The first position at or after `i` of the route registered under `method`
/// and `path`.
pub open spec fn route_index_from<H>(
    v: Seq<RouteEntry<H>>,
    method: RouteMethod,
    path: Seq<char>,
    i: int,
) -> Option<int>
    decreases v.len() - i,
{
    if i < 0 || i >= v.len() {
        None
    } else if v[i].0 == method && v[i].1 == path {
        Some(i)
    } else {
        route_index_from(v, method, path, i + 1)
    }
}

/// The position of the route registered under `method` and `path`.
pub open spec fn route_index<H>(v: Seq<RouteEntry<H>>, method: RouteMethod, path: Seq<char>) -> Option<int> {
    route_index_from(v, method, path, 0)
}

/// The routes after `e` is registered: it replaces a route of the same
/// method and path, or comes last.
pub open spec fn register<H>(v: Seq<RouteEntry<H>>, e: RouteEntry<H>) -> Seq<RouteEntry<H>> {
    match route_index(v, e.0, e.1) {
        Some(i) => v.update(i, e),
        None => v.push(e),
    }
}

/// A registration path with a leading `/`.
pub open spec fn with_slash(path: Seq<char>) -> Seq<char> {
    if path.len() > 0 && path[0] == '/' {
        path
    } else {
        seq!['/'] + path
    }
}

/// The route that a request with `method` reaches at `path`: one under its
/// own method first, then one under any method.
pub open spec fn resolve<H>(v: Seq<RouteEntry<H>>, method: RouteMethod, path: Seq<char>) -> Option<int> {
    match route_index(v, method, path) {
        Some(i) => Some(i),
        None => route_index(v, RouteMethod::RouteAny, path),
    }
}

/// A route about to be registered: its method, its path with a leading `/`,
/// and its handler.
pub struct RouteBuilder<H> {
    pub handler: H,
    pub path: String,
    pub method: RouteMethod,
}

impl<H> RouteBuilder<H> {
    /// A route under `method` at `path`, given a leading `/` when it has
    /// none.
    pub fn new(method: RouteMethod, path: String, handler: H) -> (r: RouteBuilder<H>)
        ensures
            r.method == method,
            r.path@ == with_slash(path@),
            r.handler == handler,
    {
        let path = slashed(path);
        RouteBuilder { handler, path, method }
    }
}

/// `path` with a leading `/`.
fn slashed(path: String) -> (r: String)
    ensures
        r@ == with_slash(path@),
{
    let chars = chars_of(path.as_str());
    if chars.len() > 0 && chars[0] == '/' {
        path
    } else {
        let mut slashed = vec!['/'];
        let mut rest = chars;
        let ghost c = rest@;
        slashed.append(&mut rest);
        assert(slashed@ =~= seq!['/'] + c);
        string_of(&slashed)
    }
}

/// The route table.
pub struct Router<H> {
    routes: Vec<(RouteMethod, String, Route<H>)>,
    listening: bool,
}

impl<H> Router<H> {
    /// The routes, in the order in which they were first registered.
    pub closed spec fn routes_view(&self) -> Seq<RouteEntry<H>> {
        self.routes@.map_values(
            |e: (RouteMethod, String, Route<H>)| (e.0, e.1@, e.2.queries@, e.2.controller),
        )
    }

    /// Whether the table is frozen.
    pub closed spec fn is_listening(&self) -> bool {
        self.listening
    }

    /// An empty table that accepts registrations.
    pub fn new() -> (r: Router<H>)
        ensures
            r.routes_view().len() == 0,
            !r.is_listening(),
    {
        Router { routes: Vec::new(), listening: false }
    }

    /// Registers `handler` for `GET` at `path`.
    pub fn get(&mut self, path: String, handler: H) -> (r: &Self)
        ensures
            add_route_post(*old(self), *final(self), RouteMethod::RouteGet, path@, handler),
            *r == *final(self),
    {
        self.add_route(RouteMethod::RouteGet, path, handler)
    }

    /// Registers `handler` for `POST` at `path`.
    pub fn post(&mut self, path: String, handler: H) -> (r: &Self)
        ensures
            add_route_post(*old(self), *final(self), RouteMethod::RoutePost, path@, handler),
            *r == *final(self),
    {
        self.add_route(RouteMethod::RoutePost, path, handler)
    }

    /// Registers `handler` for every method at `path`.
    pub fn all(&mut self, path: String, handler: H) -> (r: &Self)
        ensures
            add_route_post(*old(self), *final(self), RouteMethod::RouteAny, path@, handler),
            *r == *final(self),
    {
        self.add_route(RouteMethod::RouteAny, path, handler)
    }

    /// Registers `handler` under `method` at `path`, given a leading `/`
    /// when it has none: the route's schema is what the path declares, and
    /// it is found under the clean path. Nothing changes once the table is
    /// frozen.
    pub fn add_route(&mut self, method: RouteMethod, path: String, handler: H) -> (r: &Self)
        ensures
            add_route_post(*old(self), *final(self), method, path@, handler),
            *r == *final(self),
    {
        if self.listening {
            return self;
        }
        let (route, path) = Route::new(slashed(path), handler);
        let ghost entry = (method, path@, route.queries@, route.controller);
        let ghost before = self.routes_view();
        match self.find_route(&method, &path) {
            Some(i) => {
                self.routes.set(i, (method, path, route));
                assert(self.routes_view() =~= before.update(i as int, entry));
            },
            None => {
                self.routes.push((method, path, route));
                assert(self.routes_view() =~= before.push(entry));
            },
        }
        self
    }

    /// Freezes the table: later registrations are ignored.
    pub fn start_listening(&mut self)
        ensures
            final(self).is_listening(),
            final(self).routes_view() == old(self).routes_view(),
    {
        self.listening = true;
    }

    /// The position of the route under `method` at `path`.
    fn find_route(&self, method: &RouteMethod, path: &String) -> (r: Option<usize>)
        ensures
            r matches Some(i) ==> route_index(self.routes_view(), *method, path@) == Some(
                i as int,
            ) && i < self.routes_view().len(),
            r is None ==> route_index(self.routes_view(), *method, path@) is None,
    {
        let ghost v = self.routes_view();
        let mut i: usize = 0;
        while i < self.routes.len()
            invariant
                i <= self.routes.len(),
                v == self.routes_view(),
                route_index(v, *method, path@) == route_index_from(v, *method, path@, i as int),
            decreases self.routes.len() - i,
        {
            if self.routes[i].0 == *method && self.routes[i].1 == *path {
                return Some(i);
            }
            i += 1;
        }
        None
    }

    /// The route under `method` at `path`, if there is one.
    pub fn get_method_endpoint(&self, method: &RouteMethod, path: &String) -> (r: Option<&Route<H>>)
        ensures
            match route_index(self.routes_view(), *method, path@) {
                Some(i) => r matches Some(rt) && rt.queries@ == self.routes_view()[i].2
                    && rt.controller == self.routes_view()[i].3,
                None => r is None,
            },
    {
        match self.find_route(method, path) {
            Some(i) => Some(&self.routes[i].2),
            None => None,
        }
    }

    /// The route that a request with `method` reaches at `path`: one under
    /// its own method, else one under any method, else an error naming the
    /// path.
    pub fn get_request_endpoint(&self, method: HttpMethod, path: &String) -> (r: Result<
        &Route<H>,
        String,
    >)
        ensures
            match resolve(self.routes_view(), route_method_of(method), path@) {
                Some(i) => r matches Ok(rt) && rt.queries@ == self.routes_view()[i].2
                    && rt.controller == self.routes_view()[i].3,
                None => r matches Err(e) && e@ == "No corresponding endpoint: "@ + debug_text(
                    path@,
                ),
            },
    {
        if let Some(handler) = self.get_method_endpoint(&method.get_route_method(), path) {
            return Ok(handler);
        }
        if let Some(handler) = self.get_method_endpoint(&RouteMethod::RouteAny, path) {
            return Ok(handler);
        }
        let mut message = String::from_str("No corresponding endpoint: ");
        message.append(debug_quoted(path.as_str()).as_str());
        Err(message)
    }
}

/// The route method under which a request method is looked up first.
pub open spec fn route_method_of(method: HttpMethod) -> RouteMethod {
    match method {
        HttpMethod::GET => RouteMethod::RouteGet,
        HttpMethod::POST => RouteMethod::RoutePost,
    }
}

/// What registering `handler` under `method` at `path` does to a table.
pub open spec fn add_route_post<H>(
    before: Router<H>,
    after: Router<H>,
    method: RouteMethod,
    path: Seq<char>,
    handler: H,
) -> bool {
    &&& after.is_listening() == before.is_listening()
    &&& before.is_listening() ==> after.routes_view() == before.routes_view()
    &&& !before.is_listening() ==> after.routes_view() == register(
        before.routes_view(),
        (method, clean_path(with_slash(path)), schema_of(with_slash(path)), handler),
    )
}

} // verus!
