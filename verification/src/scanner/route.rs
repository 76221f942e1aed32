//! Routes: the scanner that lists a project's route handlers, the HTTP
//! methods, and an index of routes by method and path.

use vstd::prelude::*;
use std::io::Error as IoError;
use crate::lsp::{Location, LocationResponse, RangeResponse, Range, range_response};
use crate::macros::{RustDocument, SummerMacro, RouteMacro};
use crate::text::str_eq;

verus! {

/// An HTTP method.
#[derive(Debug, Clone, Copy, PartialEq, Eq, Structural)]
pub enum HttpMethod {
    GET,
    POST,
    PUT,
    DELETE,
    PATCH,
    HEAD,
    OPTIONS,
}

pub open spec fn method_name(m: HttpMethod) -> Seq<char> {
    match m {
        HttpMethod::GET => "GET"@,
        HttpMethod::POST => "POST"@,
        HttpMethod::PUT => "PUT"@,
        HttpMethod::DELETE => "DELETE"@,
        HttpMethod::PATCH => "PATCH"@,
        HttpMethod::HEAD => "HEAD"@,
        HttpMethod::OPTIONS => "OPTIONS"@,
    }
}

impl HttpMethod {
    /// The method's name in upper case.
    pub fn as_str(&self) -> (r: &'static str)
        ensures
            r@ == method_name(*self),
    {
        match self {
            HttpMethod::GET => "GET",
            HttpMethod::POST => "POST",
            HttpMethod::PUT => "PUT",
            HttpMethod::DELETE => "DELETE",
            HttpMethod::PATCH => "PATCH",
            HttpMethod::HEAD => "HEAD",
            HttpMethod::OPTIONS => "OPTIONS",
        }
    }
}

/// A route as the routes request reports it.
#[derive(Debug)]
pub struct RouteInfoResponse {
    pub method: String,
    pub path: String,
    pub handler: String,
    pub is_openapi: bool,
    pub location: LocationResponse,
}

/// The parameters of the routes request.
#[derive(Debug)]
pub struct RoutesRequest {
    pub app_path: String,
}

/// The answer to the routes request.
#[derive(Debug)]
pub struct RoutesResponse {
    pub routes: Vec<RouteInfoResponse>,
}

/// Why a scan failed.
#[derive(Debug)]
pub enum ScanError {
    FileRead(IoError),
    InvalidProject(String),
    NoRoutes,
}

/// The content of a route entry.
pub struct RouteV {
    pub method: Seq<char>,
    pub path: Seq<char>,
    pub handler: Seq<char>,
    pub is_openapi: bool,
    pub uri: Seq<char>,
    pub range: RangeResponse,
}

pub open spec fn route_view(r: RouteInfoResponse) -> RouteV {
    RouteV {
        method: r.method@,
        path: r.path@,
        handler: r.handler@,
        is_openapi: r.is_openapi,
        uri: r.location.uri@,
        range: r.location.range,
    }
}

pub open spec fn routes_view(rs: Seq<RouteInfoResponse>) -> Seq<RouteV> {
    Seq::new(rs.len(), |i: int| route_view(rs[i]))
}

/// The entries of one route macro: one per method, in order.
pub open spec fn macro_routes(uri: Seq<char>, m: RouteMacro) -> Seq<RouteV> {
    Seq::new(
        m.methods@.len(),
        |i: int|
            RouteV {
                method: method_name(m.methods@[i]),
                path: m.path@,
                handler: m.handler_name@,
                is_openapi: m.is_openapi,
                uri,
                range: range_response(m.range),
            },
    )
}

/// The route entries of a document's macros, in order.
pub open spec fn document_routes(uri: Seq<char>, ms: Seq<SummerMacro>) -> Seq<RouteV>
    decreases ms.len(),
{
    if ms.len() == 0 {
        seq![]
    } else {
        document_routes(uri, ms.drop_last()) + match ms.last() {
            SummerMacro::Route(r) => macro_routes(uri, r),
            _ => seq![],
        }
    }
}

/// The route entries of all documents, in order.
pub open spec fn all_routes(docs: Seq<RustDocument>) -> Seq<RouteV>
    decreases docs.len(),
{
    if docs.len() == 0 {
        seq![]
    } else {
        all_routes(docs.drop_last()) + document_routes(docs.last().uri@, docs.last().macros@)
    }
}

fn push_macro_routes(out: &mut Vec<RouteInfoResponse>, uri: &String, m: &RouteMacro)
    ensures
        routes_view(final(out)@) == routes_view(old(out)@) + macro_routes(uri@, *m),
{
    let ghost start = routes_view(out@);
    let mut i: usize = 0;
    while i < m.methods.len()
        invariant
            i <= m.methods@.len(),
            routes_view(out@) == start + macro_routes(uri@, *m).subrange(0, i as int),
        decreases m.methods@.len() - i,
    {
        let method = m.methods[i].as_str();
        let entry = RouteInfoResponse {
            method: String::from_str(method),
            path: m.path.clone(),
            handler: m.handler_name.clone(),
            is_openapi: m.is_openapi,
            location: LocationResponse::from_range(uri, m.range),
        };
        let ghost before = out@;
        out.push(entry);
        proof {
            assert(routes_view(out@) =~= routes_view(before).push(route_view(entry)));
            assert(macro_routes(uri@, *m).subrange(0, i + 1) =~= macro_routes(uri@, *m).subrange(0, i as int).push(
                route_view(entry),
            ));
        }
        i = i + 1;
    }
    proof {
        assert(macro_routes(uri@, *m).subrange(0, m.methods@.len() as int) =~= macro_routes(uri@, *m));
    }
}

/// Lists the routes declared by the macros of `documents`: one entry per
/// HTTP method of each route macro.
pub fn routes_from_documents(documents: &Vec<RustDocument>) -> (r: Vec<RouteInfoResponse>)
    ensures
        routes_view(r@) == all_routes(documents@),
{
    let mut out: Vec<RouteInfoResponse> = Vec::new();
    let mut d: usize = 0;
    while d < documents.len()
        invariant
            d <= documents@.len(),
            routes_view(out@) == all_routes(documents@.subrange(0, d as int)),
        decreases documents@.len() - d,
    {
        let doc = &documents[d];
        let ghost before_doc = routes_view(out@);
        let mut k: usize = 0;
        while k < doc.macros.len()
            invariant
                k <= doc.macros@.len(),
                routes_view(out@) == before_doc + document_routes(doc.uri@, doc.macros@.subrange(0, k as int)),
            decreases doc.macros@.len() - k,
        {
            proof {
                assert(doc.macros@.subrange(0, k + 1).drop_last() =~= doc.macros@.subrange(0, k as int));
            }
            match &doc.macros[k] {
                SummerMacro::Route(rm) => {
                    push_macro_routes(&mut out, &doc.uri, rm);
                },
                _ => {},
            }
            proof {
                assert(before_doc + document_routes(doc.uri@, doc.macros@.subrange(0, k + 1)) =~= routes_view(out@));
            }
            k = k + 1;
        }
        proof {
            assert(doc.macros@.subrange(0, doc.macros@.len() as int) =~= doc.macros@);
            assert(documents@.subrange(0, d + 1).drop_last() =~= documents@.subrange(0, d as int));
        }
        d = d + 1;
    }
    proof {
        assert(documents@.subrange(0, documents@.len() as int) =~= documents@);
    }
    out
}

/// Lists a project's routes.
pub struct RouteScanner {}

impl RouteScanner {
    pub fn new() -> (r: RouteScanner) {
        RouteScanner {}
    }

    /// The routes of a project whose `src` directory holds `documents`; a
    /// project without a `src` directory is refused.
    pub fn scan_routes(&self, has_src: bool, documents: &Vec<RustDocument>) -> (r: Result<Vec<RouteInfoResponse>, ScanError>)
        ensures
            match r {
                Ok(rs) => has_src && routes_view(rs@) == all_routes(documents@),
                Err(e) => !has_src && (e matches ScanError::InvalidProject(m) && m@ == "src directory not found"@),
            },
    {
        if !has_src {
            return Err(ScanError::InvalidProject(String::from_str("src directory not found")));
        }
        Ok(routes_from_documents(documents))
    }
}

impl Default for RouteScanner {
    fn default() -> (r: RouteScanner) {
        RouteScanner::new()
    }
}

/// Finds where route handlers are defined.
pub struct RouteNavigator {}

impl RouteNavigator {
    pub fn new() -> (r: RouteNavigator) {
        RouteNavigator {}
    }

    /// The location of the handler of a route path. No handler is indexed
    /// here, so there is none.
    pub fn find_handler_location(&self, route_path: &str) -> (r: Option<Location>)
        ensures
            r is None,
    {
        None
    }
}

impl Default for RouteNavigator {
    fn default() -> (r: RouteNavigator) {
        RouteNavigator::new()
    }
}

/// A route handler and where it is defined.
#[derive(Debug)]
pub struct Route {
    pub method: HttpMethod,
    pub path: String,
    pub handler: String,
    pub location: Location,
}

/// The routes of a project by method and path; a later route replaces one
/// with the same method and path.
pub struct RouteIndex {
    routes: Vec<Route>,
}

/// The first route with `method` and `path`.
pub open spec fn route_lookup(rs: Seq<Route>, method: HttpMethod, path: Seq<char>) -> Option<Route>
    decreases rs.len(),
{
    if rs.len() == 0 {
        None
    } else if rs[0].method == method && rs[0].path@ == path {
        Some(rs[0])
    } else {
        route_lookup(rs.drop_first(), method, path)
    }
}

proof fn lemma_route_lookup_push(rs: Seq<Route>, r: Route, method: HttpMethod, path: Seq<char>)
    ensures
        route_lookup(rs.push(r), method, path) == (match route_lookup(rs, method, path) {
            Some(x) => Some(x),
            None => if r.method == method && r.path@ == path { Some(r) } else { None },
        }),
    decreases rs.len(),
{
    if rs.len() > 0 {
        assert(rs.push(r).drop_first() =~= rs.drop_first().push(r));
        assert(rs.push(r)[0] == rs[0]);
        lemma_route_lookup_push(rs.drop_first(), r, method, path);
    } else {
        assert(rs.push(r).drop_first() =~= Seq::<Route>::empty());
        assert(route_lookup(Seq::<Route>::empty(), method, path) is None);
        assert(rs.push(r)[0] == r);
    }
}

proof fn lemma_route_lookup_update(rs: Seq<Route>, i: int, r: Route, method: HttpMethod, path: Seq<char>)
    requires
        0 <= i < rs.len(),
        rs[i].method == r.method && rs[i].path@ == r.path@,
        forall|k: int| 0 <= k < i ==> !(rs[k].method == r.method && rs[k].path@ == r.path@),
    ensures
        route_lookup(rs.update(i, r), method, path) == (if r.method == method && r.path@ == path {
            Some(r)
        } else {
            route_lookup(rs, method, path)
        }),
    decreases rs.len(),
{
    if i > 0 {
        assert(rs.update(i, r).drop_first() =~= rs.drop_first().update(i - 1, r));
        assert(rs.update(i, r)[0] == rs[0]);
        assert forall|k: int| 0 <= k < i - 1 implies !(rs.drop_first()[k].method == r.method && rs.drop_first()[k].path@ == r.path@) by {
            assert(rs.drop_first()[k] == rs[k + 1]);
        }
        lemma_route_lookup_update(rs.drop_first(), i - 1, r, method, path);
    } else {
        assert(rs.update(i, r).drop_first() =~= rs.drop_first());
        assert(rs.update(i, r)[0] == r);
    }
}

impl RouteIndex {
    /// The route with `method` and `path`.
    pub closed spec fn lookup(&self, method: HttpMethod, path: Seq<char>) -> Option<Route> {
        route_lookup(self.routes@, method, path)
    }

    /// The number of routes.
    pub closed spec fn len(&self) -> nat {
        self.routes@.len()
    }

    /// An empty index.
    pub fn new() -> (r: RouteIndex)
        ensures
            forall|m: HttpMethod, p: Seq<char>| r.lookup(m, p) is None,
    {
        RouteIndex { routes: Vec::new() }
    }

    /// Adds a route, replacing the one with the same method and path.
    pub fn add_route(&mut self, route: Route)
        ensures
            forall|m: HttpMethod, p: Seq<char>| #[trigger] final(self).lookup(m, p) == (if m == route.method && p == route.path@ {
                Some(route)
            } else {
                old(self).lookup(m, p)
            }),
    {
        let ghost before = self.routes@;
        let mut i: usize = 0;
        while i < self.routes.len()
            invariant
                self.routes@ == before,
                before == old(self).routes@,
                i <= before.len(),
                forall|k: int| 0 <= k < i ==> !(before[k].method == route.method && before[k].path@ == route.path@),
            decreases before.len() - i,
        {
            if self.routes[i].method == route.method && str_eq(self.routes[i].path.as_str(), route.path.as_str()) {
                let ghost rv = route;
                self.routes.set(i, route);
                proof {
                    assert forall|m: HttpMethod, p: Seq<char>| #[trigger] route_lookup(self.routes@, m, p) == (if m == rv.method && p == rv.path@ {
                        Some(rv)
                    } else {
                        route_lookup(before, m, p)
                    }) by {
                        lemma_route_lookup_update(before, i as int, rv, m, p);
                        assert(self.routes@ =~= before.update(i as int, rv));
                    }
                }
                return;
            }
            i = i + 1;
        }
        let ghost rv = route;
        self.routes.push(route);
        proof {
            assert forall|m: HttpMethod, p: Seq<char>| #[trigger] route_lookup(self.routes@, m, p) == (if m == rv.method && p == rv.path@ {
                Some(rv)
            } else {
                route_lookup(before, m, p)
            }) by {
                lemma_route_lookup_push(before, rv, m, p);
                assert(self.routes@ =~= before.push(rv));
                if m == rv.method && p == rv.path@ {
                    lemma_route_absent(before, m, p);
                }
            }
        }
    }

    /// The route with `method` and `path`.
    pub fn find_route(&self, method: HttpMethod, path: &str) -> (r: Option<&Route>)
        ensures
            match r {
                Some(x) => self.lookup(method, path@) == Some(*x),
                None => self.lookup(method, path@) is None,
            },
    {
        let mut i: usize = 0;
        proof {
            assert(self.routes@.subrange(0, self.routes@.len() as int) =~= self.routes@);
        }
        while i < self.routes.len()
            invariant
                i <= self.routes@.len(),
                route_lookup(self.routes@, method, path@) == route_lookup(
                    self.routes@.subrange(i as int, self.routes@.len() as int),
                    method,
                    path@,
                ),
            decreases self.routes@.len() - i,
        {
            proof {
                let sub = self.routes@.subrange(i as int, self.routes@.len() as int);
                assert(sub.drop_first() =~= self.routes@.subrange(i + 1, self.routes@.len() as int));
                assert(sub[0] == self.routes@[i as int]);
            }
            if self.routes[i].method == method && str_eq(self.routes[i].path.as_str(), path) {
                return Some(&self.routes[i]);
            }
            i = i + 1;
        }
        None
    }

    /// Every route, once each.
    pub fn all_routes(&self) -> (r: Vec<&Route>)
        ensures
            r@.len() == self.len(),
            forall|m: HttpMethod, p: Seq<char>| #[trigger] self.lookup(m, p) is Some ==> exists|k: int| 0 <= k < r@.len() && *r@[k] == self.lookup(m, p)->0,
    {
        let mut out: Vec<&Route> = Vec::new();
        let mut i: usize = 0;
        while i < self.routes.len()
            invariant
                i <= self.routes@.len(),
                out@.len() == i,
                forall|k: int| 0 <= k < i ==> *out@[k] == self.routes@[k],
            decreases self.routes@.len() - i,
        {
            out.push(&self.routes[i]);
            i = i + 1;
        }
        proof {
            assert forall|m: HttpMethod, p: Seq<char>| #[trigger] self.lookup(m, p) is Some implies exists|k: int| 0 <= k < out@.len() && *out@[k] == self.lookup(m, p)->0 by {
                lemma_route_lookup_in(self.routes@, m, p);
                let x = self.lookup(m, p)->0;
                let k = choose|k: int| 0 <= k < self.routes@.len() && self.routes@[k] == x;
                assert(*out@[k] == x);
            }
        }
        out
    }
}

proof fn lemma_route_absent(rs: Seq<Route>, m: HttpMethod, p: Seq<char>)
    requires
        forall|k: int| 0 <= k < rs.len() ==> !(rs[k].method == m && rs[k].path@ == p),
    ensures
        route_lookup(rs, m, p) is None,
    decreases rs.len(),
{
    if rs.len() > 0 {
        assert forall|k: int| 0 <= k < rs.drop_first().len() implies !(rs.drop_first()[k].method == m && rs.drop_first()[k].path@ == p) by {
            assert(rs.drop_first()[k] == rs[k + 1]);
        }
        lemma_route_absent(rs.drop_first(), m, p);
    }
}

proof fn lemma_route_lookup_in(rs: Seq<Route>, m: HttpMethod, p: Seq<char>)
    ensures
        route_lookup(rs, m, p) matches Some(x) ==> exists|k: int| 0 <= k < rs.len() && rs[k] == x,
    decreases rs.len(),
{
    if rs.len() > 0 && !(rs[0].method == m && rs[0].path@ == p) {
        lemma_route_lookup_in(rs.drop_first(), m, p);
        if let Some(x) = route_lookup(rs, m, p) {
            let k = choose|k: int| 0 <= k < rs.drop_first().len() && rs.drop_first()[k] == x;
            assert(rs[k + 1] == x);
        }
    }
}

impl Default for RouteIndex {
    fn default() -> (r: RouteIndex)
        ensures
            forall|m: HttpMethod, p: Seq<char>| r.lookup(m, p) is None,
    {
        RouteIndex::new()
    }
}

} // verus!
