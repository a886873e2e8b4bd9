//! Exact-match request routing.
//!
//! A route is a `(method, path)` pair bound to a handler; lookup is exact
//! string equality, the last registration for a pair wins, and a miss falls
//! back to the fixed `404` response. When a middleware chain is installed,
//! every dispatch runs through it.

use vstd::prelude::*;
use crate::bytes::{hdr_views, bytes_eq};
use crate::method::Method;
use crate::middleware::{Chain, Handler, mw_views, spec_run};
use crate::parser::{Request, ReqModel, req_model};
use crate::response::{Response, RespModel, resp_model, model_not_found};
use crate::response::{server_name_bytes, server_value_bytes, ct_name_bytes, ct_value_bytes};

verus! {

/// The index of the route serving `(method, path)`: the last registration
/// for the pair.
pub open spec fn spec_route_lookup<H>(
    routes: Seq<(Method, Vec<u8>, H)>,
    method: Method,
    path: Seq<u8>,
) -> Option<int>
    decreases routes.len(),
{
    if routes.len() == 0 {
        None
    } else if routes.last().0 == method && routes.last().1@ == path {
        Some(routes.len() - 1)
    } else {
        spec_route_lookup(routes.drop_last(), method, path)
    }
}

/// A found route index is in bounds.
pub proof fn lemma_route_lookup_bound<H>(
    routes: Seq<(Method, Vec<u8>, H)>,
    method: Method,
    path: Seq<u8>,
)
    ensures
        match spec_route_lookup(routes, method, path) {
            Some(i) => 0 <= i < routes.len(),
            None => true,
        },
    decreases routes.len(),
{
    if routes.len() > 0 && !(routes.last().0 == method && routes.last().1@ == path) {
        lemma_route_lookup_bound(routes.drop_last(), method, path);
    }
}

/// The response the routing table yields before middleware: the matched
/// handler's response, or the fixed `404`.
pub open spec fn spec_terminal<H: Handler>(
    routes: Seq<(Method, Vec<u8>, H)>,
    req: ReqModel,
) -> RespModel {
    match spec_route_lookup(routes, req.method, req.path) {
        Some(i) => routes[i].2.spec_response(req),
        None => model_not_found(),
    }
}

/// The router: exact-match routes, and an optional middleware chain that
/// wraps every dispatch.
pub struct Router<H> {
    /// Registered routes, in registration order.
    pub routes: Vec<(Method, Vec<u8>, H)>,
    /// The middleware chain, when one is installed.
    pub chain: Option<Chain>,
}

/// The terminal the chain wraps: the matched handler, or the `404` fallback.
pub struct RouteTarget<'a, H> {
    /// The matched handler, or `None` for the fallback.
    pub inner: Option<&'a H>,
}

impl<'a, H: Handler> Handler for RouteTarget<'a, H> {
    open spec fn spec_response(&self, req: ReqModel) -> RespModel {
        match self.inner {
            Some(h) => h.spec_response(req),
            None => model_not_found(),
        }
    }

    fn call(&self, req: &Request) -> (r: Response) {
        match self.inner {
            Some(h) => h.call(req),
            None => {
                let r = Response::not_found();
                proof {
                    assert(resp_model(r) =~= model_not_found());
                }
                r
            },
        }
    }
}

impl<H: Handler> Router<H> {
    /// An empty router with no middleware.
    pub fn new() -> (r: Router<H>)
        ensures
            r.routes@.len() == 0,
            r.chain is None,
    {
        Router { routes: Vec::new(), chain: None }
    }

    /// Install the middleware chain every dispatch runs through.
    pub fn set_middleware(&mut self, chain: Chain)
        ensures
            final(self).routes@ == old(self).routes@,
            match final(self).chain {
                Some(c) => c == chain,
                None => false,
            },
    {
        self.chain = Some(chain);
    }

    /// Register a handler for `(method, path)`. A later registration for
    /// the same pair wins.
    pub fn route(&mut self, method: Method, path: Vec<u8>, handler: H)
        ensures
            final(self).routes@ == old(self).routes@.push((method, path, handler)),
            final(self).chain == old(self).chain,
    {
        self.routes.push((method, path, handler));
    }

    /// Register a handler for GET requests to `path`.
    pub fn get(&mut self, path: Vec<u8>, handler: H)
        ensures
            final(self).routes@ == old(self).routes@.push((Method::GET, path, handler)),
            final(self).chain == old(self).chain,
    {
        self.route(Method::GET, path, handler);
    }

    /// Register a handler for POST requests to `path`.
    pub fn post(&mut self, path: Vec<u8>, handler: H)
        ensures
            final(self).routes@ == old(self).routes@.push((Method::POST, path, handler)),
            final(self).chain == old(self).chain,
    {
        self.route(Method::POST, path, handler);
    }

    /// Register a handler for PUT requests to `path`.
    pub fn put(&mut self, path: Vec<u8>, handler: H)
        ensures
            final(self).routes@ == old(self).routes@.push((Method::PUT, path, handler)),
            final(self).chain == old(self).chain,
    {
        self.route(Method::PUT, path, handler);
    }

    /// Register a handler for DELETE requests to `path`.
    pub fn delete(&mut self, path: Vec<u8>, handler: H)
        ensures
            final(self).routes@ == old(self).routes@.push((Method::DELETE, path, handler)),
            final(self).chain == old(self).chain,
    {
        self.route(Method::DELETE, path, handler);
    }

    /// Find the route serving `(method, path)`, if any: exact match, last
    /// registration first.
    pub fn lookup(&self, method: Method, path: &[u8]) -> (r: Option<usize>)
        ensures
            match spec_route_lookup(self.routes@, method, path@) {
                Some(i) => r == Some(i as usize),
                None => r is None,
            },
    {
        let n = self.routes.len();
        let mut i: usize = n;
        proof {
            assert(self.routes@.take(n as int) =~= self.routes@);
        }
        while i > 0
            invariant
                i <= n == self.routes@.len(),
                spec_route_lookup(self.routes@, method, path@) == spec_route_lookup(
                    self.routes@.take(i as int),
                    method,
                    path@,
                ),
            decreases i,
        {
            proof {
                assert(self.routes@.take(i as int).last() == self.routes@[i - 1]);
                assert(self.routes@.take(i as int).drop_last() =~= self.routes@.take(i - 1));
            }
            let matches_method = self.routes[i - 1].0 == method;
            if matches_method && bytes_eq(self.routes[i - 1].1.as_slice(), path) {
                return Some(i - 1);
            }
            i -= 1;
        }
        proof {
            assert(self.routes@.take(0).len() == 0);
        }
        None
    }

    /// Dispatch one request: look the route up, fall back to `404` on a
    /// miss, and run the middleware chain around the result when one is
    /// installed.
    pub fn handle(&mut self, req: &Request, now_ms: u64) -> (resp: Response)
        ensures
            final(self).routes@ == old(self).routes@,
            resp_model(resp) == match old(self).chain {
                Some(c) => spec_run(
                    mw_views(c.units@),
                    hdr_views(req.headers@),
                    now_ms,
                    spec_terminal(old(self).routes@, req_model(req)),
                ).1,
                None => spec_terminal(old(self).routes@, req_model(req)),
            },
            match old(self).chain {
                Some(c) => match final(self).chain {
                    Some(c2) => mw_views(c2.units@) == spec_run(
                        mw_views(c.units@),
                        hdr_views(req.headers@),
                        now_ms,
                        spec_terminal(old(self).routes@, req_model(req)),
                    ).0,
                    None => false,
                },
                None => final(self).chain is None,
            },
    {
        let nroutes = self.routes.len();
        proof {
            assert(old(self).routes@.len() == nroutes);
            lemma_route_lookup_bound(self.routes@, req.method, req.path@);
        }
        let idx = self.lookup(req.method, req.path.as_slice());
        let chain_opt = self.chain.take();
        match chain_opt {
            Some(c) => {
                let mut c = c;
                let target = match idx {
                    Some(i) => {
                        let h = &self.routes[i].2;
                        proof {
                            assert(spec_route_lookup(old(self).routes@, req.method, req.path@)
                                == Some(i as int));
                            assert(*h == old(self).routes@[i as int].2);
                            assert(h.spec_response(req_model(req)) == spec_terminal(
                                old(self).routes@,
                                req_model(req),
                            ));
                        }
                        RouteTarget { inner: Some(h) }
                    },
                    None => RouteTarget { inner: None },
                };
                proof {
                    assert(target.spec_response(req_model(req)) == spec_terminal(
                        old(self).routes@,
                        req_model(req),
                    ));
                }
                let resp = c.run(req, now_ms, &target);
                self.chain = Some(c);
                resp
            },
            None => {
                match idx {
                    Some(i) => self.routes[i].2.call(req),
                    None => {
                        let r = Response::not_found();
                        proof {
                            assert(resp_model(r) =~= model_not_found());
                        }
                        r
                    },
                }
            },
        }
    }
}

/// A handler answering `200` with a fixed body and the default headers.
pub struct StaticHandler {
    /// The status to answer with.
    pub status: crate::status::Status,
    /// The body to answer with.
    pub body: Vec<u8>,
}

impl Handler for StaticHandler {
    open spec fn spec_response(&self, req: ReqModel) -> RespModel {
        RespModel {
            status: self.status,
            headers: seq![
                (server_name_bytes(), server_value_bytes()),
                (ct_name_bytes(), ct_value_bytes()),
            ],
            body: self.body@,
        }
    }

    fn call(&self, req: &Request) -> (r: Response) {
        let r = crate::response::Response::new(self.status).body(
            vstd::slice::slice_to_vec(self.body.as_slice()),
        );
        proof {
            assert(resp_model(r) =~= self.spec_response(req_model(req)));
        }
        r
    }
}

/// A handler answering `200` with a fixed, already-serialized JSON body
/// and the matching content type. The serialization happens outside the
/// library, once; the handler serves the finished bytes.
pub struct JsonHandler {
    /// The serialized JSON to answer with.
    pub body: Vec<u8>,
}

impl Handler for JsonHandler {
    open spec fn spec_response(&self, req: ReqModel) -> RespModel {
        RespModel {
            status: crate::status::Status::OK,
            headers: seq![
                (server_name_bytes(), server_value_bytes()),
                (ct_name_bytes(), crate::response::ct_json_bytes()),
            ],
            body: self.body@,
        }
    }

    fn call(&self, req: &Request) -> (r: Response) {
        let r = Response::ok().json(Some(vstd::slice::slice_to_vec(self.body.as_slice())));
        proof {
            let defaults = seq![
                (server_name_bytes(), server_value_bytes()),
                (ct_name_bytes(), ct_value_bytes()),
            ];
            assert(defaults.drop_last() =~= seq![defaults[0]]);
            assert(seq![defaults[0]].drop_last() =~= Seq::<(Seq<u8>, Seq<u8>)>::empty());
            assert(crate::response::spec_remove_header(
                Seq::<(Seq<u8>, Seq<u8>)>::empty(),
                ct_name_bytes(),
            ).len() == 0);
            assert(defaults[0].0.len() == 6 && ct_name_bytes().len() == 12);
            assert(crate::response::spec_remove_header(seq![defaults[0]], ct_name_bytes())
                =~= Seq::<(Seq<u8>, Seq<u8>)>::empty().push(defaults[0]));
            assert(defaults.last().0 == ct_name_bytes());
            assert(crate::response::spec_remove_header(defaults, ct_name_bytes())
                =~= seq![defaults[0]]);
            assert(resp_model(r).headers =~= self.spec_response(req_model(req)).headers);
            assert(resp_model(r) =~= self.spec_response(req_model(req)));
        }
        r
    }
}

/// A handler that answers `200` with the request body echoed back
/// unchanged, byte for byte.
pub struct EchoHandler;

impl Handler for EchoHandler {
    open spec fn spec_response(&self, req: ReqModel) -> RespModel {
        RespModel {
            status: crate::status::Status::OK,
            headers: seq![
                (server_name_bytes(), server_value_bytes()),
                (ct_name_bytes(), ct_value_bytes()),
            ],
            body: req.body,
        }
    }

    fn call(&self, req: &Request) -> (r: Response) {
        let r = Response::ok().body(vstd::slice::slice_to_vec(req.body.as_slice()));
        proof {
            assert(resp_model(r) =~= self.spec_response(req_model(req)));
        }
        r
    }
}

/// The stock handlers as one registry type, so routes of different kinds
/// can share a router: a tagged variant per capability.
pub enum RouteHandler {
    /// A fixed status and body.
    Fixed(StaticHandler),
    /// The request body echoed back.
    Echo(EchoHandler),
    /// A fixed, already-serialized JSON document.
    Json(JsonHandler),
}

impl Handler for RouteHandler {
    open spec fn spec_response(&self, req: ReqModel) -> RespModel {
        match self {
            RouteHandler::Fixed(h) => h.spec_response(req),
            RouteHandler::Echo(h) => h.spec_response(req),
            RouteHandler::Json(h) => h.spec_response(req),
        }
    }

    fn call(&self, req: &Request) -> (r: Response) {
        match self {
            RouteHandler::Fixed(h) => h.call(req),
            RouteHandler::Echo(h) => h.call(req),
            RouteHandler::Json(h) => h.call(req),
        }
    }
}

/// Every stock handler answers with well-formed headers, and so does the
/// `404` fallback: whatever route a request takes through a table of stock
/// handlers, the terminal response serializes line by line.
pub proof fn lemma_terminal_wf(
    routes: Seq<(Method, Vec<u8>, RouteHandler)>,
    req: ReqModel,
)
    ensures
        crate::response::headers_wf(spec_terminal(routes, req).headers),
{
    let t = spec_terminal(routes, req);
    assert forall|i: int| 0 <= i < t.headers.len()
        implies #[trigger] crate::response::header_entry_wf(t.headers[i].0, t.headers[i].1) by {
        assert(t.headers[i].0.len() != crate::response::cl_name_bytes().len());
    }
}

} // verus!
