//! A fluent builder for a server's configuration: the address, the routes,
//! the middleware, and the pool choice. The runtime takes the finished
//! builder, binds the listener, and runs the loop.

use vstd::prelude::*;
use crate::method::Method;
use crate::middleware::{Chain, Handler, Middleware, mw_views, mw_view};
use crate::router::Router;

verus! {

/// Everything a server needs before its listener binds.
pub struct ServerBuilder<H> {
    /// The address to bind, as `host:port` text.
    pub addr: Vec<u8>,
    /// The routes registered so far.
    pub router: Router<H>,
    /// The middleware registered so far.
    pub chain: Chain,
    /// Whether the experimental polling pool was requested. The runtime
    /// treats it as a hint and may keep the stable pool.
    pub use_optimized_pool: bool,
}

impl<H: Handler> ServerBuilder<H> {
    /// A builder for `addr` with no routes and no middleware.
    pub fn new(addr: Vec<u8>) -> (r: ServerBuilder<H>)
        ensures
            r.addr@ == addr@,
            r.router.routes@.len() == 0,
            r.router.chain is None,
            r.chain.units@.len() == 0,
            !r.use_optimized_pool,
    {
        ServerBuilder {
            addr,
            router: Router::new(),
            chain: Chain::new(),
            use_optimized_pool: false,
        }
    }

    /// Register one more middleware unit, innermost of those so far.
    pub fn middleware(self, m: Middleware) -> (r: ServerBuilder<H>)
        ensures
            r.addr@ == self.addr@,
            r.router == self.router,
            mw_views(r.chain.units@) == mw_views(self.chain.units@).push(mw_view(m)),
            r.use_optimized_pool == self.use_optimized_pool,
    {
        let ServerBuilder { addr, router, chain, use_optimized_pool } = self;
        ServerBuilder { addr, router, chain: chain.add(m), use_optimized_pool }
    }

    /// Register a route.
    pub fn route(self, method: Method, path: Vec<u8>, handler: H) -> (r: ServerBuilder<H>)
        ensures
            r.addr@ == self.addr@,
            r.router.routes@ == self.router.routes@.push((method, path, handler)),
            r.router.chain == self.router.chain,
            r.chain == self.chain,
            r.use_optimized_pool == self.use_optimized_pool,
    {
        let ServerBuilder { addr, router, chain, use_optimized_pool } = self;
        let mut router = router;
        router.route(method, path, handler);
        ServerBuilder { addr, router, chain, use_optimized_pool }
    }

    /// Ask for the experimental polling pool.
    pub fn with_optimized_pool(self, enabled: bool) -> (r: ServerBuilder<H>)
        ensures
            r.addr@ == self.addr@,
            r.router == self.router,
            r.chain == self.chain,
            r.use_optimized_pool == enabled,
    {
        let ServerBuilder { addr, router, chain, use_optimized_pool: _ } = self;
        ServerBuilder { addr, router, chain, use_optimized_pool: enabled }
    }

    /// Finish: install the middleware on the router and hand back the
    /// routing state the runtime serves with, together with the pool hint.
    pub fn build(self) -> (r: (Router<H>, Vec<u8>, bool))
        ensures
            r.0.routes@ == self.router.routes@,
            match r.0.chain {
                Some(c) => c == self.chain,
                None => false,
            },
            r.1@ == self.addr@,
            r.2 == self.use_optimized_pool,
    {
        let ServerBuilder { addr, router, chain, use_optimized_pool } = self;
        let mut router = router;
        router.set_middleware(chain);
        (router, addr, use_optimized_pool)
    }
}

} // verus!
