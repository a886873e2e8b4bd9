//! Middleware: ordered cross-cutting wrappers around a terminal handler.
//!
//! A [`Chain`] holds middleware units in registration order. Running the
//! chain gives each unit a *before* phase, in order — a unit may short-
//! circuit with its own response, as the rate limiter does with `429` —
//! and then an *after* phase in reverse order over the response, so the
//! first-registered unit sees the request first and the response last.
//! [`lemma_middleware_order`] proves the resulting onion ordering;
//! [`lemma_rate_limit_admits`], [`lemma_rate_limit_rejects`] and
//! [`lemma_rate_limit_recovers`] prove the sliding-window policy.
//!
//! Two units have effects the library cannot perform itself: logging
//! writes and catching faults. [`LoggingMiddleware`] computes its log
//! lines as values for the embedding runtime to print, and
//! [`RecoveryMiddleware`] supplies the substitute `500` response the
//! runtime's fault barrier answers with; in the chain's data flow both
//! pass the response through unchanged.

use vstd::prelude::*;
use crate::bytes::{SP, hdr_views, bytes_eq};
use crate::decimal::{spec_decimal, decimal_u64};
use crate::method::method_token;
use crate::parser::{Request, ReqModel, req_model, spec_header_lookup};
use crate::response::{Response, RespModel, resp_model};
use crate::status::Status;

verus! {

/// Computes the log lines around a dispatch: the runtime prints them.
pub struct LoggingMiddleware;

impl LoggingMiddleware {
    /// The line logged before dispatch: the method token, a space, the path.
    pub fn request_line(&self, req: &Request) -> (r: Vec<u8>)
        ensures
            r@ == method_token(req.method) + seq![SP] + req.path@,
    {
        let mut r = req.method.token();
        r.push(SP);
        r.extend_from_slice(req.path.as_slice());
        proof {
            assert(r@ =~= method_token(req.method) + seq![SP] + req.path@);
        }
        r
    }

    /// The line logged after dispatch: `  -> <code> in <elapsed>ms`.
    pub fn response_line(&self, status: Status, elapsed_ms: u64) -> (r: Vec<u8>)
        ensures
            r@ == seq![32u8, 32u8, 45u8, 62u8, 32u8] + spec_decimal(
                crate::status::status_code(status) as nat,
            ) + seq![32u8, 105u8, 110u8, 32u8] + spec_decimal(elapsed_ms as nat) + seq![109u8,
                115u8],
    {
        let arrow: [u8; 5] = [32, 32, 45, 62, 32];  // "  -> "
        let infix: [u8; 4] = [32, 105, 110, 32];  // " in "
        let unit: [u8; 2] = [109, 115];  // "ms"
        let mut r = vstd::slice::slice_to_vec(arrow.as_slice());
        let code = decimal_u64(status.code() as u64);
        r.extend_from_slice(code.as_slice());
        r.extend_from_slice(infix.as_slice());
        let ms = decimal_u64(elapsed_ms);
        r.extend_from_slice(ms.as_slice());
        r.extend_from_slice(unit.as_slice());
        proof {
            assert(r@ =~= seq![32u8, 32u8, 45u8, 62u8, 32u8] + spec_decimal(
                crate::status::status_code(status) as nat,
            ) + seq![32u8, 105u8, 110u8, 32u8] + spec_decimal(elapsed_ms as nat) + seq![109u8,
                115u8]);
        }
        r
    }
}

/// Supplies the substitute response a fault barrier answers with when a
/// handler fails abnormally. The catch itself is the runtime's job; in the
/// chain's data flow this unit is the identity.
pub struct RecoveryMiddleware;

impl RecoveryMiddleware {
    /// The `500` response substituted for a fault.
    pub fn fallback_response(&self) -> (r: Response)
        ensures
            r.status == Status::InternalServerError,
            r.body@ == seq![73u8, 110u8, 116u8, 101u8, 114u8, 110u8, 97u8, 108u8, 32u8, 83u8,
                101u8, 114u8, 118u8, 101u8, 114u8, 32u8, 69u8, 114u8, 114u8, 111u8, 114u8],
    {
        Response::internal_error()
    }
}

/// Bytes of the fixed hardening headers, in the order they are appended.
pub open spec fn security_headers() -> Seq<(Seq<u8>, Seq<u8>)> {
    seq![
        // "X-Content-Type-Options: nosniff"
        (seq![88u8, 45u8, 67u8, 111u8, 110u8, 116u8, 101u8, 110u8, 116u8, 45u8, 84u8, 121u8,
            112u8, 101u8, 45u8, 79u8, 112u8, 116u8, 105u8, 111u8, 110u8, 115u8], seq![110u8,
            111u8, 115u8, 110u8, 105u8, 102u8, 102u8]),
        // "X-XSS-Protection: 1; mode=block"
        (seq![88u8, 45u8, 88u8, 83u8, 83u8, 45u8, 80u8, 114u8, 111u8, 116u8, 101u8, 99u8, 116u8,
            105u8, 111u8, 110u8], seq![49u8, 59u8, 32u8, 109u8, 111u8, 100u8, 101u8, 61u8, 98u8,
            108u8, 111u8, 99u8, 107u8]),
        // "Referrer-Policy: strict-origin-when-cross-origin"
        (seq![82u8, 101u8, 102u8, 101u8, 114u8, 114u8, 101u8, 114u8, 45u8, 80u8, 111u8, 108u8,
            105u8, 99u8, 121u8], seq![115u8, 116u8, 114u8, 105u8, 99u8, 116u8, 45u8, 111u8,
            114u8, 105u8, 103u8, 105u8, 110u8, 45u8, 119u8, 104u8, 101u8, 110u8, 45u8, 99u8,
            114u8, 111u8, 115u8, 115u8, 45u8, 111u8, 114u8, 105u8, 103u8, 105u8, 110u8]),
    ]
}

/// Bytes of the header name `"X-Frame-Options"`.
pub open spec fn xfo_name_bytes() -> Seq<u8> {
    seq![88u8, 45u8, 70u8, 114u8, 97u8, 109u8, 101u8, 45u8, 79u8, 112u8, 116u8, 105u8, 111u8,
        110u8, 115u8]
}

/// Bytes of the header name `"Content-Security-Policy"`.
pub open spec fn csp_name_bytes() -> Seq<u8> {
    seq![67u8, 111u8, 110u8, 116u8, 101u8, 110u8, 116u8, 45u8, 83u8, 101u8, 99u8, 117u8, 114u8,
        105u8, 116u8, 121u8, 45u8, 80u8, 111u8, 108u8, 105u8, 99u8, 121u8]
}

/// Appends a fixed set of hardening headers to every response after
/// downstream processing.
pub struct SecurityHeadersMiddleware {
    /// An optional `Content-Security-Policy` value.
    pub csp: Option<Vec<u8>>,
    /// The `X-Frame-Options` value.
    pub frame_options: Vec<u8>,
}

/// The headers a security unit appends, in order.
pub open spec fn spec_security_applied(csp: Option<Seq<u8>>, frame_options: Seq<u8>) -> Seq<(
    Seq<u8>,
    Seq<u8>,
)> {
    let base = seq![security_headers()[0], (xfo_name_bytes(), frame_options),
        security_headers()[1], security_headers()[2]];
    match csp {
        Some(v) => base.push((csp_name_bytes(), v)),
        None => base,
    }
}

impl Default for SecurityHeadersMiddleware {
    /// No content-security policy, and `X-Frame-Options: DENY`.
    fn default() -> (r: Self)
        ensures
            r.csp is None,
            r.frame_options@ == seq![68u8, 69u8, 78u8, 89u8],  // "DENY"
    {
        let deny: [u8; 4] = [68, 69, 78, 89];
        let r = SecurityHeadersMiddleware {
            csp: None,
            frame_options: vstd::slice::slice_to_vec(deny.as_slice()),
        };
        proof {
            assert(r.frame_options@ =~= seq![68u8, 69u8, 78u8, 89u8]);
        }
        r
    }
}

/// Appends one fixed header to every response after downstream processing.
pub struct AppendHeaderMiddleware {
    /// The header name to append.
    pub name: Vec<u8>,
    /// The header value to append.
    pub value: Vec<u8>,
}

/// Rejects clients that exceed `max_requests` within a sliding window.
pub struct RateLimitMiddleware {
    /// How many requests a key may make inside one window.
    pub max_requests: usize,
    /// The window's width in milliseconds.
    pub window_ms: u64,
    /// Per-key timestamps of admitted requests, most recent last.
    pub table: Vec<(Vec<u8>, Vec<u64>)>,
}

/// A timestamp still counts when less than one window has passed since it;
/// timestamps from the future count as age zero.
pub open spec fn spec_in_window(t: u64, now: u64, window: u64) -> bool {
    (if t <= now {
        (now - t) as u64
    } else {
        0u64
    }) < window
}

/// The timestamps of `ts` still inside the window, in order.
pub open spec fn spec_prune(ts: Seq<u64>, now: u64, window: u64) -> Seq<u64>
    decreases ts.len(),
{
    if ts.len() == 0 {
        ts
    } else {
        let rest = spec_prune(ts.drop_last(), now, window);
        if spec_in_window(ts.last(), now, window) {
            rest.push(ts.last())
        } else {
            rest
        }
    }
}

/// The timestamp list recorded under `key`; empty when the key is new.
pub open spec fn spec_ts_lookup(table: Seq<(Seq<u8>, Seq<u64>)>, key: Seq<u8>) -> Seq<u64>
    decreases table.len(),
{
    if table.len() == 0 {
        Seq::empty()
    } else if table[0].0 == key {
        table[0].1
    } else {
        spec_ts_lookup(table.skip(1), key)
    }
}

/// What one admission check does to a key's pruned window `ts`: admit and
/// record `now` while the window holds fewer than `max` entries, else
/// reject and record nothing.
pub open spec fn window_decision(ts: Seq<u64>, now: u64, window: u64, max: nat) -> (bool, Seq<
    u64,
>) {
    let kept = spec_prune(ts, now, window);
    if kept.len() < max {
        (true, kept.push(now))
    } else {
        (false, kept)
    }
}

/// The views of a rate-limit table.
pub open spec fn table_views(table: Seq<(Vec<u8>, Vec<u64>)>) -> Seq<(Seq<u8>, Seq<u64>)> {
    Seq::new(table.len(), |i: int| (table[i].0@, table[i].1@))
}

impl RateLimitMiddleware {
    /// An empty limiter admitting `max_requests` per key per `window_ms`.
    pub fn new(max_requests: usize, window_ms: u64) -> (r: RateLimitMiddleware)
        ensures
            r.max_requests == max_requests,
            r.window_ms == window_ms,
            r.table@.len() == 0,
    {
        RateLimitMiddleware { max_requests, window_ms, table: Vec::new() }
    }

    /// The client key of a request: the forwarded-for header, else the
    /// real-ip header, else the fixed `unknown` bucket.
    pub fn get_client_key(req: &Request) -> (r: Vec<u8>)
        ensures
            r@ == spec_client_key(hdr_views(req.headers@)),
    {
        let xff: [u8; 15] = [120, 45, 102, 111, 114, 119, 97, 114, 100, 101, 100, 45, 102, 111,
            114];  // "x-forwarded-for"
        let xri: [u8; 9] = [120, 45, 114, 101, 97, 108, 45, 105, 112];  // "x-real-ip"
        let unknown: [u8; 7] = [117, 110, 107, 110, 111, 119, 110];  // "unknown"
        proof {
            assert(xff@ =~= seq![120u8, 45u8, 102u8, 111u8, 114u8, 119u8, 97u8, 114u8, 100u8,
                101u8, 100u8, 45u8, 102u8, 111u8, 114u8]);
            assert(xri@ =~= seq![120u8, 45u8, 114u8, 101u8, 97u8, 108u8, 45u8, 105u8, 112u8]);
        }
        match req.header(xff.as_slice()) {
            Some(v) => v,
            None => match req.header(xri.as_slice()) {
                Some(v) => v,
                None => {
                    let r = vstd::slice::slice_to_vec(unknown.as_slice());
                    proof {
                        assert(r@ =~= seq![117u8, 110u8, 107u8, 110u8, 111u8, 119u8, 110u8]);
                    }
                    r
                },
            },
        }
    }

    /// One admission check for `key` at time `now_ms`: prune the key's
    /// window, admit and record while it holds fewer than `max_requests`
    /// entries, reject otherwise. Other keys are untouched.
    pub fn check(&mut self, key: &[u8], now_ms: u64) -> (r: bool)
        ensures
            final(self).max_requests == old(self).max_requests,
            final(self).window_ms == old(self).window_ms,
            ({
                let d = window_decision(
                    spec_ts_lookup(table_views(old(self).table@), key@),
                    now_ms,
                    old(self).window_ms,
                    old(self).max_requests as nat,
                );
                &&& r == d.0
                &&& table_views(final(self).table@) == spec_table_set(
                    table_views(old(self).table@),
                    key@,
                    d.1,
                )
                &&& spec_ts_lookup(table_views(final(self).table@), key@) == d.1
                &&& forall|k: Seq<u8>| k != key@ ==> #[trigger] spec_ts_lookup(
                    table_views(final(self).table@),
                    k,
                ) == spec_ts_lookup(table_views(old(self).table@), k)
            }),
    {
        // Find the key's entry.
        let n = self.table.len();
        let mut idx: usize = 0;
        let mut found = false;
        while idx < n && !found
            invariant
                idx <= n == self.table@.len(),
                forall|j: int| 0 <= j < idx ==> #[trigger] table_views(self.table@)[j].0 != key@,
                found ==> idx < n && table_views(self.table@)[idx as int].0 == key@,
            decreases n - idx, (if found { 0int } else { 1int }),
        {
            if bytes_eq(self.table[idx].0.as_slice(), key) {
                found = true;
            } else {
                idx += 1;
            }
        }
        let ghost tv = table_views(self.table@);
        let ghost old_ts = spec_ts_lookup(tv, key@);
        proof {
            if found {
                lemma_ts_lookup_at(tv, key@, idx as int);
            } else {
                lemma_ts_lookup_absent(tv, key@);
            }
        }
        // Prune the entry's window.
        let mut kept: Vec<u64> = Vec::new();
        if found {
            let m = self.table[idx].1.len();
            let mut j: usize = 0;
            while j < m
                invariant
                    j <= m,
                    idx < self.table@.len(),
                    m == self.table@[idx as int].1@.len(),
                    table_views(self.table@) == tv,
                    kept@ == spec_prune(
                        self.table@[idx as int].1@.take(j as int),
                        now_ms,
                        self.window_ms,
                    ),
                decreases m - j,
            {
                let ts = self.table[idx].1[j];
                proof {
                    assert(self.table@[idx as int].1@.take(j + 1).drop_last() =~= self.table@[
                        idx as int].1@.take(j as int));
                }
                let age = if ts <= now_ms {
                    now_ms - ts
                } else {
                    0
                };
                if age < self.window_ms {
                    kept.push(ts);
                }
                j += 1;
            }
            proof {
                assert(self.table@[idx as int].1@.take(m as int) =~= self.table@[idx as int].1@);
                assert(old_ts == self.table@[idx as int].1@);
            }
        } else {
            proof {
                assert(spec_prune(Seq::<u64>::empty(), now_ms, self.window_ms) =~= Seq::<
                    u64,
                >::empty());
                assert(kept@ =~= Seq::<u64>::empty());
            }
        }
        // Decide, and write the updated window back.
        let allowed = kept.len() < self.max_requests;
        if allowed {
            kept.push(now_ms);
        }
        let ghost new_ts = kept@;
        let key_owned = vstd::slice::slice_to_vec(key);
        if found {
            self.table[idx] = (key_owned, kept);
        } else {
            self.table.push((key_owned, kept));
        }
        proof {
            let tv2 = table_views(self.table@);
            if found {
                assert(tv2 =~= tv.update(idx as int, (key@, new_ts)));
                lemma_ts_lookup_update(tv, key@, idx as int, new_ts);
                lemma_table_set_at(tv, key@, idx as int, new_ts);
            } else {
                assert(tv2 =~= tv.push((key@, new_ts)));
                lemma_ts_lookup_push(tv, key@, new_ts);
                lemma_table_set_absent(tv, key@, new_ts);
            }
        }
        allowed
    }
}

/// Looking a key up lands on its first entry.
proof fn lemma_ts_lookup_at(tv: Seq<(Seq<u8>, Seq<u64>)>, key: Seq<u8>, i: int)
    requires
        0 <= i < tv.len(),
        tv[i].0 == key,
        forall|j: int| 0 <= j < i ==> tv[j].0 != key,
    ensures
        spec_ts_lookup(tv, key) == tv[i].1,
    decreases i,
{
    if i > 0 {
        lemma_ts_lookup_at(tv.skip(1), key, i - 1);
    }
}

/// A key no entry holds looks up to the empty window.
proof fn lemma_ts_lookup_absent(tv: Seq<(Seq<u8>, Seq<u64>)>, key: Seq<u8>)
    requires
        forall|j: int| 0 <= j < tv.len() ==> tv[j].0 != key,
    ensures
        spec_ts_lookup(tv, key) == Seq::<u64>::empty(),
    decreases tv.len(),
{
    if tv.len() > 0 {
        lemma_ts_lookup_absent(tv.skip(1), key);
    }
}

/// Updating the first entry of `key` changes that key's window and no other.
proof fn lemma_ts_lookup_update(tv: Seq<(Seq<u8>, Seq<u64>)>, key: Seq<u8>, i: int, ts: Seq<u64>)
    requires
        0 <= i < tv.len(),
        tv[i].0 == key,
        forall|j: int| 0 <= j < i ==> tv[j].0 != key,
    ensures
        spec_ts_lookup(tv.update(i, (key, ts)), key) == ts,
        forall|k: Seq<u8>| k != key ==> #[trigger] spec_ts_lookup(tv.update(i, (key, ts)), k)
            == spec_ts_lookup(tv, k),
    decreases i,
{
    let tv2 = tv.update(i, (key, ts));
    if i == 0 {
        assert(tv2.skip(1) =~= tv.skip(1));
    } else {
        lemma_ts_lookup_update(tv.skip(1), key, i - 1, ts);
        assert(tv2.skip(1) =~= tv.skip(1).update(i - 1, (key, ts)));
        assert(tv2[0] == tv[0]);
        assert forall|k: Seq<u8>| k != key implies #[trigger] spec_ts_lookup(tv2, k)
            == spec_ts_lookup(tv, k) by {
            if tv[0].0 != k {
                assert(spec_ts_lookup(tv2, k) == spec_ts_lookup(tv2.skip(1), k));
                assert(spec_ts_lookup(tv, k) == spec_ts_lookup(tv.skip(1), k));
            }
        }
    }
}

/// Appending an entry for a fresh `key` defines that key's window and
/// changes no other.
proof fn lemma_ts_lookup_push(tv: Seq<(Seq<u8>, Seq<u64>)>, key: Seq<u8>, ts: Seq<u64>)
    requires
        forall|j: int| 0 <= j < tv.len() ==> tv[j].0 != key,
    ensures
        spec_ts_lookup(tv.push((key, ts)), key) == ts,
        forall|k: Seq<u8>| k != key ==> #[trigger] spec_ts_lookup(tv.push((key, ts)), k)
            == spec_ts_lookup(tv, k),
    decreases tv.len(),
{
    let tv2 = tv.push((key, ts));
    if tv.len() == 0 {
        assert(tv2[0] == (key, ts));
        assert forall|k: Seq<u8>| k != key implies #[trigger] spec_ts_lookup(tv2, k)
            == spec_ts_lookup(tv, k) by {
            assert(tv2.skip(1) =~= Seq::<(Seq<u8>, Seq<u64>)>::empty());
            assert(spec_ts_lookup(Seq::<(Seq<u8>, Seq<u64>)>::empty(), k) == Seq::<u64>::empty());
            assert(spec_ts_lookup(tv2, k) == spec_ts_lookup(tv2.skip(1), k));
        }
    } else {
        lemma_ts_lookup_push(tv.skip(1), key, ts);
        assert(tv2.skip(1) =~= tv.skip(1).push((key, ts)));
        assert(tv2[0] == tv[0]);
        assert forall|k: Seq<u8>| k != key implies #[trigger] spec_ts_lookup(tv2, k)
            == spec_ts_lookup(tv, k) by {
            if tv[0].0 != k {
                assert(spec_ts_lookup(tv2, k) == spec_ts_lookup(tv2.skip(1), k));
                assert(spec_ts_lookup(tv, k) == spec_ts_lookup(tv.skip(1), k));
            }
        }
    }
}

/// A terminal request handler: the innermost callee of a middleware chain.
/// Its specification function names the response it computes, and `call`
/// is held to it.
pub trait Handler {
    /// The response this handler computes for a request.
    spec fn spec_response(&self, req: ReqModel) -> RespModel;

    /// Compute the response.
    fn call(&self, req: &Request) -> (r: Response)
        ensures
            resp_model(r) == self.spec_response(req_model(req)),
    ;
}

/// One middleware unit of the chain.
pub enum Middleware {
    /// Computes log lines; the data flow is the identity.
    Logging(LoggingMiddleware),
    /// Marks the fault barrier; the data flow is the identity.
    Recovery(RecoveryMiddleware),
    /// Appends the hardening headers after downstream processing.
    SecurityHeaders(SecurityHeadersMiddleware),
    /// Admits or rejects by the sliding window, rejecting with `429`.
    RateLimit(RateLimitMiddleware),
    /// Appends one fixed header after downstream processing.
    AppendHeader(AppendHeaderMiddleware),
}

/// The mathematical content of a middleware unit.
pub ghost enum MwView {
    /// A logging unit.
    Logging,
    /// A fault-barrier unit.
    Recovery,
    /// A hardening-headers unit and its configuration.
    Security { csp: Option<Seq<u8>>, frame_options: Seq<u8> },
    /// A rate-limit unit with its policy and per-key windows.
    RateLimit { max: nat, window: u64, table: Seq<(Seq<u8>, Seq<u64>)> },
    /// A header-stamping unit.
    Append { name: Seq<u8>, value: Seq<u8> },
}

/// The view of a middleware unit.
pub open spec fn mw_view(m: Middleware) -> MwView {
    match m {
        Middleware::Logging(_) => MwView::Logging,
        Middleware::Recovery(_) => MwView::Recovery,
        Middleware::SecurityHeaders(s) => MwView::Security {
            csp: match s.csp {
                Some(v) => Some(v@),
                None => None,
            },
            frame_options: s.frame_options@,
        },
        Middleware::RateLimit(rl) => MwView::RateLimit {
            max: rl.max_requests as nat,
            window: rl.window_ms,
            table: table_views(rl.table@),
        },
        Middleware::AppendHeader(a) => MwView::Append { name: a.name@, value: a.value@ },
    }
}

/// The views of a unit list.
pub open spec fn mw_views(ms: Seq<Middleware>) -> Seq<MwView> {
    Seq::new(ms.len(), |i: int| mw_view(ms[i]))
}

/// The model of the `429 Too Many Requests` response the rate limiter
/// answers with: the default headers, `Retry-After: 60`, and its fixed body.
pub open spec fn model_429() -> RespModel {
    RespModel {
        status: Status::TooManyRequests,
        headers: seq![
            (crate::response::server_name_bytes(), crate::response::server_value_bytes()),
            (crate::response::ct_name_bytes(), crate::response::ct_value_bytes()),
            // "Retry-After: 60"
            (seq![82u8, 101u8, 116u8, 114u8, 121u8, 45u8, 65u8, 102u8, 116u8, 101u8, 114u8],
                seq![54u8, 48u8]),
        ],
        // "Rate limit exceeded"
        body: seq![82u8, 97u8, 116u8, 101u8, 32u8, 108u8, 105u8, 109u8, 105u8, 116u8, 32u8,
            101u8, 120u8, 99u8, 101u8, 101u8, 100u8, 101u8, 100u8],
    }
}

/// What a unit's before phase does: the unit's next state, and its response
/// when it short-circuits. Only the rate limiter does either.
pub open spec fn spec_before(v: MwView, hs: Seq<(Seq<u8>, Seq<u8>)>, now: u64) -> (
    MwView,
    Option<RespModel>,
) {
    match v {
        MwView::RateLimit { max, window, table } => {
            let key = spec_client_key(hs);
            let d = window_decision(spec_ts_lookup(table, key), now, window, max);
            let table2 = spec_table_set(table, key, d.1);
            if d.0 {
                (MwView::RateLimit { max, window, table: table2 }, None)
            } else {
                (MwView::RateLimit { max, window, table: table2 }, Some(model_429()))
            }
        },
        _ => (v, None),
    }
}

/// What a unit's after phase does to the response.
pub open spec fn spec_after(v: MwView, r: RespModel) -> RespModel {
    match v {
        MwView::Security { csp, frame_options } => RespModel {
            status: r.status,
            headers: r.headers + spec_security_applied(csp, frame_options),
            body: r.body,
        },
        MwView::Append { name, value } => RespModel {
            status: r.status,
            headers: r.headers.push((name, value)),
            body: r.body,
        },
        _ => r,
    }
}

/// Running the chain over units `vs`: before phases in order until one
/// short-circuits, the terminal response `inner` when none does, then the
/// after phases of the units already entered, innermost first.
pub open spec fn spec_run(
    vs: Seq<MwView>,
    hs: Seq<(Seq<u8>, Seq<u8>)>,
    now: u64,
    inner: RespModel,
) -> (Seq<MwView>, RespModel)
    decreases vs.len(),
{
    if vs.len() == 0 {
        (vs, inner)
    } else {
        let b = spec_before(vs[0], hs, now);
        match b.1 {
            Some(resp) => (seq![b.0] + vs.skip(1), resp),
            None => {
                let rest = spec_run(vs.skip(1), hs, now, inner);
                (seq![b.0] + rest.0, spec_after(vs[0], rest.1))
            },
        }
    }
}

/// `table` with the window of `key` set to `ts`: the key's first entry is
/// replaced, or a new entry appended.
pub open spec fn spec_table_set(table: Seq<(Seq<u8>, Seq<u64>)>, key: Seq<u8>, ts: Seq<u64>) -> Seq<
    (Seq<u8>, Seq<u64>),
>
    decreases table.len(),
{
    if table.len() == 0 {
        seq![(key, ts)]
    } else if table[0].0 == key {
        seq![(key, ts)] + table.skip(1)
    } else {
        seq![table[0]] + spec_table_set(table.skip(1), key, ts)
    }
}

/// The client key a rate limiter buckets a request under.
pub open spec fn spec_client_key(hs: Seq<(Seq<u8>, Seq<u8>)>) -> Seq<u8> {
    // "x-forwarded-for"
    let xff = spec_header_lookup(hs, seq![120u8, 45u8, 102u8, 111u8, 114u8, 119u8, 97u8, 114u8,
        100u8, 101u8, 100u8, 45u8, 102u8, 111u8, 114u8]);
    // "x-real-ip"
    let xri = spec_header_lookup(hs, seq![120u8, 45u8, 114u8, 101u8, 97u8, 108u8, 45u8, 105u8,
        112u8]);
    match xff {
        Some(v) => v,
        None => match xri {
            Some(v) => v,
            // "unknown"
            None => seq![117u8, 110u8, 107u8, 110u8, 111u8, 119u8, 110u8],
        },
    }
}

/// Setting the window of a key that first appears at `i` replaces that entry.
proof fn lemma_table_set_at(tv: Seq<(Seq<u8>, Seq<u64>)>, key: Seq<u8>, i: int, ts: Seq<u64>)
    requires
        0 <= i < tv.len(),
        tv[i].0 == key,
        forall|j: int| 0 <= j < i ==> tv[j].0 != key,
    ensures
        spec_table_set(tv, key, ts) == tv.update(i, (key, ts)),
    decreases i,
{
    if i == 0 {
        assert(seq![(key, ts)] + tv.skip(1) =~= tv.update(0, (key, ts)));
    } else {
        lemma_table_set_at(tv.skip(1), key, i - 1, ts);
        assert(seq![tv[0]] + tv.skip(1).update(i - 1, (key, ts)) =~= tv.update(i, (key, ts)));
    }
}

/// Setting the window of a key no entry holds appends a new entry.
proof fn lemma_table_set_absent(tv: Seq<(Seq<u8>, Seq<u64>)>, key: Seq<u8>, ts: Seq<u64>)
    requires
        forall|j: int| 0 <= j < tv.len() ==> tv[j].0 != key,
    ensures
        spec_table_set(tv, key, ts) == tv.push((key, ts)),
    decreases tv.len(),
{
    if tv.len() == 0 {
        assert(seq![(key, ts)] =~= tv.push((key, ts)));
    } else {
        lemma_table_set_absent(tv.skip(1), key, ts);
        assert(seq![tv[0]] + tv.skip(1).push((key, ts)) =~= tv.push((key, ts)));
    }
}

/// The after phases of `vs` applied to `r`, the last unit's first.
pub open spec fn spec_afters(vs: Seq<MwView>, r: RespModel) -> RespModel
    decreases vs.len(),
{
    if vs.len() == 0 {
        r
    } else {
        spec_after(vs[0], spec_afters(vs.skip(1), r))
    }
}

/// Extending the unit list at its end applies the new unit's after phase
/// innermost.
proof fn lemma_afters_snoc(vs: Seq<MwView>, v: MwView, r: RespModel)
    ensures
        spec_afters(vs.push(v), r) == spec_afters(vs, spec_after(v, r)),
    decreases vs.len(),
{
    if vs.len() == 0 {
        assert(vs.push(v)[0] == v);
        assert(vs.push(v).skip(1) =~= Seq::<MwView>::empty());
        assert(spec_afters(Seq::<MwView>::empty(), r) == r);
        assert(spec_afters(vs.push(v), r) == spec_after(v, r));
        assert(spec_afters(vs, spec_after(v, r)) == spec_after(v, r));
    } else {
        lemma_afters_snoc(vs.skip(1), v, r);
        assert(vs.push(v).skip(1) =~= vs.skip(1).push(v));
        assert(vs.push(v)[0] == vs[0]);
    }
}

/// Apply one unit's after phase to a response.
fn apply_after_unit(m: &Middleware, resp: Response) -> (r: Response)
    ensures
        resp_model(r) == spec_after(mw_view(*m), resp_model(resp)),
{
    match m {
        Middleware::SecurityHeaders(s) => {
            let ghost before = resp_model(resp);
            let mut resp = resp;
            // "X-Content-Type-Options"
            let xcto_n: [u8; 22] = [
                88, 45, 67, 111, 110, 116, 101, 110, 116, 45, 84, 121, 112, 101, 45, 79, 112,
                116, 105, 111, 110, 115,
            ];
            let xcto_v: [u8; 7] = [110, 111, 115, 110, 105, 102, 102];  // "nosniff"
            // "X-Frame-Options"
            let xfo_n: [u8; 15] = [88, 45, 70, 114, 97, 109, 101, 45, 79, 112, 116, 105, 111,
                110, 115];
            // "X-XSS-Protection"
            let xxp_n: [u8; 16] = [88, 45, 88, 83, 83, 45, 80, 114, 111, 116, 101, 99, 116, 105,
                111, 110];
            let xxp_v: [u8; 13] = [49, 59, 32, 109, 111, 100, 101, 61, 98, 108, 111, 99, 107];  // "1; mode=block"
            // "Referrer-Policy"
            let rp_n: [u8; 15] = [82, 101, 102, 101, 114, 114, 101, 114, 45, 80, 111, 108, 105,
                99, 121];
            // "strict-origin-when-cross-origin"
            let rp_v: [u8; 31] = [
                115, 116, 114, 105, 99, 116, 45, 111, 114, 105, 103, 105, 110, 45, 119, 104, 101,
                110, 45, 99, 114, 111, 115, 115, 45, 111, 114, 105, 103, 105, 110,
            ];
            // "Content-Security-Policy"
            let csp_n: [u8; 23] = [
                67, 111, 110, 116, 101, 110, 116, 45, 83, 101, 99, 117, 114, 105, 116, 121, 45,
                80, 111, 108, 105, 99, 121,
            ];
            resp.add_header(
                vstd::slice::slice_to_vec(xcto_n.as_slice()),
                vstd::slice::slice_to_vec(xcto_v.as_slice()),
            );
            resp.add_header(
                vstd::slice::slice_to_vec(xfo_n.as_slice()),
                vstd::slice::slice_to_vec(s.frame_options.as_slice()),
            );
            resp.add_header(
                vstd::slice::slice_to_vec(xxp_n.as_slice()),
                vstd::slice::slice_to_vec(xxp_v.as_slice()),
            );
            resp.add_header(
                vstd::slice::slice_to_vec(rp_n.as_slice()),
                vstd::slice::slice_to_vec(rp_v.as_slice()),
            );
            match &s.csp {
                Some(v) => {
                    resp.add_header(
                        vstd::slice::slice_to_vec(csp_n.as_slice()),
                        vstd::slice::slice_to_vec(v.as_slice()),
                    );
                },
                None => {},
            }
            proof {
                let applied = spec_security_applied(
                    match &s.csp {
                        Some(v) => Some(v@),
                        None => None,
                    },
                    s.frame_options@,
                );
                assert(resp_model(resp).headers =~= before.headers + applied);
            }
            resp
        },
        Middleware::AppendHeader(a) => {
            let ghost before = resp_model(resp);
            let mut resp = resp;
            resp.add_header(
                vstd::slice::slice_to_vec(a.name.as_slice()),
                vstd::slice::slice_to_vec(a.value.as_slice()),
            );
            proof {
                assert(resp_model(resp).headers =~= before.headers.push((a.name@, a.value@)));
            }
            resp
        },
        _ => resp,
    }
}

/// Over a prefix whose units all decline to short-circuit, running the
/// chain evolves exactly those units and leaves the rest to the suffix.
proof fn lemma_run_prefix(
    vs: Seq<MwView>,
    hs: Seq<(Seq<u8>, Seq<u8>)>,
    now: u64,
    inner: RespModel,
    i: int,
)
    requires
        0 <= i <= vs.len(),
        forall|j: int| 0 <= j < i ==> #[trigger] spec_before(vs[j], hs, now).1 is None,
    ensures
        spec_run(vs, hs, now, inner).0 == Seq::new(i as nat, |j: int| spec_before(vs[j], hs, now).0)
            + spec_run(vs.skip(i), hs, now, inner).0,
    decreases i,
{
    if i == 0 {
        assert(vs.skip(0) =~= vs);
        assert(Seq::new(0, |j: int| spec_before(vs[j], hs, now).0) + spec_run(
            vs.skip(0),
            hs,
            now,
            inner,
        ).0 =~= spec_run(vs, hs, now, inner).0);
    } else {
        let tail = vs.skip(1);
        assert(spec_before(vs[0], hs, now).1 is None);
        assert(forall|j: int| 0 <= j < i - 1 ==> #[trigger] spec_before(tail[j], hs, now).1
            is None) by {
            assert(forall|j: int| 0 <= j < tail.len() ==> tail[j] == vs[j + 1]);
        }
        lemma_run_prefix(tail, hs, now, inner, i - 1);
        assert(tail.skip(i - 1) =~= vs.skip(i));
        assert(seq![spec_before(vs[0], hs, now).0] + (Seq::new(
            (i - 1) as nat,
            |j: int| spec_before(tail[j], hs, now).0,
        ) + spec_run(vs.skip(i), hs, now, inner).0) =~= Seq::new(
            i as nat,
            |j: int| spec_before(vs[j], hs, now).0,
        ) + spec_run(vs.skip(i), hs, now, inner).0);
    }
}

/// An ordered list of middleware units wrapping a terminal handler.
pub struct Chain {
    /// The units, in registration order: the first registered is outermost.
    pub units: Vec<Middleware>,
}

impl Chain {
    /// An empty chain.
    pub fn new() -> (r: Chain)
        ensures
            r.units@.len() == 0,
    {
        Chain { units: Vec::new() }
    }

    /// Register one more unit, wrapped innermost of those registered so far.
    pub fn add(self, m: Middleware) -> (r: Chain)
        ensures
            mw_views(r.units@) == mw_views(self.units@).push(mw_view(m)),
    {
        let ghost before = mw_views(self.units@);
        let mut units = self.units;
        units.push(m);
        proof {
            assert(mw_views(units@) =~= before.push(mw_view(units@.last())));
        }
        Chain { units }
    }

    /// Run the chain around `handler` for one request: before phases in
    /// registration order — a short-circuiting unit ends the descent with
    /// its own response and the handler is never invoked — then the after
    /// phases of the units entered, innermost first, so the first unit
    /// registered sees the response last.
    #[verifier::loop_isolation(false)]
    #[verifier::rlimit(100)]
    pub fn run<H: Handler>(&mut self, req: &Request, now_ms: u64, handler: &H) -> (r: Response)
        ensures
            ({
                let run = spec_run(
                    mw_views(old(self).units@),
                    hdr_views(req.headers@),
                    now_ms,
                    handler.spec_response(req_model(req)),
                );
                &&& resp_model(r) == run.1
                &&& mw_views(final(self).units@) == run.0
            }),
    {
        let ghost hs = hdr_views(req.headers@);
        let ghost inner0 = handler.spec_response(req_model(req));
        let ghost vs0 = mw_views(old(self).units@);
        let ghost full = spec_run(vs0, hs, now_ms, inner0).1;
        let ghost full_units = spec_run(vs0, hs, now_ms, inner0).0;
        let n = self.units.len();
        let mut i: usize = 0;
        let mut short: Option<Response> = None;
        proof {
            assert(vs0.take(0) =~= Seq::<MwView>::empty());
            assert(vs0.skip(0) =~= vs0);
        }
        while i < n && short.is_none()
            invariant
                i <= n == self.units@.len(),
                short is None ==> mw_views(self.units@).skip(i as int) == vs0.skip(i as int),
                short is Some ==> mw_views(self.units@).skip(i + 1) == vs0.skip(i + 1),
                forall|j: int, x: RespModel| 0 <= j < i ==> #[trigger] spec_after(
                    mw_view(self.units@[j]),
                    x,
                ) == spec_after(vs0[j], x),
                forall|j: int| 0 <= j < i ==> #[trigger] mw_view(self.units@[j]) == spec_before(
                    vs0[j],
                    hs,
                    now_ms,
                ).0,
                forall|j: int| 0 <= j < i ==> #[trigger] spec_before(
                    vs0[j],
                    hs,
                    now_ms,
                ).1 is None,
                short is Some ==> i < n && mw_view(self.units@[i as int]) == spec_before(
                    vs0[i as int],
                    hs,
                    now_ms,
                ).0 && spec_before(vs0[i as int], hs, now_ms).1 is Some,
                short is None ==> full == spec_afters(
                    vs0.take(i as int),
                    spec_run(vs0.skip(i as int), hs, now_ms, inner0).1,
                ),
                match short {
                    Some(resp) => full == spec_afters(vs0.take(i as int), resp_model(resp)),
                    None => true,
                },
            decreases n - i, (if short.is_none() { 1int } else { 0int }),
        {
            let ghost units_before = self.units@;
            proof {
                assert(mw_views(units_before).skip(i as int)[0] == mw_view(
                    units_before[i as int],
                ));
                assert(mw_view(units_before[i as int]) == vs0[i as int]);
            }
            let unit = self.units.remove(i);
            let ghost b = spec_before(vs0[i as int], hs, now_ms);
            match unit {
                Middleware::RateLimit(rl) => {
                    let mut rl = rl;
                    let key = RateLimitMiddleware::get_client_key(req);
                    let allowed = rl.check(key.as_slice(), now_ms);
                    self.units.insert(i, Middleware::RateLimit(rl));
                    if !allowed {
                        // "Retry-After"
                        let ra_n: [u8; 11] = [82, 101, 116, 114, 121, 45, 65, 102, 116, 101,
                            114];
                        let ra_v: [u8; 2] = [54, 48];  // "60"
                        // "Rate limit exceeded"
                        let body: [u8; 19] = [
                            82, 97, 116, 101, 32, 108, 105, 109, 105, 116, 32, 101, 120, 99, 101,
                            101, 100, 101, 100,
                        ];
                        let resp = Response::new(Status::TooManyRequests).header(
                            vstd::slice::slice_to_vec(ra_n.as_slice()),
                            vstd::slice::slice_to_vec(ra_v.as_slice()),
                        ).body(vstd::slice::slice_to_vec(body.as_slice()));
                        proof {
                            lemma_429_model(resp);
                        }
                        short = Some(resp);
                    }
                },
                other => {
                    self.units.insert(i, other);
                },
            }
            proof {
                assert(self.units@ =~= units_before.update(i as int, self.units@[i as int]));
                assert(mw_view(self.units@[i as int]) == b.0);
                assert forall|k: int| i + 1 <= k < n implies mw_view(
                    #[trigger] self.units@[k],
                ) == vs0[k] by {
                    assert(self.units@[k] == units_before[k]);
                    assert(mw_views(units_before)[k] == mw_views(units_before).skip(
                        i as int,
                    )[k - i]);
                    assert(mw_views(units_before).skip(i as int)[k - i] == vs0.skip(
                        i as int,
                    )[k - i]);
                }
                assert(mw_views(self.units@).skip(i + 1) =~= vs0.skip(i + 1));
                assert(vs0.skip(i as int).skip(1) =~= vs0.skip(i + 1));
                assert(vs0.skip(i as int)[0] == vs0[i as int]);
                lemma_before_preserves_after_all(vs0[i as int], hs, now_ms);
                assert(vs0.take(i + 1) =~= vs0.take(i as int).push(vs0[i as int]));
                match &short {
                    Some(resp) => {
                        assert(b.1 == Some(resp_model(*resp)));
                        assert(spec_run(vs0.skip(i as int), hs, now_ms, inner0).1 == resp_model(
                            *resp,
                        ));
                    },
                    None => {
                        assert(b.1 is None);
                        assert(spec_run(vs0.skip(i as int), hs, now_ms, inner0).1 == spec_after(
                            vs0[i as int],
                            spec_run(vs0.skip(i + 1), hs, now_ms, inner0).1,
                        ));
                        lemma_afters_snoc(
                            vs0.take(i as int),
                            vs0[i as int],
                            spec_run(vs0.skip(i + 1), hs, now_ms, inner0).1,
                        );
                    },
                }
            }
            if short.is_none() {
                i += 1;
            }
        }
        proof {
            match &short {
                Some(_) => {
                    lemma_run_prefix(vs0, hs, now_ms, inner0, i as int);
                    assert(vs0.skip(i as int)[0] == vs0[i as int]);
                    assert(seq![spec_before(vs0[i as int], hs, now_ms).0] + vs0.skip(i as int)
                        .skip(1) =~= spec_run(vs0.skip(i as int), hs, now_ms, inner0).0);
                    assert(vs0.skip(i as int).skip(1) =~= vs0.skip(i + 1));
                    assert(mw_views(self.units@) =~= full_units);
                },
                None => {
                    assert(i == n);
                    lemma_run_prefix(vs0, hs, now_ms, inner0, n as int);
                    assert(vs0.skip(n as int).len() == 0);
                    assert(spec_run(vs0.skip(n as int), hs, now_ms, inner0).0 =~= vs0.skip(
                        n as int,
                    ));
                    assert(mw_views(self.units@) =~= full_units);
                },
            }
        }
        // The terminal response: the short-circuit, or the handler's.
        let upto = i;
        let mut resp: Response = match short {
            Some(resp) => resp,
            None => {
                proof {
                    assert(vs0.skip(n as int).len() == 0);
                }
                handler.call(req)
            },
        };
        let ghost base = resp_model(resp);
        proof {
            assert(full == spec_afters(vs0.take(upto as int), base));
            assert(vs0.subrange(upto as int, upto as int).len() == 0);
        }
        // After phases, innermost first.
        let mut j: usize = upto;
        while j > 0
            invariant
                j <= upto,
                resp_model(resp) == spec_afters(vs0.subrange(j as int, upto as int), base),
            decreases j,
        {
            j -= 1;
            let m = &self.units[j];
            resp = apply_after_unit(m, resp);
            proof {
                assert(vs0.subrange(j as int, upto as int).skip(1) =~= vs0.subrange(
                    j + 1,
                    upto as int,
                ));
                assert(vs0.subrange(j as int, upto as int)[0] == vs0[j as int]);
                assert(spec_after(mw_view(self.units@[j as int]), spec_afters(
                    vs0.subrange(j + 1, upto as int),
                    base,
                )) == spec_after(vs0[j as int], spec_afters(
                    vs0.subrange(j + 1, upto as int),
                    base,
                )));
            }
        }
        proof {
            assert(vs0.subrange(0, upto as int) =~= vs0.take(upto as int));
        }
        resp
    }
}

/// A unit's before phase never changes its after phase, for every response.
proof fn lemma_before_preserves_after_all(v: MwView, hs: Seq<(Seq<u8>, Seq<u8>)>, now: u64)
    ensures
        forall|x: RespModel| #[trigger] spec_after(spec_before(v, hs, now).0, x) == spec_after(
            v,
            x,
        ),
{
}

/// The rate limiter's rejection response has the model [`model_429`].
proof fn lemma_429_model(resp: Response)
    requires
        resp.status == Status::TooManyRequests,
        hdr_views(resp.headers@) == crate::response::spec_remove_header(
            seq![
                (crate::response::server_name_bytes(), crate::response::server_value_bytes()),
                (crate::response::ct_name_bytes(), crate::response::ct_value_bytes()),
            ],
            seq![82u8, 101u8, 116u8, 114u8, 121u8, 45u8, 65u8, 102u8, 116u8, 101u8, 114u8],
        ).push((seq![82u8, 101u8, 116u8, 114u8, 121u8, 45u8, 65u8, 102u8, 116u8, 101u8, 114u8],
            seq![54u8, 48u8])),
        resp.body@ == seq![82u8, 97u8, 116u8, 101u8, 32u8, 108u8, 105u8, 109u8, 105u8, 116u8,
            32u8, 101u8, 120u8, 99u8, 101u8, 101u8, 100u8, 101u8, 100u8],
    ensures
        resp_model(resp) == model_429(),
{
    let defaults = seq![
        (crate::response::server_name_bytes(), crate::response::server_value_bytes()),
        (crate::response::ct_name_bytes(), crate::response::ct_value_bytes()),
    ];
    let ra = seq![82u8, 101u8, 116u8, 114u8, 121u8, 45u8, 65u8, 102u8, 116u8, 101u8, 114u8];
    assert(defaults.last().0.len() == 12 && ra.len() == 11);
    assert(defaults.drop_last() =~= seq![defaults[0]]);
    assert(defaults[0].0.len() == 6);
    assert(seq![defaults[0]].drop_last() =~= Seq::<(Seq<u8>, Seq<u8>)>::empty());
    assert(crate::response::spec_remove_header(
        Seq::<(Seq<u8>, Seq<u8>)>::empty(),
        ra,
    ).len() == 0);
    assert(crate::response::spec_remove_header(seq![defaults[0]], ra)
        =~= Seq::<(Seq<u8>, Seq<u8>)>::empty().push(defaults[0]));
    assert(crate::response::spec_remove_header(defaults, ra) =~= defaults);
    assert(resp_model(resp).headers =~= model_429().headers);
}

/// Wrapping a terminal handler in units `[A, B]`, each stamping one header
/// after its inner call, yields the handler's response with B's header
/// first and A's after it: the inner unit's effect lands first, the outer
/// unit sees the response last.
pub proof fn lemma_middleware_order(
    a_name: Seq<u8>,
    a_value: Seq<u8>,
    b_name: Seq<u8>,
    b_value: Seq<u8>,
    hs: Seq<(Seq<u8>, Seq<u8>)>,
    now: u64,
    r: RespModel,
)
    ensures
        ({
            let units = seq![MwView::Append { name: a_name, value: a_value },
                MwView::Append { name: b_name, value: b_value }];
            let out = spec_run(units, hs, now, r).1;
            &&& out.status == r.status
            &&& out.body == r.body
            &&& out.headers == r.headers.push((b_name, b_value)).push((a_name, a_value))
        }),
{
    let units = seq![MwView::Append { name: a_name, value: a_value },
        MwView::Append { name: b_name, value: b_value }];
    let tail = units.skip(1);
    assert(tail[0] == units[1]);
    assert(tail.skip(1) =~= Seq::<MwView>::empty());
    assert(spec_run(tail.skip(1), hs, now, r).1 == r);
    assert(spec_run(tail, hs, now, r).1 == spec_after(tail[0], r));
    assert(spec_run(units, hs, now, r).1 == spec_after(units[0], spec_run(tail, hs, now, r).1));
}

/// A middleware unit whose appended headers serialize to well-formed
/// lines: configurable names and values must carry no line break, and a
/// configurable name no colon and not the serializer's own `Content-Length`.
pub open spec fn mw_wf(v: MwView) -> bool {
    match v {
        MwView::Append { name, value } => crate::response::header_entry_wf(name, value),
        MwView::Security { csp, frame_options } => {
            &&& forall|j: int| 0 <= j < frame_options.len() ==> frame_options[j] != crate::bytes::LF
            &&& match csp {
                Some(v) => forall|j: int| 0 <= j < v.len() ==> v[j] != crate::bytes::LF,
                None => true,
            }
        },
        _ => true,
    }
}

/// Appending well-formed entries keeps a header list well formed.
proof fn lemma_headers_wf_concat(
    a: Seq<(Seq<u8>, Seq<u8>)>,
    b: Seq<(Seq<u8>, Seq<u8>)>,
)
    requires
        crate::response::headers_wf(a),
        crate::response::headers_wf(b),
    ensures
        crate::response::headers_wf(a + b),
{
    assert forall|i: int| 0 <= i < (a + b).len() implies #[trigger] crate::response::header_entry_wf(
        (a + b)[i].0,
        (a + b)[i].1,
    ) by {
        if i < a.len() {
            assert((a + b)[i] == a[i]);
        } else {
            assert((a + b)[i] == b[i - a.len()]);
        }
    }
}

/// A well-formed unit's after phase keeps the response's headers well
/// formed.
proof fn lemma_after_preserves_wf(v: MwView, r: RespModel)
    requires
        mw_wf(v),
        crate::response::headers_wf(r.headers),
    ensures
        crate::response::headers_wf(spec_after(v, r).headers),
{
    match v {
        MwView::Security { csp, frame_options } => {
            let applied = spec_security_applied(csp, frame_options);
            assert(crate::response::headers_wf(applied)) by {
                assert forall|i: int| 0 <= i < applied.len()
                    implies #[trigger] crate::response::header_entry_wf(
                    applied[i].0,
                    applied[i].1,
                ) by {
                    assert(applied[i].0.len() != crate::response::cl_name_bytes().len());
                }
            }
            lemma_headers_wf_concat(r.headers, applied);
        },
        MwView::Append { name, value } => {
            assert(r.headers.push((name, value)) =~= r.headers + seq![(name, value)]);
            assert(crate::response::headers_wf(seq![(name, value)]));
            lemma_headers_wf_concat(r.headers, seq![(name, value)]);
        },
        _ => {},
    }
}

/// The rate limiter's rejection response has well-formed headers.
proof fn lemma_429_wf()
    ensures
        crate::response::headers_wf(model_429().headers),
{
    assert forall|i: int| 0 <= i < model_429().headers.len()
        implies #[trigger] crate::response::header_entry_wf(
        model_429().headers[i].0,
        model_429().headers[i].1,
    ) by {
        assert(model_429().headers[i].0.len() != crate::response::cl_name_bytes().len());
    }
}

/// A chain of well-formed units hands on well-formed headers: whatever the
/// terminal response's headers, and whether or not a unit short-circuits,
/// the response the run yields still serializes line by line.
pub proof fn lemma_run_preserves_wf(
    vs: Seq<MwView>,
    hs: Seq<(Seq<u8>, Seq<u8>)>,
    now: u64,
    inner: RespModel,
)
    requires
        forall|i: int| 0 <= i < vs.len() ==> #[trigger] mw_wf(vs[i]),
        crate::response::headers_wf(inner.headers),
    ensures
        crate::response::headers_wf(spec_run(vs, hs, now, inner).1.headers),
    decreases vs.len(),
{
    if vs.len() > 0 {
        let b = spec_before(vs[0], hs, now);
        match b.1 {
            Some(resp) => {
                assert(resp == model_429());
                lemma_429_wf();
            },
            None => {
                assert(forall|i: int| 0 <= i < vs.skip(1).len() ==> #[trigger] mw_wf(
                    vs.skip(1)[i],
                ));
                lemma_run_preserves_wf(vs.skip(1), hs, now, inner);
                assert(mw_wf(vs[0]));
                lemma_after_preserves_wf(vs[0], spec_run(vs.skip(1), hs, now, inner).1);
            },
        }
    }
}

/// `k` admissions recorded at one instant.
pub open spec fn repeat_ts(t: u64, k: nat) -> Seq<u64> {
    Seq::new(k, |i: int| t)
}

/// Pruning a window of identical timestamps keeps all of them or none.
proof fn lemma_prune_repeat(t: u64, k: nat, now: u64, window: u64)
    ensures
        spec_prune(repeat_ts(t, k), now, window) == if spec_in_window(t, now, window) {
            repeat_ts(t, k)
        } else {
            Seq::<u64>::empty()
        },
    decreases k,
{
    if k == 0 {
        assert(repeat_ts(t, 0) =~= Seq::<u64>::empty());
    } else {
        lemma_prune_repeat(t, (k - 1) as nat, now, window);
        assert(repeat_ts(t, k).drop_last() =~= repeat_ts(t, (k - 1) as nat));
        if spec_in_window(t, now, window) {
            assert(repeat_ts(t, (k - 1) as nat).push(t) =~= repeat_ts(t, k));
        }
    }
}

/// Each of the first `max_requests` submissions inside one window is
/// admitted: from `k` admissions recorded at `now`, `k < max` of them, one
/// more at `now` is admitted and recorded.
pub proof fn lemma_rate_limit_admits(max: nat, window: u64, now: u64, k: nat)
    requires
        window >= 1,
        k < max,
    ensures
        window_decision(repeat_ts(now, k), now, window, max) == (true, repeat_ts(
            now,
            (k + 1) as nat,
        )),
{
    lemma_prune_repeat(now, k, now, window);
    assert(spec_in_window(now, now, window));
    assert(repeat_ts(now, k).push(now) =~= repeat_ts(now, (k + 1) as nat));
}

/// The submission after the window fills is rejected, and records nothing.
pub proof fn lemma_rate_limit_rejects(max: nat, window: u64, now: u64)
    requires
        window >= 1,
    ensures
        window_decision(repeat_ts(now, max), now, window, max) == (false, repeat_ts(now, max)),
{
    lemma_prune_repeat(now, max, now, window);
    assert(spec_in_window(now, now, window));
}

/// Once the window has elapsed, a submission is admitted again: at any
/// `later` at least one window past `now`, the filled window is pruned away
/// and the new submission recorded alone.
pub proof fn lemma_rate_limit_recovers(max: nat, window: u64, now: u64, later: u64)
    requires
        max >= 1,
        now + window <= later,
    ensures
        window_decision(repeat_ts(now, max), later, window, max) == (true, seq![later]),
{
    lemma_prune_repeat(now, max, later, window);
    assert(!spec_in_window(now, later, window));
    assert(Seq::<u64>::empty().push(later) =~= seq![later]);
}

} // verus!
