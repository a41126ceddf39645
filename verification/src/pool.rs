//! Connection-pool policy: the bounded sizing and timeout defaults every
//! pooled connection is opened with, the connectivity failure value, and
//! the checkout-accounting model whose fail-fast exhaustion policy is the
//! one this service tier commits to.

use vstd::prelude::*;
use vstd::string::StringExecFns;

use crate::config::LogLevel;
use crate::error::DError;
use crate::error::LogicErr;

verus! {

/// Default ceiling on pooled connections, tuned for a lightweight service
/// tier.
pub const DEFAULT_SQL_MAX_CONNECTIONS: u32 = 5;

/// Default floor on pooled connections.
pub const DEFAULT_SQL_MIN_CONNECTIONS: u32 = 1;

/// Default connect timeout, in seconds.
pub const DEFAULT_SQL_CONNECT_TIMEOUT: u64 = 5;

/// Everything a pooled connection is opened with: the address, the size
/// bounds, the connect timeout and the statement-logging verbosity. The
/// caller translates this plan into the driver's options verbatim.
pub struct PoolConfig {
    pub addr: String,
    pub max_connections: u32,
    pub min_connections: u32,
    pub connect_timeout_secs: u64,
    pub sqlx_logging: bool,
    pub log_level: LogLevel,
}

impl PoolConfig {
    /// The pool configuration for one address: bounded between one and
    /// five connections, a five-second connect timeout, statement logging
    /// on at the given verbosity.
    pub fn for_addr(addr: &str, log_level: LogLevel) -> (r: Self)
        ensures
            r.addr@ == addr@,
            r.max_connections == DEFAULT_SQL_MAX_CONNECTIONS,
            r.min_connections == DEFAULT_SQL_MIN_CONNECTIONS,
            r.min_connections >= 1,
            r.min_connections <= r.max_connections,
            r.connect_timeout_secs == DEFAULT_SQL_CONNECT_TIMEOUT,
            r.sqlx_logging == true,
            r.log_level == log_level,
    {
        PoolConfig {
            addr: String::from_str(addr),
            max_connections: DEFAULT_SQL_MAX_CONNECTIONS,
            min_connections: DEFAULT_SQL_MIN_CONNECTIONS,
            connect_timeout_secs: DEFAULT_SQL_CONNECT_TIMEOUT,
            sqlx_logging: true,
            log_level,
        }
    }
}

/// The failure surfaced when a pooled connection cannot be opened: a
/// domain `ConnectFailed` carrying the address that was tried.
pub fn connect_failed(addr: &str) -> (r: DError)
    ensures
        r matches DError::Custom(e) && e matches LogicErr::ConnectFailed(a) && a@ == addr@,
        crate::error::err_code_of(r) == 1005,
{
    DError::Custom(LogicErr::ConnectFailed(String::from_str(addr)))
}

/// Checkout accounting of a bounded pool: how many connections exist at
/// most and how many are out. The exhaustion policy is fail-fast: a
/// checkout beyond the ceiling is refused at once rather than queued.
#[derive(PartialEq, Eq, Structural, Clone, Copy, Debug)]
pub struct PoolState {
    pub max: u32,
    pub in_use: u32,
}

/// A well-formed pool never hands out more connections than its ceiling,
/// and always has a ceiling of at least one.
pub open spec fn pool_wf(s: PoolState) -> bool {
    s.in_use <= s.max && s.max >= 1
}

/// Whether a checkout succeeds in state `s`.
pub open spec fn checkout_ok(s: PoolState) -> bool {
    s.in_use < s.max
}

/// The state after one checkout attempt: one more connection out when one
/// was free, unchanged when the pool was exhausted.
pub open spec fn after_checkout(s: PoolState) -> PoolState {
    if s.in_use < s.max {
        PoolState { max: s.max, in_use: (s.in_use + 1) as u32 }
    } else {
        s
    }
}

/// The state after `n` checkout attempts.
pub open spec fn after_checkouts(s: PoolState, n: nat) -> PoolState
    decreases n,
{
    if n == 0 {
        s
    } else {
        after_checkout(after_checkouts(s, (n - 1) as nat))
    }
}

impl PoolState {
    /// A fresh pool with the given ceiling and nothing checked out.
    pub fn new(max: u32) -> (r: Self)
        requires
            max >= 1,
        ensures
            r == (PoolState { max, in_use: 0 }),
            pool_wf(r),
    {
        PoolState { max, in_use: 0 }
    }

    /// A fresh pool sized by a pool configuration.
    pub fn for_config(cfg: &PoolConfig) -> (r: Self)
        requires
            cfg.max_connections >= 1,
        ensures
            r == (PoolState { max: cfg.max_connections, in_use: 0 }),
            pool_wf(r),
    {
        PoolState { max: cfg.max_connections, in_use: 0 }
    }

    /// One checkout attempt: succeeds exactly when a connection is free,
    /// and fails fast, leaving the state unchanged, when the pool is
    /// exhausted.
    pub fn checkout(&mut self) -> (r: bool)
        ensures
            r == checkout_ok(*old(self)),
            *final(self) == after_checkout(*old(self)),
            pool_wf(*old(self)) ==> pool_wf(*final(self)),
    {
        if self.in_use < self.max {
            self.in_use = self.in_use + 1;
            true
        } else {
            false
        }
    }

    /// Returns one connection to the pool.
    pub fn checkin(&mut self)
        requires
            old(self).in_use >= 1,
        ensures
            *final(self) == (PoolState { max: old(self).max, in_use: (old(self).in_use - 1) as u32 }),
            pool_wf(*old(self)) ==> pool_wf(*final(self)),
    {
        self.in_use = self.in_use - 1;
    }
}

/// Checkout up to the ceiling always succeeds: from any well-formed state
/// with `n` connections still free, every one of the next `n` checkout
/// attempts succeeds, and afterwards exactly `n` more connections are out.
pub proof fn lemma_pool_capacity(s: PoolState, n: nat)
    requires
        pool_wf(s),
        s.in_use + n <= s.max,
    ensures
        after_checkouts(s, n) == (PoolState { max: s.max, in_use: (s.in_use + n) as u32 }),
        forall|k: nat| k < n ==> checkout_ok(#[trigger] after_checkouts(s, k)),
    decreases n,
{
    if n == 0 {
        assert(after_checkouts(s, 0) == s);
        assert(s == (PoolState { max: s.max, in_use: (s.in_use + 0) as u32 }));
    } else {
        lemma_pool_capacity(s, (n - 1) as nat);
        assert forall|k: nat| k < n implies checkout_ok(#[trigger] after_checkouts(s, k)) by {
            if k < n - 1 {
            } else {
                assert(after_checkouts(s, k) == (PoolState {
                    max: s.max,
                    in_use: (s.in_use + k) as u32,
                }));
            }
        }
    }
}

/// Checkout beyond the ceiling fails deterministically: an exhausted pool
/// refuses the attempt and is left unchanged.
pub proof fn lemma_pool_exhaustion(s: PoolState)
    requires
        s.in_use == s.max,
    ensures
        !checkout_ok(s),
        after_checkout(s) == s,
{
}

} // verus!
