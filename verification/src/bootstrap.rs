//! The one-shot startup sequence: logging, configuration, optional
//! metrics, the mandatory primary connection, the optional replica, then
//! the shared application state. The decisions — what runs next, which
//! failures abort the process and which are absorbed — are made here; the
//! caller performs each outside step and reports how it went.

use vstd::prelude::*;
use vstd::string::StringExecFns;

use crate::config::RuntimeSetting;

verus! {

/// The shared object handed to every request handler: the immutable
/// runtime configuration, the primary connection handle, the optional
/// replica handle and the optional cache handle. Constructed once at the
/// end of bootstrap and read-only afterwards.
pub struct AppState<C, R> {
    pub rtx_setting: RuntimeSetting,
    pub conn: C,
    pub conn_r: Option<C>,
    pub redis_pool: Option<R>,
}

/// Which data-store connections bootstrap must open: always the primary,
/// and the replica exactly when a non-empty replica address is configured.
pub struct ConnectPlan {
    pub primary_addr: String,
    pub replica_addr: Option<String>,
}

/// Decides the connection plan from the configuration. An empty replica
/// address means the replica is disabled and no second pool is opened.
pub fn plan_connections(cfg: &RuntimeSetting) -> (r: ConnectPlan)
    ensures
        r.primary_addr@ == cfg.dao.db_main_addr@,
        r.replica_addr is Some <==> cfg.dao.db_replica_addr@.len() > 0,
        r.replica_addr matches Some(a) ==> a@ == cfg.dao.db_replica_addr@,
{
    let replica_addr = if cfg.dao.replica_enabled() {
        Some(cfg.dao.db_replica_addr.clone())
    } else {
        None
    };
    ConnectPlan { primary_addr: cfg.dao.db_main_addr.clone(), replica_addr }
}

impl<C, R> AppState<C, R> {
    /// Builds the shared state from the finished bootstrap outputs: the
    /// configuration, the primary handle, and the replica handle the
    /// connection plan asked for. No cache connection is opened at
    /// startup.
    pub fn assemble(cfg: RuntimeSetting, primary: C, replica: Option<C>) -> (r: Self)
        ensures
            r.rtx_setting == cfg,
            r.conn == primary,
            r.conn_r == replica,
            r.redis_pool is None,
    {
        AppState { rtx_setting: cfg, conn: primary, conn_r: replica, redis_pool: None }
    }
}

/// The stations of the bootstrap sequence, in the order they run; the two
/// last ones are terminal.
#[derive(PartialEq, Eq, Structural, Clone, Copy, Debug)]
pub enum BootPhase {
    /// Initialize the logging sinks.
    Logging,
    /// Assemble the runtime configuration.
    Config,
    /// Wire the metrics exporter, when one is configured.
    MetricsSetup,
    /// Open the mandatory primary connection pool.
    PrimaryConnect,
    /// Open the replica connection pool, when one is configured.
    ReplicaConnect,
    /// Bootstrap finished; the serving layer takes over.
    Ready,
    /// Bootstrap failed; the process exits with a non-zero status.
    Aborted,
}

/// How one bootstrap step went. A step that had nothing to do (metrics
/// not configured, replica disabled) reports `Succeeded`.
#[derive(PartialEq, Eq, Structural, Clone, Copy, Debug)]
pub enum StepResult {
    Succeeded,
    Failed,
}

/// Whether a failure at this phase aborts the process. Only the metrics
/// step is soft: its failure is logged and startup continues without an
/// exporter. A replica failure aborts under the current policy even
/// though the replica is logically optional.
pub open spec fn fatal_at(p: BootPhase) -> bool {
    match p {
        BootPhase::Logging => true,
        BootPhase::Config => true,
        BootPhase::MetricsSetup => false,
        BootPhase::PrimaryConnect => true,
        BootPhase::ReplicaConnect => true,
        BootPhase::Ready => false,
        BootPhase::Aborted => false,
    }
}

/// The phase that follows `p` when its step succeeds.
pub open spec fn successor_of(p: BootPhase) -> BootPhase {
    match p {
        BootPhase::Logging => BootPhase::Config,
        BootPhase::Config => BootPhase::MetricsSetup,
        BootPhase::MetricsSetup => BootPhase::PrimaryConnect,
        BootPhase::PrimaryConnect => BootPhase::ReplicaConnect,
        BootPhase::ReplicaConnect => BootPhase::Ready,
        BootPhase::Ready => BootPhase::Ready,
        BootPhase::Aborted => BootPhase::Aborted,
    }
}

/// The phase the sequence moves to after the step at `p` reports `r`.
pub open spec fn next_of(p: BootPhase, r: StepResult) -> BootPhase {
    if r == StepResult::Failed && fatal_at(p) {
        BootPhase::Aborted
    } else {
        successor_of(p)
    }
}

/// Advances the bootstrap sequence by one reported step: a failure at a
/// fatal phase aborts, a metrics failure is absorbed, success moves to
/// the next station. The terminal phases absorb every report.
pub fn next_phase(p: BootPhase, r: StepResult) -> (n: BootPhase)
    ensures
        n == next_of(p, r),
        r == StepResult::Failed && fatal_at(p) ==> n == BootPhase::Aborted,
        (r == StepResult::Succeeded || !fatal_at(p)) ==> n == successor_of(p),
{
    if matches!(r, StepResult::Failed) {
        match p {
            BootPhase::Logging => BootPhase::Aborted,
            BootPhase::Config => BootPhase::Aborted,
            BootPhase::MetricsSetup => BootPhase::PrimaryConnect,
            BootPhase::PrimaryConnect => BootPhase::Aborted,
            BootPhase::ReplicaConnect => BootPhase::Aborted,
            BootPhase::Ready => BootPhase::Ready,
            BootPhase::Aborted => BootPhase::Aborted,
        }
    } else {
        match p {
            BootPhase::Logging => BootPhase::Config,
            BootPhase::Config => BootPhase::MetricsSetup,
            BootPhase::MetricsSetup => BootPhase::PrimaryConnect,
            BootPhase::PrimaryConnect => BootPhase::ReplicaConnect,
            BootPhase::ReplicaConnect => BootPhase::Ready,
            BootPhase::Ready => BootPhase::Ready,
            BootPhase::Aborted => BootPhase::Aborted,
        }
    }
}

/// Startup is strictly sequential and one-way: a run that has not failed
/// is always at the successor of where it last stood, and once `Ready` or
/// `Aborted` is reached no report moves the sequence anywhere else.
pub proof fn lemma_bootstrap_order(p: BootPhase, r: StepResult)
    ensures
        next_of(p, r) == successor_of(p) || next_of(p, r) == BootPhase::Aborted,
        p == BootPhase::Ready ==> next_of(p, r) == BootPhase::Ready,
        p == BootPhase::Aborted ==> next_of(p, r) == BootPhase::Aborted,
{
}

/// The metrics step is the only one whose failure is absorbed: a failure
/// anywhere else in the running sequence aborts the process.
pub proof fn lemma_only_metrics_soft(p: BootPhase)
    ensures
        next_of(p, StepResult::Failed) != BootPhase::Aborted <==> (p == BootPhase::MetricsSetup
            || p == BootPhase::Ready),
{
}

} // verus!
