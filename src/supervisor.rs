//! Supervision of the single tunnel-client process. The slot holds the handle
//! of the client this session started; the decisions below say, from the
//! slot and from whether a client process is found running on the machine,
//! what connect, disconnect and restart must do. Spawning, killing and
//! probing processes is left to the caller, which reports back.

use vstd::prelude::*;
use crate::commands::FrpsError;
use crate::config::{ConfigView, TomlConfig, DEFAULT_SERVER_ADDR, DEFAULT_SERVER_PORT};

verus! {

/// The slot of the supervised client: empty, or the handle of the process
/// this session started.
pub struct ProcessRegistry<H> {
    pub slot: Option<H>,
}

/// An empty slot.
pub fn init_frps_processes<H>() -> (r: ProcessRegistry<H>)
    ensures
        r.slot is None,
{
    ProcessRegistry { slot: None }
}

impl<H> ProcessRegistry<H> {
    /// Whether a started client is tracked.
    pub fn contains(&self) -> (r: bool)
        ensures
            r == self.slot is Some,
    {
        self.slot.is_some()
    }

    /// Tracks a newly started client.
    pub fn insert(&mut self, handle: H)
        requires
            old(self).slot is None,
        ensures
            final(self).slot == Some(handle),
    {
        self.slot = Some(handle);
    }

    /// Gives up the tracked client, if any, leaving the slot empty.
    pub fn remove(&mut self) -> (r: Option<H>)
        ensures
            r == old(self).slot,
            final(self).slot is None,
    {
        self.slot.take()
    }

    /// The tracked client, if any.
    pub fn get(&self) -> (r: Option<&H>)
        ensures
            r == match self.slot {
                Some(h) => Some(&h),
                None => None::<&H>,
            },
    {
        self.slot.as_ref()
    }
}

/// What a connect that may go ahead must do before starting the client.
#[derive(Debug, Clone, Copy, PartialEq, Eq)]
pub struct ConnectPlan {
    /// Kill the untracked client processes and wait for them to go.
    pub kill_orphans: bool,
}

/// `c` pointed at the fixed server, with no token and no user.
pub open spec fn with_default_server(c: ConfigView) -> ConfigView {
    ConfigView {
        server_addr: DEFAULT_SERVER_ADDR@,
        server_port: DEFAULT_SERVER_PORT,
        token: Seq::empty(),
        user: Seq::empty(),
        ..c
    }
}

/// The first half of a connect. Refused while a client is tracked; the
/// slot and the configuration are then left as they are. Otherwise the
/// configuration is pointed at the fixed server and the plan says whether
/// untracked clients must be killed first. The caller then kills them if
/// asked, saves the configuration, starts the client and tracks it.
pub fn begin_connect<H>(registry: &ProcessRegistry<H>, cfg: &mut TomlConfig, orphan_running: bool) -> (r:
    Result<ConnectPlan, FrpsError>)
    requires
        old(cfg).wf(),
    ensures
        final(cfg).wf(),
        registry.slot is Some ==> r == Err::<ConnectPlan, FrpsError>(FrpsError::AlreadyRunning)
            && final(cfg)@ == old(cfg)@,
        registry.slot is None ==> r == Ok::<ConnectPlan, FrpsError>(
            ConnectPlan { kill_orphans: orphan_running },
        ) && final(cfg)@ == with_default_server(old(cfg)@),
{
    if registry.contains() {
        return Err(FrpsError::AlreadyRunning);
    }
    reset_server_identity(cfg);
    Ok(ConnectPlan { kill_orphans: orphan_running })
}

/// Points the configuration at the fixed server, with no token and no
/// user; the mappings stay.
pub fn reset_server_identity(cfg: &mut TomlConfig)
    requires
        old(cfg).wf(),
    ensures
        final(cfg).wf(),
        final(cfg)@ == with_default_server(old(cfg)@),
{
    cfg.server_addr = String::from_str(DEFAULT_SERVER_ADDR);
    cfg.server_port = DEFAULT_SERVER_PORT;
    cfg.token = String::new();
    cfg.user = String::new();
    assert(cfg@ =~= with_default_server(old(cfg)@));
}

/// How a disconnect that went ahead ended.
#[derive(Debug, Clone, Copy, PartialEq, Eq)]
pub enum DisconnectOutcome {
    /// The tracked client was stopped.
    Stopped,
    /// No client was tracked, but untracked ones were found and killed.
    CleanedOrphans,
}

/// What a disconnect must do once the tracked client, if any, is stopped.
#[derive(Debug, Clone, Copy, PartialEq, Eq)]
pub struct DisconnectPlan {
    /// Kill the client processes still running and wait for them to go.
    pub kill_orphans: bool,
    pub outcome: DisconnectOutcome,
}

/// The decision of a disconnect, from whether a client was tracked and
/// whether one is still found running once it is stopped.
pub open spec fn disconnect_decision(had_tracked: bool, os_running: bool) -> Result<
    DisconnectPlan,
    FrpsError,
> {
    if had_tracked {
        Ok(DisconnectPlan { kill_orphans: os_running, outcome: DisconnectOutcome::Stopped })
    } else if os_running {
        Ok(DisconnectPlan { kill_orphans: true, outcome: DisconnectOutcome::CleanedOrphans })
    } else {
        Err(FrpsError::NotRunning)
    }
}

/// Whether a client process is still running once a disconnect has carried
/// out its decision.
pub open spec fn running_after_disconnect(d: Result<DisconnectPlan, FrpsError>, os_running: bool) -> bool {
    match d {
        Ok(plan) => os_running && !plan.kill_orphans,
        Err(_) => os_running,
    }
}

/// Decides a disconnect; see `disconnect_decision`.
pub fn plan_disconnect(had_tracked: bool, os_running: bool) -> (r: Result<DisconnectPlan, FrpsError>)
    ensures
        r == disconnect_decision(had_tracked, os_running),
{
    if had_tracked {
        Ok(DisconnectPlan { kill_orphans: os_running, outcome: DisconnectOutcome::Stopped })
    } else if os_running {
        Ok(DisconnectPlan { kill_orphans: true, outcome: DisconnectOutcome::CleanedOrphans })
    } else {
        Err(FrpsError::NotRunning)
    }
}

/// Disconnecting with no tracked client fails with `NotRunning` where no
/// client process runs; where an untracked one runs, it succeeds and no
/// client process runs afterwards. After any disconnect that goes ahead, no
/// client process runs.
pub proof fn lemma_disconnect_cleans_up(had_tracked: bool, os_running: bool)
    ensures
        !had_tracked && !os_running ==> disconnect_decision(had_tracked, os_running) == Err::<
            DisconnectPlan,
            FrpsError,
        >(FrpsError::NotRunning),
        !had_tracked && os_running ==> disconnect_decision(had_tracked, os_running) is Ok,
        disconnect_decision(had_tracked, os_running) is Ok ==> !running_after_disconnect(
            disconnect_decision(had_tracked, os_running),
            os_running,
        ),
{
}

/// Whether, after a configuration change, the tracked client must be
/// restarted: only where one is tracked. Takes its handle out of the slot
/// for the caller to stop; the caller then kills what still runs, starts
/// the client again and tracks it.
pub fn begin_restart<H>(registry: &mut ProcessRegistry<H>) -> (r: Option<H>)
    ensures
        r == old(registry).slot,
        final(registry).slot is None,
{
    registry.remove()
}

} // verus!
