//! Health of systemd units, from the exit status of `systemctl`.

use vstd::prelude::*;

verus! {

/// Whether a unit is active: the exit status of `systemctl is-active`, or
/// `None` when the command could not be run.
pub fn is_active(exit: Option<bool>) -> (r: bool)
    ensures
        r == (exit == Some(true)),
{
    match exit {
        Some(success) => success,
        None => false,
    }
}

/// Whether a unit has failed: the exit status of `systemctl is-failed`, which
/// succeeds exactly when it has, or `None` when the command could not be run.
pub fn is_failed(exit: Option<bool>) -> (r: bool)
    ensures
        r == (exit == Some(true)),
{
    match exit {
        Some(success) => success,
        None => false,
    }
}

/// Health of a service that a timer runs.
#[derive(Clone, Copy, PartialEq, Eq, Debug, Structural)]
pub enum SyncHealth {
    Healthy,
    Failed,
    TimerNotActive,
}

/// Failed if the service's last run failed; timer not active if nothing will
/// ever run it again; otherwise fine.
pub open spec fn health_of(service_failed: bool, timer_active: bool) -> SyncHealth {
    if service_failed {
        SyncHealth::Failed
    } else if !timer_active {
        SyncHealth::TimerNotActive
    } else {
        SyncHealth::Healthy
    }
}

/// Health of a service and its timer, from the exit status of `is-failed` for
/// the one and of `is-active` for the other.
pub fn sync_health(service: Option<bool>, timer: Option<bool>) -> (r: SyncHealth)
    ensures
        r == health_of(service == Some(true), timer == Some(true)),
{
    if is_failed(service) {
        SyncHealth::Failed
    } else if !is_active(timer) {
        SyncHealth::TimerNotActive
    } else {
        SyncHealth::Healthy
    }
}

// ---------------------------------------------------------------------------
// Laws
// ---------------------------------------------------------------------------

/// A failed run is never hidden by its timer, and only a service that did not
/// fail and will run again is healthy.
pub proof fn law_health_is_told_apart(failed: bool, active: bool)
    ensures
        health_of(failed, active) == SyncHealth::Failed <==> failed,
        health_of(failed, active) == SyncHealth::TimerNotActive <==> !failed && !active,
        health_of(failed, active) == SyncHealth::Healthy <==> !failed && active,
{
}

} // verus!
