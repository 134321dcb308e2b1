//! Role selection: at startup, exactly one process per host becomes the
//! leader by binding the well-known local port; every other process detects
//! it by connecting and becomes a follower.
//!
//! The probing and binding themselves are socket work done outside the
//! library; these functions are the decisions between the attempts,
//! including the hardening for the race where the probe fails but another
//! process wins the bind: retry the probe and fall back to follower rather
//! than crash.

use vstd::prelude::*;

verus! {

/// What a process is for the lifetime of the store: the one keeper of the
/// session table, or a client of it.
#[derive(Clone, Copy, PartialEq, Eq, Structural, Debug)]
pub enum Role {
    Leader,
    Follower,
}

/// Where startup stands: probing the port, trying to bind it, serving as
/// leader, or settled as follower.
#[derive(Clone, Copy, PartialEq, Eq, Structural, Debug)]
pub enum StartupStep {
    Probe,
    Bind,
    Serve,
    FollowerMode,
}

/// The role a finished startup settles on.
pub open spec fn spec_role_of(step: StartupStep) -> Option<Role> {
    match step {
        StartupStep::Serve => Some(Role::Leader),
        StartupStep::FollowerMode => Some(Role::Follower),
        _ => None,
    }
}

/// The next startup step once the current attempt has succeeded or failed.
pub open spec fn spec_next_step(cur: StartupStep, success: bool) -> StartupStep {
    match cur {
        StartupStep::Probe => if success {
            StartupStep::FollowerMode
        } else {
            StartupStep::Bind
        },
        StartupStep::Bind => if success {
            StartupStep::Serve
        } else {
            StartupStep::Probe
        },
        StartupStep::Serve => StartupStep::Serve,
        StartupStep::FollowerMode => StartupStep::FollowerMode,
    }
}

/// One step of the startup state machine. A successful probe connection
/// means a leader already listens: become a follower. A failed probe means
/// the port looks free: try to bind it. A successful bind makes this
/// process the leader; a failed bind means the race was lost a moment ago,
/// so probe again instead of crashing.
pub fn next_startup_step(cur: StartupStep, success: bool) -> (r: StartupStep)
    ensures
        r == spec_next_step(cur, success),
{
    match cur {
        StartupStep::Probe => if success {
            StartupStep::FollowerMode
        } else {
            StartupStep::Bind
        },
        StartupStep::Bind => if success {
            StartupStep::Serve
        } else {
            StartupStep::Probe
        },
        StartupStep::Serve => StartupStep::Serve,
        StartupStep::FollowerMode => StartupStep::FollowerMode,
    }
}

/// The role a single probe settles when its outcome is final: a reachable
/// leader makes this process a follower, an unreachable port makes it the
/// leader candidate.
pub fn role_after_probe(connected: bool) -> (r: Role)
    ensures
        r == (if connected {
            Role::Follower
        } else {
            Role::Leader
        }),
{
    if connected {
        Role::Follower
    } else {
        Role::Leader
    }
}

} // verus!
