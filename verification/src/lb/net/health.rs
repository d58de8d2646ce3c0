use crate::lb::balancer::server::Server;
use vstd::prelude::*;

verus! {

/// What a probe of a backend changes in its health flag.
#[derive(Debug, Clone, Copy, PartialEq, Eq, Structural)]
pub enum HealthChange {
    /// The probe agrees with the stored flag.
    Unchanged,
    /// The backend was marked down and answered: it is marked up.
    Up,
    /// The backend was marked up and did not answer: it is marked down.
    Down,
}

/// The change a probe brings about, given the stored flag and whether the
/// backend answered.
pub open spec fn spec_health_change(was_healthy: bool, reachable: bool) -> HealthChange {
    if was_healthy == reachable {
        HealthChange::Unchanged
    } else if reachable {
        HealthChange::Up
    } else {
        HealthChange::Down
    }
}

/// The change a probe brings about, given the stored flag and whether the
/// backend answered.
pub fn health_change(was_healthy: bool, reachable: bool) -> (r: HealthChange)
    ensures
        r == spec_health_change(was_healthy, reachable),
{
    if was_healthy == reachable {
        HealthChange::Unchanged
    } else if reachable {
        HealthChange::Up
    } else {
        HealthChange::Down
    }
}

/// Records the outcome of one probe of `server`: the health flag is read,
/// and stored again only when the probe disagrees with it. Returns the flag
/// that was read (other tasks may have written it) and the change the probe
/// brings about given that flag.
pub fn apply_probe(server: &Server, reachable: bool) -> (r: (bool, HealthChange))
    ensures
        r.1 == spec_health_change(r.0, reachable),
{
    let was_healthy = server.is_healthy();
    let change = health_change(was_healthy, reachable);
    match change {
        HealthChange::Unchanged => {},
        _ => server.set_healthy(reachable),
    }
    (was_healthy, change)
}

/// A probe that agrees with the flag it produced changes nothing: probing
/// twice with the same outcome reports at most one change.
pub proof fn lemma_probe_settles(was_healthy: bool, reachable: bool)
    ensures
        spec_health_change(
            if spec_health_change(was_healthy, reachable) == HealthChange::Unchanged {
                was_healthy
            } else {
                reachable
            },
            reachable,
        ) == HealthChange::Unchanged,
{
}

} // verus!
