//! The options of a node.

use vstd::prelude::*;

verus! {

/// When the log is compacted into a snapshot.
#[derive(Clone, Copy, Debug, PartialEq, Eq, Structural)]
pub enum SnapshotPolicy {
    /// Once this many entries were applied since the last snapshot.
    LogEntries(u64),
    /// Never.
    Never,
}

/// The options of a node. Times are in milliseconds.
#[derive(Debug, PartialEq, Eq)]
pub struct Config {
    /// A name for the cluster in logs; it changes nothing else.
    pub cluster_name: String,
    /// The shortest election timeout.
    pub election_timeout_min_ms: u64,
    /// The longest election timeout.
    pub election_timeout_max_ms: u64,
    /// How often a leader sends a heartbeat.
    pub heartbeat_interval_ms: u64,
    pub snapshot_policy: SnapshotPolicy,
    /// The most entries sent in one replication request.
    pub max_payload_entries: u64,
}

/// What is wrong with a `Config`.
#[derive(Clone, Copy, Debug, PartialEq, Eq, Structural)]
pub enum ConfigError {
    /// The shortest election timeout is longer than the longest.
    ElectionTimeoutMinAboveMax,
    /// The heartbeat interval is not below the shortest election timeout.
    HeartbeatNotBelowElectionTimeout,
}

/// The election timeouts form a range.
pub open spec fn timeouts_form_a_range(c: Config) -> bool {
    c.election_timeout_min_ms <= c.election_timeout_max_ms
}

/// The election timeout that the random number `random` selects from the
/// range of `c`.
pub open spec fn timeout_for(c: Config, random: u64) -> int {
    c.election_timeout_min_ms + (random as int) % (c.election_timeout_max_ms
        - c.election_timeout_min_ms + 1)
}

impl Config {
    /// Checks that the election timeouts form a range and that heartbeats
    /// come faster than the shortest election timeout.
    pub fn validate(&self) -> (r: Result<(), ConfigError>)
        ensures
            !timeouts_form_a_range(*self) ==> r == Err::<(), ConfigError>(
                ConfigError::ElectionTimeoutMinAboveMax,
            ),
            timeouts_form_a_range(*self) && self.heartbeat_interval_ms
                >= self.election_timeout_min_ms ==> r == Err::<(), ConfigError>(
                ConfigError::HeartbeatNotBelowElectionTimeout,
            ),
            timeouts_form_a_range(*self) && self.heartbeat_interval_ms
                < self.election_timeout_min_ms ==> r is Ok,
    {
        if self.election_timeout_min_ms > self.election_timeout_max_ms {
            return Err(ConfigError::ElectionTimeoutMinAboveMax);
        }
        if self.heartbeat_interval_ms >= self.election_timeout_min_ms {
            return Err(ConfigError::HeartbeatNotBelowElectionTimeout);
        }
        Ok(())
    }

    /// The election timeout that the random number `random` selects: every
    /// timeout of the range is selected by some number, and none outside it.
    pub fn election_timeout(&self, random: u64) -> (t: u64)
        requires
            timeouts_form_a_range(*self),
        ensures
            t == timeout_for(*self, random),
            self.election_timeout_min_ms <= t <= self.election_timeout_max_ms,
    {
        let width = self.election_timeout_max_ms - self.election_timeout_min_ms;
        if width == u64::MAX {
            proof {
                assert((random as int) % (width + 1) == random) by (nonlinear_arith)
                    requires
                        0 <= random <= width,
                ;
            }
            random
        } else {
            self.election_timeout_min_ms + random % (width + 1)
        }
    }
}

/// Every timeout of the range is the election timeout for some random number.
pub proof fn every_timeout_is_selected(c: Config, t: u64)
    requires
        c.election_timeout_min_ms <= t <= c.election_timeout_max_ms,
    ensures
        timeout_for(c, (t - c.election_timeout_min_ms) as u64) == t,
{
    let width = c.election_timeout_max_ms - c.election_timeout_min_ms;
    let r = t - c.election_timeout_min_ms;
    assert(r % (width + 1) == r) by (nonlinear_arith)
        requires
            0 <= r <= width,
    ;
}

} // verus!
