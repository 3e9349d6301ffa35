//! Aggregate statistics of one replication, and their exact (integer) sums
//! across replications. Dividing by the replication count or the run length
//! yields the reported averages; that is the caller's renderer's job.

use vstd::prelude::*;

use crate::basestation::BaseStationResult;
use crate::config::Config;

verus! {

/// Integer aggregate of one replication, or the field-wise sum of several.
pub struct SimResults {
    /// Sum over stations of their usage-time integrals, user-microseconds.
    pub usage_integral: u128,
    /// Sum over stations of their energy, milliwatt-microseconds.
    pub total_energy: u128,
    /// Arrivals seen.
    pub total_users: u64,
    /// Arrivals dropped.
    pub dropped_users: u64,
    /// Per-station raw statistics.
    pub stations: Vec<BaseStationResult>,
}

impl SimResults {
    /// A zero aggregate with one slot per station, ready to fold into.
    pub fn new_zero(cfg: &Config) -> (r: SimResults)
        ensures
            r.usage_integral == 0 && r.total_energy == 0,
            r.total_users == 0 && r.dropped_users == 0,
            r.stations@.len() == cfg.stations_count,
            forall|i: int| 0 <= i < r.stations@.len() ==> #[trigger] r.stations@[i]
                == (BaseStationResult { total_energy: 0, usage_integral: 0, sleep_time: 0 }),
    {
        let mut stations: Vec<BaseStationResult> = Vec::new();
        let mut i: usize = 0;
        while i < cfg.stations_count
            invariant
                i <= cfg.stations_count,
                stations@.len() == i,
                forall|j: int| 0 <= j < i ==> #[trigger] stations@[j] == (BaseStationResult {
                    total_energy: 0,
                    usage_integral: 0,
                    sleep_time: 0,
                }),
            decreases cfg.stations_count - i,
        {
            stations.push(BaseStationResult { total_energy: 0, usage_integral: 0, sleep_time: 0 });
            i = i + 1;
        }
        SimResults {
            usage_integral: 0,
            total_energy: 0,
            total_users: 0,
            dropped_users: 0,
            stations,
        }
    }

    /// Folds another replication's aggregate into this one, field by field.
    /// Every sum saturates at its type's maximum instead of wrapping.
    pub fn add(&mut self, x: &SimResults)
        ensures
            final(self).usage_integral == old(self).usage_integral.saturating_add(
                x.usage_integral,
            ),
            final(self).total_energy == old(self).total_energy.saturating_add(x.total_energy),
            final(self).total_users == old(self).total_users.saturating_add(x.total_users),
            final(self).dropped_users == old(self).dropped_users.saturating_add(x.dropped_users),
            final(self).stations@.len() == old(self).stations@.len(),
            forall|i: int|
                0 <= i < old(self).stations@.len() && i < x.stations@.len()
                    ==> #[trigger] final(self).stations@[i] == (BaseStationResult {
                    total_energy: old(self).stations@[i].total_energy.saturating_add(
                        x.stations@[i].total_energy,
                    ),
                    usage_integral: old(self).stations@[i].usage_integral.saturating_add(
                        x.stations@[i].usage_integral,
                    ),
                    sleep_time: old(self).stations@[i].sleep_time.saturating_add(
                        x.stations@[i].sleep_time,
                    ),
                }),
            forall|i: int|
                x.stations@.len() <= i < old(self).stations@.len()
                    ==> #[trigger] final(self).stations@[i] == old(self).stations@[i],
    {
        self.usage_integral = self.usage_integral.saturating_add(x.usage_integral);
        self.total_energy = self.total_energy.saturating_add(x.total_energy);
        self.total_users = self.total_users.saturating_add(x.total_users);
        self.dropped_users = self.dropped_users.saturating_add(x.dropped_users);
        let n = if self.stations.len() < x.stations.len() {
            self.stations.len()
        } else {
            x.stations.len()
        };
        let mut i: usize = 0;
        while i < n
            invariant
                n <= old(self).stations@.len(),
                n <= x.stations@.len(),
                i <= n,
                self.stations@.len() == old(self).stations@.len(),
                self.usage_integral == old(self).usage_integral.saturating_add(x.usage_integral),
                self.total_energy == old(self).total_energy.saturating_add(x.total_energy),
                self.total_users == old(self).total_users.saturating_add(x.total_users),
                self.dropped_users == old(self).dropped_users.saturating_add(x.dropped_users),
                forall|j: int| 0 <= j < i ==> #[trigger] self.stations@[j] == (BaseStationResult {
                    total_energy: old(self).stations@[j].total_energy.saturating_add(
                        x.stations@[j].total_energy,
                    ),
                    usage_integral: old(self).stations@[j].usage_integral.saturating_add(
                        x.stations@[j].usage_integral,
                    ),
                    sleep_time: old(self).stations@[j].sleep_time.saturating_add(
                        x.stations@[j].sleep_time,
                    ),
                }),
                forall|j: int| i <= j < old(self).stations@.len() ==> #[trigger] self.stations@[j]
                    == old(self).stations@[j],
            decreases n - i,
        {
            let merged = BaseStationResult {
                total_energy: self.stations[i].total_energy.saturating_add(
                    x.stations[i].total_energy,
                ),
                usage_integral: self.stations[i].usage_integral.saturating_add(
                    x.stations[i].usage_integral,
                ),
                sleep_time: self.stations[i].sleep_time.saturating_add(x.stations[i].sleep_time),
            };
            self.stations.set(i, merged);
            i = i + 1;
        }
    }
}

} // verus!
