//! One base station: a capacity-bounded pool of served users, a power-state
//! machine, and integer statistics accumulators.

use vstd::prelude::*;
use vstd::multiset::Multiset;

use crate::config::Config;
use crate::eventlog::{EventLog, LogRecord};
use crate::pool::{
    heap_len, heap_new, heap_peek, heap_pop, heap_push, is_pool_min, lemma_pool_min_exists,
    lemma_pool_min_unique, pool_contents, pool_min_entry, PoolEntry, UserHeap,
};
use crate::sampling::sample_arrival_gap;
use crate::sim_container::SimState;
use crate::user::{entries_multiset, User};

verus! {

broadcast use vstd::multiset::group_multiset_axioms;

/// The power state of a station. The two transitional states carry the time
/// at which the transition completes.
#[derive(Clone, Copy, PartialEq, Eq, Structural, Debug)]
pub enum BaseStationState {
    /// Serving and admitting users.
    Active,
    /// Serving leftover users, admitting none.
    Sleep,
    /// Waking up; becomes `Active` at the carried time.
    PowerUp(u64),
    /// Going to sleep; becomes `Sleep` at the carried time.
    PowerDown(u64),
}

/// The kind of the next local event of one station.
#[derive(Clone, Copy, PartialEq, Eq, Structural, Debug)]
pub enum BaseStationEvent {
    ReleaseUser,
    AddUser,
    PowerUp,
    ShutDown,
}

/// Raw per-station statistics of one finished run. Averages are quotients of
/// these integers and are left to the caller's renderer.
#[derive(Clone, Copy, PartialEq, Eq, Structural, Debug)]
pub struct BaseStationResult {
    /// Energy drawn, in milliwatt-microseconds.
    pub total_energy: u128,
    /// Time integral of the number of users served, in user-microseconds.
    pub usage_integral: u128,
    /// Time spent asleep, in microseconds.
    pub sleep_time: u64,
}

pub struct BaseStation {
    pub id: usize,
    pub resources: UserHeap,
    /// When the next local arrival is due, in microseconds.
    pub next_user_add: u64,
    pub state: BaseStationState,
    /// Energy drawn so far, in milliwatt-microseconds.
    pub total_power: u128,
    /// Time integral of users served so far, in user-microseconds.
    pub total_usage: u128,
    /// Time spent asleep so far, in microseconds.
    pub sleep_time: u64,
}

/// Adding `amount` to a `u128` accumulator that saturates at its maximum.
pub open spec fn sat_acc(acc: u128, amount: int) -> int {
    if acc + amount > u128::MAX {
        u128::MAX as int
    } else {
        acc + amount
    }
}

/// A percentage times a value bounded by `cap / 100` stays within `cap`.
pub proof fn lemma_pct_mul_fits(a: int, b: int, cap: int)
    requires
        0 <= a <= 100,
        0 <= b <= cap / 100,
        cap >= 0,
    ensures
        a * b <= cap,
{
    let q = cap / 100;
    assert(a * b <= 100 * q) by (nonlinear_arith)
        requires
            0 <= a <= 100,
            0 <= b <= q,
    ;
    vstd::arithmetic::div_mod::lemma_fundamental_div_mod(cap, 100);
    assert(cap % 100 >= 0);
}

/// The product of two `u64` values always fits a `u128`.
pub proof fn lemma_u64_mul_fits(a: u64, b: u64)
    ensures
        0 <= (a as int) * (b as int) <= u128::MAX,
{
    assert(0 <= (a as int) * (b as int) <= 0xffff_ffff_ffff_ffffu64 * 0xffff_ffff_ffff_ffffu64)
        by (nonlinear_arith)
        requires
            a <= 0xffff_ffff_ffff_ffffu64,
            b <= 0xffff_ffff_ffff_ffffu64,
    ;
}

/// How `accumulate_counters` settles `dt` microseconds on one station:
/// usage always, energy and sleep time at the current state's rates.
pub open spec fn accumulated(a: BaseStation, b: BaseStation, dt: u64, cfg: Config) -> bool {
    &&& b.id == a.id
    &&& b.state == a.state
    &&& b.next_user_add == a.next_user_add
    &&& b.pool() == a.pool()
    &&& b.total_usage == sat_acc(a.total_usage, dt * a.pool().len())
    &&& match a.state {
        BaseStationState::Active => b.total_power == sat_acc(a.total_power, dt * cfg.active_power)
            && b.sleep_time == a.sleep_time,
        BaseStationState::Sleep => b.total_power == sat_acc(a.total_power, dt * cfg.sleep_power)
            && b.sleep_time == a.sleep_time + dt,
        _ => b.total_power == a.total_power && b.sleep_time == a.sleep_time,
    }
}

/// What `execute_event` does to the station and the global state, event by
/// event, for every outcome of the random draws.
pub open spec fn event_applied(
    pre: BaseStation,
    post: BaseStation,
    sa: SimState,
    sb: SimState,
    ev: BaseStationEvent,
    cfg: Config,
    res: Option<User>,
) -> bool {
    &&& post.id == pre.id
    &&& sb.time == sa.time
    &&& sb.lambda_micro == sa.lambda_micro
    &&& sb.lambda_update_time == sa.lambda_update_time
    &&& sb.lambda_update_idx == sa.lambda_update_idx
    &&& sb.all_users == sa.all_users
    &&& sb.redirected_users == sa.redirected_users
    &&& sb.dropped_users == sa.dropped_users
    &&& match ev {
        BaseStationEvent::AddUser => {
            &&& sb.next_user_id == sa.next_user_id.saturating_add(1)
            &&& post.next_user_add >= sa.time
            &&& post.state == pre.state
            &&& post.total_power == pre.total_power
            &&& post.total_usage == pre.total_usage
            &&& post.sleep_time == pre.sleep_time
            &&& if pre.state == BaseStationState::Active && pre.pool().len()
                < cfg.resources_count {
                &&& res is None
                &&& sb.admitted_users == sa.admitted_users.saturating_add(1)
                &&& exists|e: PoolEntry|
                    {
                        &&& post.pool() == pre.pool().insert(e)
                        &&& e.1 == sa.next_user_id
                        &&& e.2 == sa.time
                        &&& sa.time + cfg.process_time_min * 1000 <= e.0 <= sa.time
                            + cfg.process_time_max * 1000
                    }
            } else {
                &&& res matches Some(u) && u.id == sa.next_user_id && u.start == sa.time
                    && sa.time + cfg.process_time_min * 1000 <= u.end <= sa.time
                    + cfg.process_time_max * 1000
                &&& post.pool() == pre.pool()
                &&& sb.admitted_users == sa.admitted_users
            }
        },
        BaseStationEvent::ReleaseUser => {
            &&& res is None
            &&& post.pool() == pre.pool().remove(pool_min_entry(pre.pool()))
            &&& post.pool().len() == pre.pool().len() - 1
            &&& post.state == pre.state
            &&& post.next_user_add == pre.next_user_add
            &&& post.total_power == pre.total_power
            &&& post.total_usage == pre.total_usage
            &&& post.sleep_time == pre.sleep_time
            &&& sb.next_user_id == sa.next_user_id
            &&& sb.admitted_users == sa.admitted_users
        },
        BaseStationEvent::PowerUp => {
            &&& res is None
            &&& post.state == BaseStationState::Active
            &&& post.pool() == pre.pool()
            &&& post.next_user_add == pre.next_user_add
            &&& post.total_power == pre.total_power.saturating_add(cfg.wakeup_power as u128)
            &&& post.total_usage == pre.total_usage
            &&& post.sleep_time == pre.sleep_time
            &&& sb.next_user_id == sa.next_user_id
            &&& sb.admitted_users == sa.admitted_users
        },
        BaseStationEvent::ShutDown => {
            &&& res is None
            &&& post.state == BaseStationState::Sleep
            &&& post.pool() == pre.pool()
            &&& post.next_user_add == pre.next_user_add
            &&& post.total_power == pre.total_power.saturating_add(cfg.wakeup_power as u128)
            &&& post.total_usage == pre.total_usage
            &&& post.sleep_time == pre.sleep_time
            &&& sb.next_user_id == sa.next_user_id
            &&& sb.admitted_users == sa.admitted_users
        },
    }
}

impl BaseStation {
    /// The pool's contents, as a multiset of `(departure, id, arrival)` entries.
    pub open spec fn pool(self) -> Multiset<PoolEntry> {
        pool_contents(self.resources)
    }

    pub open spec fn pool_size(self) -> nat {
        self.pool().len()
    }

    /// The one structural invariant: the pool never outgrows the capacity.
    pub open spec fn wf(self, cfg: Config) -> bool {
        self.pool_size() <= cfg.resources_count
    }

    /// Everything this station has scheduled lies at or after `t`.
    pub open spec fn timers_at_least(self, t: u64) -> bool {
        &&& self.next_user_add >= t
        &&& (forall|x: PoolEntry| self.pool().contains(x) ==> x.0 >= t)
        &&& (self.state matches BaseStationState::PowerUp(d) ==> d >= t)
        &&& (self.state matches BaseStationState::PowerDown(d) ==> d >= t)
    }

    /// The earlier of the pool's first departure and the next arrival; the
    /// arrival wins a tie.
    pub open spec fn user_event_spec(self) -> (u64, BaseStationEvent) {
        if self.pool().len() == 0 {
            (self.next_user_add, BaseStationEvent::AddUser)
        } else {
            let e = pool_min_entry(self.pool());
            if e.0 < self.next_user_add {
                (e.0, BaseStationEvent::ReleaseUser)
            } else {
                (self.next_user_add, BaseStationEvent::AddUser)
            }
        }
    }

    /// The station's next local event: a transition deadline pre-empts the
    /// user events only when strictly earlier, so a user event wins a tie.
    pub open spec fn next_event_spec(self) -> (u64, BaseStationEvent) {
        match self.state {
            BaseStationState::Active | BaseStationState::Sleep => self.user_event_spec(),
            BaseStationState::PowerUp(d) => if d < self.user_event_spec().0 {
                (d, BaseStationEvent::PowerUp)
            } else {
                self.user_event_spec()
            },
            BaseStationState::PowerDown(d) => if d < self.user_event_spec().0 {
                (d, BaseStationEvent::ShutDown)
            } else {
                self.user_event_spec()
            },
        }
    }

    /// Builds an `Active` station with an empty pool and a first arrival
    /// already scheduled.
    pub fn new(id: usize, cfg: &Config, lambda_micro: u64, rng: &mut rand::rngs::StdRng) -> (s:
        BaseStation)
        ensures
            s.id == id,
            s.state == BaseStationState::Active,
            s.pool() == Multiset::<PoolEntry>::empty(),
            s.total_power == 0 && s.total_usage == 0 && s.sleep_time == 0,
    {
        BaseStation {
            id,
            resources: heap_new(cfg.resources_count),
            next_user_add: sample_arrival_gap(rng, lambda_micro),
            state: BaseStationState::Active,
            total_power: 0,
            total_usage: 0,
            sleep_time: 0,
        }
    }

    /// The station's next local event: the earliest of the pool's first
    /// departure, the next arrival (an arrival wins a tie), and, in a
    /// transitional state, the transition deadline (a deadline loses a tie).
    pub fn get_next_event(&self) -> (r: (u64, BaseStationEvent))
        ensures
            r == self.next_event_spec(),
            r.0 <= self.next_user_add,
            forall|x: PoolEntry| self.pool().contains(x) ==> r.0 <= x.0,
            self.state matches BaseStationState::PowerUp(d) ==> r.0 <= d,
            self.state matches BaseStationState::PowerDown(d) ==> r.0 <= d,
            forall|t: u64| self.timers_at_least(t) ==> r.0 >= t,
            r.1 == BaseStationEvent::AddUser ==> r.0 == self.next_user_add,
            r.1 == BaseStationEvent::ReleaseUser ==> exists|x: PoolEntry| is_pool_min(
                self.pool(),
                x,
            ) && r.0 == x.0 && x.0 < self.next_user_add,
            r.1 == BaseStationEvent::PowerUp ==> self.state == BaseStationState::PowerUp(r.0),
            r.1 == BaseStationEvent::ShutDown ==> self.state == BaseStationState::PowerDown(r.0),
            r.1 == BaseStationEvent::ReleaseUser ==> self.pool_size() > 0,
    {
        let user_min: (u64, BaseStationEvent) = match heap_peek(&self.resources) {
            Some(entry) => {
                proof {
                    lemma_pool_min_exists(self.pool());
                    lemma_pool_min_unique(self.pool(), entry, pool_min_entry(self.pool()));
                }
                if entry.0 < self.next_user_add {
                    (entry.0, BaseStationEvent::ReleaseUser)
                } else {
                    (self.next_user_add, BaseStationEvent::AddUser)
                }
            },
            None => (self.next_user_add, BaseStationEvent::AddUser),
        };
        proof {
            assert(user_min == self.user_event_spec());
            if self.pool().len() > 0 {
                lemma_pool_min_exists(self.pool());
            }
        }
        match self.state {
            BaseStationState::Active | BaseStationState::Sleep => user_min,
            BaseStationState::PowerUp(deadline) => {
                if deadline < user_min.0 {
                    (deadline, BaseStationEvent::PowerUp)
                } else {
                    user_min
                }
            },
            BaseStationState::PowerDown(deadline) => {
                if deadline < user_min.0 {
                    (deadline, BaseStationEvent::ShutDown)
                } else {
                    user_min
                }
            },
        }
    }

    /// Executes one local event at the current clock. An arrival that cannot
    /// be admitted here is handed back for redirection.
    pub fn execute_event(
        &mut self,
        event: &BaseStationEvent,
        cfg: &Config,
        sim_state: &mut SimState,
        rng: &mut rand::rngs::StdRng,
        log: &mut EventLog,
    ) -> (res: Option<User>)
        requires
            cfg.wf(),
            old(self).wf(*cfg),
            *event == BaseStationEvent::ReleaseUser ==> old(self).pool_size() > 0,
            old(sim_state).time + cfg.process_time_max * 1000 <= u64::MAX,
        ensures
            event_applied(
                *old(self),
                *final(self),
                *old(sim_state),
                *final(sim_state),
                *event,
                *cfg,
                res,
            ),
            final(self).wf(*cfg),
            final(log).enabled == old(log).enabled,
            !old(log).enabled ==> final(log).records@ == old(log).records@,
            old(self).timers_at_least(old(sim_state).time) ==> final(self).timers_at_least(
                old(sim_state).time,
            ),
    {
        match event {
            BaseStationEvent::AddUser => self.add_user_routine(cfg, rng, sim_state, log),
            BaseStationEvent::ReleaseUser => {
                let popped = heap_pop(&mut self.resources);
                match popped {
                    Some(entry) => {
                        proof {
                            lemma_pool_min_exists(old(self).pool());
                            lemma_pool_min_unique(
                                old(self).pool(),
                                entry,
                                pool_min_entry(old(self).pool()),
                            );
                            assert(old(self).pool().contains(entry));
                            assert(Multiset::singleton(entry).subset_of(old(self).pool())) by {
                                assert(forall|y: PoolEntry|
                                    Multiset::singleton(entry).count(y) <= old(self).pool().count(y));
                            }
                            assert(self.pool().len() == old(self).pool().len() - 1);
                        }
                        proof {
                            assert forall|x: PoolEntry| self.pool().contains(x) implies old(
                                self,
                            ).pool().contains(x) by {
                                assert(self.pool().count(x) <= old(self).pool().count(x));
                            }
                        }
                        log.push(
                            LogRecord::UserRelease {
                                time: sim_state.time,
                                station: self.id,
                                user: entry.1,
                                end: entry.0,
                            },
                        );
                    },
                    None => {
                        proof {
                            assert(false);
                        }
                    },
                }
                None
            },
            BaseStationEvent::PowerUp => {
                log.push(
                    LogRecord::StateChange {
                        time: sim_state.time,
                        station: self.id,
                        active: true,
                    },
                );
                self.state = BaseStationState::Active;
                self.total_power = self.total_power.saturating_add(cfg.wakeup_power as u128);
                None
            },
            BaseStationEvent::ShutDown => {
                log.push(
                    LogRecord::StateChange {
                        time: sim_state.time,
                        station: self.id,
                        active: false,
                    },
                );
                self.state = BaseStationState::Sleep;
                self.total_power = self.total_power.saturating_add(cfg.wakeup_power as u128);
                None
            },
        }
    }

    /// Schedules the next arrival, builds the arriving user, and admits it
    /// when the station is `Active` with spare capacity; otherwise hands the
    /// user back displaced.
    fn add_user_routine(
        &mut self,
        cfg: &Config,
        rng: &mut rand::rngs::StdRng,
        sim_state: &mut SimState,
        log: &mut EventLog,
    ) -> (res: Option<User>)
        requires
            cfg.wf(),
            old(self).wf(*cfg),
            old(sim_state).time + cfg.process_time_max * 1000 <= u64::MAX,
        ensures
            final(self).wf(*cfg),
            final(self).id == old(self).id,
            final(log).enabled == old(log).enabled,
            !old(log).enabled ==> final(log).records@ == old(log).records@,
            final(sim_state).time == old(sim_state).time,
            final(sim_state).lambda_micro == old(sim_state).lambda_micro,
            final(sim_state).lambda_update_time == old(sim_state).lambda_update_time,
            final(sim_state).lambda_update_idx == old(sim_state).lambda_update_idx,
            final(sim_state).all_users == old(sim_state).all_users,
            final(sim_state).redirected_users == old(sim_state).redirected_users,
            final(sim_state).dropped_users == old(sim_state).dropped_users,
            final(sim_state).next_user_id == old(sim_state).next_user_id.saturating_add(1),
            final(self).next_user_add >= old(sim_state).time,
            final(self).state == old(self).state,
            final(self).total_power == old(self).total_power,
            final(self).total_usage == old(self).total_usage,
            final(self).sleep_time == old(self).sleep_time,
            old(self).timers_at_least(old(sim_state).time) ==> final(self).timers_at_least(
                old(sim_state).time,
            ),
            if old(self).state == BaseStationState::Active && old(self).pool_size()
                < cfg.resources_count {
                &&& res is None
                &&& final(sim_state).admitted_users == old(sim_state).admitted_users.saturating_add(1)
                &&& exists|e: PoolEntry|
                    {
                        &&& final(self).pool() == old(self).pool().insert(e)
                        &&& e.1 == old(sim_state).next_user_id
                        &&& e.2 == old(sim_state).time
                        &&& old(sim_state).time + cfg.process_time_min * 1000 <= e.0 <= old(sim_state).time + cfg.process_time_max * 1000
                    }
            } else {
                &&& res matches Some(u) && u.id == old(sim_state).next_user_id && u.start == old(sim_state).time && old(sim_state).time + cfg.process_time_min * 1000 <= u.end <= old(sim_state).time + cfg.process_time_max * 1000
                &&& final(self).pool() == old(self).pool()
                &&& final(sim_state).admitted_users == old(sim_state).admitted_users
            },
    {
        let gap = sample_arrival_gap(rng, sim_state.lambda_micro);
        self.next_user_add = sim_state.time.saturating_add(gap);
        let user = User::new(sim_state.next_user_id, sim_state.time, rng, cfg);
        sim_state.next_user_id = sim_state.next_user_id.saturating_add(1);
        match self.state {
            BaseStationState::Active => {
                let used = heap_len(&self.resources);
                if used >= cfg.resources_count {
                    log.push(
                        LogRecord::UserCreated {
                            time: sim_state.time,
                            station: self.id,
                            user: user.id,
                            end: user.end,
                            next_add: self.next_user_add,
                        },
                    );
                    return Some(user);
                }
                log.push(
                    LogRecord::UserAdd {
                        time: sim_state.time,
                        station: self.id,
                        user: user.id,
                        end: user.end,
                        next_add: self.next_user_add,
                    },
                );
                heap_push(&mut self.resources, user.to_entry());
                sim_state.admitted_users = sim_state.admitted_users.saturating_add(1);
                proof {
                    assert forall|x: PoolEntry| self.pool().contains(x) && x != user.entry()
                        implies old(self).pool().contains(x) by {
                        assert(Multiset::singleton(user.entry()).count(x) == 0);
                        assert(self.pool().count(x) == old(self).pool().count(x));
                    }
                }
                None
            },
            BaseStationState::Sleep | BaseStationState::PowerUp(_) | BaseStationState::PowerDown(
                _,
            ) => {
                log.push(
                    LogRecord::UserCreated {
                        time: sim_state.time,
                        station: self.id,
                        user: user.id,
                        end: user.end,
                        next_add: self.next_user_add,
                    },
                );
                Some(user)
            },
        }
    }

    /// How many users the station is serving right now.
    pub fn get_usage_raw(&self) -> (n: usize)
        ensures
            n == self.pool_size(),
    {
        heap_len(&self.resources)
    }

    /// Whether the usage percentage is at or above `threshold` percent,
    /// decided exactly by cross-multiplication.
    pub fn usage_at_least(&self, threshold: u32, cfg: &Config) -> (r: bool)
        requires
            cfg.wf(),
            self.wf(*cfg),
            threshold <= 100,
        ensures
            r == (self.pool_size() * 100 >= threshold * cfg.resources_count),
    {
        let used = heap_len(&self.resources);
        proof {
            lemma_pct_mul_fits(threshold as int, cfg.resources_count as int, usize::MAX as int);
            lemma_pct_mul_fits(100, used as int, usize::MAX as int);
        }
        used * 100 >= (threshold as usize) * cfg.resources_count
    }

    /// Whether the usage percentage is at or below `threshold` percent,
    /// decided exactly by cross-multiplication.
    pub fn usage_at_most(&self, threshold: u32, cfg: &Config) -> (r: bool)
        requires
            cfg.wf(),
            self.wf(*cfg),
            threshold <= 100,
        ensures
            r == (self.pool_size() * 100 <= threshold * cfg.resources_count),
    {
        let used = heap_len(&self.resources);
        proof {
            lemma_pct_mul_fits(threshold as int, cfg.resources_count as int, usize::MAX as int);
            lemma_pct_mul_fits(100, used as int, usize::MAX as int);
        }
        used * 100 <= (threshold as usize) * cfg.resources_count
    }

    pub fn is_active(&self) -> (r: bool)
        ensures
            r == (self.state == BaseStationState::Active),
    {
        match self.state {
            BaseStationState::Active => true,
            _ => false,
        }
    }

    /// Admits a redirected user when capacity is left; a full station turns
    /// the user away.
    pub fn redirect_here(&mut self, cfg: &Config, user: User) -> (r: Result<(), ()>)
        requires
            old(self).wf(*cfg),
        ensures
            final(self).wf(*cfg),
            final(self).id == old(self).id && final(self).state == old(self).state && final(self).next_user_add == old(self).next_user_add,
            final(self).total_power == old(self).total_power && final(self).total_usage == old(self).total_usage && final(self).sleep_time == old(self).sleep_time,
            old(self).pool_size() >= cfg.resources_count ==> r == Result::<(), ()>::Err(())
                && *final(self) == *old(self),
            old(self).pool_size() < cfg.resources_count ==> r == Result::<(), ()>::Ok(()) && final(self).pool() == old(self).pool().insert(user.entry()),
    {
        let used = heap_len(&self.resources);
        if used >= cfg.resources_count {
            return Err(());
        }
        heap_push(&mut self.resources, user.to_entry());
        Ok(())
    }

    /// Moves up to `count` users from the back of `users` into the pool,
    /// never beyond the spare capacity.
    pub fn redirect_here_vec(&mut self, cfg: &Config, users: &mut Vec<User>, count: usize)
        requires
            old(self).wf(*cfg),
        ensures
            final(self).wf(*cfg),
            final(self).id == old(self).id && final(self).state == old(self).state && final(self).next_user_add == old(self).next_user_add,
            final(self).total_power == old(self).total_power && final(self).total_usage == old(self).total_usage && final(self).sleep_time == old(self).sleep_time,
            ({
                let moved = vstd::math::min(
                    vstd::math::min(count as int, cfg.resources_count - old(self).pool_size()),
                    old(users)@.len() as int,
                );
                &&& final(users)@ == old(users)@.take(old(users)@.len() - moved)
                &&& final(self).pool() == old(self).pool().add(
                    entries_multiset(old(users)@.skip(old(users)@.len() - moved)),
                )
                &&& final(self).pool_size() == old(self).pool_size() + moved
            }),
    {
        let used = heap_len(&self.resources);
        let space = cfg.resources_count - used;
        let mut quota = if count < space {
            count
        } else {
            space
        };
        if users.len() < quota {
            quota = users.len();
        }
        let ghost moved = quota as int;
        let ghost users0 = users@;
        proof {
            assert(users@ =~= users0.take(users0.len() as int));
            assert(users0.skip(users0.len() as int) =~= Seq::<User>::empty());
        }
        let mut i: usize = 0;
        while i < quota
            invariant
                i <= moved,
                moved == quota,
                moved <= users0.len(),
                users@ =~= users0.take(users0.len() - i),
                self.pool() == old(self).pool().add(entries_multiset(users0.skip(users0.len() - i))),
                self.pool_size() == old(self).pool_size() + i,
                old(self).pool_size() + moved <= cfg.resources_count,
                self.id == old(self).id && self.state == old(self).state && self.next_user_add
                    == old(self).next_user_add,
                self.total_power == old(self).total_power && self.total_usage == old(self).total_usage && self.sleep_time == old(self).sleep_time,
            decreases quota - i,
        {
            let ghost pool_prev = self.pool();
            let user = users.pop().unwrap();
            proof {
                assert(user == users0[users0.len() - i - 1]);
                assert(users@ =~= users0.take(users0.len() - (i + 1)));
                assert(users0.skip(users0.len() - (i + 1)).drop_first() =~= users0.skip(
                    users0.len() - i,
                ));
                assert(users0.skip(users0.len() - (i + 1)).first() == users0[users0.len() - i - 1]);
            }
            heap_push(&mut self.resources, user.to_entry());
            proof {
                crate::user::lemma_entries_multiset_cons(users0.skip(users0.len() - (i + 1)));
                assert(entries_multiset(users0.skip(users0.len() - (i + 1))) == entries_multiset(
                    users0.skip(users0.len() - i),
                ).insert(user.entry()));
                assert(self.pool() == pool_prev.insert(user.entry()));
                assert(self.pool() =~= old(self).pool().add(
                    entries_multiset(users0.skip(users0.len() - (i + 1))),
                ));
            }
            i = i + 1;
        }
    }

    /// Pops half of the pool (rounded down) in departure order and returns
    /// it; a pool of fewer than two users is left alone.
    pub fn release_half(&mut self) -> (r: Vec<User>)
        ensures
            final(self).id == old(self).id && final(self).state == old(self).state && final(self).next_user_add == old(self).next_user_add,
            final(self).total_power == old(self).total_power && final(self).total_usage == old(self).total_usage && final(self).sleep_time == old(self).sleep_time,
            old(self).pool_size() < 2 ==> final(self).pool() == old(self).pool() && r@.len() == 0,
            old(self).pool_size() >= 2 ==> {
                &&& r@.len() == old(self).pool_size() / 2
                &&& final(self).pool().add(entries_multiset(r@)) == old(self).pool()
                &&& final(self).pool_size() == old(self).pool_size() - old(self).pool_size() / 2
                &&& (forall|a: int, b: int|
                    0 <= a < b < r@.len() ==> crate::pool::lex_le(
                        (#[trigger] r@[a]).entry(),
                        (#[trigger] r@[b]).entry(),
                    ))
                &&& (forall|a: int, x: PoolEntry|
                    0 <= a < r@.len() && #[trigger] final(self).pool().contains(x)
                        ==> crate::pool::lex_le((#[trigger] r@[a]).entry(), x))
            },
    {
        let n = heap_len(&self.resources);
        if n < 2 {
            Vec::new()
        } else {
            self.pop_many(n / 2)
        }
    }

    /// Pops the whole pool in departure order and returns it.
    pub fn release_all(&mut self) -> (r: Vec<User>)
        ensures
            final(self).id == old(self).id && final(self).state == old(self).state && final(self).next_user_add == old(self).next_user_add,
            final(self).total_power == old(self).total_power && final(self).total_usage == old(self).total_usage && final(self).sleep_time == old(self).sleep_time,
            r@.len() == old(self).pool_size(),
            final(self).pool() == Multiset::<PoolEntry>::empty(),
            entries_multiset(r@) == old(self).pool(),
            forall|a: int, b: int|
                0 <= a < b < r@.len() ==> crate::pool::lex_le(
                    (#[trigger] r@[a]).entry(),
                    (#[trigger] r@[b]).entry(),
                ),
    {
        let n = heap_len(&self.resources);
        let r = self.pop_many(n);
        proof {
            assert(self.pool().len() == 0);
            assert(self.pool() =~= Multiset::<PoolEntry>::empty());
            assert(Multiset::<PoolEntry>::empty().add(entries_multiset(r@)) =~= entries_multiset(
                r@,
            ));
        }
        r
    }

    /// Pops `count` users, earliest departures first: the result is sorted
    /// ascending by departure (ties to the lower id), and everything kept
    /// departs no earlier than anything released.
    pub fn pop_many(&mut self, count: usize) -> (r: Vec<User>)
        requires
            count <= old(self).pool_size(),
        ensures
            final(self).id == old(self).id && final(self).state == old(self).state && final(self).next_user_add == old(self).next_user_add,
            final(self).total_power == old(self).total_power && final(self).total_usage == old(self).total_usage && final(self).sleep_time == old(self).sleep_time,
            r@.len() == count,
            final(self).pool().add(entries_multiset(r@)) == old(self).pool(),
            final(self).pool_size() == old(self).pool_size() - count,
            forall|a: int, b: int|
                0 <= a < b < r@.len() ==> crate::pool::lex_le(
                    (#[trigger] r@[a]).entry(),
                    (#[trigger] r@[b]).entry(),
                ),
            forall|a: int, x: PoolEntry|
                0 <= a < r@.len() && #[trigger] final(self).pool().contains(x)
                    ==> crate::pool::lex_le((#[trigger] r@[a]).entry(), x),
    {
        let mut out: Vec<User> = Vec::new();
        let mut i: usize = 0;
        while i < count
            invariant
                i <= count,
                count <= old(self).pool_size(),
                out@.len() == i,
                self.pool().add(entries_multiset(out@)) == old(self).pool(),
                self.pool_size() == old(self).pool_size() - i,
                forall|a: int, b: int|
                    0 <= a < b < out@.len() ==> crate::pool::lex_le(
                        (#[trigger] out@[a]).entry(),
                        (#[trigger] out@[b]).entry(),
                    ),
                forall|a: int, x: PoolEntry|
                    0 <= a < out@.len() && #[trigger] self.pool().contains(x)
                        ==> crate::pool::lex_le((#[trigger] out@[a]).entry(), x),
                self.id == old(self).id && self.state == old(self).state && self.next_user_add
                    == old(self).next_user_add,
                self.total_power == old(self).total_power && self.total_usage == old(self).total_usage && self.sleep_time == old(self).sleep_time,
            decreases count - i,
        {
            let ghost pool_prev = self.pool();
            let ghost out_prev = out@;
            let popped = heap_pop(&mut self.resources);
            match popped {
                Some(entry) => {
                    let u = User::from_entry(entry);
                    out.push(u);
                    proof {
                        assert(pool_prev.contains(entry));
                        assert(out@.drop_last() =~= out_prev);
                        assert(out@.last() == u);
                        assert(entries_multiset(out@) == entries_multiset(out_prev).insert(
                            u.entry(),
                        ));
                        assert(self.pool().add(entries_multiset(out@)) =~= old(self).pool());
                        // the popped entry was the least left, so it follows
                        // everything already out and precedes everything kept
                        assert(forall|a: int|
                            0 <= a < out_prev.len() ==> crate::pool::lex_le(
                                (#[trigger] out_prev[a]).entry(),
                                entry,
                            ));
                        assert forall|a: int, b: int|
                            0 <= a < b < out@.len() implies crate::pool::lex_le(
                            (#[trigger] out@[a]).entry(),
                            (#[trigger] out@[b]).entry(),
                        ) by {
                            if b == out_prev.len() {
                                assert(out@[b] == u);
                                assert(out@[a] == out_prev[a]);
                            }
                        }
                        assert forall|a: int, x: PoolEntry|
                            0 <= a < out@.len() && #[trigger] self.pool().contains(x) implies
                            crate::pool::lex_le((#[trigger] out@[a]).entry(), x) by {
                            assert(self.pool().count(x) <= pool_prev.count(x));
                            assert(pool_prev.contains(x));
                            if a < out_prev.len() {
                                assert(out@[a] == out_prev[a]);
                            } else {
                                assert(out@[a] == u);
                                assert(crate::pool::lex_le(entry, x));
                            }
                        }
                    }
                },
                None => {
                    proof {
                        assert(false);
                    }
                },
            }
            i = i + 1;
        }
        out
    }

    /// Accumulates `dt` microseconds of energy and usage at the current
    /// state's rates; sleeping time is also tallied.
    pub fn accumulate_counters(&mut self, dt: u64, cfg: &Config)
        requires
            old(self).state == BaseStationState::Sleep ==> old(self).sleep_time + dt <= u64::MAX,
        ensures
            accumulated(*old(self), *final(self), dt, *cfg),
    {
        match self.state {
            BaseStationState::Active => {
                proof {
                    lemma_u64_mul_fits(dt, cfg.active_power);
                }
                self.total_power = self.total_power.saturating_add(
                    (dt as u128) * (cfg.active_power as u128),
                );
            },
            BaseStationState::Sleep => {
                proof {
                    lemma_u64_mul_fits(dt, cfg.sleep_power);
                }
                self.sleep_time = self.sleep_time + dt;
                self.total_power = self.total_power.saturating_add(
                    (dt as u128) * (cfg.sleep_power as u128),
                );
            },
            BaseStationState::PowerUp(_) => {},
            BaseStationState::PowerDown(_) => {},
        }
        let used = heap_len(&self.resources);
        proof {
            assert(0 <= (dt as int) * (used as int) <= u128::MAX) by (nonlinear_arith)
                requires
                    dt <= 0xffff_ffff_ffff_ffffu64,
                    used <= 0xffff_ffff_ffff_ffffu64,
            ;
        }
        self.total_usage = self.total_usage.saturating_add((dt as u128) * (used as u128));
    }

    /// The raw statistics of this station, for the caller's renderer.
    pub fn get_results(&self) -> (r: BaseStationResult)
        ensures
            r.total_energy == self.total_power,
            r.usage_integral == self.total_usage,
            r.sleep_time == self.sleep_time,
    {
        BaseStationResult {
            total_energy: self.total_power,
            usage_integral: self.total_usage,
            sleep_time: self.sleep_time,
        }
    }

    /// Pushes a user straight into the pool, past the admission rules.
    pub fn force_add_user(&mut self, user: User)
        ensures
            final(self).id == old(self).id && final(self).state == old(self).state && final(self).next_user_add == old(self).next_user_add,
            final(self).total_power == old(self).total_power && final(self).total_usage == old(self).total_usage && final(self).sleep_time == old(self).sleep_time,
            final(self).pool() == old(self).pool().insert(user.entry()),
    {
        heap_push(&mut self.resources, user.to_entry());
    }
}

} // verus!
