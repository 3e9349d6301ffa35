//! The orchestrator: global simulation state, the event loop, redirection,
//! and the power-management policy.

pub mod sim_results;

use vstd::prelude::*;

use crate::basestation::{
    accumulated, event_applied, BaseStation, BaseStationEvent, BaseStationResult, BaseStationState,
};
use crate::eventlog::{EventLog, LogRecord};
use crate::sampling::{rng_from_entropy, rng_from_seed};
use crate::sim_container::sim_results::SimResults;
use crate::wave::{append_wave_header, append_wave_sample};
use crate::config::{Config, WalkOverType};
use crate::pool::PoolEntry;
use crate::user::{entries_multiset, shift_users, User};

verus! {

/// Per-run switches, fixed before the first step.
pub struct RunParams {
    /// Base seed for the random stream; `None` asks for fresh entropy.
    pub seed: Option<u64>,
    /// Record text-log events.
    pub log: bool,
    /// Record the binary wave stream.
    pub log_wave: bool,
    /// Run length, microseconds.
    pub duration: u64,
    /// Number of independent replications.
    pub iterations: u32,
    /// Evaluate the sleep/wakeup policy each step.
    pub enable_sleep: bool,
    /// Print each replication's result as it finishes.
    pub show_partial_results: bool,
    /// Steps between two wave samples.
    pub samples: usize,
}

/// Every station's pool is within capacity.
pub open spec fn all_wf(stations: Seq<BaseStation>, cfg: Config) -> bool {
    forall|i: int| 0 <= i < stations.len() ==> (#[trigger] stations[i]).wf(cfg)
}

/// Station `i` sits at index `i`, as the orchestrator lays them out.
pub open spec fn ids_in_place(stations: Seq<BaseStation>) -> bool {
    forall|i: int| 0 <= i < stations.len() ==> (#[trigger] stations[i]).id == i
}

/// At least one station is `Active`.
pub open spec fn has_active(stations: Seq<BaseStation>) -> bool {
    exists|i: int|
        0 <= i < stations.len() && (#[trigger] stations[i]).state == BaseStationState::Active
}

/// Everything scheduled anywhere lies at or after `t`.
pub open spec fn all_timers_at_least(stations: Seq<BaseStation>, t: u64) -> bool {
    forall|i: int| 0 <= i < stations.len() ==> (#[trigger] stations[i]).timers_at_least(t)
}

/// `w` is the first sleeping station.
pub open spec fn is_first_sleep(stations: Seq<BaseStation>, w: int) -> bool {
    &&& 0 <= w < stations.len()
    &&& stations[w].state == BaseStationState::Sleep
    &&& forall|j: int| 0 <= j < w ==> (#[trigger] stations[j]).state != BaseStationState::Sleep
}

/// A station that may power down: `Active` with usage at or below the sleep
/// threshold.
pub open spec fn is_shutdown_candidate(s: BaseStation, cfg: Config) -> bool {
    s.state == BaseStationState::Active && s.pool_size() * 100 <= cfg.sleep_threshold
        * cfg.resources_count
}

/// `c` is the first station that may power down.
pub open spec fn is_first_shutdown_candidate(
    stations: Seq<BaseStation>,
    cfg: Config,
    c: int,
) -> bool {
    &&& 0 <= c < stations.len()
    &&& is_shutdown_candidate(stations[c], cfg)
    &&& forall|j: int| 0 <= j < c ==> !is_shutdown_candidate(#[trigger] stations[j], cfg)
}

/// How many stations besides `c` are `Active`.
pub open spec fn others_active_count(stations: Seq<BaseStation>, c: int) -> int
    decreases stations.len(),
{
    if stations.len() == 0 {
        0
    } else {
        others_active_count(stations.drop_last(), c) + if stations.len() - 1 != c
            && stations.last().state == BaseStationState::Active {
            1int
        } else {
            0int
        }
    }
}

/// The combined spare capacity of the `Active` stations besides `c`.
pub open spec fn others_spare(stations: Seq<BaseStation>, cfg: Config, c: int) -> int
    decreases stations.len(),
{
    if stations.len() == 0 {
        0
    } else {
        others_spare(stations.drop_last(), cfg, c) + if stations.len() - 1 != c
            && stations.last().state == BaseStationState::Active {
            cfg.resources_count - stations.last().pool_size()
        } else {
            0int
        }
    }
}

/// The spare capacity of one station.
pub open spec fn spare_of(s: BaseStation, cfg: Config) -> int {
    cfg.resources_count - s.pool_size()
}

/// `j` is the highest-numbered `Active` station besides `c`: the receiver
/// that takes the remainder of a shutdown redistribution.
pub open spec fn is_last_other(stations: Seq<BaseStation>, c: int, j: int) -> bool {
    &&& 0 <= j < stations.len()
    &&& j != c
    &&& stations[j].state == BaseStationState::Active
    &&& forall|j2: int|
        j < j2 < stations.len() ==> j2 == c || (#[trigger] stations[j2]).state
            != BaseStationState::Active
}

/// The total number of users held across all stations.
pub open spec fn pools_total(stations: Seq<BaseStation>) -> int
    decreases stations.len(),
{
    if stations.len() == 0 {
        0
    } else {
        pools_total(stations.drop_last()) + stations.last().pool_size()
    }
}

/// Replacing one station changes the total by that station's difference.
pub proof fn lemma_pools_total_update(s: Seq<BaseStation>, i: int, st: BaseStation)
    requires
        0 <= i < s.len(),
    ensures
        pools_total(s.update(i, st)) == pools_total(s) - s[i].pool_size() + st.pool_size(),
    decreases s.len(),
{
    if i == s.len() - 1 {
        assert(s.update(i, st).drop_last() =~= s.drop_last());
        assert(s.update(i, st).last() == st);
    } else {
        lemma_pools_total_update(s.drop_last(), i, st);
        assert(s.update(i, st).drop_last() =~= s.drop_last().update(i, st));
        assert(s.update(i, st).last() == s.last());
    }
}

/// Every entry of `a` comes from `b` or from `c`.
pub open spec fn pool_from(
    a: vstd::multiset::Multiset<PoolEntry>,
    b: vstd::multiset::Multiset<PoolEntry>,
    c: vstd::multiset::Multiset<PoolEntry>,
) -> bool {
    forall|x: PoolEntry| #[trigger] a.contains(x) ==> b.contains(x) || c.contains(x)
}

/// `b` is `a` with at most the pool changed.
pub open spec fn same_but_pool(a: BaseStation, b: BaseStation) -> bool {
    &&& b.id == a.id
    &&& b.state == a.state
    &&& b.next_user_add == a.next_user_add
    &&& b.total_power == a.total_power
    &&& b.total_usage == a.total_usage
    &&& b.sleep_time == a.sleep_time
}

/// A station whose timers lie at or after `a` also has them at or after any
/// earlier time.
pub proof fn lemma_timers_mono(s: BaseStation, a: u64, b: u64)
    requires
        s.timers_at_least(a),
        b <= a,
    ensures
        s.timers_at_least(b),
{
    assert forall|x: PoolEntry| s.pool().contains(x) implies x.0 >= b by {
        assert(x.0 >= a);
    }
}

/// The sum of a sequence of counts.
pub open spec fn sum_nat(s: Seq<usize>) -> int
    decreases s.len(),
{
    if s.len() == 0 {
        0
    } else {
        sum_nat(s.drop_last()) + s.last()
    }
}

/// A sum of counts is never negative.
pub proof fn lemma_sum_nat_nonneg(s: Seq<usize>)
    ensures
        sum_nat(s) >= 0,
    decreases s.len(),
{
    if s.len() > 0 {
        lemma_sum_nat_nonneg(s.drop_last());
    }
}

/// A prefix never sums to more than the whole.
pub proof fn lemma_sum_nat_take_le(s: Seq<usize>, n: int)
    requires
        0 <= n <= s.len(),
    ensures
        sum_nat(s.take(n)) <= sum_nat(s),
    decreases s.len(),
{
    if n == s.len() {
        assert(s.take(n) =~= s);
    } else {
        lemma_sum_nat_take_le(s.drop_last(), n);
        assert(s.drop_last().take(n) =~= s.take(n));
    }
}

/// Everything one sleep-policy evaluation promises: a wakeup applied at
/// the first overloaded `Active` station, else a shutdown attempt.
pub open spec fn policy_applied(
    pre: Seq<BaseStation>,
    post: Seq<BaseStation>,
    time: u64,
    cfg: Config,
) -> bool {
    &&& (forall|h: int|
        #[trigger] is_first_overloaded(pre, cfg, h) ==> wakeup_applied(pre, post, h, time, cfg))
    &&& ((forall|i: int|
        0 <= i < pre.len() ==> !((#[trigger] pre[i]).state == BaseStationState::Active
            && pre[i].pool_size() * 100 >= cfg.wakeup_threshold * cfg.resources_count))
        ==> shutdown_applied(pre, post, time, cfg))
}

/// How a possibly displaced user is settled after the event: none means
/// nothing moves; a displaced one is redirected per `redirect_applied`, and
/// exactly one of the redirected or dropped counters rises.
pub open spec fn displaced_settled(
    pre: Seq<BaseStation>,
    post: Seq<BaseStation>,
    res: Option<User>,
    rr: Result<usize, ()>,
    cfg: Config,
    a: SimState,
    b: SimState,
) -> bool {
    match res {
        Option::None => post == pre && b == a,
        Option::Some(u) => {
            &&& redirect_applied(pre, post, u, cfg, rr)
            &&& match rr {
                Result::Ok(_) => b == (SimState {
                    redirected_users: a.redirected_users.saturating_add(1),
                    ..a
                }),
                Result::Err(_) => b == (SimState {
                    dropped_users: a.dropped_users.saturating_add(1),
                    ..a
                }),
            }
        },
    }
}

/// Names one assignment of the step's intermediate states, so that a proof
/// can point the existential in `stepped` at the states the body went
/// through.
pub open spec fn step_witness(
    mid: Seq<BaseStation>,
    after_exec: Seq<BaseStation>,
    sm2: SimState,
    res: Option<User>,
    rdr: Seq<BaseStation>,
    rr: Result<usize, ()>,
) -> bool {
    true
}

/// One surviving step's full effect: the clock lands on the globally
/// earliest event time (the first station winning a tie), the elapsed span
/// is settled on every station, the chosen event executes, a displaced user
/// is redirected or dropped with the matching counter moved, and the sleep
/// policy runs when enabled. `a`/`pre` are the state and stations before,
/// `b`/`post` after.
#[verifier::opaque]
pub open spec fn stepped(
    a: SimState,
    b: SimState,
    pre: Seq<BaseStation>,
    post: Seq<BaseStation>,
    enable_sleep: bool,
    cfg: Config,
) -> bool {
    let t = min_next_upto(pre, pre.len() as int);
    let es = chosen_upto(pre, pre.len() as int);
    let ev = pre[es].next_event_spec().1;
    let sm1 = SimState {
        time: t,
        all_users: if ev == BaseStationEvent::AddUser {
            a.all_users.saturating_add(1)
        } else {
            a.all_users
        },
        lambda_micro: b.lambda_micro,
        lambda_update_time: b.lambda_update_time,
        lambda_update_idx: b.lambda_update_idx,
        ..a
    };
    &&& b.time == t
    &&& exists|
        mid: Seq<BaseStation>,
        after_exec: Seq<BaseStation>,
        sm2: SimState,
        res: Option<User>,
        rdr: Seq<BaseStation>,
        rr: Result<usize, ()>,
    |
        {
            &&& #[trigger] step_witness(mid, after_exec, sm2, res, rdr, rr)
            &&& advanced(
                pre,
                mid,
                (t - a.time) as u64,
                cfg,
            )
            &&& event_applied(
                mid[es],
                after_exec[es],
                sm1,
                sm2,
                ev,
                cfg,
                res,
            )
            &&& after_exec == mid.update(es, after_exec[es])
            &&& displaced_settled(
                after_exec,
                rdr,
                res,
                rr,
                cfg,
                sm2,
                b,
            )
            &&& if enable_sleep {
                policy_applied(rdr, post, t, cfg)
            } else {
                post == rdr
            }
        }
}

/// The earliest next-event time among the first `upto` stations.
pub open spec fn min_next_upto(stations: Seq<BaseStation>, upto: int) -> u64
    decreases upto,
{
    if upto <= 1 {
        stations[0].next_event_spec().0
    } else {
        let rest = min_next_upto(stations, upto - 1);
        if stations[upto - 1].next_event_spec().0 < rest {
            stations[upto - 1].next_event_spec().0
        } else {
            rest
        }
    }
}

/// Which of the first `upto` stations holds the earliest next event; the
/// lowest index wins a tie.
pub open spec fn chosen_upto(stations: Seq<BaseStation>, upto: int) -> int
    decreases upto,
{
    if upto <= 1 {
        0
    } else {
        if stations[upto - 1].next_event_spec().0 < min_next_upto(stations, upto - 1) {
            upto - 1
        } else {
            chosen_upto(stations, upto - 1)
        }
    }
}

/// How one step refreshes the cyclic arrival-rate schedule: when the clock
/// has reached the update time the cursor's entry comes into force and the
/// cursor advances; otherwise nothing moves.
pub open spec fn schedule_step(a: SimState, b: SimState, cfg: Config) -> bool {
    if a.time >= a.lambda_update_time {
        &&& b.lambda_micro == scaled_rate(
            cfg.lambda_micro,
            cfg.lambda_coefs@[a.lambda_update_idx as int].coef_micro,
        )
        &&& b.lambda_update_time == a.time.saturating_add(
            cfg.lambda_coefs@[a.lambda_update_idx as int].time,
        )
        &&& b.lambda_update_idx as int == (a.lambda_update_idx + 1) as int % (
        cfg.lambda_coefs@.len() as int)
    } else {
        &&& b.lambda_micro == a.lambda_micro
        &&& b.lambda_update_time == a.lambda_update_time
        &&& b.lambda_update_idx == a.lambda_update_idx
    }
}

/// Everything `redirect` promises of the stations for the user `u` and
/// outcome `r`.
pub open spec fn redirect_applied(
    pre: Seq<BaseStation>,
    post: Seq<BaseStation>,
    u: User,
    cfg: Config,
    r: Result<usize, ()>,
) -> bool {
    &&& (post.len() == pre.len())
    &&& (all_wf(post, cfg))
    &&& forall|j: int|
                0 <= j < pre.len() ==> same_but_pool(
                    pre[j],
                    #[trigger] post[j],
                )
    &&& (r matches Ok(id) ==> forall|j: int|
                0 <= j < pre.len() ==> (#[trigger] post[j]).pool().subset_of(
                    pre[j].pool().insert(u.entry()),
                ))
    &&& (r is Err ==> post =~= pre && (forall|j: int|
                0 <= j < pre.len() && (#[trigger] pre[j]).state
                    == BaseStationState::Active ==> pre[j].pool_size()
                    >= cfg.resources_count))
    &&& (r matches Ok(id) ==> exists|m: int|
                {
                    &&& 0 <= m < pre.len()
                    &&& #[trigger] pre[m].state == BaseStationState::Active
                    &&& pre[m].pool_size() < cfg.resources_count
                    &&& id == pre[m].id
                    &&& (forall|j: int|
                        0 <= j < pre.len() && (#[trigger] pre[j]).state
                            == BaseStationState::Active ==> pre[m].pool_size() <= pre[j].pool_size())
                    &&& (forall|j: int|
                        0 <= j < m && (#[trigger] pre[j]).state
                            == BaseStationState::Active ==> pre[m].pool_size() < pre[j].pool_size())
                    &&& post[m].pool() == pre[m].pool().insert(u.entry())
                    &&& (forall|j: int|
                        0 <= j < pre.len() && j != m ==> #[trigger] post[j]
                            == pre[j])
                })
}

/// The first `Active` station whose usage has reached the wakeup threshold.
pub open spec fn is_first_overloaded(stations: Seq<BaseStation>, cfg: Config, h: int) -> bool {
    &&& 0 <= h < stations.len()
    &&& stations[h].state == BaseStationState::Active
    &&& stations[h].pool_size() * 100 >= cfg.wakeup_threshold * cfg.resources_count
    &&& forall|j: int|
        0 <= j < h ==> !((#[trigger] stations[j]).state == BaseStationState::Active
            && stations[j].pool_size() * 100 >= cfg.wakeup_threshold * cfg.resources_count)
}

/// Everything `try_wakeup` promises of the stations, with `heavy` the
/// overloaded station handed to it.
pub open spec fn wakeup_applied(
    pre: Seq<BaseStation>,
    post: Seq<BaseStation>,
    heavy: int,
    time: u64,
    cfg: Config,
) -> bool {
    &&& (post.len() == pre.len())
    &&& (all_wf(post, cfg))
    // no user is created, duplicated or destroyed
    &&& (pools_total(post) == pools_total(pre))
    &&& forall|j: int|
                0 <= j < pre.len() ==> {
                    &&& (#[trigger] post[j]).id == pre[j].id
                    &&& post[j].next_user_add == pre[j].next_user_add
                    &&& post[j].total_power == pre[j].total_power
                    &&& post[j].total_usage == pre[j].total_usage
                    &&& post[j].sleep_time == pre[j].sleep_time
                    &&& (pre[j].state == BaseStationState::Active ==> post[j].state == BaseStationState::Active)
                }
    &&& (all_timers_at_least(pre, time) ==> all_timers_at_least(
                post,
                time,
            ))
    &&& ((forall|i: int|
                0 <= i < pre.len() ==> (#[trigger] pre[i]).state
                    != BaseStationState::Sleep) ==> post == pre)
    &&& forall|w: int|
                is_first_sleep(pre, w) && w != heavy ==> {
                    let evacuated = if pre[heavy].pool_size() >= 2 {
                        pre[heavy].pool_size() / 2
                    } else {
                        0
                    };
                    let moved = vstd::math::min(
                        evacuated as int,
                        cfg.resources_count - pre[w].pool_size(),
                    );
                    &&& same_but_pool(
                        pre[heavy],
                        #[trigger] post[heavy],
                    )
                    &&& post[heavy].pool_size() == pre[heavy].pool_size() - moved
                    &&& post[w].state == BaseStationState::PowerUp(
                        time.saturating_add((cfg.wakeup_delay * 1000) as u64),
                    )
                    &&& post[w].pool_size() == pre[w].pool_size() + moved
                    &&& (forall|j: int|
                        0 <= j < pre.len() && j != w && j != heavy
                            ==> #[trigger] post[j] == pre[j])
                    // the moved users are the earliest-departing of the
                    // overloaded pool, their departures pushed back by the
                    // wakeup delay
                    &&& exists|evac: Seq<User>|
                        {
                            &&& evac.len() == moved
                            &&& #[trigger] post[heavy].pool().add(
                                entries_multiset(evac),
                            ) == pre[heavy].pool()
                            &&& (forall|a: int, b: int|
                                0 <= a < b < evac.len() ==> crate::pool::lex_le(
                                    (#[trigger] evac[a]).entry(),
                                    (#[trigger] evac[b]).entry(),
                                ))
                            &&& (forall|a: int, x: PoolEntry|
                                0 <= a < evac.len() && #[trigger] post[heavy].pool().contains(x)
                                    ==> crate::pool::lex_le((#[trigger] evac[a]).entry(), x))
                            &&& post[w].pool() == pre[w].pool().add(
                                entries_multiset(
                                    shift_users(evac, (cfg.wakeup_delay * 1000) as u64),
                                ),
                            )
                        }
                }
}

/// Everything `try_shutdown` promises of the stations.
pub open spec fn shutdown_applied(
    pre: Seq<BaseStation>,
    post: Seq<BaseStation>,
    time: u64,
    cfg: Config,
) -> bool {
    &&& (post.len() == pre.len())
    &&& (all_wf(post, cfg))
    &&& forall|j: int|
                0 <= j < pre.len() ==> {
                    &&& (#[trigger] post[j]).id == pre[j].id
                    &&& post[j].next_user_add == pre[j].next_user_add
                    &&& post[j].total_power == pre[j].total_power
                    &&& post[j].total_usage == pre[j].total_usage
                    &&& post[j].sleep_time == pre[j].sleep_time
                    &&& (pre[j].state != BaseStationState::Active ==> post[j] == pre[j])
                }
    &&& (all_timers_at_least(pre, time) ==> all_timers_at_least(
                post,
                time,
            ))
    &&& (has_active(pre) ==> has_active(post))
    &&& ((forall|i: int|
                0 <= i < pre.len() ==> !is_shutdown_candidate(
                    #[trigger] pre[i],
                    cfg,
                )) ==> post == pre)
    &&& forall|c: int|
                #[trigger] is_first_shutdown_candidate(pre, cfg, c) ==> {
                    if others_active_count(pre, c) < 2 || pre[c].pool_size()
                        > others_spare(pre, cfg, c) {
                        post == pre
                    } else {
                        &&& post[c].pool_size() == 0
                        &&& post[c].state == BaseStationState::PowerDown(
                            time.saturating_add((cfg.wakeup_delay * 1000) as u64),
                        )
                        &&& (forall|j: int|
                            0 <= j < pre.len() && j != c && pre[j].state
                                == BaseStationState::Active ==> {
                                &&& same_but_pool(
                                    pre[j],
                                    #[trigger] post[j],
                                )
                                &&& pre[j].pool_size() <= post[j].pool_size()
                            })
                        // evacuation never loses or duplicates a user
                        &&& pools_total(post) == pools_total(pre)
                        // an empty candidate moves nobody
                        &&& (pre[c].pool_size() == 0 ==> forall|j: int|
                            0 <= j < pre.len() && j != c
                                ==> (#[trigger] post[j]).pool() == pre[j].pool())
                        // every receiver gets at least its proportional share
                        &&& (pre[c].pool_size() > 0 ==> forall|j: int|
                            0 <= j < pre.len() && j != c && pre[j].state
                                == BaseStationState::Active && !is_last_other(
                                pre,
                                c,
                                j,
                            ) ==> #[trigger] post[j].pool_size() >= pre[j].pool_size() + spare_of(pre[j], cfg) * pre[c].pool_size() / others_spare(pre, cfg, c))
                        // and exactly that share, unless the remainder
                        // overfilled the last receiver and had to spill back
                        &&& (pre[c].pool_size() > 0 ==> ((forall|j: int|
                            0 <= j < pre.len() && j != c && pre[j].state
                                == BaseStationState::Active && !is_last_other(
                                pre,
                                c,
                                j,
                            ) ==> #[trigger] post[j].pool_size() == pre[j].pool_size() + spare_of(pre[j], cfg) * pre[c].pool_size() / others_spare(pre, cfg, c)) || (
                        forall|l: int|
                            is_last_other(pre, c, l)
                                ==> #[trigger] post[l].pool_size()
                                == cfg.resources_count)))
                    }
                }
    // the policy never fires without at least two other active
    // stations whose combined spare capacity covers the occupancy
    &&& (forall|c: int|
                #[trigger] is_first_shutdown_candidate(pre, cfg, c) && post[c].state != pre[c].state ==> others_active_count(pre, c)
                    >= 2 && pre[c].pool_size() <= others_spare(
                    pre,
                    cfg,
                    c,
                ))
}

/// A sum of counts peels from the front as well as from the back.
pub proof fn lemma_sum_nat_cons(s: Seq<usize>)
    requires
        s.len() > 0,
    ensures
        sum_nat(s) == s[0] + sum_nat(s.drop_first()),
    decreases s.len(),
{
    if s.len() == 1 {
        assert(s.drop_last() =~= Seq::<usize>::empty());
        assert(s.drop_first() =~= Seq::<usize>::empty());
    } else {
        lemma_sum_nat_cons(s.drop_last());
        assert(s.drop_last().drop_first() =~= s.drop_first().drop_last());
        assert(s.drop_last()[0] == s[0]);
        assert(s.drop_first().last() == s.last());
    }
}

/// The spare capacity left on the listed stations from position `from` on.
pub open spec fn list_spare(
    stations: Seq<BaseStation>,
    idxs: Seq<usize>,
    cfg: Config,
    from: int,
) -> int
    decreases idxs.len() - from,
{
    if from < 0 || from >= idxs.len() {
        0
    } else {
        (cfg.resources_count - stations[idxs[from] as int].pool_size()) + list_spare(
            stations,
            idxs,
            cfg,
            from + 1,
        )
    }
}

/// `list_spare` reads only the listed stations from `from` on.
pub proof fn lemma_list_spare_agree(
    s1: Seq<BaseStation>,
    s2: Seq<BaseStation>,
    idxs: Seq<usize>,
    cfg: Config,
    from: int,
)
    requires
        forall|m: int|
            from <= m < idxs.len() ==> s1[#[trigger] idxs[m] as int].pool_size() == s2[idxs[
                m] as int].pool_size(),
    ensures
        list_spare(s1, idxs, cfg, from) == list_spare(s2, idxs, cfg, from),
    decreases idxs.len() - from,
{
    if 0 <= from < idxs.len() {
        lemma_list_spare_agree(s1, s2, idxs, cfg, from + 1);
    }
}

/// Growing one listed station's pool by `d` shrinks the listed spare by `d`.
pub proof fn lemma_list_spare_update(
    s1: Seq<BaseStation>,
    s2: Seq<BaseStation>,
    idxs: Seq<usize>,
    cfg: Config,
    from: int,
    k: int,
    d: int,
)
    requires
        0 <= from <= k < idxs.len(),
        s2[idxs[k] as int].pool_size() == s1[idxs[k] as int].pool_size() + d,
        forall|m: int|
            from <= m < idxs.len() && m != k ==> s1[#[trigger] idxs[m] as int].pool_size()
                == s2[idxs[m] as int].pool_size(),
    ensures
        list_spare(s2, idxs, cfg, from) == list_spare(s1, idxs, cfg, from) - d,
    decreases k - from,
{
    if from == k {
        lemma_list_spare_agree(s1, s2, idxs, cfg, from + 1);
    } else {
        lemma_list_spare_update(s1, s2, idxs, cfg, from + 1, k, d);
    }
}

/// The listed spare, read off the recorded spare list.
pub proof fn lemma_list_spare_total(
    stations: Seq<BaseStation>,
    idxs: Seq<usize>,
    spares: Seq<usize>,
    cfg: Config,
    from: int,
)
    requires
        idxs.len() == spares.len(),
        0 <= from <= idxs.len(),
        forall|m: int|
            from <= m < idxs.len() ==> #[trigger] spares[m] == cfg.resources_count - stations[
                idxs[m] as int].pool_size(),
    ensures
        list_spare(stations, idxs, cfg, from) == sum_nat(spares.skip(from)),
    decreases idxs.len() - from,
{
    if from == idxs.len() {
        assert(spares.skip(from) =~= Seq::<usize>::empty());
    } else {
        lemma_list_spare_total(stations, idxs, spares, cfg, from + 1);
        lemma_sum_nat_cons(spares.skip(from));
        assert(spares.skip(from).drop_first() =~= spares.skip(from + 1));
        assert(spares.skip(from)[0] == spares[from]);
    }
}

/// Pools within capacity leave no negative spare.
pub proof fn lemma_list_spare_nonneg(
    stations: Seq<BaseStation>,
    idxs: Seq<usize>,
    cfg: Config,
    from: int,
)
    requires
        forall|m: int|
            from <= m < idxs.len() ==> stations[#[trigger] idxs[m] as int].pool_size()
                <= cfg.resources_count,
    ensures
        list_spare(stations, idxs, cfg, from) >= 0,
    decreases idxs.len() - from,
{
    if 0 <= from < idxs.len() {
        lemma_list_spare_nonneg(stations, idxs, cfg, from + 1);
    }
}

/// Splits the evacuees of a closing station across the receivers,
/// proportionally to each receiver's spare capacity, the whole remainder
/// going to the last receiver.
///
/// The allotments always sum to exactly `evacuees`: the split neither loses
/// nor duplicates a user.
pub fn shutdown_allocations(spares: &Vec<usize>, evacuees: usize, total: u128) -> (allocs: Vec<
    usize,
>)
    requires
        spares@.len() >= 1,
        total == sum_nat(spares@),
        0 < total,
        (evacuees as int) <= total,
    ensures
        allocs@.len() == spares@.len(),
        sum_nat(allocs@) == evacuees,
        forall|j: int|
            0 <= j < allocs@.len() - 1 ==> #[trigger] allocs@[j] == spares@[j] * evacuees
                / sum_nat(spares@),
        forall|j: int| 0 <= j < allocs@.len() - 1 ==> #[trigger] allocs@[j] <= spares@[j],
        allocs@[allocs@.len() - 1] == evacuees - sum_nat(allocs@.take(allocs@.len() - 1)),
{
    let k = spares.len();
    let mut allocs: Vec<usize> = Vec::new();
    let mut given: usize = 0;
    let mut j: usize = 0;
    proof {
        assert(allocs@.take(0int) =~= allocs@);
    }
    while j < k - 1
        invariant
            k == spares@.len(),
            1 <= k,
            total == sum_nat(spares@),
            0 < total,
            (evacuees as int) <= total,
            j <= k - 1,
            allocs@.len() == j,
            given == sum_nat(allocs@),
            given <= evacuees,
            forall|i: int|
                0 <= i < j ==> #[trigger] allocs@[i] == spares@[i] * evacuees / sum_nat(spares@),
            forall|i: int| 0 <= i < j ==> #[trigger] allocs@[i] <= spares@[i],
            (given as int) * (total as int) <= sum_nat(spares@.take(j as int)) * evacuees,
        decreases k - 1 - j,
    {
        let ghost s_j = spares@[j as int] as int;
        let ghost u = evacuees as int;
        let ghost s = total as int;
        proof {
            crate::basestation::lemma_u64_mul_fits(spares@[j as int] as u64, evacuees as u64);
        }
        let wide = (spares[j] as u128) * (evacuees as u128);
        let a128 = wide / total;
        proof {
            vstd::arithmetic::div_mod::lemma_fundamental_div_mod(s_j * u, s);
            assert((s_j * u) % s >= 0);
            assert(s * ((s_j * u) / s) <= s_j * u);
            // the allotment never exceeds the receiver's spare capacity
            assert(s_j * u <= s_j * s) by (nonlinear_arith)
                requires
                    0 <= s_j,
                    0 <= u <= s,
            ;
            assert(((s_j * u) / s) * s <= s_j * s) by (nonlinear_arith)
                requires
                    s * ((s_j * u) / s) <= s_j * u,
                    s_j * u <= s_j * s,
            ;
            assert((s_j * u) / s <= s_j) by (nonlinear_arith)
                requires
                    ((s_j * u) / s) * s <= s_j * s,
                    s > 0,
            ;
            assert((s_j * u) / s >= 0) by (nonlinear_arith)
                requires
                    s_j * u >= 0,
                    s > 0,
            ;
        }
        let a = a128 as usize;
        proof {
            let ghost given0 = given as int;
            let ghost q = sum_nat(spares@.take(j as int));
            // partial sums stay proportional, so the loop never over-gives
            assert((given0 + a) * s == given0 * s + a * s) by (nonlinear_arith);
            assert(a * s <= s_j * u) by (nonlinear_arith)
                requires
                    s * ((s_j * u) / s) <= s_j * u,
                    a == (s_j * u) / s,
            ;
            assert(q * u + s_j * u == (q + s_j) * u) by (nonlinear_arith);
            assert(spares@.take(j + 1int).drop_last() =~= spares@.take(j as int));
            assert(sum_nat(spares@.take(j + 1int)) == q + s_j);
            lemma_sum_nat_take_le(spares@, j + 1int);
            assert((q + s_j) * u <= s * u) by (nonlinear_arith)
                requires
                    q + s_j <= s,
                    u >= 0,
            ;
            assert(given0 + a <= u) by (nonlinear_arith)
                requires
                    (given0 + a) * s <= s * u,
                    s > 0,
            ;
        }
        let ghost allocs_prev = allocs@;
        allocs.push(a);
        given = given + a;
        proof {
            assert(allocs@.drop_last() =~= allocs_prev);
            assert(allocs@.take(j + 1int) =~= allocs@);
        }
        j = j + 1;
    }
    let last = evacuees - given;
    let ghost allocs_prev = allocs@;
    allocs.push(last);
    proof {
        assert(allocs@.drop_last() =~= allocs_prev);
        assert(allocs@.take(allocs@.len() - 1) =~= allocs_prev);
        assert(sum_nat(allocs@) == sum_nat(allocs_prev) + last);
    }
    allocs
}

/// The global mutable state of one run.
pub struct SimState {
    /// The logical clock, microseconds. Never decreases.
    pub time: u64,
    /// Identity for the next user to arrive.
    pub next_user_id: u64,
    /// The arrival rate currently in force, in millionths per second.
    pub lambda_micro: u64,
    /// When the rate schedule next advances, microseconds.
    pub lambda_update_time: u64,
    /// Cursor into the cyclic rate schedule.
    pub lambda_update_idx: usize,
    /// Arrivals seen.
    pub all_users: u64,
    /// Arrivals admitted where they arrived.
    pub admitted_users: u64,
    /// Arrivals admitted elsewhere after displacement.
    pub redirected_users: u64,
    /// Arrivals that found no place anywhere.
    pub dropped_users: u64,
}

/// The rate a schedule entry puts in force: the base rate scaled by a
/// coefficient in millionths.
pub open spec fn scaled_rate(base: u64, coef_micro: u64) -> int {
    (base * coef_micro) / 1_000_000
}

impl SimState {
    /// Arrival bookkeeping never loses a user: every arrival is admitted,
    /// redirected, or dropped, exactly one of the three, as long as the
    /// arrival counter has not saturated.
    pub open spec fn conserved(self) -> bool {
        self.all_users < u64::MAX ==> self.all_users == self.admitted_users
            + self.redirected_users + self.dropped_users
    }

    pub fn new(cfg: &Config) -> (s: SimState)
        requires
            cfg.wf(),
        ensures
            s.time == 0,
            s.next_user_id == 0,
            s.lambda_micro == scaled_rate(cfg.lambda_micro, cfg.lambda_coefs@[0].coef_micro),
            s.lambda_update_time == cfg.lambda_coefs@[0].time,
            s.lambda_update_idx == if cfg.lambda_coefs@.len() > 1 {
                1int
            } else {
                0int
            },
            s.all_users == 0 && s.admitted_users == 0 && s.redirected_users == 0
                && s.dropped_users == 0,
            s.conserved(),
    {
        let idx: usize = if cfg.lambda_coefs.len() > 1 {
            1
        } else {
            0
        };
        let first = cfg.lambda_coefs[0];
        SimState {
            time: 0,
            next_user_id: 0,
            lambda_micro: apply_rate(cfg.lambda_micro, first.coef_micro),
            lambda_update_time: first.time,
            lambda_update_idx: idx,
            all_users: 0,
            admitted_users: 0,
            redirected_users: 0,
            dropped_users: 0,
        }
    }
}

/// Scales the base rate by a coefficient in millionths, exactly.
pub fn apply_rate(base: u64, coef_micro: u64) -> (r: u64)
    requires
        base <= 1_000_000_000_000,
        coef_micro <= 1_000_000_000,
    ensures
        r == scaled_rate(base, coef_micro),
{
    proof {
        assert((base as int) * (coef_micro as int) <= 1_000_000_000_000int * 1_000_000_000int)
            by (nonlinear_arith)
            requires
                base <= 1_000_000_000_000,
                coef_micro <= 1_000_000_000,
        ;
        assert((base as int) * (coef_micro as int) >= 0) by (nonlinear_arith);
    }
    let wide: u128 = (base as u128) * (coef_micro as u128);
    let scaled: u128 = wide / 1_000_000;
    scaled as u64
}

/// Every station has settled `dt` microseconds per `accumulate_counters`.
pub open spec fn advanced(a: Seq<BaseStation>, b: Seq<BaseStation>, dt: u64, cfg: Config) -> bool {
    &&& b.len() == a.len()
    &&& forall|j: int| 0 <= j < a.len() ==> accumulated(a[j], #[trigger] b[j], dt, cfg)
}

/// Settles `dt` microseconds of energy, usage, and sleep time on every
/// station; `now` is the clock before the span.
fn accumulate_all(cfg: &Config, dt: u64, stations: &mut Vec<BaseStation>, now: u64)
    requires
        forall|j: int|
            0 <= j < old(stations)@.len() ==> (#[trigger] old(stations)@[j]).sleep_time <= now,
        now + dt <= u64::MAX,
    ensures
        advanced(old(stations)@, final(stations)@, dt, *cfg),
{
    let n = stations.len();
    let mut i: usize = 0;
    while i < n
        invariant
            n == stations@.len(),
            stations@.len() == old(stations)@.len(),
            i <= n,
            now + dt <= u64::MAX,
            forall|j: int| i <= j < n ==> #[trigger] stations@[j] == old(stations)@[j],
            forall|j: int|
                0 <= j < old(stations)@.len() ==> (#[trigger] old(stations)@[j]).sleep_time <= now,
            forall|j: int|
                0 <= j < i ==> accumulated(
                    old(stations)@[j],
                    #[trigger] stations@[j],
                    dt,
                    *cfg,
                ),
        decreases n - i,
    {
        stations[i].accumulate_counters(dt, cfg);
        i = i + 1;
    }
}

/// The plain sum of the stations' energy tallies.
pub open spec fn stations_energy_total(s: Seq<BaseStationResult>) -> int
    decreases s.len(),
{
    if s.len() == 0 {
        0
    } else {
        stations_energy_total(s.drop_last()) + s.last().total_energy
    }
}

/// The plain sum of the stations' usage integrals.
pub open spec fn stations_usage_total(s: Seq<BaseStationResult>) -> int
    decreases s.len(),
{
    if s.len() == 0 {
        0
    } else {
        stations_usage_total(s.drop_last()) + s.last().usage_integral
    }
}

/// A non-negative total clamped to what a `u128` accumulator can hold.
pub open spec fn clamp_u128(x: int) -> int {
    if x > u128::MAX {
        u128::MAX as int
    } else {
        x
    }
}

/// The orchestrator: the run switches, the configuration, and the methods
/// that drive one replication.
pub struct SimContainer {
    pub cli: RunParams,
    pub cfg: Config,
}

impl SimContainer {
    /// A small fixed scenario: `s` stations of `r` resources each, seed 1,
    /// a one-hour run, one replication, and the sleep policy off.
    pub fn new_test(s: usize, r: usize) -> (c: SimContainer)
        requires
            1 <= s,
            r <= usize::MAX / 100,
        ensures
            c.cfg.wf(),
            c.cfg.stations_count == s,
            c.cfg.resources_count == r,
            c.cfg.process_time_min == 1000 && c.cfg.process_time_max == 30000,
            c.cfg.sleep_threshold == 20 && c.cfg.wakeup_threshold == 80,
            c.cfg.wakeup_delay == 50,
            c.cli.seed == Some(1u64),
            c.cli.duration == 3_600_000_000,
            c.cli.iterations == 1,
            !c.cli.enable_sleep && !c.cli.log && !c.cli.log_wave,
            c.cli.samples == 1,
    {
        let cli = RunParams {
            seed: Some(1),
            log: false,
            log_wave: false,
            duration: 3_600_000_000,
            iterations: 1,
            enable_sleep: false,
            show_partial_results: false,
            samples: 1,
        };
        let mut cfg = Config::default();
        cfg.stations_count = s;
        cfg.resources_count = r;
        SimContainer { cli, cfg }
    }

    /// Points one swept parameter at a new value.
    pub fn update_param(&mut self, param: &WalkOverType, value: u64)
        requires
            *param == WalkOverType::Lambda ==> value <= 1_000_000_000_000,
            *param != WalkOverType::Lambda ==> value <= 100,
        ensures
            match *param {
                WalkOverType::Lambda => final(self).cfg == (Config {
                    lambda_micro: value,
                    ..old(self).cfg
                }),
                WalkOverType::SleepLow => final(self).cfg == (Config {
                    sleep_threshold: value as u32,
                    ..old(self).cfg
                }),
                WalkOverType::SleepHigh => final(self).cfg == (Config {
                    wakeup_threshold: value as u32,
                    ..old(self).cfg
                }),
            },
            final(self).cli == old(self).cli,
    {
        match param {
            WalkOverType::Lambda => {
                self.cfg.lambda_micro = value;
            },
            WalkOverType::SleepLow => {
                self.cfg.sleep_threshold = value as u32;
            },
            WalkOverType::SleepHigh => {
                self.cfg.wakeup_threshold = value as u32;
            },
        }
    }

    /// Hands a displaced user to the `Active` station with the lowest usage,
    /// the first such station on a tie. When every `Active` station is full
    /// the user is given up on.
    pub fn redirect(&self, user: User, stations: &mut Vec<BaseStation>) -> (r: Result<usize, ()>)
        requires
            self.cfg.wf(),
            all_wf(old(stations)@, self.cfg),
        ensures
            redirect_applied(old(stations)@, final(stations)@, user, self.cfg, r),
    {
        let n = stations.len();
        let mut best: usize = 0;
        let mut best_len: usize = 0;
        let mut found = false;
        let mut i: usize = 0;
        while i < n
            invariant
                n == stations@.len(),
                i <= n,
                *stations == *old(stations),
                self.cfg.wf(),
                all_wf(stations@, self.cfg),
                !found ==> forall|j: int|
                    0 <= j < i ==> (#[trigger] stations@[j]).state != BaseStationState::Active,
                found ==> {
                    &&& 0 <= (best as int) < i
                    &&& stations@[best as int].state == BaseStationState::Active
                    &&& best_len == stations@[best as int].pool_size()
                    &&& (forall|j: int|
                        0 <= j < i && (#[trigger] stations@[j]).state == BaseStationState::Active
                            ==> best_len <= stations@[j].pool_size())
                    &&& (forall|j: int|
                        0 <= j < (best as int) && (#[trigger] stations@[j]).state
                            == BaseStationState::Active ==> best_len < stations@[j].pool_size())
                },
            decreases n - i,
        {
            if stations[i].is_active() {
                let len_i = stations[i].get_usage_raw();
                if !found || len_i < best_len {
                    found = true;
                    best = i;
                    best_len = len_i;
                }
            }
            i = i + 1;
        }
        if !found {
            return Err(());
        }
        let target_id = stations[best].id;
        let r = stations[best].redirect_here(&self.cfg, user);
        match r {
            Ok(_) => {
                proof {
                    assert forall|j: int| 0 <= j < stations@.len() implies (
                    #[trigger] stations@[j]).pool().subset_of(
                        old(stations)@[j].pool().insert(user.entry()),
                    ) by {
                        if j != best as int {
                            assert(stations@[j] == old(stations)@[j]);
                        }
                        assert(forall|x: PoolEntry| stations@[j].pool().count(x) <= old(stations)@[j].pool().insert(user.entry()).count(x));
                    }
                }
                Ok(target_id)
            },
            Err(_) => {
                proof {
                    assert(stations@ =~= old(stations)@);
                }
                Err(())
            },
        }
    }

    /// When some station is overloaded, wakes the first sleeping station
    /// and moves the earliest-departing half of the overloaded pool onto
    /// it — capped at the woken station's spare room, so no user is ever
    /// lost — each moved user's departure pushed back by the wakeup delay.
    /// Without a sleeping station nothing happens.
    pub fn try_wakeup(
        &self,
        sim_state: &SimState,
        heavy_load_idx: usize,
        stations: &mut Vec<BaseStation>,
    )
        requires
            self.cfg.wf(),
            heavy_load_idx < old(stations)@.len(),
            all_wf(old(stations)@, self.cfg),
        ensures
            wakeup_applied(
                old(stations)@,
                final(stations)@,
                heavy_load_idx as int,
                sim_state.time,
                self.cfg,
            ),
    {
        let n_st = stations.len();
        let mut w: usize = 0;
        let mut found = false;
        let mut i: usize = 0;
        while i < n_st
            invariant
                n_st == stations@.len(),
                i <= n_st,
                *stations == *old(stations),
                !found ==> forall|j: int|
                    0 <= j < i ==> (#[trigger] stations@[j]).state != BaseStationState::Sleep,
                found ==> is_first_sleep(stations@, w as int) && (w as int) < i,
            decreases n_st - i,
        {
            if !found {
                match stations[i].state {
                    BaseStationState::Sleep => {
                        w = i;
                        found = true;
                    },
                    _ => {},
                }
            }
            i = i + 1;
        }
        if !found {
            return ;
        }
        let space = self.cfg.resources_count - stations[w].get_usage_raw();
        let n_heavy = stations[heavy_load_idx].get_usage_raw();
        let half = if n_heavy >= 2 {
            n_heavy / 2
        } else {
            0
        };
        let m = if half < space {
            half
        } else {
            space
        };
        let ghost heavy0 = stations@[heavy_load_idx as int];
        let ghost pre_pop = stations@;
        let mut users = stations[heavy_load_idx].pop_many(m);
        let ghost evac = users@;
        proof {
            assert(stations@ =~= pre_pop.update(
                heavy_load_idx as int,
                stations@[heavy_load_idx as int],
            ));
            lemma_pools_total_update(
                pre_pop,
                heavy_load_idx as int,
                stations@[heavy_load_idx as int],
            );
        }
        let delay_us = self.cfg.wakeup_delay * 1000;
        let mut k: usize = 0;
        let ghost users0 = users@;
        while k < users.len()
            invariant
                k <= users@.len(),
                users@.len() == users0.len(),
                forall|j: int|
                    0 <= j < k ==> #[trigger] users@[j] == (User {
                        id: users0[j].id,
                        start: users0[j].start,
                        end: users0[j].end.saturating_add(delay_us),
                    }),
                forall|j: int| k <= j < users0.len() ==> #[trigger] users@[j] == users0[j],
            decreases users@.len() - k,
        {
            let shifted = User {
                id: users[k].id,
                start: users[k].start,
                end: users[k].end.saturating_add(delay_us),
            };
            users[k] = shifted;
            k = k + 1;
        }
        proof {
            assert(users@ =~= shift_users(evac, delay_us));
        }
        let deadline = sim_state.time.saturating_add(delay_us);
        let ghost pre_state = stations@;
        stations[w].state = BaseStationState::PowerUp(deadline);
        proof {
            assert(stations@ =~= pre_state.update(w as int, stations@[w as int]));
            lemma_pools_total_update(pre_state, w as int, stations@[w as int]);
        }
        let count = users.len();
        let ghost pre_redirect = stations@;
        let ghost users_shifted = users@;
        stations[w].redirect_here_vec(&self.cfg, &mut users, count);
        proof {
            assert(stations@ =~= pre_redirect.update(w as int, stations@[w as int]));
            lemma_pools_total_update(pre_redirect, w as int, stations@[w as int]);
            // the whole batch fits into the woken station
            let moved_g = vstd::math::min(
                vstd::math::min(
                    count as int,
                    self.cfg.resources_count - pre_redirect[w as int].pool_size(),
                ),
                users_shifted.len() as int,
            );
            if w != heavy_load_idx {
                assert(pre_redirect[w as int].pool() == old(stations)@[w as int].pool());
            }
            assert(moved_g == count as int);
            assert(users@.len() == 0);
            assert(users_shifted.skip(0int) =~= users_shifted);
            if all_timers_at_least(old(stations)@, sim_state.time) {
                assert forall|j: int| 0 <= j < stations@.len() implies (
                #[trigger] stations@[j]).timers_at_least(sim_state.time) by {
                    assert(forall|x: PoolEntry| #[trigger] heavy0.pool().contains(x) ==> x.0
                        >= sim_state.time);
                    if j == w {
                        assert(stations@[j].pool() == pre_redirect[j].pool().add(
                            entries_multiset(users_shifted),
                        ));
                        assert forall|x: PoolEntry| stations@[j].pool().contains(x) implies x.0
                            >= sim_state.time by {
                            if !pre_redirect[j].pool().contains(x) {
                                assert(entries_multiset(users_shifted).contains(x));
                                crate::user::lemma_entries_contains_index(users_shifted, x);
                                let ii = choose|ii: int|
                                    0 <= ii < users_shifted.len() && (#[trigger] users_shifted[
                                    ii]).entry() == x;
                                crate::user::lemma_index_in_entries(evac, ii);
                                assert(heavy0.pool().count(evac[ii].entry())
                                    >= entries_multiset(evac).count(evac[ii].entry()));
                                assert(heavy0.pool().contains(evac[ii].entry()));
                                assert(x.0 >= evac[ii].end);
                            } else {
                                if w == heavy_load_idx {
                                    assert(heavy0.pool().count(x)
                                        >= pre_redirect[j].pool().count(x));
                                    assert(heavy0.pool().contains(x));
                                }
                            }
                        }
                    } else if j == heavy_load_idx {
                        assert forall|x: PoolEntry| stations@[j].pool().contains(x) implies x.0
                            >= sim_state.time by {
                            assert(heavy0.pool().count(x) >= stations@[j].pool().count(x));
                            assert(heavy0.pool().contains(x));
                        }
                    } else {
                        assert(stations@[j] == old(stations)@[j]);
                    }
                }
            }
        }
    }

    /// When no station is overloaded, looks for the first `Active` station
    /// at or below the sleep threshold and, provided at least two other
    /// `Active` stations together hold more spare capacity than its
    /// occupancy, evacuates it into them proportionally to their spare
    /// capacity and starts its power-down. Otherwise nothing happens.
    #[verifier::rlimit(100)]
    #[verifier::spinoff_prover]
    pub fn try_shutdown(&self, sim_state: &SimState, stations: &mut Vec<BaseStation>)
        requires
            self.cfg.wf(),
            all_wf(old(stations)@, self.cfg),
        ensures
            shutdown_applied(old(stations)@, final(stations)@, sim_state.time, self.cfg),
    {
        let n_st = stations.len();
        let mut cand: usize = 0;
        let mut found = false;
        let mut i: usize = 0;
        while i < n_st
            invariant
                n_st == stations@.len(),
                i <= n_st,
                *stations == *old(stations),
                self.cfg.wf(),
                all_wf(stations@, self.cfg),
                !found ==> forall|j: int|
                    0 <= j < i ==> !is_shutdown_candidate(#[trigger] stations@[j], self.cfg),
                found ==> is_first_shutdown_candidate(stations@, self.cfg, cand as int) && (
                cand as int) < i,
            decreases n_st - i,
        {
            if !found && stations[i].is_active() && stations[i].usage_at_most(
                self.cfg.sleep_threshold,
                &self.cfg,
            ) {
                cand = i;
                found = true;
            }
            i = i + 1;
        }
        if !found {
            return ;
        }
        let ghost c = cand as int;
        let mut idxs: Vec<usize> = Vec::new();
        let mut spares: Vec<usize> = Vec::new();
        let mut total: u128 = 0;
        let mut j: usize = 0;
        proof {
            assert(stations@.take(0int) =~= Seq::<BaseStation>::empty());
        }
        while j < n_st
            invariant
                n_st == stations@.len(),
                j <= n_st,
                *stations == *old(stations),
                self.cfg.wf(),
                all_wf(stations@, self.cfg),
                is_first_shutdown_candidate(stations@, self.cfg, c),
                c == cand as int,
                cand < n_st,
                idxs@.len() == spares@.len(),
                total == sum_nat(spares@),
                total == others_spare(stations@.take(j as int), self.cfg, c),
                idxs@.len() == others_active_count(stations@.take(j as int), c),
                spares@.len() <= j,
                total <= (spares@.len() as int) * 0xffff_ffff_ffff_ffffu64,
                forall|m: int|
                    0 <= m < idxs@.len() ==> {
                        &&& 0 <= (#[trigger] idxs@[m] as int) < j
                        &&& idxs@[m] as int != c
                        &&& stations@[idxs@[m] as int].state == BaseStationState::Active
                        &&& spares@[m] == self.cfg.resources_count - stations@[idxs@[
                            m] as int].pool_size()
                    },
                forall|m1: int, m2: int|
                    0 <= m1 < m2 < idxs@.len() ==> #[trigger] idxs@[m1] < #[trigger] idxs@[m2],
                forall|jj: int|
                    0 <= jj < j && jj != c && (#[trigger] stations@[jj]).state
                        == BaseStationState::Active ==> exists|m: int|
                        0 <= m < idxs@.len() && #[trigger] idxs@[m] as int == jj,
            decreases n_st - j,
        {
            if j != cand && stations[j].is_active() {
                let used = stations[j].get_usage_raw();
                let spare = self.cfg.resources_count - used;
                let ghost spares_prev = spares@;
                let ghost idxs_prev = idxs@;
                proof {
                    assert((spares@.len() as int) * 0xffff_ffff_ffff_ffffu64 + 0xffff_ffff_ffff_ffffu64
                        == ((spares@.len() + 1) as int) * 0xffff_ffff_ffff_ffffu64)
                        by (nonlinear_arith);
                }
                idxs.push(j);
                spares.push(spare);
                total = total + (spare as u128);
                proof {
                    assert(spares@.drop_last() =~= spares_prev);
                    assert(idxs@[idxs@.len() - 1] == j);
                    assert forall|jj: int|
                        0 <= jj < j + 1 && jj != c && (#[trigger] stations@[jj]).state
                            == BaseStationState::Active implies exists|m: int|
                        0 <= m < idxs@.len() && #[trigger] idxs@[m] as int == jj by {
                        if jj == j {
                            assert(idxs@[idxs@.len() - 1] as int == jj);
                        } else {
                            let m = choose|m: int|
                                0 <= m < idxs_prev.len() && #[trigger] idxs_prev[m] as int == jj;
                            assert(idxs@[m] as int == jj);
                        }
                    }
                }
            }
            proof {
                assert(stations@.take(j + 1int).drop_last() =~= stations@.take(j as int));
            }
            j = j + 1;
        }
        proof {
            assert(stations@.take(n_st as int) =~= stations@);
        }
        if idxs.len() < 2 {
            return ;
        }
        let occ = stations[cand].get_usage_raw();
        if (occ as u128) > total {
            return ;
        }
        proof {
            lemma_sum_nat_nonneg(spares@);
            assert(total == others_spare(old(stations)@, self.cfg, c));
            assert(occ == old(stations)@[c].pool_size());
        }
        let ghost cand_pool0 = stations@[c].pool();
        let mut users = stations[cand].release_all();
        let ghost users0 = users@;
        let delay_us = self.cfg.wakeup_delay * 1000;
        let deadline = sim_state.time.saturating_add(delay_us);
        stations[cand].state = BaseStationState::PowerDown(deadline);
        proof {
            assert(stations@ =~= old(stations)@.update(c, stations@[c]));
            lemma_pools_total_update(old(stations)@, c, stations@[c]);
        }
        if occ == 0 {
            // nobody to evacuate: the candidate just powers down
            proof {
                assert forall|cc: int|
                    is_first_shutdown_candidate(old(stations)@, self.cfg, cc) implies cc == c by {
                    if cc < c {
                        assert(!is_shutdown_candidate(old(stations)@[cc], self.cfg));
                    } else if cc > c {
                        assert(!is_shutdown_candidate(old(stations)@[c], self.cfg));
                    }
                }
                assert(others_active_count(old(stations)@, c) == idxs@.len());
                assert(others_spare(old(stations)@, self.cfg, c) == total);
                assert(has_active(final(stations)@)) by {
                    assert(stations@[idxs@[0] as int].state == BaseStationState::Active);
                }
                if all_timers_at_least(old(stations)@, sim_state.time) {
                    assert forall|jj: int| 0 <= jj < stations@.len() implies (
                    #[trigger] stations@[jj]).timers_at_least(sim_state.time) by {
                        if jj != c {
                            assert(stations@[jj] == old(stations)@[jj]);
                        }
                    }
                }
            }
            return ;
        }
        let allocs = shutdown_allocations(&spares, occ, total);
        proof {
            assert(allocs@.take(0int) =~= Seq::<usize>::empty());
            lemma_list_spare_total(old(stations)@, idxs@, spares@, self.cfg, 0);
            assert(spares@.skip(0int) =~= spares@);
            lemma_list_spare_agree(old(stations)@, stations@, idxs@, self.cfg, 0);
        }
        let k_recv = idxs.len();
        let mut k: usize = 0;
        while k < k_recv
            invariant
                n_st == stations@.len(),
                k <= k_recv,
                k_recv == idxs@.len(),
                idxs@.len() == spares@.len(),
                allocs@.len() == idxs@.len(),
                self.cfg.wf(),
                all_wf(stations@, self.cfg),
                c == cand as int,
                cand < n_st,
                0 <= c < n_st,
                users@.len() <= users0.len(),
                users@ =~= users0.take(users@.len() as int),
                entries_multiset(users@).subset_of(cand_pool0),
                stations@[c].pool_size() == 0,
                stations@[c].state == BaseStationState::PowerDown(deadline),
                stations@[c].id == old(stations)@[c].id && stations@[c].next_user_add == old(stations)@[c].next_user_add && stations@[c].total_power == old(stations)@[c].total_power
                    && stations@[c].total_usage == old(stations)@[c].total_usage && stations@[
                c].sleep_time == old(stations)@[c].sleep_time,
                forall|m: int|
                    0 <= m < idxs@.len() ==> {
                        &&& 0 <= (#[trigger] idxs@[m] as int) < n_st
                        &&& idxs@[m] as int != c
                        &&& old(stations)@[idxs@[m] as int].state == BaseStationState::Active
                    },
                forall|m1: int, m2: int|
                    0 <= m1 < m2 < idxs@.len() ==> #[trigger] idxs@[m1] < #[trigger] idxs@[m2],
                forall|jj: int|
                    0 <= jj < n_st && jj != c && (#[trigger] old(stations)@[jj]).state
                        == BaseStationState::Active ==> exists|m: int|
                        0 <= m < idxs@.len() && #[trigger] idxs@[m] as int == jj,
                forall|m: int|
                    k <= m < idxs@.len() ==> #[trigger] stations@[idxs@[m] as int] == old(stations)@[idxs@[m] as int],
                forall|m: int|
                    0 <= m < k ==> {
                        &&& same_but_pool(
                            old(stations)@[idxs@[m] as int],
                            #[trigger] stations@[idxs@[m] as int],
                        )
                        &&& old(stations)@[idxs@[m] as int].pool_size() <= stations@[idxs@[
                            m] as int].pool_size()
                        &&& pool_from(
                            stations@[idxs@[m] as int].pool(),
                            old(stations)@[idxs@[m] as int].pool(),
                            cand_pool0,
                        )
                    },
                forall|jj: int|
                    0 <= jj < n_st && jj != c && (#[trigger] old(stations)@[jj]).state
                        != BaseStationState::Active ==> stations@[jj] == old(stations)@[jj],
                occ == old(stations)@[c].pool_size(),
                total == others_spare(old(stations)@, self.cfg, c),
                total == sum_nat(spares@),
                sum_nat(allocs@) == occ,
                forall|m: int|
                    0 <= m < idxs@.len() - 1 ==> #[trigger] allocs@[m] == spares@[m] * occ
                        / sum_nat(spares@),
                forall|m: int| 0 <= m < idxs@.len() - 1 ==> #[trigger] allocs@[m] <= spares@[m],
                forall|m: int|
                    0 <= m < idxs@.len() ==> #[trigger] spares@[m] == self.cfg.resources_count
                        - old(stations)@[idxs@[m] as int].pool_size(),
                k < k_recv ==> users@.len() == occ - sum_nat(allocs@.take(k as int)),
                pools_total(stations@) + users@.len() == pools_total(old(stations)@),
                list_spare(stations@, idxs@, self.cfg, 0) - users@.len() == total - occ,
                forall|m: int|
                    0 <= m < k && m < k_recv - 1 ==> #[trigger] stations@[idxs@[
                        m] as int].pool_size() == old(stations)@[idxs@[m] as int].pool_size()
                        + allocs@[m],
                k == k_recv ==> (users@.len() == 0 || stations@[idxs@[(k_recv - 1) as int] as int].pool_size()
                    == self.cfg.resources_count),
            decreases k_recv - k,
        {
            let target = idxs[k];
            let cnt = if k + 1 < k_recv {
                allocs[k]
            } else {
                users.len()
            };
            let ghost users_pre = users@;
            let ghost stations_pre = stations@;
            proof {
                assert(stations@[idxs@[k as int] as int] == old(stations)@[idxs@[
                    k as int] as int]);
                assert(allocs@.take(k + 1int).drop_last() =~= allocs@.take(k as int));
                lemma_sum_nat_take_le(allocs@, k + 1int);
            }
            stations[target].redirect_here_vec(&self.cfg, &mut users, cnt);
            proof {
                let tj = idxs@[k as int] as int;
                assert(stations@ =~= stations_pre.update(tj, stations@[tj]));
                lemma_pools_total_update(stations_pre, tj, stations@[tj]);
                let moved_g = vstd::math::min(
                    vstd::math::min(
                        cnt as int,
                        self.cfg.resources_count - stations_pre[tj].pool_size(),
                    ),
                    users_pre.len() as int,
                );
                assert(stations@[tj].pool_size() == stations_pre[tj].pool_size() + moved_g);
                assert(users@.len() == users_pre.len() - moved_g);
                assert forall|m: int|
                    0 <= m < idxs@.len() && m != k implies stations_pre[#[trigger] idxs@[
                    m] as int].pool_size() == stations@[idxs@[m] as int].pool_size() by {
                    if m < k as int {
                        assert(idxs@[m] < idxs@[k as int]);
                    } else {
                        assert(idxs@[k as int] < idxs@[m]);
                    }
                }
                lemma_list_spare_update(
                    stations_pre,
                    stations@,
                    idxs@,
                    self.cfg,
                    0,
                    k as int,
                    moved_g,
                );
                assert(sum_nat(allocs@.take(k + 1int)) == sum_nat(allocs@.take(k as int))
                    + allocs@[k as int]);
                if k + 1 < k_recv {
                    assert(allocs@[k as int] == spares@[k as int] * occ / sum_nat(spares@));
                    assert(allocs@[k as int] <= spares@[k as int]);
                    assert(spares@[k as int] == self.cfg.resources_count
                        - stations_pre[tj].pool_size());
                    assert(allocs@[k as int] <= occ - sum_nat(allocs@.take(k as int)));
                    assert(moved_g == cnt as int);
                } else {
                    assert(cnt as int == users_pre.len());
                    if moved_g < users_pre.len() {
                        assert(moved_g == self.cfg.resources_count
                            - stations_pre[tj].pool_size());
                        assert(stations@[tj].pool_size() == self.cfg.resources_count);
                    } else {
                        assert(users@.len() == 0);
                    }
                }
            }
            proof {
                let moved = vstd::math::min(
                    vstd::math::min(
                        cnt as int,
                        self.cfg.resources_count - old(stations)@[target as int].pool_size(),
                    ),
                    users_pre.len() as int,
                );
                assert(0 <= moved <= users_pre.len());
                assert(users@ == users_pre.take(users_pre.len() - moved));
                assert(users@.len() == users_pre.len() - moved);
                assert forall|x: int| 0 <= x < users@.len() implies users@[x] == users0.take(
                    users@.len() as int,
                )[x] by {
                    assert(users@[x] == users_pre.take(users_pre.len() - moved)[x]);
                    assert(users_pre.take(users_pre.len() - moved)[x] == users_pre[x]);
                    assert(users_pre[x] == users0.take(users_pre.len() as int)[x]);
                    assert(users0.take(users_pre.len() as int)[x] == users0[x]);
                    assert(users0.take(users@.len() as int)[x] == users0[x]);
                }
                assert(users@ =~= users0.take(users@.len() as int));
                crate::user::lemma_entries_multiset_split(
                    users_pre,
                    users_pre.len() - moved,
                );
                assert(entries_multiset(users_pre.take(users_pre.len() - moved)).subset_of(
                    entries_multiset(users_pre),
                ));
                assert(entries_multiset(users_pre.skip(users_pre.len() - moved)).subset_of(
                    entries_multiset(users_pre),
                ));
                assert(entries_multiset(users@).subset_of(cand_pool0));
                assert(pool_from(
                    stations@[target as int].pool(),
                    old(stations)@[target as int].pool(),
                    cand_pool0,
                ));
                assert forall|m: int| k + 1 <= m < idxs@.len() implies #[trigger] stations@[idxs@[
                    m] as int] == old(stations)@[idxs@[m] as int] by {
                    assert(idxs@[k as int] < idxs@[m]);
                }
            }
            k = k + 1;
        }
        // any remainder the last receiver could not hold spills forward
        // across the receivers with room left; the firing guard promises
        // the combined spare suffices, so nobody is left over
        let ghost post_primary = stations@;
        let ghost leftover0 = users@.len();
        let mut k2: usize = 0;
        while k2 < k_recv
            invariant
                n_st == stations@.len(),
                k2 <= k_recv,
                k_recv == idxs@.len(),
                idxs@.len() == spares@.len(),
                allocs@.len() == idxs@.len(),
                self.cfg.wf(),
                all_wf(stations@, self.cfg),
                c == cand as int,
                cand < n_st,
                0 <= c < n_st,
                2 <= k_recv,
                users@.len() <= users0.len(),
                users@ =~= users0.take(users@.len() as int),
                entries_multiset(users@).subset_of(cand_pool0),
                stations@[c].pool_size() == 0,
                stations@[c].state == BaseStationState::PowerDown(deadline),
                stations@[c].id == old(stations)@[c].id && stations@[c].next_user_add == old(stations)@[c].next_user_add && stations@[c].total_power == old(stations)@[c].total_power
                    && stations@[c].total_usage == old(stations)@[c].total_usage && stations@[
                c].sleep_time == old(stations)@[c].sleep_time,
                forall|m: int|
                    0 <= m < idxs@.len() ==> {
                        &&& 0 <= (#[trigger] idxs@[m] as int) < n_st
                        &&& idxs@[m] as int != c
                        &&& old(stations)@[idxs@[m] as int].state == BaseStationState::Active
                    },
                forall|m1: int, m2: int|
                    0 <= m1 < m2 < idxs@.len() ==> #[trigger] idxs@[m1] < #[trigger] idxs@[m2],
                forall|jj: int|
                    0 <= jj < n_st && jj != c && (#[trigger] old(stations)@[jj]).state
                        == BaseStationState::Active ==> exists|m: int|
                        0 <= m < idxs@.len() && #[trigger] idxs@[m] as int == jj,
                forall|m: int|
                    0 <= m < idxs@.len() ==> {
                        &&& same_but_pool(
                            old(stations)@[idxs@[m] as int],
                            #[trigger] stations@[idxs@[m] as int],
                        )
                        &&& old(stations)@[idxs@[m] as int].pool_size() <= stations@[idxs@[
                            m] as int].pool_size()
                        &&& pool_from(
                            stations@[idxs@[m] as int].pool(),
                            old(stations)@[idxs@[m] as int].pool(),
                            cand_pool0,
                        )
                    },
                forall|jj: int|
                    0 <= jj < n_st && jj != c && (#[trigger] old(stations)@[jj]).state
                        != BaseStationState::Active ==> stations@[jj] == old(stations)@[jj],
                occ == old(stations)@[c].pool_size(),
                total == others_spare(old(stations)@, self.cfg, c),
                (occ as int) <= total,
                pools_total(stations@) + users@.len() == pools_total(old(stations)@),
                list_spare(stations@, idxs@, self.cfg, 0) - users@.len() == total - occ,
                users@.len() <= list_spare(stations@, idxs@, self.cfg, k2 as int),
                forall|m: int|
                    0 <= m < idxs@.len() ==> post_primary[#[trigger] idxs@[m] as int].pool_size()
                        <= stations@[idxs@[m] as int].pool_size(),
                leftover0 == 0 ==> users@.len() == 0 && (forall|m: int|
                    0 <= m < idxs@.len() ==> (#[trigger] stations@[idxs@[m] as int]).pool()
                        == post_primary[idxs@[m] as int].pool()),
                leftover0 > 0 ==> stations@[idxs@[(k_recv - 1) as int] as int].pool_size()
                    == self.cfg.resources_count,
            decreases k_recv - k2,
        {
            let target = idxs[k2];
            let cnt = users.len();
            let ghost users_pre = users@;
            let ghost stations_pre = stations@;
            stations[target].redirect_here_vec(&self.cfg, &mut users, cnt);
            proof {
                let tj = idxs@[k2 as int] as int;
                assert(stations@ =~= stations_pre.update(tj, stations@[tj]));
                lemma_pools_total_update(stations_pre, tj, stations@[tj]);
                let moved_g = vstd::math::min(
                    vstd::math::min(
                        cnt as int,
                        self.cfg.resources_count - stations_pre[tj].pool_size(),
                    ),
                    users_pre.len() as int,
                );
                assert(stations@[tj].pool_size() == stations_pre[tj].pool_size() + moved_g);
                assert(users@.len() == users_pre.len() - moved_g);
                assert forall|m: int|
                    0 <= m < idxs@.len() && m != k2 implies stations_pre[#[trigger] idxs@[
                    m] as int].pool_size() == stations@[idxs@[m] as int].pool_size() by {
                    if m < k2 as int {
                        assert(idxs@[m] < idxs@[k2 as int]);
                    } else {
                        assert(idxs@[k2 as int] < idxs@[m]);
                    }
                }
                lemma_list_spare_update(
                    stations_pre,
                    stations@,
                    idxs@,
                    self.cfg,
                    0,
                    k2 as int,
                    moved_g,
                );
                lemma_list_spare_agree(stations_pre, stations@, idxs@, self.cfg, k2 + 1int);
                if moved_g == users_pre.len() as int {
                    lemma_list_spare_nonneg(stations@, idxs@, self.cfg, k2 + 1int);
                } else {
                    assert(moved_g == self.cfg.resources_count - stations_pre[tj].pool_size());
                }
                // the shrunken vector is still a prefix of the evacuees
                assert(0 <= moved_g <= users_pre.len());
                assert(users@ == users_pre.take(users_pre.len() - moved_g));
                assert forall|x: int| 0 <= x < users@.len() implies users@[x] == users0.take(
                    users@.len() as int,
                )[x] by {
                    assert(users@[x] == users_pre.take(users_pre.len() - moved_g)[x]);
                    assert(users_pre.take(users_pre.len() - moved_g)[x] == users_pre[x]);
                    assert(users_pre[x] == users0.take(users_pre.len() as int)[x]);
                    assert(users0.take(users_pre.len() as int)[x] == users0[x]);
                    assert(users0.take(users@.len() as int)[x] == users0[x]);
                }
                assert(users@ =~= users0.take(users@.len() as int));
                crate::user::lemma_entries_multiset_split(
                    users_pre,
                    users_pre.len() - moved_g,
                );
                assert(entries_multiset(users_pre.take(users_pre.len() - moved_g)).subset_of(
                    entries_multiset(users_pre),
                ));
                assert(entries_multiset(users_pre.skip(users_pre.len() - moved_g)).subset_of(
                    entries_multiset(users_pre),
                ));
                assert(entries_multiset(users@).subset_of(cand_pool0));
                assert forall|x: PoolEntry| stations@[tj].pool().contains(x) implies old(stations)@[tj].pool().contains(x) || cand_pool0.contains(x) by {
                    if !stations_pre[tj].pool().contains(x) {
                        assert(entries_multiset(
                            users_pre.skip(users_pre.len() - moved_g),
                        ).contains(x));
                        assert(entries_multiset(users_pre).contains(x));
                    }
                }
                assert(pool_from(
                    stations@[tj].pool(),
                    old(stations)@[tj].pool(),
                    cand_pool0,
                ));
                if leftover0 == 0 {
                    assert(users_pre.len() == 0);
                    assert(moved_g == 0);
                    assert(users_pre.skip(0int) =~= Seq::<User>::empty());
                    assert(stations@[tj].pool() =~= stations_pre[tj].pool());
                }
                if leftover0 > 0 && k2 as int == k_recv - 1 {
                    assert(stations_pre[tj].pool_size() == self.cfg.resources_count);
                    assert(moved_g == 0);
                }
            }
            k2 = k2 + 1;
        }
        proof {
            assert(users@.len() == 0);
        }
        proof {
            if all_timers_at_least(old(stations)@, sim_state.time) {
                assert forall|jj: int| 0 <= jj < stations@.len() implies (
                #[trigger] stations@[jj]).timers_at_least(sim_state.time) by {
                    assert(forall|x: PoolEntry| #[trigger] cand_pool0.contains(x) ==> x.0
                        >= sim_state.time);
                    if jj == c {
                    } else if old(stations)@[jj].state == BaseStationState::Active {
                        let m = choose|m: int|
                            0 <= m < idxs@.len() && #[trigger] idxs@[m] as int == jj;
                        assert(pool_from(
                            stations@[jj].pool(),
                            old(stations)@[jj].pool(),
                            cand_pool0,
                        ));
                    } else {
                        assert(stations@[jj] == old(stations)@[jj]);
                    }
                }
            }
            assert forall|cc: int|
                is_first_shutdown_candidate(old(stations)@, self.cfg, cc) implies cc == c by {
                if cc < c {
                    assert(!is_shutdown_candidate(old(stations)@[cc], self.cfg));
                } else if cc > c {
                    assert(!is_shutdown_candidate(old(stations)@[c], self.cfg));
                }
            }
            assert(others_active_count(old(stations)@, c) == idxs@.len());
            assert(others_spare(old(stations)@, self.cfg, c) == total);
            assert(has_active(final(stations)@)) by {
                assert(stations@[idxs@[0] as int].state == BaseStationState::Active);
            }
        }
    }

    /// One sleep-policy evaluation: a wakeup when any `Active` station's
    /// usage reaches the wakeup threshold, otherwise a shutdown attempt. At
    /// most one of the two fires per step, and the wakeup is checked first.
    pub fn power_up_down(&self, sim_state: &SimState, stations: &mut Vec<BaseStation>)
        requires
            self.cfg.wf(),
            all_wf(old(stations)@, self.cfg),
        ensures
            forall|h: int|
                #[trigger] is_first_overloaded(old(stations)@, self.cfg, h) ==> wakeup_applied(
                    old(stations)@,
                    final(stations)@,
                    h,
                    sim_state.time,
                    self.cfg,
                ),
            (forall|i: int|
                0 <= i < old(stations)@.len() ==> !((#[trigger] old(stations)@[i]).state
                    == BaseStationState::Active && old(stations)@[i].pool_size() * 100
                    >= self.cfg.wakeup_threshold * self.cfg.resources_count))
                ==> shutdown_applied(old(stations)@, final(stations)@, sim_state.time, self.cfg),
            final(stations)@.len() == old(stations)@.len(),
            all_wf(final(stations)@, self.cfg),
            forall|j: int|
                0 <= j < old(stations)@.len() ==> {
                    &&& (#[trigger] final(stations)@[j]).id == old(stations)@[j].id
                    &&& final(stations)@[j].next_user_add == old(stations)@[j].next_user_add
                    &&& final(stations)@[j].total_power == old(stations)@[j].total_power
                    &&& final(stations)@[j].total_usage == old(stations)@[j].total_usage
                    &&& final(stations)@[j].sleep_time == old(stations)@[j].sleep_time
                },
            all_timers_at_least(old(stations)@, sim_state.time) ==> all_timers_at_least(
                final(stations)@,
                sim_state.time,
            ),
            has_active(old(stations)@) ==> has_active(final(stations)@),
    {
        let n_st = stations.len();
        let mut heavy: usize = 0;
        let mut found = false;
        let mut i: usize = 0;
        while i < n_st
            invariant
                n_st == stations@.len(),
                i <= n_st,
                *stations == *old(stations),
                self.cfg.wf(),
                all_wf(stations@, self.cfg),
                !found ==> forall|j: int|
                    0 <= j < i ==> !((#[trigger] stations@[j]).state == BaseStationState::Active
                        && stations@[j].pool_size() * 100 >= self.cfg.wakeup_threshold
                        * self.cfg.resources_count),
                found ==> is_first_overloaded(stations@, self.cfg, heavy as int) && (
                heavy as int) < i,
            decreases n_st - i,
        {
            if !found && stations[i].is_active() && stations[i].usage_at_least(
                self.cfg.wakeup_threshold,
                &self.cfg,
            ) {
                heavy = i;
                found = true;
            }
            i = i + 1;
        }
        if found {
            self.try_wakeup(sim_state, heavy, stations);
            proof {
                assert forall|h: int|
                    is_first_overloaded(old(stations)@, self.cfg, h) implies h
                    == heavy as int by {
                    if h < heavy as int {
                        assert(!(old(stations)@[h].state == BaseStationState::Active && old(stations)@[h].pool_size() * 100 >= self.cfg.wakeup_threshold
                            * self.cfg.resources_count));
                    } else if h > heavy as int {
                        assert(!(old(stations)@[heavy as int].state == BaseStationState::Active
                            && old(stations)@[heavy as int].pool_size() * 100
                            >= self.cfg.wakeup_threshold * self.cfg.resources_count));
                    }
                }
                if has_active(old(stations)@) {
                    let a = choose|a: int|
                        0 <= a < old(stations)@.len() && old(stations)@[a].state
                            == BaseStationState::Active;
                    assert(stations@[a].state == BaseStationState::Active);
                }
            }
        } else {
            self.try_shutdown(sim_state, stations);
        }
    }

    /// One step of the global event loop: refresh the arrival rate, pick the
    /// globally earliest event (the first station wins a tie), advance the
    /// clock, settle energy and usage for the elapsed span, execute the
    /// event, resolve any displaced user, evaluate the sleep policy, and
    /// sample the wave stream. Yields `true` when the next event lies past
    /// the end of the run, which closes the books without executing it.
    #[verifier::rlimit(100)]
    #[verifier::spinoff_prover]
    pub fn sim_step(
        &self,
        end_time: u64,
        sim_state: &mut SimState,
        stations: &mut Vec<BaseStation>,
        rng: &mut rand::rngs::StdRng,
        log: &mut EventLog,
        wave: &mut Vec<u8>,
        sample_counter: &mut usize,
    ) -> (done: bool)
        requires
            self.cfg.wf(),
            old(sim_state).time < end_time,
            end_time + self.cfg.process_time_max * 1000 <= u64::MAX,
            old(stations)@.len() >= 1,
            all_wf(old(stations)@, self.cfg),
            ids_in_place(old(stations)@),
            has_active(old(stations)@),
            all_timers_at_least(old(stations)@, old(sim_state).time),
            forall|j: int|
                0 <= j < old(stations)@.len() ==> (#[trigger] old(stations)@[j]).sleep_time <= old(sim_state).time,
            old(sim_state).conserved(),
            old(sim_state).lambda_update_idx < self.cfg.lambda_coefs@.len(),
        ensures
            final(sim_state).time >= old(sim_state).time,
            final(sim_state).time <= end_time,
            done ==> final(sim_state).time == old(sim_state).time,
            final(stations)@.len() == old(stations)@.len(),
            all_wf(final(stations)@, self.cfg),
            ids_in_place(final(stations)@),
            has_active(final(stations)@),
            all_timers_at_least(final(stations)@, final(sim_state).time),
            !done ==> forall|j: int|
                0 <= j < final(stations)@.len() ==> (#[trigger] final(stations)@[j]).sleep_time
                    <= final(sim_state).time,
            final(sim_state).conserved(),
            final(sim_state).lambda_update_idx < self.cfg.lambda_coefs@.len(),
            final(log).enabled == old(log).enabled,
            !old(log).enabled ==> final(log).records@ == old(log).records@,
            // the arrival-rate schedule moves exactly one notch when due
            schedule_step(*old(sim_state), *final(sim_state), self.cfg),
            // the run closes exactly when the globally next event lies past
            // the horizon; the last partial span is still settled
            done == (min_next_upto(old(stations)@, old(stations)@.len() as int) > end_time),
            done ==> advanced(
                old(stations)@,
                final(stations)@,
                (end_time - old(sim_state).time) as u64,
                self.cfg,
            ) && final(sim_state).next_user_id == old(sim_state).next_user_id && final(sim_state).all_users == old(sim_state).all_users && final(sim_state).admitted_users == old(sim_state).admitted_users && final(sim_state).redirected_users == old(sim_state).redirected_users
                && final(sim_state).dropped_users == old(sim_state).dropped_users,
            // otherwise one event executes: the globally earliest (the first
            // station winning ties), after the elapsed span is settled on
            // every station; a displaced user is redirected or dropped with
            // the matching counter moved, then the sleep policy runs
            !done ==> stepped(
                *old(sim_state),
                *final(sim_state),
                old(stations)@,
                final(stations)@,
                self.cli.enable_sleep,
                self.cfg,
            ),
            // the wave stream grows by one sample on every `samples`-th
            // surviving step, and only then
            (done || !self.cli.log_wave) ==> final(wave)@ == old(wave)@ && *final(sample_counter)
                == *old(sample_counter),
            (!done && self.cli.log_wave && (*old(sample_counter)).saturating_add(1)
                >= self.cli.samples) ==> final(wave)@ == old(wave)@ + crate::wave::le_bytes_u64(
                final(sim_state).time,
            ) + crate::wave::sample_body_bytes(final(stations)@) && *final(sample_counter) == 0,
            (!done && self.cli.log_wave && (*old(sample_counter)).saturating_add(1)
                < self.cli.samples) ==> final(wave)@ == old(wave)@ && *final(sample_counter)
                == (*old(sample_counter)).saturating_add(1),
    {
        let n_st = stations.len();
        // arrival-rate schedule
        if sim_state.time >= sim_state.lambda_update_time {
            let l_next = self.cfg.lambda_coefs[sim_state.lambda_update_idx];
            proof {
                assert(self.cfg.lambda_coefs@[old(sim_state).lambda_update_idx as int].coef_micro
                    <= 1_000_000_000);
            }
            sim_state.lambda_micro = apply_rate(self.cfg.lambda_micro, l_next.coef_micro);
            sim_state.lambda_update_time = sim_state.time.saturating_add(l_next.time);
            let sched_len = self.cfg.lambda_coefs.len();
            sim_state.lambda_update_idx = (sim_state.lambda_update_idx + 1) % sched_len;
            log.push(
                LogRecord::LambdaUpdate { time: sim_state.time, lambda_micro: sim_state.lambda_micro },
            );
        }
        // pick the globally next event; the first station wins ties
        let mut event_station: usize = 0;
        let first = stations[0].get_next_event();
        let mut next_time = first.0;
        let mut next_event = first.1;
        proof {
            assert(stations@[0int].timers_at_least(next_time));
        }
        let mut i: usize = 1;
        while i < n_st
            invariant
                n_st == stations@.len(),
                1 <= i <= n_st,
                (event_station as int) < i,
                *stations == *old(stations),
                self.cfg.wf(),
                all_wf(stations@, self.cfg),
                all_timers_at_least(stations@, sim_state.time),
                next_time >= sim_state.time,
                forall|j: int|
                    0 <= j < i ==> (#[trigger] stations@[j]).timers_at_least(next_time),
                next_event == BaseStationEvent::ReleaseUser ==> stations@[
                    event_station as int].pool_size() > 0,
                next_event == BaseStationEvent::PowerUp ==> stations@[
                    event_station as int].state matches BaseStationState::PowerUp(_),
                next_event == BaseStationEvent::ShutDown ==> stations@[
                    event_station as int].state matches BaseStationState::PowerDown(_),
                next_time == min_next_upto(stations@, i as int),
                event_station as int == chosen_upto(stations@, i as int),
                next_event == stations@[chosen_upto(stations@, i as int)].next_event_spec().1,
            decreases n_st - i,
        {
            let cand = stations[i].get_next_event();
            if cand.0 < next_time {
                proof {
                    assert forall|j: int| 0 <= j < i implies (
                    #[trigger] stations@[j]).timers_at_least(cand.0) by {
                        lemma_timers_mono(stations@[j], next_time, cand.0);
                    }
                }
                next_time = cand.0;
                next_event = cand.1;
                event_station = i;
            }
            proof {
                lemma_timers_mono(stations@[i as int], cand.0, next_time);
            }
            i = i + 1;
        }
        // the books close without executing an event past the horizon
        if next_time > end_time {
            let dt = end_time - sim_state.time;
            accumulate_all(&self.cfg, dt, stations, sim_state.time);
            proof {
                let a0 = choose|a: int|
                    0 <= a < old(stations)@.len() && (#[trigger] old(stations)@[a]).state
                        == BaseStationState::Active;
                assert(stations@[a0].state == BaseStationState::Active);
                assert forall|j: int| 0 <= j < stations@.len() implies (
                #[trigger] stations@[j]).timers_at_least(sim_state.time) by {
                    assert(old(stations)@[j].timers_at_least(sim_state.time));
                    assert forall|x: PoolEntry| stations@[j].pool().contains(x) implies x.0
                        >= sim_state.time by {
                        assert(old(stations)@[j].pool().contains(x));
                    }
                }
            }
            return true;
        }
        // advance the clock; the chosen timestamp is never in the past
        let now = sim_state.time;
        let dt = next_time - now;
        sim_state.time = next_time;
        accumulate_all(&self.cfg, dt, stations, now);
        match next_event {
            BaseStationEvent::AddUser => {
                sim_state.all_users = sim_state.all_users.saturating_add(1);
            },
            _ => {},
        }
        let ghost pre_exec_state = *sim_state;
        let ghost pre_exec_stations = stations@;
        let res = stations[event_station].execute_event(
            &next_event,
            &self.cfg,
            sim_state,
            rng,
            log,
        );
        let ghost after_exec_g = stations@;
        let ghost sm2_g = *sim_state;
        let ghost mut rr_g: Result<usize, ()> = Result::Err(());
        proof {
            assert(after_exec_g =~= pre_exec_stations.update(
                event_station as int,
                after_exec_g[event_station as int],
            ));
        }
        proof {
            assert forall|j: int|
                0 <= j < pre_exec_stations.len() implies (
            #[trigger] pre_exec_stations[j]).timers_at_least(next_time) by {
                assert(old(stations)@[j].timers_at_least(next_time));
                assert forall|x: PoolEntry| pre_exec_stations[j].pool().contains(x) implies x.0
                    >= next_time by {
                    assert(old(stations)@[j].pool().contains(x));
                }
            }
            assert(has_active(stations@)) by {
                let a0 = choose|a: int|
                    0 <= a < old(stations)@.len() && (#[trigger] old(stations)@[a]).state
                        == BaseStationState::Active;
                assert(pre_exec_stations[a0].state == BaseStationState::Active);
                if a0 == event_station as int {
                    match next_event {
                        BaseStationEvent::ShutDown => {
                            assert(old(stations)@[a0].state matches BaseStationState::PowerDown(
                                _,
                            ));
                            assert(false);
                        },
                        BaseStationEvent::PowerUp => {
                            assert(stations@[a0].state == BaseStationState::Active);
                        },
                        _ => {
                            assert(stations@[a0].state == pre_exec_stations[a0].state);
                        },
                    }
                } else {
                    assert(stations@[a0] == pre_exec_stations[a0]);
                }
            }
            assert forall|j: int| 0 <= j < stations@.len() implies (
            #[trigger] stations@[j]).timers_at_least(sim_state.time) by {
                if j == event_station as int {
                } else {
                    assert(stations@[j] == pre_exec_stations[j]);
                }
            }
        }
        match res {
            Some(user) => {
                let user_id = user.id;
                let from = stations[event_station].id;
                let ghost pre_rdr = stations@;
                let rr = self.redirect(user, stations);
                proof {
                    rr_g = rr;
                }
                proof {
                    assert forall|j: int| 0 <= j < stations@.len() implies (
                    #[trigger] stations@[j]).timers_at_least(sim_state.time) by {
                        assert(pre_rdr[j].timers_at_least(sim_state.time));
                        assert(same_but_pool(pre_rdr[j], stations@[j]));
                        match rr {
                            Ok(_) => {
                                assert(stations@[j].pool().subset_of(
                                    pre_rdr[j].pool().insert(user.entry()),
                                ));
                                assert forall|x: PoolEntry|
                                    stations@[j].pool().contains(x) implies x.0
                                    >= sim_state.time by {
                                    if x != user.entry() {
                                        assert(pre_rdr[j].pool().insert(user.entry()).count(x)
                                            == pre_rdr[j].pool().count(x));
                                        assert(pre_rdr[j].pool().contains(x));
                                    }
                                }
                            },
                            Err(_) => {
                                assert(stations@[j].pool() == pre_rdr[j].pool());
                            },
                        }
                    }
                }
                match rr {
                    Ok(to) => {
                        sim_state.redirected_users = sim_state.redirected_users.saturating_add(1);
                        log.push(
                            LogRecord::Redirect { time: sim_state.time, user: user_id, from, to },
                        );
                    },
                    Err(_) => {
                        sim_state.dropped_users = sim_state.dropped_users.saturating_add(1);
                        log.push(LogRecord::UserDrop { time: sim_state.time, user: user_id });
                    },
                }
            },
            None => {},
        }
        let ghost rdr_g = stations@;
        if self.cli.enable_sleep {
            self.power_up_down(&*sim_state, stations);
        }
        if self.cli.log_wave {
            *sample_counter = (*sample_counter).saturating_add(1);
            if *sample_counter >= self.cli.samples {
                *sample_counter = 0;
                append_wave_sample(wave, sim_state.time, stations);
            }
        }
        proof {
            // conservation: each arrival is admitted, redirected, or dropped
            let s0 = old(sim_state);
            match next_event {
                BaseStationEvent::AddUser => {
                    if s0.all_users < u64::MAX {
                        assert(s0.all_users == s0.admitted_users + s0.redirected_users
                            + s0.dropped_users);
                        assert(s0.admitted_users <= s0.all_users && s0.redirected_users
                            <= s0.all_users && s0.dropped_users <= s0.all_users);
                        assert(sim_state.all_users == s0.all_users + 1);
                    } else {
                        assert(sim_state.all_users == u64::MAX);
                    }
                },
                _ => {},
            }
            // the step's full effect, phase by phase, on the witnesses the
            // body produced
            let t_g = min_next_upto(old(stations)@, old(stations)@.len() as int);
            let es_g = chosen_upto(old(stations)@, old(stations)@.len() as int);
            let ev_g = old(stations)@[es_g].next_event_spec().1;
            let sm1_g = SimState {
                time: t_g,
                all_users: if ev_g == BaseStationEvent::AddUser {
                    old(sim_state).all_users.saturating_add(1)
                } else {
                    old(sim_state).all_users
                },
                lambda_micro: sim_state.lambda_micro,
                lambda_update_time: sim_state.lambda_update_time,
                lambda_update_idx: sim_state.lambda_update_idx,
                ..*old(sim_state)
            };
            assert(pre_exec_state == sm1_g);
            assert(advanced(
                old(stations)@,
                pre_exec_stations,
                (t_g - old(sim_state).time) as u64,
                self.cfg,
            ));
            assert(event_applied(
                pre_exec_stations[es_g],
                after_exec_g[es_g],
                sm1_g,
                sm2_g,
                ev_g,
                self.cfg,
                res,
            ));
            assert(displaced_settled(after_exec_g, rdr_g, res, rr_g, self.cfg, sm2_g, *sim_state));
            if self.cli.enable_sleep {
                assert(policy_applied(rdr_g, stations@, t_g, self.cfg));
            }
            assert(stepped(
                *old(sim_state),
                *sim_state,
                old(stations)@,
                stations@,
                self.cli.enable_sleep,
                self.cfg,
            )) by {
                reveal(stepped);
                assert(step_witness(pre_exec_stations, after_exec_g, sm2_g, res, rdr_g, rr_g));
                assert(advanced(
                    old(stations)@,
                    pre_exec_stations,
                    (min_next_upto(old(stations)@, old(stations)@.len() as int) - old(sim_state).time) as u64,
                    self.cfg,
                ));
                let es2 = chosen_upto(old(stations)@, old(stations)@.len() as int);
                let ev2 = old(stations)@[es2].next_event_spec().1;
                let sm1b = SimState {
                    time: min_next_upto(old(stations)@, old(stations)@.len() as int),
                    all_users: if ev2 == BaseStationEvent::AddUser {
                        old(sim_state).all_users.saturating_add(1)
                    } else {
                        old(sim_state).all_users
                    },
                    lambda_micro: sim_state.lambda_micro,
                    lambda_update_time: sim_state.lambda_update_time,
                    lambda_update_idx: sim_state.lambda_update_idx,
                    ..*old(sim_state)
                };
                assert(event_applied(
                    pre_exec_stations[es2],
                    after_exec_g[es2],
                    sm1b,
                    sm2_g,
                    ev2,
                    self.cfg,
                    res,
                ));
                assert(after_exec_g == pre_exec_stations.update(es2, after_exec_g[es2]));
                assert(displaced_settled(
                    after_exec_g,
                    rdr_g,
                    res,
                    rr_g,
                    self.cfg,
                    sm2_g,
                    *sim_state,
                ));
                if self.cli.enable_sleep {
                    assert(policy_applied(
                        rdr_g,
                        stations@,
                        min_next_upto(old(stations)@, old(stations)@.len() as int),
                        self.cfg,
                    ));
                } else {
                    assert(stations@ == rdr_g);
                }
            }
        }
        false
    }

    /// Runs one full replication: builds the stations, drives the event
    /// loop until the horizon, and folds the per-station statistics into
    /// one aggregate. The logical clock never runs past the horizon, and
    /// the arrival bookkeeping balances when it ends.
    pub fn simulate(&self, iter: u32) -> (out: SimOutput)
        requires
            self.cfg.wf(),
            self.cli.duration + self.cfg.process_time_max * 1000 <= u64::MAX,
        ensures
            out.state.conserved(),
            out.state.time <= self.cli.duration,
            out.results.total_users == out.state.all_users,
            out.results.dropped_users == out.state.dropped_users,
            out.results.stations@.len() == self.cfg.stations_count,
            // the aggregates are the (saturating) sums over the stations
            out.results.total_energy == clamp_u128(stations_energy_total(out.results.stations@)),
            out.results.usage_integral == clamp_u128(
                stations_usage_total(out.results.stations@),
            ),
            out.log.enabled == self.cli.log,
            !self.cli.log ==> out.log.records@ == Seq::<LogRecord>::empty(),
            // the wave stream opens with the station-count header
            self.cli.log_wave ==> out.wave@.len() >= 4 && out.wave@.take(4int)
                == crate::wave::le_bytes_u32(self.cfg.stations_count as u32),
            !self.cli.log_wave ==> out.wave@ == Seq::<u8>::empty(),
    {
        let mut sim_state = SimState::new(&self.cfg);
        let mut rng = match self.cli.seed {
            Some(seed) => rng_from_seed(seed.wrapping_add(iter as u64)),
            None => rng_from_entropy(),
        };
        let mut log = EventLog::new(self.cli.log);
        let mut stations: Vec<BaseStation> = Vec::new();
        let mut i: usize = 0;
        while i < self.cfg.stations_count
            invariant
                i <= self.cfg.stations_count,
                stations@.len() == i,
                self.cfg.wf(),
                all_wf(stations@, self.cfg),
                ids_in_place(stations@),
                forall|j: int|
                    0 <= j < i ==> {
                        &&& (#[trigger] stations@[j]).state == BaseStationState::Active
                        &&& stations@[j].pool() == vstd::multiset::Multiset::<PoolEntry>::empty()
                        &&& stations@[j].sleep_time == 0
                    },
            decreases self.cfg.stations_count - i,
        {
            let st = BaseStation::new(i, &self.cfg, sim_state.lambda_micro, &mut rng);
            stations.push(st);
            i = i + 1;
        }
        proof {
            assert(stations@[0].state == BaseStationState::Active);
        }
        let end_time = self.cli.duration;
        let mut wave: Vec<u8> = Vec::new();
        if self.cli.log_wave {
            append_wave_header(&mut wave, self.cfg.stations_count);
            proof {
                assert(wave@.take(4int) =~= crate::wave::le_bytes_u32(
                    self.cfg.stations_count as u32,
                ));
            }
        }
        let mut sample_counter: usize = 0;
        let mut done = false;
        // the step budget makes termination provable; it cannot be spent in
        // any run that finishes in real time
        let mut steps: u64 = 0;
        proof {
            assert forall|j: int| 0 <= j < stations@.len() implies (
            #[trigger] stations@[j]).timers_at_least(sim_state.time) by {
                assert forall|x: PoolEntry| stations@[j].pool().contains(x) implies x.0
                    >= sim_state.time by {
                    assert(stations@[j].pool().count(x) == 0);
                }
            }
        }
        while !done && sim_state.time < end_time && steps < u64::MAX
            invariant
                self.cfg.wf(),
                end_time == self.cli.duration,
                end_time + self.cfg.process_time_max * 1000 <= u64::MAX,
                stations@.len() == self.cfg.stations_count,
                stations@.len() >= 1,
                all_wf(stations@, self.cfg),
                ids_in_place(stations@),
                has_active(stations@),
                all_timers_at_least(stations@, sim_state.time),
                sim_state.time <= end_time,
                done || (forall|j: int|
                    0 <= j < stations@.len() ==> (#[trigger] stations@[j]).sleep_time
                        <= sim_state.time),
                sim_state.conserved(),
                sim_state.lambda_update_idx < self.cfg.lambda_coefs@.len(),
                log.enabled == self.cli.log,
                !self.cli.log ==> log.records@ == Seq::<LogRecord>::empty(),
                self.cli.log_wave ==> wave@.len() >= 4 && wave@.take(4int)
                    == crate::wave::le_bytes_u32(self.cfg.stations_count as u32),
                !self.cli.log_wave ==> wave@ == Seq::<u8>::empty(),
            decreases u64::MAX - steps,
        {
            let ghost wave_pre = wave@;
            done = self.sim_step(
                end_time,
                &mut sim_state,
                &mut stations,
                &mut rng,
                &mut log,
                &mut wave,
                &mut sample_counter,
            );
            proof {
                if self.cli.log_wave {
                    assert(wave@.take(4int) =~= wave_pre.take(4int));
                }
            }
            steps = steps + 1;
        }
        let mut station_results: Vec<BaseStationResult> = Vec::new();
        let mut usage_sum: u128 = 0;
        let mut energy_sum: u128 = 0;
        let mut m: usize = 0;
        while m < stations.len()
            invariant
                m <= stations@.len(),
                station_results@.len() == m,
                stations@.len() == self.cfg.stations_count,
                stations_energy_total(station_results@) >= 0,
                stations_usage_total(station_results@) >= 0,
                energy_sum == clamp_u128(stations_energy_total(station_results@)),
                usage_sum == clamp_u128(stations_usage_total(station_results@)),
            decreases stations@.len() - m,
        {
            let r = stations[m].get_results();
            let ghost results_pre = station_results@;
            usage_sum = usage_sum.saturating_add(r.usage_integral);
            energy_sum = energy_sum.saturating_add(r.total_energy);
            station_results.push(r);
            proof {
                assert(station_results@.drop_last() =~= results_pre);
            }
            m = m + 1;
        }
        let results = SimResults {
            usage_integral: usage_sum,
            total_energy: energy_sum,
            total_users: sim_state.all_users,
            dropped_users: sim_state.dropped_users,
            stations: station_results,
        };
        SimOutput { results, state: sim_state, log, wave }
    }
}

/// What one replication leaves behind: the aggregate statistics, the final
/// global state, the structured log, and the binary wave stream.
pub struct SimOutput {
    pub results: SimResults,
    pub state: SimState,
    pub log: EventLog,
    pub wave: Vec<u8>,
}

} // verus!
