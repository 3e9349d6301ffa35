use cellsim::basestation::{BaseStation, BaseStationEvent, BaseStationState};
use cellsim::config::Config;
use cellsim::eventlog::EventLog;
use cellsim::sim_container::SimState;
use cellsim::user::User;
use rand::SeedableRng;

fn test_config(resources: usize) -> Config {
    let mut cfg = Config::default();
    cfg.resources_count = resources;
    cfg
}

#[test]
fn add_release_user() {
    // Admissions up to capacity hand back nothing; the next one is displaced.
    let event = BaseStationEvent::AddUser;
    let cfg = test_config(10);
    let mut log = EventLog::new(false);
    let mut rng = rand::rngs::StdRng::seed_from_u64(1);
    let mut station = BaseStation::new(1, &cfg, 1_000_000, &mut rng);
    let mut sim_state = SimState::new(&cfg);
    sim_state.lambda_micro = 1_000_000;
    sim_state.time = 0;
    for _ in 0..10 {
        let res = station.execute_event(&event, &cfg, &mut sim_state, &mut rng, &mut log);
        assert!(res.is_none() == true);
    }
    let res = station.execute_event(&event, &cfg, &mut sim_state, &mut rng, &mut log);
    assert!(res.is_some() == true);
    // Releasing all queued users hands back nothing and does not fail.
    let event = BaseStationEvent::ReleaseUser;
    for _ in 0..10 {
        let res = station.execute_event(&event, &cfg, &mut sim_state, &mut rng, &mut log);
        assert!(res.is_none() == true);
    }
}

#[test]
fn add_user_all_states() {
    // An arrival at a station that is not Active is always displaced.
    let cfg = test_config(10);
    let mut log = EventLog::new(false);
    let mut rng = rand::rngs::StdRng::seed_from_u64(1);
    let mut sim_state = SimState::new(&cfg);
    let mut station = BaseStation::new(1, &cfg, 1_000_000, &mut rng);
    station.state = BaseStationState::Sleep;
    let res = station.execute_event(
        &BaseStationEvent::AddUser,
        &cfg,
        &mut sim_state,
        &mut rng,
        &mut log,
    );
    assert!(res.is_some() == true);
    assert!(station.get_usage_raw() == 0);
    station.state = BaseStationState::PowerUp(10);
    let res = station.execute_event(
        &BaseStationEvent::AddUser,
        &cfg,
        &mut sim_state,
        &mut rng,
        &mut log,
    );
    assert!(res.is_some() == true);
    assert!(station.get_usage_raw() == 0);
    station.state = BaseStationState::PowerDown(10);
    let res = station.execute_event(
        &BaseStationEvent::AddUser,
        &cfg,
        &mut sim_state,
        &mut rng,
        &mut log,
    );
    assert!(res.is_some() == true);
    assert!(station.get_usage_raw() == 0);
}

#[test]
fn get_event() {
    let cfg = test_config(10);
    let mut log = EventLog::new(false);
    let mut rng = rand::rngs::StdRng::seed_from_u64(1);
    let mut sim_state = SimState::new(&cfg);
    let mut station = BaseStation::new(1, &cfg, 1_000_000, &mut rng);

    // Active: the earliest of first departure and next arrival wins.
    station.state = BaseStationState::Active;
    station.force_add_user(User { id: 1, start: 0, end: 10 });
    station.force_add_user(User { id: 2, start: 0, end: 20 });
    assert!(station.get_usage_raw() == 2);
    station.next_user_add = 15;
    let res = station.get_next_event();
    assert_eq!(res.0, 10);
    assert_eq!(res.1, BaseStationEvent::ReleaseUser);
    station.execute_event(
        &BaseStationEvent::ReleaseUser,
        &cfg,
        &mut sim_state,
        &mut rng,
        &mut log,
    );
    assert_eq!(station.get_usage_raw(), 1);
    let res = station.get_next_event();
    assert_eq!(res.0, 15);
    assert_eq!(res.1, BaseStationEvent::AddUser);

    // Sleep: queued users are still released.
    let _ = station.release_all();
    station.force_add_user(User { id: 1, start: 0, end: 10 });
    station.state = BaseStationState::Sleep;
    let res = station.get_next_event();
    assert_eq!(res.0, 10);
    assert_eq!(res.1, BaseStationEvent::ReleaseUser);
    station.execute_event(
        &BaseStationEvent::ReleaseUser,
        &cfg,
        &mut sim_state,
        &mut rng,
        &mut log,
    );
    let res = station.get_next_event();
    assert_eq!(res.0, 15);
    assert_eq!(res.1, BaseStationEvent::AddUser);

    // Transitional states: the deadline competes with the user events.
    let _ = station.release_all();
    station.state = BaseStationState::PowerUp(25);
    let res = station.get_next_event();
    assert_eq!(res.0, 15);
    assert_eq!(res.1, BaseStationEvent::AddUser);
    station.next_user_add = 30;
    let res = station.get_next_event();
    assert_eq!(res.0, 25);
    assert_eq!(res.1, BaseStationEvent::PowerUp);

    station.state = BaseStationState::PowerDown(25);
    station.next_user_add = 15;
    let res = station.get_next_event();
    assert_eq!(res.0, 15);
    assert_eq!(res.1, BaseStationEvent::AddUser);
    station.next_user_add = 30;
    let res = station.get_next_event();
    assert_eq!(res.0, 25);
    assert_eq!(res.1, BaseStationEvent::ShutDown);
}

#[test]
fn release_order_is_by_departure() {
    // The pool releases in departure order, ties to the lower user id.
    let cfg = test_config(10);
    let mut rng = rand::rngs::StdRng::seed_from_u64(7);
    let mut station = BaseStation::new(0, &cfg, 1_000_000, &mut rng);
    station.force_add_user(User { id: 3, start: 0, end: 50 });
    station.force_add_user(User { id: 1, start: 0, end: 20 });
    station.force_add_user(User { id: 2, start: 0, end: 20 });
    let out = station.release_all();
    assert_eq!(out.len(), 3);
    assert_eq!(out[0].id, 1);
    assert_eq!(out[1].id, 2);
    assert_eq!(out[2].id, 3);
    assert_eq!(out[2].end, 50);
}

#[test]
fn accumulate_counters_rates() {
    let cfg = test_config(10);
    let mut rng = rand::rngs::StdRng::seed_from_u64(7);
    let mut station = BaseStation::new(0, &cfg, 1_000_000, &mut rng);
    station.force_add_user(User { id: 1, start: 0, end: 50 });
    station.force_add_user(User { id: 2, start: 0, end: 60 });
    // Active: full power rate, no sleep time.
    station.accumulate_counters(1000, &cfg);
    let r = station.get_results();
    assert_eq!(r.total_energy, 1000u128 * 200_000);
    assert_eq!(r.usage_integral, 1000u128 * 2);
    assert_eq!(r.sleep_time, 0);
    // Sleep: low power rate, sleep time tallied.
    station.state = BaseStationState::Sleep;
    station.accumulate_counters(500, &cfg);
    let r = station.get_results();
    assert_eq!(r.total_energy, 1000u128 * 200_000 + 500u128 * 1_000);
    assert_eq!(r.usage_integral, 1500u128 * 2);
    assert_eq!(r.sleep_time, 500);
    // Transitions: no power drawn.
    station.state = BaseStationState::PowerUp(99);
    station.accumulate_counters(500, &cfg);
    let r = station.get_results();
    assert_eq!(r.total_energy, 1000u128 * 200_000 + 500u128 * 1_000);
    assert_eq!(r.sleep_time, 500);
}

#[test]
fn user_service_time_within_bounds() {
    let cfg = Config::default();
    let mut rng = rand::rngs::StdRng::seed_from_u64(42);
    for i in 0..1000 {
        let user = User::new(i, 0, &mut rng, &cfg);
        assert!(
            user.end >= cfg.process_time_min * 1000 && user.end <= cfg.process_time_max * 1000,
            "min = {} user.end = {} max = {}",
            cfg.process_time_min,
            user.end,
            cfg.process_time_max,
        );
    }
}

#[test]
fn usage_thresholds_are_exact() {
    // usage percentages compare exactly: 8 of 10 is at the 80 % mark
    let cfg = test_config(10);
    let mut rng = rand::rngs::StdRng::seed_from_u64(3);
    let mut station = BaseStation::new(0, &cfg, 1_000_000, &mut rng);
    for i in 0..8 {
        station.force_add_user(User { id: i, start: 0, end: 100 + i });
    }
    assert!(station.usage_at_least(80, &cfg));
    assert!(!station.usage_at_least(81, &cfg));
    assert!(station.usage_at_most(80, &cfg));
    assert!(!station.usage_at_most(79, &cfg));
}
