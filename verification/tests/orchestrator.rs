use cellsim::basestation::{BaseStation, BaseStationEvent, BaseStationState};
use cellsim::eventlog::EventLog;
use cellsim::sim_container::{SimContainer, SimState};
use cellsim::user::User;
use rand::SeedableRng;

#[test]
fn redirect() {
    // A displaced user goes to the least-loaded Active station, the first
    // one on a tie; with every station full the redirection fails.
    let container = SimContainer::new_test(3, 2);
    let mut sim_state = SimState::new(&container.cfg);
    let mut stations: Vec<BaseStation> = Vec::new();
    let mut rng = rand::rngs::StdRng::seed_from_u64(1);
    let mut log = EventLog::new(false);
    for i in 0..container.cfg.stations_count {
        stations.push(BaseStation::new(i, &container.cfg, 1_000_000, &mut rng));
    }
    stations[0].execute_event(
        &BaseStationEvent::AddUser,
        &container.cfg,
        &mut sim_state,
        &mut rng,
        &mut log,
    );
    stations[0].execute_event(
        &BaseStationEvent::AddUser,
        &container.cfg,
        &mut sim_state,
        &mut rng,
        &mut log,
    );
    stations[2].execute_event(
        &BaseStationEvent::AddUser,
        &container.cfg,
        &mut sim_state,
        &mut rng,
        &mut log,
    );
    // two candidates with different load
    let user = User { id: 1, start: 0, end: 10 };
    let res = container.redirect(user, &mut stations);
    assert_eq!(res.is_ok(), true);
    assert_eq!(res.unwrap(), 1);
    // two candidates with the same load: the first wins
    let user = User { id: 2, start: 0, end: 10 };
    let res = container.redirect(user, &mut stations);
    assert_eq!(res.is_ok(), true);
    assert_eq!(res.unwrap(), 1);
    // a single candidate with room left
    let user = User { id: 3, start: 0, end: 10 };
    let res = container.redirect(user, &mut stations);
    assert_eq!(res.is_ok(), true);
    assert_eq!(res.unwrap(), 2);
    stations[2].execute_event(
        &BaseStationEvent::AddUser,
        &container.cfg,
        &mut sim_state,
        &mut rng,
        &mut log,
    );
    // no candidates at all
    let user = User { id: 3, start: 0, end: 10 };
    let res = container.redirect(user, &mut stations);
    assert_eq!(res.is_err(), true);
}

#[test]
fn try_wakeup() {
    // Half of the overloaded pool moves to the woken station.
    let sim = SimContainer::new_test(3, 10);
    let sim_state = SimState::new(&sim.cfg);
    let mut rng = rand::rngs::StdRng::seed_from_u64(1);
    let mut stations = vec![
        BaseStation::new(1, &sim.cfg, 1_000_000, &mut rng),
        BaseStation::new(1, &sim.cfg, 1_000_000, &mut rng),
        BaseStation::new(1, &sim.cfg, 1_000_000, &mut rng),
    ];
    stations[1].state = BaseStationState::Sleep;
    for i in 0..10 {
        stations[0].force_add_user(User { id: i, start: 0, end: i });
    }

    sim.try_wakeup(&sim_state, 0, &mut stations);
    assert!(matches!(stations[1].state, BaseStationState::PowerUp(_)));
    // half of ten users migrated: both stations now at 5 of 10
    assert_eq!(stations[0].get_usage_raw(), 5);
    assert_eq!(stations[1].get_usage_raw(), 5);
    assert_eq!(stations[2].get_usage_raw(), 0);

    // a second evaluation finds no sleeping station and changes nothing
    sim.try_wakeup(&sim_state, 0, &mut stations);
    assert!(matches!(stations[0].state, BaseStationState::Active));
    assert!(matches!(stations[1].state, BaseStationState::PowerUp(_)));
    assert!(matches!(stations[2].state, BaseStationState::Active));
    assert_eq!(stations[0].get_usage_raw(), 5);
    assert_eq!(stations[1].get_usage_raw(), 5);
    assert_eq!(stations[2].get_usage_raw(), 0);
}

#[test]
fn try_shutdown() {
    let sim = SimContainer::new_test(3, 20);
    let mut sim_state = SimState::new(&sim.cfg);
    let mut log = EventLog::new(false);
    let mut rng = rand::rngs::StdRng::seed_from_u64(1);
    let mut stations = vec![
        BaseStation::new(0, &sim.cfg, 1_000_000, &mut rng),
        BaseStation::new(1, &sim.cfg, 1_000_000, &mut rng),
        BaseStation::new(2, &sim.cfg, 1_000_000, &mut rng),
    ];
    for _ in 0..10 {
        stations[1].execute_event(
            &BaseStationEvent::AddUser,
            &sim.cfg,
            &mut sim_state,
            &mut rng,
            &mut log,
        );
    }
    for _ in 0..6 {
        stations[2].execute_event(
            &BaseStationEvent::AddUser,
            &sim.cfg,
            &mut sim_state,
            &mut rng,
            &mut log,
        );
    }
    for _ in 0..4 {
        stations[0].execute_event(
            &BaseStationEvent::AddUser,
            &sim.cfg,
            &mut sim_state,
            &mut rng,
            &mut log,
        );
    }

    // Four evacuees from station 0 split proportionally to spare capacity:
    // station 1 (spare 10 of 24) takes 10*4/24 = 1; station 2 the rest.
    sim.try_shutdown(&sim_state, &mut stations);
    assert!(matches!(stations[0].state, BaseStationState::PowerDown(_)));
    assert_eq!(stations[0].get_usage_raw(), 0);
    assert!(matches!(stations[1].state, BaseStationState::Active));
    assert_eq!(stations[1].get_usage_raw(), 11);
    assert!(matches!(stations[2].state, BaseStationState::Active));
    assert_eq!(stations[2].get_usage_raw(), 9);

    // No shutdown with fewer than two other Active stations.
    stations[1].state = BaseStationState::Sleep;
    let _ = stations[2].release_all();
    sim.try_shutdown(&sim_state, &mut stations);
    assert!(matches!(stations[0].state, BaseStationState::PowerDown(_)));
    assert_eq!(stations[0].get_usage_raw(), 0);
    assert_eq!(stations[1].get_usage_raw(), 11);
    assert!(matches!(stations[2].state, BaseStationState::Active));
    assert_eq!(stations[2].get_usage_raw(), 0);

    // No shutdown when the others cannot take the evacuees.
    stations[0].state = BaseStationState::Active;
    stations[0].execute_event(
        &BaseStationEvent::AddUser,
        &sim.cfg,
        &mut sim_state,
        &mut rng,
        &mut log,
    );
    for _ in 0..20 {
        stations[2].execute_event(
            &BaseStationEvent::AddUser,
            &sim.cfg,
            &mut sim_state,
            &mut rng,
            &mut log,
        );
    }
    sim.try_shutdown(&sim_state, &mut stations);
    assert!(matches!(stations[0].state, BaseStationState::Active));
    assert_eq!(stations[0].get_usage_raw(), 1);
    assert!(matches!(stations[1].state, BaseStationState::Sleep));
    assert_eq!(stations[1].get_usage_raw(), 11);
    assert!(matches!(stations[2].state, BaseStationState::Active));
    assert_eq!(stations[2].get_usage_raw(), 20);
}

#[test]
fn single_station_overflow_drops() {
    // One station of capacity ten, eleven arrivals with no service-time
    // variance: ten admitted in place, the eleventh displaced and, with
    // nowhere else to go, dropped.
    let mut container = SimContainer::new_test(1, 10);
    container.cfg.process_time_min = 30000;
    container.cfg.process_time_max = 30000;
    let mut sim_state = SimState::new(&container.cfg);
    sim_state.lambda_micro = 1_000_000;
    let mut rng = rand::rngs::StdRng::seed_from_u64(9);
    let mut log = EventLog::new(false);
    let mut stations = vec![BaseStation::new(0, &container.cfg, 1_000_000, &mut rng)];
    let mut displaced: Vec<User> = Vec::new();
    for _ in 0..11 {
        sim_state.all_users += 1;
        if let Some(user) = stations[0].execute_event(
            &BaseStationEvent::AddUser,
            &container.cfg,
            &mut sim_state,
            &mut rng,
            &mut log,
        ) {
            displaced.push(user);
        }
    }
    assert_eq!(stations[0].get_usage_raw(), 10);
    assert_eq!(displaced.len(), 1);
    let res = container.redirect(displaced.pop().unwrap(), &mut stations);
    assert!(res.is_err());
    sim_state.dropped_users += 1;
    // the arrival bookkeeping balances
    assert_eq!(
        sim_state.all_users,
        sim_state.admitted_users + sim_state.redirected_users + sim_state.dropped_users
    );
}

#[test]
fn same_seed_same_run() {
    // Two replications from one seed and configuration agree on every log
    // record, the wave stream, and the aggregate results.
    let mut container = SimContainer::new_test(3, 10);
    container.cli.log = true;
    container.cli.log_wave = true;
    container.cli.enable_sleep = true;
    container.cli.duration = 60_000_000;
    let a = container.simulate(0);
    let b = container.simulate(0);
    assert_eq!(a.log.records, b.log.records);
    assert_eq!(a.wave, b.wave);
    assert_eq!(a.results.total_users, b.results.total_users);
    assert_eq!(a.results.dropped_users, b.results.dropped_users);
    assert_eq!(a.results.total_energy, b.results.total_energy);
    assert_eq!(a.results.usage_integral, b.results.usage_integral);
    assert_eq!(a.results.stations, b.results.stations);
    assert_eq!(a.state.time, b.state.time);
    assert_eq!(a.state.all_users, b.state.all_users);
}

#[test]
fn full_run_conserves_users() {
    // After a full replication every arrival is accounted for exactly once.
    let mut container = SimContainer::new_test(2, 5);
    container.cli.enable_sleep = true;
    container.cli.duration = 120_000_000;
    let out = container.simulate(3);
    assert!(out.state.all_users > 0);
    assert_eq!(
        out.state.all_users,
        out.state.admitted_users + out.state.redirected_users + out.state.dropped_users
    );
    assert_eq!(out.results.total_users, out.state.all_users);
    assert!(out.state.time <= 120_000_000);
    assert_eq!(out.results.stations.len(), 2);
}

#[test]
fn try_wakeup_never_drops_users() {
    // With little room on the woken station, only what fits moves; the rest
    // stays on the overloaded station and the total is conserved.
    let sim = SimContainer::new_test(2, 10);
    let sim_state = SimState::new(&sim.cfg);
    let mut rng = rand::rngs::StdRng::seed_from_u64(5);
    let mut stations = vec![
        BaseStation::new(0, &sim.cfg, 1_000_000, &mut rng),
        BaseStation::new(1, &sim.cfg, 1_000_000, &mut rng),
    ];
    stations[1].state = BaseStationState::Sleep;
    for i in 0..10 {
        stations[0].force_add_user(User { id: i, start: 0, end: 100 + i });
    }
    for i in 0..8 {
        stations[1].force_add_user(User { id: 100 + i, start: 0, end: 200 + i });
    }
    sim.try_wakeup(&sim_state, 0, &mut stations);
    assert!(matches!(stations[1].state, BaseStationState::PowerUp(_)));
    // room for two: exactly two moved, none lost
    assert_eq!(stations[0].get_usage_raw(), 8);
    assert_eq!(stations[1].get_usage_raw(), 10);
}

#[test]
fn try_shutdown_fires_at_exact_fit() {
    // The candidate's occupancy exactly equals the others' combined spare:
    // the shutdown fires and every evacuee finds a place.
    let sim = SimContainer::new_test(3, 10);
    let sim_state = SimState::new(&sim.cfg);
    let mut rng = rand::rngs::StdRng::seed_from_u64(5);
    let mut stations = vec![
        BaseStation::new(0, &sim.cfg, 1_000_000, &mut rng),
        BaseStation::new(1, &sim.cfg, 1_000_000, &mut rng),
        BaseStation::new(2, &sim.cfg, 1_000_000, &mut rng),
    ];
    // candidate holds 2; spares are 1 and 1
    stations[0].force_add_user(User { id: 1, start: 0, end: 50 });
    stations[0].force_add_user(User { id: 2, start: 0, end: 60 });
    for i in 0..9 {
        stations[1].force_add_user(User { id: 10 + i, start: 0, end: 100 + i });
        stations[2].force_add_user(User { id: 30 + i, start: 0, end: 100 + i });
    }
    sim.try_shutdown(&sim_state, &mut stations);
    assert!(matches!(stations[0].state, BaseStationState::PowerDown(_)));
    assert_eq!(stations[0].get_usage_raw(), 0);
    assert_eq!(stations[1].get_usage_raw(), 10);
    assert_eq!(stations[2].get_usage_raw(), 10);
}

#[test]
fn try_shutdown_spills_past_a_full_last_receiver() {
    // Proportional floors can hand the last receiver more than its room;
    // the excess spills to the other receivers and nobody is lost.
    let sim = SimContainer::new_test(4, 10);
    let sim_state = SimState::new(&sim.cfg);
    let mut rng = rand::rngs::StdRng::seed_from_u64(5);
    let mut stations = vec![
        BaseStation::new(0, &sim.cfg, 1_000_000, &mut rng),
        BaseStation::new(1, &sim.cfg, 1_000_000, &mut rng),
        BaseStation::new(2, &sim.cfg, 1_000_000, &mut rng),
        BaseStation::new(3, &sim.cfg, 1_000_000, &mut rng),
    ];
    // candidate 0 holds 2; spares are 1, 1, 1 (floors give 0 each, the
    // remainder 2 lands on station 3 with room for 1, so 1 spills back)
    stations[0].force_add_user(User { id: 1, start: 0, end: 50 });
    stations[0].force_add_user(User { id: 2, start: 0, end: 60 });
    for i in 0..9 {
        stations[1].force_add_user(User { id: 10 + i, start: 0, end: 100 + i });
        stations[2].force_add_user(User { id: 30 + i, start: 0, end: 100 + i });
        stations[3].force_add_user(User { id: 50 + i, start: 0, end: 100 + i });
    }
    sim.try_shutdown(&sim_state, &mut stations);
    assert!(matches!(stations[0].state, BaseStationState::PowerDown(_)));
    assert_eq!(stations[0].get_usage_raw(), 0);
    let total: usize = stations.iter().map(|s| s.get_usage_raw()).sum();
    assert_eq!(total, 2 + 27);
    assert_eq!(stations[3].get_usage_raw(), 10);
}
