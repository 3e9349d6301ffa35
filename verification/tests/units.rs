use cellsim::config::{Config, ConfigError, LambdaPoint, WalkOverType};
use cellsim::eventlog::{EventLog, LogRecord};
use cellsim::sim_container::{apply_rate, shutdown_allocations, SimContainer, SimState};
use cellsim::sim_container::sim_results::SimResults;
use cellsim::wave::{append_wave_header, append_wave_sample};
use cellsim::basestation::{BaseStation, BaseStationState};
use rand::SeedableRng;

fn expect_config_err(r: Result<Config, ConfigError>) -> ConfigError {
    match r {
        Err(e) => e,
        Ok(_) => panic!("expected a configuration error"),
    }
}

#[test]
fn default_config_is_valid() {
    let cfg = Config::default();
    assert_eq!(cfg.resources_count, 273);
    assert_eq!(cfg.stations_count, 10);
    assert_eq!(cfg.lambda_coefs.len(), 4);
    assert_eq!(cfg.lambda_coefs[0].time, 28_800_000_000);
    assert_eq!(cfg.lambda_coefs[0].coef_micro, 500_000);
    assert!(cfg.validate().is_ok());
}

#[test]
fn validate_rejects_bad_configs() {
    let mut cfg = Config::default();
    cfg.lambda_coefs = Vec::new();
    assert_eq!(expect_config_err(cfg.validate()), ConfigError::EmptyLambdaCoefs);

    let mut cfg = Config::default();
    cfg.sleep_threshold = 101;
    assert_eq!(expect_config_err(cfg.validate()), ConfigError::SleepThresholdRange);

    let mut cfg = Config::default();
    cfg.wakeup_threshold = 10;
    cfg.sleep_threshold = 20;
    assert_eq!(expect_config_err(cfg.validate()), ConfigError::WakeupThresholdRange);

    let mut cfg = Config::default();
    cfg.lambda_micro = 2_000_000_000_000;
    assert_eq!(expect_config_err(cfg.validate()), ConfigError::ValueTooLarge);

    let mut cfg = Config::default();
    cfg.lambda_coefs = vec![LambdaPoint { time: 100, coef_micro: 2_000_000_000 }];
    assert_eq!(expect_config_err(cfg.validate()), ConfigError::ValueTooLarge);
}

#[test]
fn rate_scaling_is_exact() {
    assert_eq!(apply_rate(1_000_000, 500_000), 500_000);
    assert_eq!(apply_rate(1_000_000, 750_000), 750_000);
    assert_eq!(apply_rate(3, 500_000), 1);
    assert_eq!(apply_rate(0, 1_000_000), 0);
}

#[test]
fn sim_state_starts_on_first_entry() {
    let cfg = Config::default();
    let s = SimState::new(&cfg);
    assert_eq!(s.time, 0);
    assert_eq!(s.lambda_micro, 500_000);
    assert_eq!(s.lambda_update_time, 28_800_000_000);
    assert_eq!(s.lambda_update_idx, 1);
    assert_eq!(s.all_users, 0);
}

#[test]
fn allocations_sum_to_evacuees() {
    // The split from the shutdown scenario: spares 10 and 14, 4 evacuees.
    let spares = vec![10usize, 14usize];
    let allocs = shutdown_allocations(&spares, 4, 24);
    assert_eq!(allocs, vec![1usize, 3usize]);

    // The remainder always lands on the last receiver.
    let spares = vec![5usize, 5usize, 5usize];
    let allocs = shutdown_allocations(&spares, 7, 15);
    assert_eq!(allocs[0], 5 * 7 / 15);
    assert_eq!(allocs[1], 5 * 7 / 15);
    assert_eq!(allocs[0] + allocs[1] + allocs[2], 7);
}

#[test]
fn update_param_touches_one_field() {
    let mut c = SimContainer::new_test(2, 10);
    c.update_param(&WalkOverType::Lambda, 2_000_000);
    assert_eq!(c.cfg.lambda_micro, 2_000_000);
    c.update_param(&WalkOverType::SleepLow, 15);
    assert_eq!(c.cfg.sleep_threshold, 15);
    c.update_param(&WalkOverType::SleepHigh, 90);
    assert_eq!(c.cfg.wakeup_threshold, 90);
    assert_eq!(c.cfg.lambda_micro, 2_000_000);
}

#[test]
fn event_log_respects_enable() {
    let mut on = EventLog::new(true);
    let mut off = EventLog::new(false);
    let rec = LogRecord::UserDrop { time: 5, user: 9 };
    on.push(rec);
    off.push(rec);
    assert_eq!(on.records.len(), 1);
    assert_eq!(on.records[0], rec);
    assert_eq!(off.records.len(), 0);
}

#[test]
fn wave_header_and_sample_layout() {
    let mut wave: Vec<u8> = Vec::new();
    append_wave_header(&mut wave, 3);
    assert_eq!(wave, vec![3u8, 0, 0, 0]);

    let cfg = Config::default();
    let mut rng = rand::rngs::StdRng::seed_from_u64(1);
    let mut stations = vec![
        BaseStation::new(0, &cfg, 1_000_000, &mut rng),
        BaseStation::new(1, &cfg, 1_000_000, &mut rng),
    ];
    stations[0].force_add_user(cellsim::user::User { id: 1, start: 0, end: 10 });
    stations[1].state = BaseStationState::Sleep;
    let mut sample: Vec<u8> = Vec::new();
    append_wave_sample(&mut sample, 0x0102, &stations);
    // 8-byte timestamp, then per station 4-byte occupancy and 1 state byte
    assert_eq!(sample.len(), 8 + 2 * 5);
    assert_eq!(&sample[0..8], &[0x02u8, 0x01, 0, 0, 0, 0, 0, 0]);
    assert_eq!(&sample[8..13], &[1u8, 0, 0, 0, 4]);
    assert_eq!(&sample[13..18], &[0u8, 0, 0, 0, 1]);
}

#[test]
fn results_fold_adds_fields() {
    let cfg = {
        let mut c = Config::default();
        c.stations_count = 2;
        c
    };
    let mut total = SimResults::new_zero(&cfg);
    assert_eq!(total.stations.len(), 2);
    let mut one = SimResults::new_zero(&cfg);
    one.usage_integral = 10;
    one.total_energy = 20;
    one.total_users = 7;
    one.dropped_users = 2;
    one.stations[0].total_energy = 11;
    one.stations[1].sleep_time = 3;
    total.add(&one);
    total.add(&one);
    assert_eq!(total.usage_integral, 20);
    assert_eq!(total.total_energy, 40);
    assert_eq!(total.total_users, 14);
    assert_eq!(total.dropped_users, 4);
    assert_eq!(total.stations[0].total_energy, 22);
    assert_eq!(total.stations[1].sleep_time, 6);
}
