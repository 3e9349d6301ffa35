//! Static simulation parameters, shared read-only by every replication.

use vstd::prelude::*;

verus! {

/// One entry of the cyclic arrival-rate schedule: the arrival rate is scaled
/// by `coef_micro` (a coefficient in millionths) for `time` microseconds.
#[derive(Clone, Copy, PartialEq, Eq, Structural, Debug)]
pub struct LambdaPoint {
    /// How long this entry stays current, in microseconds.
    pub time: u64,
    /// Rate coefficient in millionths (500_000 stands for one half).
    pub coef_micro: u64,
}

/// Which parameter a sweep over several runs varies.
#[derive(Clone, Copy, PartialEq, Eq, Structural, Debug)]
pub enum WalkOverType {
    Lambda,
    SleepLow,
    SleepHigh,
}

/// Why a configuration was rejected.
#[derive(Clone, Copy, PartialEq, Eq, Structural, Debug)]
pub enum ConfigError {
    /// The cyclic rate schedule is empty.
    EmptyLambdaCoefs,
    /// `sleep_threshold` is not within 0..=100.
    SleepThresholdRange,
    /// `wakeup_threshold` is not within 0..=100 or is below `sleep_threshold`.
    WakeupThresholdRange,
    /// A value is too large for the engine's fixed-point arithmetic.
    ValueTooLarge,
}

pub struct Config {
    /// Longest service time, in milliseconds.
    pub process_time_max: u64,
    /// Shortest service time, in milliseconds.
    pub process_time_min: u64,
    /// Base arrival rate, in millionths of a user per second.
    pub lambda_micro: u64,
    /// Cyclic schedule of rate coefficients.
    pub lambda_coefs: Vec<LambdaPoint>,
    /// Concurrent users one station can serve.
    pub resources_count: usize,
    /// A station whose usage is at or below this percentage may power down.
    pub sleep_threshold: u32,
    /// A station whose usage is at or above this percentage triggers a wakeup.
    pub wakeup_threshold: u32,
    /// Number of stations in the network.
    pub stations_count: usize,
    /// Power drawn while `Active`, in milliwatts.
    pub active_power: u64,
    /// Power drawn while `Sleep`, in milliwatts.
    pub sleep_power: u64,
    /// Energy charged for one power-state transition, in milliwatt-microseconds.
    pub wakeup_power: u64,
    /// Delay of a power-state transition, in milliseconds.
    pub wakeup_delay: u64,
    /// Capacity hint for the text-log buffer.
    pub log_buffer: usize,
}

impl Config {
    /// Bounds under which the engine's integer arithmetic cannot overflow.
    pub open spec fn wf(self) -> bool {
        &&& self.process_time_min <= self.process_time_max
        &&& self.process_time_max <= u64::MAX / 1000
        &&& self.wakeup_delay <= u64::MAX / 1000
        &&& self.lambda_micro <= 1_000_000_000_000
        &&& self.lambda_coefs@.len() >= 1
        &&& (forall|i: int|
            0 <= i < self.lambda_coefs@.len() ==> #[trigger] self.lambda_coefs@[i].coef_micro
                <= 1_000_000_000)
        &&& self.sleep_threshold <= 100
        &&& self.wakeup_threshold <= 100
        &&& self.resources_count <= usize::MAX / 100
        &&& self.stations_count >= 1
    }

    /// Every check `validate` performs, as one predicate.
    pub open spec fn valid(self) -> bool {
        &&& self.lambda_coefs@.len() >= 1
        &&& self.sleep_threshold <= 100
        &&& self.wakeup_threshold <= 100
        &&& self.sleep_threshold <= self.wakeup_threshold
        &&& self.wf()
    }

    /// Checks the configuration and hands it back unchanged when every rule
    /// holds; otherwise names the first rule broken.
    pub fn validate(self) -> (r: Result<Config, ConfigError>)
        ensures
            self.valid() ==> r == Result::<Config, ConfigError>::Ok(self),
            !self.valid() ==> r.is_err(),
            r matches Result::Err(e) ==> match e {
                ConfigError::EmptyLambdaCoefs => self.lambda_coefs@.len() == 0,
                ConfigError::SleepThresholdRange => self.sleep_threshold > 100,
                ConfigError::WakeupThresholdRange => self.wakeup_threshold > 100
                    || self.wakeup_threshold < self.sleep_threshold,
                ConfigError::ValueTooLarge => !self.wf(),
            },
    {
        if self.lambda_coefs.len() == 0 {
            return Err(ConfigError::EmptyLambdaCoefs);
        }
        if self.sleep_threshold > 100 {
            return Err(ConfigError::SleepThresholdRange);
        }
        if self.wakeup_threshold > 100 || self.wakeup_threshold < self.sleep_threshold {
            return Err(ConfigError::WakeupThresholdRange);
        }
        if !(self.process_time_min <= self.process_time_max
            && self.process_time_max <= u64::MAX / 1000
            && self.wakeup_delay <= u64::MAX / 1000
            && self.lambda_micro <= 1_000_000_000_000
            && self.resources_count <= usize::MAX / 100
            && self.stations_count >= 1) {
            return Err(ConfigError::ValueTooLarge);
        }
        let mut i: usize = 0;
        while i < self.lambda_coefs.len()
            invariant
                i <= self.lambda_coefs@.len(),
                forall|j: int| 0 <= j < i ==> #[trigger] self.lambda_coefs@[j].coef_micro
                    <= 1_000_000_000,
            decreases self.lambda_coefs@.len() - i,
        {
            if self.lambda_coefs[i].coef_micro > 1_000_000_000 {
                return Err(ConfigError::ValueTooLarge);
            }
            i = i + 1;
        }
        Ok(self)
    }
}

impl Default for Config {
    /// The stock configuration: half-hour-scale service times, a four-entry
    /// daily rate cycle, and 273-user stations.
    fn default() -> (c: Config)
        ensures
            c.process_time_max == 30000,
            c.process_time_min == 1000,
            c.lambda_micro == 1_000_000,
            c.lambda_coefs@.len() == 4,
            c.lambda_coefs@[0] == (LambdaPoint { time: 28_800_000_000, coef_micro: 500_000 }),
            c.lambda_coefs@[1] == (LambdaPoint { time: 21_600_000_000, coef_micro: 750_000 }),
            c.lambda_coefs@[2] == (LambdaPoint { time: 14_400_000_000, coef_micro: 1_000_000 }),
            c.lambda_coefs@[3] == (LambdaPoint { time: 21_600_000_000, coef_micro: 750_000 }),
            c.resources_count == 273,
            c.sleep_threshold == 20,
            c.wakeup_threshold == 80,
            c.stations_count == 10,
            c.active_power == 200_000,
            c.sleep_power == 1_000,
            c.wakeup_power == 1_000_000,
            c.wakeup_delay == 50,
            c.log_buffer == 1000,
            c.wf(),
            c.valid(),
    {
        let mut coefs: Vec<LambdaPoint> = Vec::new();
        coefs.push(LambdaPoint { time: 28_800_000_000, coef_micro: 500_000 });
        coefs.push(LambdaPoint { time: 21_600_000_000, coef_micro: 750_000 });
        coefs.push(LambdaPoint { time: 14_400_000_000, coef_micro: 1_000_000 });
        coefs.push(LambdaPoint { time: 21_600_000_000, coef_micro: 750_000 });
        Config {
            process_time_max: 30000,
            process_time_min: 1000,
            lambda_micro: 1_000_000,
            lambda_coefs: coefs,
            resources_count: 273,
            sleep_threshold: 20,
            wakeup_threshold: 80,
            stations_count: 10,
            active_power: 200_000,
            sleep_power: 1_000,
            wakeup_power: 1_000_000,
            wakeup_delay: 50,
            log_buffer: 1000,
        }
    }
}

} // verus!
