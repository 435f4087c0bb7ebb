//! Configuration of the download orchestrator.
//!
//! Delays are held in milliseconds; the retry delay factor is a fixed
//! point value in thousandths, so the whole delay schedule stays in
//! integer arithmetic.

use vstd::prelude::*;

use crate::errors::CondowError;

verus! {

/// The bounded-attempt retry policy: attempts, initial delay, growth
/// factor and delay cap.
#[derive(Clone, Copy, Debug, PartialEq, Eq, Structural)]
pub struct RetryConfig {
    /// How many retries are attempted after the first failure.
    pub max_attempts: usize,
    /// Delay before the first retry, in milliseconds.
    pub initial_delay_ms: u64,
    /// Growth factor of the delay, in thousandths (1500 means 1.5x).
    pub delay_factor_permille: u64,
    /// Upper bound on any delay, in milliseconds.
    pub max_delay_ms: u64,
}

impl RetryConfig {
    /// A retry policy is valid when its delay factor does not shrink
    /// the delay.
    pub open spec fn valid_spec(self) -> bool {
        self.delay_factor_permille >= 1000
    }

    /// Replaces the number of retries.
    pub fn max_attempts(self, n: usize) -> (r: Self)
        ensures
            r == (RetryConfig { max_attempts: n, ..self }),
    {
        RetryConfig { max_attempts: n, ..self }
    }

    /// Replaces the delay before the first retry.
    pub fn initial_delay_ms(self, ms: u64) -> (r: Self)
        ensures
            r == (RetryConfig { initial_delay_ms: ms, ..self }),
    {
        RetryConfig { initial_delay_ms: ms, ..self }
    }

    /// Replaces the delay growth factor, in thousandths.
    pub fn delay_factor_permille(self, permille: u64) -> (r: Self)
        ensures
            r == (RetryConfig { delay_factor_permille: permille, ..self }),
    {
        RetryConfig { delay_factor_permille: permille, ..self }
    }

    /// Replaces the delay cap.
    pub fn max_delay_ms(self, ms: u64) -> (r: Self)
        ensures
            r == (RetryConfig { max_delay_ms: ms, ..self }),
    {
        RetryConfig { max_delay_ms: ms, ..self }
    }

    /// The delay before retry number `attempt` (counted from 1): the
    /// initial delay grown `attempt - 1` times by the factor, capped at
    /// the maximum delay.
    pub open spec fn delay_ms_spec(self, attempt: int) -> int
        decreases attempt,
    {
        if attempt <= 1 {
            if self.initial_delay_ms <= self.max_delay_ms {
                self.initial_delay_ms as int
            } else {
                self.max_delay_ms as int
            }
        } else {
            let prev = self.delay_ms_spec(attempt - 1);
            let grown = prev * self.delay_factor_permille / 1000;
            if grown <= self.max_delay_ms {
                grown
            } else {
                self.max_delay_ms as int
            }
        }
    }

    /// Computes the delay before retry number `attempt` (counted
    /// from 1).
    pub fn delay_ms(&self, attempt: usize) -> (r: u64)
        requires
            attempt >= 1,
        ensures
            r == self.delay_ms_spec(attempt as int),
            r <= self.max_delay_ms,
    {
        let mut delay: u64 = if self.initial_delay_ms <= self.max_delay_ms {
            self.initial_delay_ms
        } else {
            self.max_delay_ms
        };
        let mut k: usize = 1;
        while k < attempt
            invariant
                1 <= k <= attempt,
                delay == self.delay_ms_spec(k as int),
                delay <= self.max_delay_ms,
            decreases attempt - k,
        {
            proof {
                assert((delay as int) * (self.delay_factor_permille as int) <= u128::MAX)
                    by (nonlinear_arith)
                    requires
                        delay <= u64::MAX,
                        self.delay_factor_permille <= u64::MAX,
                ;
            }
            let product: u128 = (delay as u128) * (self.delay_factor_permille as u128);
            let g: u128 = product / 1000;
            let grown: u64 = if g <= (self.max_delay_ms as u128) {
                g as u64
            } else {
                self.max_delay_ms
            };
            delay = grown;
            k = k + 1;
        }
        delay
    }

    /// Full jitter: maps a random number to a delay drawn evenly from
    /// `[0, delay]`.
    pub fn jittered_delay_ms(delay: u64, random: u64) -> (r: u64)
        ensures
            r <= delay,
            delay < u64::MAX ==> r == (random as int) % (delay + 1),
    {
        if delay == u64::MAX {
            random
        } else {
            random % (delay + 1)
        }
    }
}

impl RetryConfig {
    /// The default retry policy as a value.
    pub open spec fn default_spec() -> RetryConfig {
        RetryConfig {
            max_attempts: 2usize,
            initial_delay_ms: 50u64,
            delay_factor_permille: 1500u64,
            max_delay_ms: 5000u64,
        }
    }
}

impl Default for RetryConfig {
    /// Two retries, 50 ms initial delay, factor 1.5, capped at 5 s.
    fn default() -> (r: Self)
        ensures
            r == RetryConfig::default_spec(),
            r.valid_spec(),
    {
        RetryConfig {
            max_attempts: 2,
            initial_delay_ms: 50,
            delay_factor_permille: 1500,
            max_delay_ms: 5000,
        }
    }
}

/// Configuration of a download orchestrator.
#[derive(Clone, Copy, Debug, PartialEq, Eq, Structural)]
pub struct Config {
    /// Size of the parts a range is split into, in bytes.
    pub part_size_bytes: u64,
    /// How many parts are downloaded concurrently.
    pub max_concurrency: usize,
    /// Capacity of each worker's queue of pending part requests.
    pub buffer_size: usize,
    /// How long the dispatcher pauses when every worker queue is full,
    /// in milliseconds.
    pub buffers_full_delay_ms: u64,
    /// Whether the object size is queried even for closed ranges, so
    /// their upper bound can be clamped.
    pub always_get_size: bool,
    /// The retry policy; `None` disables retries.
    pub retries: Option<RetryConfig>,
}

impl Config {
    /// A configuration is valid when parts are non-empty, at least one
    /// worker runs, queues hold at least one request, and the retry
    /// policy (if any) is valid.
    pub open spec fn valid_spec(self) -> bool {
        &&& self.part_size_bytes > 0
        &&& self.max_concurrency >= 1
        &&& self.buffer_size >= 1
        &&& (self.retries matches Some(rc) ==> rc.valid_spec())
    }

    /// Replaces the part size.
    pub fn part_size_bytes(self, v: u64) -> (r: Self)
        ensures
            r == (Config { part_size_bytes: v, ..self }),
    {
        Config { part_size_bytes: v, ..self }
    }

    /// Replaces the number of concurrent workers.
    pub fn max_concurrency(self, v: usize) -> (r: Self)
        ensures
            r == (Config { max_concurrency: v, ..self }),
    {
        Config { max_concurrency: v, ..self }
    }

    /// Replaces the worker queue capacity.
    pub fn buffer_size(self, v: usize) -> (r: Self)
        ensures
            r == (Config { buffer_size: v, ..self }),
    {
        Config { buffer_size: v, ..self }
    }

    /// Replaces the full-queue pause.
    pub fn buffers_full_delay_ms(self, v: u64) -> (r: Self)
        ensures
            r == (Config { buffers_full_delay_ms: v, ..self }),
    {
        Config { buffers_full_delay_ms: v, ..self }
    }

    /// Replaces the size-query preference.
    pub fn always_get_size(self, v: bool) -> (r: Self)
        ensures
            r == (Config { always_get_size: v, ..self }),
    {
        Config { always_get_size: v, ..self }
    }

    /// Replaces the retry policy.
    pub fn retries(self, rc: RetryConfig) -> (r: Self)
        ensures
            r == (Config { retries: Some(rc), ..self }),
    {
        Config { retries: Some(rc), ..self }
    }

    /// Switches retries off.
    pub fn disable_retries(self) -> (r: Self)
        ensures
            r == (Config { retries: None::<RetryConfig>, ..self }),
    {
        Config { retries: None, ..self }
    }

    /// Rejects an invalid configuration.
    pub fn validated(self) -> (r: Result<Config, CondowError>)
        ensures
            (r is Ok <==> self.valid_spec()),
            (r matches Ok(c) ==> c == self),
    {
        if self.part_size_bytes == 0 {
            return Err(CondowError::new_other("part_size_bytes must not be 0"));
        }
        if self.max_concurrency == 0 {
            return Err(CondowError::new_other("max_concurrency must not be 0"));
        }
        if self.buffer_size == 0 {
            return Err(CondowError::new_other("buffer_size must not be 0"));
        }
        if let Some(rc) = self.retries {
            if rc.delay_factor_permille < 1000 {
                return Err(CondowError::new_other("delay factor must not shrink the delay"));
            }
        }
        Ok(self)
    }
}

impl Default for Config {
    /// 4 MiB parts, 4 workers, queues of 2, a 10 ms full-queue pause,
    /// size queries on, and the default retry policy.
    fn default() -> (r: Self)
        ensures
            r.valid_spec(),
            r.part_size_bytes == 4194304,
            r.max_concurrency == 4,
            r.buffer_size == 2,
            r.buffers_full_delay_ms == 10,
            r.always_get_size == true,
            (r.retries matches Some(rc) && rc == RetryConfig::default_spec()),
    {
        Config {
            part_size_bytes: 4194304,
            max_concurrency: 4,
            buffer_size: 2,
            buffers_full_delay_ms: 10,
            always_get_size: true,
            retries: Some(RetryConfig::default()),
        }
    }
}

} // verus!
