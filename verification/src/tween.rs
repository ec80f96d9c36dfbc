//! Curve sampler: maps elapsed time to a clamped scalar along a precomputed
//! waveform, sampled at a fixed rate. Used both as a speed ramp and as a jump
//! height profile.

use vstd::prelude::*;

verus! {

/// Time units per waveform sample. One time unit is a third of a millisecond,
/// so 100 units are the 1000/30 ms period of a 30 Hz waveform.
pub const TWEEN_PERIOD: u64 = 100;

/// Construction-time failure: content errors are fatal at startup.
#[derive(Clone, Copy, PartialEq, Eq, Structural, Debug)]
pub enum ConfigError {
    EmptyWaveform,
}

/// A waveform lookup driven by accumulated time. While not stopped, `value`
/// resamples at the sample index `time / TWEEN_PERIOD`; past the end it
/// returns the last element and stops itself. While stopped, the cached value
/// is returned unchanged and time does not advance.
#[derive(Clone, Debug)]
pub struct Tween {
    pub stopped: bool,
    pub time: u64,
    pub waveform: Vec<i64>,
    pub value: i64,
}

impl Tween {
    /// A usable tween: non-empty waveform, and a cache that holds one of its
    /// elements.
    pub open spec fn wf(self) -> bool {
        self.waveform@.len() > 0 && self.waveform@.contains(self.value)
    }

    /// The waveform index that the current time falls in.
    pub open spec fn step_index(self) -> int {
        self.time as int / (TWEEN_PERIOD as int)
    }

    /// The state after `reset`: back at the start of the curve.
    pub open spec fn reset_spec(self) -> Tween {
        Tween { stopped: true, time: 0, value: self.waveform@[0], ..self }
    }

    /// The state after `update` by `delta`: time advances only while running.
    pub open spec fn updated_spec(self, delta: u64) -> Tween {
        if self.stopped {
            self
        } else {
            Tween { time: (self.time + delta) as u64, ..self }
        }
    }

    /// The state after one unconditional resample at the current time: the
    /// sample the time falls in, or the last element with auto-stop past the
    /// end of the waveform.
    pub open spec fn resampled(self) -> Tween {
        if self.step_index() < self.waveform@.len() {
            Tween { value: self.waveform@[self.step_index()], ..self }
        } else {
            Tween { stopped: true, value: self.waveform@.last(), ..self }
        }
    }

    /// The state after one sampling pass of `value`: a stopped sampler keeps
    /// its cache, a running one resamples.
    pub open spec fn sampled(self) -> Tween {
        if self.stopped {
            self
        } else {
            self.resampled()
        }
    }

    /// Fails on an empty waveform; otherwise starts stopped, at time zero,
    /// with the first sample cached.
    pub fn new(waveform: Vec<i64>) -> (r: Result<Tween, ConfigError>)
        ensures
            waveform@.len() > 0 ==> (r matches Ok(t) && t == (Tween {
                stopped: true,
                time: 0,
                waveform,
                value: waveform@[0],
            })),
            waveform@.len() == 0 ==> (r matches Err(e) && e == ConfigError::EmptyWaveform),
            r matches Ok(t) ==> t.wf(),
    {
        if waveform.len() == 0 {
            Err(ConfigError::EmptyWaveform)
        } else {
            let value = waveform[0];
            Ok(Tween { stopped: true, time: 0, waveform, value })
        }
    }

    /// Back to the start of the curve: time zero, first sample, stopped.
    pub fn reset(&mut self)
        requires
            old(self).wf(),
        ensures
            *final(self) == old(self).reset_spec(),
            final(self).time == 0,
            final(self).stopped,
            final(self).value == old(self).waveform@[0],
            final(self).waveform == old(self).waveform,
            final(self).wf(),
    {
        self.time = 0;
        self.value = self.waveform[0];
        self.stopped = true;
    }

    /// Splices directly into a later portion of the curve: forces the time
    /// to the start of sample `offset` and resamples there, whether or not
    /// the sampler was stopped.
    pub fn set_offset(&mut self, offset: usize)
        requires
            old(self).wf(),
            offset * TWEEN_PERIOD <= u64::MAX,
        ensures
            *final(self) == (Tween {
                time: (offset * TWEEN_PERIOD) as u64,
                ..*old(self)
            }).resampled(),
            final(self).wf(),
    {
        self.time = (offset as u64) * TWEEN_PERIOD;
        let step = self.time / TWEEN_PERIOD;
        if step < self.waveform.len() as u64 {
            self.value = self.waveform[step as usize];
        } else {
            self.value = self.waveform[self.waveform.len() - 1];
            self.stopped = true;
            proof {
                assert(self.waveform@.contains(self.value));
            }
        }
    }

    /// Advances time by `delta` while running; a stopped tween stays put.
    pub fn update(&mut self, delta: u64)
        requires
            old(self).time + delta <= u64::MAX,
        ensures
            *final(self) == old(self).updated_spec(delta),
            !old(self).stopped ==> final(self).time == old(self).time + delta,
            old(self).stopped ==> final(self).time == old(self).time,
    {
        if !self.stopped {
            self.time = self.time + delta;
        }
    }

    /// Whether the accumulated time has run past the whole waveform.
    pub fn is_over(&self) -> (r: bool)
        ensures
            r == (self.time >= self.waveform@.len() * TWEEN_PERIOD),
    {
        proof {
            lemma_period_threshold(self.time as int, self.waveform@.len() as int);
        }
        self.time / TWEEN_PERIOD >= self.waveform.len() as u64
    }

    /// Resamples at the current time while running, auto-stopping past the
    /// end of the waveform; returns the cached value while stopped.
    pub fn value(&mut self) -> (v: i64)
        requires
            old(self).wf(),
        ensures
            *final(self) == old(self).sampled(),
            v == final(self).value,
            final(self).wf(),
    {
        if !self.stopped {
            let step = self.time / TWEEN_PERIOD;
            if step < self.waveform.len() as u64 {
                self.value = self.waveform[step as usize];
            } else {
                self.value = self.waveform[self.waveform.len() - 1];
                self.stopped = true;
                proof {
                    assert(self.waveform@.contains(self.value));
                }
            }
        }
        self.value
    }
}

/// `time / TWEEN_PERIOD` crosses `len` exactly when `time` crosses
/// `len * TWEEN_PERIOD`.
proof fn lemma_period_threshold(time: int, len: int)
    requires
        time >= 0,
        len >= 0,
    ensures
        (time / (TWEEN_PERIOD as int) >= len) == (time >= len * TWEEN_PERIOD),
{
    vstd::arithmetic::div_mod::lemma_fundamental_div_mod(time, TWEEN_PERIOD as int);
    vstd::arithmetic::div_mod::lemma_mod_bound(time, TWEEN_PERIOD as int);
}

/// Sampling yields the waveform's last element and stops the tween exactly
/// once the accumulated time reaches the end of the waveform — never before.
pub proof fn lemma_sample_autostop(t: Tween)
    requires
        t.wf(),
        !t.stopped,
    ensures
        t.time >= t.waveform@.len() * TWEEN_PERIOD ==> t.sampled().value == t.waveform@.last()
            && t.sampled().stopped,
        t.time < t.waveform@.len() * TWEEN_PERIOD ==> !t.sampled().stopped,
{
    lemma_period_threshold(t.time as int, t.waveform@.len() as int);
}

/// Sampling is idempotent: a second pass of `value` without an intervening
/// `update` neither moves the state nor the returned value.
pub proof fn lemma_sample_idempotent(t: Tween)
    requires
        t.wf(),
    ensures
        t.sampled().sampled() == t.sampled(),
{
}

} // verus!
