use vstd::prelude::*;

verus! {

/// The resolution of a [`Timestamp`]: ticks per second. The common audio sample
/// rates (8000, 16000, 22050, 32000, 44100, 48000, 88200, 96000, 192000) all
/// divide it, so whole numbers of samples at those rates are exact.
pub const TICKS_PER_SECOND: u64 = 705_600_000;

/// A point in time, or a span of it, counted in ticks. It does not depend on a
/// sample rate; conversions to and from sample counts name the rate.
#[derive(Clone, Copy, Debug, PartialEq, Eq, Structural)]
pub struct Timestamp {
    ticks: u64,
}

/// The ticks that `num_samples` samples last at `sample_rate`, rounded down and
/// capped at `u64::MAX`. At rate zero any positive count lasts for ever.
pub open spec fn samples_to_ticks(num_samples: nat, sample_rate: nat) -> nat {
    if num_samples == 0 {
        0
    } else if sample_rate == 0 {
        u64::MAX as nat
    } else {
        let exact = (num_samples * (TICKS_PER_SECOND as nat)) / sample_rate;
        if exact > u64::MAX {
            u64::MAX as nat
        } else {
            exact
        }
    }
}

/// The sample count nearest to `ticks` at `sample_rate` (halves round up),
/// capped at `usize::MAX`.
pub open spec fn ticks_to_samples(ticks: nat, sample_rate: nat) -> nat {
    let rounded = (ticks * sample_rate + (TICKS_PER_SECOND as nat) / 2) / (TICKS_PER_SECOND as nat);
    if rounded > usize::MAX {
        usize::MAX as nat
    } else {
        rounded
    }
}

/// The time `num_samples` samples at `sample_rate` after `ticks`, capped at the
/// latest time there is.
pub open spec fn incremented_ticks(ticks: nat, num_samples: nat, sample_rate: nat) -> nat {
    if ticks + samples_to_ticks(num_samples, sample_rate) > u64::MAX {
        u64::MAX as nat
    } else {
        ticks + samples_to_ticks(num_samples, sample_rate)
    }
}

impl Timestamp {
    /// The number of ticks since time zero.
    pub closed spec fn ticks(self) -> nat {
        self.ticks as nat
    }

    /// The time `ticks` ticks after time zero.
    pub closed spec fn at_ticks(ticks: u64) -> Timestamp {
        Timestamp { ticks }
    }

    /// A time is its number of ticks and nothing else: times of one number of
    /// ticks are the same time.
    pub proof fn lemma_ticks_name_time(self, other: Timestamp)
        ensures
            self.ticks() <= u64::MAX,
            self == Timestamp::at_ticks(self.ticks() as u64),
            self.ticks() == other.ticks() <==> self == other,
    {
    }

    /// The ticks of the time that `at_ticks` names.
    pub proof fn lemma_at_ticks(ticks: u64)
        ensures
            Timestamp::at_ticks(ticks).ticks() == ticks,
    {
    }

    pub fn zero() -> (time: Self)
        ensures
            time == Timestamp::at_ticks(0),
            time.ticks() == 0,
    {
        Self { ticks: 0 }
    }

    pub fn from_ticks(ticks: u64) -> (time: Self)
        ensures
            time == Timestamp::at_ticks(ticks),
            time.ticks() == ticks,
    {
        Self { ticks }
    }

    pub fn get_ticks(&self) -> (ticks: u64)
        ensures
            ticks == self.ticks(),
    {
        self.ticks
    }

    /// The time that `num_samples` samples take at `sample_rate`.
    pub fn from_samples(num_samples: usize, sample_rate: usize) -> (time: Self)
        ensures
            time == Timestamp::at_ticks(
                samples_to_ticks(num_samples as nat, sample_rate as nat) as u64,
            ),
            time.ticks() == samples_to_ticks(num_samples as nat, sample_rate as nat),
    {
        if num_samples == 0 {
            Self { ticks: 0 }
        } else if sample_rate == 0 {
            Self { ticks: u64::MAX }
        } else {
            assert(num_samples * TICKS_PER_SECOND <= u64::MAX * TICKS_PER_SECOND)
                by (nonlinear_arith)
                requires
                    num_samples <= u64::MAX,
            ;
            let product: u128 = (num_samples as u128) * (TICKS_PER_SECOND as u128);
            let exact: u128 = product / (sample_rate as u128);
            if exact > u64::MAX as u128 {
                Self { ticks: u64::MAX }
            } else {
                Self { ticks: exact as u64 }
            }
        }
    }

    /// The position of this time in a stream of samples at `sample_rate`.
    pub fn get_samples(&self, sample_rate: usize) -> (num_samples: usize)
        ensures
            num_samples == ticks_to_samples(self.ticks(), sample_rate as nat),
    {
        assert(self.ticks * sample_rate <= u64::MAX * u64::MAX) by (nonlinear_arith)
            requires
                self.ticks <= u64::MAX,
                sample_rate <= u64::MAX,
        ;
        let product: u128 = (self.ticks as u128) * (sample_rate as u128);
        let rounded: u128 = (product + (TICKS_PER_SECOND / 2) as u128) / (TICKS_PER_SECOND as u128);
        if rounded > usize::MAX as u128 {
            usize::MAX
        } else {
            rounded as usize
        }
    }

    /// This time moved later by `num_samples` samples at `sample_rate`, capped at
    /// the latest time there is.
    pub fn incremented(&self, num_samples: usize, sample_rate: usize) -> (time: Self)
        ensures
            time == Timestamp::at_ticks(
                incremented_ticks(self.ticks(), num_samples as nat, sample_rate as nat) as u64,
            ),
            time.ticks() == incremented_ticks(
                self.ticks(),
                num_samples as nat,
                sample_rate as nat,
            ),
    {
        let span = Self::from_samples(num_samples, sample_rate);
        Self { ticks: self.ticks.saturating_add(span.ticks) }
    }

    /// This time moved later by the span `other`, capped at the latest time
    /// there is.
    pub fn plus(&self, other: &Timestamp) -> (time: Self)
        ensures
            time.ticks() == if self.ticks() + other.ticks() > u64::MAX {
                u64::MAX as nat
            } else {
                self.ticks() + other.ticks()
            },
    {
        Self { ticks: self.ticks.saturating_add(other.ticks) }
    }

    /// The span from `earlier` to this time; zero where `earlier` is not earlier.
    pub fn since(&self, earlier: &Timestamp) -> (span: Self)
        ensures
            span.ticks() == if self.ticks() >= earlier.ticks() {
                self.ticks() - earlier.ticks()
            } else {
                0
            },
    {
        Self { ticks: self.ticks.saturating_sub(earlier.ticks) }
    }

    pub fn is_before(&self, other: &Timestamp) -> (before: bool)
        ensures
            before == (self.ticks() < other.ticks()),
    {
        self.ticks < other.ticks
    }

    /// The later of two times.
    pub fn later_of(&self, other: &Timestamp) -> (time: Self)
        ensures
            time == if self.ticks() >= other.ticks() {
                *self
            } else {
                *other
            },
            time.ticks() == if self.ticks() >= other.ticks() {
                self.ticks()
            } else {
                other.ticks()
            },
    {
        if self.ticks >= other.ticks {
            *self
        } else {
            *other
        }
    }
}

impl Default for Timestamp {
    fn default() -> (time: Self)
        ensures
            time == Timestamp::at_ticks(0),
            time.ticks() == 0,
    {
        Self { ticks: 0 }
    }
}

/// A whole number of samples survives the way into ticks and back, at any rate
/// of at most half the tick resolution, as long as the time fits.
pub proof fn lemma_samples_round_trip(num_samples: nat, sample_rate: nat)
    requires
        0 < sample_rate,
        2 * sample_rate <= TICKS_PER_SECOND,
        num_samples <= usize::MAX,
        (num_samples * (TICKS_PER_SECOND as nat)) / sample_rate <= u64::MAX,
    ensures
        ticks_to_samples(samples_to_ticks(num_samples, sample_rate), sample_rate) == num_samples,
{
    let r = TICKS_PER_SECOND as int;
    let n = num_samples as int;
    let s = sample_rate as int;
    let t = (n * r) / s;
    if num_samples > 0 {
        assert(samples_to_ticks(num_samples, sample_rate) == t);
        // n*r - s < t*s <= n*r
        vstd::arithmetic::div_mod::lemma_fundamental_div_mod(n * r, s);
        vstd::arithmetic::div_mod::lemma_mod_bound(n * r, s);
        assert(s * t <= n * r);
        assert(n * r - s < s * t);
        assert(t * s == s * t) by (nonlinear_arith);
        // so n*r <= t*s + r/2 < n*r + r
        let numerator = t * s + r / 2;
        assert(n * r <= numerator) by {
            assert(s <= r / 2);
        }
        assert(numerator < n * r + r);
        assert(numerator / r == n) by {
            assert(n * r + r == (n + 1) * r) by (nonlinear_arith);
            vstd::arithmetic::div_mod::lemma_div_is_ordered(n * r, numerator, r);
            vstd::arithmetic::div_mod::lemma_div_by_multiple(n, r);
            vstd::arithmetic::div_mod::lemma_fundamental_div_mod(numerator, r);
            vstd::arithmetic::div_mod::lemma_mod_bound(numerator, r);
            let q = numerator / r;
            assert(q >= n);
            assert(r * q <= numerator);
            assert(q < n + 1) by (nonlinear_arith)
                requires
                    r * q < (n + 1) * r,
                    r > 0,
            ;
        }
        let ticks = samples_to_ticks(num_samples, sample_rate);
        let half = (TICKS_PER_SECOND as nat) / 2;
        assert(ticks * sample_rate == t * s) by (nonlinear_arith)
            requires
                ticks == t,
                sample_rate == s,
        ;
        assert(half == r / 2);
        assert((ticks * sample_rate + half) as int == numerator);
        let rounded = (ticks * sample_rate + half) / (TICKS_PER_SECOND as nat);
        assert(rounded == numerator / r);
        assert(rounded == num_samples);
        assert(ticks_to_samples(ticks, sample_rate) == rounded);
    } else {
        assert(samples_to_ticks(num_samples, sample_rate) == 0);
        assert(0nat * sample_rate == 0) by (nonlinear_arith);
        assert(((TICKS_PER_SECOND as nat) / 2) / (TICKS_PER_SECOND as nat) == 0);
    }
}

} // verus!
