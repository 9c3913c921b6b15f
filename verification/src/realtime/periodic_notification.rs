use vstd::prelude::*;

verus! {

/// Counts samples and says when a notification is due, so that notifications go
/// out at a steady rate whatever the block size.
pub struct PeriodicNotification {
    interval: usize,
    elapsed: usize,
}

/// How many samples lie between two notifications at `notification_rate` per
/// second: at least one, and no end of them at rate zero.
pub open spec fn interval_in_samples(sample_rate: usize, notification_rate: usize) -> usize {
    if notification_rate == 0 {
        usize::MAX
    } else if sample_rate / notification_rate == 0 {
        1
    } else {
        sample_rate / notification_rate
    }
}

impl PeriodicNotification {
    /// The samples between two notifications.
    pub closed spec fn interval(&self) -> usize {
        self.interval
    }

    /// The samples counted since the last notification was due.
    pub closed spec fn elapsed(&self) -> usize {
        self.elapsed
    }

    pub open spec fn wf(&self) -> bool {
        self.elapsed() < self.interval()
    }

    /// A counter for `notification_rate` notifications per second of
    /// `sample_rate` samples.
    pub fn new(sample_rate: usize, notification_rate: usize) -> (notification: Self)
        ensures
            notification.wf(),
            notification.interval() == interval_in_samples(sample_rate, notification_rate),
            notification.elapsed() == 0,
    {
        let interval = if notification_rate == 0 {
            usize::MAX
        } else if sample_rate / notification_rate == 0 {
            1
        } else {
            sample_rate / notification_rate
        };
        Self { interval, elapsed: 0 }
    }

    /// Counts `num_samples` more samples. Says whether a notification is due,
    /// and if it is, starts counting anew from where the interval ended.
    pub fn increment(&mut self, num_samples: usize) -> (due: bool)
        requires
            old(self).wf(),
        ensures
            final(self).wf(),
            final(self).interval() == old(self).interval(),
            due == (old(self).elapsed() + num_samples >= old(self).interval()),
            final(self).elapsed() == (old(self).elapsed()
                + num_samples) % (old(self).interval() as int),
    {
        let remaining = self.interval - self.elapsed;
        if num_samples >= remaining {
            let beyond = num_samples - remaining;
            proof {
                let interval = self.interval as int;
                let total = self.elapsed + num_samples;
                assert(total == beyond + interval);
                vstd::arithmetic::div_mod::lemma_mod_add_multiples_vanish(beyond as int, interval);
                vstd::arithmetic::div_mod::lemma_mod_bound(beyond as int, interval);
            }
            self.elapsed = beyond % self.interval;
            true
        } else {
            proof {
                vstd::arithmetic::div_mod::lemma_small_mod(
                    (self.elapsed + num_samples) as nat,
                    self.interval as nat,
                );
            }
            self.elapsed = self.elapsed + num_samples;
            false
        }
    }
}

} // verus!
