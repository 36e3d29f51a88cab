use crate::app::next_generation_spec;
use std::collections::VecDeque;
use vstd::prelude::*;

verus! {

/// The number of bars of the spectrum.
pub const BAR_COUNT: usize = 64;

/// The number of samples of one transform.
pub const FFT_SIZE: usize = 2048;

/// The number of recent samples that the window keeps.
pub const SAMPLE_CAPACITY: usize = 4096;

/// The number of samples that are handed over at once.
pub const FLUSH_SIZE: usize = 256;

/// The most recent samples of the playing track, their sample rate, and a
/// generation that changes with every change of the samples.
pub struct SampleWindow<T> {
    pub values: VecDeque<T>,
    pub sample_rate: u32,
    pub generation: u64,
}

/// The last `SAMPLE_CAPACITY` values of a sequence, or all of it when shorter.
pub open spec fn newest<T>(values: Seq<T>) -> Seq<T> {
    if values.len() > SAMPLE_CAPACITY {
        values.skip(values.len() - SAMPLE_CAPACITY)
    } else {
        values
    }
}

impl<T> SampleWindow<T> {
    pub fn new() -> (window: SampleWindow<T>)
        ensures
            window.values@.len() == 0,
            window.sample_rate == 0,
            window.generation == 0,
    {
        SampleWindow { values: VecDeque::new(), sample_rate: 0, generation: 0 }
    }

    fn bump(&mut self)
        ensures
            final(self).generation == next_generation_spec(old(self).generation),
            final(self).values@ == old(self).values@,
            final(self).sample_rate == old(self).sample_rate,
    {
        self.generation = if self.generation == u64::MAX {
            0
        } else {
            self.generation + 1
        };
    }

    /// Forgets the samples.
    pub fn clear(&mut self)
        ensures
            final(self).values@.len() == 0,
            final(self).sample_rate == old(self).sample_rate,
            final(self).generation == next_generation_spec(old(self).generation),
    {
        self.values.clear();
        self.bump();
    }

    /// Starts over with samples at a new rate.
    pub fn configure(&mut self, sample_rate: u32)
        ensures
            final(self).values@.len() == 0,
            final(self).sample_rate == sample_rate,
            final(self).generation == next_generation_spec(old(self).generation),
    {
        self.sample_rate = sample_rate;
        self.values.clear();
        self.bump();
    }

    /// Moves the pending samples to the end of the window and drops the oldest
    /// beyond `SAMPLE_CAPACITY`.
    pub fn push(&mut self, pending: &mut Vec<T>)
        ensures
            final(pending)@.len() == 0,
            final(self).values@ == newest(old(self).values@ + old(pending)@),
            final(self).values@.len() <= SAMPLE_CAPACITY,
            final(self).sample_rate == old(self).sample_rate,
            final(self).generation == next_generation_spec(old(self).generation),
    {
        let mut items: Vec<T> = Vec::new();
        std::mem::swap(&mut items, pending);
        let ghost start = self.values@;
        let ghost all = items@;
        let n = items.len();
        let mut i: usize = 0;
        while i < n
            invariant
                n == all.len(),
                i <= n,
                items@ == all.skip(i as int),
                self.values@ == start + all.take(i as int),
                self.sample_rate == old(self).sample_rate,
                self.generation == old(self).generation,
                pending@.len() == 0,
            decreases n - i,
        {
            assert(items@[0] == all[i as int]);
            let item = items.remove(0);
            self.values.push_back(item);
            assert(all.skip(i + 1) =~= all.skip(i as int).drop_first());
            assert(all.take(i + 1) =~= all.take(i as int).push(all[i as int]));
            i = i + 1;
        }
        assert(all.take(n as int) =~= all);
        let ghost joined = self.values@;
        while self.values.len() > SAMPLE_CAPACITY
            invariant
                joined.len() >= self.values@.len(),
                self.values@ == joined.skip(joined.len() - self.values@.len()),
                self.values@.len() >= SAMPLE_CAPACITY || self.values@.len() == joined.len(),
                self.sample_rate == old(self).sample_rate,
                self.generation == old(self).generation,
            decreases self.values@.len(),
        {
            let ghost before = self.values@;
            let dropped = self.values.pop_front();
            assert(dropped is Some);
            assert(self.values@ == before.subrange(1, before.len() as int));
            let ghost target = joined.skip(joined.len() - self.values@.len());
            assert(target.len() == self.values@.len());
            assert forall|k: int| 0 <= k < target.len() implies self.values@[k] == target[k] by {
                assert(self.values@[k] == before[k + 1]);
                assert(before[k + 1] == joined[joined.len() - before.len() + k + 1]);
            }
            assert(self.values@ =~= target);
        }
        proof {
            if joined.len() <= SAMPLE_CAPACITY {
                assert(joined.skip(0) =~= joined);
            }
        }
        self.bump();
    }
}

} // verus!
