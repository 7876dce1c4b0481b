//! The spectral feed: which part of the engine's output is shown.

use crate::config::WereSoCoolSpectrumConfig;
use vstd::prelude::*;

verus! {

/// The snapshot that is shown of the engine's output `results`: the bins
/// before `num_results`, without the first two, which hold the constant and
/// near-constant part of the signal.
pub open spec fn window<T>(results: Seq<T>, num_results: nat) -> Seq<T> {
    results.subrange(2, num_results as int)
}

/// The windowing policy of one channel's spectral feed.
pub struct FFTHandler {
    /// The bin at which the snapshot ends.
    pub num_results: usize,
}

impl FFTHandler {
    /// The feed for a configuration: the transform size divided by the
    /// configured divisor gives the bin at which the snapshot ends.
    pub fn new(config: &WereSoCoolSpectrumConfig) -> (handler: Self)
        requires
            config.fft_div != 0,
        ensures
            handler.num_results == config.visual_buffer_size / config.fft_div,
    {
        FFTHandler { num_results: config.visual_buffer_size / config.fft_div }
    }

    /// A copy of the snapshot to show, cut from the engine's latest output.
    ///
    /// The output is only read: the same output gives the same snapshot,
    /// however often it is asked for.
    pub fn read_results<T: Copy>(&self, results: &[T]) -> (snapshot: Vec<T>)
        requires
            2 <= self.num_results <= results@.len(),
        ensures
            snapshot@ == window(results@, self.num_results as nat),
    {
        let mut snapshot: Vec<T> = Vec::with_capacity(self.num_results - 2);
        let mut i: usize = 2;
        while i < self.num_results
            invariant
                2 <= i <= self.num_results <= results@.len(),
                snapshot@ == results@.subrange(2, i as int),
            decreases self.num_results - i,
        {
            snapshot.push(results[i]);
            i += 1;
            assert(snapshot@ =~= results@.subrange(2, i as int));
        }
        snapshot
    }
}

} // verus!
