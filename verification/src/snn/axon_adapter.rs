//! Spike trains of an `axon-encoder` encoder as stimuli.

use vstd::prelude::*;
use crate::error::{CortexError, ErrorView};
use crate::float::{FloatUnit, lemma_sums_empty, lemma_sums_push, sums};
use crate::ieee::{NEG_ONE, ONE, ZERO};

verus! {

/// An `axon-encoder` encoder of any scheme. One encoding advances it by one
/// tick, also when a later stage refuses the result.
pub struct AxonEncoder<E> {
    encoder: E,
}

impl<E> AxonEncoder<E> {
    /// The wrapped encoder.
    pub closed spec fn inner(&self) -> E {
        self.encoder
    }

    /// Wraps a configured encoder.
    pub fn new(encoder: E) -> (r: Self)
        ensures
            r.inner() == encoder,
    {
        AxonEncoder { encoder }
    }

    pub fn encoder(&self) -> (r: &E)
        ensures
            *r == self.inner(),
    {
        &self.encoder
    }

    /// The wrapped encoder, to reset or reconfigure it.
    pub fn encoder_mut(&mut self) -> (r: &mut E)
        ensures
            *r == old(self).inner(),
            final(self).inner() == *final(r),
    {
        &mut self.encoder
    }
}

/// What the spikes of one channel add: `1` for an excitatory, `-1` for an
/// inhibitory spike, in order.
pub open spec fn kicks(spikes: Seq<(usize, bool)>, channel: int) -> Seq<u32>
    decreases spikes.len(),
{
    if spikes.len() == 0 {
        seq![]
    } else if spikes.last().0 == channel {
        kicks(spikes.drop_last(), channel).push(if spikes.last().1 { ONE } else { NEG_ONE })
    } else {
        kicks(spikes.drop_last(), channel)
    }
}

/// Every spike is on one of the channels.
pub open spec fn in_channels(spikes: Seq<(usize, bool)>, channels: usize) -> bool {
    forall|i: int| 0 <= i < spikes.len() ==> (#[trigger] spikes[i]).0 < channels
}

/// `i` is the first spike beyond the channels.
pub open spec fn first_stray(spikes: Seq<(usize, bool)>, channels: usize, i: int) -> bool {
    &&& 0 <= i < spikes.len()
    &&& spikes[i].0 >= channels
    &&& forall|j: int| 0 <= j < i ==> (#[trigger] spikes[j]).0 < channels
}

/// Nets the spikes of one tick per channel.
pub fn net_spikes<F: FloatUnit>(spikes: &[(usize, bool)], channels: usize) -> (r: Result<
    Vec<u32>,
    CortexError,
>)
    ensures
        match r {
            Ok(v) => in_channels(spikes@, channels) && v@.len() == channels && forall|c: int|
                0 <= c < channels ==> sums::<F>(ZERO, kicks(spikes@, c), #[trigger] v@[c]),
            Err(e) => exists|i: int| #[trigger]
                first_stray(spikes@, channels, i) && e@ == (ErrorView::SnnSpikeOutOfRange {
                    channel: spikes@[i].0,
                    channels,
                }),
        },
{
    let mut stimulus: Vec<u32> = vec![ZERO; channels];
    proof {
        lemma_sums_empty::<F>(ZERO);
        assert(spikes@.take(0) =~= Seq::<(usize, bool)>::empty());
    }
    let mut i: usize = 0;
    while i < spikes.len()
        invariant
            i <= spikes@.len(),
            stimulus@.len() == channels,
            forall|j: int| 0 <= j < i ==> (#[trigger] spikes@[j]).0 < channels,
            forall|c: int|
                0 <= c < channels ==> sums::<F>(
                    ZERO,
                    kicks(spikes@.take(i as int), c),
                    #[trigger] stimulus@[c],
                ),
        decreases spikes@.len() - i,
    {
        let idx: usize = spikes[i].0;
        if idx >= channels {
            assert(first_stray(spikes@, channels, i as int));
            return Err(CortexError::SnnSpikeOutOfRange { channel: idx, channels });
        }
        let kick: u32 = if spikes[i].1 {
            ONE
        } else {
            NEG_ONE
        };
        let next: u32 = F::add32(stimulus[idx], kick);
        let ghost before = stimulus@;
        proof {
            assert(spikes@.take(i + 1).drop_last() =~= spikes@.take(i as int));
            lemma_sums_push::<F>(
                ZERO,
                kicks(spikes@.take(i as int), idx as int),
                stimulus@[idx as int],
                kick,
                next,
            );
        }
        stimulus.set(idx, next);
        proof {
            assert forall|c: int| 0 <= c < channels implies sums::<F>(
                ZERO,
                kicks(spikes@.take(i + 1), c),
                #[trigger] stimulus@[c],
            ) by {
                assert(sums::<F>(ZERO, kicks(spikes@.take(i as int), c), before[c]));
            }
        }
        i += 1;
    }
    assert(spikes@.take(spikes@.len() as int) =~= spikes@);
    Ok(stimulus)
}

} // verus!
