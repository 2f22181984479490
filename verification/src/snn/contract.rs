//! The contract between dense and spiking stages.

use core::marker::PhantomData;
use vstd::prelude::*;
use crate::error::CortexError;
use crate::float::{FloatUnit, muls};
use crate::ieee::{COUNT_LIMIT, ONE, ZERO, represents, whole_number};
use crate::tensor::finite::constant;

verus! {

/// What a backend offers.
#[derive(Debug, Clone, PartialEq, Eq)]
pub struct SnnCapabilities {
    pub backend_name: &'static str,
    /// Held-out steps keep learned state.
    pub frozen_evaluation: bool,
    /// Ordinary steps learn.
    pub plasticity: bool,
    /// The caller can supply the randomness.
    pub caller_rng: bool,
    /// Steps take a neuromodulator state.
    pub neuromodulation: bool,
}

/// The spikes of one step.
#[derive(Debug, Clone, Default)]
pub struct SnnStepOutput {
    /// Channels that spiked, in the backend's order.
    pub spikes: Vec<usize>,
}

/// A spiking network. A backend that refuses a step leaves its state as it was.
pub trait SnnBackend {
    /// Width of a stimulus, and bound of the spike channels.
    fn channels(&self) -> usize;

    /// One learning step.
    fn step(&mut self, stimulus: &[u32]) -> Result<SnnStepOutput, CortexError>;

    /// One held-out step.
    fn step_frozen(&mut self, stimulus: &[u32]) -> Result<SnnStepOutput, CortexError>;

    /// Starts a new epoch, keeping what was learned.
    fn reset(&mut self);

    fn capabilities(&self) -> SnnCapabilities;
}

/// Maps a dense signal to a stimulus. One call is one tick of the encoder.
pub trait SnnEncoder {
    /// A stimulus of `channels` entries.
    fn encode(&mut self, ann_signal: &[u32], channels: usize) -> Result<
        Vec<u32>,
        CortexError,
    >;

    /// Starts a new epoch.
    fn reset(&mut self);
}

/// Maps the spikes of a step to dense readouts.
pub trait SnnDecoder {
    /// A readout of `channels` entries.
    fn decode(&self, output: &SnnStepOutput, channels: usize) -> Vec<u32>;
}

// ── Rate encoder ─────────────────────────────────────────────────────

/// Repeats the signal over the channels, each entry times `gain`, in the
/// arithmetic of `F`.
pub struct RateEncoder<F> {
    pub gain: u32,
    pub unit: PhantomData<F>,
}

impl<F: FloatUnit> Default for RateEncoder<F> {
    fn default() -> (r: Self)
        ensures
            r.gain == ONE,
    {
        RateEncoder { gain: ONE, unit: PhantomData }
    }
}

/// `stimulus` repeats the signal times the gain over its channels; an empty
/// signal gives zeros.
pub open spec fn tiles<F: FloatUnit>(
    gain: u32,
    signal: Seq<u32>,
    channels: usize,
    stimulus: Seq<u32>,
) -> bool {
    if signal.len() == 0 {
        stimulus == constant(channels as nat, ZERO)
    } else {
        &&& stimulus.len() == channels
        &&& forall|i: int|
            0 <= i < channels ==> muls::<F>(
                signal[i % (signal.len() as int)],
                gain,
                #[trigger] stimulus[i],
            )
    }
}

impl<F: FloatUnit> RateEncoder<F> {
    /// An encoder of the given gain.
    pub fn with_gain(gain: u32) -> (r: Self)
        ensures
            r.gain == gain,
    {
        RateEncoder { gain, unit: PhantomData }
    }
}

impl<F: FloatUnit> SnnEncoder for RateEncoder<F> {
    fn encode(&mut self, ann_signal: &[u32], channels: usize) -> (r: Result<Vec<u32>, CortexError>)
        ensures
            *final(self) == *old(self),
            r matches Ok(v) && tiles::<F>(old(self).gain, ann_signal@, channels, v@) && v@.len()
                == channels,
    {
        if ann_signal.len() == 0 {
            let zeros: Vec<u32> = vec![ZERO; channels];
            assert(zeros@ =~= constant(channels as nat, ZERO));
            return Ok(zeros);
        }
        let mut stimulus: Vec<u32> = Vec::new();
        let mut i: usize = 0;
        while i < channels
            invariant
                i <= channels,
                *self == *old(self),
                ann_signal@.len() > 0,
                stimulus@.len() == i,
                forall|j: int|
                    0 <= j < i ==> muls::<F>(
                        ann_signal@[j % (ann_signal@.len() as int)],
                        self.gain,
                        #[trigger] stimulus@[j],
                    ),
            decreases channels - i,
        {
            stimulus.push(F::mul32(ann_signal[i % ann_signal.len()], self.gain));
            i += 1;
        }
        Ok(stimulus)
    }

    fn reset(&mut self)
        ensures
            *final(self) == *old(self),
    {
    }
}

// ── Spike counts ─────────────────────────────────────────────────────

/// Reads every channel as the number of its spikes.
#[derive(Debug, Clone, Copy, Default)]
pub struct SpikeCountDecoder;

/// How often a channel spiked.
pub open spec fn spike_count(spikes: Seq<usize>, channel: int) -> nat
    decreases spikes.len(),
{
    if spikes.len() == 0 {
        0
    } else {
        spike_count(spikes.drop_last(), channel) + if spikes.last() == channel { 1nat } else { 0 }
    }
}

/// A count up to [`COUNT_LIMIT`].
pub open spec fn counted_up(n: nat) -> nat {
    if n < COUNT_LIMIT { n } else { COUNT_LIMIT as nat }
}

/// `readout` counts the spikes of every channel from zero; spikes beyond the
/// channels are ignored, and a count stays at [`COUNT_LIMIT`], where adding one
/// to a binary32 number no longer changes it.
pub open spec fn counts_spikes(spikes: Seq<usize>, channels: usize, readout: Seq<u32>) -> bool {
    &&& readout.len() == channels
    &&& forall|c: int|
        0 <= c < channels ==> represents(
            counted_up(spike_count(spikes, c)),
            #[trigger] readout[c],
        )
}

impl SnnDecoder for SpikeCountDecoder {
    fn decode(&self, output: &SnnStepOutput, channels: usize) -> (r: Vec<u32>)
        ensures
            counts_spikes(output.spikes@, channels, r@),
    {
        let mut counts: Vec<u32> = vec![0u32; channels];
        assert(output.spikes@.take(0) =~= Seq::<usize>::empty());
        let mut i: usize = 0;
        while i < output.spikes.len()
            invariant
                i <= output.spikes@.len(),
                counts@.len() == channels,
                forall|c: int|
                    0 <= c < channels ==> #[trigger] counts@[c] == counted_up(
                        spike_count(output.spikes@.take(i as int), c),
                    ),
            decreases output.spikes@.len() - i,
        {
            let idx: usize = output.spikes[i];
            assert(output.spikes@.take(i + 1).drop_last() =~= output.spikes@.take(i as int));
            if idx < channels && counts[idx] < COUNT_LIMIT {
                counts.set(idx, counts[idx] + 1);
            }
            i += 1;
        }
        assert(output.spikes@.take(output.spikes@.len() as int) =~= output.spikes@);
        let mut readout: Vec<u32> = Vec::new();
        let mut c: usize = 0;
        while c < channels
            invariant
                c <= channels,
                counts@.len() == channels,
                readout@.len() == c,
                forall|x: int|
                    0 <= x < channels ==> #[trigger] counts@[x] == counted_up(
                        spike_count(output.spikes@, x),
                    ),
                forall|x: int|
                    0 <= x < c ==> represents(
                        counted_up(spike_count(output.spikes@, x)),
                        #[trigger] readout@[x],
                    ),
            decreases channels - c,
        {
            readout.push(whole_number(counts[c]));
            c += 1;
        }
        readout
    }
}

} // verus!
