//! The plan of a sample-rate conversion.
//!
//! The conversion itself is done by a block-based resampling engine that the
//! caller owns. This module decides what the engine is given and in what
//! order: the input in blocks of 1024 samples, the last one filled up with
//! zeros, and after the last block a request for what the engine still
//! holds. What the engine returns is collected in that order.

use vstd::prelude::*;
use crate::ieee::ZERO_BITS;

verus! {

/// The number of samples that the engine is given at a time.
pub const CHUNK_SIZE: usize = 1024;

/// The block that starts at `start`: 1024 samples, zeros where the input
/// has ended.
pub open spec fn chunk_spec(samples: Seq<u32>, start: int) -> Seq<u32> {
    Seq::new(
        1024,
        |j: int|
            if start + j < samples.len() {
                samples[start + j]
            } else {
                ZERO_BITS
            },
    )
}

/// The number of blocks that an input of the given length is cut into.
pub open spec fn chunk_count_spec(len: int) -> int {
    (len + 1023) / 1024
}

/// Where the next block starts once the one at `position` has been taken.
pub open spec fn advance_spec(position: int, len: int) -> int {
    if position + 1024 < len {
        position + 1024
    } else {
        len
    }
}

/// Why the engine gave no output.
#[derive(Clone, Copy, Debug, PartialEq, Eq, Structural)]
pub enum ResampleError {
    /// No engine could be made for the pair of rates.
    Construction,
    /// The engine failed on a block.
    Processing,
    /// The engine failed when it was drained.
    Draining,
}

/// A conversion under way: the input, how far it has been handed out, and
/// what the engine has returned so far.
#[derive(Debug)]
pub struct Resampling {
    pub samples: Vec<u32>,
    pub position: usize,
    pub output: Vec<u32>,
}

/// What the caller is to do next with the engine.
#[derive(Debug)]
pub enum ResampleAction {
    /// Process this block of 1024 samples.
    Process(Vec<u32>),
    /// Process no input, to obtain what is still buffered.
    Drain,
}

/// How a conversion begins.
#[derive(Debug)]
pub enum ResampleStart {
    /// The rates are equal: the output is the input.
    Unchanged(Vec<u32>),
    /// An engine is to be made for these rates, block size and channel
    /// count, and driven as `job` says.
    Engine { from_rate: usize, to_rate: usize, chunk_size: usize, channels: usize, job: Resampling },
}

/// Begins a conversion from `from_rate` to `to_rate`.
pub fn resample_audio(samples: Vec<u32>, from_rate: u32, to_rate: u32) -> (start: ResampleStart)
    ensures
        match start {
            ResampleStart::Unchanged(output) => from_rate == to_rate && output@ == samples@,
            ResampleStart::Engine { from_rate: engine_from, to_rate: engine_to, chunk_size, channels, job } =>
                from_rate != to_rate && engine_from == from_rate && engine_to == to_rate
                    && chunk_size == 1024 && channels == 1 && job.samples@ == samples@
                    && job.position == 0 && job.output@ == Seq::<u32>::empty(),
        },
{
    if from_rate == to_rate {
        ResampleStart::Unchanged(samples)
    } else {
        ResampleStart::Engine {
            from_rate: from_rate as usize,
            to_rate: to_rate as usize,
            chunk_size: CHUNK_SIZE,
            channels: 1,
            job: Resampling { samples, position: 0, output: Vec::new() },
        }
    }
}

/// The number of blocks for an input of `len` samples.
pub fn chunk_count(len: usize) -> (count: usize)
    ensures
        count as int == chunk_count_spec(len as int),
{
    if len % CHUNK_SIZE == 0 {
        len / CHUNK_SIZE
    } else {
        len / CHUNK_SIZE + 1
    }
}

impl Resampling {
    /// Whether all of the input has been handed out.
    pub open spec fn exhausted(&self) -> bool {
        self.position >= self.samples.len()
    }

    /// The next step: the block at the current position, or the request to
    /// drain once the input is used up.
    pub fn next_action(&self) -> (action: ResampleAction)
        ensures
            match action {
                ResampleAction::Drain => self.exhausted(),
                ResampleAction::Process(chunk) => !self.exhausted() && chunk@ == chunk_spec(
                    self.samples@,
                    self.position as int,
                ),
            },
    {
        let len = self.samples.len();
        if self.position >= len {
            return ResampleAction::Drain;
        }
        let left: usize = len - self.position;
        let mut chunk: Vec<u32> = Vec::with_capacity(CHUNK_SIZE);
        let mut j: usize = 0;
        while j < CHUNK_SIZE
            invariant
                j <= 1024,
                len == self.samples.len(),
                self.position < len,
                left == len - self.position,
                chunk.len() == j,
                forall|k: int|
                    0 <= k < j ==> chunk[k] == chunk_spec(self.samples@, self.position as int)[k],
            decreases 1024 - j,
        {
            let value: u32 = if j < left {
                self.samples[self.position + j]
            } else {
                ZERO_BITS
            };
            chunk.push(value);
            j = j + 1;
        }
        assert(chunk@ =~= chunk_spec(self.samples@, self.position as int));
        ResampleAction::Process(chunk)
    }

    /// Takes what the engine returned for the block that was handed out
    /// last, and moves on by one block.
    pub fn accept(self, produced: Vec<u32>) -> (next: Resampling)
        ensures
            next.samples@ == self.samples@,
            next.position as int == advance_spec(self.position as int, self.samples.len() as int),
            next.output@ == self.output@ + produced@,
    {
        let len = self.samples.len();
        let position: usize = if len >= CHUNK_SIZE && self.position < len - CHUNK_SIZE {
            self.position + CHUNK_SIZE
        } else {
            len
        };
        let mut output = self.output;
        let mut produced = produced;
        output.append(&mut produced);
        Resampling { samples: self.samples, position, output }
    }

    /// Takes what the engine still held, and gives the whole output.
    pub fn finish(self, drained: Vec<u32>) -> (output: Vec<u32>)
        ensures
            output@ == self.output@ + drained@,
    {
        let mut output = self.output;
        let mut drained = drained;
        output.append(&mut drained);
        output
    }
}

/// The position after `steps` blocks have been taken from the start.
pub open spec fn position_after(len: int, steps: nat) -> int
    decreases steps,
{
    if steps == 0 {
        0
    } else {
        advance_spec(position_after(len, (steps - 1) as nat), len)
    }
}

/// After `steps` blocks the position is 1024 times `steps`, or the end of
/// the input where that comes first.
pub proof fn lemma_position_after(len: int, steps: nat)
    requires
        len >= 0,
    ensures
        position_after(len, steps) == (if 1024 * steps < len {
            1024 * steps as int
        } else {
            len
        }),
    decreases steps,
{
    if steps > 0 {
        lemma_position_after(len, (steps - 1) as nat);
    }
}

/// The input is used up after exactly `chunk_count_spec(len)` blocks: before
/// that a block is still to be processed, from then on the engine is
/// drained.
pub proof fn lemma_chunk_count(len: int, steps: nat)
    requires
        len >= 0,
    ensures
        position_after(len, steps) >= len <==> steps >= chunk_count_spec(len),
{
    lemma_position_after(len, steps);
}

/// The blocks hold the input, each sample once and in its place, and zeros
/// behind its end.
pub proof fn lemma_chunks_cover(samples: Seq<u32>, i: int)
    requires
        0 <= i < chunk_count_spec(samples.len() as int) * 1024,
    ensures
        chunk_spec(samples, (i / 1024) * 1024)[i % 1024] == (if i < samples.len() {
            samples[i]
        } else {
            ZERO_BITS
        }),
        (i / 1024) * 1024 == position_after(samples.len() as int, (i / 1024) as nat),
{
    lemma_position_after(samples.len() as int, (i / 1024) as nat);
}

} // verus!
