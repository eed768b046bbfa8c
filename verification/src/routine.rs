//! The processing routine: a unit of state that is handed one block of samples
//! per audio quantum, may rewrite the block in place, and says whether it wants
//! to be invoked again.
//!
//! A sample is the 32-bit pattern of an IEEE 754 single-precision number. The
//! routines here move and silence samples but never do arithmetic on them, so
//! the bit pattern is all they need.

use vstd::prelude::*;
use vstd::arithmetic::div_mod::lemma_fundamental_div_mod;
use vstd::arithmetic::div_mod::lemma_fundamental_div_mod_converse;
use vstd::arithmetic::div_mod::lemma_small_mod;

verus! {

/// The bit pattern of a silent sample (positive zero).
pub const SILENCE: u32 = 0;

/// The pass-through stage: it leaves every block as it found it and never asks
/// to stop.
#[derive(PartialEq, Eq, Debug)]
pub struct Sink {}

impl Sink {
    /// Handles one block: the block and the stage are unchanged, and the answer
    /// is always `true`.
    pub fn process(&mut self, buf: &mut [u32]) -> (more: bool)
        ensures
            more,
            final(buf)@ == old(buf)@,
            *final(self) == *old(self),
    {
        true
    }
}

/// The kinds of routine that can cross into the rendering context.
#[derive(PartialEq, Eq, Debug)]
pub enum Routine {
    /// Leaves the block untouched and always continues.
    Sink(Sink),
    /// Counts its invocations in `count` and continues while it has been
    /// invoked fewer than `limit` times before: with `count` at zero, the first
    /// `limit` invocations answer `true` and the next one answers `false`. The
    /// count stays at its largest value once it gets there.
    Counter { count: u64, limit: u64 },
    /// Keeps one sample out of every `factor` and silences the others. `phase`
    /// is the position inside the current group of `factor` samples, carried
    /// from one block to the next. A factor of zero counts as one.
    Decimator { factor: u32, phase: u32 },
}

/// A processing routine, owned by whichever context holds it.
///
/// The type is deliberately neither `Clone` nor `Copy`: moving it is the only
/// way to hand it on.
#[derive(PartialEq, Eq, Debug)]
pub struct WasmAudioProcessor(pub Routine);

/// The group length that a decimation factor stands for.
pub open spec fn stride(factor: u32) -> int {
    if factor == 0 {
        1
    } else {
        factor as int
    }
}

/// Position inside the group at which a decimator with this state starts its
/// next block.
pub open spec fn start_phase(factor: u32, phase: u32) -> int {
    (phase as int) % stride(factor)
}

/// What a decimator makes of a block: the samples at the start of each group
/// stay, all others become silent.
pub open spec fn decimated(block: Seq<u32>, factor: u32, phase: u32) -> Seq<u32> {
    Seq::new(
        block.len(),
        |i: int|
            if (start_phase(factor, phase) + i) % stride(factor) == 0 {
                block[i]
            } else {
                SILENCE
            },
    )
}

impl WasmAudioProcessor {
    /// The block as the routine leaves it after one invocation.
    pub open spec fn output(self, block: Seq<u32>) -> Seq<u32> {
        match self.0 {
            Routine::Sink(_) => block,
            Routine::Counter { .. } => block,
            Routine::Decimator { factor, phase } => decimated(block, factor, phase),
        }
    }

    /// The routine's own state after one invocation on `block`.
    pub open spec fn next(self, block: Seq<u32>) -> Self {
        match self.0 {
            Routine::Sink(s) => self,
            Routine::Counter { count, limit } => WasmAudioProcessor(
                Routine::Counter {
                    count: if count < u64::MAX {
                        (count + 1) as u64
                    } else {
                        count
                    },
                    limit,
                },
            ),
            Routine::Decimator { factor, phase } => WasmAudioProcessor(
                Routine::Decimator {
                    factor,
                    phase: ((start_phase(factor, phase) + block.len()) % stride(factor)) as u32,
                },
            ),
        }
    }

    /// Whether the routine asks for a further invocation after this one.
    pub open spec fn continues(self, block: Seq<u32>) -> bool {
        match self.0 {
            Routine::Sink(_) => true,
            Routine::Counter { count, limit } => count < limit,
            Routine::Decimator { .. } => true,
        }
    }

    /// Invokes the routine on one block of samples. The block is rewritten in
    /// place, the routine moves to its next state, and the answer says whether
    /// it wants to be invoked again.
    pub fn process(&mut self, buf: &mut [u32]) -> (more: bool)
        ensures
            final(buf)@ == old(self).output(old(buf)@),
            *final(self) == old(self).next(old(buf)@),
            more == old(self).continues(old(buf)@),
    {
        match &mut self.0 {
            Routine::Sink(sink) => sink.process(buf),
            Routine::Counter { count, limit } => {
                let more = *count < *limit;
                if *count < u64::MAX {
                    *count = *count + 1;
                }
                more
            },
            Routine::Decimator { factor, phase } => {
                let step: u32 = if *factor == 0 {
                    1
                } else {
                    *factor
                };
                let first: u32 = *phase % step;
                *phase = decimate(buf, step, first);
                true
            },
        }
    }
}

impl WasmAudioProcessor {
    /// The routine's state after it has been invoked on each of `blocks` in
    /// turn.
    pub open spec fn after(self, blocks: Seq<Seq<u32>>) -> WasmAudioProcessor
        decreases blocks.len(),
    {
        if blocks.len() == 0 {
            self
        } else {
            self.next(blocks[0]).after(blocks.drop_first())
        }
    }

    /// The routine asks to continue on each of the first `n` of `blocks`, and
    /// asks to stop on the one after them.
    pub open spec fn stops_after(self, blocks: Seq<Seq<u32>>, n: nat) -> bool {
        &&& n < blocks.len()
        &&& forall|i: int|
            0 <= i < n ==> #[trigger] self.after(blocks.take(i)).continues(blocks[i])
        &&& !self.after(blocks.take(n as int)).continues(blocks[n as int])
    }
}

/// The remainder of a successor is the successor of the remainder, wrapped.
proof fn lemma_successor_mod(x: int, m: int)
    requires
        0 <= x,
        0 < m,
    ensures
        (x + 1) % m == (if x % m + 1 == m {
            0
        } else {
            x % m + 1
        }),
{
    lemma_fundamental_div_mod(x, m);
    let q = x / m;
    let r = x % m;
    if r + 1 == m {
        assert(x + 1 == (q + 1) * m + 0) by (nonlinear_arith)
            requires
                x == m * q + r,
                r + 1 == m,
        ;
        lemma_fundamental_div_mod_converse(x + 1, m, q + 1, 0);
    } else {
        assert(x + 1 == q * m + (r + 1)) by (nonlinear_arith)
            requires
                x == m * q + r,
        ;
        lemma_fundamental_div_mod_converse(x + 1, m, q, r + 1);
    }
}

/// Silences every sample of `buf` that does not open a group of `step`
/// samples, where the block starts at position `first` of a group. Returns the
/// position at which the next block starts.
fn decimate(buf: &mut [u32], step: u32, first: u32) -> (next: u32)
    requires
        0 < step,
        first < step,
    ensures
        final(buf)@.len() == old(buf)@.len(),
        forall|i: int|
            0 <= i < old(buf)@.len() ==> final(buf)@[i] == (if (first + i) % (step as int) == 0 {
                old(buf)@[i]
            } else {
                SILENCE
            }),
        next == (first + old(buf)@.len()) % (step as int),
{
    let n = buf.len();
    let mut i: usize = 0;
    let mut pos: u32 = first;
    proof {
        lemma_small_mod(first as nat, step as nat);
    }
    while i < n
        invariant
            0 < step,
            n == buf@.len(),
            n == old(buf)@.len(),
            i <= n,
            pos < step,
            pos == (first + i) % (step as int),
            forall|j: int|
                0 <= j < i ==> buf@[j] == (if (first + j) % (step as int) == 0 {
                    old(buf)@[j]
                } else {
                    SILENCE
                }),
            forall|j: int| i <= j < n ==> buf@[j] == old(buf)@[j],
        decreases n - i,
    {
        if pos != 0 {
            buf[i] = SILENCE;
        }
        proof {
            lemma_successor_mod(first + i, step as int);
        }
        pos = pos + 1;
        if pos == step {
            pos = 0;
        }
        i += 1;
    }
    pos
}

} // verus!
