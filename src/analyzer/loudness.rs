use crate::error::Error;
use vstd::prelude::*;

verus! {

/// Histogram bins: -70 dB to +8 dB in steps of 0.01 dB.
pub const BIN_COUNT: usize = 7801;

/// Sum of the counts in `s`.
pub open spec fn total(s: Seq<u64>) -> int
    decreases s.len(),
{
    if s.len() == 0 {
        0
    } else {
        total(s.drop_last()) + s.last()
    }
}

/// Count of loudness blocks per level bin. It only ever grows.
pub struct Histogram {
    bins: Vec<u64>,
}

impl View for Histogram {
    type V = Seq<u64>;

    closed spec fn view(&self) -> Seq<u64> {
        self.bins@
    }
}

impl Histogram {
    /// The histogram has one count per bin.
    pub open spec fn wf(&self) -> bool {
        self@.len() == BIN_COUNT
    }

    /// An empty histogram.
    pub fn new() -> (r: Self)
        ensures
            r.wf(),
            r@ == Seq::new(BIN_COUNT as nat, |i: int| 0u64),
    {
        let mut bins: Vec<u64> = Vec::with_capacity(BIN_COUNT);
        let mut i: usize = 0;
        while i < BIN_COUNT
            invariant
                i <= BIN_COUNT,
                bins@ == Seq::new(i as nat, |j: int| 0u64),
            decreases BIN_COUNT - i,
        {
            bins.push(0);
            i += 1;
            proof {
                assert(bins@ =~= Seq::new(i as nat, |j: int| 0u64));
            }
        }
        Histogram { bins }
    }

    /// Counts one block in bin `idx`. A bin index past the top means the
    /// block is louder than the histogram can hold; a negative one means it
    /// lies below the absolute threshold and is not counted. Returns whether the
    /// block was counted. A bin that has reached `u64::MAX` stays there.
    pub fn record(&mut self, idx: isize) -> (r: Result<bool, Error>)
        requires
            old(self).wf(),
        ensures
            final(self).wf(),
            idx >= BIN_COUNT ==> r == Err::<bool, Error>(Error::Denormalized) && final(self)@ == old(self)@,
            idx < 0 ==> r == Ok::<bool, Error>(false) && final(self)@ == old(self)@,
            0 <= idx < BIN_COUNT ==> r == Ok::<bool, Error>(true) && final(self)@ == old(self)@.update(
                idx as int,
                if old(self)@[idx as int] < u64::MAX { (old(self)@[idx as int] + 1) as u64 } else { u64::MAX },
            ),
    {
        if idx >= BIN_COUNT as isize {
            Err(Error::Denormalized)
        } else if idx < 0 {
            Ok(false)
        } else {
            let i = idx as usize;
            let c = self.bins[i];
            if c < u64::MAX {
                self.bins.set(i, c + 1);
            }
            Ok(true)
        }
    }

    /// Number of blocks in bin `i`.
    pub fn count(&self, i: usize) -> (r: u64)
        requires
            self.wf(),
            i < BIN_COUNT,
        ensures
            r == self@[i as int],
    {
        self.bins[i]
    }

    /// True when no block has been counted.
    pub fn is_empty(&self) -> (r: bool)
        requires
            self.wf(),
        ensures
            r <==> forall|i: int| 0 <= i < BIN_COUNT ==> self@[i] == 0,
    {
        let mut i: usize = 0;
        while i < BIN_COUNT
            invariant
                self.wf(),
                i <= BIN_COUNT,
                forall|j: int| 0 <= j < i ==> self@[j] == 0,
            decreases BIN_COUNT - i,
        {
            if self.bins[i] != 0 {
                proof {
                    assert(self@[i as int] != 0);
                }
                return false;
            }
            i += 1;
        }
        true
    }

    /// Number of blocks in the bins from `start` up.
    pub fn blocks_from(&self, start: usize) -> (r: u128)
        requires
            self.wf(),
        ensures
            start < BIN_COUNT ==> r == total(self@.subrange(start as int, BIN_COUNT as int)),
            start >= BIN_COUNT ==> r == 0,
    {
        let mut acc: u128 = 0;
        let mut i: usize = start;
        while i < BIN_COUNT
            invariant
                self.wf(),
                start < BIN_COUNT ==> start <= i <= BIN_COUNT,
                start >= BIN_COUNT ==> acc == 0 && i == start,
                start < BIN_COUNT ==> acc == total(self@.subrange(start as int, i as int)),
                start < BIN_COUNT ==> acc <= (i - start) * (u64::MAX as int),
            decreases BIN_COUNT - i,
        {
            proof {
                let s = self@.subrange(start as int, i + 1);
                assert(s.drop_last() =~= self@.subrange(start as int, i as int));
                assert(acc + self@[i as int] <= (i + 1 - start) * (u64::MAX as int)) by (nonlinear_arith)
                    requires
                        acc <= (i - start) * (u64::MAX as int),
                        self@[i as int] <= u64::MAX,
                        start <= i;
            }
            acc = acc + self.bins[i] as u128;
            i += 1;
        }
        acc
    }
}

/// Decides when the stream of per-sample energies forms a new loudness
/// block. A block is committed each time the sample counter reaches a
/// multiple of the overlap length while the buffer holds a full block.
pub struct BlockSchedule {
    block_size: usize,
    block_overlap: usize,
    /// The sample counter modulo the overlap length.
    phase: usize,
    counter: Ghost<nat>,
}

impl BlockSchedule {
    /// The sample counter: samples since the start, or since the last
    /// commit plus one block length.
    pub closed spec fn spec_counter(&self) -> nat {
        self.counter@
    }

    pub closed spec fn spec_block_size(&self) -> nat {
        self.block_size as nat
    }

    pub closed spec fn spec_block_overlap(&self) -> nat {
        self.block_overlap as nat
    }

    pub closed spec fn wf(&self) -> bool {
        &&& self.block_overlap > 0
        &&& self.phase == self.counter@ % (self.block_overlap as nat)
    }

    pub fn new(block_size: usize, block_overlap: usize) -> (r: Self)
        requires
            block_overlap > 0,
        ensures
            r.wf(),
            r.spec_counter() == 0,
            r.spec_block_size() == block_size,
            r.spec_block_overlap() == block_overlap,
    {
        proof {
            vstd::arithmetic::div_mod::lemma_small_mod(0, block_overlap as nat);
        }
        BlockSchedule { block_size, block_overlap, phase: 0, counter: Ghost(0) }
    }

    /// Counts one more sample, `buffered` being the number of samples now
    /// held; true when a block is to be committed.
    pub fn push(&mut self, buffered: usize) -> (commit: bool)
        requires
            old(self).wf(),
        ensures
            final(self).wf(),
            final(self).spec_counter() == old(self).spec_counter() + 1,
            final(self).spec_block_size() == old(self).spec_block_size(),
            final(self).spec_block_overlap() == old(self).spec_block_overlap(),
            commit == (final(self).spec_counter() % old(self).spec_block_overlap() == 0
                && buffered >= old(self).spec_block_size()),
    {
        let ghost c = self.counter@;
        let ghost o = self.block_overlap as nat;
        proof {
            self.counter@ = c + 1;
            vstd::arithmetic::div_mod::lemma_mod_bound(c as int, o as int);
            if o == 1 {
                vstd::arithmetic::div_mod::lemma_mod_bound((c + 1) as int, 1);
            } else {
                vstd::arithmetic::div_mod::lemma_add_mod_noop(c as int, 1, o as int);
                vstd::arithmetic::div_mod::lemma_small_mod(1, o);
                if self.phase + 1 < o {
                    vstd::arithmetic::div_mod::lemma_small_mod((self.phase + 1) as nat, o);
                } else {
                    vstd::arithmetic::div_mod::lemma_mod_self_0(o as int);
                }
            }
        }
        if self.phase + 1 == self.block_overlap {
            self.phase = 0;
        } else {
            self.phase = self.phase + 1;
        }
        self.phase == 0 && buffered >= self.block_size
    }

    /// Restarts the counter at one block length after a commit and returns
    /// how many buffered samples the committed block drains: one block, or
    /// all of them when fewer are held.
    pub fn commit(&mut self, buffered: usize) -> (drained: usize)
        requires
            old(self).wf(),
        ensures
            final(self).wf(),
            final(self).spec_counter() == old(self).spec_block_size(),
            final(self).spec_block_size() == old(self).spec_block_size(),
            final(self).spec_block_overlap() == old(self).spec_block_overlap(),
            drained == if buffered < old(self).spec_block_size() { buffered as nat } else { old(self).spec_block_size() },
    {
        self.phase = self.block_size % self.block_overlap;
        proof {
            self.counter@ = self.block_size as nat;
        }
        if buffered < self.block_size {
            buffered
        } else {
            self.block_size
        }
    }
}

} // verus!
