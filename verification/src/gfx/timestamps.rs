//! Per-pass GPU timing: which queries of which frame slot a pass stamps, and
//! which stamps come back as a span.
//!
//! One timestamp pair per pass, plus a reserved pair spanning the whole frame.
//! Timestamps are readable only once the GPU has passed them, so every slot
//! carries the profiler frame it recorded and its spans are filed against it
//! later. The pool is reset whole before any pass declares itself, and a slot
//! is not reused until it has been read back. Recording the commands and
//! converting ticks to time belong to the program.

use vstd::prelude::*;

verus! {

/// Passes timed per frame, including the reserved whole-frame pair. Passes
/// beyond it are dropped rather than mis-attributed.
///
/// The busiest frame that ships is four shadow cascades, a geometry prepass,
/// two occlusion passes, the forward pass, the temporal resolve, two metering
/// dispatches, an eleven-pass bloom chain and the tonemap, plus the
/// whole-frame pair: a chain of `n` levels is `2n - 1` passes, so raising the
/// chain's cap means raising this one.
pub const MAX_PASSES: usize = 32;

/// Frame slots in rotation, so a slot is never reset while the GPU may still
/// be writing it.
pub const SLOTS: usize = 3;

/// Name of the reserved pair covering the whole frame: always queries 0 and 1.
pub const WHOLE_FRAME_PASS: &'static str = "frame";

/// A pass whose opening timestamp has been recorded; ending it stamps the
/// closing half of its pair.
pub struct PassToken {
    base: u32,
}

impl PassToken {
    #[verifier::type_invariant]
    spec fn in_pool(&self) -> bool {
        self.base < 2 * MAX_PASSES
    }

    pub closed spec fn spec_base(&self) -> u32 {
        self.base
    }

    /// The query the pass's opening stamp goes to.
    pub fn base(&self) -> (r: u32)
        ensures
            r == self.spec_base(),
    {
        self.base
    }
}

#[derive(Clone, Copy, PartialEq, Eq, Structural, Debug)]
pub enum SlotState {
    /// Never written, or already read back; safe to reset and record into.
    Idle,
    /// Written and submitted; waiting to be read back.
    Pending,
}

#[derive(Clone, Copy, Debug)]
pub struct RecordedPass {
    pub name: &'static str,
    pub base: u32,
}

/// One frame slot's queries.
pub struct FrameSlot {
    /// The profiler frame these queries belong to.
    pub frame_index: u64,
    /// The clock when the frame opened; spans are laid out from here.
    pub anchor_ns: u64,
    pub passes: Vec<RecordedPass>,
    pub state: SlotState,
    pub next_query: u32,
}

impl FrameSlot {
    /// Each pass holds the pair after the previous one's, from query 0.
    pub open spec fn wf(&self) -> bool {
        &&& self.passes@.len() <= MAX_PASSES
        &&& self.next_query == 2 * self.passes@.len()
        &&& forall|i: int| 0 <= i < self.passes@.len() ==> (#[trigger] self.passes@[i]).base == 2 * i
    }

    fn idle() -> (r: Self)
        ensures
            r.wf(),
            r.passes@.len() == 0,
            r.state == SlotState::Idle,
            r.frame_index == 0,
            r.anchor_ns == 0,
    {
        FrameSlot { frame_index: 0, anchor_ns: 0, passes: Vec::new(), state: SlotState::Idle, next_query: 0 }
    }
}

/// The bits of a timestamp a queue writes, given how many it writes.
pub fn valid_mask(valid_bits: u32) -> (r: u64)
    ensures
        r == if valid_bits >= 64 {
            u64::MAX
        } else {
            ((1u64 << valid_bits) - 1) as u64
        },
{
    if valid_bits >= 64 {
        u64::MAX
    } else {
        assert(1u64 << valid_bits >= 1) by (bit_vector)
            requires
                valid_bits < 64,
        ;
        (1u64 << valid_bits) - 1
    }
}

/// A finished pass as read back: its name and its two stamps, masked to the
/// bits the queue writes.
#[derive(Clone, Copy, Debug)]
pub struct TimedPass {
    pub name: &'static str,
    pub start: u64,
    pub end: u64,
}

fn copy_passes(passes: &Vec<RecordedPass>) -> (r: Vec<RecordedPass>)
    ensures
        r@ == passes@,
{
    let mut r: Vec<RecordedPass> = Vec::new();
    let mut i: usize = 0;
    while i < passes.len()
        invariant
            i <= passes@.len(),
            r@ == passes@.take(i as int),
        decreases passes@.len() - i,
    {
        r.push(passes[i]);
        proof {
            assert(r@ =~= passes@.take(i + 1));
        }
        i += 1;
    }
    proof {
        assert(passes@.take(passes@.len() as int) =~= passes@);
    }
    r
}

/// The query slots in rotation and the one being recorded.
pub struct TimestampSlots {
    slots: Vec<FrameSlot>,
    write: usize,
}

/// The passes of `passes` whose stamps in `results` make a usable pair: the
/// opening stamp written and the closing one after it. A bad pair means that
/// pass has no span this frame; filing a wrong span is worse than none.
pub open spec fn usable_pairs(passes: Seq<RecordedPass>, results: Seq<u64>, mask: u64) -> Seq<TimedPass>
    decreases passes.len(),
{
    if passes.len() == 0 {
        Seq::empty()
    } else {
        let p = passes.last();
        let start = results[p.base as int] & mask;
        let end = results[p.base + 1] & mask;
        usable_pairs(passes.drop_last(), results, mask) + if start == 0 || end <= start {
            Seq::empty()
        } else {
            seq![TimedPass { name: p.name, start, end }]
        }
    }
}

impl TimestampSlots {
    /// Three slots, a valid one being recorded, and each slot's pairs in order.
    pub closed spec fn wf(&self) -> bool {
        &&& self.slots@.len() == SLOTS
        &&& self.write < SLOTS
        &&& forall|i: int| 0 <= i < SLOTS ==> (#[trigger] self.slots@[i]).wf()
    }

    /// The slot being recorded.
    pub closed spec fn writing(&self) -> int {
        self.write as int
    }

    pub closed spec fn slot(&self, i: int) -> (u64, u64, Seq<RecordedPass>, SlotState) {
        let s = self.slots@[i];
        (s.frame_index, s.anchor_ns, s.passes@, s.state)
    }

    pub fn new() -> (r: Self)
        ensures
            r.wf(),
            r.writing() == 0,
            forall|i: int| 0 <= i < SLOTS ==> #[trigger] r.slot(i) == (0u64, 0u64, Seq::<RecordedPass>::empty(), SlotState::Idle),
    {
        let mut slots: Vec<FrameSlot> = Vec::new();
        slots.push(FrameSlot::idle());
        slots.push(FrameSlot::idle());
        slots.push(FrameSlot::idle());
        TimestampSlots { slots, write: 0 }
    }

    /// Binds the slot about to be recorded to the profiler frame in progress.
    /// A slot still pending here was never read back; clearing it is the whole
    /// remedy.
    pub fn begin_frame(&mut self, profiler_frame: u64, anchor_ns: u64)
        requires
            old(self).wf(),
        ensures
            final(self).wf(),
            final(self).writing() == old(self).writing(),
            final(self).slot(old(self).writing()) == (profiler_frame, anchor_ns, Seq::<RecordedPass>::empty(), SlotState::Idle),
            forall|i: int| 0 <= i < SLOTS && i != old(self).writing() ==> #[trigger] final(self).slot(i) == old(self).slot(i),
    {
        let w = self.write;
        let mut slot = FrameSlot::idle();
        slot.frame_index = profiler_frame;
        slot.anchor_ns = anchor_ns;
        self.set_slot(w, slot);
    }

    fn set_slot(&mut self, w: usize, slot: FrameSlot)
        requires
            old(self).wf(),
            w < SLOTS,
            slot.wf(),
        ensures
            final(self).wf(),
            final(self).writing() == old(self).writing(),
            final(self).slot(w as int) == (slot.frame_index, slot.anchor_ns, slot.passes@, slot.state),
            final(self).slots@[w as int].next_query == slot.next_query,
            forall|i: int| 0 <= i < SLOTS && i != w ==> #[trigger] final(self).slot(i) == old(self).slot(i),
            forall|i: int| 0 <= i < SLOTS && i != w ==> #[trigger] final(self).slots@[i] == old(self).slots@[i],
    {
        let ghost before = self.slots@;
        self.slots.set(w, slot);
        proof {
            let after = self.slots@;
            assert forall|i: int| 0 <= i < SLOTS implies (#[trigger] after[i]).wf() by {
                if i != w {
                    assert(after[i] == before[i]);
                }
            }
        }
    }

    /// Reserves the next pair of the slot being recorded for pass `name` and
    /// returns the token whose base query the opening stamp goes to, or
    /// nothing when profiling is off or every pair is taken.
    pub fn begin_pass(&mut self, enabled: bool, name: &'static str) -> (r: Option<PassToken>)
        requires
            old(self).wf(),
        ensures
            final(self).wf(),
            final(self).writing() == old(self).writing(),
            ({
                let (frame, anchor, passes, state) = old(self).slot(old(self).writing());
                if enabled && passes.len() < MAX_PASSES {
                    &&& r matches Some(token) && token.spec_base() == 2 * passes.len()
                    &&& final(self).slot(old(self).writing()) == (frame, anchor, passes.push(
                        RecordedPass { name, base: (2 * passes.len()) as u32 },
                    ), state)
                } else {
                    r is None && final(self).slot(old(self).writing()) == old(self).slot(old(self).writing())
                }
            }),
            forall|i: int| 0 <= i < SLOTS && i != old(self).writing() ==> #[trigger] final(self).slot(i) == old(self).slot(i),
    {
        if !enabled {
            return None;
        }
        let w = self.write;
        if self.slots[w].passes.len() >= MAX_PASSES {
            return None;
        }
        let ghost before = self.slots@;
        let base = self.slots[w].next_query;
        let mut passes = copy_passes(&self.slots[w].passes);
        passes.push(RecordedPass { name, base });
        let slot = FrameSlot {
            frame_index: self.slots[w].frame_index,
            anchor_ns: self.slots[w].anchor_ns,
            passes,
            state: self.slots[w].state,
            next_query: base + 2,
        };
        proof {
            assert forall|k: int| 0 <= k < slot.passes@.len() implies (#[trigger] slot.passes@[k]).base == 2 * k by {
                if k < before[w as int].passes@.len() {
                    assert(before[w as int].passes@[k].base == 2 * k);
                }
            }
        }
        self.set_slot(w, slot);
        Some(PassToken { base })
    }

    /// The query a pass's closing stamp goes to.
    pub fn end_pass(&self, token: Option<PassToken>) -> (r: Option<u32>)
        ensures
            r == match token {
                Some(t) => Some((t.spec_base() + 1) as u32),
                None => None::<u32>,
            },
    {
        match token {
            Some(t) => {
                proof {
                    use_type_invariant(&t);
                }
                Some(t.base + 1)
            },
            None => None,
        }
    }

    /// Closes the frame: marks the slot being recorded for readback and moves
    /// on to the next. Returns the query the whole-frame pair's closing stamp
    /// goes to, when anything was stamped this frame; nothing was when
    /// profiling was off as the frame opened.
    pub fn end_frame(&mut self) -> (r: Option<u32>)
        requires
            old(self).wf(),
        ensures
            final(self).wf(),
            ({
                let (frame, anchor, passes, state) = old(self).slot(old(self).writing());
                &&& r == if passes.len() > 0 {
                    Some(1u32)
                } else {
                    None
                }
                &&& final(self).slot(old(self).writing()) == (frame, anchor, passes, SlotState::Pending)
            }),
            final(self).writing() == (old(self).writing() + 1) % (SLOTS as int),
            forall|i: int| 0 <= i < SLOTS && i != old(self).writing() ==> #[trigger] final(self).slot(i) == old(self).slot(i),
    {
        let w = self.write;
        let closing = if self.slots[w].passes.len() > 0 {
            Some(1)
        } else {
            None
        };
        let slot = FrameSlot {
            frame_index: self.slots[w].frame_index,
            anchor_ns: self.slots[w].anchor_ns,
            passes: copy_passes(&self.slots[w].passes),
            state: SlotState::Pending,
            next_query: self.slots[w].next_query,
        };
        self.set_slot(w, slot);
        self.write = (w + 1) % SLOTS;
        closing
    }

    /// How many queries slot `index` holds, when it waits to be read back:
    /// written, submitted, not the slot being recorded, and holding a pass.
    pub fn awaiting_readback(&self, index: usize) -> (r: Option<u32>)
        requires
            self.wf(),
            index < SLOTS,
        ensures
            ({
                let (frame, anchor, passes, state) = self.slot(index as int);
                r == if index != self.writing() && state == SlotState::Pending && passes.len() > 0 {
                    Some((2 * passes.len()) as u32)
                } else {
                    None
                }
            }),
    {
        if index != self.write && self.slots[index].state == SlotState::Pending
            && self.slots[index].passes.len() > 0 {
            Some(self.slots[index].next_query)
        } else {
            None
        }
    }

    /// Files slot `index`'s read-back stamps: the profiler frame they belong
    /// to, the clock when it opened, and each pass whose pair is usable. The
    /// slot is idle again afterwards.
    pub fn file_results(&mut self, index: usize, results: &[u64], mask: u64) -> (r: (u64, u64, Vec<TimedPass>))
        requires
            old(self).wf(),
            index < SLOTS,
            old(self).slot(index as int).2.len() * 2 <= results@.len(),
        ensures
            final(self).wf(),
            ({
                let (frame, anchor, passes, state) = old(self).slot(index as int);
                &&& r.0 == frame
                &&& r.1 == anchor
                &&& r.2@ == usable_pairs(passes, results@, mask)
                &&& final(self).slot(index as int) == (frame, anchor, passes, SlotState::Idle)
            }),
            final(self).writing() == old(self).writing(),
            forall|i: int| 0 <= i < SLOTS && i != index ==> #[trigger] final(self).slot(i) == old(self).slot(i),
    {
        let ghost passes = self.slots@[index as int].passes@;
        let mut filed: Vec<TimedPass> = Vec::new();
        let mut k: usize = 0;
        while k < self.slots[index].passes.len()
            invariant
                self.wf(),
                index < SLOTS,
                passes == self.slots@[index as int].passes@,
                passes.len() * 2 <= results@.len(),
                k <= passes.len(),
                filed@ == usable_pairs(passes.take(k as int), results@, mask),
            decreases passes.len() - k,
        {
            let pass = self.slots[index].passes[k];
            assert(pass.base == 2 * k);
            let start = results[pass.base as usize] & mask;
            let end = results[pass.base as usize + 1] & mask;
            proof {
                assert(passes.take(k + 1).drop_last() =~= passes.take(k as int));
            }
            if !(start == 0 || end <= start) {
                filed.push(TimedPass { name: pass.name, start, end });
            }
            proof {
                assert(filed@ =~= usable_pairs(passes.take(k + 1), results@, mask));
            }
            k += 1;
        }
        proof {
            assert(passes.take(passes.len() as int) =~= passes);
        }
        let frame = self.slots[index].frame_index;
        let anchor = self.slots[index].anchor_ns;
        let slot = FrameSlot {
            frame_index: frame,
            anchor_ns: anchor,
            passes: copy_passes(&self.slots[index].passes),
            state: SlotState::Idle,
            next_query: self.slots[index].next_query,
        };
        self.set_slot(index, slot);
        (frame, anchor, filed)
    }
}

} // verus!
