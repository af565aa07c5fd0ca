//! Frame profiler: one timing model for CPU phases and GPU passes.
//!
//! A scope times a region and files a span against the frame in progress;
//! closing a frame keeps it in a ring of the last few hundred. GPU spans
//! arrive late: timestamp readback trails the displayed frame, so a pass's
//! span is filed against an earlier frame index, which is why the ring holds
//! whole frames rather than running averages. The clock, the switch and the
//! per-thread collector are the program's; the bookkeeping is here.

use vstd::prelude::*;

use std::collections::VecDeque;

use crate::text::str_eq;

verus! {

/// Frames kept for aggregation.
pub const HISTORY: usize = 240;

#[derive(Clone, Copy, PartialEq, Eq, Structural, Debug)]
pub enum Lane {
    Cpu,
    Gpu,
}

/// One timed region. The name is static so that no scope allocates inside
/// its own measurement.
#[derive(Clone, Copy, Debug)]
pub struct Span {
    pub name: &'static str,
    /// Nesting level within its lane; 0 is a phase the frame loop opened.
    pub depth: u16,
    pub start_ns: u64,
    pub end_ns: u64,
}

impl Span {
    /// How long the region took, or zero for a span that ends before it
    /// starts.
    pub fn duration_ns(&self) -> (r: u64)
        ensures
            r == if self.end_ns >= self.start_ns {
                (self.end_ns - self.start_ns) as u64
            } else {
                0
            },
    {
        self.end_ns.saturating_sub(self.start_ns)
    }
}

/// A region being timed: its name, nesting depth and start. Finishing it
/// makes its span.
pub struct Scope {
    pub name: &'static str,
    pub depth: u16,
    pub start_ns: u64,
}

impl Scope {
    pub fn finish(&self, end_ns: u64) -> (r: Span)
        ensures
            r == (Span { name: self.name, depth: self.depth, start_ns: self.start_ns, end_ns }),
    {
        Span { name: self.name, depth: self.depth, start_ns: self.start_ns, end_ns }
    }
}

/// The spans a thread finished since its frame was last closed, and how many
/// scopes it has open.
pub struct Collector {
    pub open: u16,
    pub spans: Vec<Span>,
}

impl Collector {
    pub fn new() -> (r: Self)
        ensures
            r.open == 0,
            r.spans@ == Seq::<Span>::empty(),
    {
        Collector { open: 0, spans: Vec::new() }
    }

    /// Opens a scope named `name` at `now`, one deeper than those open.
    pub fn open_scope(&mut self, name: &'static str, now: u64) -> (r: Scope)
        requires
            old(self).open < u16::MAX,
        ensures
            r == (Scope { name, depth: old(self).open, start_ns: now }),
            final(self).open == old(self).open + 1,
            final(self).spans@ == old(self).spans@,
    {
        let depth = self.open;
        self.open = self.open + 1;
        Scope { name, depth, start_ns: now }
    }

    /// Closes `scope` at `now` and files its span. Saturates, because
    /// enabling mid-frame can make a scope whose opening was never counted.
    pub fn close_scope(&mut self, scope: &Scope, now: u64)
        ensures
            final(self).open == if old(self).open > 0 {
                (old(self).open - 1) as u16
            } else {
                0
            },
            final(self).spans@ == old(self).spans@.push(
                Span { name: scope.name, depth: scope.depth, start_ns: scope.start_ns, end_ns: now },
            ),
    {
        self.open = self.open.saturating_sub(1);
        self.spans.push(scope.finish(now));
    }
}

/// One closed frame.
pub struct Frame {
    pub index: u64,
    pub cpu: Vec<Span>,
    pub gpu: Vec<Span>,
}

/// A frame as a value.
pub struct FrameView {
    pub index: u64,
    pub cpu: Seq<Span>,
    pub gpu: Seq<Span>,
}

impl View for Frame {
    type V = FrameView;

    open spec fn view(&self) -> FrameView {
        FrameView { index: self.index, cpu: self.cpu@, gpu: self.gpu@ }
    }
}

/// What the spans at depth 0 cost together: nested scopes are counted once,
/// inside their parent.
pub open spec fn root_ns(spans: Seq<Span>) -> u64
    decreases spans.len(),
{
    if spans.len() == 0 {
        0
    } else {
        let prev = root_ns(spans.drop_last());
        if spans.last().depth == 0 {
            sat_add(prev, span_ns(spans.last()))
        } else {
            prev
        }
    }
}

impl Frame {
    /// The lane's cost over its top-level spans only.
    pub fn root_ns(&self, lane: Lane) -> (r: u64)
        ensures
            r == root_ns(lane_spans(self@, lane)),
    {
        let spans = self.lane(lane);
        let mut total: u64 = 0;
        let mut j: usize = 0;
        while j < spans.len()
            invariant
                spans@ == lane_spans(self@, lane),
                j <= spans@.len(),
                total == root_ns(spans@.take(j as int)),
            decreases spans@.len() - j,
        {
            proof {
                assert(spans@.take(j + 1).drop_last() =~= spans@.take(j as int));
            }
            if spans[j].depth == 0 {
                total = total.saturating_add(spans[j].duration_ns());
            }
            j += 1;
        }
        proof {
            assert(spans@.take(spans@.len() as int) =~= spans@);
        }
        total
    }

    pub fn lane(&self, lane: Lane) -> (r: &[Span])
        ensures
            r@ == match lane {
                Lane::Cpu => self.cpu@,
                Lane::Gpu => self.gpu@,
            },
    {
        match lane {
            Lane::Cpu => self.cpu.as_slice(),
            Lane::Gpu => self.gpu.as_slice(),
        }
    }
}

pub struct Profiler {
    ring: VecDeque<Frame>,
    next_index: u64,
    capacity: usize,
}

/// The ring's frames as values, oldest first.
pub open spec fn frame_views(ring: Seq<Frame>) -> Seq<FrameView> {
    ring.map_values(|f: Frame| f@)
}

/// The first of `frames` whose index is `index`, if any.
pub open spec fn find_frame(frames: Seq<FrameView>, index: u64) -> Option<int> {
    if exists|i: int| 0 <= i < frames.len() && #[trigger] frames[i].index == index {
        Some(choose|i: int| 0 <= i < frames.len() && #[trigger] frames[i].index == index)
    } else {
        None
    }
}

impl Profiler {
    /// The frames kept, oldest first.
    pub closed spec fn frames_kept(&self) -> Seq<FrameView> {
        frame_views(self.ring@)
    }

    /// The index the frame being recorded will close as.
    pub closed spec fn next(&self) -> u64 {
        self.next_index
    }

    pub closed spec fn limit(&self) -> int {
        self.capacity as int
    }

    /// At least one frame may be kept; as many are kept as have closed, up
    /// to `limit()`; and their indices run up to the frame being recorded
    /// without a gap.
    pub closed spec fn wf(&self) -> bool {
        &&& 1 <= self.capacity
        &&& self.ring@.len() == if self.next_index < self.capacity {
            self.next_index as int
        } else {
            self.capacity as int
        }
        &&& forall|i: int|
            0 <= i < self.ring@.len() ==> (#[trigger] self.ring@[i]).index == self.next_index - self.ring@.len() + i
    }

    pub fn new(capacity: usize) -> (r: Self)
        ensures
            r.wf(),
            r.frames_kept() == Seq::<FrameView>::empty(),
            r.next() == 0,
            r.limit() == if capacity >= 1 {
                capacity as int
            } else {
                1
            },
    {
        let r = Profiler {
            ring: VecDeque::new(),
            next_index: 0,
            capacity: if capacity >= 1 {
                capacity
            } else {
                1
            },
        };
        proof {
            assert(frame_views(r.ring@) =~= Seq::<FrameView>::empty());
        }
        r
    }

    /// Index of the frame being recorded right now, the one `end_frame` is
    /// about to close. A pass that writes GPU timestamps stamps itself with
    /// it so the readback can find its way home.
    pub fn frame_index(&self) -> (r: u64)
        ensures
            r == self.next(),
    {
        self.next_index
    }

    /// Closes the frame in progress with the spans `collector` finished, and
    /// evicts the oldest frame if the ring is full. The collector is left
    /// empty with no scope open.
    pub fn end_frame(&mut self, collector: &mut Collector)
        requires
            old(self).wf(),
            old(self).next() < u64::MAX,
        ensures
            final(self).wf(),
            final(self).limit() == old(self).limit(),
            final(self).next() == old(self).next() + 1,
            final(self).frames_kept() == (if old(self).frames_kept().len() == old(self).limit() {
                old(self).frames_kept().drop_first()
            } else {
                old(self).frames_kept()
            }).push(FrameView { index: old(self).next(), cpu: old(collector).spans@, gpu: Seq::empty() }),
            final(collector).open == 0,
            final(collector).spans@ == Seq::<Span>::empty(),
    {
        let ghost before = self.ring@;
        if self.ring.len() == self.capacity {
            // The oldest frame goes; its index falls out of the ring.
            let _ = self.ring.pop_front();
            proof {
                assert(frame_views(self.ring@) =~= frame_views(before).drop_first());
            }
        }
        let ghost kept = self.ring@;
        let mut spans: Vec<Span> = Vec::new();
        std::mem::swap(&mut spans, &mut collector.spans);
        collector.open = 0;
        let frame = Frame { index: self.next_index, cpu: spans, gpu: Vec::new() };
        self.next_index = self.next_index + 1;
        self.ring.push_back(frame);
        proof {
            assert(frame_views(self.ring@) =~= frame_views(kept).push(self.ring@.last()@));
            assert forall|i: int| 0 <= i < self.ring@.len() implies (#[trigger] self.ring@[i]).index
                == self.next_index - self.ring@.len() + i by {
                if i < kept.len() {
                    if before.len() == self.capacity {
                        assert(kept[i] == before[i + 1]);
                    } else {
                        assert(kept[i] == before[i]);
                    }
                }
            }
        }
    }

    /// Files a finished GPU span against the frame it was recorded in, and
    /// says whether that frame is still kept; one that aged out of the ring
    /// is the normal outcome for a readback that stalled for hundreds of
    /// frames.
    pub fn push_gpu_span(&mut self, frame_index: u64, span: Span) -> (r: bool)
        requires
            old(self).wf(),
        ensures
            final(self).wf(),
            final(self).next() == old(self).next(),
            final(self).limit() == old(self).limit(),
            r == find_frame(old(self).frames_kept(), frame_index) is Some,
            r ==> ({
                let i = find_frame(old(self).frames_kept(), frame_index)->Some_0;
                let f = old(self).frames_kept()[i];
                final(self).frames_kept() == old(self).frames_kept().update(
                    i,
                    FrameView { gpu: f.gpu.push(span), ..f },
                )
            }),
            !r ==> final(self).frames_kept() == old(self).frames_kept(),
    {
        let ghost views = frame_views(self.ring@);
        let mut i: usize = 0;
        while i < self.ring.len()
            invariant
                self.wf(),
                views == frame_views(self.ring@),
                self.next_index == old(self).next_index,
                self.capacity == old(self).capacity,
                self.ring@ == old(self).ring@,
                i <= self.ring@.len(),
                forall|j: int| 0 <= j < i ==> (#[trigger] views[j]).index != frame_index,
            decreases self.ring@.len() - i,
        {
            if self.ring[i].index == frame_index {
                proof {
                    assert(views[i as int].index == frame_index);
                    let q = find_frame(views, frame_index)->Some_0;
                    // Indices are distinct, so the frame found is the one chosen.
                    assert(views[q].index == self.ring@[q].index);
                    assert(q == i);
                }
                let ghost before = self.ring@;
                let mut frame = self.ring.remove(i).unwrap();
                frame.gpu.push(span);
                self.ring.insert(i, frame);
                proof {
                    assert(frame_views(self.ring@) =~= views.update(
                        i as int,
                        FrameView { gpu: views[i as int].gpu.push(span), ..views[i as int] },
                    ));
                    assert forall|j: int| 0 <= j < self.ring@.len() implies (#[trigger] self.ring@[j]).index
                        == self.next_index - self.ring@.len() + j by {
                        if j != i {
                            assert(self.ring@[j] == before[j]);
                        }
                    }
                }
                return true;
            }
            i += 1;
        }
        false
    }

    /// The newest frame kept.
    pub fn latest(&self) -> (r: Option<&Frame>)
        requires
            self.wf(),
        ensures
            match r {
                Some(f) => self.frames_kept().len() > 0 && f@ == self.frames_kept().last(),
                None => self.frames_kept().len() == 0,
            },
    {
        let n = self.ring.len();
        if n == 0 {
            None
        } else {
            Some(&self.ring[n - 1])
        }
    }

    /// The kept frame with index `index`.
    pub fn frame(&self, index: u64) -> (r: Option<&Frame>)
        requires
            self.wf(),
        ensures
            match r {
                Some(f) => find_frame(self.frames_kept(), index) matches Some(i) && f@ == self.frames_kept()[i],
                None => find_frame(self.frames_kept(), index) is None,
            },
    {
        let ghost views = frame_views(self.ring@);
        let mut i: usize = 0;
        while i < self.ring.len()
            invariant
                self.wf(),
                views == frame_views(self.ring@),
                i <= self.ring@.len(),
                forall|j: int| 0 <= j < i ==> (#[trigger] views[j]).index != index,
            decreases self.ring@.len() - i,
        {
            if self.ring[i].index == index {
                proof {
                    assert(views[i as int].index == index);
                    let q = find_frame(views, index)->Some_0;
                    assert(views[q].index == self.ring@[q].index);
                    assert(q == i);
                }
                return Some(&self.ring[i]);
            }
            i += 1;
        }
        None
    }

    /// The frames kept, oldest first.
    pub fn frames(&self) -> (r: &VecDeque<Frame>)
        ensures
            frame_views(r@) == self.frames_kept(),
    {
        &self.ring
    }
}

impl Default for Profiler {
    /// A profiler keeping the last `HISTORY` frames.
    fn default() -> (r: Self)
        ensures
            r.wf(),
            r.frames_kept() == Seq::<FrameView>::empty(),
            r.next() == 0,
            r.limit() == HISTORY,
    {
        Profiler::new(HISTORY)
    }
}

/// The indices of the newest `min(closed, limit)` of `closed` frames, oldest
/// first.
pub open spec fn newest(closed: int, limit: int) -> Seq<int> {
    let kept = if closed < limit {
        closed
    } else {
        limit
    };
    Seq::new(kept as nat, |i: int| closed - kept + i)
}

/// The frames a profiler keeps are the newest it closed: after `next()`
/// frame ends it keeps `min(next(), limit())` of them, with `limit()` at
/// least one, and their indices run from `next() - min(next(), limit())`
/// up to `next() - 1`, oldest first and one apart. The ring evicts its
/// oldest frame and never reorders. Since `new(c)` starts at `next() == 0`
/// with `limit() == max(c, 1)`, each `end_frame` adds one to `next()`, and
/// filing GPU spans changes neither, after `k` frame ends the indices kept
/// are `newest(k, max(c, 1))`.
pub proof fn lemma_kept_indices(p: &Profiler)
    requires
        p.wf(),
    ensures
        p.limit() >= 1,
        p.frames_kept().len() == if p.next() < p.limit() {
            p.next() as int
        } else {
            p.limit()
        },
        forall|i: int|
            0 <= i < p.frames_kept().len() ==> (#[trigger] p.frames_kept()[i]).index == p.next()
                - p.frames_kept().len() + i,
        p.frames_kept().map_values(|f: FrameView| f.index as int) == newest(p.next() as int, p.limit()),
{
    assert(p.frames_kept().map_values(|f: FrameView| f.index as int) =~= newest(p.next() as int, p.limit()));
}

// ---------------------------------------------------------------------------
// The phase table
// ---------------------------------------------------------------------------

/// One line of the phase table, in nanoseconds: a name's cost across the
/// retained window.
#[derive(Clone, Copy, Debug)]
pub struct RowTotals {
    pub name: &'static str,
    /// The shallowest depth the name was seen at.
    pub depth: u16,
    /// Cost in the most recent frame that carries spans in the lane.
    pub last_ns: u64,
    /// Cost summed over every frame kept.
    pub total_ns: u64,
    /// Highest cost in any one frame.
    pub max_ns: u64,
    /// Times the name was entered in that most recent frame.
    pub calls: usize,
}

/// A row as a value.
pub struct RowView {
    pub name: Seq<char>,
    pub depth: u16,
    pub last_ns: u64,
    pub total_ns: u64,
    pub max_ns: u64,
    pub calls: nat,
}

pub open spec fn row_view(r: RowTotals) -> RowView {
    RowView {
        name: r.name@,
        depth: r.depth,
        last_ns: r.last_ns,
        total_ns: r.total_ns,
        max_ns: r.max_ns,
        calls: r.calls as nat,
    }
}

pub open spec fn lane_spans(f: FrameView, lane: Lane) -> Seq<Span> {
    match lane {
        Lane::Cpu => f.cpu,
        Lane::Gpu => f.gpu,
    }
}

/// Addition that stops at the largest `u64`.
pub open spec fn sat_add(a: u64, b: u64) -> u64 {
    if a + b > u64::MAX {
        u64::MAX
    } else {
        (a + b) as u64
    }
}

pub open spec fn span_ns(s: Span) -> u64 {
    if s.end_ns >= s.start_ns {
        (s.end_ns - s.start_ns) as u64
    } else {
        0
    }
}

/// The lane's spans of every frame, oldest first.
pub open spec fn all_spans(frames: Seq<FrameView>, lane: Lane) -> Seq<Span>
    decreases frames.len(),
{
    if frames.len() == 0 {
        Seq::empty()
    } else {
        all_spans(frames.drop_last(), lane) + lane_spans(frames.last(), lane)
    }
}

/// What the spans named `name` cost together.
pub open spec fn name_ns(spans: Seq<Span>, name: Seq<char>) -> u64
    decreases spans.len(),
{
    if spans.len() == 0 {
        0
    } else {
        let prev = name_ns(spans.drop_last(), name);
        if spans.last().name@ == name {
            sat_add(prev, span_ns(spans.last()))
        } else {
            prev
        }
    }
}

/// How many of the spans are named `name`.
pub open spec fn name_calls(spans: Seq<Span>, name: Seq<char>) -> nat
    decreases spans.len(),
{
    if spans.len() == 0 {
        0
    } else {
        name_calls(spans.drop_last(), name) + if spans.last().name@ == name {
            1nat
        } else {
            0
        }
    }
}

/// The shallowest depth among the spans named `name`, starting from `d`.
pub open spec fn name_depth(spans: Seq<Span>, name: Seq<char>, d: u16) -> u16
    decreases spans.len(),
{
    if spans.len() == 0 {
        d
    } else {
        let prev = name_depth(spans.drop_last(), name, d);
        if spans.last().name@ == name && spans.last().depth < prev {
            spans.last().depth
        } else {
            prev
        }
    }
}

/// The highest cost of `name` in any one of the frames.
pub open spec fn name_max(frames: Seq<FrameView>, lane: Lane, name: Seq<char>) -> u64
    decreases frames.len(),
{
    if frames.len() == 0 {
        0
    } else {
        let prev = name_max(frames.drop_last(), lane, name);
        let here = name_ns(lane_spans(frames.last(), lane), name);
        if here > prev {
            here
        } else {
            prev
        }
    }
}

/// The distinct names among `spans`, in order of first appearance.
pub open spec fn names_seen(spans: Seq<Span>) -> Seq<Seq<char>>
    decreases spans.len(),
{
    if spans.len() == 0 {
        Seq::empty()
    } else {
        let prev = names_seen(spans.drop_last());
        if prev.contains(spans.last().name@) {
            prev
        } else {
            prev.push(spans.last().name@)
        }
    }
}

/// The newest frame with spans in the lane.
pub open spec fn latest_populated(frames: Seq<FrameView>, lane: Lane) -> Option<int>
    decreases frames.len(),
{
    if frames.len() == 0 {
        None
    } else if lane_spans(frames.last(), lane).len() > 0 {
        Some(frames.len() - 1)
    } else {
        latest_populated(frames.drop_last(), lane)
    }
}

/// How many frames carry spans in the lane.
pub open spec fn populated(frames: Seq<FrameView>, lane: Lane) -> nat
    decreases frames.len(),
{
    if frames.len() == 0 {
        0
    } else {
        populated(frames.drop_last(), lane) + if lane_spans(frames.last(), lane).len() > 0 {
            1nat
        } else {
            0
        }
    }
}

/// The row for `name` over `frames`, before ordering.
pub open spec fn row_for(frames: Seq<FrameView>, lane: Lane, name: Seq<char>) -> RowView {
    let latest = latest_populated(frames, lane);
    RowView {
        name,
        depth: name_depth(all_spans(frames, lane), name, u16::MAX),
        last_ns: match latest {
            Some(i) => name_ns(lane_spans(frames[i], lane), name),
            None => 0,
        },
        total_ns: name_ns(all_spans(frames, lane), name),
        max_ns: name_max(frames, lane, name),
        calls: match latest {
            Some(i) => name_calls(lane_spans(frames[i], lane), name),
            None => 0,
        },
    }
}

/// Inserts `x` after every row that cost at least as much last frame.
pub open spec fn insert_by_last(sorted: Seq<RowView>, x: RowView) -> Seq<RowView>
    decreases sorted.len(),
{
    if sorted.len() == 0 {
        seq![x]
    } else if sorted.last().last_ns >= x.last_ns {
        sorted.push(x)
    } else {
        insert_by_last(sorted.drop_last(), x).push(sorted.last())
    }
}

/// `rows` ordered slowest last frame first, ties kept in the order given.
pub open spec fn by_last(rows: Seq<RowView>) -> Seq<RowView>
    decreases rows.len(),
{
    if rows.len() == 0 {
        Seq::empty()
    } else {
        insert_by_last(by_last(rows.drop_last()), rows.last())
    }
}

/// The phase table of `frames`: a row per name seen in the lane, ordered
/// slowest last frame first.
pub open spec fn phase_table(frames: Seq<FrameView>, lane: Lane) -> Seq<RowView> {
    by_last(names_seen(all_spans(frames, lane)).map_values(|n: Seq<char>| row_for(frames, lane, n)))
}

pub open spec fn row_views(rows: Seq<RowTotals>) -> Seq<RowView> {
    rows.map_values(|r: RowTotals| row_view(r))
}

pub open spec fn name_views(names: Seq<&'static str>) -> Seq<Seq<char>> {
    names.map_values(|n: &'static str| n@)
}

proof fn lemma_all_spans_step(frames: Seq<FrameView>, lane: Lane, i: int)
    requires
        0 <= i < frames.len(),
    ensures
        all_spans(frames.take(i + 1), lane) == all_spans(frames.take(i), lane) + lane_spans(frames[i], lane),
{
    assert(frames.take(i + 1).drop_last() =~= frames.take(i));
}

fn contains_name(names: &Vec<&'static str>, name: &'static str) -> (r: bool)
    ensures
        r == name_views(names@).contains(name@),
{
    let mut k: usize = 0;
    while k < names.len()
        invariant
            k <= names@.len(),
            forall|m: int| 0 <= m < k ==> names@[m]@ != name@,
        decreases names@.len() - k,
    {
        if str_eq(names[k], name) {
            assert(name_views(names@)[k as int] == name@);
            return true;
        }
        k += 1;
    }
    proof {
        if name_views(names@).contains(name@) {
            let m = choose|m: int| 0 <= m < name_views(names@).len() && name_views(names@)[m] == name@;
            assert(names@[m]@ == name@);
        }
    }
    false
}

fn add_saturating(a: u64, b: u64) -> (r: u64)
    ensures
        r == sat_add(a, b),
{
    a.saturating_add(b)
}

/// Inserts `x` into `sorted` after every row that cost at least as much.
fn insert_row(sorted: &mut Vec<RowTotals>, x: RowTotals)
    ensures
        row_views(final(sorted)@) == insert_by_last(row_views(old(sorted)@), row_view(x)),
{
    let ghost start = row_views(sorted@);
    let mut moved: Vec<RowTotals> = Vec::new();
    while sorted.len() > 0 && sorted[sorted.len() - 1].last_ns < x.last_ns
        invariant
            insert_by_last(start, row_view(x)) == insert_by_last(row_views(sorted@), row_view(x)) + row_views(
                moved@,
            ).reverse(),
        decreases sorted.len(),
    {
        let ghost before = sorted@;
        let e = sorted.pop().unwrap();
        proof {
            assert(row_views(before).drop_last() =~= row_views(sorted@));
            assert(row_views(before).last() == row_view(e));
            assert(row_views(moved@.push(e)).reverse() =~= seq![row_view(e)] + row_views(moved@).reverse());
        }
        moved.push(e);
    }
    proof {
        assert(insert_by_last(row_views(sorted@), row_view(x)) =~= row_views(sorted@).push(row_view(x)));
    }
    sorted.push(x);
    proof {
        assert(row_views(sorted@) =~= insert_by_last(row_views(old(sorted)@), row_view(x)).take(sorted@.len() as int)) by {
            assert(row_views(sorted@) =~= insert_by_last(row_views(sorted@).drop_last(), row_view(x)));
        }
    }
    while moved.len() > 0
        invariant
            insert_by_last(start, row_view(x)) == row_views(sorted@) + row_views(moved@).reverse(),
        decreases moved.len(),
    {
        let ghost before = moved@;
        let e = moved.pop().unwrap();
        proof {
            assert(row_views(before).reverse() =~= seq![row_view(e)] + row_views(moved@).reverse());
        }
        sorted.push(e);
        proof {
            assert(row_views(sorted@) =~= row_views(sorted@).drop_last().push(row_view(e)));
        }
    }
    proof {
        assert(row_views(moved@).reverse() =~= Seq::<RowView>::empty());
    }
}

impl Profiler {
    /// The distinct span names of the lane, in order of first appearance.
    fn lane_names(&self, lane: Lane) -> (r: Vec<&'static str>)
        requires
            self.wf(),
        ensures
            name_views(r@) == names_seen(all_spans(self.frames_kept(), lane)),
    {
        let ghost frames = self.frames_kept();
        let mut names: Vec<&'static str> = Vec::new();
        let mut i: usize = 0;
        while i < self.ring.len()
            invariant
                frames == frame_views(self.ring@),
                i <= frames.len(),
                name_views(names@) == names_seen(all_spans(frames.take(i as int), lane)),
            decreases frames.len() - i,
        {
            let spans = self.ring[i].lane(lane);
            let ghost here = lane_spans(frames[i as int], lane);
            assert(spans@ == here);
            let mut j: usize = 0;
            while j < spans.len()
                invariant
                    spans@ == here,
                    j <= here.len(),
                    name_views(names@) == names_seen(all_spans(frames.take(i as int), lane) + here.take(j as int)),
                decreases here.len() - j,
            {
                let name = spans[j].name;
                let ghost prefix = all_spans(frames.take(i as int), lane) + here.take(j as int);
                proof {
                    assert((all_spans(frames.take(i as int), lane) + here.take(j + 1)).drop_last() =~= prefix);
                }
                if !contains_name(&names, name) {
                    names.push(name);
                    proof {
                        assert(name_views(names@) =~= name_views(names@).drop_last().push(name@));
                    }
                }
                j += 1;
            }
            proof {
                assert(here.take(here.len() as int) =~= here);
                lemma_all_spans_step(frames, lane, i as int);
            }
            i += 1;
        }
        proof {
            assert(frames.take(frames.len() as int) =~= frames);
        }
        names
    }

    /// How many kept frames carry spans in the lane: the denominator of the
    /// average cost per frame.
    pub fn populated_frames(&self, lane: Lane) -> (r: usize)
        requires
            self.wf(),
        ensures
            r == populated(self.frames_kept(), lane),
    {
        let ghost frames = self.frames_kept();
        let mut count: usize = 0;
        let mut i: usize = 0;
        while i < self.ring.len()
            invariant
                frames == frame_views(self.ring@),
                i <= frames.len(),
                count == populated(frames.take(i as int), lane),
                count <= i,
            decreases frames.len() - i,
        {
            proof {
                assert(frames.take(i + 1).drop_last() =~= frames.take(i as int));
            }
            if self.ring[i].lane(lane).len() > 0 {
                count += 1;
            }
            i += 1;
        }
        proof {
            assert(frames.take(frames.len() as int) =~= frames);
        }
        count
    }

    /// The row of the phase table for `name`.
    fn row_of(&self, lane: Lane, name: &'static str) -> (r: RowTotals)
        requires
            self.wf(),
        ensures
            row_view(r) == row_for(self.frames_kept(), lane, name@),
    {
        let ghost frames = self.frames_kept();
        let ghost n = name@;
        let mut total: u64 = 0;
        let mut max: u64 = 0;
        let mut depth: u16 = u16::MAX;
        let mut latest: Option<usize> = None;
        let mut i: usize = 0;
        while i < self.ring.len()
            invariant
                frames == frame_views(self.ring@),
                n == name@,
                i <= frames.len(),
                total == name_ns(all_spans(frames.take(i as int), lane), n),
                depth == name_depth(all_spans(frames.take(i as int), lane), n, u16::MAX),
                max == name_max(frames.take(i as int), lane, n),
                latest == match latest_populated(frames.take(i as int), lane) {
                    Some(l) => Some(l as usize),
                    None => None::<usize>,
                },
                latest_populated(frames.take(i as int), lane) matches Some(l) ==> 0 <= l < i,
            decreases frames.len() - i,
        {
            let spans = self.ring[i].lane(lane);
            let ghost here = lane_spans(frames[i as int], lane);
            let ghost before = all_spans(frames.take(i as int), lane);
            assert(spans@ == here);
            let mut here_ns: u64 = 0;
            let mut j: usize = 0;
            while j < spans.len()
                invariant
                    spans@ == here,
                    n == name@,
                    j <= here.len(),
                    total == name_ns(before + here.take(j as int), n),
                    depth == name_depth(before + here.take(j as int), n, u16::MAX),
                    here_ns == name_ns(here.take(j as int), n),
                decreases here.len() - j,
            {
                let span = spans[j];
                proof {
                    assert((before + here.take(j + 1)).drop_last() =~= before + here.take(j as int));
                    assert(here.take(j + 1).drop_last() =~= here.take(j as int));
                }
                if str_eq(span.name, name) {
                    let d = span.duration_ns();
                    total = add_saturating(total, d);
                    here_ns = add_saturating(here_ns, d);
                    if span.depth < depth {
                        depth = span.depth;
                    }
                }
                j += 1;
            }
            proof {
                assert(here.take(here.len() as int) =~= here);
                lemma_all_spans_step(frames, lane, i as int);
                assert(frames.take(i + 1).drop_last() =~= frames.take(i as int));
            }
            if here_ns > max {
                max = here_ns;
            }
            if spans.len() > 0 {
                latest = Some(i);
            }
            i += 1;
        }
        proof {
            assert(frames.take(frames.len() as int) =~= frames);
        }
        let mut last_ns: u64 = 0;
        let mut calls: usize = 0;
        if let Some(l) = latest {
            let spans = self.ring[l].lane(lane);
            let ghost here = lane_spans(frames[l as int], lane);
            assert(spans@ == here);
            let mut j: usize = 0;
            while j < spans.len()
                invariant
                    spans@ == here,
                    n == name@,
                    j <= here.len(),
                    last_ns == name_ns(here.take(j as int), n),
                    calls == name_calls(here.take(j as int), n),
                    calls <= j,
                decreases here.len() - j,
            {
                proof {
                    assert(here.take(j + 1).drop_last() =~= here.take(j as int));
                }
                if str_eq(spans[j].name, name) {
                    last_ns = add_saturating(last_ns, spans[j].duration_ns());
                    calls += 1;
                }
                j += 1;
            }
            proof {
                assert(here.take(here.len() as int) =~= here);
            }
        }
        RowTotals { name, depth, last_ns, total_ns: total, max_ns: max, calls }
    }

    /// The phase table of a lane, in nanoseconds: a row per name the lane's
    /// spans carry, slowest in the latest frame first, and how many frames
    /// carry spans in the lane.
    ///
    /// A name appearing several times in one frame is summed within that
    /// frame, so a row reads as cost per frame rather than per call. "Latest"
    /// means the newest frame that carries spans in the lane: GPU spans arrive
    /// a frame or more late, so the newest frames have none yet.
    pub fn aggregate(&self, lane: Lane) -> (r: (Vec<RowTotals>, usize))
        requires
            self.wf(),
        ensures
            row_views(r.0@) == phase_table(self.frames_kept(), lane),
            r.1 == populated(self.frames_kept(), lane),
    {
        let ghost frames = self.frames_kept();
        let names = self.lane_names(lane);
        let ghost unsorted = names_seen(all_spans(frames, lane)).map_values(
            |n: Seq<char>| row_for(frames, lane, n),
        );
        let mut rows: Vec<RowTotals> = Vec::new();
        let mut k: usize = 0;
        while k < names.len()
            invariant
                self.wf(),
                frames == self.frames_kept(),
                name_views(names@) == names_seen(all_spans(frames, lane)),
                unsorted == names_seen(all_spans(frames, lane)).map_values(|n: Seq<char>| row_for(frames, lane, n)),
                k <= names@.len(),
                row_views(rows@) == by_last(unsorted.take(k as int)),
            decreases names@.len() - k,
        {
            let row = self.row_of(lane, names[k]);
            proof {
                assert(name_views(names@)[k as int] == names@[k as int]@);
                assert(unsorted[k as int] == row_view(row));
                assert(unsorted.take(k + 1).drop_last() =~= unsorted.take(k as int));
            }
            insert_row(&mut rows, row);
            k += 1;
        }
        proof {
            assert(unsorted.take(names@.len() as int) =~= unsorted);
        }
        (rows, self.populated_frames(lane))
    }
}

} // verus!
