//! Rendering: the frame graph and its compiler, the frame the engine declares
//! on it, bloom's chain length, per-pass GPU timing, and how a pass's draw
//! order splits into instanced runs.

pub mod bloom;
pub mod device;
pub mod dispatch;
pub mod frame;
pub mod frame_valid;
pub mod graph;
pub mod timestamps;

use vstd::prelude::*;

verus! {

pub const MAX_POINT_LIGHTS: usize = 16;

/// Size of the shader's bound texture array.
pub const MAX_TEXTURES: usize = 64;

/// The `u32` is the texture's index in the shader's array.
#[derive(Clone, Copy, Debug, PartialEq, Eq, Structural, Hash)]
pub struct TextureHandle(pub u32);

/// The handle the next loaded texture gets, `None` once the shader's array is
/// full: a material asking for it then samples the white default, handle 0,
/// rather than a slot the GPU cannot reach.
pub fn next_texture_handle(loaded: usize) -> (r: Option<TextureHandle>)
    ensures
        r is None <==> loaded >= MAX_TEXTURES,
        r matches Some(h) ==> h.0 == loaded,
{
    if loaded >= MAX_TEXTURES {
        None
    } else {
        Some(TextureHandle(loaded as u32))
    }
}

/// Colour maps are authored in sRGB, so the GPU decodes them to linear when
/// sampling; data maps (normals, metallic-roughness) are linear already.
pub fn texture_format(srgb: bool) -> (r: graph::flags::Format)
    ensures
        r == if srgb {
            graph::flags::Format::R8G8B8A8_SRGB
        } else {
            graph::flags::Format::R8G8B8A8_UNORM
        },
{
    if srgb {
        graph::flags::Format::R8G8B8A8_SRGB
    } else {
        graph::flags::Format::R8G8B8A8_UNORM
    }
}

/// What groups items into one instanced draw: their mesh and their material.
pub type RunKey = (u32, u32);

/// One pass's draw order over a shared item array, the items known by their
/// run keys. Every list a frame draws is an ordering of indices into the one
/// array, so widening a list costs an index rather than an item.
#[derive(Clone, Copy)]
pub struct DrawList<'a> {
    pub keys: &'a [RunKey],
    pub order: &'a [u32],
}

/// Where the run starting at `i` of `ks` ends: the first position whose key
/// differs from its predecessor's.
pub open spec fn run_end(ks: Seq<RunKey>, i: int) -> int
    decreases ks.len() - i,
{
    if i + 1 >= ks.len() || ks[i + 1] != ks[i] {
        i + 1
    } else {
        run_end(ks, i + 1)
    }
}

/// The maximal runs of equal keys in `ks` from position `i` on.
pub open spec fn runs_from(ks: Seq<RunKey>, i: int) -> Seq<(int, int)>
    decreases ks.len() - i,
{
    if i < 0 || i >= ks.len() {
        Seq::empty()
    } else {
        let e = run_end(ks, i);
        proof {
            lemma_run_end(ks, i);
        }
        seq![(i, e)] + runs_from(ks, e)
    }
}

pub proof fn lemma_run_end(ks: Seq<RunKey>, i: int)
    requires
        0 <= i < ks.len(),
    ensures
        i < run_end(ks, i) <= ks.len(),
        forall|j: int| i <= j < run_end(ks, i) ==> ks[j] == ks[i],
        run_end(ks, i) < ks.len() ==> ks[run_end(ks, i)] != ks[run_end(ks, i) - 1],
    decreases ks.len() - i,
{
    if i + 1 < ks.len() && ks[i + 1] == ks[i] {
        lemma_run_end(ks, i + 1);
    }
}

fn same_key(a: RunKey, b: RunKey) -> (r: bool)
    ensures
        r == (a == b),
{
    a.0 == b.0 && a.1 == b.1
}

impl<'a> DrawList<'a> {
    pub fn new(keys: &'a [RunKey], order: &'a [u32]) -> (r: Self)
        ensures
            r.keys@ == keys@,
            r.order@ == order@,
    {
        DrawList { keys, order }
    }

    pub fn len(&self) -> (r: usize)
        ensures
            r == self.order@.len(),
    {
        self.order.len()
    }

    pub fn is_empty(&self) -> (r: bool)
        ensures
            r == (self.order@.len() == 0),
    {
        self.order.len() == 0
    }

    /// Every position of the order names an item.
    pub open spec fn wf(&self) -> bool {
        forall|i: int| 0 <= i < self.order@.len() ==> (#[trigger] self.order@[i]) < self.keys@.len()
    }

    /// The keys in draw order.
    pub open spec fn ordered_keys(&self) -> Seq<RunKey> {
        self.order@.map_values(|i: u32| self.keys@[i as int])
    }

    /// The key of the item at position `i` in the draw order.
    pub fn key(&self, i: usize) -> (r: RunKey)
        requires
            self.wf(),
            i < self.order@.len(),
        ensures
            r == self.ordered_keys()[i as int],
    {
        self.keys[self.order[i] as usize]
    }

    /// Splits the order into maximal runs sharing a mesh and material, each
    /// as the range of positions it covers. An ungrouped order still yields
    /// valid runs, only short ones.
    pub fn runs(&self) -> (r: Vec<(usize, usize)>)
        requires
            self.wf(),
        ensures
            r@.len() == runs_from(self.ordered_keys(), 0).len(),
            forall|k: int|
                0 <= k < r@.len() ==> (#[trigger] r@[k]).0 == runs_from(self.ordered_keys(), 0)[k].0 && r@[k].1
                    == runs_from(self.ordered_keys(), 0)[k].1,
    {
        let ghost ks = self.ordered_keys();
        let n = self.order.len();
        let mut r: Vec<(usize, usize)> = Vec::new();
        let mut start: usize = 0;
        while start < n
            invariant
                self.wf(),
                ks == self.ordered_keys(),
                n == ks.len(),
                start <= n,
                r@.len() + runs_from(ks, start as int).len() == runs_from(ks, 0).len(),
                forall|k: int|
                    0 <= k < r@.len() ==> (#[trigger] r@[k]).0 == runs_from(ks, 0)[k].0 && r@[k].1 == runs_from(
                        ks,
                        0,
                    )[k].1,
                forall|k: int|
                    0 <= k < runs_from(ks, start as int).len() ==> runs_from(ks, 0)[r@.len() + k]
                        == #[trigger] runs_from(ks, start as int)[k],
            decreases n - start,
        {
            let key = self.key(start);
            let mut end = start + 1;
            while end < n && same_key(self.key(end), key)
                invariant
                    self.wf(),
                    ks == self.ordered_keys(),
                    n == ks.len(),
                    start < end <= n,
                    key == ks[start as int],
                    forall|j: int| start <= j < end ==> ks[j] == key,
                    run_end(ks, start as int) == run_end(ks, end - 1),
                decreases n - end,
            {
                end += 1;
            }
            proof {
                lemma_run_end(ks, start as int);
                assert(runs_from(ks, start as int)[0] == (start as int, end as int));
                assert forall|k: int| 0 <= k < runs_from(ks, end as int).len() implies runs_from(ks, 0)[r@.len() + 1 + k]
                    == #[trigger] runs_from(ks, end as int)[k] by {
                    assert(runs_from(ks, start as int)[k + 1] == runs_from(ks, end as int)[k]);
                }
            }
            r.push((start, end));
            start = end;
        }
        r
    }
}

/// The runs of an order cover it exactly: they start at the beginning, each
/// begins where the last ended, each is non-empty, the last ends at the end;
/// every item of a run shares its key; and two neighbouring runs differ in
/// key, so no run could be longer.
pub proof fn lemma_runs_partition(ks: Seq<RunKey>, i: int)
    requires
        0 <= i <= ks.len(),
    ensures
        ({
            let runs = runs_from(ks, i);
            &&& i < ks.len() ==> runs.len() > 0 && runs[0].0 == i
            &&& i == ks.len() ==> runs.len() == 0
            &&& runs.len() > 0 ==> runs.last().1 == ks.len()
            &&& forall|k: int| 0 <= k < runs.len() ==> (#[trigger] runs[k]).0 < runs[k].1
            &&& forall|k: int| 0 <= k < runs.len() - 1 ==> (#[trigger] runs[k]).1 == runs[k + 1].0
            &&& forall|k: int| 0 <= k < runs.len() ==> (#[trigger] runs[k]).1 <= ks.len()
            &&& forall|k: int, j: int|
                #![trigger runs[k], ks[j]]
                0 <= k < runs.len() && runs[k].0 <= j < runs[k].1 ==> ks[j] == ks[runs[k].0]
            &&& forall|k: int| 0 <= k < runs.len() - 1 ==> ks[(#[trigger] runs[k]).1] != ks[runs[k].1 - 1]
        }),
    decreases ks.len() - i,
{
    if i < ks.len() {
        lemma_run_end(ks, i);
        let e = run_end(ks, i);
        lemma_runs_partition(ks, e);
        let runs = runs_from(ks, i);
        let rest = runs_from(ks, e);
        assert(runs == seq![(i, e)] + rest);
        assert forall|k: int| 0 <= k < runs.len() - 1 implies (#[trigger] runs[k]).1 == runs[k + 1].0 by {
            if k > 0 {
                assert(runs[k] == rest[k - 1]);
                assert(runs[k + 1] == rest[k]);
            }
        }
        assert forall|k: int| 0 <= k < runs.len() - 1 implies ks[(#[trigger] runs[k]).1] != ks[runs[k].1 - 1] by {
            if k > 0 {
                assert(runs[k] == rest[k - 1]);
            }
        }
        assert forall|k: int| 0 <= k < runs.len() implies (#[trigger] runs[k]).1 <= ks.len() by {
            if k > 0 {
                assert(runs[k] == rest[k - 1]);
            }
        }
        assert forall|k: int, j: int|
            #![trigger runs[k], ks[j]]
            0 <= k < runs.len() && runs[k].0 <= j < runs[k].1 implies ks[j] == ks[runs[k].0] by {
            if k > 0 {
                assert(runs[k] == rest[k - 1]);
            }
        }
    }
}

/// The rows the first `n` caster lists add to the object upload.
pub open spec fn caster_rows(casters: Seq<DrawList>, n: int) -> int
    decreases n,
{
    if n <= 0 {
        0
    } else {
        caster_rows(casters, n - 1) + casters[n - 1].order@.len()
    }
}

proof fn lemma_caster_rows_grow(casters: Seq<DrawList>, m: int, n: int)
    requires
        0 <= m <= n,
    ensures
        caster_rows(casters, m) <= caster_rows(casters, n),
    decreases n - m,
{
    if m < n {
        lemma_caster_rows_grow(casters, m, n - 1);
    }
}

/// Where each list's rows sit in the one object upload every geometry pass
/// of a frame reads.
#[derive(Clone, Copy, Debug)]
pub struct ObjectLayout {
    /// Rows written: the visible items, then every cascade's casters.
    pub rows: usize,
    /// The row each cascade's casters start at; the camera-visible items
    /// start at row zero, so the screen-space passes index from there.
    pub bases: [u32; frame::MAX_CASCADES],
}

impl ObjectLayout {
    /// Rows to allocate: an empty scene still needs a buffer to bind, so
    /// never fewer than one.
    pub fn slots(&self) -> (r: usize)
        ensures
            r == if self.rows == 0 {
                1
            } else {
                self.rows
            },
    {
        if self.rows == 0 {
            1
        } else {
            self.rows
        }
    }
}

/// Lays out the object upload: the visible items first, then each cascade's
/// casters in turn, recording where each cascade starts. Cascades past the
/// lists given start at zero.
pub fn object_layout(visible: DrawList<'_>, casters: &[DrawList<'_>]) -> (r: ObjectLayout)
    requires
        visible.order@.len() + caster_rows(casters@, casters@.len() as int) <= usize::MAX,
    ensures
        r.rows == visible.order@.len() + caster_rows(casters@, casters@.len() as int),
        forall|i: int|
            0 <= i < frame::MAX_CASCADES ==> r.bases[i] == if i < casters@.len() {
                (visible.order@.len() + caster_rows(casters@, i)) as u32
            } else {
                0u32
            },
{
    let mut bases: [u32; frame::MAX_CASCADES] = [0, 0, 0, 0];
    let mut next: usize = visible.len();
    let mut i: usize = 0;
    while i < casters.len()
        invariant
            i <= casters@.len(),
            next == visible.order@.len() + caster_rows(casters@, i as int),
            visible.order@.len() + caster_rows(casters@, casters@.len() as int) <= usize::MAX,
            forall|j: int|
                0 <= j < frame::MAX_CASCADES ==> bases[j] == if j < i && j < casters@.len() {
                    (visible.order@.len() + caster_rows(casters@, j)) as u32
                } else {
                    0u32
                },
        decreases casters.len() - i,
    {
        proof {
            lemma_caster_rows_grow(casters@, i + 1, casters@.len() as int);
        }
        if i < frame::MAX_CASCADES {
            bases[i] = next as u32;
        }
        next = next + casters[i].len();
        i += 1;
    }
    ObjectLayout { rows: next, bases }
}

} // verus!
