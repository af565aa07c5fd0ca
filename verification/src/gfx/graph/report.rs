//! The compiled plan as text: each scheduled pass with the barriers before
//! it and what it declares, the closing barriers, and the culled passes.
//! This is what the frame inspector shows and what a golden test compares.

use vstd::prelude::*;

use crate::text::{decimal, decimal_text};

use super::builder::{ids_in_range, PassDecl, PassId};
use super::compile::FrameGraph;
use super::names::{access, access_table, flag_text, stage_table, stages};
use super::plan::Barrier;
use super::resource::{ResourceDecl, ResourceId};

verus! {

/// `n` written with at least two digits, zero-padded.
pub open spec fn two_digits(n: nat) -> Seq<char> {
    if n < 10 {
        seq!['0'] + decimal(n)
    } else {
        decimal(n)
    }
}

/// One barrier: the resource, the layout change when there is one, and the
/// stages and accesses on each side.
pub open spec fn barrier_line(resources: Seq<ResourceDecl>, b: Barrier) -> Seq<char> {
    "  ! "@ + resources[b.resource.0 as int].name@ + (if b.old_layout != b.new_layout {
        " "@ + b.old_layout.name()@ + "->"@ + b.new_layout.name()@
    } else {
        Seq::empty()
    }) + " src "@ + flag_text(b.src_stages, stage_table()) + "/"@ + flag_text(b.src_access, access_table())
        + " dst "@ + flag_text(b.dst_stages, stage_table()) + "/"@ + flag_text(b.dst_access, access_table())
        + "\n"@
}

pub open spec fn barrier_lines(resources: Seq<ResourceDecl>, bs: Seq<Barrier>) -> Seq<char>
    decreases bs.len(),
{
    if bs.len() == 0 {
        Seq::empty()
    } else {
        barrier_lines(resources, bs.drop_last()) + barrier_line(resources, bs.last())
    }
}

/// What a pass declares, one access to a line.
pub open spec fn access_lines(resources: Seq<ResourceDecl>, accs: Seq<(ResourceId, super::access::Access)>) -> Seq<
    char,
>
    decreases accs.len(),
{
    if accs.len() == 0 {
        Seq::empty()
    } else {
        access_lines(resources, accs.drop_last()) + "     "@ + resources[accs.last().0.0 as int].name@ + " "@
            + accs.last().1.name()@ + "\n"@
    }
}

/// The pass in slot `slot`: its header, the barriers before it, what it declares.
pub open spec fn slot_text(g: FrameGraph, slot: int) -> Seq<char> {
    let pass = g.pass_decls()[g.schedule()[slot].0 as int];
    two_digits(slot as nat) + " pass "@ + pass.name@ + " ["@ + pass.kind.name()@ + "]\n"@ + barrier_lines(
        g.resource_decls(),
        g.barrier_plan()[slot],
    ) + access_lines(g.resource_decls(), pass.accesses@)
}

pub open spec fn slots_text(g: FrameGraph, n: int) -> Seq<char>
    decreases n,
{
    if n <= 0 {
        Seq::empty()
    } else {
        slots_text(g, n - 1) + slot_text(g, n - 1)
    }
}

pub open spec fn culled_lines(g: FrameGraph, n: int) -> Seq<char>
    decreases n,
{
    if n <= 0 {
        Seq::empty()
    } else {
        culled_lines(g, n - 1) + "-- culled pass "@ + g.pass_decls()[g.culled_passes()[n - 1].0 as int].name@
            + "\n"@
    }
}

/// The whole plan.
pub open spec fn plan_text(g: FrameGraph) -> Seq<char> {
    slots_text(g, g.schedule().len() as int) + (if g.closing_barriers().len() > 0 {
        "-- end of frame\n"@ + barrier_lines(g.resource_decls(), g.closing_barriers())
    } else {
        Seq::empty()
    }) + culled_lines(g, g.culled_passes().len() as int)
}

/// Every id the graph holds names one of its resources or passes.
pub open spec fn names_its_own(g: FrameGraph) -> bool {
    &&& ids_in_range(g.resource_decls(), g.pass_decls())
    &&& g.barrier_plan().len() == g.schedule().len()
    &&& forall|i: int, j: int|
        0 <= i < g.barrier_plan().len() && 0 <= j < g.barrier_plan()[i].len() ==> (
        #[trigger] g.barrier_plan()[i][j]).resource.0 < g.resource_decls().len()
    &&& forall|j: int|
        0 <= j < g.closing_barriers().len() ==> (#[trigger] g.closing_barriers()[j]).resource.0
            < g.resource_decls().len()
    &&& forall|i: int| 0 <= i < g.schedule().len() ==> (#[trigger] g.schedule()[i]).0 < g.pass_decls().len()
    &&& forall|i: int|
        0 <= i < g.culled_passes().len() ==> (#[trigger] g.culled_passes()[i]).0 < g.pass_decls().len()
}

fn two_digits_text(n: usize) -> (r: String)
    ensures
        r@ == two_digits(n as nat),
{
    let digits = decimal_text(n);
    proof {
        reveal_strlit("0");
    }
    if n < 10 {
        String::from_str("0").concat(digits.as_str())
    } else {
        digits
    }
}

#[verifier::spinoff_prover]
#[verifier::rlimit(40)]
fn write_barrier(out: &mut String, g: &FrameGraph, b: &Barrier)
    requires
        b.resource.0 < g.resource_decls().len(),
    ensures
        final(out)@ == old(out)@ + barrier_line(g.resource_decls(), *b),
{
    out.append("  ! ");
    out.append(g.resource_name(b.resource));
    if b.is_transition() {
        out.append(" ");
        out.append(b.old_layout.name());
        out.append("->");
        out.append(b.new_layout.name());
    }
    out.append(" src ");
    out.append(stages(b.src_stages).as_str());
    out.append("/");
    out.append(access(b.src_access).as_str());
    out.append(" dst ");
    out.append(stages(b.dst_stages).as_str());
    out.append("/");
    out.append(access(b.dst_access).as_str());
    out.append("\n");
    proof {
        assert(final(out)@ =~= old(out)@ + barrier_line(g.resource_decls(), *b));
    }
}

fn write_barriers(out: &mut String, g: &FrameGraph, bs: &[Barrier])
    requires
        forall|j: int| 0 <= j < bs@.len() ==> (#[trigger] bs@[j]).resource.0 < g.resource_decls().len(),
    ensures
        final(out)@ == old(out)@ + barrier_lines(g.resource_decls(), bs@),
{
    let ghost start = out@;
    let mut i: usize = 0;
    while i < bs.len()
        invariant
            i <= bs@.len(),
            forall|j: int| 0 <= j < bs@.len() ==> (#[trigger] bs@[j]).resource.0 < g.resource_decls().len(),
            out@ == start + barrier_lines(g.resource_decls(), bs@.take(i as int)),
        decreases bs.len() - i,
    {
        write_barrier(out, g, &bs[i]);
        proof {
            assert(bs@.take(i + 1).drop_last() =~= bs@.take(i as int));
            assert(out@ =~= start + barrier_lines(g.resource_decls(), bs@.take(i + 1)));
        }
        i += 1;
    }
    proof {
        assert(bs@.take(i as int) =~= bs@);
    }
}

fn write_accesses(out: &mut String, g: &FrameGraph, pass: &PassDecl)
    requires
        forall|k: int| 0 <= k < pass.accesses@.len() ==> (#[trigger] pass.accesses@[k]).0.0 < g.resource_decls().len(),
    ensures
        final(out)@ == old(out)@ + access_lines(g.resource_decls(), pass.accesses@),
{
    let ghost start = out@;
    let ghost accs = pass.accesses@;
    let mut i: usize = 0;
    while i < pass.accesses.len()
        invariant
            i <= accs.len(),
            accs == pass.accesses@,
            forall|k: int| 0 <= k < accs.len() ==> (#[trigger] accs[k]).0.0 < g.resource_decls().len(),
            out@ == start + access_lines(g.resource_decls(), accs.take(i as int)),
        decreases accs.len() - i,
    {
        let (resource, declared) = pass.accesses[i];
        out.append("     ");
        out.append(g.resource_name(resource));
        out.append(" ");
        out.append(declared.name());
        out.append("\n");
        proof {
            assert(accs.take(i + 1).drop_last() =~= accs.take(i as int));
            assert(accs.take(i + 1).last() == (resource, declared));
            assert(out@ =~= start + access_lines(g.resource_decls(), accs.take(i + 1)));
        }
        i += 1;
    }
    proof {
        assert(accs.take(i as int) =~= accs);
    }
}

/// Writes the plan of `g`, whose ids all name its own resources and passes.
pub fn write_plan(g: &FrameGraph) -> (r: String)
    requires
        names_its_own(*g),
    ensures
        r@ == plan_text(*g),
{
    let mut out = String::new();
    let order = g.order();
    let mut slot: usize = 0;
    while slot < order.len()
        invariant
            names_its_own(*g),
            order@ == g.schedule(),
            slot <= order@.len(),
            out@ == slots_text(*g, slot as int),
        decreases order.len() - slot,
    {
        let id: PassId = order[slot];
        let pass = g.pass(id);
        let ghost before = out@;
        out.append(two_digits_text(slot).as_str());
        out.append(" pass ");
        out.append(pass.name);
        out.append(" [");
        out.append(pass.kind.name());
        out.append("]\n");
        write_barriers(&mut out, g, g.barriers_before(slot));
        proof {
            assert(pass.accesses@ == g.pass_decls()[id.0 as int].accesses@);
        }
        write_accesses(&mut out, g, pass);
        proof {
            assert(out@ =~= slots_text(*g, slot + 1));
        }
        slot += 1;
    }
    let closing = g.final_barriers();
    if closing.len() > 0 {
        out.append("-- end of frame\n");
        write_barriers(&mut out, g, closing);
    }
    let ghost middle = out@;
    let culled = g.culled();
    let mut i: usize = 0;
    while i < culled.len()
        invariant
            names_its_own(*g),
            culled@ == g.culled_passes(),
            i <= culled@.len(),
            out@ == middle + culled_lines(*g, i as int),
        decreases culled.len() - i,
    {
        out.append("-- culled pass ");
        out.append(g.pass(culled[i]).name);
        out.append("\n");
        proof {
            assert(out@ =~= middle + culled_lines(*g, i + 1));
        }
        i += 1;
    }
    proof {
        assert(out@ =~= plan_text(*g));
    }
    out
}

} // verus!
