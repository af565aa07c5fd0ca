//! How a flag set reads in the barrier plan: the names of the flags it
//! carries, in table order, joined by `|`; `<unnamed>` for any bit the table
//! has never heard of, so a hole in the golden plan is visible; `-` for none.

use vstd::prelude::*;

use super::flags::{contains_flags, AccessFlags, PipelineStages};

verus! {

/// The names of the flags of `table`'s first `k` entries that `value`
/// carries, in table order.
pub open spec fn carried_names(value: u64, table: Seq<(u64, &'static str)>, k: int) -> Seq<Seq<char>>
    decreases k,
{
    if k <= 0 {
        Seq::empty()
    } else {
        let prior = carried_names(value, table, k - 1);
        if contains_flags(value, table[k - 1].0) {
            prior.push(table[k - 1].1@)
        } else {
            prior
        }
    }
}

/// The bits of `value` that none of `table`'s first `k` carried flags cover.
pub open spec fn leftover(value: u64, table: Seq<(u64, &'static str)>, k: int) -> u64
    decreases k,
{
    if k <= 0 {
        value
    } else {
        let prior = leftover(value, table, k - 1);
        if contains_flags(value, table[k - 1].0) {
            prior & !table[k - 1].0
        } else {
            prior
        }
    }
}

/// `parts` joined by `|`.
pub open spec fn joined(parts: Seq<Seq<char>>) -> Seq<char>
    decreases parts.len(),
{
    if parts.len() == 0 {
        Seq::empty()
    } else if parts.len() == 1 {
        parts[0]
    } else {
        joined(parts.drop_last()) + seq!['|'] + parts.last()
    }
}

/// How `value` reads against `table`.
pub open spec fn flag_text(value: u64, table: Seq<(u64, &'static str)>) -> Seq<char> {
    let named = carried_names(value, table, table.len() as int);
    let parts = if leftover(value, table, table.len() as int) != 0 {
        named.push("<unnamed>"@)
    } else {
        named
    };
    if parts.len() == 0 {
        "-"@
    } else {
        joined(parts)
    }
}

proof fn lemma_joined_push(parts: Seq<Seq<char>>, part: Seq<char>)
    ensures
        joined(parts.push(part)) == if parts.len() == 0 {
            part
        } else {
            joined(parts) + seq!['|'] + part
        },
{
    assert(parts.push(part).drop_last() =~= parts);
    if parts.len() == 0 {
        assert(parts.push(part)[0] == part);
    }
}

/// How `value` reads against `table`.
pub fn flag_text_of(value: u64, table: &[(u64, &'static str)]) -> (r: String)
    ensures
        r@ == flag_text(value, table@),
{
    let mut out = String::new();
    let mut count: usize = 0;
    let mut rest = value;
    let ghost mut parts: Seq<Seq<char>> = Seq::empty();
    proof {
        reveal_strlit("|");
    }
    let mut k: usize = 0;
    while k < table.len()
        invariant
            k <= table@.len(),
            parts == carried_names(value, table@, k as int),
            count == parts.len(),
            count <= k,
            out@ == joined(parts),
            rest == leftover(value, table@, k as int),
            "|"@ == seq!['|'],
        decreases table@.len() - k,
    {
        let (flag, name) = table[k];
        if value & flag == flag {
            proof {
                lemma_joined_push(parts, name@);
            }
            if count > 0 {
                out.append("|");
            }
            out.append(name);
            rest = rest & !flag;
            count += 1;
            proof {
                parts = parts.push(name@);
                assert(out@ =~= joined(parts));
            }
        }
        k += 1;
    }
    if rest != 0 {
        proof {
            lemma_joined_push(parts, "<unnamed>"@);
        }
        if count > 0 {
            out.append("|");
        }
        out.append("<unnamed>");
        proof {
            parts = parts.push("<unnamed>"@);
            assert(out@ =~= joined(parts));
        }
        return out;
    }
    if count == 0 {
        return String::from_str("-");
    }
    out
}

/// The pipeline stages the plan names, in the order it names them.
pub open spec fn stage_table() -> Seq<(u64, &'static str)> {
    seq![
        (PipelineStages::TOP_OF_PIPE, "TopOfPipe"),
        (PipelineStages::DRAW_INDIRECT, "DrawIndirect"),
        (PipelineStages::VERTEX_INPUT, "VertexInput"),
        (PipelineStages::VERTEX_SHADER, "VertexShader"),
        (PipelineStages::FRAGMENT_SHADER, "FragmentShader"),
        (PipelineStages::EARLY_FRAGMENT_TESTS, "EarlyFragmentTests"),
        (PipelineStages::LATE_FRAGMENT_TESTS, "LateFragmentTests"),
        (PipelineStages::COLOR_ATTACHMENT_OUTPUT, "ColorAttachmentOutput"),
        (PipelineStages::COMPUTE_SHADER, "ComputeShader"),
        (PipelineStages::ALL_TRANSFER, "AllTransfer"),
        (PipelineStages::BOTTOM_OF_PIPE, "BottomOfPipe"),
    ]
}

/// The accesses the plan names, in the order it names them.
pub open spec fn access_table() -> Seq<(u64, &'static str)> {
    seq![
        (AccessFlags::INDIRECT_COMMAND_READ, "IndirectCommandRead"),
        (AccessFlags::INDEX_READ, "IndexRead"),
        (AccessFlags::VERTEX_ATTRIBUTE_READ, "VertexAttributeRead"),
        (AccessFlags::UNIFORM_READ, "UniformRead"),
        (AccessFlags::SHADER_SAMPLED_READ, "ShaderSampledRead"),
        (AccessFlags::SHADER_STORAGE_READ, "ShaderStorageRead"),
        (AccessFlags::SHADER_STORAGE_WRITE, "ShaderStorageWrite"),
        (AccessFlags::COLOR_ATTACHMENT_READ, "ColorAttachmentRead"),
        (AccessFlags::COLOR_ATTACHMENT_WRITE, "ColorAttachmentWrite"),
        (AccessFlags::DEPTH_STENCIL_ATTACHMENT_READ, "DepthStencilAttachmentRead"),
        (AccessFlags::DEPTH_STENCIL_ATTACHMENT_WRITE, "DepthStencilAttachmentWrite"),
        (AccessFlags::TRANSFER_READ, "TransferRead"),
        (AccessFlags::TRANSFER_WRITE, "TransferWrite"),
    ]
}

/// How a set of pipeline stages reads in the plan.
pub fn stages(value: u64) -> (r: String)
    ensures
        r@ == flag_text(value, stage_table()),
{
    let table = [
        (PipelineStages::TOP_OF_PIPE, "TopOfPipe"),
        (PipelineStages::DRAW_INDIRECT, "DrawIndirect"),
        (PipelineStages::VERTEX_INPUT, "VertexInput"),
        (PipelineStages::VERTEX_SHADER, "VertexShader"),
        (PipelineStages::FRAGMENT_SHADER, "FragmentShader"),
        (PipelineStages::EARLY_FRAGMENT_TESTS, "EarlyFragmentTests"),
        (PipelineStages::LATE_FRAGMENT_TESTS, "LateFragmentTests"),
        (PipelineStages::COLOR_ATTACHMENT_OUTPUT, "ColorAttachmentOutput"),
        (PipelineStages::COMPUTE_SHADER, "ComputeShader"),
        (PipelineStages::ALL_TRANSFER, "AllTransfer"),
        (PipelineStages::BOTTOM_OF_PIPE, "BottomOfPipe"),
    ];
    assert(table@ =~= stage_table());
    flag_text_of(value, &table)
}

/// How a set of accesses reads in the plan.
pub fn access(value: u64) -> (r: String)
    ensures
        r@ == flag_text(value, access_table()),
{
    let table = [
        (AccessFlags::INDIRECT_COMMAND_READ, "IndirectCommandRead"),
        (AccessFlags::INDEX_READ, "IndexRead"),
        (AccessFlags::VERTEX_ATTRIBUTE_READ, "VertexAttributeRead"),
        (AccessFlags::UNIFORM_READ, "UniformRead"),
        (AccessFlags::SHADER_SAMPLED_READ, "ShaderSampledRead"),
        (AccessFlags::SHADER_STORAGE_READ, "ShaderStorageRead"),
        (AccessFlags::SHADER_STORAGE_WRITE, "ShaderStorageWrite"),
        (AccessFlags::COLOR_ATTACHMENT_READ, "ColorAttachmentRead"),
        (AccessFlags::COLOR_ATTACHMENT_WRITE, "ColorAttachmentWrite"),
        (AccessFlags::DEPTH_STENCIL_ATTACHMENT_READ, "DepthStencilAttachmentRead"),
        (AccessFlags::DEPTH_STENCIL_ATTACHMENT_WRITE, "DepthStencilAttachmentWrite"),
        (AccessFlags::TRANSFER_READ, "TransferRead"),
        (AccessFlags::TRANSFER_WRITE, "TransferWrite"),
    ];
    assert(table@ =~= access_table());
    flag_text_of(value, &table)
}

} // verus!
