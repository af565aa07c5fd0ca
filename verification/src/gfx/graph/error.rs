//! Why a graph cannot be compiled. Every variant names the pass and resource
//! involved, so a wrong declaration is a message rather than a race.

use vstd::prelude::*;

use super::access::Access;

verus! {

/// A list of names as `{:?}` prints it: bracketed, each quoted and escaped
/// as `str`'s `Debug` escapes, comma-separated. Named, not described: the
/// escapes follow Unicode's tables.
pub uninterp spec fn debug_list(names: Seq<Seq<char>>) -> Seq<char>;

/// std's `Debug` for a slice of names, as `format!("{:?}")` writes it.
#[verifier::external_body]
fn debug_names(names: &[&'static str]) -> (r: String)
    ensures
        r@ == debug_list(names@.map_values(|n: &'static str| n@)),
{
    format!("{names:?}")
}

#[derive(Clone, Debug, PartialEq, Eq)]
pub enum GraphError {
    DuplicateResource { name: &'static str },
    DuplicatePass { name: &'static str },
    /// One pass declared two accesses to the same resource. A pass is a single
    /// point in time, so the compiler cannot order them.
    ConflictingAccess {
        pass: &'static str,
        resource: &'static str,
        first: Access,
        second: Access,
    },
    /// A transient read by a pass that no writer precedes: it would sample
    /// undefined memory.
    ReadBeforeWrite { pass: &'static str, resource: &'static str },
    Cycle { passes: Vec<&'static str> },
    /// A pass recorded into the frame's command buffer was scheduled after a
    /// raw one, which runs on the future after that buffer is submitted.
    RawPassNotLast { raw: &'static str, followed_by: &'static str },
    /// A compute pass declared an attachment, which only exists inside a
    /// render pass.
    AttachmentInComputePass { pass: &'static str, resource: &'static str, access: Access },
}

/// What a rejected graph reports, naming what is wrong and how to fix it.
pub open spec fn error_text(e: GraphError) -> Seq<char> {
    match e {
        GraphError::DuplicateResource { name } => "render graph: two resources are named `"@ + name@
            + "`; names identify resources in the frame inspector and the barrier plan, so they must be unique"@,
        GraphError::DuplicatePass { name } => "render graph: two passes are named `"@ + name@
            + "`; pass names key GPU timings, so they must be unique"@,
        GraphError::ConflictingAccess { pass, resource, first, second } => "render graph: pass `"@ + pass@
            + "` declares `"@ + resource@ + "` as both "@ + first.name()@ + " and "@ + second.name()@
            + ". A pass is one point in the schedule, so the two cannot be ordered against each other — split it into two passes, or declare the single access that covers both."@,
        GraphError::ReadBeforeWrite { pass, resource } => "render graph: pass `"@ + pass@ + "` reads `"@
            + resource@
            + "`, which no earlier pass writes. A transient's contents do not survive a frame, so this samples undefined memory — register the producing pass, or import `"@
            + resource@ + "` if something outside the graph fills it."@,
        GraphError::Cycle { passes } => "render graph: passes "@ + debug_list(
            passes@.map_values(|n: &'static str| n@),
        )
            + " form a dependency cycle — one of them reads what a later one writes. Break the cycle by splitting the shared resource into a written one and a read one."@,
        GraphError::RawPassNotLast { raw, followed_by } => "render graph: raw pass `"@ + raw@
            + "` is scheduled before `"@ + followed_by@
            + "`, but v1 submits the frame as one command buffer and runs raw passes on the future after it. Give `"@
            + followed_by@ + "` a dependency that places it before `"@ + raw@
            + "`, or fold its work into an inline pass."@,
        GraphError::AttachmentInComputePass { pass, resource, access } => "render graph: compute pass `"@
            + pass@ + "` declares `"@ + resource@ + "` as "@ + access.name()@
            + ", but a dispatch runs outside any render pass and an attachment only exists inside one. Read it as Sampled or write it as StorageWrite, or make `"@
            + pass@ + "` an inline pass."@,
    }
}

fn join(parts: &[&str]) -> (r: String)
    ensures
        r@ == parts@.fold_left(Seq::<char>::empty(), |acc: Seq<char>, p: &str| acc + p@),
{
    let mut out = String::new();
    let mut i: usize = 0;
    while i < parts.len()
        invariant
            i <= parts@.len(),
            out@ == parts@.take(i as int).fold_left(Seq::<char>::empty(), |acc: Seq<char>, p: &str| acc + p@),
        decreases parts.len() - i,
    {
        proof {
            assert(parts@.take(i + 1).drop_last() =~= parts@.take(i as int));
        }
        out.append(parts[i]);
        i += 1;
    }
    proof {
        assert(parts@.take(i as int) =~= parts@);
    }
    out
}

impl GraphError {
    /// What a rejected graph reports.
    pub fn message(&self) -> (r: String)
        ensures
            r@ == error_text(*self),
    {
        let r = match self {
            GraphError::DuplicateResource { name } => join(
                &[
                    "render graph: two resources are named `",
                    name,
                    "`; names identify resources in the frame inspector and the barrier plan, so they must be unique",
                ],
            ),
            GraphError::DuplicatePass { name } => join(
                &["render graph: two passes are named `", name, "`; pass names key GPU timings, so they must be unique"],
            ),
            GraphError::ConflictingAccess { pass, resource, first, second } => join(
                &[
                    "render graph: pass `",
                    pass,
                    "` declares `",
                    resource,
                    "` as both ",
                    first.name(),
                    " and ",
                    second.name(),
                    ". A pass is one point in the schedule, so the two cannot be ordered against each other — split it into two passes, or declare the single access that covers both.",
                ],
            ),
            GraphError::ReadBeforeWrite { pass, resource } => join(
                &[
                    "render graph: pass `",
                    pass,
                    "` reads `",
                    resource,
                    "`, which no earlier pass writes. A transient's contents do not survive a frame, so this samples undefined memory — register the producing pass, or import `",
                    resource,
                    "` if something outside the graph fills it.",
                ],
            ),
            GraphError::Cycle { passes } => {
                let list = debug_names(passes.as_slice());
                join(
                    &[
                        "render graph: passes ",
                        list.as_str(),
                        " form a dependency cycle — one of them reads what a later one writes. Break the cycle by splitting the shared resource into a written one and a read one.",
                    ],
                )
            },
            GraphError::RawPassNotLast { raw, followed_by } => join(
                &[
                    "render graph: raw pass `",
                    raw,
                    "` is scheduled before `",
                    followed_by,
                    "`, but v1 submits the frame as one command buffer and runs raw passes on the future after it. Give `",
                    followed_by,
                    "` a dependency that places it before `",
                    raw,
                    "`, or fold its work into an inline pass.",
                ],
            ),
            GraphError::AttachmentInComputePass { pass, resource, access } => join(
                &[
                    "render graph: compute pass `",
                    pass,
                    "` declares `",
                    resource,
                    "` as ",
                    access.name(),
                    ", but a dispatch runs outside any render pass and an attachment only exists inside one. Read it as Sampled or write it as StorageWrite, or make `",
                    pass,
                    "` an inline pass.",
                ],
            ),
        };
        proof {
            reveal_with_fuel(Seq::fold_left, 10);
        }
        r
    }
}

} // verus!
