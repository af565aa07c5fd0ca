//! Declaring one frame: resources, then passes with their accesses.

use vstd::prelude::*;

use super::access::Access;
use super::error::GraphError;
use super::flags::ImageLayout;
use super::resource::{ImageDesc, ImportedLayouts, ResourceDecl, ResourceId, ResourceKind};
use super::str_eq;

verus! {

/// Handle to a pass registered on a `GraphBuilder`, and the index the executor
/// looks the pass's recording closure up by.
#[derive(Clone, Copy, PartialEq, Eq, Structural, PartialOrd, Ord, Hash, Debug)]
pub struct PassId(pub u32);

impl PassId {
    #[verifier::allow_in_spec]
    pub fn index(self) -> usize
        returns
            self.0 as usize,
    {
        self.0 as usize
    }
}

#[derive(Clone, Copy, PartialEq, Eq, Structural, Debug)]
pub enum PassKind {
    /// Records into the frame's primary command buffer inside a render pass.
    Inline,
    /// Records a dispatch into the frame's primary command buffer, outside any
    /// render pass, so it may not declare an attachment.
    Compute,
    /// Builds and submits its own command buffer (the editor overlay). The graph
    /// cannot place its barriers, and it must run after every other pass.
    Raw,
}

impl PassKind {
    /// The kind's name, as the plan prints it.
    #[verifier::allow_in_spec]
    pub fn name(self) -> &'static str
        returns
            (match self {
                PassKind::Inline => "Inline",
                PassKind::Compute => "Compute",
                PassKind::Raw => "Raw",
            }),
    {
        match self {
            PassKind::Inline => "Inline",
            PassKind::Compute => "Compute",
            PassKind::Raw => "Raw",
        }
    }
}

#[derive(Clone, Debug)]
pub struct PassDecl {
    pub name: &'static str,
    pub kind: PassKind,
    /// In declaration order, which is the order barriers are emitted in.
    pub accesses: Vec<(ResourceId, Access)>,
}

/// Every access of every pass names a resource this builder declared.
pub open spec fn ids_in_range(resources: Seq<ResourceDecl>, passes: Seq<PassDecl>) -> bool {
    forall|p: int, k: int|
        0 <= p < passes.len() && 0 <= k < passes[p].accesses@.len() ==> (
        #[trigger] passes[p].accesses@[k]).0.0 < resources.len()
}

/// The first resource whose name an earlier resource already has.
pub open spec fn duplicate_resource_at(resources: Seq<ResourceDecl>, i: int) -> bool {
    0 <= i < resources.len() && exists|j: int| 0 <= j < i && resources[j].name@ == resources[i].name@
}

pub open spec fn duplicate_pass_at(passes: Seq<PassDecl>, i: int) -> bool {
    0 <= i < passes.len() && exists|j: int| 0 <= j < i && passes[j].name@ == passes[i].name@
}

/// Declares the resources and passes of one frame.
pub struct GraphBuilder {
    pub resources: Vec<ResourceDecl>,
    pub passes: Vec<PassDecl>,
}

impl GraphBuilder {
    /// Every access names a declared resource, and every id fits its handle.
    pub open spec fn wf(&self) -> bool {
        &&& ids_in_range(self.resources@, self.passes@)
        &&& self.resources@.len() <= u32::MAX
        &&& self.passes@.len() <= u32::MAX
    }

    pub fn new() -> (r: Self)
        ensures
            r.resources@ == Seq::<ResourceDecl>::empty(),
            r.passes@ == Seq::<PassDecl>::empty(),
    {
        GraphBuilder { resources: Vec::new(), passes: Vec::new() }
    }

    /// An image the graph owns: allocated on compile, undefined at frame start.
    pub fn create_image(&mut self, name: &'static str, desc: ImageDesc) -> (r: ResourceId)
        requires
            old(self).resources.len() < u32::MAX,
        ensures
            r.0 == old(self).resources.len(),
            final(self).resources@ == old(self).resources@.push(
                ResourceDecl { name, kind: ResourceKind::Transient(desc) },
            ),
            final(self).passes@ == old(self).passes@,
    {
        self.push(name, ResourceKind::Transient(desc))
    }

    /// An image supplied per frame from outside, entering in `entry` and
    /// leaving in `exit`.
    pub fn import_image(
        &mut self,
        name: &'static str,
        desc: ImageDesc,
        entry: ImageLayout,
        exit: ImageLayout,
    ) -> (r: ResourceId)
        requires
            old(self).resources.len() < u32::MAX,
        ensures
            r.0 == old(self).resources.len(),
            final(self).resources@ == old(self).resources@.push(
                ResourceDecl {
                    name,
                    kind: ResourceKind::Imported(desc, ImportedLayouts { entry, exit }),
                },
            ),
            final(self).passes@ == old(self).passes@,
    {
        self.push(name, ResourceKind::Imported(desc, ImportedLayouts { entry, exit }))
    }

    pub fn import_buffer(&mut self, name: &'static str) -> (r: ResourceId)
        requires
            old(self).resources.len() < u32::MAX,
        ensures
            r.0 == old(self).resources.len(),
            final(self).resources@ == old(self).resources@.push(
                ResourceDecl { name, kind: ResourceKind::ImportedBuffer },
            ),
            final(self).passes@ == old(self).passes@,
    {
        self.push(name, ResourceKind::ImportedBuffer)
    }

    fn push(&mut self, name: &'static str, kind: ResourceKind) -> (r: ResourceId)
        requires
            old(self).resources.len() < u32::MAX,
        ensures
            r.0 == old(self).resources.len(),
            final(self).resources@ == old(self).resources@.push(ResourceDecl { name, kind }),
            final(self).passes@ == old(self).passes@,
    {
        let id = ResourceId(self.resources.len() as u32);
        self.resources.push(ResourceDecl { name, kind });
        id
    }

    /// Starts declaring a pass; `PassBuilder::build` registers it.
    pub fn pass(&mut self, name: &'static str, kind: PassKind) -> (r: PassBuilder<'_>)
        ensures
            *r.graph == *old(self),
            *final(r.graph) == *final(self),
            r.decl.name == name,
            r.decl.kind == kind,
            r.decl.accesses@ == Seq::<(ResourceId, Access)>::empty(),
    {
        PassBuilder { graph: self, decl: PassDecl { name, kind, accesses: Vec::new() } }
    }

    /// The first resource name that repeats an earlier one, then the first
    /// pass name that does.
    pub fn validate_names(&self) -> (r: Result<(), GraphError>)
        ensures
            match r {
                Ok(()) => (forall|i: int| !duplicate_resource_at(self.resources@, i)) && (forall|i: int|
                    !duplicate_pass_at(self.passes@, i)),
                Err(GraphError::DuplicateResource { name }) => exists|i: int|
                    duplicate_resource_at(self.resources@, i) && (forall|k: int|
                        0 <= k < i ==> !duplicate_resource_at(self.resources@, k))
                        && name == self.resources@[i].name,
                Err(GraphError::DuplicatePass { name }) => (forall|i: int|
                    !duplicate_resource_at(self.resources@, i)) && exists|i: int|
                    duplicate_pass_at(self.passes@, i) && (forall|k: int|
                        0 <= k < i ==> !duplicate_pass_at(self.passes@, k)) && name
                        == self.passes@[i].name,
                Err(_) => false,
            },
    {
        let mut index: usize = 0;
        while index < self.resources.len()
            invariant
                index <= self.resources@.len(),
                forall|k: int| 0 <= k < index ==> !duplicate_resource_at(self.resources@, k),
            decreases self.resources@.len() - index,
        {
            let mut other: usize = 0;
            while other < index
                invariant
                    index < self.resources@.len(),
                    other <= index,
                    forall|k: int| 0 <= k < index ==> !duplicate_resource_at(self.resources@, k),
                    forall|j: int| 0 <= j < other ==> self.resources@[j].name@ != self.resources@[index as int].name@,
                decreases index - other,
            {
                if str_eq(self.resources[other].name, self.resources[index].name) {
                    assert(duplicate_resource_at(self.resources@, index as int));
                    return Err(GraphError::DuplicateResource { name: self.resources[index].name });
                }
                other += 1;
            }
            index += 1;
        }
        let mut index: usize = 0;
        while index < self.passes.len()
            invariant
                index <= self.passes@.len(),
                forall|i: int| !duplicate_resource_at(self.resources@, i),
                forall|k: int| 0 <= k < index ==> !duplicate_pass_at(self.passes@, k),
            decreases self.passes@.len() - index,
        {
            let mut other: usize = 0;
            while other < index
                invariant
                    index < self.passes@.len(),
                    other <= index,
                    forall|i: int| !duplicate_resource_at(self.resources@, i),
                    forall|k: int| 0 <= k < index ==> !duplicate_pass_at(self.passes@, k),
                    forall|j: int| 0 <= j < other ==> self.passes@[j].name@ != self.passes@[index as int].name@,
                decreases index - other,
            {
                if str_eq(self.passes[other].name, self.passes[index].name) {
                    assert(duplicate_pass_at(self.passes@, index as int));
                    return Err(GraphError::DuplicatePass { name: self.passes[index].name });
                }
                other += 1;
            }
            index += 1;
        }
        Ok(())
    }
}

/// A pass being declared. Holds the builder it will register on.
pub struct PassBuilder<'a> {
    pub graph: &'a mut GraphBuilder,
    pub decl: PassDecl,
}

impl<'a> PassBuilder<'a> {
    /// Adds one declared access to the pass.
    pub fn access(self, resource: ResourceId, access: Access) -> (r: Self)
        ensures
            *r.graph == *old(self.graph),
            *final(r.graph) == *final(self.graph),
            r.decl.name == self.decl.name,
            r.decl.kind == self.decl.kind,
            r.decl.accesses@ == self.decl.accesses@.push((resource, access)),
    {
        let mut this = self;
        this.decl.accesses.push((resource, access));
        this
    }

    /// Registers the pass. The returned id indexes the executor's parallel list
    /// of recording closures.
    pub fn build(self) -> (r: PassId)
        requires
            old(self.graph).passes.len() < u32::MAX,
        ensures
            r.0 == old(self.graph).passes.len(),
            final(self.graph).passes@ == old(self.graph).passes@.push(self.decl),
            final(self.graph).resources@ == old(self.graph).resources@,
    {
        let id = PassId(self.graph.passes.len() as u32);
        self.graph.passes.push(self.decl);
        id
    }
}

} // verus!
