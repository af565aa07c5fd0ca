use orrin_core::gfx::graph::{dependency_edges, PassDecl, ResourceId};
use orrin_core::gfx::graph::names::{access, stages};
use orrin_core::gfx::graph::{
    compile, Access, FrameGraph, Format, GraphBuilder, GraphError, ImageDesc, ImageLayout,
    ImageUsage, PassKind, PipelineStages,
};

fn image() -> ImageDesc {
    ImageDesc::new(Format::R8G8B8A8_UNORM)
}

fn names(graph: &FrameGraph) -> Vec<&'static str> {
    graph.order().iter().map(|&id| graph.pass_name(id)).collect()
}

#[test]
fn a_reader_is_scheduled_after_its_writer_whatever_order_they_were_registered_in() {
    let mut builder = GraphBuilder::new();
    let target = builder.import_image("target", image(), ImageLayout::Undefined, ImageLayout::PresentSrc);
    let intermediate = builder.create_image("intermediate", image());

    builder
        .pass("consumer", PassKind::Inline)
        .access(intermediate, Access::Sampled)
        .access(target, Access::ColorAttachment)
        .build();
    builder
        .pass("producer", PassKind::Inline)
        .access(intermediate, Access::ColorAttachment)
        .build();

    let graph = compile(builder).unwrap();
    assert_eq!(names(&graph), vec!["producer", "consumer"]);
}

#[test]
fn two_writers_of_one_resource_run_in_registration_order() {
    let mut builder = GraphBuilder::new();
    let target = builder.import_image("target", image(), ImageLayout::Undefined, ImageLayout::PresentSrc);
    builder.pass("scene", PassKind::Inline).access(target, Access::ColorAttachment).build();
    builder.pass("overlay", PassKind::Raw).access(target, Access::ColorAttachment).build();

    let graph = compile(builder).unwrap();
    assert_eq!(names(&graph), vec!["scene", "overlay"]);
}

#[test]
fn independent_passes_keep_a_stable_order() {
    let compile_once = || {
        let mut builder = GraphBuilder::new();
        let a = builder.import_image("a", image(), ImageLayout::Undefined, ImageLayout::General);
        let b = builder.import_image("b", image(), ImageLayout::Undefined, ImageLayout::General);
        builder.pass("first", PassKind::Inline).access(a, Access::ColorAttachment).build();
        builder.pass("second", PassKind::Inline).access(b, Access::ColorAttachment).build();
        names(&compile(builder).unwrap())
    };
    assert_eq!(compile_once(), vec!["first", "second"]);
    assert_eq!(compile_once(), compile_once());
}

#[test]
fn a_cycle_names_the_passes_in_it() {
    let mut builder = GraphBuilder::new();
    let a = builder.import_image("a", image(), ImageLayout::Undefined, ImageLayout::General);
    let b = builder.import_image("b", image(), ImageLayout::Undefined, ImageLayout::General);
    builder
        .pass("left", PassKind::Inline)
        .access(a, Access::ColorAttachment)
        .access(b, Access::Sampled)
        .build();
    builder
        .pass("right", PassKind::Inline)
        .access(b, Access::ColorAttachment)
        .access(a, Access::Sampled)
        .build();

    let error = compile(builder).err().unwrap();
    let GraphError::Cycle { mut passes } = error else {
        panic!("expected a cycle, got {error:?}");
    };
    passes.sort_unstable();
    assert_eq!(passes, vec!["left", "right"]);
}

#[test]
fn sampling_a_transient_nothing_writes_is_rejected_by_name() {
    let mut builder = GraphBuilder::new();
    let target = builder.import_image("target", image(), ImageLayout::Undefined, ImageLayout::PresentSrc);
    let never_written = builder.create_image("shadow_map", image());
    builder
        .pass("shading", PassKind::Inline)
        .access(never_written, Access::Sampled)
        .access(target, Access::ColorAttachment)
        .build();

    assert_eq!(
        compile(builder).err().unwrap(),
        GraphError::ReadBeforeWrite { pass: "shading", resource: "shadow_map" }
    );
}

#[test]
fn reading_an_unwritten_import_is_allowed() {
    let mut builder = GraphBuilder::new();
    let target = builder.import_image("target", image(), ImageLayout::Undefined, ImageLayout::PresentSrc);
    let objects = builder.import_buffer("objects");
    builder
        .pass("shading", PassKind::Inline)
        .access(objects, Access::StorageRead)
        .access(target, Access::ColorAttachment)
        .build();

    assert!(compile(builder).is_ok());
}

#[test]
fn two_accesses_to_one_resource_in_one_pass_are_rejected_by_name() {
    let mut builder = GraphBuilder::new();
    let target = builder.import_image("target", image(), ImageLayout::Undefined, ImageLayout::PresentSrc);
    builder
        .pass("feedback", PassKind::Inline)
        .access(target, Access::ColorAttachment)
        .access(target, Access::Sampled)
        .build();

    assert_eq!(
        compile(builder).err().unwrap(),
        GraphError::ConflictingAccess {
            pass: "feedback",
            resource: "target",
            first: Access::ColorAttachment,
            second: Access::Sampled,
        }
    );
}

#[test]
fn a_pass_whose_output_nothing_reads_is_culled() {
    let mut builder = GraphBuilder::new();
    let target = builder.import_image("target", image(), ImageLayout::Undefined, ImageLayout::PresentSrc);
    let orphan = builder.create_image("orphan", image());
    builder.pass("wasted", PassKind::Inline).access(orphan, Access::ColorAttachment).build();
    builder.pass("present", PassKind::Inline).access(target, Access::ColorAttachment).build();

    let graph = compile(builder).unwrap();
    assert_eq!(names(&graph), vec!["present"]);
    assert_eq!(graph.culled().len(), 1);
    assert_eq!(graph.pass_name(graph.culled()[0]), "wasted");
    // Nothing runs that touches it, so nothing allocates it either.
    assert!(graph
        .transient_images()
        .iter()
        .all(|(id, _)| graph.resource_name(*id) != "orphan"));
}

#[test]
fn image_usage_is_the_union_of_declared_accesses() {
    let mut builder = GraphBuilder::new();
    let target = builder.import_image("target", image(), ImageLayout::Undefined, ImageLayout::PresentSrc);
    let color = builder.create_image("color", image());
    builder.pass("produce", PassKind::Inline).access(color, Access::ColorAttachment).build();
    builder
        .pass("consume", PassKind::Inline)
        .access(color, Access::Sampled)
        .access(target, Access::ColorAttachment)
        .build();

    let graph = compile(builder).unwrap();
    let (_, created) = graph.transient_images()[0];
    assert_eq!(created.usage, ImageUsage::COLOR_ATTACHMENT | ImageUsage::SAMPLED);
    assert!(!created.memoryless);
}

#[test]
fn an_attachment_only_image_is_marked_memoryless() {
    let mut builder = GraphBuilder::new();
    let target = builder.import_image("target", image(), ImageLayout::Undefined, ImageLayout::PresentSrc);
    let msaa = builder.create_image("msaa", image());
    builder
        .pass("draw", PassKind::Inline)
        .access(msaa, Access::ColorAttachment)
        .access(target, Access::ResolveAttachment)
        .build();

    let graph = compile(builder).unwrap();
    let (_, created) = graph.transient_images()[0];
    assert!(created.memoryless);
    assert_eq!(
        created.usage & ImageUsage::TRANSIENT_ATTACHMENT,
        ImageUsage::TRANSIENT_ATTACHMENT
    );
}

#[test]
fn a_write_then_read_produces_one_transition_and_one_dependency() {
    let mut builder = GraphBuilder::new();
    let target = builder.import_image("target", image(), ImageLayout::Undefined, ImageLayout::PresentSrc);
    let color = builder.create_image("color", image());
    builder.pass("produce", PassKind::Inline).access(color, Access::ColorAttachment).build();
    builder
        .pass("consume", PassKind::Inline)
        .access(color, Access::Sampled)
        .access(target, Access::ColorAttachment)
        .build();

    let graph = compile(builder).unwrap();

    let [produce] = graph.barriers_before(0) else {
        panic!("expected one barrier before `produce`");
    };
    assert_eq!(produce.old_layout, ImageLayout::Undefined);
    assert_eq!(produce.new_layout, ImageLayout::ColorAttachmentOptimal);
    assert_eq!(produce.src_stages, PipelineStages::TOP_OF_PIPE);

    let consume = graph.barriers_before(1);
    assert_eq!(consume.len(), 2);
    assert_eq!(consume[0].old_layout, ImageLayout::ColorAttachmentOptimal);
    assert_eq!(consume[0].new_layout, ImageLayout::ShaderReadOnlyOptimal);
    assert_eq!(consume[0].src_stages, PipelineStages::COLOR_ATTACHMENT_OUTPUT);
}

#[test]
fn a_second_reader_in_the_same_layout_needs_no_barrier() {
    let mut builder = GraphBuilder::new();
    let left = builder.import_image("left", image(), ImageLayout::Undefined, ImageLayout::PresentSrc);
    let right = builder.import_image("right", image(), ImageLayout::Undefined, ImageLayout::PresentSrc);
    let color = builder.create_image("color", image());
    builder.pass("produce", PassKind::Inline).access(color, Access::ColorAttachment).build();
    builder
        .pass("read_once", PassKind::Inline)
        .access(color, Access::Sampled)
        .access(left, Access::ColorAttachment)
        .build();
    builder
        .pass("read_twice", PassKind::Inline)
        .access(color, Access::Sampled)
        .access(right, Access::ColorAttachment)
        .build();

    let graph = compile(builder).unwrap();
    let slot = graph
        .order()
        .iter()
        .position(|&id| graph.pass_name(id) == "read_twice")
        .unwrap();
    assert!(graph
        .barriers_before(slot)
        .iter()
        .all(|barrier| graph.resource_name(barrier.resource) != "color"));
}

#[test]
fn an_import_is_left_in_its_declared_exit_layout() {
    let mut builder = GraphBuilder::new();
    let target = builder.import_image("swapchain", image(), ImageLayout::Undefined, ImageLayout::PresentSrc);
    builder.pass("present", PassKind::Inline).access(target, Access::ColorAttachment).build();

    let graph = compile(builder).unwrap();
    let [barrier] = graph.final_barriers() else {
        panic!("expected one closing barrier");
    };
    assert_eq!(barrier.old_layout, ImageLayout::ColorAttachmentOptimal);
    assert_eq!(barrier.new_layout, ImageLayout::PresentSrc);
    assert_eq!(barrier.src_stages, PipelineStages::COLOR_ATTACHMENT_OUTPUT);
}

#[test]
fn an_inline_pass_after_a_raw_one_is_rejected_by_name() {
    let mut builder = GraphBuilder::new();
    let target = builder.import_image("target", image(), ImageLayout::Undefined, ImageLayout::PresentSrc);
    let scratch = builder.create_image("scratch", image());
    builder
        .pass("overlay", PassKind::Raw)
        .access(target, Access::ColorAttachment)
        .access(scratch, Access::ColorAttachment)
        .build();
    builder
        .pass("after", PassKind::Inline)
        .access(scratch, Access::Sampled)
        .access(target, Access::ColorAttachment)
        .build();

    assert_eq!(
        compile(builder).err().unwrap(),
        GraphError::RawPassNotLast { raw: "overlay", followed_by: "after" }
    );
}

#[test]
fn duplicate_names_are_rejected() {
    let mut builder = GraphBuilder::new();
    builder.create_image("color", image());
    builder.create_image("color", image());
    assert_eq!(
        compile(builder).err().unwrap(),
        GraphError::DuplicateResource { name: "color" }
    );
}

#[test]
fn flag_sets_read_by_name_in_table_order() {
    assert_eq!(stages(0), "-");
    assert_eq!(stages(PipelineStages::COMPUTE_SHADER | PipelineStages::COLOR_ATTACHMENT_OUTPUT), "ColorAttachmentOutput|ComputeShader");
    assert_eq!(stages(0x4000), "<unnamed>");
    assert_eq!(stages(PipelineStages::BOTTOM_OF_PIPE | 0x4000), "BottomOfPipe|<unnamed>");
    assert_eq!(access(0x1_0000_0000), "ShaderSampledRead");
    assert_eq!(access(0x4_0000_0000 | 0x2), "IndexRead|ShaderStorageWrite");
}

#[test]
fn two_passes_with_one_name_are_rejected() {
    let mut builder = GraphBuilder::new();
    let target = builder.import_image("target", image(), ImageLayout::Undefined, ImageLayout::PresentSrc);
    builder.pass("draw", PassKind::Inline).access(target, Access::ColorAttachment).build();
    builder.pass("draw", PassKind::Inline).access(target, Access::ColorAttachment).build();
    assert_eq!(compile(builder).err().unwrap(), GraphError::DuplicatePass { name: "draw" });
}

#[test]
fn a_compute_pass_cannot_declare_an_attachment() {
    let mut builder = GraphBuilder::new();
    let target = builder.import_image("target", image(), ImageLayout::Undefined, ImageLayout::PresentSrc);
    builder.pass("dispatch", PassKind::Compute).access(target, Access::ColorAttachment).build();
    assert_eq!(
        compile(builder).err().unwrap(),
        GraphError::AttachmentInComputePass { pass: "dispatch", resource: "target", access: Access::ColorAttachment }
    );
}

#[test]
fn a_compute_pass_may_sample_and_store() {
    let mut builder = GraphBuilder::new();
    let source = builder.import_image("source", image(), ImageLayout::ShaderReadOnlyOptimal, ImageLayout::ShaderReadOnlyOptimal);
    let target = builder.import_image("target", image(), ImageLayout::Undefined, ImageLayout::General);
    builder
        .pass("dispatch", PassKind::Compute)
        .access(source, Access::Sampled)
        .access(target, Access::StorageWrite)
        .build();
    let graph = compile(builder).ok().expect("compiles");
    assert_eq!(names(&graph), vec!["dispatch"]);
}

#[test]
fn edge_rows_list_the_next_writer_then_the_readers() {
    let pass = |name: &'static str, accesses: Vec<(ResourceId, Access)>| PassDecl { name, kind: PassKind::Inline, accesses };
    let passes = vec![
        pass("a", vec![(ResourceId(0), Access::ColorAttachment)]),
        pass("b", vec![(ResourceId(0), Access::Sampled)]),
        pass("c", vec![(ResourceId(0), Access::ColorAttachment)]),
    ];
    assert_eq!(dependency_edges(&passes, 1), vec![vec![2, 1], vec![], vec![1]]);
    let passes = vec![
        pass("w", vec![(ResourceId(1), Access::StorageWrite), (ResourceId(0), Access::ColorAttachment)]),
        pass("r", vec![(ResourceId(0), Access::Sampled), (ResourceId(1), Access::StorageRead)]),
        pass("x", vec![(ResourceId(1), Access::Sampled)]),
    ];
    assert_eq!(dependency_edges(&passes, 2), vec![vec![1, 1, 2], vec![], vec![]]);
    assert_eq!(dependency_edges(&passes, 1), vec![vec![1], vec![], vec![]]);
}

#[test]
fn a_rejected_graph_says_what_is_wrong() {
    assert_eq!(
        GraphError::DuplicatePass { name: "forward" }.message(),
        "render graph: two passes are named `forward`; pass names key GPU timings, so they must be unique"
    );
    assert_eq!(
        GraphError::Cycle { passes: vec!["a", "b"] }.message(),
        "render graph: passes [\"a\", \"b\"] form a dependency cycle — one of them reads what a later one \
         writes. Break the cycle by splitting the shared resource into a written one and a read one."
    );
    assert_eq!(
        GraphError::AttachmentInComputePass { pass: "bloom", resource: "hdr", access: Access::ColorAttachment }
            .message(),
        "render graph: compute pass `bloom` declares `hdr` as ColorAttachment, but a dispatch runs outside \
         any render pass and an attachment only exists inside one. Read it as Sampled or write it as \
         StorageWrite, or make `bloom` an inline pass."
    );
    assert_eq!(
        GraphError::RawPassNotLast { raw: "overlay", followed_by: "tonemap" }.message(),
        "render graph: raw pass `overlay` is scheduled before `tonemap`, but v1 submits the frame as one \
         command buffer and runs raw passes on the future after it. Give `tonemap` a dependency that \
         places it before `overlay`, or fold its work into an inline pass."
    );
    for access in [Access::Sampled, Access::StorageWrite, Access::DepthAttachmentRead, Access::TransferWrite] {
        assert_eq!(access.name(), format!("{access:?}"));
    }
}

/// The plan as the frame inspector has always printed it, written with `format!`.
fn formatted_plan(graph: &FrameGraph) -> String {
    let barrier = |b: &orrin_core::gfx::graph::Barrier| {
        let mut line = format!("  ! {}", graph.resource_name(b.resource));
        if b.is_transition() {
            line.push_str(&format!(" {:?}->{:?}", b.old_layout, b.new_layout));
        }
        line.push_str(&format!(
            " src {}/{} dst {}/{}\n",
            stages(b.src_stages),
            access(b.src_access),
            stages(b.dst_stages),
            access(b.dst_access)
        ));
        line
    };
    let mut out = String::new();
    for (slot, &pass_id) in graph.order().iter().enumerate() {
        let pass = graph.pass(pass_id);
        out.push_str(&format!("{slot:02} pass {} [{:?}]\n", pass.name, pass.kind));
        for b in graph.barriers_before(slot) {
            out.push_str(&barrier(b));
        }
        for &(resource, declared) in &pass.accesses {
            out.push_str(&format!("     {} {:?}\n", graph.resource_name(resource), declared));
        }
    }
    if !graph.final_barriers().is_empty() {
        out.push_str("-- end of frame\n");
        for b in graph.final_barriers() {
            out.push_str(&barrier(b));
        }
    }
    for &pass_id in graph.culled() {
        out.push_str(&format!("-- culled pass {}\n", graph.pass(pass_id).name));
    }
    out
}

#[test]
fn the_plan_reads_as_the_inspector_prints_it() {
    let mut builder = GraphBuilder::new();
    let target = builder.import_image("target", image(), ImageLayout::Undefined, ImageLayout::PresentSrc);
    let color = builder.create_image("color", image());
    let unused = builder.create_image("unused", image());
    builder.pass("produce", PassKind::Inline).access(color, Access::ColorAttachment).build();
    builder.pass("orphan", PassKind::Inline).access(unused, Access::ColorAttachment).build();
    builder
        .pass("consume", PassKind::Inline)
        .access(color, Access::Sampled)
        .access(target, Access::ColorAttachment)
        .build();
    let graph = compile(builder).unwrap();
    let plan = graph.plan();
    assert!(plan.starts_with("00 pass produce [Inline]\n  ! color Undefined->ColorAttachmentOptimal src "));
    assert!(plan.contains("     target ColorAttachment\n"));
    assert!(plan.contains("-- end of frame\n  ! target ColorAttachmentOptimal->PresentSrc src "));
    assert!(plan.ends_with("-- culled pass orphan\n"));
    assert_eq!(plan, formatted_plan(&graph));

    for bloom_mips in [0u8, 1, 4] {
        let config = orrin_core::gfx::frame::FrameConfig {
            color_format: Format::B8G8R8A8_SRGB,
            ssao: true,
            taa: true,
            auto_exposure: true,
            bloom_mips,
            overlay: true,
            shadow_cascades: 3,
            shadow_resolution: 2048,
        };
        let frame = orrin_core::gfx::frame::declare(config).ok().unwrap();
        assert_eq!(frame.graph.plan(), formatted_plan(&frame.graph));
    }
}
