use crayon::graphics::GraphicsSystemShared;
use crayon::setup::{
    Attribute, Command, DrawCall, FrameBufferAttachment, FrameBufferSetup, IndexBufferUpdate, IndexFormat,
    MeshIndex, MeshSetup, Primitive, Rect, RenderBufferSetup, RenderState, RenderTextureFormat, Scissor,
    ScissorUpdate, ShaderSetup, SurfaceSetup, TextureFormat, TextureSetup, TextureUpdate, UniformVariable,
    UniformVariableType, VertexBufferUpdate,
};
use crayon::{DispatchStep, FrameTask, GraphicsError, GraphicsSystem, Location, PostFrameTask, PreFrameTask};

fn system() -> GraphicsSystemShared {
    GraphicsSystemShared::new((800, 600), (1600, 1200))
}

fn surface_setup() -> SurfaceSetup {
    SurfaceSetup { framebuffer: None, clear_color: Some([0, 0, 0, 0]), clear_depth: None, clear_stencil: None, sequence: false }
}

fn shader_setup(uniforms: &[(&str, UniformVariableType)]) -> ShaderSetup {
    ShaderSetup {
        render_state: RenderState::new(),
        layout: vec![(Attribute::Position, 3)],
        vs: "void main() {}".to_string(),
        fs: "void main() {}".to_string(),
        uniform_variables: uniforms.iter().map(|(n, t)| (n.to_string(), *t)).collect(),
    }
}

fn mesh_setup(stride: usize, verts: usize, idxes: usize) -> MeshSetup {
    MeshSetup {
        vertex_stride: stride,
        num_verts: verts,
        num_idxes: idxes,
        index_format: IndexFormat::U16,
        primitive: Primitive::Triangles,
        sub_mesh_offsets: vec![0],
    }
}

fn texture_setup() -> TextureSetup {
    TextureSetup { format: TextureFormat::U8U8U8U8, dimensions: (2, 2), mipmap: false }
}

fn scissor() -> Command {
    Command::SetScissor(ScissorUpdate { scissor: Scissor::Disable })
}

#[test]
fn dedup_shared_location_returns_one_handle() {
    let mut video = system();
    let location = Location::shared(0, "shaders/color");
    let a = video.create_shader(location.clone_location(), shader_setup(&[])).unwrap();
    assert_eq!(video.lookup_shader_from(&location), Some(a));
    let b = video.create_shader(location.clone_location(), shader_setup(&[])).unwrap();
    assert_eq!(a, b);
    // Only the first creation records a pipeline.
    assert_eq!(video.front_frame().pre.len(), 1);
    // Two counts: the first release keeps the shader alive.
    video.delete_shader(a);
    assert!(video.is_shader_alive(a));
    video.delete_shader(a);
    assert!(!video.is_shader_alive(a));
}

#[test]
fn registry_counts_each_create_once() {
    let mut reg: crayon::Registry<u8> = crayon::Registry::new();
    let location = Location::shared(7, "a");
    let h = reg.create(location.clone_location(), 1).unwrap();
    assert_eq!(reg.rc(h), 1);
    assert_eq!(reg.lookup(&location), Some(h));
    let g = reg.create(location.clone_location(), 2).unwrap();
    assert_eq!(g, h);
    assert_eq!(reg.rc(h), 2);
    // The second state was dropped.
    assert_eq!(reg.get(h), Some(&1));
    // A unique location never deduplicates.
    let u1 = reg.create(Location::unique("a"), 3).unwrap();
    let u2 = reg.create(Location::unique("a"), 4).unwrap();
    assert_ne!(u1, u2);
    assert_eq!(reg.len(), 3);
}

#[test]
fn refcounted_teardown_records_one_deletion() {
    let mut video = system();
    let location = Location::shared(0, "meshes/cube");
    let n = 3;
    let mut handle = None;
    for _ in 0..n {
        handle = Some(video.create_mesh(location.clone_location(), mesh_setup(12, 3, 3), None, None).unwrap());
    }
    let handle = handle.unwrap();
    for _ in 0..n - 1 {
        video.delete_mesh(handle);
        assert_eq!(video.front_frame().post.len(), 0);
    }
    video.delete_mesh(handle);
    assert_eq!(video.front_frame().post, vec![PostFrameTask::DeleteMesh(handle)]);
    // A further release of the dead handle records nothing.
    video.delete_mesh(handle);
    assert_eq!(video.front_frame().post.len(), 1);
}

#[test]
fn registry_release_returns_state_at_zero() {
    let mut reg: crayon::Registry<u8> = crayon::Registry::new();
    let location = Location::shared(1, "b");
    let h = reg.create(location.clone_location(), 9).unwrap();
    reg.create(location.clone_location(), 10).unwrap();
    assert_eq!(reg.dec_rc(h, true), None);
    assert!(reg.is_alive(h));
    assert_eq!(reg.dec_rc(h, true), Some(9));
    assert!(!reg.is_alive(h));
    assert_eq!(reg.lookup(&location), None);
    assert_eq!(reg.dec_rc(h, true), None);
}

#[test]
fn replay_order_sorts_by_key_and_keeps_append_order() {
    let mut video = system();
    let s1 = video.create_surface(surface_setup()).unwrap();
    video.submit(s1, 5, scissor()).unwrap();
    video.submit(s1, 3, scissor()).unwrap();
    video.submit(s1, 5, scissor()).unwrap();
    assert_eq!(video.front_frame().replay_order(), vec![1, 0, 2]);
}

#[test]
fn replay_order_groups_by_surface_first() {
    let mut video = system();
    let s1 = video.create_surface(surface_setup()).unwrap();
    let s2 = video.create_surface(surface_setup()).unwrap();
    video.submit(s2, 1, scissor()).unwrap();
    video.submit(s1, 9, scissor()).unwrap();
    video.submit(s2, 0, scissor()).unwrap();
    video.submit(s1, 2, scissor()).unwrap();
    assert_eq!(video.front_frame().replay_order(), vec![3, 1, 2, 0]);
}

#[test]
fn dispatch_runs_pre_then_ordered_then_post() {
    let mut video = system();
    let s = video.create_surface(surface_setup()).unwrap();
    let mesh = video.create_mesh(Location::unique(""), mesh_setup(4, 1, 0), None, None).unwrap();
    video.delete_mesh(mesh);
    video.submit(s, 0, scissor()).unwrap();
    let rb = video
        .create_render_buffer(RenderBufferSetup { format: RenderTextureFormat::Depth16, dimensions: (4, 4) })
        .unwrap();
    let fb = video
        .create_framebuffer(FrameBufferSetup {
            attachments: vec![None, Some(FrameBufferAttachment::RenderBuffer(rb)), None, Some(FrameBufferAttachment::RenderBuffer(rb))],
        })
        .unwrap();
    video.delete_framebuffer(fb);
    let plan = video.front_frame().dispatch();
    assert_eq!(
        plan,
        vec![
            DispatchStep::Pre(0),
            DispatchStep::Pre(1),
            DispatchStep::Pre(2),
            DispatchStep::Pre(3),
            DispatchStep::Attach(3, 1),
            DispatchStep::Attach(3, 3),
            DispatchStep::Flush,
            DispatchStep::Post(0),
            DispatchStep::Post(1),
        ]
    );
}

#[test]
fn dispatch_of_empty_frame_only_flushes() {
    let video = system();
    assert_eq!(video.front_frame().dispatch(), vec![DispatchStep::Flush]);
}

fn uniform(name: &str, kind: UniformVariableType, bytes: Vec<u8>) -> (String, UniformVariable) {
    (name.to_string(), UniformVariable { kind, bytes })
}

fn draw(shader: crayon::ShaderHandle, mesh: crayon::MeshHandle, uniforms: Vec<(String, UniformVariable)>) -> Command {
    Command::DrawCall(DrawCall { shader, mesh, index: MeshIndex::All, uniforms })
}

#[test]
fn undeclared_uniform_refuses_draw_call() {
    let mut video = system();
    let s = video.create_surface(surface_setup()).unwrap();
    let shader = video
        .create_shader(Location::unique(""), shader_setup(&[("u_Color", UniformVariableType::Vector4f)]))
        .unwrap();
    let mesh = video.create_mesh(Location::unique(""), mesh_setup(4, 1, 0), None, None).unwrap();
    let tasks = video.front_frame().tasks.len();
    let staged = video.front_frame().buf.len();
    let r = video.submit(
        s,
        0,
        draw(shader, mesh, vec![
            uniform("u_Color", UniformVariableType::Vector4f, vec![1; 16]),
            uniform("u_Missing", UniformVariableType::F32, vec![2; 4]),
        ]),
    );
    match r {
        Err(GraphicsError::UndefinedUniform(name)) => assert_eq!(name, "u_Missing"),
        other => panic!("unexpected {:?}", other),
    }
    assert_eq!(video.front_frame().tasks.len(), tasks);
    assert_eq!(video.front_frame().buf.len(), staged);
}

#[test]
fn mismatched_uniform_type_refuses_draw_call() {
    let mut video = system();
    let s = video.create_surface(surface_setup()).unwrap();
    let shader = video
        .create_shader(Location::unique(""), shader_setup(&[("u_Color", UniformVariableType::Vector4f)]))
        .unwrap();
    let mesh = video.create_mesh(Location::unique(""), mesh_setup(4, 1, 0), None, None).unwrap();
    let r = video.submit(s, 0, draw(shader, mesh, vec![uniform("u_Color", UniformVariableType::Vector3f, vec![0; 12])]));
    match r {
        Err(GraphicsError::UnmatchedUniform(name)) => assert_eq!(name, "u_Color"),
        other => panic!("unexpected {:?}", other),
    }
    assert_eq!(video.front_frame().tasks.len(), 0);
}

#[test]
fn valid_draw_call_stages_uniform_values() {
    let mut video = system();
    let s = video.create_surface(surface_setup()).unwrap();
    let shader = video
        .create_shader(
            Location::unique(""),
            shader_setup(&[("u_Color", UniformVariableType::Vector4f), ("u_Scale", UniformVariableType::F32)]),
        )
        .unwrap();
    let mesh = video.create_mesh(Location::unique(""), mesh_setup(4, 1, 0), None, None).unwrap();
    video
        .submit(
            s,
            4,
            draw(shader, mesh, vec![
                uniform("u_Scale", UniformVariableType::F32, vec![9, 8, 7, 6]),
                uniform("u_Color", UniformVariableType::Vector4f, (0..16).collect()),
            ]),
        )
        .unwrap();
    let frame = video.front_frame();
    assert_eq!(frame.tasks.len(), 1);
    assert_eq!(frame.buf.len(), 20);
    let (surface, order, task) = &frame.tasks[0];
    assert_eq!(*surface, s);
    assert_eq!(*order, 4);
    match task {
        FrameTask::DrawCall(dc) => {
            assert_eq!(dc.shader, shader);
            assert_eq!(dc.mesh, mesh);
            assert_eq!(dc.uniforms.len(), 2);
            assert_eq!(dc.uniforms[0].0, "u_Scale");
            assert_eq!(frame.buf.as_slice(dc.uniforms[0].1), &[9, 8, 7, 6]);
            assert_eq!(dc.uniforms[1].0, "u_Color");
            assert_eq!(frame.buf.as_slice(dc.uniforms[1].1), &(0..16).collect::<Vec<u8>>()[..]);
        }
        _ => panic!("expected a draw call"),
    }
}

#[test]
fn draw_call_errors_for_dead_handles() {
    let mut video = system();
    let s = video.create_surface(surface_setup()).unwrap();
    let shader = video.create_shader(Location::unique(""), shader_setup(&[])).unwrap();
    let mesh = video.create_mesh(Location::unique(""), mesh_setup(4, 1, 0), None, None).unwrap();
    let bogus = crayon::Handle::new(40, 0);
    assert!(matches!(video.submit(bogus, 0, scissor()), Err(GraphicsError::UndefinedSurface)));
    assert!(matches!(video.submit(s, 0, draw(shader, bogus, vec![])), Err(GraphicsError::UndefinedMesh)));
    assert!(matches!(video.submit(s, 0, draw(bogus, mesh, vec![])), Err(GraphicsError::UndefinedShader)));
    assert!(matches!(
        video.submit(s, 0, Command::VertexBufferUpdate(VertexBufferUpdate { mesh: bogus, offset: 0, data: vec![1] })),
        Err(GraphicsError::InvalidHandle)
    ));
    assert!(matches!(video.update_vertex_buffer(bogus, 0, &[1]), Err(GraphicsError::InvalidHandle)));
    assert!(matches!(video.update_texture(bogus, Rect { left: 0, top: 0, right: 1, bottom: 1 }, &[1]), Err(GraphicsError::InvalidHandle)));
    assert_eq!(video.front_frame().tasks.len(), 0);
}

#[test]
fn double_buffer_swap_isolates_frames() {
    let mut system = GraphicsSystem::new((800, 600), (800, 600), 0x3f80_0000);
    let s = system.shared_mut().create_surface(surface_setup()).unwrap();
    for order in 0..3u64 {
        system.shared_mut().submit(s, order, scissor()).unwrap();
    }
    system.swap_frames();
    assert_eq!(system.shared().front_frame().tasks.len(), 0);
    assert_eq!(system.shared().front_frame().pre.len(), 0);
    assert_eq!(system.back_frame().tasks.len(), 3);
    assert_eq!(system.back_frame().pre.len(), 1);
    // Recording into the new front leaves the back frame alone.
    system.shared_mut().submit(s, 7, scissor()).unwrap();
    system.shared_mut().submit(s, 8, scissor()).unwrap();
    assert_eq!(system.back_frame().tasks.len(), 3);
    assert_eq!(system.shared().front_frame().tasks.len(), 2);
}

#[test]
fn not_ready_texture_update_is_silent() {
    let mut video = system();
    let s = video.create_surface(surface_setup()).unwrap();
    let texture = video.create_texture_from(Location::shared(0, "textures/grass")).unwrap();
    let pre = video.front_frame().pre.len();
    let rect = Rect { left: 0, top: 0, right: 2, bottom: 2 };
    assert!(video.update_texture(texture, rect, &[1, 2, 3, 4]).is_ok());
    assert_eq!(video.front_frame().pre.len(), pre);
    assert!(video.submit(s, 0, Command::TextureUpdate(TextureUpdate { texture, rect, data: vec![5] })).is_ok());
    assert_eq!(video.front_frame().tasks.len(), 0);
    assert_eq!(video.front_frame().buf.len(), 0);
    // Once loaded, updates are recorded.
    video.finish_texture_load(texture, texture_setup(), &[0; 16]).unwrap();
    assert_eq!(video.front_frame().pre.len(), pre + 1);
    video.update_texture(texture, rect, &[1, 2, 3, 4]).unwrap();
    assert_eq!(video.front_frame().pre.len(), pre + 2);
    match &video.front_frame().pre[pre + 1] {
        PreFrameTask::UpdateTexture(h, r, ptr) => {
            assert_eq!(*h, texture);
            assert_eq!(*r, rect);
            assert_eq!(video.front_frame().buf.as_slice(*ptr), &[1, 2, 3, 4]);
        }
        _ => panic!("expected a texture update"),
    }
}

#[test]
fn out_of_bounds_mesh_is_refused_before_allocation() {
    let mut video = system();
    let location = Location::shared(0, "meshes/tri");
    let verts = vec![0u8; 37];
    let r = video.create_mesh(location.clone_location(), mesh_setup(12, 3, 3), Some(&verts[..]), None);
    assert!(matches!(r, Err(GraphicsError::OutOfBounds)));
    assert_eq!(video.lookup_mesh_from(&location), None);
    assert_eq!(video.front_frame().pre.len(), 0);
    let idxes = vec![0u8; 7];
    let r = video.create_mesh(location.clone_location(), mesh_setup(12, 3, 3), Some(&verts[..36]), Some(&idxes[..]));
    assert!(matches!(r, Err(GraphicsError::OutOfBounds)));
    // No slot was taken: the first real creation gets slot zero.
    let h = video.create_mesh(location.clone_location(), mesh_setup(12, 3, 3), Some(&verts[..36]), Some(&idxes[..6])).unwrap();
    assert_eq!(h.index, 0);
    let frame = video.front_frame();
    assert_eq!(frame.buf.len(), 42);
    match &frame.pre[0] {
        PreFrameTask::CreateMesh(m, _, Some(v), Some(i)) => {
            assert_eq!(*m, h);
            assert_eq!((v.offset, v.len), (0, 36));
            assert_eq!((i.offset, i.len), (36, 6));
        }
        _ => panic!("expected a mesh creation"),
    }
}

#[test]
fn invalid_mesh_setup_is_refused() {
    let mut video = system();
    let r = video.create_mesh(Location::unique(""), mesh_setup(usize::MAX, 2, 0), None, None);
    assert!(matches!(r, Err(GraphicsError::InvalidMeshSetup)));
    assert_eq!(video.front_frame().pre.len(), 0);
}

#[test]
fn shader_setup_errors() {
    let mut video = system();
    let many: Vec<(String, UniformVariableType)> = (0..33).map(|i| (format!("u_{}", i), UniformVariableType::F32)).collect();
    let mut setup = shader_setup(&[]);
    setup.uniform_variables = many;
    assert!(matches!(video.create_shader(Location::unique(""), setup), Err(GraphicsError::TooManyUniforms)));
    let mut setup = shader_setup(&[]);
    setup.vs = String::new();
    assert!(matches!(video.create_shader(Location::unique(""), setup), Err(GraphicsError::MissingVertexShader)));
    let mut setup = shader_setup(&[]);
    setup.fs = String::new();
    assert!(matches!(video.create_shader(Location::unique(""), setup), Err(GraphicsError::MissingFragmentShader)));
    assert_eq!(video.front_frame().pre.len(), 0);
    let ok: Vec<(String, UniformVariableType)> = (0..32).map(|i| (format!("u_{}", i), UniformVariableType::F32)).collect();
    let mut setup = shader_setup(&[]);
    setup.uniform_variables = ok;
    let h = video.create_shader(Location::unique(""), setup).unwrap();
    assert_eq!(video.shader_state(h).unwrap().uniform_variables.len(), 32);
}

#[test]
fn buffer_updates_stage_bytes() {
    let mut video = system();
    let s = video.create_surface(surface_setup()).unwrap();
    let mesh = video.create_mesh(Location::unique(""), mesh_setup(4, 4, 4), None, None).unwrap();
    video.update_vertex_buffer(mesh, 4, &[1, 2, 3]).unwrap();
    video.update_index_buffer(mesh, 2, &[4, 5]).unwrap();
    video.submit(s, 1, Command::IndexBufferUpdate(IndexBufferUpdate { mesh, offset: 0, data: vec![6] })).unwrap();
    let frame = video.front_frame();
    assert_eq!(frame.buf.len(), 6);
    match &frame.pre[2] {
        PreFrameTask::UpdateVertexBuffer(m, 4, p) => {
            assert_eq!(*m, mesh);
            assert_eq!(frame.buf.as_slice(*p), &[1, 2, 3]);
        }
        _ => panic!("expected a vertex buffer update"),
    }
    match &frame.pre[3] {
        PreFrameTask::UpdateIndexBuffer(m, 2, p) => {
            assert_eq!(*m, mesh);
            assert_eq!(frame.buf.as_slice(*p), &[4, 5]);
        }
        _ => panic!("expected an index buffer update"),
    }
    match &frame.tasks[0] {
        (_, 1, FrameTask::UpdateIndexBuffer(m, 0, p)) => {
            assert_eq!(*m, mesh);
            assert_eq!(frame.buf.as_slice(*p), &[6]);
        }
        _ => panic!("expected an ordered index buffer update"),
    }
}

#[test]
fn texture_creation_and_deduplication() {
    let mut video = system();
    let location = Location::shared(3, "textures/sky");
    let t = video.create_texture(location.clone_location(), texture_setup(), Some(&[7u8; 16][..])).unwrap();
    assert_eq!(video.lookup_texture_from(&location), Some(t));
    let u = video.create_texture(location.clone_location(), texture_setup(), None).unwrap();
    assert_eq!(t, u);
    assert_eq!(video.front_frame().pre.len(), 1);
    assert_eq!(video.front_frame().buf.len(), 16);
    let rt = video
        .create_render_texture(crayon::setup::RenderTextureSetup { format: RenderTextureFormat::RGBA8, dimensions: (8, 8) })
        .unwrap();
    assert_ne!(rt, t);
    video.delete_texture(rt);
    assert_eq!(video.front_frame().post, vec![PostFrameTask::DeleteTexture(rt)]);
}

#[test]
fn advance_clears_back_frame_and_counts_live_resources() {
    let mut system = GraphicsSystem::new((800, 600), (800, 600), 0x3f80_0000);
    let s = system.shared_mut().create_surface(surface_setup()).unwrap();
    let m = system.shared_mut().create_mesh(Location::unique(""), mesh_setup(4, 1, 0), Some(&[1, 2, 3, 4][..]), None).unwrap();
    let _m2 = system.shared_mut().create_mesh(Location::unique(""), mesh_setup(4, 1, 0), None, None).unwrap();
    system.shared_mut().delete_mesh(m);
    system.shared_mut().submit(s, 0, scissor()).unwrap();
    // Starting the tick swaps the recorded work into the back frame.
    assert!(!system.begin_advance((800, 600), (800, 600), 0x3f80_0000));
    assert_eq!(system.shared().front_frame().tasks.len(), 0);
    assert_eq!(system.back_frame().dispatch().len(), 5);
    let alive = system.finish_advance();
    assert_eq!(alive.surfaces, 1);
    assert_eq!(alive.meshes, 1);
    assert_eq!(alive.shaders, 0);
    assert_eq!(system.back_frame().pre.len(), 0);
    assert_eq!(system.back_frame().buf.len(), 0);
    // A reclaimed slot is reused with a new version; the old handle stays dead.
    let m3 = system.shared_mut().create_mesh(Location::unique(""), mesh_setup(4, 1, 0), None, None).unwrap();
    assert_eq!(m3.index, m.index);
    assert_ne!(m3.version, m.version);
    assert!(matches!(system.shared_mut().update_vertex_buffer(m, 0, &[1]), Err(GraphicsError::InvalidHandle)));
}

#[test]
fn begin_advance_detects_resize() {
    let mut system = GraphicsSystem::new((800, 600), (1600, 1200), 0x4000_0000);
    assert!(system.begin_advance((1024, 768), (2048, 1536), 0x4000_0000));
    assert_eq!(system.shared().dimensions(), (1024, 768));
    assert_eq!(system.shared().dimensions_in_pixels(), (2048, 1536));
    assert!(!system.begin_advance((1024, 768), (2048, 1536), 0x4000_0000));
    assert!(system.begin_advance((1024, 768), (1024, 768), 0x3f80_0000));
}

#[test]
fn staging_buffer_tokens() {
    let mut buf = crayon::DataBuffer::with_capacity(4);
    let a = buf.extend_from_slice(&[1, 2, 3]);
    let b = buf.extend_from_slice(&[]);
    let c = buf.extend_from_slice(&[4, 5]);
    assert_eq!((a.offset, a.len), (0, 3));
    assert_eq!((b.offset, b.len), (3, 0));
    assert_eq!((c.offset, c.len), (3, 2));
    assert_eq!(buf.as_slice(c), &[4, 5]);
    assert_eq!(buf.as_slice(a), &[1, 2, 3]);
    buf.clear();
    assert_eq!(buf.len(), 0);
}

#[test]
fn registry_reclaims_dead_slots_on_clear() {
    let mut reg: crayon::Registry<u8> = crayon::Registry::new();
    let a = reg.create(Location::unique(""), 1).unwrap();
    let b = reg.create(Location::unique(""), 2).unwrap();
    assert_eq!(reg.dec_rc(a, true), Some(1));
    // Dead but not reclaimed: a new resource takes a new slot.
    let c = reg.create(Location::unique(""), 3).unwrap();
    assert_eq!(c.index, 2);
    assert_eq!(reg.clear(), 1);
    assert_eq!(reg.len(), 2);
    let d = reg.create(Location::unique(""), 4).unwrap();
    assert_eq!(d.index, a.index);
    assert_eq!(d.version, a.version + 1);
    assert!(!reg.is_alive(a));
    assert!(reg.is_alive(b) && reg.is_alive(d));
    assert_eq!(reg.inc_rc(d), true);
    assert_eq!(reg.rc(d), 2);
    assert_eq!(reg.inc_rc(a), false);
}

#[test]
fn take_back_hands_out_the_dispatched_frame() {
    let mut system = GraphicsSystem::new((800, 600), (800, 600), 0x3f80_0000);
    let s = system.shared_mut().create_surface(surface_setup()).unwrap();
    system.shared_mut().submit(s, 1, scissor()).unwrap();
    system.begin_advance((800, 600), (800, 600), 0x3f80_0000);
    let mut frame = system.take_back(crayon::Frame::with_capacity(16));
    assert_eq!(frame.tasks.len(), 1);
    assert_eq!(frame.pre.len(), 1);
    assert_eq!(system.back_frame().tasks.len(), 0);
    // Recording goes on while the frame is out.
    system.shared_mut().submit(s, 2, scissor()).unwrap();
    frame.clear();
    let alive = system.finish_advance();
    assert_eq!(alive.surfaces, 1);
    assert_eq!(system.shared().front_frame().tasks.len(), 1);
}

#[test]
fn registry_release_without_delete_hands_back_nothing() {
    let mut reg: crayon::Registry<u8> = crayon::Registry::new();
    let h = reg.create(Location::unique(""), 5).unwrap();
    assert_eq!(reg.dec_rc(h, false), None);
    assert!(!reg.is_alive(h));
    assert_eq!(reg.len(), 0);
}

#[test]
fn dedup_keeps_resource_state() {
    let mut video = system();
    let location = Location::shared(0, "shaders/keep");
    let a = video
        .create_shader(location.clone_location(), shader_setup(&[("u_A", UniformVariableType::F32)]))
        .unwrap();
    let b = video
        .create_shader(location.clone_location(), shader_setup(&[("u_B", UniformVariableType::I32)]))
        .unwrap();
    assert_eq!(a, b);
    let state = video.shader_state(a).unwrap();
    assert_eq!(state.uniform_variables, vec![("u_A".to_string(), UniformVariableType::F32)]);
    assert_eq!(state.layout, vec![(Attribute::Position, 3)]);
    // A texture still loading stays so when created again at its location.
    let tl = Location::shared(0, "textures/loading");
    let t = video.create_texture_from(tl.clone_location()).unwrap();
    assert_eq!(video.create_texture(tl.clone_location(), texture_setup(), Some(&[1u8; 16][..])).unwrap(), t);
    let pre = video.front_frame().pre.len();
    video.update_texture(t, Rect { left: 0, top: 0, right: 1, bottom: 1 }, &[1]).unwrap();
    assert_eq!(video.front_frame().pre.len(), pre);
}
