use vstd::prelude::*;

use crate::buffer::BufferPtr;
use crate::errors::GraphicsError;
use crate::frame::{
    lemma_push_post, lemma_push_pre, recorded, DoubleFrame, Frame, FrameDrawCall, FrameTask, PostFrameTask,
    PreFrameTask,
};
use crate::handle::{
    FrameBufferHandle, Handle, Location, MeshHandle, RenderBufferHandle, ShaderHandle, SurfaceHandle,
    TextureHandle,
};
use crate::registry::{allocated, count_set, live_count, value_set, Registry, MAX_SLOTS};
use crate::setup::{
    clone_decls, clone_layout, declared, declared_type, decls_view, first_misfit, fits_upto, uniform_bytes, uniform_fits,
    Command, DrawCall, FrameBufferSetup, MeshSetup, MeshState, Rect, RenderBufferSetup, RenderTextureSetup,
    ResourceState, ShaderSetup, ShaderState, SurfaceSetup, TextureSetup, TextureState, UniformVariable,
    UniformVariableType, MAX_UNIFORM_VARIABLES,
};

verus! {

/// The arena capacity each frame starts with.
pub const FRAME_CAPACITY: usize = 65536;

/// The resource categories, one registry each.
#[derive(Clone, Copy, Debug, PartialEq, Eq, Structural)]
pub enum Category {
    Surfaces,
    Shaders,
    FrameBuffers,
    RenderBuffers,
    Meshes,
    Textures,
}

/// What `dec_rc` does to a registry: a dead handle changes nothing; a live one
/// loses one count.
pub open spec fn released_once<T>(before: Registry<T>, after: Registry<T>, h: Handle) -> bool {
    &&& !before.is_live(h) ==> after == before
    &&& before.is_live(h) ==> count_set(before@, after@, h.index as int, (before.rc_of(h) - 1) as u32)
}

/// Releasing `h` from `reg` tears the resource down: it holds the last count.
pub open spec fn last_owner<T>(reg: Registry<T>, h: Handle) -> bool {
    reg.is_live(h) && reg.rc_of(h) == 1
}

/// The bytes of an optional payload: none for no payload.
pub open spec fn opt_bytes(data: Option<&[u8]>) -> Seq<u8> {
    match data {
        Some(d) => d@,
        None => Seq::empty(),
    }
}

/// The token of an optional payload staged at `offset`.
pub open spec fn staged_ptr(data: Option<&[u8]>, offset: int) -> Option<BufferPtr> {
    match data {
        Some(d) => Some(BufferPtr { offset: offset as usize, len: d@.len() as usize }),
        None => None,
    }
}

/// Stages an optional payload in the frame's arena.
fn stage(frame: &mut Frame, data: Option<&[u8]>) -> (r: Option<BufferPtr>)
    requires
        old(frame).wf(),
    ensures
        final(frame).wf(),
        recorded(*old(frame), *final(frame), seq![], seq![], seq![], opt_bytes(data)),
        r == staged_ptr(data, old(frame).buf@.len() as int),
        r.is_some() ==> r.unwrap().within(final(frame).buf@.len()),
{
    match data {
        Some(d) => {
            let p = frame.buf.extend_from_slice(d);
            proof {
                old(frame).lemma_wf_grows(old(frame).buf@.len(), frame.buf@.len());
                assert(frame.pre@ =~= old(frame).pre@ + Seq::empty());
                assert(frame.tasks@ =~= old(frame).tasks@ + Seq::empty());
                assert(frame.post@ =~= old(frame).post@ + Seq::empty());
            }
            Some(p)
        },
        None => {
            proof {
                assert(frame.pre@ =~= old(frame).pre@ + Seq::empty());
                assert(frame.tasks@ =~= old(frame).tasks@ + Seq::empty());
                assert(frame.post@ =~= old(frame).post@ + Seq::empty());
                assert(frame.buf@ =~= old(frame).buf@ + Seq::empty());
            }
            None
        },
    }
}

/// The error of a refused draw call names its first uniform that does not fit
/// the shader's declarations: undefined where the name is not declared,
/// unmatched where its declared type differs.
pub open spec fn uniform_error(
    decls: Seq<(Seq<char>, UniformVariableType)>,
    us: Seq<(String, UniformVariable)>,
    r: Result<(), GraphicsError>,
) -> bool {
    match r {
        Err(GraphicsError::UndefinedUniform(n)) => exists|k: int|
            #[trigger] first_misfit(decls, us, k) && declared_type(decls, us[k].0@).is_none() && n@ == us[k].0@,
        Err(GraphicsError::UnmatchedUniform(n)) => exists|k: int|
            #[trigger] first_misfit(decls, us, k) && declared_type(decls, us[k].0@).is_some() && n@ == us[k].0@,
        _ => false,
    }
}

/// `after` is `before` with one draw call for `call` appended to the ordered tasks
/// and the values of its uniforms staged, each uniform's token covering its
/// value.
pub open spec fn drawcall_recorded(before: Frame, after: Frame, surface: SurfaceHandle, order: u64, call: DrawCall) -> bool {
    &&& after.pre@ == before.pre@
    &&& after.post@ == before.post@
    &&& after.buf@ == before.buf@ + uniform_bytes(call.uniforms@)
    &&& after.tasks@.len() == before.tasks@.len() + 1
    &&& after.tasks@.subrange(0, before.tasks@.len() as int) == before.tasks@
    &&& match after.tasks@.last() {
        (s, o, FrameTask::DrawCall(dc)) => {
            &&& s == surface
            &&& o == order
            &&& dc.shader == call.shader
            &&& dc.mesh == call.mesh
            &&& dc.index == call.index
            &&& dc.uniforms@.len() == call.uniforms@.len()
            &&& forall|k: int| 0 <= k < dc.uniforms@.len() ==> {
                let p = (#[trigger] dc.uniforms@[k]).1;
                &&& dc.uniforms@[k].0@ == call.uniforms@[k].0@
                &&& p.within(after.buf@.len())
                &&& after.buf@.subrange(p.offset as int, p.offset + p.len) == call.uniforms@[k].1.bytes@
            }
        },
        _ => false,
    }
}

/// Appends an ordered task whose tokens resolve in the frame's arena, after
/// the bytes that `stage` put there.
fn push_task(frame: &mut Frame, t: (SurfaceHandle, u64, FrameTask))
    requires
        old(frame).wf(),
        t.2.ptrs_within(old(frame).buf@.len()),
    ensures
        final(frame).wf(),
        final(frame).pre@ == old(frame).pre@,
        final(frame).tasks@ == old(frame).tasks@.push(t),
        final(frame).post@ == old(frame).post@,
        final(frame).buf@ == old(frame).buf@,
{
    frame.tasks.push(t);
}

/// Stages the value of each uniform and pairs its name with its token.
fn stage_uniforms(frame: &mut Frame, us: &Vec<(String, UniformVariable)>) -> (pack: Vec<(String, BufferPtr)>)
    requires
        old(frame).wf(),
    ensures
        final(frame).wf(),
        final(frame).pre@ == old(frame).pre@,
        final(frame).tasks@ == old(frame).tasks@,
        final(frame).post@ == old(frame).post@,
        final(frame).buf@ == old(frame).buf@ + uniform_bytes(us@),
        pack@.len() == us@.len(),
        forall|k: int| 0 <= k < pack@.len() ==> {
            let p = (#[trigger] pack@[k]).1;
            &&& pack@[k].0@ == us@[k].0@
            &&& p.within(final(frame).buf@.len())
            &&& final(frame).buf@.subrange(p.offset as int, p.offset + p.len) == us@[k].1.bytes@
        },
{
    let mut pack: Vec<(String, BufferPtr)> = Vec::new();
    let mut k: usize = 0;
    proof {
        assert(uniform_bytes(us@.subrange(0, 0)) =~= Seq::<u8>::empty());
        assert(frame.buf@ =~= old(frame).buf@ + uniform_bytes(us@.subrange(0, 0)));
    }
    while k < us.len()
        invariant
            0 <= k <= us@.len(),
            old(frame).wf(),
            frame.pre@ == old(frame).pre@,
            frame.tasks@ == old(frame).tasks@,
            frame.post@ == old(frame).post@,
            frame.buf@ == old(frame).buf@ + uniform_bytes(us@.subrange(0, k as int)),
            pack@.len() == k,
            forall|j: int| 0 <= j < k ==> {
                let p = (#[trigger] pack@[j]).1;
                &&& pack@[j].0@ == us@[j].0@
                &&& p.within(frame.buf@.len())
                &&& frame.buf@.subrange(p.offset as int, p.offset + p.len) == us@[j].1.bytes@
            },
        decreases us@.len() - k,
    {
        let ghost before = frame.buf@;
        let p = frame.buf.extend_from_slice(us[k].1.bytes.as_slice());
        pack.push((us[k].0.clone(), p));
        proof {
            let sub = us@.subrange(0, k as int + 1);
            assert(sub.drop_last() =~= us@.subrange(0, k as int));
            assert(sub.last() == us@[k as int]);
            assert(frame.buf@ =~= old(frame).buf@ + uniform_bytes(sub));
            assert forall|j: int| 0 <= j < k + 1 implies {
                let q = (#[trigger] pack@[j]).1;
                &&& pack@[j].0@ == us@[j].0@
                &&& q.within(frame.buf@.len())
                &&& frame.buf@.subrange(q.offset as int, q.offset + q.len) == us@[j].1.bytes@
            } by {
                let q = pack@[j].1;
                if j < k {
                    assert(frame.buf@.subrange(q.offset as int, q.offset + q.len) =~= before.subrange(q.offset as int, q.offset + q.len));
                } else {
                    assert(frame.buf@.subrange(q.offset as int, q.offset + q.len) =~= us@[j].1.bytes@);
                }
            }
        }
        k += 1;
    }
    proof {
        assert(us@.subrange(0, k as int) =~= us@);
        old(frame).lemma_wf_grows(old(frame).buf@.len(), frame.buf@.len());
    }
    pack
}

/// The entry point for recording work: it validates handles against the
/// registries and records into the front frame.
pub struct GraphicsSystemShared {
    frames: DoubleFrame,
    dimensions: ((u32, u32), (u32, u32)),
    surfaces: Registry<()>,
    shaders: Registry<ShaderState>,
    framebuffers: Registry<()>,
    render_buffers: Registry<()>,
    meshes: Registry<MeshState>,
    textures: Registry<TextureState>,
}

impl GraphicsSystemShared {
    pub closed spec fn spec_frames(&self) -> DoubleFrame {
        self.frames
    }

    pub closed spec fn spec_dimensions(&self) -> ((u32, u32), (u32, u32)) {
        self.dimensions
    }

    pub closed spec fn surfaces(&self) -> Registry<()> {
        self.surfaces
    }

    pub closed spec fn shaders(&self) -> Registry<ShaderState> {
        self.shaders
    }

    pub closed spec fn framebuffers(&self) -> Registry<()> {
        self.framebuffers
    }

    pub closed spec fn render_buffers(&self) -> Registry<()> {
        self.render_buffers
    }

    pub closed spec fn meshes(&self) -> Registry<MeshState> {
        self.meshes
    }

    pub closed spec fn textures(&self) -> Registry<TextureState> {
        self.textures
    }

    /// The frame that calls record into.
    pub open spec fn front(&self) -> Frame {
        self.spec_frames().front_view()
    }

    /// The frame that the driver drains.
    pub open spec fn back(&self) -> Frame {
        self.spec_frames().back_view()
    }

    pub open spec fn wf(&self) -> bool {
        &&& self.spec_frames().wf()
        &&& self.surfaces().wf()
        &&& self.shaders().wf()
        &&& self.framebuffers().wf()
        &&& self.render_buffers().wf()
        &&& self.meshes().wf()
        &&& self.textures().wf()
    }

    /// `after` keeps every registry of `before` but that of `c`, the back frame and
    /// the dimensions.
    pub open spec fn keeps_others(before: Self, after: Self, c: Category) -> bool {
        &&& c != Category::Surfaces ==> after.surfaces() == before.surfaces()
        &&& c != Category::Shaders ==> after.shaders() == before.shaders()
        &&& c != Category::FrameBuffers ==> after.framebuffers() == before.framebuffers()
        &&& c != Category::RenderBuffers ==> after.render_buffers() == before.render_buffers()
        &&& c != Category::Meshes ==> after.meshes() == before.meshes()
        &&& c != Category::Textures ==> after.textures() == before.textures()
        &&& after.back() == before.back()
        &&& after.spec_frames().role() == before.spec_frames().role()
        &&& after.spec_dimensions() == before.spec_dimensions()
    }

    /// No registry changes, nor the back frame, nor the dimensions.
    pub open spec fn keeps_registries(before: Self, after: Self) -> bool {
        Self::keeps_others(before, after, Category::Surfaces) && after.surfaces() == before.surfaces()
    }

    /// What submitting a draw call to a live surface does.
    pub open spec fn drawcall_outcome(before: Self, after: Self, surface: SurfaceHandle, order: u64, call: DrawCall, r: Result<(), GraphicsError>) -> bool {
        if !before.meshes().is_live(call.mesh) {
            r == Err::<(), GraphicsError>(GraphicsError::UndefinedMesh) && after == before
        } else if !before.shaders().is_live(call.shader) {
            r == Err::<(), GraphicsError>(GraphicsError::UndefinedShader) && after == before
        } else {
            let decls = decls_view(before.shaders().value_of(call.shader).uniform_variables@);
            if fits_upto(decls, call.uniforms@, call.uniforms@.len() as int) {
                &&& r == Ok::<(), GraphicsError>(())
                &&& Self::keeps_registries(before, after)
                &&& drawcall_recorded(before.front(), after.front(), surface, order, call)
            } else {
                after == before && uniform_error(decls, call.uniforms@, r)
            }
        }
    }

    /// `after` is `before` with the ordered task `t` appended and `staged` in the arena.
    pub open spec fn task_recorded(before: Self, after: Self, t: (SurfaceHandle, u64, FrameTask), staged: Seq<u8>) -> bool {
        &&& Self::keeps_registries(before, after)
        &&& recorded(before.front(), after.front(), seq![], seq![t], seq![], staged)
    }

    /// What `submit` does.
    pub open spec fn submit_outcome(before: Self, after: Self, surface: SurfaceHandle, order: u64, command: Command, r: Result<(), GraphicsError>) -> bool {
        let p = |data: Seq<u8>| BufferPtr { offset: before.front().buf@.len() as usize, len: data.len() as usize };
        if !before.surfaces().is_live(surface) {
            r == Err::<(), GraphicsError>(GraphicsError::UndefinedSurface) && after == before
        } else {
            match command {
                Command::DrawCall(call) => Self::drawcall_outcome(before, after, surface, order, call, r),
                Command::VertexBufferUpdate(u) => if before.meshes().is_live(u.mesh) {
                    r == Ok::<(), GraphicsError>(()) && Self::task_recorded(before, after,
                        (surface, order, FrameTask::UpdateVertexBuffer(u.mesh, u.offset, p(u.data@))), u.data@)
                } else {
                    r == Err::<(), GraphicsError>(GraphicsError::InvalidHandle) && after == before
                },
                Command::IndexBufferUpdate(u) => if before.meshes().is_live(u.mesh) {
                    r == Ok::<(), GraphicsError>(()) && Self::task_recorded(before, after,
                        (surface, order, FrameTask::UpdateIndexBuffer(u.mesh, u.offset, p(u.data@))), u.data@)
                } else {
                    r == Err::<(), GraphicsError>(GraphicsError::InvalidHandle) && after == before
                },
                Command::TextureUpdate(u) => if !before.textures().is_live(u.texture) {
                    r == Err::<(), GraphicsError>(GraphicsError::InvalidHandle) && after == before
                } else if before.textures().value_of(u.texture) == ResourceState::Ready {
                    r == Ok::<(), GraphicsError>(()) && Self::task_recorded(before, after,
                        (surface, order, FrameTask::UpdateTexture(u.texture, u.rect, p(u.data@))), u.data@)
                } else {
                    r == Ok::<(), GraphicsError>(()) && after == before
                },
                Command::SetScissor(u) => r == Ok::<(), GraphicsError>(()) && Self::task_recorded(before, after,
                    (surface, order, FrameTask::UpdateSurface(u.scissor)), Seq::empty()),
            }
        }
    }

    /// A system with empty registries and two empty frames.
    pub fn new(dimensions: (u32, u32), dimensions_in_pixels: (u32, u32)) -> (r: GraphicsSystemShared)
        ensures
            r.wf(),
            r.front().is_empty(),
            r.back().is_empty(),
            r.spec_dimensions() == (dimensions, dimensions_in_pixels),
            r.surfaces()@.len() == 0,
            r.shaders()@.len() == 0,
            r.framebuffers()@.len() == 0,
            r.render_buffers()@.len() == 0,
            r.meshes()@.len() == 0,
            r.textures()@.len() == 0,
    {
        GraphicsSystemShared {
            frames: DoubleFrame::with_capacity(FRAME_CAPACITY),
            dimensions: (dimensions, dimensions_in_pixels),
            surfaces: Registry::new(),
            shaders: Registry::new(),
            framebuffers: Registry::new(),
            render_buffers: Registry::new(),
            meshes: Registry::new(),
            textures: Registry::new(),
        }
    }

    /// The size in points of the window's client area.
    pub fn dimensions(&self) -> (r: (u32, u32))
        ensures
            r == self.spec_dimensions().0,
    {
        self.dimensions.0
    }

    /// The size in pixels of the window's client area.
    pub fn dimensions_in_pixels(&self) -> (r: (u32, u32))
        ensures
            r == self.spec_dimensions().1,
    {
        self.dimensions.1
    }

    /// The frame that calls record into.
    pub fn front_frame(&self) -> (r: &Frame)
        ensures
            *r == self.front(),
    {
        self.frames.front_ref()
    }

    /// Creates a surface from `setup`.
    pub fn create_surface(&mut self, setup: SurfaceSetup) -> (r: Result<SurfaceHandle, GraphicsError>)
        requires
            old(self).wf(),
        ensures
            final(self).wf(),
            Self::keeps_others(*old(self), *final(self), Category::Surfaces),
            match r {
                Ok(h) => {
                    &&& allocated(old(self).surfaces()@, final(self).surfaces()@, h)
                    &&& recorded(old(self).front(), final(self).front(), seq![PreFrameTask::CreateSurface(h, setup)], seq![], seq![], seq![])
                },
                Err(e) => {
                    &&& e == GraphicsError::RegistryFull
                    &&& old(self).surfaces()@.len() == MAX_SLOTS
                    &&& *final(self) == *old(self)
                },
            },
    {
        let location = Location::unique("");
        match self.surfaces.create(location, ()) {
            Some(handle) => {
                let frame = self.frames.front();
                frame.pre.push(PreFrameTask::CreateSurface(handle, setup));
                proof {
                    lemma_push_pre(old(self).front(), self.front(), PreFrameTask::CreateSurface(handle, setup));
                }
                Ok(handle)
            },
            None => Err(GraphicsError::RegistryFull),
        }
    }

    /// Releases a surface; the last release records its deletion.
    pub fn delete_surface(&mut self, handle: SurfaceHandle)
        requires
            old(self).wf(),
        ensures
            final(self).wf(),
            Self::keeps_others(*old(self), *final(self), Category::Surfaces),
            released_once(old(self).surfaces(), final(self).surfaces(), handle),
            last_owner(old(self).surfaces(), handle) ==> recorded(old(self).front(), final(self).front(), seq![], seq![], seq![PostFrameTask::DeleteSurface(handle)], seq![]),
            !last_owner(old(self).surfaces(), handle) ==> final(self).front() == old(self).front(),
    {
        if self.surfaces.dec_rc(handle, true).is_some() {
            let frame = self.frames.front();
            frame.post.push(PostFrameTask::DeleteSurface(handle));
            proof {
                lemma_push_post(old(self).front(), self.front(), PostFrameTask::DeleteSurface(handle));
            }
        }
    }

    /// Creates a frame buffer, to render into textures and render buffers.
    pub fn create_framebuffer(&mut self, setup: FrameBufferSetup) -> (r: Result<FrameBufferHandle, GraphicsError>)
        requires
            old(self).wf(),
        ensures
            final(self).wf(),
            Self::keeps_others(*old(self), *final(self), Category::FrameBuffers),
            match r {
                Ok(h) => {
                    &&& allocated(old(self).framebuffers()@, final(self).framebuffers()@, h)
                    &&& recorded(old(self).front(), final(self).front(), seq![PreFrameTask::CreateFrameBuffer(h, setup)], seq![], seq![], seq![])
                },
                Err(e) => {
                    &&& e == GraphicsError::RegistryFull
                    &&& old(self).framebuffers()@.len() == MAX_SLOTS
                    &&& *final(self) == *old(self)
                },
            },
    {
        let location = Location::unique("");
        match self.framebuffers.create(location, ()) {
            Some(handle) => {
                let frame = self.frames.front();
                frame.pre.push(PreFrameTask::CreateFrameBuffer(handle, setup));
                proof {
                    lemma_push_pre(old(self).front(), self.front(), PreFrameTask::CreateFrameBuffer(handle, setup));
                }
                Ok(handle)
            },
            None => Err(GraphicsError::RegistryFull),
        }
    }

    /// Releases a frame buffer; the last release records its deletion.
    pub fn delete_framebuffer(&mut self, handle: FrameBufferHandle)
        requires
            old(self).wf(),
        ensures
            final(self).wf(),
            Self::keeps_others(*old(self), *final(self), Category::FrameBuffers),
            released_once(old(self).framebuffers(), final(self).framebuffers(), handle),
            last_owner(old(self).framebuffers(), handle) ==> recorded(old(self).front(), final(self).front(), seq![], seq![], seq![PostFrameTask::DeleteFrameBuffer(handle)], seq![]),
            !last_owner(old(self).framebuffers(), handle) ==> final(self).front() == old(self).front(),
    {
        if self.framebuffers.dec_rc(handle, true).is_some() {
            let frame = self.frames.front();
            frame.post.push(PostFrameTask::DeleteFrameBuffer(handle));
            proof {
                lemma_push_post(old(self).front(), self.front(), PostFrameTask::DeleteFrameBuffer(handle));
            }
        }
    }

    /// Creates a render buffer, which a frame buffer can have as an attachment.
    pub fn create_render_buffer(&mut self, setup: RenderBufferSetup) -> (r: Result<RenderBufferHandle, GraphicsError>)
        requires
            old(self).wf(),
        ensures
            final(self).wf(),
            Self::keeps_others(*old(self), *final(self), Category::RenderBuffers),
            match r {
                Ok(h) => {
                    &&& allocated(old(self).render_buffers()@, final(self).render_buffers()@, h)
                    &&& recorded(old(self).front(), final(self).front(), seq![PreFrameTask::CreateRenderBuffer(h, setup)], seq![], seq![], seq![])
                },
                Err(e) => {
                    &&& e == GraphicsError::RegistryFull
                    &&& old(self).render_buffers()@.len() == MAX_SLOTS
                    &&& *final(self) == *old(self)
                },
            },
    {
        let location = Location::unique("");
        match self.render_buffers.create(location, ()) {
            Some(handle) => {
                let frame = self.frames.front();
                frame.pre.push(PreFrameTask::CreateRenderBuffer(handle, setup));
                proof {
                    lemma_push_pre(old(self).front(), self.front(), PreFrameTask::CreateRenderBuffer(handle, setup));
                }
                Ok(handle)
            },
            None => Err(GraphicsError::RegistryFull),
        }
    }

    /// Releases a render buffer; the last release records its deletion.
    pub fn delete_render_buffer(&mut self, handle: RenderBufferHandle)
        requires
            old(self).wf(),
        ensures
            final(self).wf(),
            Self::keeps_others(*old(self), *final(self), Category::RenderBuffers),
            released_once(old(self).render_buffers(), final(self).render_buffers(), handle),
            last_owner(old(self).render_buffers(), handle) ==> recorded(old(self).front(), final(self).front(), seq![], seq![], seq![PostFrameTask::DeleteRenderBuffer(handle)], seq![]),
            !last_owner(old(self).render_buffers(), handle) ==> final(self).front() == old(self).front(),
    {
        if self.render_buffers.dec_rc(handle, true).is_some() {
            let frame = self.frames.front();
            frame.post.push(PostFrameTask::DeleteRenderBuffer(handle));
            proof {
                lemma_push_post(old(self).front(), self.front(), PostFrameTask::DeleteRenderBuffer(handle));
            }
        }
    }

    /// What `delete_shader` does: see there.
    pub open spec fn shader_deleted(before: Self, after: Self, handle: ShaderHandle) -> bool {
        &&& after.wf()
        &&& Self::keeps_others(before, after, Category::Shaders)
        &&& released_once(before.shaders(), after.shaders(), handle)
        &&& last_owner(before.shaders(), handle) ==> recorded(before.front(), after.front(), seq![], seq![], seq![PostFrameTask::DeletePipeline(handle)], seq![])
        &&& !last_owner(before.shaders(), handle) ==> after.front() == before.front()
    }

    /// Releases a shader; the last release records its deletion.
    pub fn delete_shader(&mut self, handle: ShaderHandle)
        requires
            old(self).wf(),
        ensures
            Self::shader_deleted(*old(self), *final(self), handle),
    {
        if self.shaders.dec_rc(handle, true).is_some() {
            let frame = self.frames.front();
            frame.post.push(PostFrameTask::DeletePipeline(handle));
            proof {
                lemma_push_post(old(self).front(), self.front(), PostFrameTask::DeletePipeline(handle));
            }
        }
    }

    /// What `delete_mesh` does: see there.
    pub open spec fn mesh_deleted(before: Self, after: Self, handle: MeshHandle) -> bool {
        &&& after.wf()
        &&& Self::keeps_others(before, after, Category::Meshes)
        &&& released_once(before.meshes(), after.meshes(), handle)
        &&& last_owner(before.meshes(), handle) ==> recorded(before.front(), after.front(), seq![], seq![], seq![PostFrameTask::DeleteMesh(handle)], seq![])
        &&& !last_owner(before.meshes(), handle) ==> after.front() == before.front()
    }

    /// Releases a mesh; the last release records its deletion.
    pub fn delete_mesh(&mut self, handle: MeshHandle)
        requires
            old(self).wf(),
        ensures
            Self::mesh_deleted(*old(self), *final(self), handle),
    {
        if self.meshes.dec_rc(handle, true).is_some() {
            let frame = self.frames.front();
            frame.post.push(PostFrameTask::DeleteMesh(handle));
            proof {
                lemma_push_post(old(self).front(), self.front(), PostFrameTask::DeleteMesh(handle));
            }
        }
    }

    /// Releases a texture; the last release records its deletion.
    pub fn delete_texture(&mut self, handle: TextureHandle)
        requires
            old(self).wf(),
        ensures
            final(self).wf(),
            Self::keeps_others(*old(self), *final(self), Category::Textures),
            released_once(old(self).textures(), final(self).textures(), handle),
            last_owner(old(self).textures(), handle) ==> recorded(old(self).front(), final(self).front(), seq![], seq![], seq![PostFrameTask::DeleteTexture(handle)], seq![]),
            !last_owner(old(self).textures(), handle) ==> final(self).front() == old(self).front(),
    {
        if self.textures.dec_rc(handle, true).is_some() {
            let frame = self.frames.front();
            frame.post.push(PostFrameTask::DeleteTexture(handle));
            proof {
                lemma_push_post(old(self).front(), self.front(), PostFrameTask::DeleteTexture(handle));
            }
        }
    }

    /// What `create_shader` does: see there.
    pub open spec fn shader_created(
        before: Self,
        after: Self,
        location: Location,
        setup: ShaderSetup,
        r: Result<ShaderHandle, GraphicsError>,
    ) -> bool {
        let n = setup.uniform_variables@.len();
        &&& after.wf()
        &&& Self::keeps_others(before, after, Category::Shaders)
        &&& match r {
            Ok(h) => location.spec_is_shared() ==> after.shaders().find(location) == Some(h),
            Err(_) => true,
        }
        &&& if n > MAX_UNIFORM_VARIABLES {
            r == Err::<ShaderHandle, GraphicsError>(GraphicsError::TooManyUniforms) && after == before
        } else if setup.vs@.len() == 0 {
            r == Err::<ShaderHandle, GraphicsError>(GraphicsError::MissingVertexShader) && after == before
        } else if setup.fs@.len() == 0 {
            r == Err::<ShaderHandle, GraphicsError>(GraphicsError::MissingFragmentShader) && after == before
        } else {
            match before.shaders().find(location) {
                Some(h) => if before.shaders().rc_of(h) < u32::MAX {
                    &&& r == Ok::<ShaderHandle, GraphicsError>(h)
                    &&& count_set(before.shaders()@, after.shaders()@, h.index as int, (before.shaders().rc_of(h) + 1) as u32)
                    &&& after.front() == before.front()
                } else {
                    r == Err::<ShaderHandle, GraphicsError>(GraphicsError::RegistryFull) && after == before
                },
                None => match r {
                    Ok(h) => {
                        &&& allocated(before.shaders()@, after.shaders()@, h)
                        &&& after.shaders().location_of(h) == location
                        &&& after.shaders().value_of(h).uniform_variables@ == setup.uniform_variables@
                        &&& after.shaders().value_of(h).render_state == setup.render_state
                        &&& after.shaders().value_of(h).layout@ == setup.layout@
                        &&& recorded(before.front(), after.front(), seq![PreFrameTask::CreatePipeline(h, setup)], seq![], seq![], seq![])
                    },
                    Err(e) => {
                        &&& e == GraphicsError::RegistryFull
                        &&& before.shaders()@.len() == MAX_SLOTS
                        &&& after == before
                    },
                },
            }
        }
    }

    /// The live shader that a shared location maps to.
    pub fn lookup_shader_from(&self, location: &Location) -> (r: Option<ShaderHandle>)
        requires
            self.wf(),
        ensures
            r == self.shaders().find(*location),
    {
        self.shaders.lookup(location)
    }

    /// Creates a shader pipeline from `setup`.
    ///
    /// A setup with more than `MAX_UNIFORM_VARIABLES` uniforms, or with an
    /// empty vertex or fragment stage, is refused. A shared location that
    /// already maps to a live shader gives that shader, one count more, and
    /// records nothing.
    pub fn create_shader(&mut self, location: Location, setup: ShaderSetup) -> (r: Result<ShaderHandle, GraphicsError>)
        requires
            old(self).wf(),
        ensures
            Self::shader_created(*old(self), *final(self), location, setup, r),
    {
        if setup.uniform_variables.len() > MAX_UNIFORM_VARIABLES {
            return Err(GraphicsError::TooManyUniforms);
        }
        if setup.vs.as_str().is_empty() {
            return Err(GraphicsError::MissingVertexShader);
        }
        if setup.fs.as_str().is_empty() {
            return Err(GraphicsError::MissingFragmentShader);
        }
        let fresh = self.shaders.lookup(&location).is_none();
        let state = ShaderState {
            render_state: setup.render_state,
            layout: clone_layout(&setup.layout),
            uniform_variables: clone_decls(&setup.uniform_variables),
        };
        match self.shaders.create(location, state) {
            Some(handle) => {
                if fresh {
                    let frame = self.frames.front();
                    frame.pre.push(PreFrameTask::CreatePipeline(handle, setup));
                    proof {
                        lemma_push_pre(old(self).front(), self.front(), PreFrameTask::CreatePipeline(handle, setup));
                    }
                }
                Ok(handle)
            },
            None => Err(GraphicsError::RegistryFull),
        }
    }

    /// A copy of a live shader's state.
    pub fn shader_state(&self, handle: ShaderHandle) -> (r: Option<ShaderState>)
        requires
            self.wf(),
        ensures
            !self.shaders().is_live(handle) ==> r.is_none(),
            self.shaders().is_live(handle) ==> r.is_some()
                && r.unwrap().uniform_variables@ == self.shaders().value_of(handle).uniform_variables@
                && r.unwrap().render_state == self.shaders().value_of(handle).render_state
                && r.unwrap().layout@ == self.shaders().value_of(handle).layout@,
    {
        match self.shaders.get(handle) {
            Some(state) => Some(state.clone_state()),
            None => None,
        }
    }

    pub fn is_shader_alive(&self, handle: ShaderHandle) -> (r: bool)
        requires
            self.wf(),
        ensures
            r == self.shaders().is_live(handle),
    {
        self.shaders.is_alive(handle)
    }

    /// The live mesh that a shared location maps to.
    pub fn lookup_mesh_from(&self, location: &Location) -> (r: Option<MeshHandle>)
        requires
            self.wf(),
        ensures
            r == self.meshes().find(*location),
    {
        self.meshes.lookup(location)
    }

    /// Registers a mesh whose data is still to be loaded from `location`: its
    /// state is not ready and nothing is recorded until the load finishes. A
    /// shared location that maps to a live mesh gives that mesh, one count more.
    pub fn create_mesh_from(&mut self, location: Location) -> (r: Result<MeshHandle, GraphicsError>)
        requires
            old(self).wf(),
        ensures
            final(self).wf(),
            Self::keeps_others(*old(self), *final(self), Category::Meshes),
            final(self).front() == old(self).front(),
            match old(self).meshes().find(location) {
                Some(h) => if old(self).meshes().rc_of(h) < u32::MAX {
                    &&& r == Ok::<MeshHandle, GraphicsError>(h)
                    &&& count_set(old(self).meshes()@, final(self).meshes()@, h.index as int, (old(self).meshes().rc_of(h) + 1) as u32)
                } else {
                    r == Err::<MeshHandle, GraphicsError>(GraphicsError::RegistryFull) && *final(self) == *old(self)
                },
                None => match r {
                    Ok(h) => {
                        &&& allocated(old(self).meshes()@, final(self).meshes()@, h)
                        &&& final(self).meshes().location_of(h) == location
                        &&& final(self).meshes().value_of(h) == ResourceState::NotReady
                    },
                    Err(e) => {
                        &&& e == GraphicsError::RegistryFull
                        &&& old(self).meshes()@.len() == MAX_SLOTS
                        &&& *final(self) == *old(self)
                    },
                },
            },
    {
        match self.meshes.create(location, ResourceState::NotReady) {
            Some(handle) => Ok(handle),
            None => Err(GraphicsError::RegistryFull),
        }
    }

    /// Creates a mesh from `setup` with optional initial vertex and index bytes.
    ///
    /// Bytes longer than the buffer that `setup` declares are refused, then a
    /// setup whose buffer lengths do not fit in memory. A shared location that
    /// maps to a live mesh gives that mesh, one count more, and records nothing.
    pub fn create_mesh(&mut self, location: Location, setup: MeshSetup, verts: Option<&[u8]>, idxes: Option<&[u8]>) -> (r: Result<MeshHandle, GraphicsError>)
        requires
            old(self).wf(),
        ensures
            final(self).wf(),
            Self::keeps_others(*old(self), *final(self), Category::Meshes),
            opt_bytes(verts).len() > setup.spec_vertex_buffer_len() ==> r == Err::<MeshHandle, GraphicsError>(GraphicsError::OutOfBounds)
                && *final(self) == *old(self),
            opt_bytes(verts).len() <= setup.spec_vertex_buffer_len() && opt_bytes(idxes).len() > setup.spec_index_buffer_len()
                ==> r == Err::<MeshHandle, GraphicsError>(GraphicsError::OutOfBounds) && *final(self) == *old(self),
            opt_bytes(verts).len() <= setup.spec_vertex_buffer_len() && opt_bytes(idxes).len() <= setup.spec_index_buffer_len()
                && !setup.spec_valid() ==> r == Err::<MeshHandle, GraphicsError>(GraphicsError::InvalidMeshSetup) && *final(self) == *old(self),
            opt_bytes(verts).len() <= setup.spec_vertex_buffer_len() && opt_bytes(idxes).len() <= setup.spec_index_buffer_len()
                && setup.spec_valid() ==> match old(self).meshes().find(location) {
                Some(h) => if old(self).meshes().rc_of(h) < u32::MAX {
                    &&& r == Ok::<MeshHandle, GraphicsError>(h)
                    &&& count_set(old(self).meshes()@, final(self).meshes()@, h.index as int, (old(self).meshes().rc_of(h) + 1) as u32)
                    &&& final(self).front() == old(self).front()
                } else {
                    r == Err::<MeshHandle, GraphicsError>(GraphicsError::RegistryFull) && *final(self) == *old(self)
                },
                None => match r {
                    Ok(h) => {
                        let off = old(self).front().buf@.len() as int;
                        &&& allocated(old(self).meshes()@, final(self).meshes()@, h)
                        &&& final(self).meshes().location_of(h) == location
                        &&& final(self).meshes().value_of(h) == ResourceState::Ready
                        &&& recorded(old(self).front(), final(self).front(),
                            seq![PreFrameTask::CreateMesh(h, setup, staged_ptr(verts, off), staged_ptr(idxes, off + opt_bytes(verts).len()))],
                            seq![], seq![], opt_bytes(verts) + opt_bytes(idxes))
                    },
                    Err(e) => {
                        &&& e == GraphicsError::RegistryFull
                        &&& old(self).meshes()@.len() == MAX_SLOTS
                        &&& *final(self) == *old(self)
                    },
                },
            },
    {
        if let Some(v) = verts {
            let len = v.len();
            if let Some(n) = setup.vertex_buffer_len() {
                if len > n {
                    return Err(GraphicsError::OutOfBounds);
                }
            }
        }
        if let Some(v) = idxes {
            let len = v.len();
            if let Some(n) = setup.index_buffer_len() {
                if len > n {
                    return Err(GraphicsError::OutOfBounds);
                }
            }
        }
        if !setup.validate() {
            return Err(GraphicsError::InvalidMeshSetup);
        }
        let fresh = self.meshes.lookup(&location).is_none();
        match self.meshes.create(location, ResourceState::Ready) {
            Some(handle) => {
                if fresh {
                    let ghost f0 = self.front();
                    let frame = self.frames.front();
                    let vp = stage(frame, verts);
                    let ip = stage(frame, idxes);
                    frame.pre.push(PreFrameTask::CreateMesh(handle, setup, vp, ip));
                    proof {
                        let f = self.front();
                        assert(f.pre@ =~= f0.pre@ + seq![PreFrameTask::CreateMesh(handle, setup, vp, ip)]);
                        assert(f.tasks@ =~= f0.tasks@ + Seq::empty());
                        assert(f.post@ =~= f0.post@ + Seq::empty());
                        assert(f.buf@ =~= f0.buf@ + (opt_bytes(verts) + opt_bytes(idxes)));
                    }
                }
                Ok(handle)
            },
            None => Err(GraphicsError::RegistryFull),
        }
    }

    /// Replaces part of a mesh's vertex buffer, from byte `offset` on, before
    /// the ordered tasks of the frame.
    pub fn update_vertex_buffer(&mut self, mesh: MeshHandle, offset: usize, data: &[u8]) -> (r: Result<(), GraphicsError>)
        requires
            old(self).wf(),
        ensures
            final(self).wf(),
            !old(self).meshes().is_live(mesh) ==> r == Err::<(), GraphicsError>(GraphicsError::InvalidHandle) && *final(self) == *old(self),
            old(self).meshes().is_live(mesh) ==> {
                &&& r == Ok::<(), GraphicsError>(())
                &&& Self::keeps_registries(*old(self), *final(self))
                &&& recorded(old(self).front(), final(self).front(),
                    seq![PreFrameTask::UpdateVertexBuffer(mesh, offset, BufferPtr { offset: old(self).front().buf@.len() as usize, len: data@.len() as usize })],
                    seq![], seq![], data@)
            },
    {
        if !self.meshes.is_alive(mesh) {
            return Err(GraphicsError::InvalidHandle);
        }
        let ghost f0 = self.front();
        let frame = self.frames.front();
        let p = stage(frame, Some(data));
        frame.pre.push(PreFrameTask::UpdateVertexBuffer(mesh, offset, p.unwrap()));
        proof {
            let f = self.front();
            assert(f.pre@ =~= f0.pre@ + seq![PreFrameTask::UpdateVertexBuffer(mesh, offset, p.unwrap())]);
            assert(f.tasks@ =~= f0.tasks@ + Seq::empty());
            assert(f.post@ =~= f0.post@ + Seq::empty());
        }
        Ok(())
    }

    /// Replaces part of a mesh's index buffer, from byte `offset` on, before
    /// the ordered tasks of the frame.
    pub fn update_index_buffer(&mut self, mesh: MeshHandle, offset: usize, data: &[u8]) -> (r: Result<(), GraphicsError>)
        requires
            old(self).wf(),
        ensures
            final(self).wf(),
            !old(self).meshes().is_live(mesh) ==> r == Err::<(), GraphicsError>(GraphicsError::InvalidHandle) && *final(self) == *old(self),
            old(self).meshes().is_live(mesh) ==> {
                &&& r == Ok::<(), GraphicsError>(())
                &&& Self::keeps_registries(*old(self), *final(self))
                &&& recorded(old(self).front(), final(self).front(),
                    seq![PreFrameTask::UpdateIndexBuffer(mesh, offset, BufferPtr { offset: old(self).front().buf@.len() as usize, len: data@.len() as usize })],
                    seq![], seq![], data@)
            },
    {
        if !self.meshes.is_alive(mesh) {
            return Err(GraphicsError::InvalidHandle);
        }
        let ghost f0 = self.front();
        let frame = self.frames.front();
        let p = stage(frame, Some(data));
        frame.pre.push(PreFrameTask::UpdateIndexBuffer(mesh, offset, p.unwrap()));
        proof {
            let f = self.front();
            assert(f.pre@ =~= f0.pre@ + seq![PreFrameTask::UpdateIndexBuffer(mesh, offset, p.unwrap())]);
            assert(f.tasks@ =~= f0.tasks@ + Seq::empty());
            assert(f.post@ =~= f0.post@ + Seq::empty());
        }
        Ok(())
    }

    /// The live texture that a shared location maps to.
    pub fn lookup_texture_from(&self, location: &Location) -> (r: Option<TextureHandle>)
        requires
            self.wf(),
        ensures
            r == self.textures().find(*location),
    {
        self.textures.lookup(location)
    }

    /// Registers a texture whose data is still to be loaded from `location`:
    /// its state is not ready and nothing is recorded until the load finishes.
    /// A shared location that maps to a live texture gives that texture, one
    /// count more.
    pub fn create_texture_from(&mut self, location: Location) -> (r: Result<TextureHandle, GraphicsError>)
        requires
            old(self).wf(),
        ensures
            final(self).wf(),
            Self::keeps_others(*old(self), *final(self), Category::Textures),
            final(self).front() == old(self).front(),
            match old(self).textures().find(location) {
                Some(h) => if old(self).textures().rc_of(h) < u32::MAX {
                    &&& r == Ok::<TextureHandle, GraphicsError>(h)
                    &&& count_set(old(self).textures()@, final(self).textures()@, h.index as int, (old(self).textures().rc_of(h) + 1) as u32)
                } else {
                    r == Err::<TextureHandle, GraphicsError>(GraphicsError::RegistryFull) && *final(self) == *old(self)
                },
                None => match r {
                    Ok(h) => {
                        &&& allocated(old(self).textures()@, final(self).textures()@, h)
                        &&& final(self).textures().location_of(h) == location
                        &&& final(self).textures().value_of(h) == ResourceState::NotReady
                    },
                    Err(e) => {
                        &&& e == GraphicsError::RegistryFull
                        &&& old(self).textures()@.len() == MAX_SLOTS
                        &&& *final(self) == *old(self)
                    },
                },
            },
    {
        match self.textures.create(location, ResourceState::NotReady) {
            Some(handle) => Ok(handle),
            None => Err(GraphicsError::RegistryFull),
        }
    }

    /// Creates a texture from `setup` with optional initial texels. A shared
    /// location that maps to a live texture gives that texture, one count
    /// more, and records nothing.
    pub fn create_texture(&mut self, location: Location, setup: TextureSetup, data: Option<&[u8]>) -> (r: Result<TextureHandle, GraphicsError>)
        requires
            old(self).wf(),
        ensures
            final(self).wf(),
            Self::keeps_others(*old(self), *final(self), Category::Textures),
            match old(self).textures().find(location) {
                Some(h) => if old(self).textures().rc_of(h) < u32::MAX {
                    &&& r == Ok::<TextureHandle, GraphicsError>(h)
                    &&& count_set(old(self).textures()@, final(self).textures()@, h.index as int, (old(self).textures().rc_of(h) + 1) as u32)
                    &&& final(self).front() == old(self).front()
                } else {
                    r == Err::<TextureHandle, GraphicsError>(GraphicsError::RegistryFull) && *final(self) == *old(self)
                },
                None => match r {
                    Ok(h) => {
                        &&& allocated(old(self).textures()@, final(self).textures()@, h)
                        &&& final(self).textures().location_of(h) == location
                        &&& final(self).textures().value_of(h) == ResourceState::Ready
                        &&& recorded(old(self).front(), final(self).front(),
                            seq![PreFrameTask::CreateTexture(h, setup, staged_ptr(data, old(self).front().buf@.len() as int))],
                            seq![], seq![], opt_bytes(data))
                    },
                    Err(e) => {
                        &&& e == GraphicsError::RegistryFull
                        &&& old(self).textures()@.len() == MAX_SLOTS
                        &&& *final(self) == *old(self)
                    },
                },
            },
    {
        let fresh = self.textures.lookup(&location).is_none();
        match self.textures.create(location, ResourceState::Ready) {
            Some(handle) => {
                if fresh {
                    let ghost f0 = self.front();
                    let frame = self.frames.front();
                    let p = stage(frame, data);
                    frame.pre.push(PreFrameTask::CreateTexture(handle, setup, p));
                    proof {
                        let f = self.front();
                        assert(f.pre@ =~= f0.pre@ + seq![PreFrameTask::CreateTexture(handle, setup, p)]);
                        assert(f.tasks@ =~= f0.tasks@ + Seq::empty());
                        assert(f.post@ =~= f0.post@ + Seq::empty());
                    }
                }
                Ok(handle)
            },
            None => Err(GraphicsError::RegistryFull),
        }
    }

    /// Creates a render texture, which a frame buffer can have as an attachment.
    pub fn create_render_texture(&mut self, setup: RenderTextureSetup) -> (r: Result<TextureHandle, GraphicsError>)
        requires
            old(self).wf(),
        ensures
            final(self).wf(),
            Self::keeps_others(*old(self), *final(self), Category::Textures),
            match r {
                Ok(h) => {
                    &&& allocated(old(self).textures()@, final(self).textures()@, h)
                    &&& final(self).textures().value_of(h) == ResourceState::Ready
                    &&& recorded(old(self).front(), final(self).front(), seq![PreFrameTask::CreateRenderTexture(h, setup)], seq![], seq![], seq![])
                },
                Err(e) => {
                    &&& e == GraphicsError::RegistryFull
                    &&& old(self).textures()@.len() == MAX_SLOTS
                    &&& *final(self) == *old(self)
                },
            },
    {
        let location = Location::unique("");
        match self.textures.create(location, ResourceState::Ready) {
            Some(handle) => {
                let frame = self.frames.front();
                frame.pre.push(PreFrameTask::CreateRenderTexture(handle, setup));
                proof {
                    lemma_push_pre(old(self).front(), self.front(), PreFrameTask::CreateRenderTexture(handle, setup));
                }
                Ok(handle)
            },
            None => Err(GraphicsError::RegistryFull),
        }
    }

    /// Replaces the texels of `rect` in a texture, before the ordered tasks of
    /// the frame. A texture that is not ready yet ignores the update: the call
    /// succeeds and records nothing.
    pub fn update_texture(&mut self, texture: TextureHandle, rect: Rect, data: &[u8]) -> (r: Result<(), GraphicsError>)
        requires
            old(self).wf(),
        ensures
            final(self).wf(),
            !old(self).textures().is_live(texture) ==> r == Err::<(), GraphicsError>(GraphicsError::InvalidHandle) && *final(self) == *old(self),
            old(self).textures().is_live(texture) ==> r == Ok::<(), GraphicsError>(()),
            old(self).textures().is_live(texture) && old(self).textures().value_of(texture) == ResourceState::NotReady
                ==> *final(self) == *old(self),
            old(self).textures().is_live(texture) && old(self).textures().value_of(texture) == ResourceState::Ready ==> {
                &&& Self::keeps_registries(*old(self), *final(self))
                &&& recorded(old(self).front(), final(self).front(),
                    seq![PreFrameTask::UpdateTexture(texture, rect, BufferPtr { offset: old(self).front().buf@.len() as usize, len: data@.len() as usize })],
                    seq![], seq![], data@)
            },
    {
        match self.textures.get(texture) {
            None => Err(GraphicsError::InvalidHandle),
            Some(state) => {
                if *state == ResourceState::Ready {
                    let ghost f0 = self.front();
                    let frame = self.frames.front();
                    let p = stage(frame, Some(data));
                    frame.pre.push(PreFrameTask::UpdateTexture(texture, rect, p.unwrap()));
                    proof {
                        let f = self.front();
                        assert(f.pre@ =~= f0.pre@ + seq![PreFrameTask::UpdateTexture(texture, rect, p.unwrap())]);
                        assert(f.tasks@ =~= f0.tasks@ + Seq::empty());
                        assert(f.post@ =~= f0.post@ + Seq::empty());
                    }
                }
                Ok(())
            },
        }
    }

    /// Records `command` for `surface` under the order key `order`.
    ///
    /// A draw call needs a live mesh and shader, and each uniform it sets must
    /// be declared by the shader with the same type; the first that is not
    /// refuses the whole call. A texture update of a texture that is not ready
    /// succeeds and records nothing. A refused call changes nothing.
    pub fn submit(&mut self, surface: SurfaceHandle, order: u64, command: Command) -> (r: Result<(), GraphicsError>)
        requires
            old(self).wf(),
        ensures
            final(self).wf(),
            Self::submit_outcome(*old(self), *final(self), surface, order, command, r),
    {
        if !self.surfaces.is_alive(surface) {
            return Err(GraphicsError::UndefinedSurface);
        }
        match command {
            Command::DrawCall(call) => self.submit_drawcall(surface, order, call),
            Command::VertexBufferUpdate(u) => {
                if !self.meshes.is_alive(u.mesh) {
                    return Err(GraphicsError::InvalidHandle);
                }
                let ghost f0 = self.front();
                let frame = self.frames.front();
                let p = stage(frame, Some(u.data.as_slice())).unwrap();
                push_task(frame, (surface, order, FrameTask::UpdateVertexBuffer(u.mesh, u.offset, p)));
                Ok(())
            },
            Command::IndexBufferUpdate(u) => {
                if !self.meshes.is_alive(u.mesh) {
                    return Err(GraphicsError::InvalidHandle);
                }
                let frame = self.frames.front();
                let p = stage(frame, Some(u.data.as_slice())).unwrap();
                push_task(frame, (surface, order, FrameTask::UpdateIndexBuffer(u.mesh, u.offset, p)));
                Ok(())
            },
            Command::TextureUpdate(u) => {
                match self.textures.get(u.texture) {
                    None => Err(GraphicsError::InvalidHandle),
                    Some(state) => {
                        if *state == ResourceState::Ready {
                            let frame = self.frames.front();
                            let p = stage(frame, Some(u.data.as_slice())).unwrap();
                            push_task(frame, (surface, order, FrameTask::UpdateTexture(u.texture, u.rect, p)));
                        }
                        Ok(())
                    },
                }
            },
            Command::SetScissor(u) => {
                let frame = self.frames.front();
                let p = stage(frame, None);
                push_task(frame, (surface, order, FrameTask::UpdateSurface(u.scissor)));
                Ok(())
            },
        }
    }

    fn submit_drawcall(&mut self, surface: SurfaceHandle, order: u64, call: DrawCall) -> (r: Result<(), GraphicsError>)
        requires
            old(self).wf(),
            old(self).surfaces().is_live(surface),
        ensures
            final(self).wf(),
            Self::drawcall_outcome(*old(self), *final(self), surface, order, call, r),
    {
        if !self.meshes.is_alive(call.mesh) {
            return Err(GraphicsError::UndefinedMesh);
        }
        match self.shaders.get(call.shader) {
            None => {
                return Err(GraphicsError::UndefinedShader);
            },
            Some(state) => {
                let ghost decls = decls_view(state.uniform_variables@);
                let mut k: usize = 0;
                while k < call.uniforms.len()
                    invariant
                        0 <= k <= call.uniforms@.len(),
                        decls == decls_view(state.uniform_variables@),
                        fits_upto(decls, call.uniforms@, k as int),
                        self.wf(),
                        *self == *old(self),
                        old(self).meshes().is_live(call.mesh),
                        old(self).shaders().is_live(call.shader),
                        *state == old(self).shaders().value_of(call.shader),
                    decreases call.uniforms@.len() - k,
                {
                    let name = &call.uniforms[k].0;
                    match declared(&state.uniform_variables, name) {
                        None => {
                            proof {
                                assert(first_misfit(decls, call.uniforms@, k as int));
                            }
                            return Err(GraphicsError::UndefinedUniform(name.clone()));
                        },
                        Some(t) => {
                            if t != call.uniforms[k].1.kind {
                                proof {
                                    assert(first_misfit(decls, call.uniforms@, k as int));
                                }
                                return Err(GraphicsError::UnmatchedUniform(name.clone()));
                            }
                        },
                    }
                    proof {
                        assert(uniform_fits(decls, call.uniforms@[k as int]));
                    }
                    k += 1;
                }
            },
        }
        let ghost f0 = self.front();
        let frame = self.frames.front();
        let pack = stage_uniforms(frame, &call.uniforms);
        let dc = FrameDrawCall { shader: call.shader, mesh: call.mesh, index: call.index, uniforms: pack };
        frame.tasks.push((surface, order, FrameTask::DrawCall(dc)));
        proof {
            let f = self.front();
            assert(f.tasks@.subrange(0, f0.tasks@.len() as int) =~= f0.tasks@);
        }
        Ok(())
    }

    /// Finishes loading a texture that `create_texture_from` registered: it
    /// becomes ready and its creation is recorded with the loaded texels. A
    /// dead handle is refused; a texture that is ready already is left alone.
    pub fn finish_texture_load(&mut self, texture: TextureHandle, setup: TextureSetup, data: &[u8]) -> (r: Result<(), GraphicsError>)
        requires
            old(self).wf(),
        ensures
            final(self).wf(),
            !old(self).textures().is_live(texture) ==> r == Err::<(), GraphicsError>(GraphicsError::InvalidHandle) && *final(self) == *old(self),
            old(self).textures().is_live(texture) ==> r == Ok::<(), GraphicsError>(()),
            old(self).textures().is_live(texture) && old(self).textures().value_of(texture) == ResourceState::Ready
                ==> *final(self) == *old(self),
            old(self).textures().is_live(texture) && old(self).textures().value_of(texture) == ResourceState::NotReady ==> {
                &&& Self::keeps_others(*old(self), *final(self), Category::Textures)
                &&& value_set(old(self).textures()@, final(self).textures()@, texture.index as int, ResourceState::Ready)
                &&& recorded(old(self).front(), final(self).front(),
                    seq![PreFrameTask::CreateTexture(texture, setup, Some(BufferPtr { offset: old(self).front().buf@.len() as usize, len: data@.len() as usize }))],
                    seq![], seq![], data@)
            },
    {
        match self.textures.get(texture) {
            None => {
                return Err(GraphicsError::InvalidHandle);
            },
            Some(state) => {
                if *state == ResourceState::Ready {
                    return Ok(());
                }
            },
        }
        self.textures.set_value(texture, ResourceState::Ready);
        let ghost f0 = self.front();
        let frame = self.frames.front();
        let p = stage(frame, Some(data));
        frame.pre.push(PreFrameTask::CreateTexture(texture, setup, p));
        proof {
            let f = self.front();
            assert(f.pre@ =~= f0.pre@ + seq![PreFrameTask::CreateTexture(texture, setup, p)]);
            assert(f.tasks@ =~= f0.tasks@ + Seq::empty());
            assert(f.post@ =~= f0.post@ + Seq::empty());
        }
        Ok(())
    }

    /// Finishes loading a mesh that `create_mesh_from` registered: it becomes
    /// ready and its creation is recorded with the loaded bytes. A dead handle
    /// is refused, then bytes longer than `setup` declares, then a setup whose
    /// lengths do not fit in memory; a mesh that is ready already is left alone.
    pub fn finish_mesh_load(&mut self, mesh: MeshHandle, setup: MeshSetup, verts: &[u8], idxes: &[u8]) -> (r: Result<(), GraphicsError>)
        requires
            old(self).wf(),
        ensures
            final(self).wf(),
            !old(self).meshes().is_live(mesh) ==> r == Err::<(), GraphicsError>(GraphicsError::InvalidHandle) && *final(self) == *old(self),
            old(self).meshes().is_live(mesh) && (verts@.len() > setup.spec_vertex_buffer_len() || idxes@.len() > setup.spec_index_buffer_len())
                ==> r == Err::<(), GraphicsError>(GraphicsError::OutOfBounds) && *final(self) == *old(self),
            old(self).meshes().is_live(mesh) && verts@.len() <= setup.spec_vertex_buffer_len() && idxes@.len() <= setup.spec_index_buffer_len()
                && !setup.spec_valid() ==> r == Err::<(), GraphicsError>(GraphicsError::InvalidMeshSetup) && *final(self) == *old(self),
            old(self).meshes().is_live(mesh) && verts@.len() <= setup.spec_vertex_buffer_len() && idxes@.len() <= setup.spec_index_buffer_len()
                && setup.spec_valid() ==> r == Ok::<(), GraphicsError>(()),
            r.is_ok() && old(self).meshes().value_of(mesh) == ResourceState::Ready ==> *final(self) == *old(self),
            r.is_ok() && old(self).meshes().value_of(mesh) == ResourceState::NotReady ==> {
                let off = old(self).front().buf@.len();
                &&& Self::keeps_others(*old(self), *final(self), Category::Meshes)
                &&& value_set(old(self).meshes()@, final(self).meshes()@, mesh.index as int, ResourceState::Ready)
                &&& recorded(old(self).front(), final(self).front(),
                    seq![PreFrameTask::CreateMesh(mesh, setup, Some(BufferPtr { offset: off as usize, len: verts@.len() as usize }),
                        Some(BufferPtr { offset: (off + verts@.len()) as usize, len: idxes@.len() as usize }))],
                    seq![], seq![], verts@ + idxes@)
            },
    {
        match self.meshes.get(mesh) {
            None => {
                return Err(GraphicsError::InvalidHandle);
            },
            Some(_) => {},
        }
        let vlen = verts.len();
        let ilen = idxes.len();
        if let Some(n) = setup.vertex_buffer_len() {
            if vlen > n {
                return Err(GraphicsError::OutOfBounds);
            }
        }
        if let Some(n) = setup.index_buffer_len() {
            if ilen > n {
                return Err(GraphicsError::OutOfBounds);
            }
        }
        if !setup.validate() {
            return Err(GraphicsError::InvalidMeshSetup);
        }
        match self.meshes.get(mesh) {
            None => {},
            Some(state) => {
                if *state == ResourceState::Ready {
                    return Ok(());
                }
            },
        }
        self.meshes.set_value(mesh, ResourceState::Ready);
        let ghost f0 = self.front();
        let frame = self.frames.front();
        let vp = stage(frame, Some(verts));
        let ip = stage(frame, Some(idxes));
        frame.pre.push(PreFrameTask::CreateMesh(mesh, setup, vp, ip));
        proof {
            let f = self.front();
            assert(f.pre@ =~= f0.pre@ + seq![PreFrameTask::CreateMesh(mesh, setup, vp, ip)]);
            assert(f.tasks@ =~= f0.tasks@ + Seq::empty());
            assert(f.post@ =~= f0.post@ + Seq::empty());
            assert(f.buf@ =~= f0.buf@ + (verts@ + idxes@));
        }
        Ok(())
    }
}

/// The live resources of each category after a tick's reclamation.
#[derive(Clone, Copy, Debug, PartialEq, Eq, Structural)]
pub struct AliveResources {
    pub surfaces: u32,
    pub shaders: u32,
    pub frame_buffers: u32,
    pub render_buffers: u32,
    pub meshes: u32,
    pub textures: u32,
}

/// The single-owner side of the pipeline: it swaps the frames, hands the back
/// frame out for dispatch, clears it and reclaims dead slots, once per tick.
pub struct GraphicsSystem {
    shared: GraphicsSystemShared,
    last_dimensions: (u32, u32),
    last_hidpi: u32,
}

/// Reclaims the dead slots of `reg` and returns how many slots are live.
fn reclaim<T>(reg: &mut Registry<T>) -> (r: u32)
    requires
        old(reg).wf(),
    ensures
        final(reg).wf(),
        final(reg)@ == old(reg)@,
        r == live_count(old(reg)@),
{
    reg.clear();
    let n = reg.len();
    proof {
        old(reg).lemma_wf_keys_unique();
    }
    n as u32
}

impl GraphicsSystem {
    pub closed spec fn spec_shared(&self) -> GraphicsSystemShared {
        self.shared
    }

    /// The window size in points and the pixel density, as bit pattern, of the last tick.
    pub closed spec fn spec_last(&self) -> ((u32, u32), u32) {
        (self.last_dimensions, self.last_hidpi)
    }

    pub open spec fn wf(&self) -> bool {
        self.spec_shared().wf()
    }

    /// A system for a window of the given sizes and pixel density, the
    /// density given as the bit pattern of its floating-point value.
    pub fn new(dimensions: (u32, u32), dimensions_in_pixels: (u32, u32), hidpi: u32) -> (r: GraphicsSystem)
        ensures
            r.wf(),
            r.spec_shared().front().is_empty(),
            r.spec_shared().back().is_empty(),
            r.spec_shared().spec_dimensions() == (dimensions, dimensions_in_pixels),
            r.spec_last() == (dimensions, hidpi),
            r.spec_shared().surfaces()@.len() == 0,
            r.spec_shared().shaders()@.len() == 0,
            r.spec_shared().framebuffers()@.len() == 0,
            r.spec_shared().render_buffers()@.len() == 0,
            r.spec_shared().meshes()@.len() == 0,
            r.spec_shared().textures()@.len() == 0,
    {
        GraphicsSystem {
            shared: GraphicsSystemShared::new(dimensions, dimensions_in_pixels),
            last_dimensions: dimensions,
            last_hidpi: hidpi,
        }
    }

    /// The part that records work.
    pub fn shared(&self) -> (r: &GraphicsSystemShared)
        ensures
            *r == self.spec_shared(),
    {
        &self.shared
    }

    /// The part that records work, to record into.
    pub fn shared_mut(&mut self) -> (r: &mut GraphicsSystemShared)
        ensures
            *r == old(self).spec_shared(),
            final(self).spec_shared() == *final(r),
            final(self).spec_last() == old(self).spec_last(),
    {
        &mut self.shared
    }

    /// Exchanges the front and back frames: what was recorded becomes what is
    /// dispatched. Registries and dimensions do not change. `begin_advance`
    /// does this itself at the start of each tick.
    pub fn swap_frames(&mut self)
        requires
            old(self).wf(),
        ensures
            final(self).wf(),
            final(self).spec_shared().front() == old(self).spec_shared().back(),
            final(self).spec_shared().back() == old(self).spec_shared().front(),
            final(self).spec_shared().surfaces() == old(self).spec_shared().surfaces(),
            final(self).spec_shared().shaders() == old(self).spec_shared().shaders(),
            final(self).spec_shared().framebuffers() == old(self).spec_shared().framebuffers(),
            final(self).spec_shared().render_buffers() == old(self).spec_shared().render_buffers(),
            final(self).spec_shared().meshes() == old(self).spec_shared().meshes(),
            final(self).spec_shared().textures() == old(self).spec_shared().textures(),
            final(self).spec_shared().spec_dimensions() == old(self).spec_shared().spec_dimensions(),
            final(self).spec_last() == old(self).spec_last(),
    {
        self.shared.frames.swap_frames();
    }

    /// Starts a tick with the window's current sizes and pixel density (as
    /// bit pattern), and swaps the frames: what was recorded since the last
    /// tick becomes the back frame, to dispatch now, and recording goes on in
    /// the other frame. The result says whether the presentation surface must
    /// be resized: the size in points or the density changed since the last
    /// tick.
    pub fn begin_advance(&mut self, dimensions: (u32, u32), dimensions_in_pixels: (u32, u32), hidpi: u32) -> (resize: bool)
        requires
            old(self).wf(),
        ensures
            final(self).wf(),
            resize == (dimensions != old(self).spec_last().0 || hidpi != old(self).spec_last().1),
            final(self).spec_last() == (dimensions, hidpi),
            final(self).spec_shared().spec_dimensions() == (dimensions, dimensions_in_pixels),
            final(self).spec_shared().front() == old(self).spec_shared().back(),
            final(self).spec_shared().back() == old(self).spec_shared().front(),
            final(self).spec_shared().surfaces() == old(self).spec_shared().surfaces(),
            final(self).spec_shared().shaders() == old(self).spec_shared().shaders(),
            final(self).spec_shared().framebuffers() == old(self).spec_shared().framebuffers(),
            final(self).spec_shared().render_buffers() == old(self).spec_shared().render_buffers(),
            final(self).spec_shared().meshes() == old(self).spec_shared().meshes(),
            final(self).spec_shared().textures() == old(self).spec_shared().textures(),
    {
        let resize = dimensions.0 != self.last_dimensions.0 || dimensions.1 != self.last_dimensions.1
            || hidpi != self.last_hidpi;
        self.last_dimensions = dimensions;
        self.last_hidpi = hidpi;
        self.shared.dimensions = (dimensions, dimensions_in_pixels);
        self.shared.frames.swap_frames();
        resize
    }

    /// Hands out the back frame for dispatch and puts the empty frame `spare`
    /// in its place, so that the device works on it while the front frame
    /// takes new work. Give the dispatched frame back, cleared, as the next
    /// tick's spare.
    pub fn take_back(&mut self, spare: Frame) -> (r: Frame)
        requires
            old(self).wf(),
            spare.wf(),
        ensures
            final(self).wf(),
            r == old(self).spec_shared().back(),
            final(self).spec_shared().back() == spare,
            final(self).spec_shared().front() == old(self).spec_shared().front(),
            final(self).spec_shared().surfaces() == old(self).spec_shared().surfaces(),
            final(self).spec_shared().shaders() == old(self).spec_shared().shaders(),
            final(self).spec_shared().framebuffers() == old(self).spec_shared().framebuffers(),
            final(self).spec_shared().render_buffers() == old(self).spec_shared().render_buffers(),
            final(self).spec_shared().meshes() == old(self).spec_shared().meshes(),
            final(self).spec_shared().textures() == old(self).spec_shared().textures(),
            final(self).spec_shared().spec_dimensions() == old(self).spec_shared().spec_dimensions(),
            final(self).spec_last() == old(self).spec_last(),
    {
        self.shared.frames.replace_back(spare)
    }

    /// The frame to dispatch this tick.
    pub fn back_frame(&self) -> (r: &Frame)
        ensures
            *r == self.spec_shared().back(),
    {
        self.shared.frames.back_ref()
    }

    /// Ends a tick: clears the dispatched back frame, reclaims the dead slots
    /// of every registry and returns how many resources of each category live.
    /// The front frame and every live handle are kept.
    pub fn finish_advance(&mut self) -> (r: AliveResources)
        requires
            old(self).wf(),
        ensures
            final(self).wf(),
            final(self).spec_shared().back().is_empty(),
            final(self).spec_shared().front() == old(self).spec_shared().front(),
            final(self).spec_shared().surfaces()@ == old(self).spec_shared().surfaces()@,
            final(self).spec_shared().shaders()@ == old(self).spec_shared().shaders()@,
            final(self).spec_shared().framebuffers()@ == old(self).spec_shared().framebuffers()@,
            final(self).spec_shared().render_buffers()@ == old(self).spec_shared().render_buffers()@,
            final(self).spec_shared().meshes()@ == old(self).spec_shared().meshes()@,
            final(self).spec_shared().textures()@ == old(self).spec_shared().textures()@,
            final(self).spec_shared().spec_dimensions() == old(self).spec_shared().spec_dimensions(),
            final(self).spec_last() == old(self).spec_last(),
            r.surfaces == live_count(old(self).spec_shared().surfaces()@),
            r.shaders == live_count(old(self).spec_shared().shaders()@),
            r.frame_buffers == live_count(old(self).spec_shared().framebuffers()@),
            r.render_buffers == live_count(old(self).spec_shared().render_buffers()@),
            r.meshes == live_count(old(self).spec_shared().meshes()@),
            r.textures == live_count(old(self).spec_shared().textures()@),
    {
        self.shared.frames.back().clear();
        AliveResources {
            surfaces: reclaim(&mut self.shared.surfaces),
            shaders: reclaim(&mut self.shared.shaders),
            frame_buffers: reclaim(&mut self.shared.framebuffers),
            render_buffers: reclaim(&mut self.shared.render_buffers),
            meshes: reclaim(&mut self.shared.meshes),
            textures: reclaim(&mut self.shared.textures),
        }
    }
}

/// A draw call that sets a uniform which its shader does not declare is
/// refused, and the frames and registries stay as they were: no ordered task
/// is appended.
pub proof fn lemma_undeclared_uniform_refused(
    before: GraphicsSystemShared,
    after: GraphicsSystemShared,
    surface: SurfaceHandle,
    order: u64,
    call: DrawCall,
    r: Result<(), GraphicsError>,
    k: int,
)
    requires
        0 <= k < call.uniforms@.len(),
        declared_type(decls_view(before.shaders().value_of(call.shader).uniform_variables@), call.uniforms@[k].0@).is_none(),
        GraphicsSystemShared::submit_outcome(before, after, surface, order, Command::DrawCall(call), r),
    ensures
        r.is_err(),
        after == before,
        after.front().tasks@.len() == before.front().tasks@.len(),
{
    let decls = decls_view(before.shaders().value_of(call.shader).uniform_variables@);
    assert(!uniform_fits(decls, call.uniforms@[k]));
}

/// One release of `h` from a registry, with the post-tasks of the front
/// frame before and after it: only the release of the last count appends
/// `task`.
pub open spec fn release_step<T>(
    r0: Registry<T>,
    r1: Registry<T>,
    p0: Seq<PostFrameTask>,
    p1: Seq<PostFrameTask>,
    h: Handle,
    task: PostFrameTask,
) -> bool {
    &&& released_once(r0, r1, h)
    &&& last_owner(r0, h) ==> p1 == p0.push(task)
    &&& !last_owner(r0, h) ==> p1 == p0
}

/// Releasing a handle that has `n` counts `n` times: the first `n - 1`
/// releases append no post-task and leave the handle live; the last appends
/// `task` exactly once and kills the handle.
pub proof fn lemma_release_sequence<T>(
    regs: Seq<Registry<T>>,
    posts: Seq<Seq<PostFrameTask>>,
    h: Handle,
    task: PostFrameTask,
    n: nat,
)
    requires
        n >= 1,
        regs.len() == n + 1,
        posts.len() == n + 1,
        regs[0].is_live(h),
        regs[0].rc_of(h) == n,
        forall|i: int| 0 <= i < n ==> #[trigger] release_step(regs[i], regs[i + 1], posts[i], posts[i + 1], h, task),
    ensures
        forall|i: int| 1 <= i < n ==> (#[trigger] regs[i]).is_live(h) && posts[i] == posts[0],
        posts[n as int] == posts[0].push(task),
        !regs[n as int].is_live(h),
{
    assert forall|i: int| 0 <= i < n implies (#[trigger] regs[i]).rc_of(h) == n - i && regs[i].is_live(h)
        && posts[i] == posts[0] by {
        lemma_release_step(regs, posts, h, task, n, i);
    }
    assert forall|i: int| 1 <= i < n implies (#[trigger] regs[i]).is_live(h) && posts[i] == posts[0] by {
        lemma_release_step(regs, posts, h, task, n, i);
    }
    let m = n - 1;
    assert(release_step(regs[m], regs[m + 1], posts[m], posts[m + 1], h, task));
    assert(regs[m].rc_of(h) == 1);
}

proof fn lemma_release_step<T>(
    regs: Seq<Registry<T>>,
    posts: Seq<Seq<PostFrameTask>>,
    h: Handle,
    task: PostFrameTask,
    n: nat,
    i: int,
)
    requires
        regs.len() == n + 1,
        posts.len() == n + 1,
        regs[0].is_live(h),
        regs[0].rc_of(h) == n,
        forall|j: int| 0 <= j < n ==> #[trigger] release_step(regs[j], regs[j + 1], posts[j], posts[j + 1], h, task),
        0 <= i < n,
    ensures
        regs[i].rc_of(h) == n - i,
        regs[i].is_live(h),
        posts[i] == posts[0],
    decreases i,
{
    if i > 0 {
        lemma_release_step(regs, posts, h, task, n, i - 1);
        let j = i - 1;
        assert(release_step(regs[j], regs[j + 1], posts[j], posts[j + 1], h, task));
    }
}

/// Deleting a mesh that `n` creations share takes `n` deletions: the first
/// `n - 1` record nothing and keep the mesh live; the last records exactly one
/// deletion task and kills the mesh.
pub proof fn lemma_mesh_teardown(systems: Seq<GraphicsSystemShared>, h: MeshHandle, n: nat)
    requires
        n >= 1,
        systems.len() == n + 1,
        systems[0].meshes().is_live(h),
        systems[0].meshes().rc_of(h) == n,
        forall|i: int| 0 <= i < n ==> #[trigger] GraphicsSystemShared::mesh_deleted(systems[i], systems[i + 1], h),
    ensures
        forall|i: int| 1 <= i < n ==> (#[trigger] systems[i]).front().post@ == systems[0].front().post@
            && systems[i].meshes().is_live(h),
        systems[n as int].front().post@ == systems[0].front().post@.push(PostFrameTask::DeleteMesh(h)),
        !systems[n as int].meshes().is_live(h),
{
    let regs = Seq::new(n + 1, |i: int| systems[i].meshes());
    let posts = Seq::new(n + 1, |i: int| systems[i].front().post@);
    let task = PostFrameTask::DeleteMesh(h);
    assert forall|i: int| 0 <= i < n implies #[trigger] release_step(regs[i], regs[i + 1], posts[i], posts[i + 1], h, task) by {
        assert(GraphicsSystemShared::mesh_deleted(systems[i], systems[i + 1], h));
        assert(regs[i] == systems[i].meshes() && regs[i + 1] == systems[i + 1].meshes());
        assert(posts[i] == systems[i].front().post@ && posts[i + 1] == systems[i + 1].front().post@);
        if last_owner(regs[i], h) {
            assert(posts[i + 1] =~= posts[i] + seq![task]);
            assert(posts[i + 1] =~= posts[i].push(task));
        }
    }
    lemma_release_sequence(regs, posts, h, task, n);
    assert forall|i: int| 1 <= i < n implies (#[trigger] systems[i]).front().post@ == systems[0].front().post@
        && systems[i].meshes().is_live(h) by {
        assert(regs[i] == systems[i].meshes());
        assert(posts[i] == posts[0]);
    }
    assert(regs[n as int] == systems[n as int].meshes());
}

/// Deleting a shader that `n` creations share takes `n` deletions: the first
/// `n - 1` record nothing and keep the shader live; the last records exactly
/// one deletion task and kills the shader.
pub proof fn lemma_shader_teardown(systems: Seq<GraphicsSystemShared>, h: ShaderHandle, n: nat)
    requires
        n >= 1,
        systems.len() == n + 1,
        systems[0].shaders().is_live(h),
        systems[0].shaders().rc_of(h) == n,
        forall|i: int| 0 <= i < n ==> #[trigger] GraphicsSystemShared::shader_deleted(systems[i], systems[i + 1], h),
    ensures
        forall|i: int| 1 <= i < n ==> (#[trigger] systems[i]).front().post@ == systems[0].front().post@
            && systems[i].shaders().is_live(h),
        systems[n as int].front().post@ == systems[0].front().post@.push(PostFrameTask::DeletePipeline(h)),
        !systems[n as int].shaders().is_live(h),
{
    let regs = Seq::new(n + 1, |i: int| systems[i].shaders());
    let posts = Seq::new(n + 1, |i: int| systems[i].front().post@);
    let task = PostFrameTask::DeletePipeline(h);
    assert forall|i: int| 0 <= i < n implies #[trigger] release_step(regs[i], regs[i + 1], posts[i], posts[i + 1], h, task) by {
        assert(GraphicsSystemShared::shader_deleted(systems[i], systems[i + 1], h));
        assert(regs[i] == systems[i].shaders() && regs[i + 1] == systems[i + 1].shaders());
        assert(posts[i] == systems[i].front().post@ && posts[i + 1] == systems[i + 1].front().post@);
        if last_owner(regs[i], h) {
            assert(posts[i + 1] =~= posts[i] + seq![task]);
            assert(posts[i + 1] =~= posts[i].push(task));
        }
    }
    lemma_release_sequence(regs, posts, h, task, n);
    assert forall|i: int| 1 <= i < n implies (#[trigger] systems[i]).front().post@ == systems[0].front().post@
        && systems[i].shaders().is_live(h) by {
        assert(regs[i] == systems[i].shaders());
        assert(posts[i] == posts[0]);
    }
    assert(regs[n as int] == systems[n as int].shaders());
}

/// Creating a shader twice at one shared location gives one shader: after
/// the first creation the location finds its handle, the second returns that
/// handle without recording anything, each adds exactly one count, and the
/// second setup is dropped: the shader keeps its state.
pub proof fn lemma_shader_dedup(
    s0: GraphicsSystemShared,
    s1: GraphicsSystemShared,
    s2: GraphicsSystemShared,
    location: Location,
    setup1: ShaderSetup,
    setup2: ShaderSetup,
    a: Result<ShaderHandle, GraphicsError>,
    b: Result<ShaderHandle, GraphicsError>,
)
    requires
        s0.wf(),
        location.spec_is_shared(),
        GraphicsSystemShared::shader_created(s0, s1, location, setup1, a),
        GraphicsSystemShared::shader_created(s1, s2, location, setup2, b),
        a.is_ok(),
        b.is_ok(),
    ensures
        s1.shaders().find(location) == Some(a.unwrap()),
        b == a,
        s1.shaders().rc_of(a.unwrap()) == s0.shaders().rc_of(a.unwrap()) + 1,
        s2.shaders().rc_of(a.unwrap()) == s1.shaders().rc_of(a.unwrap()) + 1,
        s2.shaders().value_of(a.unwrap()) == s1.shaders().value_of(a.unwrap()),
        s2.front() == s1.front(),
{
    let h = a.unwrap();
    s0.shaders().lemma_wf_keys_unique();
    s1.shaders().lemma_wf_keys_unique();
    match s0.shaders().find(location) {
        Some(g) => {
            assert(s0.shaders().is_live(g)) by {
                let c = choose|i: int| s0.shaders().holds_key(i, location);
                assert(s0.shaders().holds_key(c, location));
            }
        },
        None => {},
    }
    assert(s1.shaders().is_live(h)) by {
        let c = choose|i: int| s1.shaders().holds_key(i, location);
        assert(s1.shaders().holds_key(c, location));
    }
}

/// `submit` only appends: the ordered tasks recorded before it stay as they
/// were, and a command that records adds one task at the end, under the
/// surface and order key it was submitted with. Tasks therefore stand in the
/// order of their submission, which `Frame::replay_order` keeps among equal
/// keys.
pub proof fn lemma_submit_appends(
    before: GraphicsSystemShared,
    after: GraphicsSystemShared,
    surface: SurfaceHandle,
    order: u64,
    command: Command,
    r: Result<(), GraphicsError>,
)
    requires
        GraphicsSystemShared::submit_outcome(before, after, surface, order, command, r),
    ensures
        ({
            let t0 = before.front().tasks@;
            let t1 = after.front().tasks@;
            &&& t1.len() == t0.len() || t1.len() == t0.len() + 1
            &&& t1.subrange(0, t0.len() as int) == t0
            &&& t1.len() == t0.len() + 1 ==> r.is_ok() && t1.last().0 == surface && t1.last().1 == order
        }),
{
    let t0 = before.front().tasks@;
    let t1 = after.front().tasks@;
    if t1 == t0 {
        assert(t1.subrange(0, t0.len() as int) =~= t0);
    } else if before.surfaces().is_live(surface) {
        match command {
            Command::DrawCall(call) => {},
            _ => {
                assert(t1.subrange(0, t0.len() as int) =~= t0);
            },
        }
    }
}

} // verus!
