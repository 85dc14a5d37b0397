use vstd::prelude::*;

use crate::handle::{FrameBufferHandle, MeshHandle, RenderBufferHandle, ShaderHandle, TextureHandle};

verus! {

/// The most uniform variables a shader declares.
pub const MAX_UNIFORM_VARIABLES: usize = 32;

#[derive(Clone, Copy, Debug, PartialEq, Eq, Structural)]
pub enum UniformVariableType {
    Texture,
    RenderTexture,
    I32,
    F32,
    Vector2f,
    Vector3f,
    Vector4f,
    Matrix2f,
    Matrix3f,
    Matrix4f,
}

/// A uniform value: its type tag and its byte representation.
pub struct UniformVariable {
    pub kind: UniformVariableType,
    pub bytes: Vec<u8>,
}

impl UniformVariable {
    pub fn variable_type(&self) -> (r: UniformVariableType)
        ensures
            r == self.kind,
    {
        self.kind
    }
}

/// A rectangle in texels, for partial texture updates.
#[derive(Clone, Copy, Debug, PartialEq, Eq, Structural)]
pub struct Rect {
    pub left: i32,
    pub top: i32,
    pub right: i32,
    pub bottom: i32,
}

#[derive(Clone, Copy, Debug, PartialEq, Eq, Structural)]
pub enum Scissor {
    Enable { x: u16, y: u16, width: u16, height: u16 },
    Disable,
}

/// Which part of a mesh's index buffer a draw call covers.
#[derive(Clone, Copy, Debug, PartialEq, Eq, Structural)]
pub enum MeshIndex {
    Ptr(usize, usize),
    SubMesh(usize),
    All,
}

#[derive(Clone, Copy, Debug, PartialEq, Eq, Structural)]
pub enum Comparison {
    Never,
    Less,
    LessOrEqual,
    Greater,
    GreaterOrEqual,
    Equal,
    NotEqual,
    Always,
}

#[derive(Clone, Copy, Debug, PartialEq, Eq, Structural)]
pub enum CullFace {
    Nothing,
    Front,
    Back,
}

#[derive(Clone, Copy, Debug, PartialEq, Eq, Structural)]
pub struct RenderState {
    pub depth_write: bool,
    pub depth_test: Comparison,
    pub cull_face: CullFace,
}

impl RenderState {
    pub fn new() -> (r: RenderState)
        ensures
            !r.depth_write,
            r.depth_test == Comparison::Always,
            r.cull_face == CullFace::Nothing,
    {
        RenderState { depth_write: false, depth_test: Comparison::Always, cull_face: CullFace::Nothing }
    }
}

#[derive(Clone, Copy, Debug, PartialEq, Eq, Structural)]
pub enum Attribute {
    Position,
    Normal,
    Tangent,
    Bitangent,
    Color0,
    Color1,
    Indices,
    Weight,
    Texcoord0,
    Texcoord1,
    Texcoord2,
    Texcoord3,
}

/// How a pipeline names a surface; the count of components of each attribute.
pub struct ShaderSetup {
    pub render_state: RenderState,
    pub layout: Vec<(Attribute, u8)>,
    pub vs: String,
    pub fs: String,
    pub uniform_variables: Vec<(String, UniformVariableType)>,
}

/// The uniform declarations `(name, type)` as values.
pub open spec fn decls_view(d: Seq<(String, UniformVariableType)>) -> Seq<(Seq<char>, UniformVariableType)> {
    d.map_values(|p: (String, UniformVariableType)| (p.0@, p.1))
}

/// The type that `decls` gives `name`: the last declaration of it counts.
pub open spec fn declared_type(decls: Seq<(Seq<char>, UniformVariableType)>, name: Seq<char>) -> Option<UniformVariableType>
    decreases decls.len(),
{
    if decls.len() == 0 {
        None
    } else if decls.last().0 == name {
        Some(decls.last().1)
    } else {
        declared_type(decls.drop_last(), name)
    }
}

/// What a shader keeps of its setup to validate draw calls.
pub struct ShaderState {
    pub render_state: RenderState,
    pub layout: Vec<(Attribute, u8)>,
    pub uniform_variables: Vec<(String, UniformVariableType)>,
}

pub fn clone_layout(l: &Vec<(Attribute, u8)>) -> (r: Vec<(Attribute, u8)>)
    ensures
        r@ == l@,
{
    let mut r: Vec<(Attribute, u8)> = Vec::new();
    let mut i: usize = 0;
    while i < l.len()
        invariant
            0 <= i <= l@.len(),
            r@ == l@.subrange(0, i as int),
        decreases l@.len() - i,
    {
        r.push(l[i]);
        proof {
            assert(r@ =~= l@.subrange(0, i as int + 1));
        }
        i += 1;
    }
    proof {
        assert(l@.subrange(0, i as int) =~= l@);
    }
    r
}

pub fn clone_decls(d: &Vec<(String, UniformVariableType)>) -> (r: Vec<(String, UniformVariableType)>)
    ensures
        r@ == d@,
{
    let mut r: Vec<(String, UniformVariableType)> = Vec::new();
    let mut i: usize = 0;
    while i < d.len()
        invariant
            0 <= i <= d@.len(),
            r@ == d@.subrange(0, i as int),
        decreases d@.len() - i,
    {
        let name = d[i].0.clone();
        r.push((name, d[i].1));
        proof {
            assert(r@ =~= d@.subrange(0, i as int + 1));
        }
        i += 1;
    }
    proof {
        assert(d@.subrange(0, i as int) =~= d@);
    }
    r
}

impl ShaderState {
    pub fn clone_state(&self) -> (r: ShaderState)
        ensures
            r.render_state == self.render_state,
            r.layout@ == self.layout@,
            r.uniform_variables@ == self.uniform_variables@,
    {
        ShaderState {
            render_state: self.render_state,
            layout: clone_layout(&self.layout),
            uniform_variables: clone_decls(&self.uniform_variables),
        }
    }
}

#[derive(Clone, Copy, Debug, PartialEq, Eq, Structural)]
pub enum IndexFormat {
    U16,
    U32,
}

impl IndexFormat {
    pub open spec fn spec_stride(self) -> nat {
        match self {
            IndexFormat::U16 => 2,
            IndexFormat::U32 => 4,
        }
    }

    pub fn stride(self) -> (r: usize)
        ensures
            r == self.spec_stride(),
    {
        match self {
            IndexFormat::U16 => 2,
            IndexFormat::U32 => 4,
        }
    }
}

#[derive(Clone, Copy, Debug, PartialEq, Eq, Structural)]
pub enum Primitive {
    Points,
    Lines,
    LineStrip,
    Triangles,
    TriangleStrip,
}

/// The shape of a mesh: its vertex size in bytes, vertex and index counts, and
/// where each sub-mesh starts in the index buffer.
pub struct MeshSetup {
    pub vertex_stride: usize,
    pub num_verts: usize,
    pub num_idxes: usize,
    pub index_format: IndexFormat,
    pub primitive: Primitive,
    pub sub_mesh_offsets: Vec<usize>,
}

impl MeshSetup {
    pub open spec fn spec_vertex_buffer_len(&self) -> int {
        self.vertex_stride * self.num_verts
    }

    pub open spec fn spec_index_buffer_len(&self) -> int {
        self.index_format.spec_stride() * self.num_idxes
    }

    /// Both buffer lengths fit in a `usize`.
    pub open spec fn spec_valid(&self) -> bool {
        self.spec_vertex_buffer_len() <= usize::MAX && self.spec_index_buffer_len() <= usize::MAX
    }

    /// The vertex buffer's length in bytes, where it fits in a `usize`.
    pub fn vertex_buffer_len(&self) -> (r: Option<usize>)
        ensures
            r.is_some() == (self.spec_vertex_buffer_len() <= usize::MAX),
            r.is_some() ==> r.unwrap() == self.spec_vertex_buffer_len(),
    {
        self.vertex_stride.checked_mul(self.num_verts)
    }

    /// The index buffer's length in bytes, where it fits in a `usize`.
    pub fn index_buffer_len(&self) -> (r: Option<usize>)
        ensures
            r.is_some() == (self.spec_index_buffer_len() <= usize::MAX),
            r.is_some() ==> r.unwrap() == self.spec_index_buffer_len(),
    {
        self.index_format.stride().checked_mul(self.num_idxes)
    }

    pub fn validate(&self) -> (r: bool)
        ensures
            r == self.spec_valid(),
    {
        self.vertex_buffer_len().is_some() && self.index_buffer_len().is_some()
    }
}

/// Whether a mesh or texture has its data on the device side yet.
#[derive(Clone, Copy, Debug, PartialEq, Eq, Structural)]
pub enum ResourceState {
    NotReady,
    Ready,
}

pub type MeshState = ResourceState;

pub type TextureState = ResourceState;

#[derive(Clone, Copy, Debug, PartialEq, Eq, Structural)]
pub enum TextureFormat {
    U8,
    U8U8,
    U8U8U8,
    U8U8U8U8,
}

pub struct TextureSetup {
    pub format: TextureFormat,
    pub dimensions: (u32, u32),
    pub mipmap: bool,
}

#[derive(Clone, Copy, Debug, PartialEq, Eq, Structural)]
pub enum RenderTextureFormat {
    RGB8,
    RGBA4,
    RGBA8,
    Depth16,
    Depth24,
    Depth32,
    Depth24Stencil8,
}

pub struct RenderTextureSetup {
    pub format: RenderTextureFormat,
    pub dimensions: (u32, u32),
}

pub struct RenderBufferSetup {
    pub format: RenderTextureFormat,
    pub dimensions: (u32, u32),
}

#[derive(Clone, Copy, Debug, PartialEq, Eq, Structural)]
pub enum FrameBufferAttachment {
    RenderBuffer(RenderBufferHandle),
    Texture(TextureHandle),
}

/// The attachment of each slot of a frame buffer, by slot index.
pub struct FrameBufferSetup {
    pub attachments: Vec<Option<FrameBufferAttachment>>,
}

/// How a surface is cleared before its draw calls: a color as four channel bit
/// patterns, a depth as a bit pattern, a stencil value. A sequential surface
/// keeps the order of its draw calls.
pub struct SurfaceSetup {
    pub framebuffer: Option<FrameBufferHandle>,
    pub clear_color: Option<[u32; 4]>,
    pub clear_depth: Option<u32>,
    pub clear_stencil: Option<i32>,
    pub sequence: bool,
}

pub struct DrawCall {
    pub shader: ShaderHandle,
    pub mesh: MeshHandle,
    pub index: MeshIndex,
    pub uniforms: Vec<(String, UniformVariable)>,
}

pub struct VertexBufferUpdate {
    pub mesh: MeshHandle,
    pub offset: usize,
    pub data: Vec<u8>,
}

pub struct IndexBufferUpdate {
    pub mesh: MeshHandle,
    pub offset: usize,
    pub data: Vec<u8>,
}

pub struct TextureUpdate {
    pub texture: TextureHandle,
    pub rect: Rect,
    pub data: Vec<u8>,
}

pub struct ScissorUpdate {
    pub scissor: Scissor,
}

/// A command submitted to a surface under an order key.
pub enum Command {
    DrawCall(DrawCall),
    VertexBufferUpdate(VertexBufferUpdate),
    IndexBufferUpdate(IndexBufferUpdate),
    TextureUpdate(TextureUpdate),
    SetScissor(ScissorUpdate),
}

/// The type that `decls` gives `name`, the last declaration counting.
pub fn declared(decls: &Vec<(String, UniformVariableType)>, name: &String) -> (r: Option<UniformVariableType>)
    ensures
        r == declared_type(decls_view(decls@), name@),
{
    let mut i: usize = decls.len();
    proof {
        assert(decls@.subrange(0, i as int) =~= decls@);
    }
    while i > 0
        invariant
            0 <= i <= decls@.len(),
            declared_type(decls_view(decls@), name@) == declared_type(decls_view(decls@.subrange(0, i as int)), name@),
        decreases i,
    {
        let ghost d = decls_view(decls@.subrange(0, i as int));
        proof {
            assert(d.drop_last() =~= decls_view(decls@.subrange(0, i as int - 1)));
            assert(d.last() == (decls@[i - 1].0@, decls@[i - 1].1));
        }
        if decls[i - 1].0.eq(name) {
            return Some(decls[i - 1].1);
        }
        i -= 1;
    }
    proof {
        assert(decls_view(decls@.subrange(0, 0)) =~= Seq::<(Seq<char>, UniformVariableType)>::empty());
    }
    None
}

/// The uniform `u` has the type that `decls` declares for its name.
pub open spec fn uniform_fits(decls: Seq<(Seq<char>, UniformVariableType)>, u: (String, UniformVariable)) -> bool {
    declared_type(decls, u.0@) == Some(u.1.kind)
}

/// The first `n` uniforms of `us` fit `decls`.
pub open spec fn fits_upto(decls: Seq<(Seq<char>, UniformVariableType)>, us: Seq<(String, UniformVariable)>, n: int) -> bool {
    forall|j: int| 0 <= j < n ==> #[trigger] uniform_fits(decls, us[j])
}

/// Uniform `k` is the first of `us` that does not fit `decls`.
pub open spec fn first_misfit(decls: Seq<(Seq<char>, UniformVariableType)>, us: Seq<(String, UniformVariable)>, k: int) -> bool {
    &&& 0 <= k < us.len()
    &&& fits_upto(decls, us, k)
    &&& !uniform_fits(decls, us[k])
}

/// The value bytes of `us`, one after another.
pub open spec fn uniform_bytes(us: Seq<(String, UniformVariable)>) -> Seq<u8>
    decreases us.len(),
{
    if us.len() == 0 {
        Seq::empty()
    } else {
        uniform_bytes(us.drop_last()) + us.last().1.bytes@
    }
}

} // verus!
