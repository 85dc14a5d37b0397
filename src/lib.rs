//! A double-buffered frame-command pipeline: producers record resource creation,
//! updates, draw calls and deletions into the front frame; a single driver
//! replays the back frame against a graphics device once per tick.

pub mod buffer;
pub mod errors;
pub mod factory;
pub mod frame;
pub mod graphics;
pub mod handle;
pub mod registry;
pub mod setup;

pub use buffer::{BufferPtr, DataBuffer};
pub use errors::GraphicsError;
pub use frame::{DispatchStep, DoubleFrame, Frame, FrameDrawCall, FrameTask, PostFrameTask, PreFrameTask};
pub use graphics::{AliveResources, GraphicsSystem, GraphicsSystemShared};
pub use handle::{
    FrameBufferHandle, Handle, Location, MeshHandle, RenderBufferHandle, ShaderHandle, SurfaceHandle,
    TextureHandle,
};
pub use registry::Registry;
