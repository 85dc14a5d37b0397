use vstd::prelude::*;

verus! {

/// Why a call was refused. Every refused call leaves the registries and the
/// frames as they were.
#[derive(Debug)]
pub enum GraphicsError {
    /// A handle is dead or was never issued.
    InvalidHandle,
    UndefinedSurface,
    UndefinedMesh,
    UndefinedShader,
    /// A draw call sets a uniform that its shader does not declare.
    UndefinedUniform(String),
    /// A draw call sets a uniform with a type other than the declared one.
    UnmatchedUniform(String),
    TooManyUniforms,
    MissingVertexShader,
    MissingFragmentShader,
    /// Supplied bytes exceed the length the setup declares.
    OutOfBounds,
    /// A mesh setup whose buffer lengths do not fit in memory.
    InvalidMeshSetup,
    /// A registry has no slot left, or a count would overflow.
    RegistryFull,
}

impl GraphicsError {
    /// A short description of the error.
    pub fn message(&self) -> String {
        match self {
            GraphicsError::InvalidHandle => "Invalid handle.".to_owned(),
            GraphicsError::UndefinedSurface => "Undefined surface handle.".to_owned(),
            GraphicsError::UndefinedMesh => "Undefined mesh handle.".to_owned(),
            GraphicsError::UndefinedShader => "Undefined shader state handle.".to_owned(),
            GraphicsError::UndefinedUniform(_) => "Undefined uniform variable.".to_owned(),
            GraphicsError::UnmatchedUniform(_) => "Unmatched uniform variable.".to_owned(),
            GraphicsError::TooManyUniforms => "Too many uniform variables.".to_owned(),
            GraphicsError::MissingVertexShader => "Vertex shader is required.".to_owned(),
            GraphicsError::MissingFragmentShader => "Fragment shader is required.".to_owned(),
            GraphicsError::OutOfBounds => "Out of bounds.".to_owned(),
            GraphicsError::InvalidMeshSetup => "Invalid mesh setup.".to_owned(),
            GraphicsError::RegistryFull => "No handle left.".to_owned(),
        }
    }
}

} // verus!
