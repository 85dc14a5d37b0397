use vstd::prelude::*;

use crate::errors::GraphicsError;
use crate::graphics::GraphicsSystemShared;
use crate::handle::{Location, ShaderHandle};
use crate::setup::{decls_view, Attribute, Comparison, CullFace, RenderState, ShaderSetup, UniformVariableType};

verus! {

pub const PBR: &'static str = "__Core/Scene/Shader/PBR";
pub const PHONG: &'static str = "__Core/Scene/Shader/PHONG";
pub const COLOR: &'static str = "__Core/Scene/Shader/COLOR";
pub const UNDEFINED: &'static str = "__Core/Scene/Shader/UNDEFINED";

/// What a built-in shader factory does: a shader that already lives at the
/// factory's shared location is returned as it is; otherwise the shader is
/// created from the factory's setup and the given stage text.
pub open spec fn builtin_outcome(
    before: GraphicsSystemShared,
    after: GraphicsSystemShared,
    uri: Seq<char>,
    layout: Seq<(Attribute, u8)>,
    render_state: RenderState,
    uniforms: Seq<(Seq<char>, UniformVariableType)>,
    vs: Seq<char>,
    fs: Seq<char>,
    r: Result<ShaderHandle, GraphicsError>,
) -> bool {
    exists|location: Location, setup: ShaderSetup|
        #![trigger location.key(), setup.vs@]
        {
            &&& location.key() == Some((0u64, uri))
            &&& setup.layout@ == layout
            &&& setup.render_state == render_state
            &&& decls_view(setup.uniform_variables@) == uniforms
            &&& setup.vs@ == vs
            &&& setup.fs@ == fs
            &&& match before.shaders().find(location) {
                Some(h) => r == Ok::<ShaderHandle, GraphicsError>(h) && after == before,
                None => GraphicsSystemShared::shader_created(before, after, location, setup, r),
            }
        }
}

fn builtin(
    video: &mut GraphicsSystemShared,
    location: Location,
    layout: Vec<(Attribute, u8)>,
    render_state: RenderState,
    uniforms: Vec<(String, UniformVariableType)>,
    vs: &str,
    fs: &str,
) -> (r: Result<ShaderHandle, GraphicsError>)
    requires
        old(video).wf(),
        location.key().is_some(),
        location.key().unwrap().0 == 0,
    ensures
        final(video).wf(),
        builtin_outcome(*old(video), *final(video), location.key().unwrap().1, layout@, render_state,
            decls_view(uniforms@), vs@, fs@, r),
{
    let setup = ShaderSetup { render_state, layout, vs: vs.to_owned(), fs: fs.to_owned(), uniform_variables: uniforms };
    let ghost location0 = location;
    let ghost setup0 = setup;
    if let Some(shader) = video.lookup_shader_from(&location) {
        proof {
            assert(location0.key() == Some((0u64, location0.key().unwrap().1)));
            assert(setup0.vs@ == vs@);
        }
        return Ok(shader);
    }
    let r = video.create_shader(location, setup);
    proof {
        assert(location0.key() == Some((0u64, location0.key().unwrap().1)));
        assert(setup0.vs@ == vs@);
    }
    r
}

/// The uniforms of the built-in PBR shader.
pub open spec fn pbr_uniforms() -> Seq<(Seq<char>, UniformVariableType)> {
    seq![
        ("u_MVPMatrix"@, UniformVariableType::Matrix4f),
        ("u_ModelViewMatrix"@, UniformVariableType::Matrix4f),
        ("u_NormalMatrix"@, UniformVariableType::Matrix4f),
    ]
}

/// The built-in PBR shader, with the given vertex and fragment stage text.
pub fn pbr(video: &mut GraphicsSystemShared, vs: &str, fs: &str) -> (r: Result<ShaderHandle, GraphicsError>)
    requires
        old(video).wf(),
    ensures
        final(video).wf(),
        builtin_outcome(*old(video), *final(video), PBR@, seq![(Attribute::Position, 4u8), (Attribute::Normal, 4u8), (Attribute::Texcoord0, 2u8)],
            RenderState { depth_write: true, depth_test: Comparison::LessOrEqual, cull_face: CullFace::Nothing },
            pbr_uniforms(), vs@, fs@, r),
{
    let location = Location::shared(0, PBR);
    let layout = vec![(Attribute::Position, 4), (Attribute::Normal, 4), (Attribute::Texcoord0, 2)];
    let render_state = RenderState { depth_write: true, depth_test: Comparison::LessOrEqual, cull_face: CullFace::Nothing };
    let uniforms = vec![
        ("u_MVPMatrix".to_owned(), UniformVariableType::Matrix4f),
        ("u_ModelViewMatrix".to_owned(), UniformVariableType::Matrix4f),
        ("u_NormalMatrix".to_owned(), UniformVariableType::Matrix4f),
    ];
    proof {
        assert(layout@ =~= seq![(Attribute::Position, 4u8), (Attribute::Normal, 4u8), (Attribute::Texcoord0, 2u8)]);
        assert(decls_view(uniforms@) =~= pbr_uniforms());
    }
    builtin(video, location, layout, render_state, uniforms, vs, fs)
}

/// The uniforms of the built-in PHONG shader.
pub open spec fn phong_uniforms() -> Seq<(Seq<char>, UniformVariableType)> {
    seq![
        ("u_MVPMatrix"@, UniformVariableType::Matrix4f),
        ("u_ModelViewMatrix"@, UniformVariableType::Matrix4f),
        ("u_NormalMatrix"@, UniformVariableType::Matrix4f),
        ("u_DirLightEyeDir"@, UniformVariableType::Vector3f),
        ("u_DirLightColor"@, UniformVariableType::Vector3f),
        ("u_PointLightEyePos[0]"@, UniformVariableType::Vector3f),
        ("u_PointLightColor[0]"@, UniformVariableType::Vector3f),
        ("u_PointLightAttenuation[0]"@, UniformVariableType::Vector3f),
        ("u_PointLightEyePos[1]"@, UniformVariableType::Vector3f),
        ("u_PointLightColor[1]"@, UniformVariableType::Vector3f),
        ("u_PointLightAttenuation[1]"@, UniformVariableType::Vector3f),
        ("u_PointLightEyePos[2]"@, UniformVariableType::Vector3f),
        ("u_PointLightColor[2]"@, UniformVariableType::Vector3f),
        ("u_PointLightAttenuation[2]"@, UniformVariableType::Vector3f),
        ("u_PointLightEyePos[3]"@, UniformVariableType::Vector3f),
        ("u_PointLightColor[3]"@, UniformVariableType::Vector3f),
        ("u_PointLightAttenuation[3]"@, UniformVariableType::Vector3f),
        ("u_Ambient"@, UniformVariableType::Vector3f),
        ("u_Diffuse"@, UniformVariableType::Vector3f),
        ("u_Specular"@, UniformVariableType::Vector3f),
        ("u_Shininess"@, UniformVariableType::F32),
    ]
}

/// The built-in PHONG shader, with the given vertex and fragment stage text.
pub fn phong(video: &mut GraphicsSystemShared, vs: &str, fs: &str) -> (r: Result<ShaderHandle, GraphicsError>)
    requires
        old(video).wf(),
    ensures
        final(video).wf(),
        builtin_outcome(*old(video), *final(video), PHONG@, seq![(Attribute::Position, 3u8), (Attribute::Normal, 3u8), (Attribute::Color0, 4u8)],
            RenderState { depth_write: true, depth_test: Comparison::LessOrEqual, cull_face: CullFace::Back },
            phong_uniforms(), vs@, fs@, r),
{
    let location = Location::shared(0, PHONG);
    let layout = vec![(Attribute::Position, 3), (Attribute::Normal, 3), (Attribute::Color0, 4)];
    let render_state = RenderState { depth_write: true, depth_test: Comparison::LessOrEqual, cull_face: CullFace::Back };
    let uniforms = vec![
        ("u_MVPMatrix".to_owned(), UniformVariableType::Matrix4f),
        ("u_ModelViewMatrix".to_owned(), UniformVariableType::Matrix4f),
        ("u_NormalMatrix".to_owned(), UniformVariableType::Matrix4f),
        ("u_DirLightEyeDir".to_owned(), UniformVariableType::Vector3f),
        ("u_DirLightColor".to_owned(), UniformVariableType::Vector3f),
        ("u_PointLightEyePos[0]".to_owned(), UniformVariableType::Vector3f),
        ("u_PointLightColor[0]".to_owned(), UniformVariableType::Vector3f),
        ("u_PointLightAttenuation[0]".to_owned(), UniformVariableType::Vector3f),
        ("u_PointLightEyePos[1]".to_owned(), UniformVariableType::Vector3f),
        ("u_PointLightColor[1]".to_owned(), UniformVariableType::Vector3f),
        ("u_PointLightAttenuation[1]".to_owned(), UniformVariableType::Vector3f),
        ("u_PointLightEyePos[2]".to_owned(), UniformVariableType::Vector3f),
        ("u_PointLightColor[2]".to_owned(), UniformVariableType::Vector3f),
        ("u_PointLightAttenuation[2]".to_owned(), UniformVariableType::Vector3f),
        ("u_PointLightEyePos[3]".to_owned(), UniformVariableType::Vector3f),
        ("u_PointLightColor[3]".to_owned(), UniformVariableType::Vector3f),
        ("u_PointLightAttenuation[3]".to_owned(), UniformVariableType::Vector3f),
        ("u_Ambient".to_owned(), UniformVariableType::Vector3f),
        ("u_Diffuse".to_owned(), UniformVariableType::Vector3f),
        ("u_Specular".to_owned(), UniformVariableType::Vector3f),
        ("u_Shininess".to_owned(), UniformVariableType::F32),
    ];
    proof {
        assert(layout@ =~= seq![(Attribute::Position, 3u8), (Attribute::Normal, 3u8), (Attribute::Color0, 4u8)]);
        assert(decls_view(uniforms@) =~= phong_uniforms());
    }
    builtin(video, location, layout, render_state, uniforms, vs, fs)
}

/// The uniforms of the built-in COLOR shader.
pub open spec fn color_uniforms() -> Seq<(Seq<char>, UniformVariableType)> {
    seq![
        ("u_MVPMatrix"@, UniformVariableType::Matrix4f),
        ("u_Color"@, UniformVariableType::Vector4f),
    ]
}

/// The built-in COLOR shader, with the given vertex and fragment stage text.
pub fn color(video: &mut GraphicsSystemShared, vs: &str, fs: &str) -> (r: Result<ShaderHandle, GraphicsError>)
    requires
        old(video).wf(),
    ensures
        final(video).wf(),
        builtin_outcome(*old(video), *final(video), COLOR@, seq![(Attribute::Position, 3u8)],
            RenderState { depth_write: true, depth_test: Comparison::LessOrEqual, cull_face: CullFace::Back },
            color_uniforms(), vs@, fs@, r),
{
    let location = Location::shared(0, COLOR);
    let layout = vec![(Attribute::Position, 3)];
    let render_state = RenderState { depth_write: true, depth_test: Comparison::LessOrEqual, cull_face: CullFace::Back };
    let uniforms = vec![
        ("u_MVPMatrix".to_owned(), UniformVariableType::Matrix4f),
        ("u_Color".to_owned(), UniformVariableType::Vector4f),
    ];
    proof {
        assert(layout@ =~= seq![(Attribute::Position, 3u8)]);
        assert(decls_view(uniforms@) =~= color_uniforms());
    }
    builtin(video, location, layout, render_state, uniforms, vs, fs)
}

/// The uniforms of the built-in UNDEFINED shader.
pub open spec fn undefined_uniforms() -> Seq<(Seq<char>, UniformVariableType)> {
    seq![
        ("u_MVPMatrix"@, UniformVariableType::Matrix4f),
    ]
}

/// The built-in UNDEFINED shader, with the given vertex and fragment stage text.
pub fn undefined(video: &mut GraphicsSystemShared, vs: &str, fs: &str) -> (r: Result<ShaderHandle, GraphicsError>)
    requires
        old(video).wf(),
    ensures
        final(video).wf(),
        builtin_outcome(*old(video), *final(video), UNDEFINED@, seq![(Attribute::Position, 3u8)],
            RenderState { depth_write: true, depth_test: Comparison::LessOrEqual, cull_face: CullFace::Back },
            undefined_uniforms(), vs@, fs@, r),
{
    let location = Location::shared(0, UNDEFINED);
    let layout = vec![(Attribute::Position, 3)];
    let render_state = RenderState { depth_write: true, depth_test: Comparison::LessOrEqual, cull_face: CullFace::Back };
    let uniforms = vec![
        ("u_MVPMatrix".to_owned(), UniformVariableType::Matrix4f),
    ];
    proof {
        assert(layout@ =~= seq![(Attribute::Position, 3u8)]);
        assert(decls_view(uniforms@) =~= undefined_uniforms());
    }
    builtin(video, location, layout, render_state, uniforms, vs, fs)
}

} // verus!
