use crayon::factory::{color, pbr, phong, undefined, COLOR};
use crayon::graphics::GraphicsSystemShared;
use crayon::setup::{Comparison, CullFace, IndexFormat, MeshSetup, Primitive, UniformVariableType};
use crayon::{GraphicsError, Location, PreFrameTask};

fn system() -> GraphicsSystemShared {
    GraphicsSystemShared::new((640, 480), (640, 480))
}

#[test]
fn builtin_shader_is_created_once() {
    let mut video = system();
    let a = color(&mut video, "vs", "fs").unwrap();
    let b = color(&mut video, "other vs", "other fs").unwrap();
    assert_eq!(a, b);
    assert_eq!(video.lookup_shader_from(&Location::shared(0, COLOR)), Some(a));
    assert_eq!(video.front_frame().pre.len(), 1);
    match &video.front_frame().pre[0] {
        PreFrameTask::CreatePipeline(h, setup) => {
            assert_eq!(*h, a);
            assert_eq!(setup.vs, "vs");
            assert_eq!(setup.fs, "fs");
            assert!(setup.render_state.depth_write);
            assert_eq!(setup.render_state.depth_test, Comparison::LessOrEqual);
            assert_eq!(setup.render_state.cull_face, CullFace::Back);
        }
        _ => panic!("expected a pipeline creation"),
    }
    let state = video.shader_state(a).unwrap();
    assert_eq!(
        state.uniform_variables,
        vec![("u_MVPMatrix".to_string(), UniformVariableType::Matrix4f), ("u_Color".to_string(), UniformVariableType::Vector4f)]
    );
}

#[test]
fn builtin_shaders_declare_their_uniforms() {
    let mut video = system();
    let p = pbr(&mut video, "vs", "fs").unwrap();
    let h = phong(&mut video, "vs", "fs").unwrap();
    let u = undefined(&mut video, "vs", "fs").unwrap();
    assert_eq!(video.shader_state(p).unwrap().uniform_variables.len(), 3);
    let phong_state = video.shader_state(h).unwrap();
    assert_eq!(phong_state.uniform_variables.len(), 21);
    assert_eq!(phong_state.uniform_variables[20], ("u_Shininess".to_string(), UniformVariableType::F32));
    assert_eq!(phong_state.uniform_variables[10], ("u_PointLightAttenuation[1]".to_string(), UniformVariableType::Vector3f));
    assert_eq!(video.shader_state(u).unwrap().uniform_variables.len(), 1);
    assert!(p != h && h != u);
}

#[test]
fn builtin_shader_refuses_empty_stage() {
    let mut video = system();
    assert!(matches!(pbr(&mut video, "", "fs"), Err(GraphicsError::MissingVertexShader)));
    assert!(matches!(pbr(&mut video, "vs", ""), Err(GraphicsError::MissingFragmentShader)));
    assert_eq!(video.front_frame().pre.len(), 0);
}

#[test]
fn mesh_load_completion_records_creation() {
    let mut video = system();
    let location = Location::shared(0, "meshes/rock");
    let mesh = video.create_mesh_from(location.clone_location()).unwrap();
    assert_eq!(video.create_mesh_from(location.clone_location()).unwrap(), mesh);
    assert_eq!(video.front_frame().pre.len(), 0);
    let setup = || MeshSetup {
        vertex_stride: 4,
        num_verts: 2,
        num_idxes: 2,
        index_format: IndexFormat::U32,
        primitive: Primitive::Lines,
        sub_mesh_offsets: vec![0],
    };
    assert!(matches!(video.finish_mesh_load(mesh, setup(), &[0; 9], &[]), Err(GraphicsError::OutOfBounds)));
    video.finish_mesh_load(mesh, setup(), &[1; 8], &[2; 8]).unwrap();
    assert_eq!(video.front_frame().pre.len(), 1);
    assert_eq!(video.front_frame().buf.len(), 16);
    // A second completion of a ready mesh records nothing.
    video.finish_mesh_load(mesh, setup(), &[1; 8], &[2; 8]).unwrap();
    assert_eq!(video.front_frame().pre.len(), 1);
    video.delete_mesh(mesh);
    video.delete_mesh(mesh);
    assert!(matches!(video.finish_mesh_load(mesh, setup(), &[], &[]), Err(GraphicsError::InvalidHandle)));
}
