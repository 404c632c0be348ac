use minirenderer::manager::ResourceManager;
use minirenderer::mesh::{standard_vertex_layout, Mesh, SubMesh};
use minirenderer::pipeline::PipelineBuildSettings;

const SHADER_A: &str = "@group(0) @binding(0) var<uniform> transform: mat4x4<f32>;";
const SHADER_B: &str = "@group(0) @binding(0) var albedo: texture_2d<f32>;";

fn tiny_mesh() -> Mesh {
    let sub = SubMesh::new(vec![0u8; 3 * 32], 3, vec![0, 1, 2]);
    Mesh::new(vec![sub], standard_vertex_layout())
}

#[test]
fn materials_sharing_a_shader_share_the_pipeline() {
    // Two materials with one shader handle: the same mesh gives the
    // identical pipeline handle both times.
    let mut rm = ResourceManager::new();
    let mesh = rm.register_mesh(tiny_mesh());
    let shader = rm.load_shader(SHADER_A).expect("shader");
    let m1 = rm.create_material();
    let m2 = rm.create_material();
    rm.assign_shader_to_material(&m1, &shader);
    rm.assign_shader_to_material(&m2, &shader);

    let p1 = rm.create_pipeline(&mesh, &m1);
    let p2 = rm.create_pipeline(&mesh, &m2);
    assert!(p1 == p2);
    assert_eq!(rm.pipeline_count(), 1);
}

#[test]
fn identical_configurations_reuse_the_cache_entry() {
    let mut rm = ResourceManager::new();
    let mesh = rm.register_mesh(tiny_mesh());
    let shader = rm.load_shader(SHADER_A).expect("shader");
    let m = rm.create_material();
    rm.assign_shader_to_material(&m, &shader);

    let p1 = rm.create_pipeline(&mesh, &m);
    let p2 = rm.create_pipeline(&mesh, &m);
    let p3 = rm.create_pipeline(&mesh, &m);
    assert!(p1 == p2 && p2 == p3);
    assert_eq!(rm.pipeline_count(), 1);
}

#[test]
fn a_different_shader_gets_its_own_pipeline() {
    // The canonical key covers the shader's identity and its bind group
    // layouts, not the vertex layout alone.
    let mut rm = ResourceManager::new();
    let mesh = rm.register_mesh(tiny_mesh());
    let sa = rm.load_shader(SHADER_A).expect("shader a");
    let sb = rm.load_shader(SHADER_B).expect("shader b");
    let ma = rm.create_material();
    let mb = rm.create_material();
    rm.assign_shader_to_material(&ma, &sa);
    rm.assign_shader_to_material(&mb, &sb);

    let pa = rm.create_pipeline(&mesh, &ma);
    let pb = rm.create_pipeline(&mesh, &mb);
    assert!(pa != pb);
    assert_eq!(rm.pipeline_count(), 2);
}

#[test]
fn fingerprint_is_a_function_of_the_key() {
    let layout = standard_vertex_layout();
    let vls = layout.get_vertex_buffer_layouts();

    let mut s1 = PipelineBuildSettings::new().use_depth(false);
    s1 = s1.add_vertex_descriptor(&vls[0]);
    s1 = s1.set_shader(42);
    s1.calculate_hash();

    let mut s2 = PipelineBuildSettings::new().use_depth(false);
    s2 = s2.add_vertex_descriptor(&vls[0]);
    s2 = s2.set_shader(42);
    s2.calculate_hash();

    assert_eq!(s1.get_uuid(), s2.get_uuid());

    let mut s3 = PipelineBuildSettings::new().use_depth(false);
    s3 = s3.add_vertex_descriptor(&vls[0]);
    s3 = s3.set_shader(43);
    s3.calculate_hash();
    assert_ne!(s1.get_uuid(), s3.get_uuid());
}

#[test]
fn cached_pipeline_remembers_its_shader() {
    let mut rm = ResourceManager::new();
    let mesh = rm.register_mesh(tiny_mesh());
    let shader = rm.load_shader(SHADER_A).expect("shader");
    let m = rm.create_material();
    rm.assign_shader_to_material(&m, &shader);
    let p = rm.create_pipeline(&mesh, &m);
    let pipeline = rm.get_pipeline(&p).expect("pipeline");
    assert!(*pipeline.get_shader() == shader);
}
