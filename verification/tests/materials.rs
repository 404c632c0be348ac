use minirenderer::manager::ResourceManager;
use minirenderer::material::MaterialError;

const DIFFUSE_SHADER: &str = "\
@group(0) @binding(0) var diffuse: texture_2d<f32>;
";

#[test]
fn missing_binding_then_success_after_assignment() {
    // A material whose shader reflects one texture binding named
    // `diffuse` fails generation before the texture is assigned, and
    // yields exactly one bind group for that binding's group afterwards.
    let mut rm = ResourceManager::new();
    let shader = rm.load_shader(DIFFUSE_SHADER).expect("shader should reflect");
    let material = rm.create_material();
    rm.assign_shader_to_material(&material, &shader);

    match rm.generate_material_bind_groups(&material) {
        Err(MaterialError::MissingBinding { name }) => {
            assert_eq!(name.as_slice(), b"diffuse");
        },
        other => panic!("expected a missing-binding error, got {:?}", other.is_ok()),
    }

    let texture = rm.create_texture_from_pixels(1, 1, vec![255, 0, 0, 255]);
    rm.assign_texture_to_material(&material, &texture, "diffuse");
    rm.generate_material_bind_groups(&material).expect("generation should succeed");

    let m = rm.get_material(&material).expect("material");
    assert!(!m.is_dirty());
    let groups = m.get_bind_groups();
    assert_eq!(groups.len(), 1);
    assert_eq!(groups[0].get_group(), 0);
    assert_eq!(groups[0].get_entries().len(), 1);
}

#[test]
fn generation_is_idempotent_on_a_clean_material() {
    let mut rm = ResourceManager::new();
    let shader = rm.load_shader(DIFFUSE_SHADER).expect("shader should reflect");
    let material = rm.create_material();
    rm.assign_shader_to_material(&material, &shader);
    let texture = rm.create_texture_from_pixels(1, 1, vec![1, 2, 3, 4]);
    rm.assign_texture_to_material(&material, &texture, "diffuse");

    rm.generate_material_bind_groups(&material).expect("first generation");
    let first_groups = rm.get_material(&material).unwrap().get_bind_groups().len();
    assert!(!rm.get_material(&material).unwrap().is_dirty());

    // a second call with no intervening assignment performs no work
    rm.generate_material_bind_groups(&material).expect("second generation");
    let m = rm.get_material(&material).unwrap();
    assert!(!m.is_dirty());
    assert_eq!(m.get_bind_groups().len(), first_groups);
}

#[test]
fn assignments_always_mark_the_material_dirty() {
    let mut rm = ResourceManager::new();
    let shader = rm.load_shader(DIFFUSE_SHADER).expect("shader should reflect");
    let material = rm.create_material();
    rm.assign_shader_to_material(&material, &shader);
    let texture = rm.create_texture_from_pixels(1, 1, vec![0, 0, 0, 0]);

    assert!(rm.get_material(&material).unwrap().is_dirty());
    rm.assign_texture_to_material(&material, &texture, "diffuse");
    assert!(rm.get_material(&material).unwrap().is_dirty());

    rm.generate_material_bind_groups(&material).expect("generation");
    assert!(!rm.get_material(&material).unwrap().is_dirty());

    // assigning again sets the flag back, whatever its prior state
    rm.assign_texture_to_material(&material, &texture, "diffuse");
    assert!(rm.get_material(&material).unwrap().is_dirty());

    let payload: Vec<u8> = vec![0; 64];
    let uniform = rm.create_uniform_buffer(&payload);
    rm.generate_material_bind_groups(&material).expect("generation");
    rm.assign_uniform_to_material(&material, &uniform, "transform");
    assert!(rm.get_material(&material).unwrap().is_dirty());
}

#[test]
fn missing_shader_is_reported() {
    let mut rm = ResourceManager::new();
    let material = rm.create_material();
    match rm.generate_material_bind_groups(&material) {
        Err(MaterialError::MissingShader) => {},
        _ => panic!("a dirty material without a shader cannot generate"),
    }
}

#[test]
fn storage_blocks_are_not_bound_by_materials() {
    let src = "@group(0) @binding(0) var<storage> cells: array<u32>;";
    let mut rm = ResourceManager::new();
    let shader = rm.load_shader(src).expect("shader should reflect");
    let material = rm.create_material();
    rm.assign_shader_to_material(&material, &shader);
    match rm.generate_material_bind_groups(&material) {
        Err(MaterialError::StorageBinding { name }) => {
            assert_eq!(name.as_slice(), b"cells");
        },
        _ => panic!("a storage block must be reported"),
    }
}

#[test]
fn one_uniform_shared_by_two_materials_keeps_separate_buffers() {
    let src = "@group(0) @binding(0) var<uniform> tint: vec4<f32>;";
    let mut rm = ResourceManager::new();
    let shader = rm.load_shader(src).expect("shader");
    let ma = rm.create_material();
    let mb = rm.create_material();
    rm.assign_shader_to_material(&ma, &shader);
    rm.assign_shader_to_material(&mb, &shader);
    let payload: Vec<u8> = vec![5; 16];
    let uniform = rm.create_uniform_buffer(&payload);
    rm.assign_uniform_to_material(&ma, &uniform, "tint");
    rm.assign_uniform_to_material(&mb, &uniform, "tint");
    rm.generate_material_bind_groups(&ma).expect("generation a");
    rm.generate_material_bind_groups(&mb).expect("generation b");

    let newer: Vec<u8> = vec![6; 16];
    rm.update_uniform_buffer(&uniform, &newer);
    rm.sync_uniform_buffers();
    rm.update_materials();

    // each material's dedicated copy buffer now holds the shared bytes
    for handle in [&ma, &mb] {
        let m = rm.get_material(handle).expect("material");
        let buf = m.get_bind_group_buffer("tint").expect("copy buffer");
        assert_eq!(buf.get_buffer().as_slice(), newer.as_slice());
    }
}

#[test]
fn sampler_bindings_resolve_through_their_texture() {
    let src = "\
@group(0) @binding(0) var diffuse: texture_2d<f32>;
@group(0) @binding(1) var diffuse_sampler: sampler;
@group(1) @binding(0) var<uniform> transform: mat4x4<f32>;
";
    let mut rm = ResourceManager::new();
    let shader = rm.load_shader(src).expect("shader should reflect");
    let material = rm.create_material();
    rm.assign_shader_to_material(&material, &shader);
    let texture = rm.create_texture_from_pixels(2, 2, vec![0; 16]);
    rm.assign_texture_to_material(&material, &texture, "diffuse");
    let payload: Vec<u8> = vec![7; 64];
    let uniform = rm.create_uniform_buffer(&payload);
    rm.assign_uniform_to_material(&material, &uniform, "transform");

    rm.generate_material_bind_groups(&material).expect("generation should succeed");
    let m = rm.get_material(&material).unwrap();
    let groups = m.get_bind_groups();
    assert_eq!(groups.len(), 2);
    assert_eq!(groups[0].get_group(), 0);
    assert_eq!(groups[0].get_entries().len(), 2);
    assert_eq!(groups[1].get_group(), 1);
    assert_eq!(groups[1].get_entries().len(), 1);

    // the copy buffer was seeded with the uniform's current payload
    let buf = m.get_bind_group_buffer("transform").expect("copy buffer");
    assert_eq!(buf.get_buffer().as_slice(), payload.as_slice());
}
