use minirenderer::reflect::{BindingType, ReflectError, ShaderReflect};

fn reflected(source: &str) -> ShaderReflect {
    let mut r = ShaderReflect::new(source);
    r.reflect().expect("reflection should succeed");
    r
}

fn find<'a>(
    r: &'a ShaderReflect,
    name: &str,
) -> &'a minirenderer::reflect::Binding {
    r.get_bindings()
        .iter()
        .find(|b| b.get_name().as_slice() == name.as_bytes())
        .expect("binding should be present")
}

#[test]
fn reflects_texture_and_sampler_bindings() {
    let src = "\
@group(0) @binding(0) var diffuse: texture_2d<f32>;
@group(0) @binding(1) var diffuse_sampler: sampler;
";
    let r = reflected(src);
    assert_eq!(r.get_bindings().len(), 2);
    let tex = find(&r, "diffuse");
    assert_eq!(tex.get_group(), 0);
    assert_eq!(tex.get_binding(), 0);
    assert_eq!(tex.get_binding_type(), BindingType::Texture);
    let sam = find(&r, "diffuse_sampler");
    assert_eq!(sam.get_group(), 0);
    assert_eq!(sam.get_binding(), 1);
    assert_eq!(sam.get_binding_type(), BindingType::TextureSampler);
}

#[test]
fn reflects_uniform_and_storage_blocks() {
    let src = "\
@group(1) @binding(0) var<uniform> transform: mat4x4<f32>;
@group(2) @binding(3) var<storage> particles: array<f32>;
";
    let r = reflected(src);
    assert_eq!(r.get_bindings().len(), 2);
    let uni = find(&r, "transform");
    assert_eq!(uni.get_group(), 1);
    assert_eq!(uni.get_binding(), 0);
    assert_eq!(uni.get_binding_type(), BindingType::Uniform);
    let sto = find(&r, "particles");
    assert_eq!(sto.get_group(), 2);
    assert_eq!(sto.get_binding(), 3);
    assert_eq!(sto.get_binding_type(), BindingType::Storage);
}

#[test]
fn unknown_address_space_is_reported() {
    let src = "@group(0) @binding(0) var<push> junk: f32;";
    let mut r = ShaderReflect::new(src);
    match r.reflect() {
        Err(ReflectError::UnknownBindingType { space }) => {
            assert_eq!(space.as_slice(), b"push");
        },
        Ok(()) => panic!("an unknown address space must be an error"),
    }
    assert_eq!(r.get_bindings().len(), 0);
}

#[test]
fn tolerates_whitespace_inside_attributes() {
    let src = "@group( 2 )  @binding( 7 )\nvar shadow_map : texture_depth_2d;";
    let r = reflected(src);
    let b = find(&r, "shadow_map");
    assert_eq!(b.get_group(), 2);
    assert_eq!(b.get_binding(), 7);
    assert_eq!(b.get_binding_type(), BindingType::Texture);
}

#[test]
fn ignores_text_without_binding_declarations() {
    let src = "fn vertex_main() -> f32 { return 1.0; } // group binding var";
    let r = reflected(src);
    assert_eq!(r.get_bindings().len(), 0);
}

#[test]
fn later_declaration_of_a_name_wins() {
    let src = "\
@group(0) @binding(0) var thing: texture_2d<f32>;
@group(3) @binding(4) var<uniform> thing: mat4x4<f32>;
";
    let r = reflected(src);
    assert_eq!(r.get_bindings().len(), 1);
    let b = find(&r, "thing");
    assert_eq!(b.get_group(), 3);
    assert_eq!(b.get_binding(), 4);
    assert_eq!(b.get_binding_type(), BindingType::Uniform);
}

#[test]
fn sampler_classification_goes_by_declared_type() {
    let src = "@group(0) @binding(5) var lookup: sampler_comparison;";
    let r = reflected(src);
    let b = find(&r, "lookup");
    assert_eq!(b.get_binding_type(), BindingType::TextureSampler);
}
