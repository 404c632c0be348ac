use minirenderer::manager::ResourceManager;
use minirenderer::mesh::{standard_vertex_layout, Mesh, SubMesh};

#[test]
fn uniform_update_waits_for_the_frame_sync() {
    // Replacing the payload and then syncing leaves the device buffer
    // holding exactly the new bytes; omitting the sync leaves it at its
    // last upload.
    let mut rm = ResourceManager::new();
    let initial: Vec<u8> = vec![1, 2, 3, 4];
    let h = rm.create_uniform_buffer(&initial);

    let fresh: Vec<u8> = vec![9, 9, 9, 9];
    rm.update_uniform_buffer(&h, &fresh);
    {
        let ub = rm.get_uniform_buffer(&h).expect("uniform");
        assert_eq!(ub.get_data().as_slice(), fresh.as_slice());
        assert_eq!(ub.get_buffer().as_slice(), initial.as_slice());
        assert!(ub.is_dirty());
    }

    rm.sync_uniform_buffers();
    {
        let ub = rm.get_uniform_buffer(&h).expect("uniform");
        assert_eq!(ub.get_buffer().as_slice(), fresh.as_slice());
        assert!(!ub.is_dirty());
    }
}

#[test]
fn model_transforms_flow_through_their_uniforms() {
    let mut rm = ResourceManager::new();
    let mesh = rm.register_mesh(Mesh::new(
        vec![SubMesh::new(vec![0u8; 32], 1, vec![0])],
        standard_vertex_layout(),
    ));
    let material = rm.create_material();
    let transform: Vec<u8> = vec![1; 64];
    let model = rm.create_model(&mesh, &material, transform.clone());

    let uh_id = {
        let m = rm.get_model(&model).expect("model");
        assert_eq!(m.get_transform().as_slice(), transform.as_slice());
        m.get_transform_uniform_handle().get_uuid()
    };
    assert!(uh_id == uh_id);

    // move the model, then run the per-frame maintenance
    let moved: Vec<u8> = vec![2; 64];
    rm.set_model_transform(&model, moved.clone());
    rm.update_model_transforms();
    {
        let m = rm.get_model(&model).expect("model");
        let uh = m.get_transform_uniform_handle();
        let ub = rm.get_uniform_buffer(uh).expect("transform uniform");
        assert_eq!(ub.get_data().as_slice(), moved.as_slice());
        assert!(ub.is_dirty());
        assert_eq!(ub.get_buffer().as_slice(), transform.as_slice());
    }
    rm.sync_uniform_buffers();
    {
        let m = rm.get_model(&model).expect("model");
        let uh = m.get_transform_uniform_handle();
        let ub = rm.get_uniform_buffer(uh).expect("transform uniform");
        assert_eq!(ub.get_buffer().as_slice(), moved.as_slice());
        assert!(!ub.is_dirty());
    }
}

#[test]
fn material_update_refreshes_copy_buffers_from_device_bytes() {
    let src = "@group(0) @binding(0) var<uniform> tint: vec4<f32>;";
    let mut rm = ResourceManager::new();
    let shader = rm.load_shader(src).expect("shader");
    let material = rm.create_material();
    rm.assign_shader_to_material(&material, &shader);
    let payload: Vec<u8> = vec![3; 16];
    let uniform = rm.create_uniform_buffer(&payload);
    rm.assign_uniform_to_material(&material, &uniform, "tint");
    rm.generate_material_bind_groups(&material).expect("generation");

    // change the uniform and push it to the device, then refresh
    let newer: Vec<u8> = vec![8; 16];
    rm.update_uniform_buffer(&uniform, &newer);
    rm.sync_uniform_buffers();
    rm.update_materials();

    let m = rm.get_material(&material).expect("material");
    let buf = m.get_bind_group_buffer("tint").expect("copy buffer");
    assert_eq!(buf.get_buffer().as_slice(), newer.as_slice());
}

#[test]
fn render_plan_groups_by_shader_and_material() {
    let src_a = "@group(0) @binding(0) var<uniform> a: mat4x4<f32>;";
    let src_b = "@group(0) @binding(0) var b: texture_2d<f32>;";
    let mut rm = ResourceManager::new();
    let mesh = rm.register_mesh(Mesh::new(
        vec![SubMesh::new(vec![0u8; 32], 1, vec![0])],
        standard_vertex_layout(),
    ));
    let sa = rm.load_shader(src_a).expect("shader a");
    let sb = rm.load_shader(src_b).expect("shader b");
    let ma = rm.create_material();
    let mb = rm.create_material();
    rm.assign_shader_to_material(&ma, &sa);
    rm.assign_shader_to_material(&mb, &sb);
    let pa = rm.create_pipeline(&mesh, &ma);
    let pb = rm.create_pipeline(&mesh, &mb);
    assert!(pa != pb);

    let _m1 = rm.create_model(&mesh, &ma, vec![0; 64]);
    let _m2 = rm.create_model(&mesh, &mb, vec![0; 64]);
    let _m3 = rm.create_model(&mesh, &ma, vec![0; 64]);

    let plan = rm.plan_render();
    assert_eq!(plan.pipeline_materials.len(), 2);
    // pipeline 0 was built for shader a, drawn by material 0 alone
    assert_eq!(plan.pipeline_materials[0].0, 0);
    assert_eq!(plan.pipeline_materials[0].1, vec![0]);
    assert_eq!(plan.pipeline_materials[1].0, 1);
    assert_eq!(plan.pipeline_materials[1].1, vec![1]);
    // material 0 is drawn by models 0 and 2, material 1 by model 1
    assert_eq!(plan.material_models.len(), 2);
    assert_eq!(plan.material_models[0], vec![0, 2]);
    assert_eq!(plan.material_models[1], vec![1]);
}
