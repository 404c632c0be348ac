use minirenderer::manager::ResourceManager;
use minirenderer::mesh::{standard_vertex_layout, Mesh, SubMesh};

fn cube_like_mesh() -> Mesh {
    // Eight vertices (32 bytes each in the standard layout) and twelve
    // triangles, as a decoder would hand them over.
    let vertex_count = 8;
    let vertex_data = vec![0u8; vertex_count * 32];
    let mut indices: Vec<u32> = Vec::new();
    for tri in 0..12u32 {
        indices.push(tri % 8);
        indices.push((tri + 1) % 8);
        indices.push((tri + 2) % 8);
    }
    let sub = SubMesh::new(vertex_data, vertex_count, indices);
    Mesh::new(vec![sub], standard_vertex_layout())
}

#[test]
fn eight_vertices_twelve_triangles_one_submesh() {
    let mesh = cube_like_mesh();
    assert_eq!(mesh.get_sub_meshes().len(), 1);
    let sub = &mesh.get_sub_meshes()[0];
    assert_eq!(sub.get_vertex_count(), 8);
    assert_eq!(sub.get_indices_count(), 36);
}

#[test]
fn registering_a_mesh_uploads_its_buffers() {
    let mut rm = ResourceManager::new();
    let h = rm.register_mesh(cube_like_mesh());
    let mesh = rm.get_mesh(&h).expect("mesh should be registered");
    assert_eq!(mesh.get_sub_meshes().len(), 1);

    let vbs = rm.get_mesh_vertex_buffers(&h).expect("vertex buffers");
    assert_eq!(vbs.len(), 1);
    assert_eq!(vbs[0].get_size(), 8 * 32);

    let ibs = rm.get_mesh_index_buffers(&h).expect("index buffers");
    assert_eq!(ibs.len(), 1);
    // 36 indices, four little-endian bytes each
    assert_eq!(ibs[0].get_size(), 36 * 4);
    assert_eq!(&ibs[0].get_buffer()[0..8], &[0, 0, 0, 0, 1, 0, 0, 0]);
}

#[test]
fn standard_layout_describes_interleaved_vertices() {
    let layout = standard_vertex_layout();
    let vls = layout.get_vertex_buffer_layouts();
    assert_eq!(vls.len(), 1);
    assert_eq!(vls[0].array_stride, 32);
    assert_eq!(vls[0].attributes.len(), 3);
    assert_eq!(vls[0].attributes[0].offset, 0);
    assert_eq!(vls[0].attributes[1].offset, 12);
    assert_eq!(vls[0].attributes[2].offset, 24);
}
