//! Meshes and their layout descriptions.
//!
//! A mesh is an ordered list of submeshes, each a vertex buffer image (raw
//! bytes plus a vertex count) and a 32-bit index array, together with a
//! description of how the vertex data is laid out.  File decoding is a
//! host concern: the host hands decoded submeshes in, and the mesh is
//! immutable after that.

use vstd::prelude::*;

verus! {

/// Vertex attribute formats the renderer uses.
#[derive(Copy, Clone, PartialEq, Eq, Structural, Debug)]
pub enum VertexFormatDesc {
    Float32x2,
    Float32x3,
    Float32x4,
}

/// Whether a vertex buffer advances per vertex or per instance.
#[derive(Copy, Clone, PartialEq, Eq, Structural, Debug)]
pub enum StepModeDesc {
    Vertex,
    Instance,
}

/// Width of the indices in an index buffer.
#[derive(Copy, Clone, PartialEq, Eq, Structural, Debug)]
pub enum IndexFormatDesc {
    Uint16,
    Uint32,
}

/// One vertex attribute: where it sits in the vertex, which shader
/// location reads it, and its format.
#[derive(Copy, Clone, PartialEq, Eq, Structural, Debug)]
pub struct VertexAttributeDesc {
    pub offset: u64,
    pub shader_location: u32,
    pub format: VertexFormatDesc,
}

/// The layout of one vertex buffer: its stride, step mode and attributes.
#[derive(Debug)]
pub struct VertexBufferLayoutDesc {
    pub array_stride: u64,
    pub step_mode: StepModeDesc,
    pub attributes: Vec<VertexAttributeDesc>,
}

/// The mathematical image of a [`VertexBufferLayoutDesc`].
pub struct VertexBufferLayoutView {
    pub array_stride: u64,
    pub step_mode: StepModeDesc,
    pub attributes: Seq<VertexAttributeDesc>,
}

impl View for VertexBufferLayoutDesc {
    type V = VertexBufferLayoutView;

    open spec fn view(&self) -> VertexBufferLayoutView {
        VertexBufferLayoutView {
            array_stride: self.array_stride,
            step_mode: self.step_mode,
            attributes: self.attributes@,
        }
    }
}

/// The views of a list of vertex buffer layouts.
pub open spec fn layout_views(s: Seq<VertexBufferLayoutDesc>) -> Seq<VertexBufferLayoutView> {
    s.map_values(|l: VertexBufferLayoutDesc| l@)
}

/// Layout of a whole mesh: one layout per vertex buffer, plus the index
/// width.
#[derive(Debug)]
pub struct MeshLayout {
    vertex_buffer_layouts: Vec<VertexBufferLayoutDesc>,
    index_format: IndexFormatDesc,
}

impl MeshLayout {
    /// The vertex buffer layouts, as views.
    pub closed spec fn layouts_spec(&self) -> Seq<VertexBufferLayoutView> {
        layout_views(self.vertex_buffer_layouts@)
    }

    /// The index width.
    pub closed spec fn index_format_spec(&self) -> IndexFormatDesc {
        self.index_format
    }

    /// Builds a mesh layout.
    pub fn new(vertex_buffer_layouts: Vec<VertexBufferLayoutDesc>, index_format: IndexFormatDesc)
        -> (r: MeshLayout)
        ensures
            r.layouts_spec() == layout_views(vertex_buffer_layouts@),
            r.index_format_spec() == index_format,
    {
        MeshLayout { vertex_buffer_layouts, index_format }
    }

    /// The vertex buffer layouts.
    pub fn get_vertex_buffer_layouts(&self) -> (r: &Vec<VertexBufferLayoutDesc>)
        ensures
            layout_views(r@) == self.layouts_spec(),
    {
        &self.vertex_buffer_layouts
    }
}

/// The vertex layout this renderer's standard vertex uses: position,
/// normal and texture coordinates, interleaved in one buffer.
pub fn standard_vertex_layout() -> (r: MeshLayout)
    ensures
        r.layouts_spec().len() == 1,
        r.layouts_spec()[0].array_stride == 32,
        r.layouts_spec()[0].step_mode == StepModeDesc::Vertex,
        r.layouts_spec()[0].attributes == seq![
            VertexAttributeDesc { offset: 0, shader_location: 0, format: VertexFormatDesc::Float32x3 },
            VertexAttributeDesc { offset: 12, shader_location: 1, format: VertexFormatDesc::Float32x3 },
            VertexAttributeDesc { offset: 24, shader_location: 2, format: VertexFormatDesc::Float32x2 },
        ],
        r.index_format_spec() == IndexFormatDesc::Uint32,
{
    let mut attributes: Vec<VertexAttributeDesc> = Vec::new();
    attributes.push(
        VertexAttributeDesc { offset: 0, shader_location: 0, format: VertexFormatDesc::Float32x3 },
    );
    attributes.push(
        VertexAttributeDesc {
            offset: 12,
            shader_location: 1,
            format: VertexFormatDesc::Float32x3,
        },
    );
    attributes.push(
        VertexAttributeDesc {
            offset: 24,
            shader_location: 2,
            format: VertexFormatDesc::Float32x2,
        },
    );
    proof {
        assert(attributes@ =~= seq![
            VertexAttributeDesc { offset: 0, shader_location: 0, format: VertexFormatDesc::Float32x3 },
            VertexAttributeDesc { offset: 12, shader_location: 1, format: VertexFormatDesc::Float32x3 },
            VertexAttributeDesc { offset: 24, shader_location: 2, format: VertexFormatDesc::Float32x2 },
        ]);
    }
    let mut layouts: Vec<VertexBufferLayoutDesc> = Vec::new();
    layouts.push(
        VertexBufferLayoutDesc { array_stride: 32, step_mode: StepModeDesc::Vertex, attributes },
    );
    let r = MeshLayout { vertex_buffer_layouts: layouts, index_format: IndexFormatDesc::Uint32 };
    proof {
        assert(r.layouts_spec()[0] == r.vertex_buffer_layouts@[0]@);
    }
    r
}

/// One draw-call-sized chunk of a mesh: its own vertex and index arrays.
/// Vertex data is carried as the raw byte image the vertex buffer holds.
#[derive(Debug)]
pub struct SubMesh {
    vertex_data: Vec<u8>,
    vertex_count: usize,
    indices: Vec<u32>,
}

impl SubMesh {
    /// The byte image of the vertex buffer.
    pub closed spec fn vertex_data_spec(&self) -> Seq<u8> {
        self.vertex_data@
    }

    /// Number of vertices in the submesh.
    pub closed spec fn vertex_count_spec(&self) -> nat {
        self.vertex_count as nat
    }

    /// The 32-bit indices.
    pub closed spec fn indices_spec(&self) -> Seq<u32> {
        self.indices@
    }

    /// Builds a submesh from decoded vertex bytes, the vertex count they
    /// encode, and the index array.
    pub fn new(vertex_data: Vec<u8>, vertex_count: usize, indices: Vec<u32>) -> (r: SubMesh)
        ensures
            r.vertex_data_spec() == vertex_data@,
            r.vertex_count_spec() == vertex_count,
            r.indices_spec() == indices@,
    {
        SubMesh { vertex_data, vertex_count, indices }
    }

    /// The byte image of the vertex buffer.
    pub fn get_vertices(&self) -> (r: &Vec<u8>)
        ensures
            r@ == self.vertex_data_spec(),
    {
        &self.vertex_data
    }

    /// Number of vertices in the submesh.
    pub fn get_vertex_count(&self) -> (n: usize)
        ensures
            n == self.vertex_count_spec(),
    {
        self.vertex_count
    }

    /// The 32-bit indices.
    pub fn get_indices(&self) -> (r: &Vec<u32>)
        ensures
            r@ == self.indices_spec(),
    {
        &self.indices
    }

    /// Number of indices in the submesh.
    pub fn get_indices_count(&self) -> (n: usize)
        ensures
            n == self.indices_spec().len(),
    {
        self.indices.len()
    }
}

/// An ordered list of submeshes with a layout description.  Immutable
/// after load.
#[derive(Debug)]
pub struct Mesh {
    sub_meshes: Vec<SubMesh>,
    layout: MeshLayout,
}

impl Mesh {
    /// The submeshes.
    pub closed spec fn sub_meshes_spec(&self) -> Seq<SubMesh> {
        self.sub_meshes@
    }

    /// The layout description.
    pub closed spec fn layout_spec(&self) -> MeshLayout {
        self.layout
    }

    /// Assembles a mesh from decoded submeshes and their layout.
    pub fn new(sub_meshes: Vec<SubMesh>, layout: MeshLayout) -> (r: Mesh)
        ensures
            r.sub_meshes_spec() == sub_meshes@,
            r.layout_spec() == layout,
    {
        Mesh { sub_meshes, layout }
    }

    /// The submeshes.
    pub fn get_sub_meshes(&self) -> (r: &Vec<SubMesh>)
        ensures
            r@ == self.sub_meshes_spec(),
    {
        &self.sub_meshes
    }

    /// The layout description.
    pub fn get_layout(&self) -> (r: &MeshLayout)
        ensures
            *r == self.layout_spec(),
    {
        &self.layout
    }
}

} // verus!
