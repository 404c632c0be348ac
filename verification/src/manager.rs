//! The top-level resource registry.
//!
//! A [`ResourceManager`] owns the handle arena and one registry per
//! resource category, plus the shader and pipeline sub-managers.  Creation
//! calls hand out counted handle clones while the manager retains a strong
//! reference of its own, so dropping every external handle never evicts a
//! resource.  Per-frame maintenance pushes model transforms through their
//! uniform buffers, uploads dirty uniforms, and refreshes material copy
//! buffers.

use vstd::prelude::*;
use vstd::string::StringSliceAdditionalSpecFns;

use crate::buffer::{AsBytes, Buffer, BufferType};
use crate::handles::{arena_extends, HandleArena, ResourceHandle, ResourceType};
use crate::material::{generate_rel, update_rel, Material, MaterialError};
use crate::mesh::Mesh;
use crate::model::Model;
use crate::pipeline::{cache_step, pipeline_key, PipelineManager};
use crate::reflect::{table_of, ReflectError};
use crate::registry::{keys_valid, map_of_entries, Registry};
use crate::shader::Shader;
use crate::texture::Texture;
use crate::uniform_buffer::{uniform_set, uniform_sync, UniformBuffer};

verus! {

/// The little-endian byte image of a 32-bit index array, as an index
/// buffer holds it.
pub open spec fn indices_bytes(s: Seq<u32>) -> Seq<u8>
    decreases s.len(),
{
    if s.len() == 0 {
        Seq::empty()
    } else {
        indices_bytes(s.drop_last()) + crate::pipeline::enc_u32(s.last())
    }
}

/// Encodes a 32-bit index array in little-endian byte order.
pub fn encode_indices(v: &Vec<u32>) -> (r: Vec<u8>)
    ensures
        r@ == indices_bytes(v@),
{
    let n = v.len();
    let mut out: Vec<u8> = Vec::new();
    let mut k: usize = 0;
    proof {
        assert(out@ =~= indices_bytes(v@.subrange(0, 0)));
    }
    while k < n
        invariant
            k <= n,
            n == v@.len(),
            out@ == indices_bytes(v@.subrange(0, k as int)),
        decreases n - k,
    {
        crate::pipeline::push_u32(&mut out, v[k]);
        proof {
            assert(v@.subrange(0, k + 1).drop_last() =~= v@.subrange(0, k as int));
            assert(v@.subrange(0, k + 1).last() == v@[k as int]);
            assert(out@ =~= indices_bytes(v@.subrange(0, k + 1)));
        }
        k = k + 1;
    }
    proof {
        assert(v@.subrange(0, n as int) =~= v@);
    }
    out
}

/// A draw plan: for each cached pipeline, the materials drawn with it;
/// for each material, the models drawing it — all as registry positions.
pub struct RenderPlan {
    pub pipeline_materials: Vec<(usize, Vec<usize>)>,
    pub material_models: Vec<Vec<usize>>,
}

/// A position list, as mathematical integers.
pub open spec fn usize_ints(s: Seq<usize>) -> Seq<int> {
    s.map_values(|x: usize| x as int)
}

/// The positions of the materials whose shader is exactly `sh`, in order.
pub open spec fn mat_indices_for(ms: Seq<(ResourceHandle, Material)>, sh: ResourceHandle) -> Seq<
    int,
>
    decreases ms.len(),
{
    if ms.len() == 0 {
        Seq::empty()
    } else {
        let rest = mat_indices_for(ms.drop_last(), sh);
        if ms.last().1.shader_spec() == Some(sh) {
            rest.push(ms.len() - 1)
        } else {
            rest
        }
    }
}

/// The positions of the models whose material is exactly `mat`, in order.
pub open spec fn model_indices_for(ms: Seq<(ResourceHandle, Model)>, mat: ResourceHandle) -> Seq<
    int,
>
    decreases ms.len(),
{
    if ms.len() == 0 {
        Seq::empty()
    } else {
        let rest = model_indices_for(ms.drop_last(), mat);
        if ms.last().1.material_spec() == mat {
            rest.push(ms.len() - 1)
        } else {
            rest
        }
    }
}

/// Registry of shaders: creation runs reflection, and a shader whose
/// source declares an unknown address space is never registered.
pub struct ShaderManager {
    shaders: Registry<Shader>,
}

impl ShaderManager {
    /// The registered shaders, in creation order.
    pub closed spec fn seq(&self) -> Seq<(ResourceHandle, Shader)> {
        self.shaders.seq()
    }

    /// The registered shaders, by handle.
    pub closed spec fn map_spec(&self) -> Map<ResourceHandle, Shader> {
        self.shaders@
    }

    /// One entry per handle identity, each shader well formed.
    pub open spec fn wf(&self) -> bool {
        &&& crate::registry::handles_unique(self.seq())
        &&& forall|k: int| 0 <= k < self.seq().len() ==> (#[trigger] self.seq()[k]).1.wf()
    }

    /// An empty shader registry.
    pub fn new() -> (r: ShaderManager)
        ensures
            r.seq() == Seq::<(ResourceHandle, Shader)>::empty(),
            r.map_spec() == Map::<ResourceHandle, Shader>::empty(),
            r.wf(),
    {
        ShaderManager { shaders: Registry::new() }
    }

    /// Reflects a shader source and registers the shader under a fresh
    /// handle; an unknown address-space keyword is reported instead and
    /// nothing is registered.
    pub fn create_shader(&mut self, arena: &mut HandleArena, source: &str) -> (r: Result<
        ResourceHandle,
        ReflectError,
    >)
        requires
            old(self).wf(),
            old(arena).wf(),
            keys_valid(*old(arena), old(self).seq()),
        ensures
            final(self).wf(),
            final(arena).wf(),
            arena_extends(*old(arena), *final(arena)),
            keys_valid(*final(arena), final(self).seq()),
            match crate::reflect::scan_source_spec(source.spec_bytes()) {
                Ok(recs) => r matches Ok(h) && h.id() == old(arena).len() && h.type_spec()
                    == ResourceType::Shader && final(arena).len() == old(arena).len() + 1 && final(arena).rc_of(h.id()) == 2 && final(arena).valid_handle(h) && final(self).map_spec()
                    == old(self).map_spec().insert(h, final(self).map_spec()[h]) && final(self).map_spec().dom().contains(h) && final(self).map_spec()[h].wf() && final(self).map_spec()[h].table() == table_of(recs) && final(self).map_spec()[h].source_spec() == source.spec_bytes() && final(self).seq() == old(self).seq().push((h, final(self).map_spec()[h])),
                Err(space) => (r matches Err(ReflectError::UnknownBindingType { space: v }) && v@
                    == space) && *final(self) == *old(self) && *final(arena) == *old(arena),
            },
    {
        let mut shader = Shader::new(source);
        match shader.generate_bindings() {
            Err(e) => Err(e),
            Ok(()) => {
                let stored = arena.new_handle(ResourceType::Shader);
                let out = arena.clone_handle(&stored);
                proof {
                    assert forall|k: int|
                        0 <= k < self.seq().len() implies arena.valid_handle(
                        (#[trigger] self.seq()[k]).0,
                    ) && self.seq()[k].0.id() != stored.id() by {
                        crate::handles::lemma_extends_valid(
                            *old(arena),
                            *arena,
                            self.seq()[k].0,
                        );
                        assert(old(arena).valid_handle(self.seq()[k].0));
                    }
                    crate::registry::lemma_registry_view(&self.shaders);
                    crate::registry::lemma_entries_push(self.shaders.seq(), stored, shader);
                }
                self.shaders.insert(stored, shader);
                proof {
                    crate::registry::lemma_entries_lookup(
                        self.shaders.seq(),
                        self.shaders.seq().len() - 1,
                    );
                    crate::registry::lemma_registry_view(&self.shaders);
                }
                Ok(out)
            },
        }
    }

    /// Borrows a registered shader.
    pub fn get_shader(&self, h: &ResourceHandle) -> (r: Option<&Shader>)
        requires
            self.wf(),
        ensures
            match r {
                Some(s) => self.map_spec().dom().contains(*h) && *s == self.map_spec()[*h]
                    && s.wf(),
                None => !self.map_spec().dom().contains(*h),
            },
    {
        let r = self.shaders.get(h);
        proof {
            if r is Some {
                crate::registry::lemma_registry_view(&self.shaders);
                crate::registry::lemma_value_from_entries(self.shaders.seq(), *h);
            }
        }
        r
    }

    /// The position of a registered shader.
    pub fn shader_index_of(&self, h: &ResourceHandle) -> (r: Option<usize>)
        requires
            self.wf(),
        ensures
            match r {
                Some(k) => k < self.seq().len() && self.seq()[k as int].0 == *h
                    && self.map_spec().dom().contains(*h) && self.map_spec()[*h] == self.seq()[
                    k as int].1,
                None => !self.map_spec().dom().contains(*h),
            },
    {
        proof {
            crate::registry::lemma_registry_view(&self.shaders);
        }
        self.shaders.index_of(h)
    }

    /// The shader of entry `k`.
    pub fn shader_at(&self, k: usize) -> (r: &Shader)
        requires
            self.wf(),
            k < self.seq().len(),
        ensures
            *r == self.seq()[k as int].1,
            r.wf(),
    {
        self.shaders.value_at(k)
    }

    /// A copy of a registered shader's binding records.
    pub fn get_shader_bindings(&self, h: &ResourceHandle) -> (r: Option<
        Vec<crate::reflect::Binding>,
    >)
        requires
            self.wf(),
        ensures
            match r {
                Some(bs) => self.map_spec().dom().contains(*h) && crate::reflect::views_of(bs@)
                    == self.map_spec()[*h].bindings_views() && self.map_spec()[*h].wf(),
                None => !self.map_spec().dom().contains(*h),
            },
    {
        match self.get_shader(h) {
            Some(s) => Some(crate::reflect::clone_bindings(s.get_bindings())),
            None => None,
        }
    }
}

/// The top-level registry of meshes, textures, materials, models and
/// uniform buffers, with the shader and pipeline sub-managers and the
/// handle arena behind all of them.
pub struct ResourceManager {
    arena: HandleArena,
    meshes: Registry<Mesh>,
    mesh_vertex_buffers: Registry<Vec<Buffer>>,
    mesh_index_buffers: Registry<Vec<Buffer>>,
    textures: Registry<Texture>,
    materials: Registry<Material>,
    models: Registry<Model>,
    uniforms: Registry<UniformBuffer>,
    shader_manager: ShaderManager,
    pipeline_manager: PipelineManager,
}

impl ResourceManager {
    /// The handle arena.
    pub closed spec fn arena_spec(&self) -> HandleArena {
        self.arena
    }

    /// The registered meshes, by handle.
    pub closed spec fn meshes_spec(&self) -> Map<ResourceHandle, Mesh> {
        self.meshes@
    }

    /// The vertex buffers of each mesh, by handle.
    pub closed spec fn vertex_buffers_spec(&self) -> Map<ResourceHandle, Vec<Buffer>> {
        self.mesh_vertex_buffers@
    }

    /// The index buffers of each mesh, by handle.
    pub closed spec fn index_buffers_spec(&self) -> Map<ResourceHandle, Vec<Buffer>> {
        self.mesh_index_buffers@
    }

    /// The registered textures, by handle.
    pub closed spec fn textures_spec(&self) -> Map<ResourceHandle, Texture> {
        self.textures@
    }

    /// The registered materials, by handle.
    pub closed spec fn materials_spec(&self) -> Map<ResourceHandle, Material> {
        self.materials@
    }

    /// The registered materials, in creation order.
    pub closed spec fn materials_seq_spec(&self) -> Seq<(ResourceHandle, Material)> {
        self.materials.seq()
    }

    /// The registered models, by handle.
    pub closed spec fn models_spec(&self) -> Map<ResourceHandle, Model> {
        self.models@
    }

    /// The registered models, in creation order.
    pub closed spec fn models_seq_spec(&self) -> Seq<(ResourceHandle, Model)> {
        self.models.seq()
    }

    /// The registered uniform buffers, by handle.
    pub closed spec fn uniforms_spec(&self) -> Map<ResourceHandle, UniformBuffer> {
        self.uniforms@
    }

    /// The registered uniform buffers, in creation order.
    pub closed spec fn uniforms_seq_spec(&self) -> Seq<(ResourceHandle, UniformBuffer)> {
        self.uniforms.seq()
    }

    /// The registered shaders, by handle.
    pub closed spec fn shaders_spec(&self) -> Map<ResourceHandle, Shader> {
        self.shader_manager.map_spec()
    }

    /// The pipeline cache, in creation order.
    pub closed spec fn pipelines_spec(&self) -> Seq<(ResourceHandle, crate::pipeline::Pipeline)> {
        self.pipeline_manager.seq()
    }

    /// Every registry holds one entry per handle identity, every stored
    /// handle is live, and every material is well formed.
    pub closed spec fn wf(&self) -> bool {
        &&& self.arena.wf()
        &&& self.meshes.wf()
        &&& self.mesh_vertex_buffers.wf()
        &&& self.mesh_index_buffers.wf()
        &&& self.textures.wf()
        &&& self.materials.wf()
        &&& self.models.wf()
        &&& self.uniforms.wf()
        &&& self.shader_manager.wf()
        &&& self.pipeline_manager.wf()
        &&& keys_valid(self.arena, self.meshes.seq())
        &&& keys_valid(self.arena, self.mesh_vertex_buffers.seq())
        &&& keys_valid(self.arena, self.mesh_index_buffers.seq())
        &&& keys_valid(self.arena, self.textures.seq())
        &&& keys_valid(self.arena, self.materials.seq())
        &&& keys_valid(self.arena, self.models.seq())
        &&& keys_valid(self.arena, self.uniforms.seq())
        &&& keys_valid(self.arena, self.shader_manager.seq())
        &&& keys_valid(self.arena, self.pipeline_manager.seq())
        &&& forall|k: int|
            0 <= k < self.materials.seq().len() ==> (#[trigger] self.materials.seq()[k]).1.wf()
        &&& forall|k: int|
            0 <= k < self.materials.seq().len() ==> ((#[trigger] self.materials.seq()[k]).1.shader_spec() matches Some(sh)
                ==> self.arena.valid_handle(sh))
    }

    /// An empty manager.
    pub fn new() -> (rm: ResourceManager)
        ensures
            rm.wf(),
            rm.arena_spec().len() == 0,
            rm.meshes_spec() == Map::<ResourceHandle, Mesh>::empty(),
            rm.textures_spec() == Map::<ResourceHandle, Texture>::empty(),
            rm.materials_spec() == Map::<ResourceHandle, Material>::empty(),
            rm.models_spec() == Map::<ResourceHandle, Model>::empty(),
            rm.uniforms_spec() == Map::<ResourceHandle, UniformBuffer>::empty(),
            rm.shaders_spec() == Map::<ResourceHandle, Shader>::empty(),
            rm.pipelines_spec() == Seq::<(ResourceHandle, crate::pipeline::Pipeline)>::empty(),
    {
        ResourceManager {
            arena: HandleArena::new(),
            meshes: Registry::new(),
            mesh_vertex_buffers: Registry::new(),
            mesh_index_buffers: Registry::new(),
            textures: Registry::new(),
            materials: Registry::new(),
            models: Registry::new(),
            uniforms: Registry::new(),
            shader_manager: ShaderManager::new(),
            pipeline_manager: PipelineManager::new(),
        }
    }

    /// Creates a fresh, empty, dirty material and returns its handle; the
    /// manager retains its own reference.
    pub fn create_material(&mut self) -> (h: ResourceHandle)
        requires
            old(self).wf(),
        ensures
            final(self).wf(),
            arena_extends(old(self).arena_spec(), final(self).arena_spec()),
            h.id() == old(self).arena_spec().len(),
            h.type_spec() == ResourceType::Material,
            final(self).arena_spec().valid_handle(h),
            final(self).arena_spec().rc_of(h.id()) == 2,
            final(self).materials_spec().dom() == old(self).materials_spec().dom().insert(h),
            final(self).materials_spec() == old(self).materials_spec().insert(
                h,
                final(self).materials_spec()[h],
            ),
            final(self).materials_spec()[h].dirty_spec(),
            final(self).materials_spec()[h].shader_spec() is None,
            final(self).materials_spec()[h].textures_map() == Map::<
                Seq<u8>,
                ResourceHandle,
            >::empty(),
            final(self).materials_spec()[h].uniforms_map() == Map::<
                Seq<u8>,
                ResourceHandle,
            >::empty(),
            final(self).meshes_spec() == old(self).meshes_spec(),
            final(self).textures_spec() == old(self).textures_spec(),
            final(self).models_spec() == old(self).models_spec(),
            final(self).uniforms_spec() == old(self).uniforms_spec(),
            final(self).shaders_spec() == old(self).shaders_spec(),
            final(self).pipelines_spec() == old(self).pipelines_spec(),
    {
        let material = Material::new();
        let stored = self.arena.new_handle(ResourceType::Material);
        let out = self.arena.clone_handle(&stored);
        proof {
            self.lemma_fresh_key(*old(self), stored);
        }
        self.materials.insert(stored, material);
        proof {
            crate::registry::lemma_entries_lookup(
                self.materials.seq(),
                self.materials.seq().len() - 1,
            );
            crate::registry::lemma_registry_view(&self.materials);
            self.lemma_wf_after_arena_growth(*old(self));
            assert(final(self).materials_spec().dom() =~= old(self).materials_spec().dom().insert(
                out,
            ));
        }
        out
    }

    /// A fresh handle's identity is in no registry: every stored key is
    /// live in the old arena, so its identity is below the old length.
    proof fn lemma_fresh_key(&self, pre: ResourceManager, h: ResourceHandle)
        requires
            pre.wf(),
            h.id() == pre.arena_spec().len(),
            self.meshes.seq() == pre.meshes.seq(),
            self.mesh_vertex_buffers.seq() == pre.mesh_vertex_buffers.seq(),
            self.mesh_index_buffers.seq() == pre.mesh_index_buffers.seq(),
            self.textures.seq() == pre.textures.seq(),
            self.materials.seq() == pre.materials.seq(),
            self.models.seq() == pre.models.seq(),
            self.uniforms.seq() == pre.uniforms.seq(),
        ensures
            !self.meshes.contains_id(h.id()),
            !self.mesh_vertex_buffers.contains_id(h.id()),
            !self.mesh_index_buffers.contains_id(h.id()),
            !self.textures.contains_id(h.id()),
            !self.materials.contains_id(h.id()),
            !self.models.contains_id(h.id()),
            !self.uniforms.contains_id(h.id()),
    {
        assert forall|k: int|
            0 <= k < pre.materials.seq().len() implies (#[trigger] pre.materials.seq()[k]).0.id()
            != h.id() by {
            assert(pre.arena_spec().valid_handle(pre.materials.seq()[k].0));
        }
        assert forall|k: int|
            0 <= k < pre.meshes.seq().len() implies (#[trigger] pre.meshes.seq()[k]).0.id()
            != h.id() by {
            assert(pre.arena_spec().valid_handle(pre.meshes.seq()[k].0));
        }
        assert forall|k: int|
            0 <= k < pre.mesh_vertex_buffers.seq().len() implies (#[trigger] pre.mesh_vertex_buffers.seq()[k]).0.id()
            != h.id() by {
            assert(pre.arena_spec().valid_handle(pre.mesh_vertex_buffers.seq()[k].0));
        }
        assert forall|k: int|
            0 <= k < pre.mesh_index_buffers.seq().len() implies (#[trigger] pre.mesh_index_buffers.seq()[k]).0.id()
            != h.id() by {
            assert(pre.arena_spec().valid_handle(pre.mesh_index_buffers.seq()[k].0));
        }
        assert forall|k: int|
            0 <= k < pre.textures.seq().len() implies (#[trigger] pre.textures.seq()[k]).0.id()
            != h.id() by {
            assert(pre.arena_spec().valid_handle(pre.textures.seq()[k].0));
        }
        assert forall|k: int|
            0 <= k < pre.models.seq().len() implies (#[trigger] pre.models.seq()[k]).0.id()
            != h.id() by {
            assert(pre.arena_spec().valid_handle(pre.models.seq()[k].0));
        }
        assert forall|k: int|
            0 <= k < pre.uniforms.seq().len() implies (#[trigger] pre.uniforms.seq()[k]).0.id()
            != h.id() by {
            assert(pre.arena_spec().valid_handle(pre.uniforms.seq()[k].0));
        }
    }

    /// Registers a decoded texture and returns its handle.
    pub fn create_texture_from_pixels(&mut self, width: u32, height: u32, pixels: Vec<u8>) -> (h:
        ResourceHandle)
        requires
            old(self).wf(),
            pixels@.len() == 4 * width * height,
        ensures
            final(self).wf(),
            arena_extends(old(self).arena_spec(), final(self).arena_spec()),
            h.id() == old(self).arena_spec().len(),
            h.type_spec() == ResourceType::Texture,
            final(self).arena_spec().valid_handle(h),
            final(self).arena_spec().rc_of(h.id()) == 2,
            final(self).textures_spec() == old(self).textures_spec().insert(
                h,
                final(self).textures_spec()[h],
            ),
            final(self).textures_spec().dom().contains(h),
            final(self).textures_spec()[h].width_spec() == width,
            final(self).textures_spec()[h].height_spec() == height,
            final(self).textures_spec()[h].pixels_spec() == pixels@,
            final(self).meshes_spec() == old(self).meshes_spec(),
            final(self).materials_spec() == old(self).materials_spec(),
            final(self).models_spec() == old(self).models_spec(),
            final(self).uniforms_spec() == old(self).uniforms_spec(),
            final(self).shaders_spec() == old(self).shaders_spec(),
            final(self).pipelines_spec() == old(self).pipelines_spec(),
    {
        let texture = Texture::from_pixels(width, height, pixels);
        let stored = self.arena.new_handle(ResourceType::Texture);
        let out = self.arena.clone_handle(&stored);
        proof {
            self.lemma_fresh_key(*old(self), stored);
        }
        self.textures.insert(stored, texture);
        proof {
            crate::registry::lemma_entries_lookup(
                self.textures.seq(),
                self.textures.seq().len() - 1,
            );
            crate::registry::lemma_registry_view(&self.textures);
            self.lemma_wf_after_arena_growth(*old(self));
        }
        out
    }

    /// Registers a decoded mesh: uploads one vertex and one index buffer
    /// per submesh (indices in little-endian byte order) and returns the
    /// mesh's handle.
    pub fn register_mesh(&mut self, mesh: Mesh) -> (h: ResourceHandle)
        requires
            old(self).wf(),
        ensures
            final(self).wf(),
            arena_extends(old(self).arena_spec(), final(self).arena_spec()),
            h.id() == old(self).arena_spec().len(),
            h.type_spec() == ResourceType::Mesh,
            final(self).arena_spec().valid_handle(h),
            final(self).arena_spec().rc_of(h.id()) == 4,
            final(self).meshes_spec() == old(self).meshes_spec().insert(h, mesh),
            final(self).vertex_buffers_spec().dom().contains(h),
            final(self).index_buffers_spec().dom().contains(h),
            ({
                let vbs = final(self).vertex_buffers_spec()[h]@;
                let ibs = final(self).index_buffers_spec()[h]@;
                let subs = mesh.sub_meshes_spec();
                &&& vbs.len() == subs.len()
                &&& ibs.len() == subs.len()
                &&& forall|k: int|
                    0 <= k < subs.len() ==> (#[trigger] vbs[k]).contents_spec() == subs[k].vertex_data_spec()
                        && vbs[k].type_spec() == BufferType::Vertex
                &&& forall|k: int|
                    0 <= k < subs.len() ==> (#[trigger] ibs[k]).contents_spec() == indices_bytes(
                        subs[k].indices_spec(),
                    ) && ibs[k].type_spec() == BufferType::Index
            }),
            final(self).textures_spec() == old(self).textures_spec(),
            final(self).materials_spec() == old(self).materials_spec(),
            final(self).models_spec() == old(self).models_spec(),
            final(self).uniforms_spec() == old(self).uniforms_spec(),
            final(self).shaders_spec() == old(self).shaders_spec(),
            final(self).pipelines_spec() == old(self).pipelines_spec(),
    {
        let subs = mesh.get_sub_meshes();
        let n = subs.len();
        let mut vertex_buffers: Vec<Buffer> = Vec::new();
        let mut index_buffers: Vec<Buffer> = Vec::new();
        let mut k: usize = 0;
        while k < n
            invariant
                k <= n,
                n == mesh.sub_meshes_spec().len(),
                subs@ == mesh.sub_meshes_spec(),
                vertex_buffers@.len() == k,
                index_buffers@.len() == k,
                forall|j: int|
                    0 <= j < k ==> (#[trigger] vertex_buffers@[j]).contents_spec()
                        == mesh.sub_meshes_spec()[j].vertex_data_spec()
                        && vertex_buffers@[j].type_spec() == BufferType::Vertex,
                forall|j: int|
                    0 <= j < k ==> (#[trigger] index_buffers@[j]).contents_spec() == indices_bytes(
                        mesh.sub_meshes_spec()[j].indices_spec(),
                    ) && index_buffers@[j].type_spec() == BufferType::Index,
            decreases n - k,
        {
            let vb = Buffer::create_buffer_from_bytes(
                subs[k].get_vertices().as_slice(),
                BufferType::Vertex,
            );
            let ib_bytes = encode_indices(subs[k].get_indices());
            let ib = Buffer::create_buffer_from_bytes(ib_bytes.as_slice(), BufferType::Index);
            vertex_buffers.push(vb);
            index_buffers.push(ib);
            k = k + 1;
        }
        let stored = self.arena.new_handle(ResourceType::Mesh);
        let out = self.arena.clone_handle(&stored);
        let vb_key = self.arena.clone_handle(&stored);
        let ib_key = self.arena.clone_handle(&stored);
        proof {
            self.lemma_fresh_key(*old(self), stored);
        }
        self.meshes.insert(stored, mesh);
        proof {
            crate::registry::lemma_registry_view(&self.meshes);
        }
        self.mesh_vertex_buffers.insert(vb_key, vertex_buffers);
        proof {
            crate::registry::lemma_entries_lookup(
                self.mesh_vertex_buffers.seq(),
                self.mesh_vertex_buffers.seq().len() - 1,
            );
            crate::registry::lemma_registry_view(&self.mesh_vertex_buffers);
        }
        self.mesh_index_buffers.insert(ib_key, index_buffers);
        proof {
            crate::registry::lemma_entries_lookup(
                self.mesh_index_buffers.seq(),
                self.mesh_index_buffers.seq().len() - 1,
            );
            crate::registry::lemma_registry_view(&self.mesh_index_buffers);
            self.lemma_wf_after_arena_growth(*old(self));
        }
        out
    }

    /// Reflects a shader source and registers the shader; an unknown
    /// address-space keyword is reported instead.
    pub fn load_shader(&mut self, source: &str) -> (r: Result<ResourceHandle, ReflectError>)
        requires
            old(self).wf(),
        ensures
            final(self).wf(),
            arena_extends(old(self).arena_spec(), final(self).arena_spec()),
            final(self).meshes_spec() == old(self).meshes_spec(),
            final(self).textures_spec() == old(self).textures_spec(),
            final(self).materials_spec() == old(self).materials_spec(),
            final(self).models_spec() == old(self).models_spec(),
            final(self).uniforms_spec() == old(self).uniforms_spec(),
            final(self).pipelines_spec() == old(self).pipelines_spec(),
            match crate::reflect::scan_source_spec(source.spec_bytes()) {
                Ok(recs) => r matches Ok(h) && h.id() == old(self).arena_spec().len()
                    && h.type_spec() == ResourceType::Shader && final(self).arena_spec().valid_handle(h) && final(self).arena_spec().rc_of(h.id()) == 2
                    && final(self).shaders_spec() == old(self).shaders_spec().insert(
                    h,
                    final(self).shaders_spec()[h],
                ) && final(self).shaders_spec().dom().contains(h) && final(self).shaders_spec()[h].wf() && final(self).shaders_spec()[h].table() == table_of(recs)
                    && final(self).shaders_spec()[h].source_spec() == source.spec_bytes(),
                Err(space) => (r matches Err(ReflectError::UnknownBindingType { space: v }) && v@
                    == space) && final(self).shaders_spec() == old(self).shaders_spec(),
            },
    {
        let r = self.shader_manager.create_shader(&mut self.arena, source);
        proof {
            if r is Ok {
                self.lemma_wf_after_arena_growth(*old(self));
            }
        }
        r
    }

    /// Assigns a texture to a material under a shader variable name and
    /// marks the material dirty.
    pub fn assign_texture_to_material(
        &mut self,
        material_handle: &ResourceHandle,
        texture_handle: &ResourceHandle,
        name: &str,
    )
        requires
            old(self).wf(),
            old(self).materials_spec().dom().contains(*material_handle),
            old(self).arena_spec().valid_handle(*texture_handle),
            old(self).arena_spec().rc_of(texture_handle.id()) < usize::MAX,
        ensures
            final(self).wf(),
            arena_extends(old(self).arena_spec(), final(self).arena_spec()),
            final(self).materials_spec() == old(self).materials_spec().insert(
                *material_handle,
                final(self).materials_spec()[*material_handle],
            ),
            ({
                let m = old(self).materials_spec()[*material_handle];
                let m2 = final(self).materials_spec()[*material_handle];
                &&& m2.textures_map() == m.textures_map().insert(
                    name.spec_bytes(),
                    *texture_handle,
                )
                &&& m2.dirty_spec()
                &&& m2.uniforms_map() == m.uniforms_map()
                &&& m2.buffers_seq() == m.buffers_seq()
                &&& m2.bind_groups_seq() == m.bind_groups_seq()
                &&& m2.shader_spec() == m.shader_spec()
                &&& m2.bindings_seq() == m.bindings_seq()
            }),
            final(self).meshes_spec() == old(self).meshes_spec(),
            final(self).textures_spec() == old(self).textures_spec(),
            final(self).models_spec() == old(self).models_spec(),
            final(self).uniforms_spec() == old(self).uniforms_spec(),
            final(self).shaders_spec() == old(self).shaders_spec(),
            final(self).pipelines_spec() == old(self).pipelines_spec(),
    {
        let idx = match self.materials.index_of(material_handle) {
            Some(i) => i,
            None => {
                proof {
                    crate::registry::lemma_registry_view(&self.materials);
                }
                vstd::pervasive::unreached()
            },
        };
        let c = self.arena.clone_handle(texture_handle);
        let m = self.materials.value_at_mut(idx);
        m.add_texture(name, c);
        proof {
            crate::registry::lemma_registry_view(&self.materials);
            self.lemma_wf_after_material_update(*old(self), idx as int);
        }
    }

    /// Assigns a uniform buffer to a material under a shader variable name
    /// and marks the material dirty.
    pub fn assign_uniform_to_material(
        &mut self,
        material_handle: &ResourceHandle,
        uniform_handle: &ResourceHandle,
        name: &str,
    )
        requires
            old(self).wf(),
            old(self).materials_spec().dom().contains(*material_handle),
            old(self).arena_spec().valid_handle(*uniform_handle),
            old(self).arena_spec().rc_of(uniform_handle.id()) < usize::MAX,
        ensures
            final(self).wf(),
            arena_extends(old(self).arena_spec(), final(self).arena_spec()),
            final(self).materials_spec() == old(self).materials_spec().insert(
                *material_handle,
                final(self).materials_spec()[*material_handle],
            ),
            ({
                let m = old(self).materials_spec()[*material_handle];
                let m2 = final(self).materials_spec()[*material_handle];
                &&& m2.uniforms_map() == m.uniforms_map().insert(
                    name.spec_bytes(),
                    *uniform_handle,
                )
                &&& m2.dirty_spec()
                &&& m2.textures_map() == m.textures_map()
                &&& m2.buffers_seq() == m.buffers_seq()
                &&& m2.bind_groups_seq() == m.bind_groups_seq()
                &&& m2.shader_spec() == m.shader_spec()
                &&& m2.bindings_seq() == m.bindings_seq()
            }),
            final(self).meshes_spec() == old(self).meshes_spec(),
            final(self).textures_spec() == old(self).textures_spec(),
            final(self).models_spec() == old(self).models_spec(),
            final(self).uniforms_spec() == old(self).uniforms_spec(),
            final(self).shaders_spec() == old(self).shaders_spec(),
            final(self).pipelines_spec() == old(self).pipelines_spec(),
    {
        let idx = match self.materials.index_of(material_handle) {
            Some(i) => i,
            None => {
                proof {
                    crate::registry::lemma_registry_view(&self.materials);
                }
                vstd::pervasive::unreached()
            },
        };
        let c = self.arena.clone_handle(uniform_handle);
        let m = self.materials.value_at_mut(idx);
        m.add_uniform(name, c);
        proof {
            crate::registry::lemma_registry_view(&self.materials);
            self.lemma_wf_after_material_update(*old(self), idx as int);
        }
    }

    /// Assigns a shader to a material, wiring in the shader's reflected
    /// bindings.
    pub fn assign_shader_to_material(
        &mut self,
        material_handle: &ResourceHandle,
        shader_handle: &ResourceHandle,
    )
        requires
            old(self).wf(),
            old(self).materials_spec().dom().contains(*material_handle),
            old(self).shaders_spec().dom().contains(*shader_handle),
            old(self).arena_spec().valid_handle(*shader_handle),
            old(self).arena_spec().rc_of(shader_handle.id()) < usize::MAX,
        ensures
            final(self).wf(),
            arena_extends(old(self).arena_spec(), final(self).arena_spec()),
            final(self).materials_spec() == old(self).materials_spec().insert(
                *material_handle,
                final(self).materials_spec()[*material_handle],
            ),
            ({
                let m = old(self).materials_spec()[*material_handle];
                let m2 = final(self).materials_spec()[*material_handle];
                &&& m2.shader_spec() == Some(*shader_handle)
                &&& m2.bindings_views() == old(self).shaders_spec()[*shader_handle].bindings_views()
                &&& m2.textures_map() == m.textures_map()
                &&& m2.uniforms_map() == m.uniforms_map()
                &&& m2.buffers_seq() == m.buffers_seq()
                &&& m2.bind_groups_seq() == m.bind_groups_seq()
                &&& m2.dirty_spec() == m.dirty_spec()
            }),
            final(self).meshes_spec() == old(self).meshes_spec(),
            final(self).textures_spec() == old(self).textures_spec(),
            final(self).models_spec() == old(self).models_spec(),
            final(self).uniforms_spec() == old(self).uniforms_spec(),
            final(self).shaders_spec() == old(self).shaders_spec(),
            final(self).pipelines_spec() == old(self).pipelines_spec(),
    {
        let idx = match self.materials.index_of(material_handle) {
            Some(i) => i,
            None => {
                proof {
                    crate::registry::lemma_registry_view(&self.materials);
                }
                vstd::pervasive::unreached()
            },
        };
        let bindings = match self.shader_manager.get_shader_bindings(shader_handle) {
            Some(bs) => bs,
            None => {
                proof {
                    crate::registry::lemma_registry_view(&self.materials);
                }
                vstd::pervasive::unreached()
            },
        };
        let c = self.arena.clone_handle(shader_handle);
        proof {
            let sh = old(self).shaders_spec()[*shader_handle];
            assert(crate::reflect::names_unique(sh.bindings_views()));
            assert(crate::reflect::names_unique(crate::reflect::views_of(bindings@)));
        }
        let m = self.materials.value_at_mut(idx);
        m.set_shader(c, bindings);
        proof {
            crate::registry::lemma_registry_view(&self.materials);
            self.lemma_wf_after_material_update(*old(self), idx as int);
        }
    }

    /// Creates a uniform buffer holding a payload's byte image and returns
    /// its handle.
    pub fn create_uniform_buffer<T: AsBytes>(&mut self, data: &T) -> (h: ResourceHandle)
        requires
            old(self).wf(),
        ensures
            final(self).wf(),
            arena_extends(old(self).arena_spec(), final(self).arena_spec()),
            h.id() == old(self).arena_spec().len(),
            final(self).arena_spec().valid_handle(h),
            final(self).arena_spec().rc_of(h.id()) == 2,
            forall|id: int|
                0 <= id < old(self).arena_spec().len() ==> final(self).arena_spec().slot_of(id)
                    == old(self).arena_spec().slot_of(id),
            final(self).uniforms_spec() == old(self).uniforms_spec().insert(
                h,
                final(self).uniforms_spec()[h],
            ),
            final(self).uniforms_spec().dom().contains(h),
            final(self).uniforms_spec()[h].data_spec() == data.bytes_spec(),
            final(self).uniforms_spec()[h].gpu_spec() == data.bytes_spec(),
            !final(self).uniforms_spec()[h].dirty_spec(),
            final(self).meshes_spec() == old(self).meshes_spec(),
            final(self).textures_spec() == old(self).textures_spec(),
            final(self).materials_spec() == old(self).materials_spec(),
            final(self).models_spec() == old(self).models_spec(),
            final(self).shaders_spec() == old(self).shaders_spec(),
            final(self).pipelines_spec() == old(self).pipelines_spec(),
    {
        let bytes = vstd::slice::slice_to_vec(data.as_bytes());
        let ub = UniformBuffer::new(bytes);
        let stored = self.arena.new_handle(ResourceType::Material);
        let out = self.arena.clone_handle(&stored);
        proof {
            self.lemma_fresh_key(*old(self), stored);
        }
        self.uniforms.insert(stored, ub);
        proof {
            crate::registry::lemma_entries_lookup(
                self.uniforms.seq(),
                self.uniforms.seq().len() - 1,
            );
            crate::registry::lemma_registry_view(&self.uniforms);
            self.lemma_wf_after_arena_growth(*old(self));
        }
        out
    }

    /// Replaces a uniform buffer's payload and marks it dirty; the device
    /// copy follows at the next per-frame sync.
    pub fn update_uniform_buffer<T: AsBytes>(&mut self, handle: &ResourceHandle, data: &T)
        requires
            old(self).wf(),
            old(self).uniforms_spec().dom().contains(*handle),
        ensures
            final(self).wf(),
            final(self).arena_spec() == old(self).arena_spec(),
            final(self).uniforms_spec() == old(self).uniforms_spec().insert(
                *handle,
                final(self).uniforms_spec()[*handle],
            ),
            uniform_set(
                old(self).uniforms_spec()[*handle],
                data.bytes_spec(),
                final(self).uniforms_spec()[*handle],
            ),
            final(self).meshes_spec() == old(self).meshes_spec(),
            final(self).textures_spec() == old(self).textures_spec(),
            final(self).materials_spec() == old(self).materials_spec(),
            final(self).models_spec() == old(self).models_spec(),
            final(self).shaders_spec() == old(self).shaders_spec(),
            final(self).pipelines_spec() == old(self).pipelines_spec(),
    {
        let idx = match self.uniforms.index_of(handle) {
            Some(i) => i,
            None => {
                proof {
                    crate::registry::lemma_registry_view(&self.uniforms);
                }
                vstd::pervasive::unreached()
            },
        };
        let bytes = vstd::slice::slice_to_vec(data.as_bytes());
        let ub = self.uniforms.value_at_mut(idx);
        ub.set_data(bytes);
        proof {
            crate::registry::lemma_registry_view(&self.uniforms);
            assert forall|k: int|
                0 <= k < self.uniforms.seq().len() implies self.arena.valid_handle(
                (#[trigger] self.uniforms.seq()[k]).0,
            ) by {
                assert(self.uniforms.seq()[k].0 == old(self).uniforms_seq_spec()[k].0);
            }
        }
    }

    /// Per-frame sync: uploads every dirty uniform payload to its device
    /// buffer, at most once per change, and clears the flags.
    pub fn sync_uniform_buffers(&mut self)
        requires
            old(self).wf(),
        ensures
            final(self).wf(),
            final(self).arena_spec() == old(self).arena_spec(),
            final(self).uniforms_seq_spec().len() == old(self).uniforms_seq_spec().len(),
            forall|k: int|
                0 <= k < old(self).uniforms_seq_spec().len() ==> (#[trigger] final(self).uniforms_seq_spec()[k]).0 == old(self).uniforms_seq_spec()[k].0 && uniform_sync(
                    old(self).uniforms_seq_spec()[k].1,
                    final(self).uniforms_seq_spec()[k].1,
                ),
            final(self).meshes_spec() == old(self).meshes_spec(),
            final(self).textures_spec() == old(self).textures_spec(),
            final(self).materials_spec() == old(self).materials_spec(),
            final(self).models_spec() == old(self).models_spec(),
            final(self).shaders_spec() == old(self).shaders_spec(),
            final(self).pipelines_spec() == old(self).pipelines_spec(),
    {
        let n = self.uniforms.len();
        let mut k: usize = 0;
        while k < n
            invariant
                k <= n,
                n == self.uniforms.seq().len(),
                self.arena == old(self).arena_spec(),
                self.meshes == old(self).meshes,
                self.mesh_vertex_buffers == old(self).mesh_vertex_buffers,
                self.mesh_index_buffers == old(self).mesh_index_buffers,
                self.textures == old(self).textures,
                self.materials == old(self).materials,
                self.models == old(self).models,
                self.shader_manager == old(self).shader_manager,
                self.pipeline_manager == old(self).pipeline_manager,
                old(self).wf(),
                self.uniforms.wf(),
                self.uniforms.seq().len() == old(self).uniforms_seq_spec().len(),
                forall|j: int|
                    0 <= j < old(self).uniforms_seq_spec().len() ==> (
                    #[trigger] self.uniforms.seq()[j]).0 == old(self).uniforms_seq_spec()[j].0,
                forall|j: int|
                    0 <= j < k ==> uniform_sync(
                        old(self).uniforms_seq_spec()[j].1,
                        (#[trigger] self.uniforms.seq()[j]).1,
                    ),
                forall|j: int|
                    k <= j < old(self).uniforms_seq_spec().len() ==> (
                    #[trigger] self.uniforms.seq()[j]).1 == old(self).uniforms_seq_spec()[j].1,
            decreases n - k,
        {
            let ub = self.uniforms.value_at_mut(k);
            ub.update();
            k = k + 1;
        }
        proof {
            assert forall|k2: int|
                0 <= k2 < self.uniforms.seq().len() implies self.arena.valid_handle(
                (#[trigger] self.uniforms.seq()[k2]).0,
            ) by {
                assert(self.uniforms.seq()[k2].0 == old(self).uniforms_seq_spec()[k2].0);
            }
        }
    }

    /// Creates a model from a mesh, a material and a GPU-ready transform
    /// payload; a dedicated uniform buffer for the transform is created
    /// alongside it.
    pub fn create_model(
        &mut self,
        mesh_handle: &ResourceHandle,
        material_handle: &ResourceHandle,
        transform_data: Vec<u8>,
    ) -> (h: ResourceHandle)
        requires
            old(self).wf(),
            old(self).arena_spec().valid_handle(*mesh_handle),
            old(self).arena_spec().valid_handle(*material_handle),
            old(self).arena_spec().rc_of(mesh_handle.id()) < usize::MAX - 2,
            old(self).arena_spec().rc_of(material_handle.id()) < usize::MAX - 2,
        ensures
            final(self).wf(),
            arena_extends(old(self).arena_spec(), final(self).arena_spec()),
            h.type_spec() == ResourceType::Model,
            final(self).arena_spec().valid_handle(h),
            final(self).models_spec() == old(self).models_spec().insert(
                h,
                final(self).models_spec()[h],
            ),
            final(self).models_spec().dom().contains(h),
            ({
                let m = final(self).models_spec()[h];
                &&& m.mesh_spec() == *mesh_handle
                &&& m.material_spec() == *material_handle
                &&& m.transform_data_spec() == transform_data@
                &&& m.transform_uniform_spec().id() == old(self).arena_spec().len()
                &&& final(self).uniforms_spec().dom().contains(m.transform_uniform_spec())
                &&& final(self).uniforms_spec()[m.transform_uniform_spec()].data_spec()
                    == transform_data@
                &&& final(self).uniforms_spec()[m.transform_uniform_spec()].gpu_spec()
                    == transform_data@
                &&& !final(self).uniforms_spec()[m.transform_uniform_spec()].dirty_spec()
            }),
            final(self).meshes_spec() == old(self).meshes_spec(),
            final(self).textures_spec() == old(self).textures_spec(),
            final(self).materials_spec() == old(self).materials_spec(),
            final(self).shaders_spec() == old(self).shaders_spec(),
            final(self).pipelines_spec() == old(self).pipelines_spec(),
    {
        let ubytes = crate::namemap::copy_bytes(&transform_data);
        let uh = self.create_uniform_buffer(&ubytes);
        let ghost mid = *self;
        proof {
            crate::handles::lemma_extends_valid(
                old(self).arena_spec(),
                self.arena,
                *mesh_handle,
            );
            crate::handles::lemma_extends_valid(
                old(self).arena_spec(),
                self.arena,
                *material_handle,
            );
            assert(self.arena.rc_of(mesh_handle.id()) == old(self).arena_spec().rc_of(
                mesh_handle.id(),
            ));
            assert(self.arena.rc_of(material_handle.id()) == old(self).arena_spec().rc_of(
                material_handle.id(),
            ));
        }
        let mesh_clone = self.arena.clone_handle(mesh_handle);
        let material_clone = self.arena.clone_handle(material_handle);
        let model = Model::new(mesh_clone, material_clone, transform_data, uh);
        let stored = self.arena.new_handle(ResourceType::Model);
        let out = self.arena.clone_handle(&stored);
        proof {
            crate::handles::lemma_extends_trans(
                old(self).arena_spec(),
                mid.arena_spec(),
                self.arena,
            );
            assert forall|k: int|
                0 <= k < self.models.seq().len() implies (#[trigger] self.models.seq()[k]).0.id()
                != stored.id() by {
                assert(mid.arena_spec().valid_handle(self.models.seq()[k].0));
            }
        }
        self.models.insert(stored, model);
        proof {
            crate::registry::lemma_entries_lookup(self.models.seq(), self.models.seq().len() - 1);
            crate::registry::lemma_registry_view(&self.models);
            self.lemma_wf_after_arena_growth(mid);
            crate::registry::lemma_registry_view(&self.uniforms);
        }
        out
    }

    /// Builds or fetches the pipeline of a mesh's vertex layout, the
    /// material's shader's bind group layouts and that shader's identity:
    /// the cache returns the existing pipeline whenever the canonical key
    /// matches.
    #[verifier::rlimit(100)]
    #[verifier::spinoff_prover]
    pub fn create_pipeline(
        &mut self,
        mesh_handle: &ResourceHandle,
        material_handle: &ResourceHandle,
    ) -> (result: ResourceHandle)
        requires
            old(self).wf(),
            old(self).meshes_spec().dom().contains(*mesh_handle),
            old(self).materials_spec().dom().contains(*material_handle),
            old(self).materials_spec()[*material_handle].shader_spec() is Some,
            old(self).shaders_spec().dom().contains(
                old(self).materials_spec()[*material_handle].shader_spec()->Some_0,
            ),
            old(self).arena_spec().rc_of(
                old(self).materials_spec()[*material_handle].shader_spec()->Some_0.id(),
            ) < usize::MAX - 1,
            forall|j: int|
                0 <= j < old(self).pipelines_spec().len() ==> old(self).arena_spec().rc_of(
                    (#[trigger] old(self).pipelines_spec()[j]).0.id(),
                ) < usize::MAX - 1,
        ensures
            final(self).wf(),
            arena_extends(old(self).arena_spec(), final(self).arena_spec()),
            final(self).arena_spec().valid_handle(result),
            cache_step(
                old(self).pipelines_spec(),
                final(self).pipelines_spec(),
                pipeline_key(
                    old(self).meshes_spec()[*mesh_handle].layout_spec().layouts_spec(),
                    old(self).shaders_spec()[old(self).materials_spec()[*material_handle].shader_spec()->Some_0].layouts_spec(),
                    (old(self).materials_spec()[*material_handle].shader_spec()->Some_0).uuid_spec(),
                ),
                result,
            ),
            final(self).meshes_spec() == old(self).meshes_spec(),
            final(self).textures_spec() == old(self).textures_spec(),
            final(self).materials_spec() == old(self).materials_spec(),
            final(self).models_spec() == old(self).models_spec(),
            final(self).uniforms_spec() == old(self).uniforms_spec(),
            final(self).shaders_spec() == old(self).shaders_spec(),
    {
        let midx = match self.materials.index_of(material_handle) {
            Some(i) => i,
            None => {
                proof {
                    crate::registry::lemma_registry_view(&self.materials);
                }
                vstd::pervasive::unreached()
            },
        };
        let meshidx = match self.meshes.index_of(mesh_handle) {
            Some(i) => i,
            None => {
                proof {
                    crate::registry::lemma_registry_view(&self.meshes);
                }
                vstd::pervasive::unreached()
            },
        };
        proof {
            crate::registry::lemma_registry_view(&self.materials);
            crate::registry::lemma_registry_view(&self.meshes);
        }
        let m = self.materials.value_at(midx);
        let sh = match m.get_shader() {
            Some(h) => h,
            None => {
                vstd::pervasive::unreached()
            },
        };
        let shader = match self.shader_manager.get_shader(sh) {
            Some(s) => s,
            None => {
                vstd::pervasive::unreached()
            },
        };
        let mesh = self.meshes.value_at(meshidx);
        proof {
            assert(self.pipeline_manager.seq() == old(self).pipelines_spec());
            assert forall|j: int|
                0 <= j < self.pipeline_manager.seq().len() implies self.arena.valid_handle(
                (#[trigger] self.pipeline_manager.seq()[j]).0,
            ) && self.arena.rc_of(self.pipeline_manager.seq()[j].0.id()) < usize::MAX - 1 by {
                assert(old(self).arena_spec().rc_of(
                    old(self).pipelines_spec()[j].0.id(),
                ) < usize::MAX - 1);
            }
            assert(*sh == old(self).materials_spec()[*material_handle].shader_spec()->Some_0);
            assert(self.arena.valid_handle(*sh));
        }
        let result = self.pipeline_manager.create_or_get_pipeline(
            &mut self.arena,
            mesh.get_layout(),
            shader.get_bind_group_layouts(),
            sh,
        );
        proof {
            self.lemma_wf_after_arena_growth(*old(self));
        }
        result
    }

    /// Per-frame maintenance: pushes each model's live transform payload
    /// into its transform uniform, marking the uniform dirty for the next
    /// sync; the device copies are untouched here.
    pub fn update_model_transforms(&mut self)
        requires
            old(self).wf(),
        ensures
            final(self).wf(),
            final(self).arena_spec() == old(self).arena_spec(),
            final(self).models_spec() == old(self).models_spec(),
            final(self).uniforms_seq_spec().len() == old(self).uniforms_seq_spec().len(),
            forall|k: int|
                0 <= k < old(self).uniforms_seq_spec().len() ==> (#[trigger] final(self).uniforms_seq_spec()[k]).0 == old(self).uniforms_seq_spec()[k].0 && final(self).uniforms_seq_spec()[k].1.gpu_spec() == old(self).uniforms_seq_spec()[k].1.gpu_spec(),
            forall|j: int|
                0 <= j < old(self).models_seq_spec().len() ==> {
                    let m = (#[trigger] old(self).models_seq_spec()[j]).1;
                    (old(self).uniforms_spec().dom().contains(m.transform_uniform_spec()) && (
                    forall|j2: int|
                        j < j2 < old(self).models_seq_spec().len() ==> (#[trigger] old(self).models_seq_spec()[j2]).1.transform_uniform_spec()
                            != m.transform_uniform_spec())) ==> final(self).uniforms_spec().dom().contains(m.transform_uniform_spec()) && final(self).uniforms_spec()[m.transform_uniform_spec()].data_spec()
                        == m.transform_data_spec() && final(self).uniforms_spec()[m.transform_uniform_spec()].dirty_spec()
                },
            final(self).meshes_spec() == old(self).meshes_spec(),
            final(self).textures_spec() == old(self).textures_spec(),
            final(self).materials_spec() == old(self).materials_spec(),
            final(self).shaders_spec() == old(self).shaders_spec(),
            final(self).pipelines_spec() == old(self).pipelines_spec(),
    {
        let n = self.models.len();
        let mut j: usize = 0;
        proof {
            crate::registry::lemma_registry_view(&self.uniforms);
        }
        while j < n
            invariant
                j <= n,
                n == self.models.seq().len(),
                old(self).wf(),
                self.arena == old(self).arena_spec(),
                self.meshes == old(self).meshes,
                self.mesh_vertex_buffers == old(self).mesh_vertex_buffers,
                self.mesh_index_buffers == old(self).mesh_index_buffers,
                self.textures == old(self).textures,
                self.materials == old(self).materials,
                self.models == old(self).models,
                self.shader_manager == old(self).shader_manager,
                self.pipeline_manager == old(self).pipeline_manager,
                self.uniforms.wf(),
                self.uniforms.seq().len() == old(self).uniforms_seq_spec().len(),
                forall|k: int|
                    0 <= k < old(self).uniforms_seq_spec().len() ==> (
                    #[trigger] self.uniforms.seq()[k]).0 == old(self).uniforms_seq_spec()[k].0 && (
                    self.uniforms.seq()[k]).1.gpu_spec() == old(self).uniforms_seq_spec()[k].1.gpu_spec(),
                forall|j1: int|
                    0 <= j1 < j ==> {
                        let m = (#[trigger] old(self).models_seq_spec()[j1]).1;
                        (old(self).uniforms_spec().dom().contains(m.transform_uniform_spec()) && (
                        forall|j2: int|
                            j1 < j2 < j ==> (#[trigger] old(self).models_seq_spec()[j2]).1.transform_uniform_spec()
                                != m.transform_uniform_spec())) ==> crate::registry::map_of_entries(
                            self.uniforms.seq(),
                        ).dom().contains(m.transform_uniform_spec())
                            && crate::registry::map_of_entries(
                            self.uniforms.seq(),
                        )[m.transform_uniform_spec()].data_spec() == m.transform_data_spec()
                            && crate::registry::map_of_entries(
                            self.uniforms.seq(),
                        )[m.transform_uniform_spec()].dirty_spec()
                    },
                forall|h: ResourceHandle|
                    crate::registry::map_of_entries(self.uniforms.seq()).dom().contains(h)
                        <==> old(self).uniforms_spec().dom().contains(h),
            decreases n - j,
        {
            let (uidx, bytes) = {
                let m = self.models.value_at(j);
                let b = crate::namemap::copy_bytes(m.get_transform());
                let io = self.uniforms.index_of(m.get_transform_uniform_handle());
                (io, b)
            };
            proof {
                crate::registry::lemma_registry_view(&self.uniforms);
                assert(self.models.seq()[j as int] == old(self).models_seq_spec()[j as int]);
            }
            if let Some(ui) = uidx {
                let ub = self.uniforms.value_at_mut(ui);
                ub.set_data(bytes);
                proof {
                    crate::registry::lemma_registry_view(&self.uniforms);
                    crate::registry::lemma_entries_lookup(self.uniforms.seq(), ui as int);
                    assert forall|h: ResourceHandle|
                        crate::registry::map_of_entries(self.uniforms.seq()).dom().contains(h)
                            <==> old(self).uniforms_spec().dom().contains(h) by {
                        crate::registry::lemma_entries_domain(self.uniforms.seq(), h);
                        crate::registry::lemma_entries_domain(old(self).uniforms_seq_spec(), h);
                    }
                }
            }
            j = j + 1;
        }
        proof {
            crate::registry::lemma_registry_view(&self.uniforms);
            assert forall|k2: int|
                0 <= k2 < self.uniforms.seq().len() implies self.arena.valid_handle(
                (#[trigger] self.uniforms.seq()[k2]).0,
            ) by {
                assert(self.uniforms.seq()[k2].0 == old(self).uniforms_seq_spec()[k2].0);
            }
        }
    }

    /// Per-frame maintenance: refreshes every material's per-binding copy
    /// buffers from their uniforms' device bytes.
    pub fn update_materials(&mut self)
        requires
            old(self).wf(),
        ensures
            final(self).wf(),
            final(self).arena_spec() == old(self).arena_spec(),
            final(self).materials_seq_spec().len() == old(self).materials_seq_spec().len(),
            forall|k: int|
                0 <= k < old(self).materials_seq_spec().len() ==> (#[trigger] final(self).materials_seq_spec()[k]).0 == old(self).materials_seq_spec()[k].0 && update_rel(
                    old(self).materials_seq_spec()[k].1,
                    final(self).materials_seq_spec()[k].1,
                    crate::registry::map_of_entries(old(self).uniforms_seq_spec()),
                ),
            final(self).meshes_spec() == old(self).meshes_spec(),
            final(self).textures_spec() == old(self).textures_spec(),
            final(self).models_spec() == old(self).models_spec(),
            final(self).uniforms_spec() == old(self).uniforms_spec(),
            final(self).shaders_spec() == old(self).shaders_spec(),
            final(self).pipelines_spec() == old(self).pipelines_spec(),
    {
        let n = self.materials.len();
        let mut k: usize = 0;
        while k < n
            invariant
                k <= n,
                n == self.materials.seq().len(),
                old(self).wf(),
                self.arena == old(self).arena_spec(),
                self.meshes == old(self).meshes,
                self.mesh_vertex_buffers == old(self).mesh_vertex_buffers,
                self.mesh_index_buffers == old(self).mesh_index_buffers,
                self.textures == old(self).textures,
                self.models == old(self).models,
                self.uniforms == old(self).uniforms,
                self.shader_manager == old(self).shader_manager,
                self.pipeline_manager == old(self).pipeline_manager,
                self.materials.wf(),
                self.materials.seq().len() == old(self).materials_seq_spec().len(),
                forall|j: int|
                    0 <= j < old(self).materials_seq_spec().len() ==> (
                    #[trigger] self.materials.seq()[j]).0 == old(self).materials_seq_spec()[j].0,
                forall|j: int|
                    0 <= j < k ==> update_rel(
                        old(self).materials_seq_spec()[j].1,
                        (#[trigger] self.materials.seq()[j]).1,
                        crate::registry::map_of_entries(old(self).uniforms_seq_spec()),
                    ) && self.materials.seq()[j].1.wf(),
                forall|j: int|
                    k <= j < old(self).materials_seq_spec().len() ==> (
                    #[trigger] self.materials.seq()[j]).1 == old(self).materials_seq_spec()[j].1,
            decreases n - k,
        {
            proof {
                assert(self.materials.seq()[k as int].1 == old(self).materials_seq_spec()[
                    k as int].1);
                assert(self.materials.seq()[k as int].1.wf());
            }
            let m = self.materials.value_at_mut(k);
            m.update(&self.uniforms);
            k = k + 1;
        }
        proof {
            assert forall|k2: int|
                0 <= k2 < self.materials.seq().len() implies self.arena.valid_handle(
                (#[trigger] self.materials.seq()[k2]).0,
            ) && self.materials.seq()[k2].1.wf() && (
            self.materials.seq()[k2].1.shader_spec() matches Some(sh)
                ==> self.arena.valid_handle(sh)) by {
                assert(self.materials.seq()[k2].0 == old(self).materials_seq_spec()[k2].0);
                if k2 < self.materials.seq().len() {
                    assert(update_rel(
                        old(self).materials_seq_spec()[k2].1,
                        self.materials.seq()[k2].1,
                        crate::registry::map_of_entries(old(self).uniforms_seq_spec()),
                    ) || self.materials.seq()[k2].1 == old(self).materials_seq_spec()[k2].1);
                }
            }
        }
    }

    /// Regenerates one material's bind groups if it is dirty: resolves the
    /// shader's bindings against the material's maps, or reports the
    /// structured error.
    pub fn generate_material_bind_groups(&mut self, material_handle: &ResourceHandle) -> (r:
        Result<(), MaterialError>)
        requires
            old(self).wf(),
            old(self).materials_spec().dom().contains(*material_handle),
            old(self).materials_spec()[*material_handle].shader_spec() matches Some(sh) ==> old(self).shaders_spec().dom().contains(sh),
        ensures
            final(self).wf(),
            final(self).arena_spec() == old(self).arena_spec(),
            final(self).materials_spec() == old(self).materials_spec().insert(
                *material_handle,
                final(self).materials_spec()[*material_handle],
            ),
            ({
                let m = old(self).materials_spec()[*material_handle];
                let m2 = final(self).materials_spec()[*material_handle];
                match m.shader_spec() {
                    Some(sh) => generate_rel(
                        m,
                        m2,
                        old(self).shaders_spec()[sh],
                        old(self).textures_spec().dom(),
                        old(self).uniforms_spec().dom(),
                        crate::registry::map_of_entries(old(self).uniforms_seq_spec()),
                        r,
                    ),
                    None => m2 == m && (m.dirty_spec() ==> r matches Err(
                        MaterialError::MissingShader,
                    )) && (!m.dirty_spec() ==> r is Ok),
                }
            }),
            final(self).meshes_spec() == old(self).meshes_spec(),
            final(self).textures_spec() == old(self).textures_spec(),
            final(self).models_spec() == old(self).models_spec(),
            final(self).uniforms_spec() == old(self).uniforms_spec(),
            final(self).shaders_spec() == old(self).shaders_spec(),
            final(self).pipelines_spec() == old(self).pipelines_spec(),
    {
        let midx = match self.materials.index_of(material_handle) {
            Some(i) => i,
            None => {
                proof {
                    crate::registry::lemma_registry_view(&self.materials);
                }
                vstd::pervasive::unreached()
            },
        };
        proof {
            crate::registry::lemma_registry_view(&self.materials);
        }
        let (dirty, has_shader) = {
            let m = self.materials.value_at(midx);
            (m.is_dirty(), m.get_shader().is_some())
        };
        if !dirty && !has_shader {
            proof {
                assert(final(self).materials_spec() =~= old(self).materials_spec().insert(
                    *material_handle,
                    final(self).materials_spec()[*material_handle],
                ));
            }
            return Ok(());
        }
        if !has_shader {
            proof {
                assert(final(self).materials_spec() =~= old(self).materials_spec().insert(
                    *material_handle,
                    final(self).materials_spec()[*material_handle],
                ));
            }
            return Err(MaterialError::MissingShader);
        }
        let sidx = {
            let m = self.materials.value_at(midx);
            let sh = match m.get_shader() {
                Some(h) => h,
                None => vstd::pervasive::unreached(),
            };
            match self.shader_manager.shader_index_of(sh) {
                Some(i) => i,
                None => vstd::pervasive::unreached(),
            }
        };
        let shader = self.shader_manager.shader_at(sidx);
        proof {
            crate::registry::lemma_registry_view(&self.textures);
            crate::registry::lemma_registry_view(&self.uniforms);
        }
        let m = self.materials.value_at_mut(midx);
        let r = m.generate_bind_groups(shader, &self.textures, &self.uniforms);
        proof {
            crate::registry::lemma_registry_view(&self.materials);
            self.lemma_wf_after_material_update(*old(self), midx as int);
        }
        r
    }

    /// Borrows a registered mesh.
    pub fn get_mesh(&self, h: &ResourceHandle) -> (r: Option<&Mesh>)
        requires
            self.wf(),
        ensures
            match r {
                Some(m) => self.meshes_spec().dom().contains(*h) && *m == self.meshes_spec()[*h],
                None => !self.meshes_spec().dom().contains(*h),
            },
    {
        self.meshes.get(h)
    }

    /// Borrows a mesh's vertex buffers.
    pub fn get_mesh_vertex_buffers(&self, h: &ResourceHandle) -> (r: Option<&Vec<Buffer>>)
        requires
            self.wf(),
        ensures
            match r {
                Some(bs) => self.vertex_buffers_spec().dom().contains(*h) && *bs
                    == self.vertex_buffers_spec()[*h],
                None => !self.vertex_buffers_spec().dom().contains(*h),
            },
    {
        self.mesh_vertex_buffers.get(h)
    }

    /// Borrows a mesh's index buffers.
    pub fn get_mesh_index_buffers(&self, h: &ResourceHandle) -> (r: Option<&Vec<Buffer>>)
        requires
            self.wf(),
        ensures
            match r {
                Some(bs) => self.index_buffers_spec().dom().contains(*h) && *bs
                    == self.index_buffers_spec()[*h],
                None => !self.index_buffers_spec().dom().contains(*h),
            },
    {
        self.mesh_index_buffers.get(h)
    }

    /// Borrows a registered texture.
    pub fn get_texture(&self, h: &ResourceHandle) -> (r: Option<&Texture>)
        requires
            self.wf(),
        ensures
            match r {
                Some(t) => self.textures_spec().dom().contains(*h) && *t
                    == self.textures_spec()[*h],
                None => !self.textures_spec().dom().contains(*h),
            },
    {
        self.textures.get(h)
    }

    /// Borrows a registered material.
    pub fn get_material(&self, h: &ResourceHandle) -> (r: Option<&Material>)
        requires
            self.wf(),
        ensures
            match r {
                Some(m) => self.materials_spec().dom().contains(*h) && *m
                    == self.materials_spec()[*h],
                None => !self.materials_spec().dom().contains(*h),
            },
    {
        self.materials.get(h)
    }

    /// Borrows a registered model.
    pub fn get_model(&self, h: &ResourceHandle) -> (r: Option<&Model>)
        requires
            self.wf(),
        ensures
            match r {
                Some(m) => self.models_spec().dom().contains(*h) && *m == self.models_spec()[*h],
                None => !self.models_spec().dom().contains(*h),
            },
    {
        self.models.get(h)
    }

    /// Borrows a registered uniform buffer.
    pub fn get_uniform_buffer(&self, h: &ResourceHandle) -> (r: Option<&UniformBuffer>)
        requires
            self.wf(),
        ensures
            match r {
                Some(u) => self.uniforms_spec().dom().contains(*h) && *u
                    == self.uniforms_spec()[*h],
                None => !self.uniforms_spec().dom().contains(*h),
            },
    {
        self.uniforms.get(h)
    }

    /// Borrows a registered shader.
    pub fn get_shader(&self, h: &ResourceHandle) -> (r: Option<&Shader>)
        requires
            self.wf(),
        ensures
            match r {
                Some(s) => self.shaders_spec().dom().contains(*h) && *s == self.shaders_spec()[*h],
                None => !self.shaders_spec().dom().contains(*h),
            },
    {
        self.shader_manager.get_shader(h)
    }

    /// Borrows a cached pipeline.
    pub fn get_pipeline(&self, h: &ResourceHandle) -> (r: Option<&crate::pipeline::Pipeline>)
        requires
            self.wf(),
        ensures
            match r {
                Some(p) => map_of_entries(self.pipelines_spec()).dom().contains(*h) && *p
                    == map_of_entries(self.pipelines_spec())[*h],
                None => !map_of_entries(self.pipelines_spec()).dom().contains(*h),
            },
    {
        self.pipeline_manager.get_pipeline(h)
    }

    /// A model's transform-uniform handle.
    pub fn get_model_transform_uniform_handle(&self, h: &ResourceHandle) -> (r: Option<
        &ResourceHandle,
    >)
        requires
            self.wf(),
        ensures
            match r {
                Some(u) => self.models_spec().dom().contains(*h) && *u
                    == self.models_spec()[*h].transform_uniform_spec(),
                None => !self.models_spec().dom().contains(*h),
            },
    {
        match self.models.get(h) {
            Some(m) => Some(m.get_transform_uniform_handle()),
            None => None,
        }
    }

    /// Replaces a model's live transform payload; the device copy follows
    /// at the next per-frame maintenance.
    pub fn set_model_transform(&mut self, h: &ResourceHandle, transform_data: Vec<u8>)
        requires
            old(self).wf(),
            old(self).models_spec().dom().contains(*h),
        ensures
            final(self).wf(),
            final(self).arena_spec() == old(self).arena_spec(),
            final(self).models_spec() == old(self).models_spec().insert(
                *h,
                final(self).models_spec()[*h],
            ),
            ({
                let m = old(self).models_spec()[*h];
                let m2 = final(self).models_spec()[*h];
                &&& m2.transform_data_spec() == transform_data@
                &&& m2.mesh_spec() == m.mesh_spec()
                &&& m2.material_spec() == m.material_spec()
                &&& m2.transform_uniform_spec() == m.transform_uniform_spec()
            }),
            final(self).meshes_spec() == old(self).meshes_spec(),
            final(self).textures_spec() == old(self).textures_spec(),
            final(self).materials_spec() == old(self).materials_spec(),
            final(self).uniforms_spec() == old(self).uniforms_spec(),
            final(self).shaders_spec() == old(self).shaders_spec(),
            final(self).pipelines_spec() == old(self).pipelines_spec(),
    {
        let idx = match self.models.index_of(h) {
            Some(i) => i,
            None => {
                proof {
                    crate::registry::lemma_registry_view(&self.models);
                }
                vstd::pervasive::unreached()
            },
        };
        let m = self.models.value_at_mut(idx);
        m.set_transform(transform_data);
        proof {
            crate::registry::lemma_registry_view(&self.models);
            assert forall|k: int|
                0 <= k < self.models.seq().len() implies self.arena.valid_handle(
                (#[trigger] self.models.seq()[k]).0,
            ) by {
                assert(self.models.seq()[k].0 == old(self).models_seq_spec()[k].0);
            }
        }
    }

    /// Number of registered materials.
    pub fn material_count(&self) -> (n: usize)
        ensures
            n == self.materials_seq_spec().len(),
    {
        self.materials.len()
    }

    /// The handle of material entry `k`.
    pub fn material_handle_at(&self, k: usize) -> (r: &ResourceHandle)
        requires
            k < self.materials_seq_spec().len(),
        ensures
            *r == self.materials_seq_spec()[k as int].0,
    {
        self.materials.handle_at(k)
    }

    /// The material of entry `k`.
    pub fn material_at(&self, k: usize) -> (r: &Material)
        requires
            k < self.materials_seq_spec().len(),
        ensures
            *r == self.materials_seq_spec()[k as int].1,
    {
        self.materials.value_at(k)
    }

    /// Number of registered models.
    pub fn model_count(&self) -> (n: usize)
        ensures
            n == self.models_seq_spec().len(),
    {
        self.models.len()
    }

    /// The model of entry `k`.
    pub fn model_at(&self, k: usize) -> (r: &Model)
        requires
            k < self.models_seq_spec().len(),
        ensures
            *r == self.models_seq_spec()[k as int].1,
    {
        self.models.value_at(k)
    }

    /// Number of cached pipelines.
    pub fn pipeline_count(&self) -> (n: usize)
        ensures
            n == self.pipelines_spec().len(),
    {
        self.pipeline_manager.len()
    }

    /// The handle of pipeline entry `k`.
    pub fn pipeline_handle_at(&self, k: usize) -> (r: &ResourceHandle)
        requires
            k < self.pipelines_spec().len(),
        ensures
            *r == self.pipelines_spec()[k as int].0,
    {
        self.pipeline_manager.handle_at(k)
    }

    /// The pipeline of entry `k`.
    pub fn pipeline_at(&self, k: usize) -> (r: &crate::pipeline::Pipeline)
        requires
            k < self.pipelines_spec().len(),
        ensures
            *r == self.pipelines_spec()[k as int].1,
    {
        self.pipeline_manager.pipeline_at(k)
    }

    /// Groups the scene for drawing: for each cached pipeline, the
    /// materials whose shader is the pipeline's shader, and for each
    /// material, the models drawing with it — all as registry positions,
    /// in registry order.
    pub fn plan_render(&self) -> (r: RenderPlan)
        requires
            self.wf(),
        ensures
            r.pipeline_materials@.len() == self.pipelines_spec().len(),
            forall|k: int|
                0 <= k < r.pipeline_materials@.len() ==> (#[trigger] r.pipeline_materials@[k]).0
                    == k && usize_ints(r.pipeline_materials@[k].1@) == mat_indices_for(
                    self.materials_seq_spec(),
                    self.pipelines_spec()[k].1.shader_spec(),
                ),
            r.material_models@.len() == self.materials_seq_spec().len(),
            forall|k: int|
                0 <= k < r.material_models@.len() ==> usize_ints(
                    (#[trigger] r.material_models@[k])@,
                ) == model_indices_for(self.models_seq_spec(), self.materials_seq_spec()[k].0),
    {
        let pn = self.pipeline_manager.len();
        let mut pipeline_materials: Vec<(usize, Vec<usize>)> = Vec::new();
        let mut k: usize = 0;
        while k < pn
            invariant
                k <= pn,
                pn == self.pipelines_spec().len(),
                self.wf(),
                pipeline_materials@.len() == k,
                forall|j: int|
                    0 <= j < k ==> (#[trigger] pipeline_materials@[j]).0 == j && usize_ints(
                        pipeline_materials@[j].1@,
                    ) == mat_indices_for(
                        self.materials_seq_spec(),
                        self.pipelines_spec()[j].1.shader_spec(),
                    ),
            decreases pn - k,
        {
            let sh = self.pipeline_manager.pipeline_at(k).get_shader();
            let mats = self.materials_with_shader(sh);
            pipeline_materials.push((k, mats));
            k = k + 1;
        }
        let mn = self.materials.len();
        let mut material_models: Vec<Vec<usize>> = Vec::new();
        let mut t: usize = 0;
        while t < mn
            invariant
                t <= mn,
                mn == self.materials_seq_spec().len(),
                self.wf(),
                material_models@.len() == t,
                forall|j: int|
                    0 <= j < t ==> usize_ints((#[trigger] material_models@[j])@)
                        == model_indices_for(
                        self.models_seq_spec(),
                        self.materials_seq_spec()[j].0,
                    ),
            decreases mn - t,
        {
            let mods = self.models_with_material(self.materials.handle_at(t));
            material_models.push(mods);
            t = t + 1;
        }
        RenderPlan { pipeline_materials, material_models }
    }

    /// The positions of the materials whose shader is exactly this
    /// handle, in registry order.
    fn materials_with_shader(&self, sh: &ResourceHandle) -> (r: Vec<usize>)
        ensures
            usize_ints(r@) == mat_indices_for(self.materials_seq_spec(), *sh),
    {
        let n = self.materials.len();
        let mut out: Vec<usize> = Vec::new();
        let mut k: usize = 0;
        proof {
            assert(usize_ints(out@) =~= mat_indices_for(
                self.materials_seq_spec().subrange(0, 0),
                *sh,
            ));
        }
        while k < n
            invariant
                k <= n,
                n == self.materials_seq_spec().len(),
                usize_ints(out@) == mat_indices_for(
                    self.materials_seq_spec().subrange(0, k as int),
                    *sh,
                ),
            decreases n - k,
        {
            proof {
                assert(self.materials_seq_spec().subrange(0, k + 1).drop_last()
                    =~= self.materials_seq_spec().subrange(0, k as int));
                assert(self.materials_seq_spec().subrange(0, k + 1).last()
                    == self.materials_seq_spec()[k as int]);
            }
            let hit = match self.materials.value_at(k).get_shader() {
                Some(h) => *h == *sh,
                None => false,
            };
            if hit {
                out.push(k);
                proof {
                    assert(usize_ints(out@) =~= mat_indices_for(
                        self.materials_seq_spec().subrange(0, k + 1),
                        *sh,
                    ));
                }
            } else {
                proof {
                    assert(usize_ints(out@) =~= mat_indices_for(
                        self.materials_seq_spec().subrange(0, k + 1),
                        *sh,
                    ));
                }
            }
            k = k + 1;
        }
        proof {
            assert(self.materials_seq_spec().subrange(0, n as int) =~= self.materials_seq_spec());
        }
        out
    }

    /// The positions of the models drawing with this material, in
    /// registry order.
    fn models_with_material(&self, mat: &ResourceHandle) -> (r: Vec<usize>)
        ensures
            usize_ints(r@) == model_indices_for(self.models_seq_spec(), *mat),
    {
        let n = self.models.len();
        let mut out: Vec<usize> = Vec::new();
        let mut k: usize = 0;
        proof {
            assert(usize_ints(out@) =~= model_indices_for(
                self.models_seq_spec().subrange(0, 0),
                *mat,
            ));
        }
        while k < n
            invariant
                k <= n,
                n == self.models_seq_spec().len(),
                usize_ints(out@) == model_indices_for(
                    self.models_seq_spec().subrange(0, k as int),
                    *mat,
                ),
            decreases n - k,
        {
            proof {
                assert(self.models_seq_spec().subrange(0, k + 1).drop_last()
                    =~= self.models_seq_spec().subrange(0, k as int));
                assert(self.models_seq_spec().subrange(0, k + 1).last()
                    == self.models_seq_spec()[k as int]);
            }
            let hit = *self.models.value_at(k).get_material() == *mat;
            if hit {
                out.push(k);
                proof {
                    assert(usize_ints(out@) =~= model_indices_for(
                        self.models_seq_spec().subrange(0, k + 1),
                        *mat,
                    ));
                }
            } else {
                proof {
                    assert(usize_ints(out@) =~= model_indices_for(
                        self.models_seq_spec().subrange(0, k + 1),
                        *mat,
                    ));
                }
            }
            k = k + 1;
        }
        proof {
            assert(self.models_seq_spec().subrange(0, n as int) =~= self.models_seq_spec());
        }
        out
    }

    /// Re-establishes well-formedness after one material was replaced in
    /// place by a well-formed value whose shader handle, if any, is either
    /// unchanged or live in the current arena.
    proof fn lemma_wf_after_material_update(&self, pre: ResourceManager, idx: int)
        requires
            pre.wf(),
            arena_extends(pre.arena_spec(), self.arena_spec()),
            self.arena.wf(),
            self.meshes == pre.meshes,
            self.mesh_vertex_buffers == pre.mesh_vertex_buffers,
            self.mesh_index_buffers == pre.mesh_index_buffers,
            self.textures == pre.textures,
            self.models == pre.models,
            self.uniforms == pre.uniforms,
            self.shader_manager == pre.shader_manager,
            self.pipeline_manager == pre.pipeline_manager,
            self.materials.wf(),
            0 <= idx < pre.materials.seq().len(),
            self.materials.seq().len() == pre.materials.seq().len(),
            forall|k: int|
                0 <= k < pre.materials.seq().len() && k != idx ==> (
                #[trigger] self.materials.seq()[k]) == pre.materials.seq()[k],
            self.materials.seq()[idx].0 == pre.materials.seq()[idx].0,
            self.materials.seq()[idx].1.wf(),
            self.materials.seq()[idx].1.shader_spec() matches Some(sh) ==> self.arena.valid_handle(
                sh,
            ),
        ensures
            self.wf(),
    {
        assert forall|k: int|
            0 <= k < self.materials.seq().len() implies self.arena.valid_handle(
            (#[trigger] self.materials.seq()[k]).0,
        ) by {
            assert(self.materials.seq()[k].0 == pre.materials.seq()[k].0);
            crate::handles::lemma_extends_valid(
                pre.arena_spec(),
                self.arena,
                pre.materials.seq()[k].0,
            );
        }
        assert forall|k: int|
            0 <= k < self.materials.seq().len() implies (#[trigger] self.materials.seq()[k]).1.wf()
            && (self.materials.seq()[k].1.shader_spec() matches Some(sh)
            ==> self.arena.valid_handle(sh)) by {
            if k != idx {
                assert(self.materials.seq()[k] == pre.materials.seq()[k]);
                if pre.materials.seq()[k].1.shader_spec() is Some {
                    crate::handles::lemma_extends_valid(
                        pre.arena_spec(),
                        self.arena,
                        pre.materials.seq()[k].1.shader_spec()->Some_0,
                    );
                }
            }
        }
        crate::registry::lemma_keys_valid_extends(
            pre.arena_spec(),
            self.arena,
            self.meshes.seq(),
        );
        crate::registry::lemma_keys_valid_extends(
            pre.arena_spec(),
            self.arena,
            self.mesh_vertex_buffers.seq(),
        );
        crate::registry::lemma_keys_valid_extends(
            pre.arena_spec(),
            self.arena,
            self.mesh_index_buffers.seq(),
        );
        crate::registry::lemma_keys_valid_extends(
            pre.arena_spec(),
            self.arena,
            self.textures.seq(),
        );
        crate::registry::lemma_keys_valid_extends(
            pre.arena_spec(),
            self.arena,
            self.models.seq(),
        );
        crate::registry::lemma_keys_valid_extends(
            pre.arena_spec(),
            self.arena,
            self.uniforms.seq(),
        );
        crate::registry::lemma_keys_valid_extends(
            pre.arena_spec(),
            self.arena,
            self.shader_manager.seq(),
        );
        crate::registry::lemma_keys_valid_extends(
            pre.arena_spec(),
            self.arena,
            self.pipeline_manager.seq(),
        );
    }

    /// Re-establishes well-formedness after the arena grew by allocations
    /// and clones while the registries at most gained entries whose
    /// handles are live.
    proof fn lemma_wf_after_arena_growth(&self, pre: ResourceManager)
        requires
            pre.wf(),
            arena_extends(pre.arena_spec(), self.arena_spec()),
            self.arena.wf(),
            self.meshes.wf(),
            self.mesh_vertex_buffers.wf(),
            self.mesh_index_buffers.wf(),
            self.textures.wf(),
            self.materials.wf(),
            self.models.wf(),
            self.uniforms.wf(),
            self.shader_manager.wf(),
            self.pipeline_manager.wf(),
            keys_valid(self.arena, self.meshes.seq()),
            keys_valid(self.arena, self.mesh_vertex_buffers.seq()),
            keys_valid(self.arena, self.mesh_index_buffers.seq()),
            keys_valid(self.arena, self.textures.seq()),
            keys_valid(self.arena, self.materials.seq()),
            keys_valid(self.arena, self.models.seq()),
            keys_valid(self.arena, self.uniforms.seq()),
            keys_valid(self.arena, self.shader_manager.seq()),
            keys_valid(self.arena, self.pipeline_manager.seq()),
            forall|k: int|
                0 <= k < self.materials.seq().len() ==> (#[trigger] self.materials.seq()[k]).1.wf(),
            forall|k: int|
                0 <= k < self.materials.seq().len() ==> ((
                #[trigger] self.materials.seq()[k]).1.shader_spec() matches Some(sh)
                    ==> pre.arena_spec().valid_handle(sh)),
        ensures
            self.wf(),
    {
        assert forall|k: int|
            0 <= k < self.materials.seq().len() implies ((
        #[trigger] self.materials.seq()[k]).1.shader_spec() matches Some(sh)
            ==> self.arena.valid_handle(sh)) by {
            if self.materials.seq()[k].1.shader_spec() is Some {
                let sh = self.materials.seq()[k].1.shader_spec()->Some_0;
                crate::handles::lemma_extends_valid(pre.arena_spec(), self.arena, sh);
            }
        }
    }
}

} // verus!
