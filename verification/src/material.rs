//! Materials: name-keyed texture/uniform wiring and lazily generated bind
//! groups.
//!
//! A material maps variable names to texture and uniform handles.  When it
//! is dirty, bind-group generation resolves every binding the shader
//! declares against those maps — a missing name is a structured error —
//! seeds one copy buffer per uniform binding with the uniform's current
//! payload, groups the resolved entries by group index, and clears the
//! dirty flag.  The per-frame update refreshes each copy buffer from its
//! uniform's device bytes, so one uniform can be shared across materials
//! while each binding keeps a buffer of its own.

use vstd::prelude::*;
use vstd::string::StringSliceAdditionalSpecFns;
use vstd::string::StrSliceExecFns;

use crate::buffer::{Buffer, BufferType};
use crate::handles::ResourceHandle;
use crate::namemap::{copy_bytes, NameMap};
use crate::reflect::{names_unique, views_of, Binding, BindingType, BindingView};
use crate::registry::Registry;
use crate::scan::copy_range;
use crate::shader::Shader;
use crate::texture::Texture;
use crate::uniform_buffer::UniformBuffer;

verus! {

/// A failure of bind-group generation.
#[derive(Debug)]
pub enum MaterialError {
    /// No shader has been assigned to the material.
    MissingShader,
    /// The shader declares a binding of this name, but the material's
    /// assignment maps cannot resolve it.
    MissingBinding { name: Vec<u8> },
    /// The shader declares a storage block, which materials do not bind.
    StorageBinding { name: Vec<u8> },
}

/// What one bind group entry binds, named: the resolution from name to
/// resource stays in the material's maps.
#[derive(Debug)]
pub enum BoundResource {
    /// The view of the texture assigned under this name.
    TextureView { texture: Vec<u8> },
    /// The sampler of the texture assigned under this name.
    TextureSampler { texture: Vec<u8> },
    /// The per-binding copy buffer of this uniform name.
    UniformBuffer { name: Vec<u8> },
}

/// The mathematical image of a [`BoundResource`].
pub enum BoundResourceView {
    TextureView { texture: Seq<u8> },
    TextureSampler { texture: Seq<u8> },
    UniformBuffer { name: Seq<u8> },
}

impl View for BoundResource {
    type V = BoundResourceView;

    open spec fn view(&self) -> BoundResourceView {
        match self {
            BoundResource::TextureView { texture } => BoundResourceView::TextureView {
                texture: texture@,
            },
            BoundResource::TextureSampler { texture } => BoundResourceView::TextureSampler {
                texture: texture@,
            },
            BoundResource::UniformBuffer { name } => BoundResourceView::UniformBuffer {
                name: name@,
            },
        }
    }
}

/// One generated bind group entry: a binding index and what is bound
/// there.
#[derive(Debug)]
pub struct BindGroupEntry {
    pub binding: u32,
    pub resource: BoundResource,
}

/// The mathematical image of a [`BindGroupEntry`].
pub struct BindGroupEntryView {
    pub binding: u32,
    pub resource: BoundResourceView,
}

impl View for BindGroupEntry {
    type V = BindGroupEntryView;

    open spec fn view(&self) -> BindGroupEntryView {
        BindGroupEntryView { binding: self.binding, resource: self.resource@ }
    }
}

/// One generated bind group: a group index and its entries, in
/// declaration order.
#[derive(Debug)]
pub struct BindGroup {
    group: u32,
    entries: Vec<BindGroupEntry>,
}

/// The mathematical image of a [`BindGroup`].
pub struct BindGroupView {
    pub group: u32,
    pub entries: Seq<BindGroupEntryView>,
}

impl View for BindGroup {
    type V = BindGroupView;

    closed spec fn view(&self) -> BindGroupView {
        BindGroupView { group: self.group, entries: entry_views(self.entries@) }
    }
}

impl BindGroup {
    /// The group index this bind group occupies.
    pub fn get_group(&self) -> (g: u32)
        ensures
            g == self@.group,
    {
        self.group
    }

    /// The entries of the bind group.
    pub fn get_entries(&self) -> (r: &Vec<BindGroupEntry>)
        ensures
            entry_views(r@) == self@.entries,
    {
        &self.entries
    }
}

/// The views of a list of bind group entries.
pub open spec fn entry_views(s: Seq<BindGroupEntry>) -> Seq<BindGroupEntryView> {
    s.map_values(|e: BindGroupEntry| e@)
}

/// The views of a list of bind groups.
pub open spec fn group_views(s: Seq<BindGroup>) -> Seq<BindGroupView> {
    s.map_values(|g: BindGroup| g@)
}

/// The texture name a sampler binding resolves to: the binding's name with
/// the fixed `_sampler` suffix stripped.
pub open spec fn sampler_target(name: Seq<u8>) -> Seq<u8> {
    name.take(name.len() - 8)
}

/// The bind group entry a resolved declaration contributes.
pub open spec fn entry_of_binding(b: BindingView) -> BindGroupEntryView {
    BindGroupEntryView {
        binding: b.binding,
        resource: match b.binding_type {
            BindingType::Texture => BoundResourceView::TextureView { texture: b.name },
            BindingType::TextureSampler => BoundResourceView::TextureSampler {
                texture: sampler_target(b.name),
            },
            BindingType::Uniform => BoundResourceView::UniformBuffer { name: b.name },
            BindingType::Storage => BoundResourceView::UniformBuffer { name: b.name },
        },
    }
}

/// Whether one declaration resolves against the material's maps and the
/// manager's registries.
pub open spec fn binding_resolves(
    b: BindingView,
    tmap: Map<Seq<u8>, ResourceHandle>,
    umap: Map<Seq<u8>, ResourceHandle>,
    tdom: Set<ResourceHandle>,
    udom: Set<ResourceHandle>,
) -> bool {
    match b.binding_type {
        BindingType::Uniform => umap.dom().contains(b.name) && udom.contains(umap[b.name]),
        BindingType::Texture => tmap.dom().contains(b.name) && tdom.contains(tmap[b.name]),
        BindingType::TextureSampler => b.name.len() >= 8 && tmap.dom().contains(
            sampler_target(b.name),
        ) && tdom.contains(tmap[sampler_target(b.name)]),
        BindingType::Storage => false,
    }
}

/// Every declaration resolves.
pub open spec fn all_resolve(
    bvs: Seq<BindingView>,
    tmap: Map<Seq<u8>, ResourceHandle>,
    umap: Map<Seq<u8>, ResourceHandle>,
    tdom: Set<ResourceHandle>,
    udom: Set<ResourceHandle>,
) -> bool {
    forall|i: int|
        0 <= i < bvs.len() ==> binding_resolves(#[trigger] bvs[i], tmap, umap, tdom, udom)
}

/// The entries the declarations of group `g` contribute, in declaration
/// order.
pub open spec fn bg_entries_for_group(bvs: Seq<BindingView>, g: u32) -> Seq<BindGroupEntryView>
    decreases bvs.len(),
{
    if bvs.len() == 0 {
        Seq::empty()
    } else {
        let rest = bg_entries_for_group(bvs.drop_last(), g);
        if bvs.last().group == g {
            rest.push(entry_of_binding(bvs.last()))
        } else {
            rest
        }
    }
}

/// Group `g` contributes entries exactly when some declaration lives in it.
pub proof fn lemma_bg_entries_nonempty(bvs: Seq<BindingView>, g: u32)
    ensures
        bg_entries_for_group(bvs, g).len() > 0 <==> exists|j: int|
            0 <= j < bvs.len() && (#[trigger] bvs[j]).group == g,
    decreases bvs.len(),
{
    if bvs.len() > 0 {
        lemma_bg_entries_nonempty(bvs.drop_last(), g);
        if bvs.last().group == g {
            assert(bvs[bvs.len() - 1].group == g);
        } else {
            assert(forall|j: int|
                0 <= j < bvs.len() - 1 ==> bvs.drop_last()[j] == (#[trigger] bvs[j]));
        }
    }
}

/// The shader has a layout for group `g`.
pub open spec fn shader_has_group(shader: &Shader, g: u32) -> bool {
    exists|k: int|
        0 <= k < shader.layouts_spec().len() && (#[trigger] shader.layouts_spec()[k]).group == g
}

/// How one bind-group generation relates the material before to the
/// material after, given the shader and the registries' contents: what is
/// owed on success, exactly when each error comes, and what stays put.
pub open spec fn generate_rel(
    pre: Material,
    post: Material,
    shader: Shader,
    tdom: Set<ResourceHandle>,
    udom: Set<ResourceHandle>,
    ureg: Map<ResourceHandle, UniformBuffer>,
    r: Result<(), MaterialError>,
) -> bool {
    &&& post.textures_map() == pre.textures_map()
    &&& post.uniforms_map() == pre.uniforms_map()
    &&& post.shader_spec() == pre.shader_spec()
    &&& post.bindings_seq() == pre.bindings_seq()
    &&& post.pipelines_seq() == pre.pipelines_seq()
    &&& (!pre.dirty_spec() ==> r is Ok && post == pre)
    &&& (r is Ok <==> (!pre.dirty_spec() || (pre.shader_spec() is Some && all_resolve(
        pre.bindings_views(),
        pre.textures_map(),
        pre.uniforms_map(),
        tdom,
        udom,
    ))))
    &&& (r is Err ==> post.dirty_spec() && post.bind_groups_seq() == pre.bind_groups_seq())
    &&& ((r matches Err(MaterialError::MissingShader)) <==> (pre.dirty_spec()
        && pre.shader_spec() is None))
    &&& (r matches Err(MaterialError::MissingBinding { name }) ==> exists|i: int|
        0 <= i < pre.bindings_views().len() && (#[trigger] pre.bindings_views()[i]).name == name@
            && !binding_resolves(
            pre.bindings_views()[i],
            pre.textures_map(),
            pre.uniforms_map(),
            tdom,
            udom,
        ))
    &&& (r matches Err(MaterialError::StorageBinding { name }) ==> exists|i: int|
        0 <= i < pre.bindings_views().len() && (#[trigger] pre.bindings_views()[i]).name == name@
            && pre.bindings_views()[i].binding_type == BindingType::Storage)
    &&& (pre.dirty_spec() && r is Ok ==> {
        let bvs = pre.bindings_views();
        let gvs = post.bind_groups_views();
        let bufs = post.buffers_map();
        let umap = pre.uniforms_map();
        &&& !post.dirty_spec()
        &&& forall|i: int|
            0 <= i < bvs.len() && (#[trigger] bvs[i]).binding_type == BindingType::Uniform
                ==> bufs.dom().contains(bvs[i].name) && bufs[bvs[i].name].contents_spec()
                == ureg[umap[bvs[i].name]].data_spec() && bufs[bvs[i].name].type_spec()
                == BufferType::Uniform
        &&& forall|i: int, j: int|
            0 <= i < j < gvs.len() ==> (#[trigger] gvs[i]).group < (#[trigger] gvs[j]).group
        &&& forall|k: int|
            0 <= k < gvs.len() ==> (#[trigger] gvs[k]).entries == bg_entries_for_group(
                bvs,
                gvs[k].group,
            ) && gvs[k].entries.len() > 0 && shader_has_group(&shader, gvs[k].group)
        &&& forall|g: u32|
            bg_entries_for_group(bvs, g).len() > 0 && shader_has_group(&shader, g) ==> exists|
                k: int,
            | 0 <= k < gvs.len() && (#[trigger] gvs[k]).group == g
    })
}

/// How one per-frame refresh relates the material before to the material
/// after, given the uniform registry's contents: each copy buffer whose
/// name resolves holds its uniform's device bytes, the rest stay put, and
/// nothing else moves.
pub open spec fn update_rel(
    pre: Material,
    post: Material,
    ureg: Map<ResourceHandle, UniformBuffer>,
) -> bool {
    &&& post.buffers_seq().len() == pre.buffers_seq().len()
    &&& forall|k: int|
        0 <= k < pre.buffers_seq().len() ==> {
            let name = (#[trigger] pre.buffers_seq()[k]).0@;
            let umap = pre.uniforms_map();
            &&& post.buffers_seq()[k].0@ == name
            &&& (umap.dom().contains(name) && ureg.dom().contains(umap[name])
                ==> post.buffers_seq()[k].1.contents_spec() == ureg[umap[name]].gpu_spec()
                && post.buffers_seq()[k].1.type_spec() == BufferType::Uniform)
            &&& (!(umap.dom().contains(name) && ureg.dom().contains(umap[name]))
                ==> post.buffers_seq()[k].1 == pre.buffers_seq()[k].1)
        }
    &&& post.textures_map() == pre.textures_map()
    &&& post.uniforms_map() == pre.uniforms_map()
    &&& post.bind_groups_seq() == pre.bind_groups_seq()
    &&& post.dirty_spec() == pre.dirty_spec()
    &&& post.shader_spec() == pre.shader_spec()
    &&& post.bindings_seq() == pre.bindings_seq()
    &&& post.pipelines_seq() == pre.pipelines_seq()
}

/// Named texture/uniform wiring for one draw, with its lazily generated
/// bind groups.
pub struct Material {
    textures: NameMap<ResourceHandle>,
    uniforms: NameMap<ResourceHandle>,
    bind_group_buffers: NameMap<Buffer>,
    bind_groups: Vec<BindGroup>,
    needs_regen: bool,
    shader_handle: Option<ResourceHandle>,
    shader_bindings: Vec<Binding>,
    pipelines: Vec<ResourceHandle>,
}

impl Material {
    /// The name-to-texture assignments.
    pub closed spec fn textures_map(&self) -> Map<Seq<u8>, ResourceHandle> {
        self.textures@
    }

    /// The name-to-uniform assignments.
    pub closed spec fn uniforms_map(&self) -> Map<Seq<u8>, ResourceHandle> {
        self.uniforms@
    }

    /// The per-binding copy buffers, by uniform name.
    pub closed spec fn buffers_map(&self) -> Map<Seq<u8>, Buffer> {
        self.bind_group_buffers@
    }

    /// The per-binding copy buffer entries, in order.
    pub closed spec fn buffers_seq(&self) -> Seq<(Vec<u8>, Buffer)> {
        self.bind_group_buffers.seq()
    }

    /// The generated bind groups.
    pub closed spec fn bind_groups_seq(&self) -> Seq<BindGroup> {
        self.bind_groups@
    }

    /// The generated bind groups, as views.
    pub open spec fn bind_groups_views(&self) -> Seq<BindGroupView> {
        group_views(self.bind_groups_seq())
    }

    /// Whether cached bind groups are stale and must be regenerated.
    pub closed spec fn dirty_spec(&self) -> bool {
        self.needs_regen
    }

    /// The assigned shader, if any.
    pub closed spec fn shader_spec(&self) -> Option<ResourceHandle> {
        self.shader_handle
    }

    /// The shader's reflected binding records, as assigned.
    pub closed spec fn bindings_seq(&self) -> Seq<Binding> {
        self.shader_bindings@
    }

    /// The views of the assigned binding records.
    pub open spec fn bindings_views(&self) -> Seq<BindingView> {
        views_of(self.bindings_seq())
    }

    /// The pipelines registered as acceptable for this material.
    pub closed spec fn pipelines_seq(&self) -> Seq<ResourceHandle> {
        self.pipelines@
    }

    /// The material's maps are well formed and its binding names unique.
    pub open spec fn wf(&self) -> bool {
        &&& crate::namemap::keys_unique(self.textures_seq())
        &&& crate::namemap::keys_unique(self.uniforms_seq())
        &&& crate::namemap::keys_unique(self.buffers_seq())
        &&& names_unique(self.bindings_views())
    }

    /// The name-to-texture entries, in order.
    pub closed spec fn textures_seq(&self) -> Seq<(Vec<u8>, ResourceHandle)> {
        self.textures.seq()
    }

    /// The name-to-uniform entries, in order.
    pub closed spec fn uniforms_seq(&self) -> Seq<(Vec<u8>, ResourceHandle)> {
        self.uniforms.seq()
    }

    /// A fresh material: nothing assigned, no shader, and dirty, so the
    /// first generation builds its bind groups.
    pub fn new() -> (r: Material)
        ensures
            r.textures_map() == Map::<Seq<u8>, ResourceHandle>::empty(),
            r.uniforms_map() == Map::<Seq<u8>, ResourceHandle>::empty(),
            r.buffers_map() == Map::<Seq<u8>, Buffer>::empty(),
            r.bind_groups_views() == Seq::<BindGroupView>::empty(),
            r.dirty_spec(),
            r.shader_spec() is None,
            r.bindings_views() == Seq::<BindingView>::empty(),
            r.pipelines_seq() == Seq::<ResourceHandle>::empty(),
            r.wf(),
    {
        let r = Material {
            textures: NameMap::new(),
            uniforms: NameMap::new(),
            bind_group_buffers: NameMap::new(),
            bind_groups: Vec::new(),
            needs_regen: true,
            shader_handle: None,
            shader_bindings: Vec::new(),
            pipelines: Vec::new(),
        };
        proof {
            assert(r.bind_groups_views() =~= Seq::<BindGroupView>::empty());
            assert(r.bindings_views() =~= Seq::<BindingView>::empty());
        }
        r
    }

    /// Assigns a texture under a shader variable name and marks the
    /// material dirty, whatever the prior state of the flag.
    pub fn add_texture(&mut self, name: &str, texture_handle: ResourceHandle)
        requires
            old(self).wf(),
        ensures
            final(self).wf(),
            final(self).textures_map() == old(self).textures_map().insert(
                name.spec_bytes(),
                texture_handle,
            ),
            final(self).dirty_spec(),
            final(self).uniforms_map() == old(self).uniforms_map(),
            final(self).buffers_seq() == old(self).buffers_seq(),
            final(self).bind_groups_seq() == old(self).bind_groups_seq(),
            final(self).shader_spec() == old(self).shader_spec(),
            final(self).bindings_seq() == old(self).bindings_seq(),
            final(self).pipelines_seq() == old(self).pipelines_seq(),
    {
        self.textures.set(name.as_bytes_vec(), texture_handle);
        self.needs_regen = true;
    }

    /// Assigns a uniform under a shader variable name and marks the
    /// material dirty, whatever the prior state of the flag.
    pub fn add_uniform(&mut self, name: &str, uniform_handle: ResourceHandle)
        requires
            old(self).wf(),
        ensures
            final(self).wf(),
            final(self).uniforms_map() == old(self).uniforms_map().insert(
                name.spec_bytes(),
                uniform_handle,
            ),
            final(self).dirty_spec(),
            final(self).textures_map() == old(self).textures_map(),
            final(self).buffers_seq() == old(self).buffers_seq(),
            final(self).bind_groups_seq() == old(self).bind_groups_seq(),
            final(self).shader_spec() == old(self).shader_spec(),
            final(self).bindings_seq() == old(self).bindings_seq(),
            final(self).pipelines_seq() == old(self).pipelines_seq(),
    {
        self.uniforms.set(name.as_bytes_vec(), uniform_handle);
        self.needs_regen = true;
    }

    /// The texture assigned under a name.
    pub fn get_texture(&self, name: &str) -> (r: Option<&ResourceHandle>)
        requires
            self.wf(),
        ensures
            match r {
                Some(h) => self.textures_map().dom().contains(name.spec_bytes()) && *h
                    == self.textures_map()[name.spec_bytes()],
                None => !self.textures_map().dom().contains(name.spec_bytes()),
            },
    {
        self.textures.get(name.as_bytes())
    }

    /// The uniform assigned under a name.
    pub fn get_uniform(&self, name: &str) -> (r: Option<&ResourceHandle>)
        requires
            self.wf(),
        ensures
            match r {
                Some(h) => self.uniforms_map().dom().contains(name.spec_bytes()) && *h
                    == self.uniforms_map()[name.spec_bytes()],
                None => !self.uniforms_map().dom().contains(name.spec_bytes()),
            },
    {
        self.uniforms.get(name.as_bytes())
    }

    /// Assigns the shader and its reflected bindings; must precede bind
    /// group generation.
    pub fn set_shader(&mut self, shader: ResourceHandle, bindings: Vec<Binding>)
        requires
            old(self).wf(),
            names_unique(views_of(bindings@)),
        ensures
            final(self).wf(),
            final(self).shader_spec() == Some(shader),
            final(self).bindings_seq() == bindings@,
            final(self).textures_map() == old(self).textures_map(),
            final(self).uniforms_map() == old(self).uniforms_map(),
            final(self).buffers_seq() == old(self).buffers_seq(),
            final(self).bind_groups_seq() == old(self).bind_groups_seq(),
            final(self).dirty_spec() == old(self).dirty_spec(),
            final(self).pipelines_seq() == old(self).pipelines_seq(),
    {
        self.shader_handle = Some(shader);
        self.shader_bindings = bindings;
    }

    /// The assigned shader's handle.
    pub fn get_shader(&self) -> (r: Option<&ResourceHandle>)
        ensures
            match r {
                Some(h) => self.shader_spec() == Some(*h),
                None => self.shader_spec() is None,
            },
    {
        match &self.shader_handle {
            Some(h) => Some(h),
            None => None,
        }
    }

    /// Registers a pipeline as acceptable for this material.
    pub fn add_pipeline(&mut self, pipeline: ResourceHandle)
        ensures
            final(self).pipelines_seq() == old(self).pipelines_seq().push(pipeline),
            final(self).wf() == old(self).wf(),
            final(self).textures_map() == old(self).textures_map(),
            final(self).uniforms_map() == old(self).uniforms_map(),
            final(self).buffers_seq() == old(self).buffers_seq(),
            final(self).bind_groups_seq() == old(self).bind_groups_seq(),
            final(self).dirty_spec() == old(self).dirty_spec(),
            final(self).shader_spec() == old(self).shader_spec(),
            final(self).bindings_seq() == old(self).bindings_seq(),
    {
        self.pipelines.push(pipeline);
    }

    /// The generated bind groups, one per group index.
    pub fn get_bind_groups(&self) -> (r: &Vec<BindGroup>)
        ensures
            group_views(r@) == self.bind_groups_views(),
    {
        &self.bind_groups
    }

    /// The per-binding copy buffer of a uniform name.
    pub fn get_bind_group_buffer(&self, name: &str) -> (r: Option<&Buffer>)
        requires
            self.wf(),
        ensures
            match r {
                Some(b) => self.buffers_map().dom().contains(name.spec_bytes()) && *b
                    == self.buffers_map()[name.spec_bytes()],
                None => !self.buffers_map().dom().contains(name.spec_bytes()),
            },
    {
        self.bind_group_buffers.get(name.as_bytes())
    }

    /// Whether cached bind groups are stale.
    pub fn is_dirty(&self) -> (b: bool)
        ensures
            b == self.dirty_spec(),
    {
        self.needs_regen
    }

    /// Regenerates the bind groups if the material is dirty: resolves every
    /// binding the shader declares against the assignment maps, seeds one
    /// copy buffer per uniform binding with the uniform's current payload,
    /// builds one bind group per group index the shader has a layout for,
    /// and clears the dirty flag.  A clean material is left untouched.
    #[verifier::rlimit(100)]
    pub fn generate_bind_groups(
        &mut self,
        shader: &Shader,
        textures: &Registry<Texture>,
        uniforms: &Registry<UniformBuffer>,
    ) -> (r: Result<(), MaterialError>)
        requires
            old(self).wf(),
            textures.wf(),
            uniforms.wf(),
        ensures
            final(self).wf(),
            generate_rel(
                *old(self),
                *final(self),
                *shader,
                crate::registry::reg_dom(textures),
                crate::registry::reg_dom(uniforms),
                crate::registry::map_of_entries(uniforms.seq()),
                r,
            ),
            final(self).textures_map() == old(self).textures_map(),
            final(self).uniforms_map() == old(self).uniforms_map(),
            final(self).shader_spec() == old(self).shader_spec(),
            final(self).bindings_seq() == old(self).bindings_seq(),
            final(self).pipelines_seq() == old(self).pipelines_seq(),
            !old(self).dirty_spec() ==> r is Ok && *final(self) == *old(self),
            r is Ok <==> (!old(self).dirty_spec() || (old(self).shader_spec() is Some
                && all_resolve(
                old(self).bindings_views(),
                old(self).textures_map(),
                old(self).uniforms_map(),
                crate::registry::reg_dom(textures),
                crate::registry::reg_dom(uniforms),
            ))),
            r is Err ==> final(self).dirty_spec() && final(self).bind_groups_seq() == old(self).bind_groups_seq(),
            (r matches Err(MaterialError::MissingShader)) <==> (old(self).dirty_spec() && old(self).shader_spec() is None),
            r matches Err(MaterialError::MissingBinding { name }) ==> exists|i: int|
                0 <= i < old(self).bindings_views().len() && (#[trigger] old(self).bindings_views()[i]).name == name@ && !binding_resolves(
                    old(self).bindings_views()[i],
                    old(self).textures_map(),
                    old(self).uniforms_map(),
                    crate::registry::reg_dom(textures),
                    crate::registry::reg_dom(uniforms),
                ),
            r matches Err(MaterialError::StorageBinding { name }) ==> exists|i: int|
                0 <= i < old(self).bindings_views().len() && (#[trigger] old(self).bindings_views()[i]).name == name@ && old(self).bindings_views()[i].binding_type
                    == BindingType::Storage,
            old(self).dirty_spec() && r is Ok ==> {
                let bvs = old(self).bindings_views();
                let gvs = final(self).bind_groups_views();
                let bufs = final(self).buffers_map();
                let umap = old(self).uniforms_map();
                let ureg = crate::registry::map_of_entries(uniforms.seq());
                &&& !final(self).dirty_spec()
                &&& forall|i: int|
                    0 <= i < bvs.len() && (#[trigger] bvs[i]).binding_type == BindingType::Uniform
                        ==> bufs.dom().contains(bvs[i].name)
                        && bufs[bvs[i].name].contents_spec() == ureg[umap[bvs[i].name]].data_spec()
                        && bufs[bvs[i].name].type_spec() == BufferType::Uniform
                &&& forall|i: int, j: int|
                    0 <= i < j < gvs.len() ==> (#[trigger] gvs[i]).group < (
                    #[trigger] gvs[j]).group
                &&& forall|k: int|
                    0 <= k < gvs.len() ==> (#[trigger] gvs[k]).entries == bg_entries_for_group(
                        bvs,
                        gvs[k].group,
                    ) && gvs[k].entries.len() > 0 && shader_has_group(shader, gvs[k].group)
                &&& forall|g: u32|
                    bg_entries_for_group(bvs, g).len() > 0 && shader_has_group(shader, g)
                        ==> exists|k: int| 0 <= k < gvs.len() && (#[trigger] gvs[k]).group == g
            },
    {
        if !self.needs_regen {
            return Ok(());
        }
        if self.shader_handle.is_none() {
            return Err(MaterialError::MissingShader);
        }
        let ghost bvs = self.bindings_views();
        let ghost tdom = crate::registry::reg_dom(textures);
        let ghost udom = crate::registry::reg_dom(uniforms);
        let n = self.shader_bindings.len();
        let mut k: usize = 0;
        while k < n
            invariant
                k <= n,
                n == self.bindings_seq().len(),
                self.wf(),
                textures.wf(),
                uniforms.wf(),
                bvs == self.bindings_views(),
                tdom == crate::registry::reg_dom(textures),
                udom == crate::registry::reg_dom(uniforms),
                self.bindings_seq() == old(self).bindings_seq(),
                self.textures_seq() == old(self).textures_seq(),
                self.uniforms_seq() == old(self).uniforms_seq(),
                self.textures_map() == old(self).textures_map(),
                self.uniforms_map() == old(self).uniforms_map(),
                self.bind_groups_seq() == old(self).bind_groups_seq(),
                self.dirty_spec(),
                old(self).dirty_spec(),
                self.shader_spec() == old(self).shader_spec(),
                self.shader_spec() is Some,
                self.pipelines_seq() == old(self).pipelines_seq(),
                forall|i: int|
                    0 <= i < k ==> binding_resolves(
                        #[trigger] bvs[i],
                        self.textures_map(),
                        self.uniforms_map(),
                        tdom,
                        udom,
                    ),
                forall|i: int|
                    0 <= i < k && (#[trigger] bvs[i]).binding_type == BindingType::Uniform
                        ==> self.buffers_map().dom().contains(bvs[i].name)
                        && self.buffers_map()[bvs[i].name].contents_spec()
                        == crate::registry::map_of_entries(uniforms.seq())[self.uniforms_map()[bvs[i].name]].data_spec()
                        && self.buffers_map()[bvs[i].name].type_spec() == BufferType::Uniform,
            decreases n - k,
        {
            let bname = copy_bytes(self.shader_bindings[k].get_name());
            let kind = self.shader_bindings[k].get_binding_type();
            proof {
                assert(bvs[k as int] == self.bindings_seq()[k as int]@);
                crate::registry::lemma_registry_view(textures);
                crate::registry::lemma_registry_view(uniforms);
            }
            match kind {
                BindingType::Uniform => {
                    let uh = match self.uniforms.get(bname.as_slice()) {
                        Some(h) => h,
                        None => {
                            proof {
                                assert(!binding_resolves(
                                    bvs[k as int],
                                    self.textures_map(),
                                    self.uniforms_map(),
                                    tdom,
                                    udom,
                                ));
                            }
                            return Err(MaterialError::MissingBinding { name: bname });
                        },
                    };
                    let ub = match uniforms.get(uh) {
                        Some(u) => u,
                        None => {
                            proof {
                                assert(!binding_resolves(
                                    bvs[k as int],
                                    self.textures_map(),
                                    self.uniforms_map(),
                                    tdom,
                                    udom,
                                ));
                            }
                            return Err(MaterialError::MissingBinding { name: bname });
                        },
                    };
                    let buf = Buffer::create_buffer_from_bytes(
                        ub.get_data().as_slice(),
                        BufferType::Uniform,
                    );
                    self.bind_group_buffers.set(bname, buf);
                    proof {
                        assert(binding_resolves(
                            bvs[k as int],
                            self.textures_map(),
                            self.uniforms_map(),
                            tdom,
                            udom,
                        ));
                        assert forall|i: int|
                            0 <= i < k + 1 && (#[trigger] bvs[i]).binding_type
                                == BindingType::Uniform implies self.buffers_map().dom().contains(
                            bvs[i].name,
                        ) && self.buffers_map()[bvs[i].name].contents_spec()
                            == crate::registry::map_of_entries(uniforms.seq())[self.uniforms_map()[bvs[i].name]].data_spec()
                            && self.buffers_map()[bvs[i].name].type_spec()
                            == BufferType::Uniform by {
                            if i < k {
                                assert(bvs[i].name != bvs[k as int].name);
                            }
                        }
                    }
                },
                BindingType::Texture => {
                    let th = match self.textures.get(bname.as_slice()) {
                        Some(h) => h,
                        None => {
                            proof {
                                assert(!binding_resolves(
                                    bvs[k as int],
                                    self.textures_map(),
                                    self.uniforms_map(),
                                    tdom,
                                    udom,
                                ));
                            }
                            return Err(MaterialError::MissingBinding { name: bname });
                        },
                    };
                    if textures.get(th).is_none() {
                        proof {
                            assert(!binding_resolves(
                                bvs[k as int],
                                self.textures_map(),
                                self.uniforms_map(),
                                tdom,
                                udom,
                            ));
                        }
                        return Err(MaterialError::MissingBinding { name: bname });
                    }
                },
                BindingType::TextureSampler => {
                    if bname.len() < 8 {
                        proof {
                            assert(!binding_resolves(
                                bvs[k as int],
                                self.textures_map(),
                                self.uniforms_map(),
                                tdom,
                                udom,
                            ));
                        }
                        return Err(MaterialError::MissingBinding { name: bname });
                    }
                    let target = copy_range(bname.as_slice(), 0, bname.len() - 8);
                    proof {
                        assert(target@ == sampler_target(bvs[k as int].name));
                    }
                    let th = match self.textures.get(target.as_slice()) {
                        Some(h) => h,
                        None => {
                            proof {
                                assert(!binding_resolves(
                                    bvs[k as int],
                                    self.textures_map(),
                                    self.uniforms_map(),
                                    tdom,
                                    udom,
                                ));
                            }
                            return Err(MaterialError::MissingBinding { name: bname });
                        },
                    };
                    if textures.get(th).is_none() {
                        proof {
                            assert(!binding_resolves(
                                bvs[k as int],
                                self.textures_map(),
                                self.uniforms_map(),
                                tdom,
                                udom,
                            ));
                        }
                        return Err(MaterialError::MissingBinding { name: bname });
                    }
                },
                BindingType::Storage => {
                    return Err(MaterialError::StorageBinding { name: bname });
                },
            }
            k = k + 1;
        }
        // every binding resolves: build the bind groups
        proof {
            assert forall|i: int|
                0 <= i < bvs.len() && (#[trigger] bvs[i]).binding_type
                    == BindingType::TextureSampler implies bvs[i].name.len() >= 8 by {
                assert(binding_resolves(bvs[i], self.textures_map(), self.uniforms_map(), tdom, udom));
            }
        }
        let new_groups = build_material_bind_groups(&self.shader_bindings, shader);
        let ghost ngv = group_views(new_groups@);
        self.bind_groups = new_groups;
        self.needs_regen = false;
        proof {
            assert(self.bind_groups_views() == ngv);
            assert(bvs == old(self).bindings_views());
        }
        Ok(())
    }

    /// Per-frame refresh: copies each uniform's current device bytes into
    /// the dedicated per-binding copy buffer of the same name, whatever the
    /// state of the dirty flag.  Buffers whose name no longer resolves are
    /// left as they are.
    pub fn update(&mut self, uniforms: &Registry<UniformBuffer>)
        requires
            old(self).wf(),
            uniforms.wf(),
        ensures
            final(self).wf(),
            update_rel(
                *old(self),
                *final(self),
                crate::registry::map_of_entries(uniforms.seq()),
            ),
            final(self).buffers_seq().len() == old(self).buffers_seq().len(),
            forall|k: int|
                0 <= k < old(self).buffers_seq().len() ==> {
                    let name = (#[trigger] old(self).buffers_seq()[k]).0@;
                    let umap = old(self).uniforms_map();
                    let ureg = crate::registry::map_of_entries(uniforms.seq());
                    &&& final(self).buffers_seq()[k].0@ == name
                    &&& (umap.dom().contains(name) && ureg.dom().contains(umap[name]) ==> final(self).buffers_seq()[k].1.contents_spec() == ureg[umap[name]].gpu_spec() && final(self).buffers_seq()[k].1.type_spec() == BufferType::Uniform)
                    &&& (!(umap.dom().contains(name) && ureg.dom().contains(umap[name])) ==> final(self).buffers_seq()[k].1 == old(self).buffers_seq()[k].1)
                },
            final(self).textures_map() == old(self).textures_map(),
            final(self).uniforms_map() == old(self).uniforms_map(),
            final(self).bind_groups_seq() == old(self).bind_groups_seq(),
            final(self).dirty_spec() == old(self).dirty_spec(),
            final(self).shader_spec() == old(self).shader_spec(),
            final(self).bindings_seq() == old(self).bindings_seq(),
            final(self).pipelines_seq() == old(self).pipelines_seq(),
    {
        let n = self.bind_group_buffers.len();
        let mut k: usize = 0;
        while k < n
            invariant
                k <= n,
                n == self.buffers_seq().len(),
                self.wf(),
                uniforms.wf(),
                self.buffers_seq().len() == old(self).buffers_seq().len(),
                self.uniforms_seq() == old(self).uniforms_seq(),
                self.textures_seq() == old(self).textures_seq(),
                self.uniforms_map() == old(self).uniforms_map(),
                self.textures_map() == old(self).textures_map(),
                self.bind_groups_seq() == old(self).bind_groups_seq(),
                self.dirty_spec() == old(self).dirty_spec(),
                self.shader_spec() == old(self).shader_spec(),
                self.bindings_seq() == old(self).bindings_seq(),
                self.pipelines_seq() == old(self).pipelines_seq(),
                forall|j: int|
                    k <= j < old(self).buffers_seq().len() ==> (#[trigger] self.buffers_seq()[j])
                        == old(self).buffers_seq()[j],
                forall|j: int|
                    0 <= j < k ==> {
                        let name = (#[trigger] old(self).buffers_seq()[j]).0@;
                        let umap = old(self).uniforms_map();
                        let ureg = crate::registry::map_of_entries(uniforms.seq());
                        &&& self.buffers_seq()[j].0@ == name
                        &&& (umap.dom().contains(name) && ureg.dom().contains(umap[name])
                            ==> self.buffers_seq()[j].1.contents_spec() == ureg[umap[name]].gpu_spec()
                            && self.buffers_seq()[j].1.type_spec() == BufferType::Uniform)
                        &&& (!(umap.dom().contains(name) && ureg.dom().contains(umap[name]))
                            ==> self.buffers_seq()[j].1 == old(self).buffers_seq()[j].1)
                    },
            decreases n - k,
        {
            proof {
                crate::registry::lemma_registry_view(uniforms);
                assert(self.buffers_seq()[k as int].0@ == old(self).buffers_seq()[k as int].0@);
            }
            let bname = copy_bytes(self.bind_group_buffers.name_at(k));
            let found = match self.uniforms.get(bname.as_slice()) {
                Some(uh) => match uniforms.get(uh) {
                    Some(ub) => {
                        let buf = Buffer::create_buffer_from_bytes(
                            ub.get_buffer().as_slice(),
                            BufferType::Uniform,
                        );
                        Some(buf)
                    },
                    None => None,
                },
                None => None,
            };
            if let Some(buf) = found {
                self.bind_group_buffers.set_value_at(k, buf);
            }
            k = k + 1;
        }
    }
}

/// Builds the bind groups of a binding list: one group per group index
/// the shader has a layout for, ordered by ascending group index, each
/// holding its declarations' entries in declaration order.
#[verifier::rlimit(100)]
fn build_material_bind_groups(bs: &Vec<Binding>, shader: &Shader) -> (r: Vec<BindGroup>)
    requires
        forall|i: int|
            0 <= i < views_of(bs@).len() && (#[trigger] views_of(bs@)[i]).binding_type
                == BindingType::TextureSampler ==> views_of(bs@)[i].name.len() >= 8,
    ensures
        forall|i: int, j: int|
            0 <= i < j < group_views(r@).len() ==> (#[trigger] group_views(r@)[i]).group < (
            #[trigger] group_views(r@)[j]).group,
        forall|k: int|
            0 <= k < group_views(r@).len() ==> (#[trigger] group_views(r@)[k]).entries
                == bg_entries_for_group(views_of(bs@), group_views(r@)[k].group) && group_views(
                r@,
            )[k].entries.len() > 0 && shader_has_group(shader, group_views(r@)[k].group),
        forall|g: u32|
            bg_entries_for_group(views_of(bs@), g).len() > 0 && shader_has_group(shader, g)
                ==> exists|k: int|
                0 <= k < group_views(r@).len() && (#[trigger] group_views(r@)[k]).group == g,
{
    let ghost bvs = views_of(bs@);
    let bn = bs.len();
    let mut groups: Vec<u32> = Vec::new();
    let mut k2: usize = 0;
    while k2 < bn
        invariant
            k2 <= bn,
            bn == bs@.len(),
            bvs == views_of(bs@),
            forall|i: int, j: int| 0 <= i < j < groups@.len() ==> groups@[i] < groups@[j],
            forall|x: u32|
                crate::shader::group_listed(groups@, x) <==> exists|j: int|
                    0 <= j < k2 && (#[trigger] bvs[j]).group == x,
        decreases bn - k2,
    {
        let g = bs[k2].get_group();
        proof {
            assert(bvs[k2 as int] == bs@[k2 as int]@);
        }
        crate::shader::insert_group(&mut groups, g);
        k2 = k2 + 1;
    }
    let gn = groups.len();
    let mut out: Vec<BindGroup> = Vec::new();
    let ghost mut src: Seq<int> = Seq::empty();
    let mut t: usize = 0;
    while t < gn
        invariant
            t <= gn,
            gn == groups@.len(),
            bvs == views_of(bs@),
            forall|i: int|
                0 <= i < bvs.len() && (#[trigger] bvs[i]).binding_type
                    == BindingType::TextureSampler ==> bvs[i].name.len() >= 8,
            forall|i: int, j: int| 0 <= i < j < groups@.len() ==> groups@[i] < groups@[j],
            forall|x: u32|
                crate::shader::group_listed(groups@, x) <==> exists|j: int|
                    0 <= j < bvs.len() && (#[trigger] bvs[j]).group == x,
            src.len() == out@.len(),
            forall|i: int|
                0 <= i < src.len() ==> 0 <= #[trigger] src[i] < t && (out@[i])@.group
                    == groups@[src[i]],
            forall|i: int, j: int| 0 <= i < j < src.len() ==> src[i] < src[j],
            forall|i: int|
                0 <= i < out@.len() ==> (#[trigger] out@[i])@.entries == bg_entries_for_group(
                    bvs,
                    out@[i]@.group,
                ) && out@[i]@.entries.len() > 0 && shader_has_group(shader, out@[i]@.group),
            forall|u: int|
                0 <= u < t && shader_has_group(shader, groups@[u]) ==> exists|i: int|
                    0 <= i < src.len() && #[trigger] src[i] == u,
        decreases gn - t,
    {
        let g = groups[t];
        let ghost pre = out@;
        let ghost pre_src = src;
        let has_layout = match shader.get_bind_group_layout(g) {
            Some(_) => true,
            None => false,
        };
        proof {
            if has_layout {
                assert(shader_has_group(shader, g));
            } else {
                assert(!shader_has_group(shader, g));
            }
        }
        if has_layout {
            let entries = collect_bg_entries(bs, g);
            proof {
                lemma_bg_entries_nonempty(bvs, g);
                assert(crate::shader::group_listed(groups@, g));
            }
            let bg = BindGroup { group: g, entries };
            out.push(bg);
            proof {
                src = src.push(t as int);
                assert(out@[out@.len() - 1]@.group == groups@[t as int]);
                assert forall|i: int|
                    0 <= i < src.len() implies 0 <= #[trigger] src[i] < t + 1 && (out@[i])@.group
                        == groups@[src[i]] by {
                    if i < pre_src.len() {
                        assert(src[i] == pre_src[i]);
                        assert(out@[i] == pre[i]);
                    }
                }
                assert forall|u: int|
                    0 <= u < t + 1 && shader_has_group(shader, groups@[u]) implies exists|i: int|
                        0 <= i < src.len() && #[trigger] src[i] == u by {
                    if u < t {
                        let i = choose|i: int| 0 <= i < pre_src.len() && #[trigger] pre_src[i] == u;
                        assert(src[i] == u);
                    } else {
                        assert(src[src.len() - 1] == u);
                    }
                }
            }
        } else {
            proof {
                assert forall|u: int|
                    0 <= u < t + 1 && shader_has_group(shader, groups@[u]) implies exists|i: int|
                        0 <= i < src.len() && #[trigger] src[i] == u by {
                    assert(u != t);
                    let i = choose|i: int| 0 <= i < pre_src.len() && #[trigger] pre_src[i] == u;
                    assert(src[i] == u);
                }
            }
        }
        t = t + 1;
    }
    proof {
        let gvs = group_views(out@);
        assert forall|i: int, j: int|
            0 <= i < j < gvs.len() implies (#[trigger] gvs[i]).group < (
        #[trigger] gvs[j]).group by {
            assert(gvs[i] == out@[i]@);
            assert(gvs[j] == out@[j]@);
            assert(src[i] < src[j]);
            assert(groups@[src[i]] < groups@[src[j]]);
        }
        assert forall|k: int|
            0 <= k < gvs.len() implies (#[trigger] gvs[k]).entries == bg_entries_for_group(
            bvs,
            gvs[k].group,
        ) && gvs[k].entries.len() > 0 && shader_has_group(shader, gvs[k].group) by {
            assert(gvs[k] == out@[k]@);
        }
        assert forall|g: u32|
            bg_entries_for_group(bvs, g).len() > 0 && shader_has_group(shader, g) implies exists|
                k: int,
            |
                0 <= k < gvs.len() && (#[trigger] gvs[k]).group == g by {
            lemma_bg_entries_nonempty(bvs, g);
            assert(crate::shader::group_listed(groups@, g));
            let u = choose|u: int| 0 <= u < groups@.len() && groups@[u] == g;
            assert(shader_has_group(shader, groups@[u]));
            let i = choose|i: int| 0 <= i < src.len() && #[trigger] src[i] == u;
            assert(gvs[i] == out@[i]@);
            assert(gvs[i].group == g);
        }
    }
    out
}

/// Builds the bind group entries of group `g` from the binding records, in
/// declaration order.
fn collect_bg_entries(bs: &Vec<Binding>, g: u32) -> (r: Vec<BindGroupEntry>)
    requires
        forall|i: int|
            0 <= i < views_of(bs@).len() && (#[trigger] views_of(bs@)[i]).binding_type
                == BindingType::TextureSampler ==> views_of(bs@)[i].name.len() >= 8,
    ensures
        entry_views(r@) == bg_entries_for_group(views_of(bs@), g),
{
    let ghost bvs = views_of(bs@);
    let n = bs.len();
    let mut out: Vec<BindGroupEntry> = Vec::new();
    let mut k: usize = 0;
    proof {
        assert(entry_views(out@) =~= bg_entries_for_group(bvs.subrange(0, 0), g));
    }
    while k < n
        invariant
            k <= n,
            n == bs@.len(),
            bvs == views_of(bs@),
            forall|i: int|
                0 <= i < bvs.len() && (#[trigger] bvs[i]).binding_type
                    == BindingType::TextureSampler ==> bvs[i].name.len() >= 8,
            entry_views(out@) == bg_entries_for_group(bvs.subrange(0, k as int), g),
        decreases n - k,
    {
        proof {
            assert(bvs.subrange(0, k + 1).drop_last() =~= bvs.subrange(0, k as int));
            assert(bvs.subrange(0, k + 1).last() == bvs[k as int]);
            assert(bvs[k as int] == bs@[k as int]@);
        }
        if bs[k].get_group() == g {
            let bname = copy_bytes(bs[k].get_name());
            let kind = bs[k].get_binding_type();
            let resource = match kind {
                BindingType::Texture => BoundResource::TextureView { texture: bname },
                BindingType::TextureSampler => {
                    let nlen = bname.len();
                    BoundResource::TextureSampler {
                        texture: copy_range(bname.as_slice(), 0, nlen - 8),
                    }
                },
                BindingType::Uniform => BoundResource::UniformBuffer { name: bname },
                BindingType::Storage => BoundResource::UniformBuffer { name: bname },
            };
            let entry = BindGroupEntry { binding: bs[k].get_binding(), resource };
            proof {
                assert(entry@ == entry_of_binding(bvs[k as int]));
            }
            out.push(entry);
            proof {
                assert(entry_views(out@) =~= bg_entries_for_group(bvs.subrange(0, k + 1), g));
            }
        }
        k = k + 1;
    }
    proof {
        assert(bvs.subrange(0, n as int) =~= bvs);
    }
    out
}

} // verus!
