//! Pipelines and the content-keyed pipeline cache.
//!
//! Building a device pipeline is among the costliest GPU operations, so
//! pipelines are deduplicated: a build configuration is reduced to a
//! canonical serialization covering the vertex layouts, the full ordered
//! set of bind group layouts, and the shader's identity, and the cache
//! returns the existing pipeline whenever that key matches.  A 64-bit
//! FNV-1a fingerprint of the key is kept for diagnostics.

use vstd::prelude::*;

use crate::handles::{HandleArena, ResourceHandle, ResourceType};
use crate::mesh::{
    MeshLayout, StepModeDesc, VertexAttributeDesc, VertexBufferLayoutDesc, VertexBufferLayoutView,
    VertexFormatDesc,
};
use crate::reflect::BindingType;
use crate::registry::Registry;
use crate::scan::bytes_eq;
use crate::shader::{BindGroupLayout, BindGroupLayoutView, LayoutEntry};

verus! {

/// Little-endian encoding of a 32-bit value.
pub open spec fn enc_u32(v: u32) -> Seq<u8> {
    seq![
        (v % 256) as u8,
        ((v / 256) % 256) as u8,
        ((v / 65536) % 256) as u8,
        ((v / 16777216) % 256) as u8,
    ]
}

/// Little-endian encoding of a 64-bit value.
pub open spec fn enc_u64(v: u64) -> Seq<u8> {
    enc_u32((v % 0x1_0000_0000) as u32) + enc_u32((v / 0x1_0000_0000) as u32)
}

/// One-byte tag of a vertex format.
pub open spec fn format_tag(f: VertexFormatDesc) -> u8 {
    match f {
        VertexFormatDesc::Float32x2 => 2,
        VertexFormatDesc::Float32x3 => 3,
        VertexFormatDesc::Float32x4 => 4,
    }
}

/// One-byte tag of a step mode.
pub open spec fn step_tag(m: StepModeDesc) -> u8 {
    match m {
        StepModeDesc::Vertex => 0,
        StepModeDesc::Instance => 1,
    }
}

/// One-byte tag of a binding kind.
pub open spec fn kind_tag(k: BindingType) -> u8 {
    match k {
        BindingType::Texture => 0,
        BindingType::TextureSampler => 1,
        BindingType::Uniform => 2,
        BindingType::Storage => 3,
    }
}

/// Encoding of one vertex attribute.
pub open spec fn enc_attr(a: VertexAttributeDesc) -> Seq<u8> {
    enc_u64(a.offset) + enc_u32(a.shader_location) + seq![format_tag(a.format)]
}

/// Encoding of a list of vertex attributes, in order.
pub open spec fn enc_attrs(s: Seq<VertexAttributeDesc>) -> Seq<u8>
    decreases s.len(),
{
    if s.len() == 0 {
        Seq::empty()
    } else {
        enc_attrs(s.drop_last()) + enc_attr(s.last())
    }
}

/// Canonical encoding of one vertex buffer layout.
pub open spec fn enc_vertex_layout(v: VertexBufferLayoutView) -> Seq<u8> {
    enc_u64(v.array_stride) + seq![step_tag(v.step_mode)] + enc_u64(v.attributes.len() as u64)
        + enc_attrs(v.attributes)
}

/// Encoding of one bind group layout entry.
pub open spec fn enc_entry(e: LayoutEntry) -> Seq<u8> {
    enc_u32(e.binding) + seq![kind_tag(e.kind)]
}

/// Encoding of a list of layout entries, in order.
pub open spec fn enc_entries(s: Seq<LayoutEntry>) -> Seq<u8>
    decreases s.len(),
{
    if s.len() == 0 {
        Seq::empty()
    } else {
        enc_entries(s.drop_last()) + enc_entry(s.last())
    }
}

/// Canonical encoding of one bind group layout.
pub open spec fn enc_bind_group(b: BindGroupLayoutView) -> Seq<u8> {
    enc_u32(b.group) + enc_u64(b.entries.len() as u64) + enc_entries(b.entries)
}

/// The canonical key of a pipeline configuration: every vertex buffer
/// layout, then every bind group layout in order, then the shader's
/// identity.
pub open spec fn pipeline_key(
    vertex_layouts: Seq<VertexBufferLayoutView>,
    bind_groups: Seq<BindGroupLayoutView>,
    shader_id: u64,
) -> Seq<u8>
    decreases bind_groups.len(),
{
    enc_vertex_layouts(vertex_layouts) + enc_bind_groups(bind_groups) + enc_u64(shader_id)
}

/// Encoding of a list of vertex buffer layouts, in order.
pub open spec fn enc_vertex_layouts(s: Seq<VertexBufferLayoutView>) -> Seq<u8>
    decreases s.len(),
{
    if s.len() == 0 {
        Seq::empty()
    } else {
        enc_vertex_layouts(s.drop_last()) + enc_vertex_layout(s.last())
    }
}

/// Encoding of a list of bind group layouts, in order.
pub open spec fn enc_bind_groups(s: Seq<BindGroupLayoutView>) -> Seq<u8>
    decreases s.len(),
{
    if s.len() == 0 {
        Seq::empty()
    } else {
        enc_bind_groups(s.drop_last()) + enc_bind_group(s.last())
    }
}

/// The 64-bit FNV-1a fingerprint of a byte string.
pub open spec fn fnv1a(s: Seq<u8>) -> u64
    decreases s.len(),
{
    if s.len() == 0 {
        0xcbf29ce484222325u64
    } else {
        ((((fnv1a(s.drop_last()) ^ (s.last() as u64)) as int) * 0x100000001b3)
            % 0x1_0000_0000_0000_0000) as u64
    }
}

pub(crate) fn push_u32(out: &mut Vec<u8>, v: u32)
    ensures
        final(out)@ == old(out)@ + enc_u32(v),
{
    out.push((v % 256) as u8);
    out.push(((v / 256) % 256) as u8);
    out.push(((v / 65536) % 256) as u8);
    out.push(((v / 16777216) % 256) as u8);
    proof {
        assert(out@ =~= old(out)@ + enc_u32(v));
    }
}

fn push_u64(out: &mut Vec<u8>, v: u64)
    ensures
        final(out)@ == old(out)@ + enc_u64(v),
{
    push_u32(out, (v % 0x1_0000_0000) as u32);
    push_u32(out, (v / 0x1_0000_0000) as u32);
    proof {
        assert(out@ =~= old(out)@ + enc_u64(v));
    }
}

fn push_format(out: &mut Vec<u8>, f: VertexFormatDesc)
    ensures
        final(out)@ == old(out)@ + seq![format_tag(f)],
{
    let tag: u8 = match f {
        VertexFormatDesc::Float32x2 => 2,
        VertexFormatDesc::Float32x3 => 3,
        VertexFormatDesc::Float32x4 => 4,
    };
    out.push(tag);
    proof {
        assert(out@ =~= old(out)@ + seq![format_tag(f)]);
    }
}

fn push_attr(out: &mut Vec<u8>, a: VertexAttributeDesc)
    ensures
        final(out)@ == old(out)@ + enc_attr(a),
{
    push_u64(out, a.offset);
    push_u32(out, a.shader_location);
    push_format(out, a.format);
    proof {
        assert(out@ =~= old(out)@ + enc_attr(a));
    }
}

fn push_vl_header(out: &mut Vec<u8>, stride: u64, step_mode: StepModeDesc, count: u64)
    ensures
        final(out)@ == old(out)@ + enc_u64(stride) + seq![step_tag(step_mode)] + enc_u64(count),
{
    push_u64(out, stride);
    let step: u8 = match step_mode {
        StepModeDesc::Vertex => 0,
        StepModeDesc::Instance => 1,
    };
    out.push(step);
    push_u64(out, count);
    proof {
        assert(out@ =~= old(out)@ + enc_u64(stride) + seq![step_tag(step_mode)] + enc_u64(count));
    }
}

#[verifier::rlimit(100)]
fn push_vertex_layout(out: &mut Vec<u8>, l: &VertexBufferLayoutDesc)
    ensures
        final(out)@ == old(out)@ + enc_vertex_layout(l@),
{
    push_vl_header(out, l.array_stride, l.step_mode, l.attributes.len() as u64);
    let n = l.attributes.len();
    let ghost attrs = l.attributes@;
    let ghost base = out@;
    let mut k: usize = 0;
    proof {
        assert(out@ =~= base + enc_attrs(attrs.subrange(0, 0)));
    }
    while k < n
        invariant
            k <= n,
            n == attrs.len(),
            attrs == l.attributes@,
            out@ == base + enc_attrs(attrs.subrange(0, k as int)),
        decreases n - k,
    {
        push_attr(out, l.attributes[k]);
        proof {
            assert(attrs.subrange(0, k + 1).drop_last() =~= attrs.subrange(0, k as int));
            assert(attrs.subrange(0, k + 1).last() == attrs[k as int]);
            assert(out@ =~= base + enc_attrs(attrs.subrange(0, k + 1)));
        }
        k = k + 1;
    }
    proof {
        assert(attrs.subrange(0, n as int) =~= attrs);
        let h = enc_u64(l@.array_stride) + seq![step_tag(l@.step_mode)] + enc_u64(
            l@.attributes.len() as u64,
        );
        assert(base =~= old(out)@ + h);
        assert(out@ =~= old(out)@ + (h + enc_attrs(l@.attributes)));
        assert(h + enc_attrs(l@.attributes) == enc_vertex_layout(l@));
    }
}

fn push_bind_group(out: &mut Vec<u8>, b: &BindGroupLayout)
    ensures
        final(out)@ == old(out)@ + enc_bind_group(b@),
{
    push_u32(out, b.get_group());
    let entries = b.get_entries();
    push_u64(out, entries.len() as u64);
    let n = entries.len();
    let ghost es = entries@;
    let ghost base = out@;
    let mut k: usize = 0;
    proof {
        assert(out@ =~= base + enc_entries(es.subrange(0, 0)));
    }
    while k < n
        invariant
            k <= n,
            n == es.len(),
            es == entries@,
            out@ == base + enc_entries(es.subrange(0, k as int)),
        decreases n - k,
    {
        let e = entries[k];
        push_u32(out, e.binding);
        let tag: u8 = match e.kind {
            BindingType::Texture => 0,
            BindingType::TextureSampler => 1,
            BindingType::Uniform => 2,
            BindingType::Storage => 3,
        };
        out.push(tag);
        proof {
            assert(es.subrange(0, k + 1).drop_last() =~= es.subrange(0, k as int));
            assert(es.subrange(0, k + 1).last() == es[k as int]);
            assert(out@ =~= base + enc_entries(es.subrange(0, k + 1)));
        }
        k = k + 1;
    }
    proof {
        assert(es.subrange(0, n as int) =~= es);
        assert(out@ =~= old(out)@ + enc_bind_group(b@));
    }
}

/// The 64-bit FNV-1a fingerprint of a byte string.
pub fn fnv1a_exec(s: &[u8]) -> (r: u64)
    ensures
        r == fnv1a(s@),
{
    let n = s.len();
    let mut h: u64 = 0xcbf29ce484222325;
    let mut k: usize = 0;
    proof {
        assert(s@.subrange(0, 0) =~= Seq::<u8>::empty());
    }
    while k < n
        invariant
            k <= n,
            n == s@.len(),
            h == fnv1a(s@.subrange(0, k as int)),
        decreases n - k,
    {
        let x = h ^ (s[k] as u64);
        let wide: u128 = (x as u128) * 0x100000001b3u128;
        h = (wide % 0x1_0000_0000_0000_0000u128) as u64;
        proof {
            assert(s@.subrange(0, k + 1).drop_last() =~= s@.subrange(0, k as int));
            assert(s@.subrange(0, k + 1).last() == s@[k as int]);
        }
        k = k + 1;
    }
    proof {
        assert(s@.subrange(0, n as int) =~= s@);
    }
    h
}

/// Builder-style pipeline configuration.  Everything that distinguishes
/// one pipeline from another is appended to the canonical key as it is
/// added.
pub struct PipelineBuildSettings {
    key: Vec<u8>,
    uuid: u64,
    use_depth: bool,
    shader_set: bool,
}

impl PipelineBuildSettings {
    /// The canonical key accumulated so far.
    pub closed spec fn key_spec(&self) -> Seq<u8> {
        self.key@
    }

    /// The fingerprint computed by [`PipelineBuildSettings::calculate_hash`].
    pub closed spec fn uuid_spec(&self) -> u64 {
        self.uuid
    }

    /// Whether a shader identity has been added.
    pub closed spec fn shader_set_spec(&self) -> bool {
        self.shader_set
    }

    /// Whether depth testing was requested.
    pub closed spec fn use_depth_spec(&self) -> bool {
        self.use_depth
    }

    /// An empty configuration.
    pub fn new() -> (r: PipelineBuildSettings)
        ensures
            r.key_spec() == Seq::<u8>::empty(),
            r.uuid_spec() == 0,
            !r.shader_set_spec(),
            !r.use_depth_spec(),
    {
        PipelineBuildSettings { key: Vec::new(), uuid: 0, use_depth: false, shader_set: false }
    }

    /// Appends one vertex buffer layout to the configuration.
    pub fn add_vertex_descriptor(self, l: &VertexBufferLayoutDesc) -> (r: PipelineBuildSettings)
        ensures
            r.key_spec() == self.key_spec() + enc_vertex_layout(l@),
            r.shader_set_spec() == self.shader_set_spec(),
            r.use_depth_spec() == self.use_depth_spec(),
            r.uuid_spec() == self.uuid_spec(),
    {
        let mut s = self;
        push_vertex_layout(&mut s.key, l);
        s
    }

    /// Appends one bind group layout to the configuration.
    pub fn add_bind_group(self, b: &BindGroupLayout) -> (r: PipelineBuildSettings)
        ensures
            r.key_spec() == self.key_spec() + enc_bind_group(b@),
            r.shader_set_spec() == self.shader_set_spec(),
            r.use_depth_spec() == self.use_depth_spec(),
            r.uuid_spec() == self.uuid_spec(),
    {
        let mut s = self;
        push_bind_group(&mut s.key, b);
        s
    }

    /// Appends the shader's identity to the configuration.
    pub fn set_shader(self, shader_id: u64) -> (r: PipelineBuildSettings)
        ensures
            r.key_spec() == self.key_spec() + enc_u64(shader_id),
            r.shader_set_spec(),
            r.use_depth_spec() == self.use_depth_spec(),
            r.uuid_spec() == self.uuid_spec(),
    {
        let mut s = self;
        push_u64(&mut s.key, shader_id);
        s.shader_set = true;
        s
    }

    /// Requests or declines depth testing.
    pub fn use_depth(self, use_depth: bool) -> (r: PipelineBuildSettings)
        ensures
            r.key_spec() == self.key_spec(),
            r.shader_set_spec() == self.shader_set_spec(),
            r.use_depth_spec() == use_depth,
            r.uuid_spec() == self.uuid_spec(),
    {
        let mut s = self;
        s.use_depth = use_depth;
        s
    }

    /// Computes the FNV-1a fingerprint of the canonical key.
    pub fn calculate_hash(&mut self)
        ensures
            final(self).key_spec() == old(self).key_spec(),
            final(self).shader_set_spec() == old(self).shader_set_spec(),
            final(self).use_depth_spec() == old(self).use_depth_spec(),
            final(self).uuid_spec() == fnv1a(old(self).key_spec()),
    {
        self.uuid = fnv1a_exec(self.key.as_slice());
    }

    /// The fingerprint of the canonical key.
    pub fn get_uuid(&self) -> (r: u64)
        ensures
            r == self.uuid_spec(),
    {
        self.uuid
    }
}

/// One cached pipeline: its canonical key, the key's fingerprint, and the
/// shader it was built for.  The compiled device object is host-side.
pub struct Pipeline {
    uuid: u64,
    key: Vec<u8>,
    shader: ResourceHandle,
}

impl Pipeline {
    /// The canonical key the pipeline was built from.
    pub closed spec fn key_spec(&self) -> Seq<u8> {
        self.key@
    }

    /// The fingerprint of the canonical key.
    pub closed spec fn uuid_spec(&self) -> u64 {
        self.uuid
    }

    /// The shader the pipeline was built for.
    pub closed spec fn shader_spec(&self) -> ResourceHandle {
        self.shader
    }

    /// Builds the pipeline record of a finished configuration.  A
    /// configuration without a shader cannot become a pipeline.
    pub fn new(settings: PipelineBuildSettings, shader_handle: ResourceHandle) -> (r: Pipeline)
        requires
            settings.shader_set_spec(),
        ensures
            r.key_spec() == settings.key_spec(),
            r.uuid_spec() == settings.uuid_spec(),
            r.shader_spec() == shader_handle,
    {
        Pipeline { uuid: settings.get_uuid(), key: settings.key, shader: shader_handle }
    }

    /// The fingerprint of the canonical key.
    pub fn get_uuid(&self) -> (r: u64)
        ensures
            r == self.uuid_spec(),
    {
        self.uuid
    }

    /// The shader the pipeline was built for.
    pub fn get_shader(&self) -> (r: &ResourceHandle)
        ensures
            *r == self.shader_spec(),
    {
        &self.shader
    }
}

/// No two cached pipelines share a canonical key.
pub open spec fn pipeline_keys_unique(s: Seq<(ResourceHandle, Pipeline)>) -> bool {
    forall|i: int, j: int|
        0 <= i < j < s.len() ==> (#[trigger] s[i]).1.key_spec() != (#[trigger] s[j]).1.key_spec()
}

/// Some cached pipeline has this key.
pub open spec fn has_key(s: Seq<(ResourceHandle, Pipeline)>, k: Seq<u8>) -> bool {
    exists|j: int| 0 <= j < s.len() && (#[trigger] s[j]).1.key_spec() == k
}

/// How one `create_or_get_pipeline` call relates the cache before to the
/// cache after: on a key hit the cache is unchanged and the hit entry's
/// handle is returned; on a miss one entry with that key and the returned
/// handle is appended.
pub open spec fn cache_step(
    pre: Seq<(ResourceHandle, Pipeline)>,
    post: Seq<(ResourceHandle, Pipeline)>,
    k: Seq<u8>,
    result: ResourceHandle,
) -> bool {
    if has_key(pre, k) {
        &&& post == pre
        &&& forall|j: int|
            0 <= j < pre.len() && (#[trigger] pre[j]).1.key_spec() == k ==> result == pre[j].0
    } else {
        &&& post.len() == pre.len() + 1
        &&& post.subrange(0, pre.len() as int) == pre
        &&& post.last().0 == result
        &&& post.last().1.key_spec() == k
    }
}

/// Law: two `create_or_get_pipeline` calls, one after the other, whose
/// configurations reduce to the same canonical key return the same
/// pipeline handle — the second call always hits what the first call
/// found or created.
pub proof fn lemma_pipeline_dedup(
    pre: Seq<(ResourceHandle, Pipeline)>,
    mid: Seq<(ResourceHandle, Pipeline)>,
    post: Seq<(ResourceHandle, Pipeline)>,
    k: Seq<u8>,
    h1: ResourceHandle,
    h2: ResourceHandle,
)
    requires
        pipeline_keys_unique(pre),
        cache_step(pre, mid, k, h1),
        cache_step(mid, post, k, h2),
    ensures
        h1 == h2,
{
    if has_key(pre, k) {
        let j = choose|j: int| 0 <= j < pre.len() && (#[trigger] pre[j]).1.key_spec() == k;
        assert(h1 == pre[j].0);
        assert(mid == pre);
        assert(h2 == pre[j].0);
    } else {
        assert(mid.last().1.key_spec() == k);
        assert(mid[mid.len() - 1].1.key_spec() == k);
        assert(has_key(mid, k));
        assert(h2 == mid[mid.len() - 1].0);
    }
}

/// The content-keyed cache of pipelines.
pub struct PipelineManager {
    pipelines: Registry<Pipeline>,
}

impl PipelineManager {
    /// The cached pipelines, in creation order.
    pub closed spec fn seq(&self) -> Seq<(ResourceHandle, Pipeline)> {
        self.pipelines.seq()
    }

    /// Handles unique, keys unique.
    pub open spec fn wf(&self) -> bool {
        &&& crate::registry::handles_unique(self.seq())
        &&& pipeline_keys_unique(self.seq())
    }

    /// An empty cache.
    pub fn new() -> (r: PipelineManager)
        ensures
            r.seq() == Seq::<(ResourceHandle, Pipeline)>::empty(),
            r.wf(),
    {
        PipelineManager { pipelines: Registry::new() }
    }

    /// Builds the canonical key of a configuration and returns the cached
    /// pipeline's handle if the cache holds that key, else registers a
    /// fresh pipeline under a fresh handle and returns it.  Either way the
    /// returned handle is a counted clone.
    #[verifier::rlimit(100)]
    pub fn create_or_get_pipeline(
        &mut self,
        arena: &mut HandleArena,
        mesh_layout: &MeshLayout,
        bind_group_layouts: &Vec<BindGroupLayout>,
        shader_handle: &ResourceHandle,
    ) -> (result: ResourceHandle)
        requires
            old(self).wf(),
            old(arena).wf(),
            old(arena).valid_handle(*shader_handle),
            old(arena).rc_of(shader_handle.id()) < usize::MAX - 1,
            forall|j: int|
                0 <= j < old(self).seq().len() ==> old(arena).valid_handle(
                    (#[trigger] old(self).seq()[j]).0,
                ) && old(arena).rc_of(old(self).seq()[j].0.id()) < usize::MAX - 1,
        ensures
            final(self).wf(),
            final(arena).wf(),
            crate::handles::arena_extends(*old(arena), *final(arena)),
            cache_step(
                old(self).seq(),
                final(self).seq(),
                pipeline_key(
                    mesh_layout.layouts_spec(),
                    crate::shader::bg_layout_views(bind_group_layouts@),
                    shader_handle.uuid_spec(),
                ),
                result,
            ),
            final(arena).valid_handle(result),
            forall|j: int|
                0 <= j < final(self).seq().len() ==> final(arena).valid_handle(
                    (#[trigger] final(self).seq()[j]).0,
                ),
    {
        let ghost key_g = pipeline_key(
            mesh_layout.layouts_spec(),
            crate::shader::bg_layout_views(bind_group_layouts@),
            shader_handle.uuid_spec(),
        );
        let mut config = PipelineBuildSettings::new().use_depth(false);
        let vls = mesh_layout.get_vertex_buffer_layouts();
        let n = vls.len();
        let ghost vlv = crate::mesh::layout_views(vls@);
        let mut k: usize = 0;
        proof {
            assert(vlv =~= mesh_layout.layouts_spec());
            assert(config.key_spec() =~= enc_vertex_layouts(vlv.subrange(0, 0)));
        }
        while k < n
            invariant
                k <= n,
                n == vls@.len(),
                vlv == crate::mesh::layout_views(vls@),
                config.key_spec() == enc_vertex_layouts(vlv.subrange(0, k as int)),
                !config.shader_set_spec(),
            decreases n - k,
        {
            config = config.add_vertex_descriptor(&vls[k]);
            proof {
                assert(vlv.subrange(0, k + 1).drop_last() =~= vlv.subrange(0, k as int));
                assert(vlv.subrange(0, k + 1).last() == vlv[k as int]);
                assert(vlv[k as int] == vls@[k as int]@);
                assert(config.key_spec() =~= enc_vertex_layouts(vlv.subrange(0, k + 1)));
            }
            k = k + 1;
        }
        proof {
            assert(vlv.subrange(0, n as int) =~= vlv);
        }
        let m = bind_group_layouts.len();
        let ghost bgv = crate::shader::bg_layout_views(bind_group_layouts@);
        let ghost vpart = enc_vertex_layouts(vlv);
        let mut t: usize = 0;
        proof {
            assert(config.key_spec() =~= vpart + enc_bind_groups(bgv.subrange(0, 0)));
        }
        while t < m
            invariant
                t <= m,
                m == bind_group_layouts@.len(),
                bgv == crate::shader::bg_layout_views(bind_group_layouts@),
                config.key_spec() == vpart + enc_bind_groups(bgv.subrange(0, t as int)),
                !config.shader_set_spec(),
            decreases m - t,
        {
            config = config.add_bind_group(&bind_group_layouts[t]);
            proof {
                assert(bgv.subrange(0, t + 1).drop_last() =~= bgv.subrange(0, t as int));
                assert(bgv.subrange(0, t + 1).last() == bgv[t as int]);
                assert(bgv[t as int] == bind_group_layouts@[t as int]@);
                assert(config.key_spec() =~= vpart + enc_bind_groups(bgv.subrange(0, t + 1)));
            }
            t = t + 1;
        }
        proof {
            assert(bgv.subrange(0, m as int) =~= bgv);
        }
        config = config.set_shader(shader_handle.get_uuid());
        config.calculate_hash();
        proof {
            assert(config.key_spec() =~= key_g);
        }
        // scan the cache for the key
        let count = self.pipelines.len();
        let mut j: usize = 0;
        while j < count
            invariant
                j <= count,
                count == self.seq().len(),
                *self == *old(self),
                *arena == *old(arena),
                old(self).wf(),
                old(arena).wf(),
                old(arena).valid_handle(*shader_handle),
                old(arena).rc_of(shader_handle.id()) < usize::MAX - 1,
                forall|i: int|
                    0 <= i < old(self).seq().len() ==> old(arena).valid_handle(
                        (#[trigger] old(self).seq()[i]).0,
                    ) && old(arena).rc_of(old(self).seq()[i].0.id()) < usize::MAX - 1,
                config.key_spec() == key_g,
                key_g == pipeline_key(
                    mesh_layout.layouts_spec(),
                    crate::shader::bg_layout_views(bind_group_layouts@),
                    shader_handle.uuid_spec(),
                ),
                forall|i: int| 0 <= i < j ==> (#[trigger] self.seq()[i]).1.key_spec() != key_g,
            decreases count - j,
        {
            if bytes_eq(self.pipelines.value_at(j).key.as_slice(), config.key.as_slice()) {
                proof {
                    assert(self.seq()[j as int].1.key_spec() == key_g);
                    assert(has_key(self.seq(), key_g));
                }
                let c = arena.clone_handle(self.pipelines.handle_at(j));
                proof {
                    assert(has_key(old(self).seq(), key_g)) by {
                        assert(old(self).seq()[j as int].1.key_spec() == key_g);
                    }
                    assert forall|i: int|
                        0 <= i < old(self).seq().len() && (#[trigger] old(
                            self,
                        ).seq()[i]).1.key_spec() == key_g implies c == old(self).seq()[i].0 by {
                        if i < j {
                            assert(self.seq()[i].1.key_spec() != key_g);
                        } else if i > j as int {
                            assert(self.seq()[j as int].1.key_spec() == self.seq()[i].1.key_spec());
                        }
                    }
                    assert(self.seq() == old(self).seq());
                    assert(cache_step(old(self).seq(), self.seq(), key_g, c));
                    assert forall|i: int|
                        0 <= i < self.seq().len() implies arena.valid_handle(
                        (#[trigger] self.seq()[i]).0,
                    ) by {
                        assert(old(arena).valid_handle(self.seq()[i].0));
                        if self.seq()[i].0.id() != c.id() {
                            assert(arena.slot_of(self.seq()[i].0.id()) == old(arena).slot_of(
                                self.seq()[i].0.id(),
                            ));
                        }
                    }
                }
                return c;
            }
            j = j + 1;
        }
        proof {
            assert(!has_key(self.seq(), key_g));
        }
        // miss: register a fresh pipeline
        let ghost a0 = *arena;
        let stored = arena.new_handle(ResourceType::Pipeline);
        let ghost a1 = *arena;
        let result = arena.clone_handle(&stored);
        let ghost a2 = *arena;
        proof {
            assert(a1.slot_of(shader_handle.id()) == a0.slot_of(shader_handle.id()));
            assert(shader_handle.id() != stored.id());
            assert(a2.slot_of(shader_handle.id()) == a1.slot_of(shader_handle.id()));
            assert(arena.valid_handle(*shader_handle));
            assert(arena.rc_of(shader_handle.id()) == a0.rc_of(shader_handle.id()));
        }
        let shader_clone = arena.clone_handle(shader_handle);
        proof {
            assert(arena.slot_of(stored.id()) == a2.slot_of(stored.id()));
            assert(arena.valid_handle(stored));
            assert forall|i: int|
                0 <= i < old(self).seq().len() implies arena.valid_handle(
                (#[trigger] old(self).seq()[i]).0,
            ) && old(self).seq()[i].0.id() != stored.id() by {
                let e = old(self).seq()[i].0;
                assert(a0.valid_handle(e));
                assert(e.id() != stored.id());
                assert(a1.slot_of(e.id()) == a0.slot_of(e.id()));
                if e.id() == shader_handle.id() {
                    assert(a2.slot_of(e.id()) == a1.slot_of(e.id()));
                    assert(arena.slot_of(e.id()).uuid == a2.slot_of(e.id()).uuid);
                    assert(arena.rc_of(e.id()) == a2.rc_of(e.id()) + 1);
                } else {
                    assert(a2.slot_of(e.id()) == a1.slot_of(e.id()));
                    assert(arena.slot_of(e.id()) == a2.slot_of(e.id()));
                }
            }
        }
        proof {
            crate::handles::lemma_extends_trans(a0, a1, a2);
            crate::handles::lemma_extends_trans(a0, a2, *arena);
        }
        let pipeline = Pipeline::new(config, shader_clone);
        self.pipelines.insert(stored, pipeline);
        proof {
            assert(final(self).seq().subrange(0, old(self).seq().len() as int) =~= old(
                self,
            ).seq());
            assert forall|i: int, j2: int|
                0 <= i < j2 < self.seq().len() implies (#[trigger] self.seq()[i]).1.key_spec() != (
            #[trigger] self.seq()[j2]).1.key_spec() by {
                if j2 < old(self).seq().len() {
                    assert(self.seq()[i] == old(self).seq()[i]);
                    assert(self.seq()[j2] == old(self).seq()[j2]);
                } else {
                    assert(self.seq()[i] == old(self).seq()[i]);
                    assert(self.seq()[j2].1.key_spec() == key_g);
                    assert(old(self).seq()[i].1.key_spec() != key_g);
                }
            }
        }
        result
    }

    /// Whether some cached entry's handle has identity `id`.
    pub open spec fn contains_id_pm(&self, id: int) -> bool {
        exists|k: int| 0 <= k < self.seq().len() && (#[trigger] self.seq()[k]).0.id() == id
    }

    /// Borrows a cached pipeline by handle.
    pub fn get_pipeline(&self, h: &ResourceHandle) -> (r: Option<&Pipeline>)
        requires
            self.wf(),
        ensures
            match r {
                Some(p) => crate::registry::map_of_entries(self.seq()).dom().contains(*h) && *p
                    == crate::registry::map_of_entries(self.seq())[*h],
                None => !crate::registry::map_of_entries(self.seq()).dom().contains(*h),
            },
    {
        proof {
            crate::registry::lemma_registry_view(&self.pipelines);
        }
        self.pipelines.get(h)
    }

    /// Number of cached pipelines.
    pub fn len(&self) -> (n: usize)
        ensures
            n == self.seq().len(),
    {
        self.pipelines.len()
    }

    /// The handle of cache entry `k`.
    pub fn handle_at(&self, k: usize) -> (r: &ResourceHandle)
        requires
            k < self.seq().len(),
        ensures
            *r == self.seq()[k as int].0,
    {
        self.pipelines.handle_at(k)
    }

    /// The pipeline of cache entry `k`.
    pub fn pipeline_at(&self, k: usize) -> (r: &Pipeline)
        requires
            k < self.seq().len(),
        ensures
            *r == self.seq()[k as int].1,
    {
        self.pipelines.value_at(k)
    }
}

} // verus!
