//! Shaders: source text, reflected binding table, and the bind group
//! layouts derived from it.
//!
//! Once a shader's bindings are reflected, its declarations are grouped by
//! group index into one layout per group, the layouts ordered by ascending
//! group index so callers can rely on their order.  Compiling the source
//! into a device shader module is a host concern.

use vstd::prelude::*;
use vstd::string::StringSliceAdditionalSpecFns;

use crate::reflect::{
    names_unique, table_of, views_of, Binding, BindingType, BindingView, ReflectError,
    ShaderReflect,
};
use crate::scan::bytes_eq;

verus! {

/// One entry of a bind group layout: a binding index and what kind of
/// resource is bound there.
#[derive(Copy, Clone, PartialEq, Eq, Structural, Debug)]
pub struct LayoutEntry {
    pub binding: u32,
    pub kind: BindingType,
}

/// The layout of one bind group: its group index and its entries, one per
/// declaration the shader makes in that group, in declaration order.
#[derive(Debug)]
pub struct BindGroupLayout {
    group: u32,
    entries: Vec<LayoutEntry>,
}

/// The mathematical image of a [`BindGroupLayout`].
pub struct BindGroupLayoutView {
    pub group: u32,
    pub entries: Seq<LayoutEntry>,
}

impl View for BindGroupLayout {
    type V = BindGroupLayoutView;

    closed spec fn view(&self) -> BindGroupLayoutView {
        BindGroupLayoutView { group: self.group, entries: self.entries@ }
    }
}

impl BindGroupLayout {
    /// The group index this layout describes.
    pub fn get_group(&self) -> (g: u32)
        ensures
            g == self@.group,
    {
        self.group
    }

    /// The entries of the layout.
    pub fn get_entries(&self) -> (r: &Vec<LayoutEntry>)
        ensures
            r@ == self@.entries,
    {
        &self.entries
    }
}

/// The views of a list of bind group layouts.
pub open spec fn bg_layout_views(s: Seq<BindGroupLayout>) -> Seq<BindGroupLayoutView> {
    s.map_values(|l: BindGroupLayout| l@)
}

/// The layout entries that the declarations of group `g` contribute, in
/// declaration order.
pub open spec fn entries_for_group(bvs: Seq<BindingView>, g: u32) -> Seq<LayoutEntry>
    decreases bvs.len(),
{
    if bvs.len() == 0 {
        Seq::empty()
    } else {
        let rest = entries_for_group(bvs.drop_last(), g);
        if bvs.last().group == g {
            rest.push(LayoutEntry { binding: bvs.last().binding, kind: bvs.last().binding_type })
        } else {
            rest
        }
    }
}

/// Group `g` contributes entries exactly when some declaration lives in it.
pub proof fn lemma_entries_for_group_nonempty(bvs: Seq<BindingView>, g: u32)
    ensures
        entries_for_group(bvs, g).len() > 0 <==> exists|j: int|
            0 <= j < bvs.len() && (#[trigger] bvs[j]).group == g,
    decreases bvs.len(),
{
    if bvs.len() > 0 {
        lemma_entries_for_group_nonempty(bvs.drop_last(), g);
        if bvs.last().group == g {
            assert(bvs[bvs.len() - 1].group == g);
        } else {
            assert(forall|j: int|
                0 <= j < bvs.len() - 1 ==> bvs.drop_last()[j] == (#[trigger] bvs[j]));
        }
    }
}

/// A layout list describes a declaration list when its groups are strictly
/// ascending, each layout holds exactly its group's entries, and every
/// group with a declaration has a layout.
pub open spec fn layouts_match(
    layouts: Seq<BindGroupLayoutView>,
    bvs: Seq<BindingView>,
) -> bool {
    &&& forall|i: int, j: int|
        0 <= i < j < layouts.len() ==> (#[trigger] layouts[i]).group < (
        #[trigger] layouts[j]).group
    &&& forall|k: int|
        0 <= k < layouts.len() ==> (#[trigger] layouts[k]).entries == entries_for_group(
            bvs,
            layouts[k].group,
        ) && layouts[k].entries.len() > 0
    &&& forall|g: u32|
        entries_for_group(bvs, g).len() > 0 ==> exists|k: int|
            0 <= k < layouts.len() && (#[trigger] layouts[k]).group == g
}

/// Whether a group index occurs in a list.
pub open spec fn group_listed(gs: Seq<u32>, g: u32) -> bool {
    exists|i: int| 0 <= i < gs.len() && gs[i] == g
}

/// Inserts a group index into a strictly ascending list, keeping it
/// strictly ascending; a listed index is left alone.
pub(crate) fn insert_group(groups: &mut Vec<u32>, g: u32)
    requires
        forall|i: int, j: int| 0 <= i < j < old(groups)@.len() ==> old(groups)@[i] < old(groups)@[j],
    ensures
        forall|i: int, j: int|
            0 <= i < j < final(groups)@.len() ==> final(groups)@[i] < final(groups)@[j],
        forall|x: u32| group_listed(final(groups)@, x) <==> group_listed(old(groups)@, x) || x == g,
{
    let n = groups.len();
    let mut idx: usize = 0;
    while idx < n && groups[idx] < g
        invariant
            idx <= n,
            n == groups@.len(),
            groups@ == old(groups)@,
            forall|j: int| 0 <= j < idx ==> groups@[j] < g,
        decreases n - idx,
    {
        idx = idx + 1;
    }
    if idx < n && groups[idx] == g {
        proof {
            assert(group_listed(groups@, g));
        }
        return;
    }
    groups.insert(idx, g);
    proof {
        let pre = old(groups)@;
        let post = groups@;
        assert(post == pre.insert(idx as int, g));
        assert forall|i: int, j: int| 0 <= i < j < post.len() implies post[i] < post[j] by {
            if j < idx {
                assert(post[i] == pre[i] && post[j] == pre[j]);
            } else if i > idx {
                assert(post[i] == pre[i - 1] && post[j] == pre[j - 1]);
            } else if i < idx && j == idx {
                assert(post[i] == pre[i] && post[j] == g);
            } else if i == idx && j > idx {
                assert(post[i] == g && post[j] == pre[j - 1]);
                assert(pre[j - 1] >= g);
                assert(pre[j - 1] != g) by {
                    if idx < pre.len() && pre[j - 1] == g {
                        assert(pre[idx as int] <= pre[j - 1]);
                    }
                }
            } else if i < idx && j > idx {
                assert(post[i] == pre[i] && post[j] == pre[j - 1]);
            }
        }
        assert forall|x: u32|
            group_listed(post, x) <==> group_listed(pre, x) || x == g by {
            if group_listed(pre, x) {
                let i = choose|i: int| 0 <= i < pre.len() && pre[i] == x;
                if i < idx {
                    assert(post[i] == x);
                } else {
                    assert(post[i + 1] == x);
                }
            }
            if x == g {
                assert(post[idx as int] == x);
            }
            if group_listed(post, x) && x != g {
                let i = choose|i: int| 0 <= i < post.len() && post[i] == x;
                if i < idx {
                    assert(pre[i] == x);
                } else if i > idx {
                    assert(pre[i - 1] == x);
                } else {
                    assert(post[i] == g);
                }
            }
        }
    }
}

/// Collects the layout entries of group `g`, in declaration order.
fn collect_entries(bs: &Vec<Binding>, g: u32) -> (r: Vec<LayoutEntry>)
    ensures
        r@ == entries_for_group(views_of(bs@), g),
{
    let ghost bvs = views_of(bs@);
    let n = bs.len();
    let mut out: Vec<LayoutEntry> = Vec::new();
    let mut k: usize = 0;
    proof {
        assert(out@ =~= entries_for_group(bvs.subrange(0, 0), g));
    }
    while k < n
        invariant
            k <= n,
            n == bs@.len(),
            bvs == views_of(bs@),
            out@ == entries_for_group(bvs.subrange(0, k as int), g),
        decreases n - k,
    {
        proof {
            assert(bvs.subrange(0, k + 1).drop_last() =~= bvs.subrange(0, k as int));
            assert(bvs.subrange(0, k + 1).last() == bvs[k as int]);
        }
        if bs[k].get_group() == g {
            let entry = LayoutEntry { binding: bs[k].get_binding(), kind: bs[k].get_binding_type() };
            proof {
                assert(bvs[k as int] == bs@[k as int]@);
            }
            out.push(entry);
        } else {
            proof {
                assert(bvs[k as int] == bs@[k as int]@);
            }
        }
        k = k + 1;
    }
    proof {
        assert(bvs.subrange(0, n as int) =~= bvs);
    }
    out
}

/// Derives one bind group layout per group the declarations mention,
/// ordered by ascending group index.
fn build_layouts(bs: &Vec<Binding>) -> (r: Vec<BindGroupLayout>)
    ensures
        layouts_match(bg_layout_views(r@), views_of(bs@)),
{
    let ghost bvs = views_of(bs@);
    let n = bs.len();
    let mut groups: Vec<u32> = Vec::new();
    let mut k: usize = 0;
    while k < n
        invariant
            k <= n,
            n == bs@.len(),
            bvs == views_of(bs@),
            forall|i: int, j: int| 0 <= i < j < groups@.len() ==> groups@[i] < groups@[j],
            forall|x: u32|
                group_listed(groups@, x) <==> exists|j: int|
                    0 <= j < k && (#[trigger] bvs[j]).group == x,
        decreases n - k,
    {
        let g = bs[k].get_group();
        proof {
            assert(bvs[k as int] == bs@[k as int]@);
        }
        insert_group(&mut groups, g);
        k = k + 1;
    }
    let m = groups.len();
    let mut out: Vec<BindGroupLayout> = Vec::new();
    let mut t: usize = 0;
    while t < m
        invariant
            t <= m,
            m == groups@.len(),
            bvs == views_of(bs@),
            out@.len() == t,
            forall|i: int, j: int| 0 <= i < j < groups@.len() ==> groups@[i] < groups@[j],
            forall|x: u32|
                group_listed(groups@, x) <==> exists|j: int|
                    0 <= j < bvs.len() && (#[trigger] bvs[j]).group == x,
            forall|i: int| 0 <= i < t ==> (#[trigger] out@[i])@.group == groups@[i],
            forall|i: int|
                0 <= i < t ==> (#[trigger] out@[i])@.entries == entries_for_group(
                    bvs,
                    groups@[i],
                ),
        decreases m - t,
    {
        let g = groups[t];
        let entries = collect_entries(bs, g);
        proof {
            lemma_entries_for_group_nonempty(bvs, g);
            assert(group_listed(groups@, g));
        }
        out.push(BindGroupLayout { group: g, entries });
        t = t + 1;
    }
    proof {
        let lv = bg_layout_views(out@);
        assert forall|k2: int|
            0 <= k2 < lv.len() implies (#[trigger] lv[k2]).entries == entries_for_group(
            bvs,
            lv[k2].group,
        ) && lv[k2].entries.len() > 0 by {
            assert(lv[k2] == out@[k2]@);
            assert(out@[k2]@.group == groups@[k2]);
            lemma_entries_for_group_nonempty(bvs, groups@[k2]);
            assert(group_listed(groups@, groups@[k2]));
        }
        assert forall|g: u32| entries_for_group(bvs, g).len() > 0 implies exists|k2: int|
            0 <= k2 < lv.len() && (#[trigger] lv[k2]).group == g by {
            lemma_entries_for_group_nonempty(bvs, g);
            assert(group_listed(groups@, g));
            let i = choose|i: int| 0 <= i < groups@.len() && groups@[i] == g;
            assert(lv[i] == out@[i]@);
            assert(lv[i].group == g);
        }
        assert forall|i: int, j: int|
            0 <= i < j < lv.len() implies (#[trigger] lv[i]).group < (#[trigger] lv[j]).group by {
            assert(lv[i] == out@[i]@);
            assert(lv[j] == out@[j]@);
        }
    }
    out
}

/// A shader: source text, its reflected binding table, and the bind group
/// layouts derived from that table.
pub struct Shader {
    binds: ShaderReflect,
    layouts: Vec<BindGroupLayout>,
}

impl Shader {
    /// The shader source bytes.
    pub closed spec fn source_spec(&self) -> Seq<u8> {
        self.binds.source_spec()
    }

    /// The reflected binding records.
    pub closed spec fn bindings_seq(&self) -> Seq<Binding> {
        self.binds.bindings_seq()
    }

    /// The views of the reflected binding records.
    pub open spec fn bindings_views(&self) -> Seq<BindingView> {
        views_of(self.bindings_seq())
    }

    /// The name-keyed binding table.
    pub open spec fn table(&self) -> Map<Seq<u8>, BindingView> {
        table_of(self.bindings_views())
    }

    /// The derived bind group layouts, as views.
    pub closed spec fn layouts_spec(&self) -> Seq<BindGroupLayoutView> {
        bg_layout_views(self.layouts@)
    }

    /// Reflection left one record per name, and the layouts describe the
    /// reflected declarations.
    pub open spec fn wf(&self) -> bool {
        &&& names_unique(self.bindings_views())
        &&& layouts_match(self.layouts_spec(), self.bindings_views())
    }

    /// Wraps shader source text; bindings and layouts are derived by
    /// [`Shader::generate_bindings`].
    pub fn new(source: &str) -> (r: Shader)
        ensures
            r.source_spec() == source.spec_bytes(),
            r.bindings_views() == Seq::<BindingView>::empty(),
    {
        Shader { binds: ShaderReflect::new(source), layouts: Vec::new() }
    }

    /// Wraps already-encoded shader source bytes.
    pub fn from_bytes(source: Vec<u8>) -> (r: Shader)
        ensures
            r.source_spec() == source@,
            r.bindings_views() == Seq::<BindingView>::empty(),
    {
        Shader { binds: ShaderReflect::from_bytes(source), layouts: Vec::new() }
    }

    /// Reflects the source and derives the bind group layouts; reports the
    /// first unknown address-space keyword instead.
    pub fn generate_bindings(&mut self) -> (r: Result<(), ReflectError>)
        ensures
            final(self).source_spec() == old(self).source_spec(),
            match crate::reflect::scan_source_spec(old(self).source_spec()) {
                Ok(recs) => r is Ok && final(self).wf() && final(self).table() == table_of(recs),
                Err(space) => (r matches Err(ReflectError::UnknownBindingType { space: v }) && v@
                    == space) && final(self).bindings_seq() == old(self).bindings_seq(),
            },
    {
        let res = self.binds.reflect();
        match res {
            Ok(()) => {
                self.layouts = build_layouts(self.binds.get_bindings());
                Ok(())
            },
            Err(e) => Err(e),
        }
    }

    /// The reflected binding records, one per name.
    pub fn get_bindings(&self) -> (r: &Vec<Binding>)
        ensures
            r@ == self.bindings_seq(),
    {
        self.binds.get_bindings()
    }

    /// The shader source bytes, for the host to compile.
    pub fn get_source(&self) -> (r: &Vec<u8>)
        ensures
            r@ == self.source_spec(),
    {
        self.binds.get_source()
    }

    /// Looks a binding index up by variable name.
    pub fn get_binding_by_name(&self, name: &[u8]) -> (r: Option<u32>)
        requires
            names_unique(self.bindings_views()),
        ensures
            match r {
                Some(b) => self.table().dom().contains(name@) && b == self.table()[name@].binding,
                None => !self.table().dom().contains(name@),
            },
    {
        match crate::reflect::find_binding(self.binds.get_bindings(), name) {
            Some(b) => Some(b.get_binding()),
            None => None,
        }
    }

    /// The layout of one group, if the shader declares anything in it.
    pub fn get_bind_group_layout(&self, group: u32) -> (r: Option<&BindGroupLayout>)
        ensures
            match r {
                Some(l) => l@.group == group && exists|k: int|
                    0 <= k < self.layouts_spec().len() && #[trigger] self.layouts_spec()[k] == l@,
                None => forall|k: int|
                    0 <= k < self.layouts_spec().len() ==> (#[trigger] self.layouts_spec()[k]).group
                        != group,
            },
    {
        let n = self.layouts.len();
        let mut k: usize = 0;
        while k < n
            invariant
                k <= n,
                n == self.layouts@.len(),
                forall|j: int| 0 <= j < k ==> (#[trigger] self.layouts_spec()[j]).group != group,
            decreases n - k,
        {
            if self.layouts[k].group == group {
                proof {
                    assert(self.layouts_spec()[k as int] == self.layouts@[k as int]@);
                }
                return Some(&self.layouts[k]);
            }
            proof {
                assert(self.layouts_spec()[k as int] == self.layouts@[k as int]@);
            }
            k = k + 1;
        }
        None
    }

    /// All bind group layouts, ordered by ascending group index.
    pub fn get_bind_group_layouts(&self) -> (r: &Vec<BindGroupLayout>)
        ensures
            bg_layout_views(r@) == self.layouts_spec(),
    {
        &self.layouts
    }
}

} // verus!
