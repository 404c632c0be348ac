//! Lightweight shader reflection.
//!
//! Binding declarations are extracted from raw shader source text by two
//! structural patterns, with no full shader parser:
//!
//! * `@group(G) @binding(B) var name: type` declares an opaque resource;
//!   it is a sampler binding if the declared type mentions `sampler`, else
//!   a texture binding;
//! * `@group(G) @binding(B) var<space> name: type` declares a typed value
//!   block, where `space` must be literally `uniform` or `storage`; any
//!   other keyword is an unknown-binding-type error.
//!
//! The recognised grammar is written down as a specification over the
//! source bytes ([`scan_source_spec`]); the scanner is proved to return
//! exactly the binding table that specification describes.

use vstd::prelude::*;
use vstd::string::StringSliceAdditionalSpecFns;

use crate::scan::{
    byte_is_ws, bytes_eq, contains_seq, contains_seq_exec, copy_range, digits_end,
    digits_end_exec, digits_value, is_ws, lit_at, lit_match, parse_u32, skip_ws, skip_ws_exec,
    type_end, type_end_exec, word_end, word_end_exec,
};

verus! {

/// What a binding binds: an opaque texture or its sampler, or a typed
/// uniform or storage block.
#[derive(Copy, Clone, PartialEq, Eq, Structural, Debug)]
pub enum BindingType {
    Texture,
    TextureSampler,
    Uniform,
    Storage,
}

/// One reflected binding declaration: group index, binding index, variable
/// name, and kind.
#[derive(Debug)]
pub struct Binding {
    group: u32,
    binding: u32,
    name: Vec<u8>,
    binding_type: BindingType,
}

/// The mathematical image of a [`Binding`].
pub struct BindingView {
    pub group: u32,
    pub binding: u32,
    pub name: Seq<u8>,
    pub binding_type: BindingType,
}

impl View for Binding {
    type V = BindingView;

    closed spec fn view(&self) -> BindingView {
        BindingView {
            group: self.group,
            binding: self.binding,
            name: self.name@,
            binding_type: self.binding_type,
        }
    }
}

impl Binding {
    /// Builds a binding record.
    pub fn new(group: u32, binding: u32, name: Vec<u8>, binding_type: BindingType) -> (b: Binding)
        ensures
            b@ == (BindingView { group, binding, name: name@, binding_type }),
    {
        Binding { group, binding, name, binding_type }
    }

    /// The group index the binding lives in.
    pub fn get_group(&self) -> (g: u32)
        ensures
            g == self@.group,
    {
        self.group
    }

    /// The binding index within its group.
    pub fn get_binding(&self) -> (b: u32)
        ensures
            b == self@.binding,
    {
        self.binding
    }

    /// The variable name the shader declares the binding under.
    pub fn get_name(&self) -> (n: &Vec<u8>)
        ensures
            n@ == self@.name,
    {
        &self.name
    }

    /// The kind of the binding.
    pub fn get_binding_type(&self) -> (t: BindingType)
        ensures
            t == self@.binding_type,
    {
        self.binding_type
    }

    /// An equal copy of the binding.
    pub fn duplicate(&self) -> (c: Binding)
        ensures
            c@ == self@,
    {
        let name = copy_range(self.name.as_slice(), 0, self.name.len());
        proof {
            assert(name@ =~= self.name@);
        }
        Binding { group: self.group, binding: self.binding, name, binding_type: self.binding_type }
    }
}

/// The bytes of `@group(`.
pub open spec fn kw_group() -> Seq<u8> {
    seq![64u8, 103u8, 114u8, 111u8, 117u8, 112u8, 40u8]
}

/// The bytes of `@binding(`.
pub open spec fn kw_binding() -> Seq<u8> {
    seq![64u8, 98u8, 105u8, 110u8, 100u8, 105u8, 110u8, 103u8, 40u8]
}

/// The bytes of `var`.
pub open spec fn kw_var() -> Seq<u8> {
    seq![118u8, 97u8, 114u8]
}

/// The bytes of `sampler`.
pub open spec fn kw_sampler() -> Seq<u8> {
    seq![115u8, 97u8, 109u8, 112u8, 108u8, 101u8, 114u8]
}

/// The bytes of `uniform`.
pub open spec fn kw_uniform() -> Seq<u8> {
    seq![117u8, 110u8, 105u8, 102u8, 111u8, 114u8, 109u8]
}

/// The bytes of `storage`.
pub open spec fn kw_storage() -> Seq<u8> {
    seq![115u8, 116u8, 111u8, 114u8, 97u8, 103u8, 101u8]
}

/// What one recognised declaration yields: a binding, or the unknown
/// address-space keyword that makes the declaration an error.
pub type DeclResult = Result<BindingView, Seq<u8>>;

/// Recognises one binding declaration starting at position `i`.
///
/// On a match, yields the declaration's outcome and the position scanning
/// resumes at; `None` where no declaration starts at `i`.
pub open spec fn binding_match_at(s: Seq<u8>, i: int) -> Option<(DeclResult, int)> {
    if !lit_at(s, i, kw_group()) {
        None
    } else {
        let g0 = skip_ws(s, i + 7);
        let g1 = digits_end(s, g0);
        if g1 <= g0 {
            None
        } else {
            let p2 = skip_ws(s, g1);
            if !lit_at(s, p2, seq![41u8]) {
                None
            } else {
                let p4 = skip_ws(s, p2 + 1);
                if !lit_at(s, p4, kw_binding()) {
                    None
                } else {
                    let b0 = skip_ws(s, p4 + 9);
                    let b1 = digits_end(s, b0);
                    if b1 <= b0 {
                        None
                    } else {
                        let p6 = skip_ws(s, b1);
                        if !lit_at(s, p6, seq![41u8]) {
                            None
                        } else {
                            let p8 = skip_ws(s, p6 + 1);
                            if !lit_at(s, p8, kw_var()) {
                                None
                            } else {
                                if digits_value(s, g0, g1) > u32::MAX as int || digits_value(
                                    s,
                                    b0,
                                    b1,
                                ) > u32::MAX as int {
                                    None
                                } else {
                                    binding_tail_at(
                                        s,
                                        p8 + 3,
                                        digits_value(s, g0, g1) as u32,
                                        digits_value(s, b0, b1) as u32,
                                    )
                                }
                            }
                        }
                    }
                }
            }
        }
    }
}

/// Recognises what follows the `var` keyword of a declaration whose group
/// and binding indices are already read: either the `<space>` block form or
/// the whitespace-then-name opaque form.
pub open spec fn binding_tail_at(s: Seq<u8>, p9: int, group: u32, binding: u32) -> Option<
    (DeclResult, int),
> {
    let k0 = skip_ws(s, p9);
    if k0 < s.len() && s[k0] == 60 {
        // block form: `<space> name : type`
        let w0 = k0 + 1;
        let w1 = word_end(s, w0);
        if w1 <= w0 {
            None
        } else if !lit_at(s, w1, seq![62u8]) {
            None
        } else {
            let n0 = skip_ws(s, w1 + 1);
            let n1 = word_end(s, n0);
            if n1 <= n0 {
                None
            } else {
                let c0 = skip_ws(s, n1);
                if !lit_at(s, c0, seq![58u8]) {
                    None
                } else {
                    let t1 = word_end(s, skip_ws(s, c0 + 1));
                    let space = s.subrange(w0, w1);
                    let name = s.subrange(n0, n1);
                    if space == kw_uniform() {
                        Some(
                            (
                                Ok(
                                    BindingView {
                                        group,
                                        binding,
                                        name,
                                        binding_type: BindingType::Uniform,
                                    },
                                ),
                                t1,
                            ),
                        )
                    } else if space == kw_storage() {
                        Some(
                            (
                                Ok(
                                    BindingView {
                                        group,
                                        binding,
                                        name,
                                        binding_type: BindingType::Storage,
                                    },
                                ),
                                t1,
                            ),
                        )
                    } else {
                        Some((Err(space), t1))
                    }
                }
            }
        }
    } else if p9 < s.len() && is_ws(s[p9]) {
        // opaque form: whitespace, then `name : type`
        let n0 = k0;
        let n1 = word_end(s, n0);
        if n1 <= n0 {
            None
        } else {
            let c0 = skip_ws(s, n1);
            if !lit_at(s, c0, seq![58u8]) {
                None
            } else {
                let t0 = c0 + 1;
                let t1 = type_end(s, t0);
                if t1 <= t0 {
                    None
                } else {
                    let name = s.subrange(n0, n1);
                    let kind = if contains_seq(s, t0, t1, kw_sampler()) {
                        BindingType::TextureSampler
                    } else {
                        BindingType::Texture
                    };
                    Some((Ok(BindingView { group, binding, name, binding_type: kind }), t1))
                }
            }
        }
    } else {
        None
    }
}

/// Scans the source from position `i` on, collecting every recognised
/// declaration in textual order; an unknown address-space keyword aborts
/// the scan with that keyword.
pub open spec fn scan_from(s: Seq<u8>, i: int) -> Result<Seq<BindingView>, Seq<u8>>
    decreases s.len() - i,
    when 0 <= i <= s.len()
{
    if i >= s.len() {
        Ok(Seq::empty())
    } else {
        match binding_match_at(s, i) {
            None => scan_from(s, i + 1),
            Some((decl, end)) => {
                let next = if end <= i {
                    i + 1
                } else if end >= s.len() {
                    s.len() as int
                } else {
                    end
                };
                match decl {
                    Err(space) => Err(space),
                    Ok(bv) => match scan_from(s, next) {
                        Ok(rest) => Ok(seq![bv] + rest),
                        Err(space) => Err(space),
                    },
                }
            },
        }
    }
}

/// The whole-source scan: every declaration of the source, in order, or
/// the first unknown address-space keyword.
pub open spec fn scan_source_spec(s: Seq<u8>) -> Result<Seq<BindingView>, Seq<u8>> {
    scan_from(s, 0)
}

/// The binding table of a declaration sequence: name-keyed, with a later
/// declaration of a name replacing an earlier one.
pub open spec fn table_of(recs: Seq<BindingView>) -> Map<Seq<u8>, BindingView>
    decreases recs.len(),
{
    if recs.len() == 0 {
        Map::empty()
    } else {
        table_of(recs.drop_last()).insert(recs.last().name, recs.last())
    }
}

/// The views of a sequence of binding records.
pub open spec fn views_of(bs: Seq<Binding>) -> Seq<BindingView> {
    bs.map_values(|b: Binding| b@)
}

/// No two records carry the same name.
pub open spec fn names_unique(bvs: Seq<BindingView>) -> bool {
    forall|i: int, j: int|
        0 <= i < j < bvs.len() ==> (#[trigger] bvs[i]).name != (#[trigger] bvs[j]).name
}

/// Appending a record updates the table at exactly its name.
pub proof fn lemma_table_push(recs: Seq<BindingView>, bv: BindingView)
    ensures
        table_of(recs.push(bv)) == table_of(recs).insert(bv.name, bv),
{
    assert(recs.push(bv).drop_last() =~= recs);
    assert(recs.push(bv).last() == bv);
}

/// Replacing the one record of a name updates the table at exactly that
/// name.
pub proof fn lemma_table_update(recs: Seq<BindingView>, k: int, bv: BindingView)
    requires
        0 <= k < recs.len(),
        recs[k].name == bv.name,
        names_unique(recs),
    ensures
        table_of(recs.update(k, bv)) == table_of(recs).insert(bv.name, bv),
    decreases recs.len(),
{
    if k == recs.len() - 1 {
        assert(recs.update(k, bv).drop_last() =~= recs.drop_last());
        assert(recs.update(k, bv).last() == bv);
        assert(table_of(recs.drop_last()).insert(recs.last().name, recs.last()).insert(
            bv.name,
            bv,
        ) =~= table_of(recs.drop_last()).insert(bv.name, bv));
    } else {
        let last = recs.last();
        assert(recs.update(k, bv).drop_last() =~= recs.drop_last().update(k, bv));
        assert(recs.update(k, bv).last() == last);
        assert(names_unique(recs.drop_last())) by {
            assert(forall|i: int, j: int|
                0 <= i < j < recs.drop_last().len() ==> recs.drop_last()[i] == recs[i]
                    && recs.drop_last()[j] == recs[j]);
        }
        lemma_table_update(recs.drop_last(), k, bv);
        assert(last.name != bv.name) by {
            assert(recs[k].name != recs[recs.len() - 1].name);
        }
        assert(table_of(recs.drop_last()).insert(bv.name, bv).insert(last.name, last)
            =~= table_of(recs.drop_last()).insert(last.name, last).insert(bv.name, bv));
    }
}

/// With unique names, the table maps a record's name to that record.
pub proof fn lemma_table_lookup(recs: Seq<BindingView>, k: int)
    requires
        names_unique(recs),
        0 <= k < recs.len(),
    ensures
        table_of(recs).dom().contains(recs[k].name),
        table_of(recs)[recs[k].name] == recs[k],
    decreases recs.len(),
{
    if k == recs.len() - 1 {
        assert(recs.last() == recs[k]);
    } else {
        assert(names_unique(recs.drop_last())) by {
            assert(forall|i: int, j: int|
                0 <= i < j < recs.drop_last().len() ==> recs.drop_last()[i] == recs[i]
                    && recs.drop_last()[j] == recs[j]);
        }
        assert(recs.drop_last()[k] == recs[k]);
        lemma_table_lookup(recs.drop_last(), k);
        assert(recs[k].name != recs.last().name) by {
            assert(recs[k].name != recs[recs.len() - 1].name);
        }
    }
}

/// A name is in the table exactly when some record carries it.
pub proof fn lemma_table_domain(recs: Seq<BindingView>, name: Seq<u8>)
    ensures
        table_of(recs).dom().contains(name) <==> exists|i: int|
            0 <= i < recs.len() && (#[trigger] recs[i]).name == name,
    decreases recs.len(),
{
    if recs.len() > 0 {
        lemma_table_domain(recs.drop_last(), name);
        if recs.last().name == name {
            assert(recs[recs.len() - 1].name == name);
        } else {
            assert(forall|i: int|
                0 <= i < recs.len() - 1 ==> recs.drop_last()[i] == (#[trigger] recs[i]));
        }
    }
}

/// The unknown-binding-type condition: a typed value declaration whose
/// address-space keyword is neither `uniform` nor `storage`.
#[derive(Debug)]
pub enum ReflectError {
    UnknownBindingType { space: Vec<u8> },
}

fn lit_group() -> (r: Vec<u8>)
    ensures
        r@ == kw_group(),
{
    let v: Vec<u8> = vec![64u8, 103u8, 114u8, 111u8, 117u8, 112u8, 40u8];
    proof {
        assert(v@ =~= kw_group());
    }
    v
}

fn lit_binding() -> (r: Vec<u8>)
    ensures
        r@ == kw_binding(),
{
    let v: Vec<u8> = vec![64u8, 98u8, 105u8, 110u8, 100u8, 105u8, 110u8, 103u8, 40u8];
    proof {
        assert(v@ =~= kw_binding());
    }
    v
}

fn lit_var() -> (r: Vec<u8>)
    ensures
        r@ == kw_var(),
{
    let v: Vec<u8> = vec![118u8, 97u8, 114u8];
    proof {
        assert(v@ =~= kw_var());
    }
    v
}

fn lit_sampler() -> (r: Vec<u8>)
    ensures
        r@ == kw_sampler(),
{
    let v: Vec<u8> = vec![115u8, 97u8, 109u8, 112u8, 108u8, 101u8, 114u8];
    proof {
        assert(v@ =~= kw_sampler());
    }
    v
}

fn lit_uniform() -> (r: Vec<u8>)
    ensures
        r@ == kw_uniform(),
{
    let v: Vec<u8> = vec![117u8, 110u8, 105u8, 102u8, 111u8, 114u8, 109u8];
    proof {
        assert(v@ =~= kw_uniform());
    }
    v
}

fn lit_storage() -> (r: Vec<u8>)
    ensures
        r@ == kw_storage(),
{
    let v: Vec<u8> = vec![115u8, 116u8, 111u8, 114u8, 97u8, 103u8, 101u8];
    proof {
        assert(v@ =~= kw_storage());
    }
    v
}

fn byte_at(s: &[u8], p: usize, b: u8) -> (r: bool)
    ensures
        r == lit_at(s@, p as int, seq![b]),
{
    if p < s.len() && s[p] == b {
        proof {
            assert(s@.subrange(p as int, p + 1) =~= seq![b]);
        }
        true
    } else {
        proof {
            if p < s@.len() {
                assert(s@.subrange(p as int, p + 1)[0] == s@[p as int]);
            }
        }
        false
    }
}

/// One recognised declaration as the executable scanner carries it.
struct MatchHit {
    group: u32,
    binding: u32,
    name: Vec<u8>,
    kind: Result<BindingType, Vec<u8>>,
    end: usize,
}

/// The executable hit reports exactly the declaration the grammar
/// specification yields.
spec fn hit_matches(m: MatchHit, decl: DeclResult, end: int) -> bool {
    &&& m.end == end
    &&& match (m.kind, decl) {
        (Ok(bt), Ok(bv)) => m.group == bv.group && m.binding == bv.binding && m.name@ == bv.name
            && bt == bv.binding_type,
        (Err(kwv), Err(kws)) => kwv@ == kws,
        _ => false,
    }
}

fn try_match_tail(s: &[u8], p9: usize, group: u32, binding: u32) -> (r: Option<MatchHit>)
    requires
        p9 <= s@.len(),
    ensures
        match binding_tail_at(s@, p9 as int, group, binding) {
            None => r is None,
            Some((decl, end)) => r matches Some(m) && hit_matches(m, decl, end),
        },
{
    let slen = s.len();
    let k0 = skip_ws_exec(s, p9);
    if k0 < s.len() && s[k0] == 60 {
        let w0 = k0 + 1;
        let w1 = word_end_exec(s, w0);
        if w1 == w0 {
            return None;
        }
        if !byte_at(s, w1, 62) {
            return None;
        }
        proof {
            assert(w1 + 1 <= slen);
        }
        let n0 = skip_ws_exec(s, w1 + 1);
        let n1 = word_end_exec(s, n0);
        if n1 == n0 {
            return None;
        }
        let c0 = skip_ws_exec(s, n1);
        if !byte_at(s, c0, 58) {
            return None;
        }
        proof {
            assert(c0 + 1 <= slen);
        }
        let t1 = word_end_exec(s, skip_ws_exec(s, c0 + 1));
        let space = copy_range(s, w0, w1);
        let name = copy_range(s, n0, n1);
        let uniform_lit = lit_uniform();
        let storage_lit = lit_storage();
        if bytes_eq(space.as_slice(), uniform_lit.as_slice()) {
            Some(
                MatchHit {
                    group,
                    binding,
                    name,
                    kind: Ok(BindingType::Uniform),
                    end: t1,
                },
            )
        } else if bytes_eq(space.as_slice(), storage_lit.as_slice()) {
            Some(
                MatchHit {
                    group,
                    binding,
                    name,
                    kind: Ok(BindingType::Storage),
                    end: t1,
                },
            )
        } else {
            Some(MatchHit { group, binding, name, kind: Err(space), end: t1 })
        }
    } else if p9 < s.len() && byte_is_ws(s[p9]) {
        let n0 = k0;
        let n1 = word_end_exec(s, n0);
        if n1 == n0 {
            return None;
        }
        let c0 = skip_ws_exec(s, n1);
        if !byte_at(s, c0, 58) {
            return None;
        }
        proof {
            assert(c0 + 1 <= slen);
        }
        let t0 = c0 + 1;
        let t1 = type_end_exec(s, t0);
        if t1 == t0 {
            return None;
        }
        let name = copy_range(s, n0, n1);
        let sampler_lit = lit_sampler();
        let kind = if contains_seq_exec(s, t0, t1, sampler_lit.as_slice()) {
            BindingType::TextureSampler
        } else {
            BindingType::Texture
        };
        Some(MatchHit { group, binding, name, kind: Ok(kind), end: t1 })
    } else {
        None
    }
}

fn try_match(s: &[u8], i: usize) -> (r: Option<MatchHit>)
    requires
        i <= s@.len(),
    ensures
        match binding_match_at(s@, i as int) {
            None => r is None,
            Some((decl, end)) => r matches Some(m) && hit_matches(m, decl, end),
        },
{
    let slen = s.len();
    let group_lit = lit_group();
    if !lit_match(s, i, group_lit.as_slice()) {
        return None;
    }
    proof {
        assert(i + 7 <= slen);
    }
    let g0 = skip_ws_exec(s, i + 7);
    let g1 = digits_end_exec(s, g0);
    if g1 == g0 {
        return None;
    }
    let p2 = skip_ws_exec(s, g1);
    if !byte_at(s, p2, 41) {
        return None;
    }
    proof {
        assert(p2 + 1 <= slen);
    }
    let p4 = skip_ws_exec(s, p2 + 1);
    let binding_lit = lit_binding();
    if !lit_match(s, p4, binding_lit.as_slice()) {
        return None;
    }
    proof {
        assert(p4 + 9 <= slen);
    }
    let b0 = skip_ws_exec(s, p4 + 9);
    let b1 = digits_end_exec(s, b0);
    if b1 == b0 {
        return None;
    }
    let p6 = skip_ws_exec(s, b1);
    if !byte_at(s, p6, 41) {
        return None;
    }
    proof {
        assert(p6 + 1 <= slen);
    }
    let p8 = skip_ws_exec(s, p6 + 1);
    let var_lit = lit_var();
    if !lit_match(s, p8, var_lit.as_slice()) {
        return None;
    }
    proof {
        assert(p8 + 3 <= slen);
    }
    let group = match parse_u32(s, g0, g1) {
        Some(v) => v,
        None => {
            return None;
        },
    };
    let binding = match parse_u32(s, b0, b1) {
        Some(v) => v,
        None => {
            return None;
        },
    };
    try_match_tail(s, p8 + 3, group, binding)
}

/// Inserts a binding into a name-keyed list, replacing the entry of the
/// same name if one is present.
fn upsert(out: &mut Vec<Binding>, b: Binding)
    requires
        names_unique(views_of(old(out)@)),
    ensures
        names_unique(views_of(final(out)@)),
        table_of(views_of(final(out)@)) == table_of(views_of(old(out)@)).insert(b@.name, b@),
{
    let n = out.len();
    let mut k: usize = 0;
    while k < n
        invariant
            k <= n,
            n == out@.len(),
            out@ == old(out)@,
            names_unique(views_of(out@)),
            forall|j: int| 0 <= j < k ==> views_of(out@)[j].name != b@.name,
        decreases n - k,
    {
        if bytes_eq(out[k].name.as_slice(), b.name.as_slice()) {
            proof {
                assert(views_of(out@)[k as int].name == b@.name);
            }
            let ghost pre = views_of(out@);
            out[k] = b;
            proof {
                assert(views_of(out@) =~= pre.update(k as int, views_of(out@)[k as int]));
                lemma_table_update(pre, k as int, views_of(out@)[k as int]);
            }
            return;
        }
        k = k + 1;
    }
    let ghost pre = views_of(out@);
    let ghost bv = b@;
    out.push(b);
    proof {
        assert(views_of(out@) =~= pre.push(bv));
        lemma_table_push(pre, bv);
        assert forall|i: int, j: int|
            0 <= i < j < views_of(out@).len() implies (#[trigger] views_of(out@)[i]).name != (
        #[trigger] views_of(out@)[j]).name by {
            if j < pre.len() {
                assert(views_of(out@)[i] == pre[i]);
                assert(views_of(out@)[j] == pre[j]);
            } else {
                assert(views_of(out@)[j] == bv);
                assert(views_of(out@)[i] == pre[i]);
                assert(pre[i].name != bv.name);
            }
        }
    }
}

/// Scans shader source bytes for binding declarations: returns the binding
/// table the grammar specification describes, or the first unknown
/// address-space keyword.
fn scan_source(src: &[u8]) -> (r: Result<Vec<Binding>, ReflectError>)
    ensures
        match scan_source_spec(src@) {
            Ok(recs) => r matches Ok(bs) && names_unique(views_of(bs@)) && table_of(views_of(bs@))
                == table_of(recs),
            Err(space) => r matches Err(ReflectError::UnknownBindingType { space: v }) && v@
                == space,
        },
{
    let n = src.len();
    let mut out: Vec<Binding> = Vec::new();
    let ghost mut done: Seq<BindingView> = Seq::empty();
    let mut i: usize = 0;
    proof {
        assert(views_of(out@) =~= Seq::<BindingView>::empty());
        assert(table_of(views_of(out@)) =~= table_of(done));
    }
    while i < n
        invariant
            i <= n,
            n == src@.len(),
            match scan_from(src@, i as int) {
                Ok(rest) => scan_from(src@, 0) == Ok::<_, Seq<u8>>(done + rest),
                Err(space) => scan_from(src@, 0) == Err::<Seq<BindingView>, _>(space),
            },
            names_unique(views_of(out@)),
            table_of(views_of(out@)) == table_of(done),
        decreases n - i,
    {
        let m = try_match(src, i);
        match m {
            None => {
                i = i + 1;
            },
            Some(hit) => {
                let end = hit.end;
                let next = if end <= i {
                    i + 1
                } else if end >= n {
                    n
                } else {
                    end
                };
                let MatchHit { group, binding, name, kind, end: _ } = hit;
                match kind {
                    Err(space) => {
                        return Err(ReflectError::UnknownBindingType { space });
                    },
                    Ok(bt) => {
                        let ghost bv = binding_match_at(src@, i as int)->Some_0.0->Ok_0;
                        let b = Binding { group, binding, name, binding_type: bt };
                        proof {
                            assert(b@ == bv);
                            if scan_from(src@, next as int) is Ok {
                                let rest = scan_from(src@, next as int)->Ok_0;
                                assert(scan_from(src@, i as int) == Ok::<_, Seq<u8>>(
                                    seq![bv] + rest,
                                ));
                                assert(done + (seq![bv] + rest) =~= done.push(bv) + rest);
                            }
                            lemma_table_push(done, bv);
                            done = done.push(bv);
                        }
                        upsert(&mut out, b);
                        i = next;
                    },
                }
            },
        }
    }
    proof {
        assert(scan_from(src@, n as int) == Ok::<_, Seq<u8>>(Seq::<BindingView>::empty()));
        assert(done + Seq::<BindingView>::empty() =~= done);
    }
    Ok(out)
}

/// Text-pattern extraction of binding declarations from shader source.
pub struct ShaderReflect {
    source: Vec<u8>,
    bindings: Vec<Binding>,
}

impl ShaderReflect {
    /// The source bytes under reflection.
    pub closed spec fn source_spec(&self) -> Seq<u8> {
        self.source@
    }

    /// The reflected binding records.
    pub closed spec fn bindings_seq(&self) -> Seq<Binding> {
        self.bindings@
    }

    /// The views of the reflected binding records.
    pub open spec fn bindings_views(&self) -> Seq<BindingView> {
        views_of(self.bindings_seq())
    }

    /// The name-keyed binding table.
    pub open spec fn table(&self) -> Map<Seq<u8>, BindingView> {
        table_of(self.bindings_views())
    }

    /// Each reflected name appears once.
    pub open spec fn wf(&self) -> bool {
        names_unique(self.bindings_views())
    }

    /// Wraps shader source text for reflection; no bindings are extracted
    /// until [`ShaderReflect::reflect`] runs.
    pub fn new(source: &str) -> (r: ShaderReflect)
        ensures
            r.source_spec() == source.spec_bytes(),
            r.bindings_views() == Seq::<BindingView>::empty(),
            r.wf(),
    {
        let r = ShaderReflect {
            source: vstd::string::StrSliceExecFns::as_bytes_vec(source),
            bindings: Vec::new(),
        };
        proof {
            assert(r.bindings_views() =~= Seq::<BindingView>::empty());
        }
        r
    }

    /// Wraps already-encoded shader source bytes for reflection.
    pub fn from_bytes(source: Vec<u8>) -> (r: ShaderReflect)
        ensures
            r.source_spec() == source@,
            r.bindings_views() == Seq::<BindingView>::empty(),
            r.wf(),
    {
        let r = ShaderReflect { source, bindings: Vec::new() };
        proof {
            assert(r.bindings_views() =~= Seq::<BindingView>::empty());
        }
        r
    }

    /// Extracts the binding table from the source, or reports the first
    /// unknown address-space keyword; on an error the table is left as it
    /// was.
    pub fn reflect(&mut self) -> (r: Result<(), ReflectError>)
        ensures
            final(self).source_spec() == old(self).source_spec(),
            match scan_source_spec(old(self).source_spec()) {
                Ok(recs) => r is Ok && final(self).wf() && final(self).table() == table_of(recs),
                Err(space) => (r matches Err(ReflectError::UnknownBindingType { space: v }) && v@
                    == space) && final(self).bindings_seq() == old(self).bindings_seq(),
            },
    {
        match scan_source(self.source.as_slice()) {
            Ok(bs) => {
                self.bindings = bs;
                Ok(())
            },
            Err(e) => Err(e),
        }
    }

    /// The reflected binding records, one per name.
    pub fn get_bindings(&self) -> (r: &Vec<Binding>)
        ensures
            r@ == self.bindings_seq(),
    {
        &self.bindings
    }

    /// The source bytes under reflection.
    pub fn get_source(&self) -> (r: &Vec<u8>)
        ensures
            r@ == self.source_spec(),
    {
        &self.source
    }
}

/// Looks the one record of a name up in a name-keyed binding list.
pub fn find_binding<'a>(bs: &'a Vec<Binding>, name: &[u8]) -> (r: Option<&'a Binding>)
    requires
        names_unique(views_of(bs@)),
    ensures
        match r {
            Some(b) => table_of(views_of(bs@)).dom().contains(name@) && b@ == table_of(
                views_of(bs@),
            )[name@],
            None => !table_of(views_of(bs@)).dom().contains(name@),
        },
{
    let n = bs.len();
    let mut k: usize = 0;
    while k < n
        invariant
            k <= n,
            n == bs@.len(),
            names_unique(views_of(bs@)),
            forall|j: int| 0 <= j < k ==> (#[trigger] views_of(bs@)[j]).name != name@,
        decreases n - k,
    {
        if bytes_eq(bs[k].name.as_slice(), name) {
            proof {
                assert(views_of(bs@)[k as int].name == name@);
                lemma_table_lookup(views_of(bs@), k as int);
            }
            return Some(&bs[k]);
        }
        proof {
            assert(views_of(bs@)[k as int] == bs@[k as int]@);
        }
        k = k + 1;
    }
    proof {
        lemma_table_domain(views_of(bs@), name@);
    }
    None
}

/// Copies a binding list; the copy has the same views.
pub fn clone_bindings(bs: &Vec<Binding>) -> (r: Vec<Binding>)
    ensures
        views_of(r@) == views_of(bs@),
{
    let mut out: Vec<Binding> = Vec::new();
    let n = bs.len();
    let mut k: usize = 0;
    while k < n
        invariant
            k <= n,
            n == bs@.len(),
            out@.len() == k,
            forall|j: int| 0 <= j < k ==> (#[trigger] out@[j])@ == bs@[j]@,
        decreases n - k,
    {
        out.push(bs[k].duplicate());
        k = k + 1;
    }
    proof {
        assert forall|j: int| 0 <= j < views_of(out@).len() implies views_of(out@)[j] == views_of(
            bs@,
        )[j] by {
            assert((out@[j])@ == (bs@[j])@);
        }
        assert(views_of(out@) =~= views_of(bs@));
    }
    out
}

} // verus!
