//! Gaussian splats: a set of oriented, scaled, coloured points with named
//! attributes and groups. Float values are held as their IEEE-754 bit patterns.

use vstd::prelude::*;
use crate::attributes::{AttributeDomain, AttributeError, AttributeRef, AttributeStorage, AttributeType, MeshAttributes,
    storage_len, storage_type, views};
use crate::attribute_values::{StorageValues, storage_values, copy_values};
use crate::mesh_groups::MeshGroups;
use crate::text::{text_eq, chars_of, trim_chars, trimmed, string_from_chars, owned};
use crate::text_map::TextMap;
use crate::params::NodeParams;
use crate::groups::{group_tokens, has_positive, select_names, selected_groups, mask_bit, build_group_mask,
    group_expr_matches, expr_names_group};
use crate::glob::glob_text;
use crate::mesh_copy::{copy_group_table, same_group_table};
use crate::nodes::attribute_utils::{ref_values, filled};
use crate::nodes::group_utils::{GROUP_PARAM, GROUP_TYPE_PARAM, GroupType, group_type_of, group_type_from_params,
    any_set, mask_has_any};

verus! {

/// A set of Gaussian splats. Each splat has a position, a rotation (a quaternion),
/// per-axis scales, an opacity and a base colour (`sh0`), and `sh_coeffs` further
/// spherical-harmonic coefficients in `sh_rest`.
#[derive(Debug)]
pub struct SplatGeo {
    pub positions: Vec<[u32; 3]>,
    pub rotations: Vec<[u32; 4]>,
    pub scales: Vec<[u32; 3]>,
    pub opacity: Vec<u32>,
    pub sh0: Vec<[u32; 3]>,
    pub sh_coeffs: usize,
    pub sh_rest: Vec<[u32; 3]>,
    pub attributes: MeshAttributes,
    pub groups: MeshGroups,
}

impl SplatGeo {
    /// The attribute tables and groups are well formed.
    pub open spec fn wf(&self) -> bool {
        self.attributes.wf() && self.groups.wf()
    }

    /// The number of splats.
    pub open spec fn count(&self) -> nat {
        self.positions@.len()
    }

    /// The number of elements in `domain`: each splat is both a point and a
    /// primitive; there are no corners; there is one detail element.
    pub open spec fn domain_len(&self, domain: AttributeDomain) -> nat {
        match domain {
            AttributeDomain::Point => self.count(),
            AttributeDomain::Primitive => self.count(),
            AttributeDomain::Vertex => 0,
            AttributeDomain::Detail => 1,
        }
    }

    /// No splats, no attributes and no groups.
    pub fn new() -> (r: Self)
        ensures
            r.wf(),
            r.count() == 0,
            r.rotations@.len() == 0 && r.scales@.len() == 0 && r.opacity@.len() == 0 && r.sh0@.len() == 0,
            r.sh_coeffs == 0 && r.sh_rest@.len() == 0,
            forall|d: AttributeDomain| #[trigger] r.attributes.table(d).entries_view().len() == 0,
    {
        SplatGeo {
            positions: Vec::new(),
            rotations: Vec::new(),
            scales: Vec::new(),
            opacity: Vec::new(),
            sh0: Vec::new(),
            sh_coeffs: 0,
            sh_rest: Vec::new(),
            attributes: MeshAttributes::new(),
            groups: MeshGroups::new(),
        }
    }

    /// The number of splats.
    pub fn len(&self) -> (r: usize)
        ensures
            r == self.count(),
    {
        self.positions.len()
    }

    /// Whether there are no splats.
    pub fn is_empty(&self) -> (r: bool)
        ensures
            r == (self.count() == 0),
    {
        self.positions.len() == 0
    }

    /// The number of elements in `domain`.
    pub fn attribute_domain_len(&self, domain: AttributeDomain) -> (n: usize)
        ensures
            n == self.domain_len(domain),
    {
        match domain {
            AttributeDomain::Point => self.positions.len(),
            AttributeDomain::Primitive => self.positions.len(),
            AttributeDomain::Vertex => 0,
            AttributeDomain::Detail => 1,
        }
    }
}

/// Whether the splats hold an attribute `name` in `domain`: positions always,
/// otherwise the attribute tables.
pub open spec fn splat_has_attribute(s: SplatGeo, domain: AttributeDomain, name: Seq<char>) -> bool {
    if name == "P"@ && domain == AttributeDomain::Point {
        true
    } else {
        s.attributes.table(domain)@.contains_key(name)
    }
}

/// The values the splats hold for attribute `name` of `domain`: the positions for
/// `P` on points, otherwise the attribute table's values, if any.
pub open spec fn splat_attribute_values(s: SplatGeo, domain: AttributeDomain, name: Seq<char>) -> Option<StorageValues> {
    if name == "P"@ && domain == AttributeDomain::Point {
        Some(StorageValues::Vec3(s.positions@))
    } else if s.attributes.table(domain)@.contains_key(name) {
        Some(storage_values(s.attributes.table(domain)@[name]))
    } else {
        None
    }
}

/// What `set_attribute` makes of splats: the result and the splats after. A length
/// other than the domain's (unless the domain is empty) is refused; `P` must be a
/// point attribute of three-component values and replaces the positions; anything
/// else is filed in the attribute table of its domain.
pub open spec fn splat_set_outcome(s: SplatGeo, domain: AttributeDomain, name: Seq<char>, storage: AttributeStorage,
    r: Result<(), AttributeError>, after: SplatGeo) -> bool {
    let expected = s.domain_len(domain);
    let actual = storage_len(storage);
    let t = storage_type(storage);
    if expected != 0 && actual != expected {
        r == Err::<(), AttributeError>(AttributeError::InvalidLength { expected: expected as usize, actual: actual as usize }) && after == s
    } else if name == "P"@ && domain == AttributeDomain::Point {
        if t != AttributeType::Vec3 {
            r == Err::<(), AttributeError>(AttributeError::InvalidType { expected: AttributeType::Vec3, actual: t }) && after == s
        } else {
            &&& r is Ok
            &&& storage matches AttributeStorage::Vec3(v) && after == (SplatGeo { positions: v, ..s })
        }
    } else if name == "P"@ {
        r == Err::<(), AttributeError>(AttributeError::InvalidDomain) && after == s
    } else {
        &&& r is Ok
        &&& after.attributes.table(domain)@ == s.attributes.table(domain)@.insert(name, storage)
        &&& forall|d: AttributeDomain| d != domain ==> #[trigger] after.attributes.table(d) == s.attributes.table(d)
        &&& after.positions == s.positions && after.rotations == s.rotations && after.scales == s.scales
        &&& after.opacity == s.opacity && after.sh0 == s.sh0 && after.sh_coeffs == s.sh_coeffs
        &&& after.sh_rest == s.sh_rest && after.groups == s.groups
    }
}

impl SplatGeo {
    /// A view of the attribute `name` of `domain`, if the splats hold one.
    pub fn attribute(&self, domain: AttributeDomain, name: &str) -> (r: Option<AttributeRef<'_>>)
        requires
            self.wf(),
        ensures
            r is Some == splat_has_attribute(*self, domain, name@),
            r matches Some(x) ==> splat_attribute_values(*self, domain, name@) == Some(ref_values(x)),
    {
        if text_eq(name, "P") && domain == AttributeDomain::Point {
            return Some(AttributeRef::Vec3(self.positions.as_slice()));
        }
        match self.attributes.get(domain, name) {
            Some(storage) => {
                let x = storage.as_ref();
                proof {
                    assert(views(x, *storage));
                }
                Some(x)
            },
            None => None,
        }
    }

    /// Stores an attribute, checking it against the splats.
    pub fn set_attribute(&mut self, domain: AttributeDomain, name: String, storage: AttributeStorage) -> (r: Result<(), AttributeError>)
        requires
            old(self).wf(),
        ensures
            final(self).wf(),
            splat_set_outcome(*old(self), domain, name@, storage, r, *final(self)),
    {
        let expected = self.attribute_domain_len(domain);
        let actual = storage.len();
        if expected != 0 && actual != expected {
            return Err(AttributeError::InvalidLength { expected, actual });
        }
        if text_eq(name.as_str(), "P") {
            if domain != AttributeDomain::Point {
                return Err(AttributeError::InvalidDomain);
            }
            return match storage {
                AttributeStorage::Vec3(values) => {
                    self.positions = values;
                    Ok(())
                },
                other => Err(AttributeError::InvalidType { expected: AttributeType::Vec3, actual: other.data_type() }),
            };
        }
        assert(self.attributes.table(domain).wf());
        let ghost old_attrs = self.attributes;
        self.attributes.map_mut(domain).insert(name, storage);
        proof {
            assert forall|d: AttributeDomain| #[trigger] self.attributes.table(d).wf() by {
                if d != domain {
                    assert(old_attrs.table(d).wf());
                }
            }
        }
        Ok(())
    }
}

/// The values of attribute `name` where they are `count` values of the wanted type
/// (taken out by `pick`); otherwise `count` copies of `zero` (at least one).
pub open spec fn existing_or_zeros<T>(found: Option<Seq<T>>, count: usize, zero: T) -> Seq<T> {
    match found {
        Some(v) => if v.len() == count { v } else { Seq::new(if count > 0 { count as nat } else { 1 }, |i: int| zero) },
        None => Seq::new(if count > 0 { count as nat } else { 1 }, |i: int| zero),
    }
}

/// The float values of a value list, if it holds floats.
pub open spec fn float_values(v: Option<StorageValues>) -> Option<Seq<u32>> {
    match v { Some(StorageValues::Float(x)) => Some(x), _ => None }
}

/// The integer values of a value list, if it holds integers.
pub open spec fn int_values(v: Option<StorageValues>) -> Option<Seq<i32>> {
    match v { Some(StorageValues::Int(x)) => Some(x), _ => None }
}

/// The pairs of a value list, if it holds pairs.
pub open spec fn vec2_values(v: Option<StorageValues>) -> Option<Seq<[u32; 2]>> {
    match v { Some(StorageValues::Vec2(x)) => Some(x), _ => None }
}

/// The triples of a value list, if it holds triples.
pub open spec fn vec3_values(v: Option<StorageValues>) -> Option<Seq<[u32; 3]>> {
    match v { Some(StorageValues::Vec3(x)) => Some(x), _ => None }
}

/// The quadruples of a value list, if it holds quadruples.
pub open spec fn vec4_values(v: Option<StorageValues>) -> Option<Seq<[u32; 4]>> {
    match v { Some(StorageValues::Vec4(x)) => Some(x), _ => None }
}

/// The float values of splat attribute `name` where it holds `count` floats;
/// otherwise `count` zeros (at least one).
pub fn existing_float_attr_splats(splats: &SplatGeo, domain: AttributeDomain, name: &str, count: usize) -> (r: Vec<u32>)
    requires
        splats.wf(),
    ensures
        r@ == existing_or_zeros(float_values(splat_attribute_values(*splats, domain, name@)), count, 0u32),
{
    if let Some(AttributeRef::Float(values)) = splats.attribute(domain, name) {
        if values.len() == count {
            return copy_values(values);
        }
    }
    filled(if count > 0 { count } else { 1 }, 0u32)
}

/// The integer values of splat attribute `name` where it holds `count` integers;
/// otherwise `count` zeros (at least one).
pub fn existing_int_attr_splats(splats: &SplatGeo, domain: AttributeDomain, name: &str, count: usize) -> (r: Vec<i32>)
    requires
        splats.wf(),
    ensures
        r@ == existing_or_zeros(int_values(splat_attribute_values(*splats, domain, name@)), count, 0i32),
{
    if let Some(AttributeRef::Int(values)) = splats.attribute(domain, name) {
        if values.len() == count {
            return copy_values(values);
        }
    }
    filled(if count > 0 { count } else { 1 }, 0i32)
}

/// The pairs of splat attribute `name` where it holds `count` pairs; otherwise
/// `count` zero pairs (at least one).
pub fn existing_vec2_attr_splats(splats: &SplatGeo, domain: AttributeDomain, name: &str, count: usize) -> (r: Vec<[u32; 2]>)
    requires
        splats.wf(),
    ensures
        r@ == existing_or_zeros(vec2_values(splat_attribute_values(*splats, domain, name@)), count, [0u32, 0u32]),
{
    if let Some(AttributeRef::Vec2(values)) = splats.attribute(domain, name) {
        if values.len() == count {
            return copy_values(values);
        }
    }
    filled(if count > 0 { count } else { 1 }, [0u32, 0u32])
}

/// The triples of splat attribute `name` where it holds `count` triples; otherwise
/// `count` zero triples (at least one).
pub fn existing_vec3_attr_splats(splats: &SplatGeo, domain: AttributeDomain, name: &str, count: usize) -> (r: Vec<[u32; 3]>)
    requires
        splats.wf(),
    ensures
        r@ == existing_or_zeros(vec3_values(splat_attribute_values(*splats, domain, name@)), count, [0u32, 0u32, 0u32]),
{
    if let Some(AttributeRef::Vec3(values)) = splats.attribute(domain, name) {
        if values.len() == count {
            return copy_values(values);
        }
    }
    filled(if count > 0 { count } else { 1 }, [0u32, 0u32, 0u32])
}

/// The quadruples of splat attribute `name` where it holds `count` quadruples;
/// otherwise `count` zero quadruples (at least one).
pub fn existing_vec4_attr_splats(splats: &SplatGeo, domain: AttributeDomain, name: &str, count: usize) -> (r: Vec<[u32; 4]>)
    requires
        splats.wf(),
    ensures
        r@ == existing_or_zeros(vec4_values(splat_attribute_values(*splats, domain, name@)), count, [0u32, 0u32, 0u32, 0u32]),
{
    if let Some(AttributeRef::Vec4(values)) = splats.attribute(domain, name) {
        if values.len() == count {
            return copy_values(values);
        }
    }
    filled(if count > 0 { count } else { 1 }, [0u32, 0u32, 0u32, 0u32])
}


/// A group table as plain values.
pub open spec fn groups_view(t: TextMap<Vec<bool>>) -> Map<Seq<char>, Seq<bool>> {
    t@.map_values(|v: Vec<bool>| v@)
}

/// The groups of splats used for selection: the group table, with a group
/// `splats` holding every splat added where there are splats and no such group.
pub open spec fn with_intrinsic(t: TextMap<Vec<bool>>, len: nat) -> Map<Seq<char>, Seq<bool>> {
    if len > 0 && !t@.contains_key("splats"@) {
        groups_view(t).insert("splats"@, Seq::new(len, |i: int| true))
    } else {
        groups_view(t)
    }
}

/// The names a group expression selects among the groups `gv`.
pub open spec fn view_selected(gv: Map<Seq<char>, Seq<bool>>, expr: Seq<char>) -> Set<Seq<char>> {
    let tokens = group_tokens(expr);
    let start = if has_positive(tokens) { Set::empty() } else { gv.dom() };
    select_names(gv.dom(), tokens, start)
}

/// The mask over `len` elements of those in some selected group of `len` elements.
pub open spec fn view_mask(gv: Map<Seq<char>, Seq<bool>>, expr: Seq<char>, len: nat) -> Seq<bool> {
    Seq::new(len, |i: int| exists|n: Seq<char>| #[trigger] view_selected(gv, expr).contains(n) && gv.contains_key(n)
        && gv[n].len() == len && gv[n][i])
}

/// Whether a group expression names any of the groups `gv`: false without tokens;
/// with no including token, whether there is any group; otherwise whether an
/// including pattern matches some group name.
pub open spec fn view_names_group(gv: Map<Seq<char>, Seq<bool>>, expr: Seq<char>) -> bool {
    let tokens = group_tokens(expr);
    if tokens.len() == 0 {
        false
    } else if !has_positive(tokens) {
        exists|n: Seq<char>| #[trigger] gv.contains_key(n)
    } else {
        exists|i: int, n: Seq<char>| 0 <= i < tokens.len() && (#[trigger] tokens[i]).0 && #[trigger] gv.contains_key(n)
            && glob_text(tokens[i].1, n)
    }
}

/// The elements of `target` that the node's `group` parameter selects on splats:
/// none (meaning all) when the trimmed expression is empty; for the vertex group
/// type, no splat; otherwise none when the expression has no token, and else the mask
/// of the point (or primitive) groups it selects, the automatic type taking the point
/// groups unless only the primitive groups are named. Carried over to `target`: one
/// element (any splat selected) for the detail domain, no element for corners.
pub open spec fn splat_mask(params: NodeParams, s: SplatGeo, target: AttributeDomain) -> Option<Seq<bool>> {
    let expr = trimmed(params.text_or(GROUP_PARAM@, ""@));
    if expr.len() == 0 {
        None
    } else {
        match target {
            AttributeDomain::Detail => match splat_source_mask(params, s) {
                Some(m) => Some(seq![any_set(m)]),
                None => None,
            },
            AttributeDomain::Vertex => Some(Seq::<bool>::empty()),
            _ => splat_source_mask(params, s),
        }
    }
}

/// The mask over the splats that a non-empty group expression selects (see
/// `splat_mask`).
pub open spec fn splat_source_mask(params: NodeParams, s: SplatGeo) -> Option<Seq<bool>> {
    let expr = trimmed(params.text_or(GROUP_PARAM@, ""@));
    let len = s.count();
    let pg = with_intrinsic(s.groups.table(AttributeDomain::Point), len);
    let qg = with_intrinsic(s.groups.table(AttributeDomain::Primitive), len);
    let gt = group_type_of(params.int_or(GROUP_TYPE_PARAM@, 0));
    if gt == GroupType::Vertex {
        Some(Seq::new(len, |i: int| false))
    } else if group_tokens(expr).len() == 0 {
        None
    } else {
        let gv = if gt == GroupType::Point {
            pg
        } else if gt == GroupType::Primitive {
            qg
        } else if !view_names_group(pg, expr) && view_names_group(qg, expr) {
            qg
        } else {
            pg
        };
        Some(view_mask(gv, expr, len))
    }
}

/// A copy of group table `t` with the group `splats` (every one of `len` splats)
/// added where `len > 0` and `t` has no group of that name.
fn intrinsic_groups(t: &TextMap<Vec<bool>>, len: usize) -> (r: TextMap<Vec<bool>>)
    requires
        t.wf(),
    ensures
        r.wf(),
        groups_view(r) == with_intrinsic(*t, len as nat),
{
    let mut r = copy_group_table(t);
    assert(groups_view(r) =~= groups_view(*t));
    if len > 0 && !r.contains_key("splats") {
        r.insert(owned("splats"), filled(len, true));
        assert(groups_view(r) =~= groups_view(*t).insert("splats"@, Seq::new(len as nat, |i: int| true)));
    }
    r
}

/// Masks and name tests over a table agree with those over its plain values.
proof fn lemma_table_view(r: TextMap<Vec<bool>>, expr: Seq<char>, len: nat)
    requires
        r.wf(),
    ensures
        selected_groups(r@, expr) == view_selected(groups_view(r), expr),
        forall|i: int| 0 <= i < len ==> mask_bit(r@, selected_groups(r@, expr), len as int, i) == #[trigger] view_mask(groups_view(r), expr, len)[i],
        expr_names_group(r, expr) == view_names_group(groups_view(r), expr),
{
    let gv = groups_view(r);
    assert(gv.dom() =~= r@.dom());
    assert(selected_groups(r@, expr) == view_selected(gv, expr));
    let sel = selected_groups(r@, expr);
    assert forall|i: int| 0 <= i < len implies mask_bit(r@, sel, len as int, i) == #[trigger] view_mask(gv, expr, len)[i] by {
        if mask_bit(r@, sel, len as int, i) {
            let n = choose|n: Seq<char>| #[trigger] sel.contains(n) && r@.contains_key(n) && r@[n]@.len() == len && r@[n]@[i];
            assert(gv[n] == r@[n]@);
        }
        if view_mask(gv, expr, len)[i] {
            let n = choose|n: Seq<char>| #[trigger] view_selected(gv, expr).contains(n) && gv.contains_key(n) && gv[n].len() == len && gv[n][i];
            assert(gv[n] == r@[n]@);
            assert(sel.contains(n));
        }
    }
    let tokens = group_tokens(expr);
    if tokens.len() > 0 && !has_positive(tokens) {
        if r.entries_view().len() > 0 {
            crate::text_map::lemma_entry_in_map(r.entries_view(), 0);
            assert(gv.contains_key(r.entries_view()[0].0@));
        }
        if exists|n: Seq<char>| #[trigger] gv.contains_key(n) {
            let n = choose|n: Seq<char>| #[trigger] gv.contains_key(n);
            assert(r@.contains_key(n));
        }
    }
    if tokens.len() > 0 && has_positive(tokens) {
        if expr_names_group(r, expr) {
            let (i, n) = choose|i: int, n: Seq<char>| 0 <= i < tokens.len() && (#[trigger] tokens[i]).0 && #[trigger] r@.contains_key(n)
                && glob_text(tokens[i].1, n);
            assert(gv.contains_key(n));
        }
        if view_names_group(gv, expr) {
            let (i, n) = choose|i: int, n: Seq<char>| 0 <= i < tokens.len() && (#[trigger] tokens[i]).0 && #[trigger] gv.contains_key(n)
                && glob_text(tokens[i].1, n);
            assert(r@.contains_key(n));
        }
    }
}

/// The elements of `target` that the node's `group` parameter selects on the splats.
pub fn splat_group_mask(splats: &SplatGeo, params: &NodeParams, target: AttributeDomain) -> (r: Option<Vec<bool>>)
    requires
        splats.wf(),
        params.values.wf(),
    ensures
        match r {
            Some(m) => splat_mask(*params, *splats, target) == Some(m@),
            None => splat_mask(*params, *splats, target) is None,
        },
{
    let raw = chars_of(params.get_string(GROUP_PARAM, ""));
    let expr_chars = trim_chars(raw.as_slice());
    if expr_chars.len() == 0 {
        return None;
    }
    let expr = string_from_chars(expr_chars.as_slice());
    let group_type = group_type_from_params(params);
    let len = splats.len();
    assert(splats.groups.table(AttributeDomain::Point).wf());
    assert(splats.groups.table(AttributeDomain::Primitive).wf());
    let pg = intrinsic_groups(splats.groups.map(AttributeDomain::Point), len);
    let qg = intrinsic_groups(splats.groups.map(AttributeDomain::Primitive), len);
    proof {
        lemma_table_view(pg, expr@, len as nat);
        lemma_table_view(qg, expr@, len as nat);
    }
    let mask = match group_type {
        GroupType::Vertex => Some(filled(len, false)),
        GroupType::Point => build_group_mask(&pg, expr.as_str(), len),
        GroupType::Primitive => build_group_mask(&qg, expr.as_str(), len),
        GroupType::Auto => {
            if !group_expr_matches(&pg, expr.as_str()) && group_expr_matches(&qg, expr.as_str()) {
                build_group_mask(&qg, expr.as_str(), len)
            } else {
                build_group_mask(&pg, expr.as_str(), len)
            }
        },
    };
    proof {
        let sm = splat_source_mask(*params, *splats);
        if mask is Some {
            assert(mask->Some_0@ =~= sm->Some_0);
        }
        assert(match mask { Some(m) => sm == Some(m@), None => sm is None });
    }
    match target {
        AttributeDomain::Detail => match mask {
            Some(m) => {
                let any = mask_has_any(Some(m.as_slice()));
                let out = vec![any];
                assert(out@ =~= seq![any_set(m@)]);
                Some(out)
            },
            None => None,
        },
        AttributeDomain::Vertex => {
            let out: Vec<bool> = Vec::new();
            assert(out@ =~= Seq::<bool>::empty());
            Some(out)
        },
        _ => mask,
    }
}

} // verus!
