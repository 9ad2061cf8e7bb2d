//! The "Group" node, which creates a named group of elements.

use vstd::prelude::*;
use crate::params::{NodeParams, ParamValue, text_entry, text_param};
use crate::text_map::TextMap;
use crate::graph::NodeDefinition;
use crate::nodes::{geometry_in, geometry_out, geometry_node};
use crate::text::{ascii_lower, char_ascii_lower, chars_of, owned, string_from_chars, trim_chars, trimmed};
use crate::attributes::AttributeDomain;
use crate::mesh::Mesh;
use crate::mesh_copy::{same_group_table, opt_view, same_storage_table};
use crate::mesh_merge::all_wf;
use crate::nodes::require_mesh_input;
use crate::groups::{build_group_mask, group_tokens, mask_bit, selected_groups};

verus! {

/// The node kind's name.
pub const NAME: &'static str = "Group";

/// The definition of the "Group" node: an operator with geometry input "in" and one geometry output.
pub fn definition() -> (def: NodeDefinition)
    ensures
        geometry_node(def, NAME@, "Operators"@, seq!["in"@], seq!["out"@]),
{
    let def = NodeDefinition {
        name: owned(NAME),
        category: owned("Operators"),
        inputs: vec![geometry_in("in")],
        outputs: vec![geometry_out("out")],
    };
    assert(def.inputs@ =~= seq![def.inputs@[0]]);
    assert(def.outputs@ =~= seq![def.outputs@[0]]);
    def
}

/// The message given when no group is named.
pub const NEEDS_NAME: &'static str = "Group requires a group name";

/// The message given when there is no input mesh.
pub const NEEDS_INPUT: &'static str = "Group requires a mesh input";

/// The domain the `domain` parameter picks (default 2): 0 points, 1 vertices,
/// anything else primitives.
pub open spec fn group_node_domain(params: NodeParams) -> AttributeDomain {
    let i = params.int_or("domain"@, 2);
    if i <= 0 {
        AttributeDomain::Point
    } else if i == 1 {
        AttributeDomain::Vertex
    } else {
        AttributeDomain::Primitive
    }
}

/// The domain the `domain` parameter picks.
pub fn domain_param(params: &NodeParams) -> (d: AttributeDomain)
    requires
        params.values.wf(),
    ensures
        d == group_node_domain(*params),
{
    let i = params.get_int("domain", 2);
    if i <= 0 {
        AttributeDomain::Point
    } else if i == 1 {
        AttributeDomain::Vertex
    } else {
        AttributeDomain::Primitive
    }
}

/// Whether two texts are equal when ASCII letters are compared without case.
pub open spec fn eq_ignore_ascii_case(a: Seq<char>, b: Seq<char>) -> bool {
    a.len() == b.len() && forall|i: int| 0 <= i < a.len() ==> ascii_lower(#[trigger] a[i]) == ascii_lower(b[i])
}

/// Whether two texts are equal when ASCII letters are compared without case.
pub fn text_eq_ignore_ascii_case(a: &str, b: &str) -> (r: bool)
    ensures
        r == eq_ignore_ascii_case(a@, b@),
{
    let x = chars_of(a);
    let y = chars_of(b);
    if x.len() != y.len() {
        return false;
    }
    let mut i: usize = 0;
    while i < x.len()
        invariant
            x@ == a@,
            y@ == b@,
            x@.len() == y@.len(),
            0 <= i <= x@.len(),
            forall|k: int| 0 <= k < i ==> ascii_lower(#[trigger] x@[k]) == ascii_lower(y@[k]),
        decreases x@.len() - i,
    {
        if char_ascii_lower(x[i]) != char_ascii_lower(y[i]) {
            assert(ascii_lower(x@[i as int]) != ascii_lower(y@[i as int]));
            return false;
        }
        i = i + 1;
    }
    true
}

/// The mask of the base group expression over `len` elements of `domain`: none
/// when the trimmed expression is empty or has no token.
pub open spec fn base_mask(params: NodeParams, m: Mesh, domain: AttributeDomain, len: nat) -> Option<Seq<bool>> {
    let e = trimmed(params.text_or("base_group"@, ""@));
    let groups = m.groups.table(domain)@;
    if e.len() == 0 || group_tokens(e).len() == 0 {
        None
    } else {
        Some(Seq::new(len, |i: int| mask_bit(groups, selected_groups(groups, e), len as int, i)))
    }
}

/// The new group's flags: for the "group" shape, the base mask (or no member);
/// otherwise the elements inside the shape that the base mask holds (if there is
/// one); all flipped when `invert` is set.
pub open spec fn group_node_mask(params: NodeParams, m: Mesh, inside: Seq<bool>) -> Seq<bool> {
    let domain = group_node_domain(params);
    let len = m.domain_len(domain);
    let base = base_mask(params, m, domain, len);
    let invert = params.bool_or("invert"@, false);
    let by_group = eq_ignore_ascii_case(params.text_or("shape"@, "box"@), "group"@);
    Seq::new(len, |i: int| {
        let v = if by_group {
            base matches Some(b) && b[i]
        } else {
            inside[i] && (base matches Some(b) ==> b[i])
        };
        if invert { !v } else { v }
    })
}

/// Stores a group named by the trimmed `group` parameter in the domain that
/// `domain` picks, given which elements of that domain lie inside the selection
/// shape: see `group_node_mask`. Fails without a group name.
pub fn apply_to_mesh(params: &NodeParams, mesh: &mut Mesh, inside: &[bool]) -> (r: Result<(), String>)
    requires
        params.values.wf(),
        old(mesh).wf(),
        inside@.len() == old(mesh).domain_len(group_node_domain(*params)),
    ensures
        final(mesh).wf(),
        ({
            let name = trimmed(params.text_or("group"@, ""@));
            let d = group_node_domain(*params);
            if name.len() == 0 {
                (r matches Err(msg) && msg@ == NEEDS_NAME@) && *final(mesh) == *old(mesh)
            } else {
                &&& r is Ok
                &&& final(mesh).positions == old(mesh).positions
                &&& final(mesh).indices == old(mesh).indices
                &&& final(mesh).normals == old(mesh).normals
                &&& final(mesh).corner_normals == old(mesh).corner_normals
                &&& final(mesh).uvs == old(mesh).uvs
                &&& final(mesh).attributes == old(mesh).attributes
                &&& forall|g: AttributeDomain| g != d && !(g == AttributeDomain::Detail && d == AttributeDomain::Primitive)
                    ==> #[trigger] final(mesh).groups.table(g) == old(mesh).groups.table(g)
                &&& final(mesh).groups.table(d)@.dom() == old(mesh).groups.table(d)@.dom().insert(name)
                &&& forall|n: Seq<char>| n != name && #[trigger] old(mesh).groups.table(d)@.contains_key(n)
                    ==> final(mesh).groups.table(d)@[n] == old(mesh).groups.table(d)@[n]
                &&& final(mesh).groups.table(d)@[name]@ == group_node_mask(*params, *old(mesh), inside@)
            }
        }),
{
    let raw_name = chars_of(params.get_string("group", ""));
    let name_chars = trim_chars(raw_name.as_slice());
    if name_chars.len() == 0 {
        return Err(owned(NEEDS_NAME));
    }
    let domain = domain_param(params);
    let by_group = text_eq_ignore_ascii_case(params.get_string("shape", "box"), "group");
    let invert = params.get_bool("invert", false);
    let raw_base = chars_of(params.get_string("base_group", ""));
    let base_chars = trim_chars(raw_base.as_slice());
    let len = mesh.attribute_domain_len(domain);
    assert(mesh.groups.table(domain).wf());
    let base = if base_chars.len() == 0 {
        None
    } else {
        let base_expr = string_from_chars(base_chars.as_slice());
        build_group_mask(mesh.groups.map(domain), base_expr.as_str(), len)
    };
    let ghost old_mesh = *mesh;
    let ghost expected = group_node_mask(*params, old_mesh, inside@);
    proof {
        let bm = base_mask(*params, old_mesh, domain, len as nat);
        assert(base matches Some(b) ==> bm == Some(b@)) by {
            if base is Some {
                assert(bm.unwrap() =~= base.unwrap()@);
            }
        }
        assert(base is None ==> bm is None);
    }
    let mut mask: Vec<bool> = Vec::new();
    let mut i: usize = 0;
    while i < len
        invariant
            len == old_mesh.domain_len(domain),
            domain == group_node_domain(*params),
            inside@.len() == len,
            by_group == eq_ignore_ascii_case(params.text_or("shape"@, "box"@), "group"@),
            invert == params.bool_or("invert"@, false),
            base matches Some(b) ==> base_mask(*params, old_mesh, domain, len as nat) == Some(b@),
            base is None ==> base_mask(*params, old_mesh, domain, len as nat) is None,
            base matches Some(b) ==> b@.len() == len,
            expected == group_node_mask(*params, old_mesh, inside@),
            0 <= i <= len,
            mask@.len() == i,
            forall|k: int| 0 <= k < i ==> #[trigger] mask@[k] == expected[k],
        decreases len - i,
    {
        let v = if by_group {
            match &base {
                Some(b) => b[i],
                None => false,
            }
        } else {
            match &base {
                Some(b) => inside[i] && b[i],
                None => inside[i],
            }
        };
        mask.push(if invert { !v } else { v });
        i = i + 1;
    }
    assert(mask@ =~= expected);
    let name = string_from_chars(name_chars.as_slice());
    let table = mesh.groups.map_mut(domain);
    table.insert(name, mask);
    proof {
        assert(mesh.groups.table(domain)@.dom() =~= old_mesh.groups.table(domain)@.dom().insert(name_chars@));
    }
    Ok(())
}

/// The Group node on a copy of the first input mesh, given which elements of the
/// picked domain lie inside the selection shape.
pub fn compute(params: &NodeParams, inputs: &[Mesh], inside: &[bool]) -> (r: Result<Mesh, String>)
    requires
        params.values.wf(),
        all_wf(inputs@),
        inputs@.len() > 0 ==> inside@.len() == inputs@[0].domain_len(group_node_domain(*params)),
    ensures
        inputs@.len() == 0 ==> (r matches Err(msg) && msg@ == NEEDS_INPUT@),
        inputs@.len() > 0 && trimmed(params.text_or("group"@, ""@)).len() == 0 ==> (r matches Err(msg) && msg@ == NEEDS_NAME@),
        inputs@.len() > 0 && trimmed(params.text_or("group"@, ""@)).len() > 0 ==> (r matches Ok(out) && out.wf() && ({
            let name = trimmed(params.text_or("group"@, ""@));
            let d = group_node_domain(*params);
            let m = inputs@[0];
            &&& out.positions@ == m.positions@
            &&& out.indices@ == m.indices@
            &&& opt_view(out.normals) == opt_view(m.normals)
            &&& opt_view(out.corner_normals) == opt_view(m.corner_normals)
            &&& opt_view(out.uvs) == opt_view(m.uvs)
            &&& forall|g: AttributeDomain| #[trigger] same_storage_table(out.attributes.table(g), m.attributes.table(g))
            &&& forall|g: AttributeDomain| g != d && !(g == AttributeDomain::Detail && d == AttributeDomain::Primitive)
                ==> #[trigger] same_group_table(out.groups.table(g), m.groups.table(g))
            &&& out.groups.table(d)@.dom() == m.groups.table(d)@.dom().insert(name)
            &&& forall|n: Seq<char>| n != name && #[trigger] m.groups.table(d)@.contains_key(n)
                ==> out.groups.table(d)@[n]@ == m.groups.table(d)@[n]@
            &&& out.groups.table(d)@[name]@ == group_node_mask(*params, m, inside@)
        })),
{
    let mut input = match require_mesh_input(inputs, 0, NEEDS_INPUT) {
        Ok(m) => m,
        Err(msg) => {
            return Err(msg);
        },
    };
    let ghost copy = input;
    let r = apply_to_mesh(params, &mut input, inside);
    proof {
        let m = inputs@[0];
        let d = group_node_domain(*params);
        assert(same_group_table(copy.groups.table(d), m.groups.table(d)));
        assert(group_node_mask(*params, copy, inside@) == group_node_mask(*params, m, inside@)) by {
            let len = m.domain_len(d);
            let gc = copy.groups.table(d)@;
            let gm = m.groups.table(d)@;
            let e = trimmed(params.text_or("base_group"@, ""@));
            assert(gc.dom() == gm.dom());
            assert(selected_groups(gc, e) == selected_groups(gm, e));
            let sel = selected_groups(gc, e);
            assert forall|i: int| 0 <= i < len implies mask_bit(gc, sel, len as int, i) == mask_bit(gm, sel, len as int, i) by {
                if mask_bit(gc, sel, len as int, i) {
                    let n = choose|n: Seq<char>| #[trigger] sel.contains(n) && gc.contains_key(n) && gc[n]@.len() == len && gc[n]@[i];
                    assert(gm.contains_key(n) && gm[n]@ == gc[n]@);
                }
                if mask_bit(gm, sel, len as int, i) {
                    let n = choose|n: Seq<char>| #[trigger] sel.contains(n) && gm.contains_key(n) && gm[n]@.len() == len && gm[n]@[i];
                    assert(gc.contains_key(n));
                    assert(gm[n]@ == gc[n]@);
                }
            }
            assert(base_mask(*params, copy, d, len) =~~= base_mask(*params, m, d, len));
            assert(group_node_mask(*params, copy, inside@) =~= group_node_mask(*params, m, inside@));
        }
        if trimmed(params.text_or("group"@, ""@)).len() > 0 {
            let name = trimmed(params.text_or("group"@, ""@));
            assert forall|g: AttributeDomain| #[trigger] same_storage_table(input.attributes.table(g), m.attributes.table(g)) by {
                assert(same_storage_table(copy.attributes.table(g), m.attributes.table(g)));
            }
            assert forall|g: AttributeDomain| g != d && !(g == AttributeDomain::Detail && d == AttributeDomain::Primitive)
                implies #[trigger] same_group_table(input.groups.table(g), m.groups.table(g)) by {
                assert(same_group_table(copy.groups.table(g), m.groups.table(g)));
            }
            assert forall|n: Seq<char>| n != name && #[trigger] m.groups.table(d)@.contains_key(n)
                implies input.groups.table(d)@[n]@ == m.groups.table(d)@[n]@ by {
                assert(copy.groups.table(d)@.dom().contains(n));
            }
        }
    }
    match r {
        Ok(()) => Ok(input),
        Err(msg) => Err(msg),
    }
}

/// The parameters a new "Group" node starts with (floats held as their bit patterns): group "group1", domain 2, shape "box", invert false, base_group "", center (0.0, 0.0, 0.0), size (1.0, 1.0, 1.0), radius 1.0, plane_origin (0.0, 0.0, 0.0), plane_normal (0.0, 1.0, 0.0).
pub fn default_params() -> (params: NodeParams)
    ensures
        params.values.wf(),
        params.values@.dom() == set!["group"@, "domain"@, "shape"@, "invert"@, "base_group"@, "center"@, "size"@, "radius"@, "plane_origin"@, "plane_normal"@],
        text_entry(params.values@, "group"@, "group1"@),
        params.values@["domain"@] == ParamValue::Int(2),
        text_entry(params.values@, "shape"@, "box"@),
        params.values@["invert"@] == ParamValue::Bool(false),
        text_entry(params.values@, "base_group"@, ""@),
        params.values@["center"@] == ParamValue::Vec3([0x00000000, 0x00000000, 0x00000000]),
        params.values@["size"@] == ParamValue::Vec3([0x3f800000, 0x3f800000, 0x3f800000]),
        params.values@["radius"@] == ParamValue::Float(0x3f800000),
        params.values@["plane_origin"@] == ParamValue::Vec3([0x00000000, 0x00000000, 0x00000000]),
        params.values@["plane_normal"@] == ParamValue::Vec3([0x00000000, 0x3f800000, 0x00000000]),
{
    proof {
        reveal_strlit("group");
        reveal_strlit("domain");
        reveal_strlit("shape");
        reveal_strlit("invert");
        reveal_strlit("base_group");
        reveal_strlit("center");
        reveal_strlit("size");
        reveal_strlit("radius");
        reveal_strlit("plane_origin");
        reveal_strlit("plane_normal");
        assert("group"@.len() == 5 && "group"@[0] == 'g');
        assert("domain"@.len() == 6 && "domain"@[0] == 'd');
        assert("shape"@.len() == 5 && "shape"@[0] == 's');
        assert("invert"@.len() == 6 && "invert"@[0] == 'i');
        assert("base_group"@.len() == 10 && "base_group"@[0] == 'b');
        assert("center"@.len() == 6 && "center"@[0] == 'c');
        assert("size"@.len() == 4 && "size"@[0] == 's');
        assert("radius"@.len() == 6 && "radius"@[0] == 'r');
        assert("plane_origin"@.len() == 12 && "plane_origin"@[0] == 'p');
        assert("plane_normal"@.len() == 12 && "plane_normal"@[0] == 'p');
        assert("plane_origin"@[6] != "plane_normal"@[6]);
    }
    let mut values: TextMap<ParamValue> = TextMap::new();
    values.insert(owned("group"), text_param("group1"));
    values.insert(owned("domain"), ParamValue::Int(2));
    values.insert(owned("shape"), text_param("box"));
    values.insert(owned("invert"), ParamValue::Bool(false));
    values.insert(owned("base_group"), text_param(""));
    values.insert(owned("center"), ParamValue::Vec3([0x00000000, 0x00000000, 0x00000000]));
    values.insert(owned("size"), ParamValue::Vec3([0x3f800000, 0x3f800000, 0x3f800000]));
    values.insert(owned("radius"), ParamValue::Float(0x3f800000));
    values.insert(owned("plane_origin"), ParamValue::Vec3([0x00000000, 0x00000000, 0x00000000]));
    values.insert(owned("plane_normal"), ParamValue::Vec3([0x00000000, 0x3f800000, 0x00000000]));
    NodeParams { values }
}

} // verus!
