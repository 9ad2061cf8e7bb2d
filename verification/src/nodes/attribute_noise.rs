//! The "Attribute Noise" node, which writes noise into an attribute.

use vstd::prelude::*;
use crate::params::{NodeParams, ParamValue, text_entry, text_param};
use crate::text_map::TextMap;
use crate::graph::NodeDefinition;
use crate::nodes::{geometry_in, geometry_out, geometry_node};
use crate::text::{owned, trimmed};
use crate::attributes::{AttributeDomain, AttributeError, AttributeStorage, attribute_error_message, error_text};
use crate::attribute_values::{StorageValues, copy_values};
use crate::mesh::{Mesh, set_outcome};
use crate::splat::{SplatGeo, splat_set_outcome, splat_attribute_values, splat_mask, splat_group_mask,
    existing_float_attr_splats, existing_vec2_attr_splats, existing_vec3_attr_splats};
use crate::groups::group_tokens;
use crate::topology::{MeshTopology, mask_at, lemma_unsized_corners_fit};
use crate::nodes::attribute_utils::{domain_from_params, domain_of_index, attribute_values, existing_float_attr_mesh,
    existing_vec2_attr_mesh, existing_vec3_attr_mesh};
use crate::nodes::group_utils::{GROUP_PARAM, GROUP_TYPE_PARAM, group_domain, group_type_of, group_mask, mapped_mask_in,
    mesh_group_mask, mask_has_any, any_set};

verus! {

/// The node kind's name.
pub const NAME: &'static str = "Attribute Noise";

/// The definition of the "Attribute Noise" node: an operator with geometry input "in" and one geometry output.
pub fn definition() -> (def: NodeDefinition)
    ensures
        geometry_node(def, NAME@, "Operators"@, seq!["in"@], seq!["out"@]),
{
    let def = NodeDefinition {
        name: owned(NAME),
        category: owned("Operators"),
        inputs: vec![geometry_in("in")],
        outputs: vec![geometry_out("out")],
    };
    assert(def.inputs@ =~= seq![def.inputs@[0]]);
    assert(def.outputs@ =~= seq![def.outputs@[0]]);
    def
}

/// The parameters a new "Attribute Noise" node starts with (floats held as their bit patterns): attr "P", domain 0, data_type 2, noise_type 0, fractal_type 1, octaves 3, lacunarity 2.0, roughness 0.5, amplitude 0.5, frequency 1.0, offset (0.0, 0.0, 0.0), seed 1, flow_rotation 0.0, distortion 0.0, group "", group_type 0.
pub fn default_params() -> (params: NodeParams)
    ensures
        params.values.wf(),
        params.values@.dom() == set!["attr"@, "domain"@, "data_type"@, "noise_type"@, "fractal_type"@, "octaves"@, "lacunarity"@, "roughness"@, "amplitude"@, "frequency"@, "offset"@, "seed"@, "flow_rotation"@, "distortion"@, "group"@, "group_type"@],
        text_entry(params.values@, "attr"@, "P"@),
        params.values@["domain"@] == ParamValue::Int(0),
        params.values@["data_type"@] == ParamValue::Int(2),
        params.values@["noise_type"@] == ParamValue::Int(0),
        params.values@["fractal_type"@] == ParamValue::Int(1),
        params.values@["octaves"@] == ParamValue::Int(3),
        params.values@["lacunarity"@] == ParamValue::Float(0x40000000),
        params.values@["roughness"@] == ParamValue::Float(0x3f000000),
        params.values@["amplitude"@] == ParamValue::Float(0x3f000000),
        params.values@["frequency"@] == ParamValue::Float(0x3f800000),
        params.values@["offset"@] == ParamValue::Vec3([0x00000000, 0x00000000, 0x00000000]),
        params.values@["seed"@] == ParamValue::Int(1),
        params.values@["flow_rotation"@] == ParamValue::Float(0x00000000),
        params.values@["distortion"@] == ParamValue::Float(0x00000000),
        text_entry(params.values@, "group"@, ""@),
        params.values@["group_type"@] == ParamValue::Int(0),
{
    proof {
        reveal_strlit("attr");
        reveal_strlit("domain");
        reveal_strlit("data_type");
        reveal_strlit("noise_type");
        reveal_strlit("fractal_type");
        reveal_strlit("octaves");
        reveal_strlit("lacunarity");
        reveal_strlit("roughness");
        reveal_strlit("amplitude");
        reveal_strlit("frequency");
        reveal_strlit("offset");
        reveal_strlit("seed");
        reveal_strlit("flow_rotation");
        reveal_strlit("distortion");
        reveal_strlit("group");
        reveal_strlit("group_type");
        assert("attr"@.len() == 4 && "attr"@[0] == 'a');
        assert("domain"@.len() == 6 && "domain"@[0] == 'd');
        assert("data_type"@.len() == 9 && "data_type"@[0] == 'd');
        assert("noise_type"@.len() == 10 && "noise_type"@[0] == 'n');
        assert("fractal_type"@.len() == 12 && "fractal_type"@[0] == 'f');
        assert("octaves"@.len() == 7 && "octaves"@[0] == 'o');
        assert("lacunarity"@.len() == 10 && "lacunarity"@[0] == 'l');
        assert("roughness"@.len() == 9 && "roughness"@[0] == 'r');
        assert("amplitude"@.len() == 9 && "amplitude"@[0] == 'a');
        assert("frequency"@.len() == 9 && "frequency"@[0] == 'f');
        assert("offset"@.len() == 6 && "offset"@[0] == 'o');
        assert("seed"@.len() == 4 && "seed"@[0] == 's');
        assert("flow_rotation"@.len() == 13 && "flow_rotation"@[0] == 'f');
        assert("distortion"@.len() == 10 && "distortion"@[0] == 'd');
        assert("group"@.len() == 5 && "group"@[0] == 'g');
        assert("group_type"@.len() == 10 && "group_type"@[0] == 'g');
    }
    let mut values: TextMap<ParamValue> = TextMap::new();
    values.insert(owned("attr"), text_param("P"));
    values.insert(owned("domain"), ParamValue::Int(0));
    values.insert(owned("data_type"), ParamValue::Int(2));
    values.insert(owned("noise_type"), ParamValue::Int(0));
    values.insert(owned("fractal_type"), ParamValue::Int(1));
    values.insert(owned("octaves"), ParamValue::Int(3));
    values.insert(owned("lacunarity"), ParamValue::Float(0x40000000));
    values.insert(owned("roughness"), ParamValue::Float(0x3f000000));
    values.insert(owned("amplitude"), ParamValue::Float(0x3f000000));
    values.insert(owned("frequency"), ParamValue::Float(0x3f800000));
    values.insert(owned("offset"), ParamValue::Vec3([0x00000000, 0x00000000, 0x00000000]));
    values.insert(owned("seed"), ParamValue::Int(1));
    values.insert(owned("flow_rotation"), ParamValue::Float(0x00000000));
    values.insert(owned("distortion"), ParamValue::Float(0x00000000));
    values.insert(owned("group"), text_param(""));
    values.insert(owned("group_type"), ParamValue::Int(0));
    NodeParams { values }
}


/// The group mask the node works under in domain `target`: none when the group
/// expression is empty or has no token; otherwise the mask of the groups it selects
/// in the domain that `group_type` picks, carried over to `target`.
pub open spec fn node_group_mask(params: NodeParams, m: Mesh, target: AttributeDomain) -> Option<Seq<bool>> {
    let expr = trimmed(params.text_or(GROUP_PARAM@, ""@));
    let source = group_domain(m.groups, expr, group_type_of(params.int_or(GROUP_TYPE_PARAM@, 0)));
    if expr.len() == 0 || group_tokens(expr).len() == 0 {
        None
    } else {
        Some(mapped_mask_in(m.positions@.len(), m.indices@, m.faces(), source, target,
            group_mask(m.groups, source, expr, m.domain_len(source))))
    }
}

/// Whether element `i` is worked on: every element without a mask, the elements the
/// mask holds otherwise.
pub open spec fn mask_selects(mask: Option<Seq<bool>>, i: int) -> bool {
    mask is None || mask_at(mask.unwrap(), i)
}

/// The values a noise result starts from: the attribute's values where it holds
/// `count` values of the wanted type, zeros (at least one) otherwise.
pub open spec fn start_values<T>(existing: Option<Seq<T>>, count: nat, zero: T) -> Seq<T> {
    match existing {
        Some(v) => if v.len() == count { v } else { Seq::new(if count > 0 { count } else { 1 }, |i: int| zero) },
        None => Seq::new(if count > 0 { count } else { 1 }, |i: int| zero),
    }
}

/// The existing values of an attribute, where it holds floats.
pub open spec fn floats_of(v: Option<StorageValues>) -> Option<Seq<u32>> {
    match v { Some(StorageValues::Float(x)) => Some(x), _ => None }
}

/// The existing values of an attribute, where it holds pairs.
pub open spec fn pairs_of(v: Option<StorageValues>) -> Option<Seq<[u32; 2]>> {
    match v { Some(StorageValues::Vec2(x)) => Some(x), _ => None }
}

/// The existing values of an attribute, where it holds triples.
pub open spec fn triples_of(v: Option<StorageValues>) -> Option<Seq<[u32; 3]>> {
    match v { Some(StorageValues::Vec3(x)) => Some(x), _ => None }
}

/// `f(i, v)` for each value `v` at position `i` that the mask holds, `v` elsewhere.
pub fn masked_update_indexed<T: Copy, F: Fn(usize, T) -> T>(values: &[T], mask: Option<&[bool]>, f: F) -> (out: Vec<T>)
    requires
        forall|i: int| 0 <= i < values@.len() && mask_selects(opt_bools(mask), i) ==> call_requires(f, (i as usize, values@[i])),
    ensures
        out@.len() == values@.len(),
        forall|i: int| 0 <= i < values@.len() ==> if mask_selects(opt_bools(mask), i) {
            call_ensures(f, (i as usize, values@[i]), #[trigger] out@[i])
        } else {
            out@[i] == values@[i]
        },
{
    let mut out: Vec<T> = Vec::new();
    let mut i: usize = 0;
    while i < values.len()
        invariant
            0 <= i <= values@.len(),
            out@.len() == i,
            forall|k: int| 0 <= k < values@.len() && mask_selects(opt_bools(mask), k) ==> call_requires(f, (k as usize, values@[k])),
            forall|k: int| 0 <= k < i ==> if mask_selects(opt_bools(mask), k) {
                call_ensures(f, (k as usize, values@[k]), #[trigger] out@[k])
            } else {
                out@[k] == values@[k]
            },
        decreases values@.len() - i,
    {
        let selected = match mask {
            Some(m) => i < m.len() && m[i],
            None => true,
        };
        if selected {
            assert(mask_selects(opt_bools(mask), i as int));
            assert(call_requires(f, ((i as int) as usize, values@[i as int])));
            out.push(f(i, values[i]));
        } else {
            out.push(values[i]);
        }
        i = i + 1;
    }
    out
}

/// The bools of an optional mask.
pub open spec fn opt_bools(o: Option<&[bool]>) -> Option<Seq<bool>> {
    match o {
        Some(s) => Some(s@),
        None => None,
    }
}

/// The result values of the noise: for each start value at a position the mask holds,
/// a value that `f` gives for that position and value; the start value elsewhere.
pub open spec fn masked_results<T, F: Fn(usize, T) -> T>(start: Seq<T>, mask: Option<Seq<bool>>, f: F, out: Seq<T>) -> bool {
    &&& out.len() == start.len()
    &&& forall|i: int| 0 <= i < start.len() ==> if mask_selects(mask, i) {
        call_ensures(f, (i as usize, start[i]), #[trigger] out[i])
    } else {
        out[i] == start[i]
    }
}

/// The message for a refused attribute.
pub open spec fn noise_error(e: AttributeError) -> Seq<char> {
    "Attribute Noise error: "@ + error_text(e)
}

/// Adds noise to attribute `attr` of the mesh, as the node does; the noise itself (at
/// the sample position of an element, scaled by the amplitude) is what `f1`, `f2` and
/// `f3` add to a float, pair or triple value at a position. Nothing changes when the
/// domain is empty (but for the detail domain) or the group mask selects nothing.
/// Otherwise the attribute's values (or zeros) are masked_results where the mask holds and
/// stored; an error from storing them is the result. The result says whether the
/// points moved, so that their normals are to be computed again.
pub fn apply_to_mesh_with<F1, F2, F3>(params: &NodeParams, mesh: &mut Mesh, f1: F1, f2: F2, f3: F3) -> (r: Result<bool, String>)
    where
        F1: Fn(usize, u32) -> u32,
        F2: Fn(usize, [u32; 2]) -> [u32; 2],
        F3: Fn(usize, [u32; 3]) -> [u32; 3],
    requires
        params.values.wf(),
        old(mesh).wf(),
        forall|i: usize, v: u32| call_requires(f1, (i, v)),
        forall|i: usize, v: [u32; 2]| call_requires(f2, (i, v)),
        forall|i: usize, v: [u32; 3]| call_requires(f3, (i, v)),
    ensures
        final(mesh).wf(),
        ({
            let m = *old(mesh);
            let attr = params.text_or("attr"@, "P"@);
            let domain = domain_of_index(params.int_or("domain"@, 0));
            let dt = params.int_or("data_type"@, 2);
            let count = m.domain_len(domain);
            let mask = node_group_mask(*params, m, domain);
            let existing = attribute_values(m, domain, attr);
            if (count == 0 && domain != AttributeDomain::Detail) || (mask matches Some(g) && !any_set(g)) {
                r == Ok::<bool, String>(false) && *final(mesh) == m
            } else {
                exists|s: AttributeStorage, res: Result<(), AttributeError>| {
                    &&& set_outcome(m, domain, attr, s, res, *final(mesh))
                    &&& (dt <= 0 ==> (s matches AttributeStorage::Float(v) && masked_results(start_values(floats_of(existing), count, 0u32), mask, f1, v@)))
                    &&& (dt == 1 ==> (s matches AttributeStorage::Vec2(v) && masked_results(start_values(pairs_of(existing), count, [0u32, 0u32]), mask, f2, v@)))
                    &&& (dt >= 2 ==> (s matches AttributeStorage::Vec3(v) && masked_results(start_values(triples_of(existing), count, [0u32, 0u32, 0u32]), mask, f3, v@)))
                    &&& match res {
                        Ok(()) => r == Ok::<bool, String>(attr == "P"@ && domain == AttributeDomain::Point && dt >= 2),
                        Err(e) => r matches Err(msg) && msg@ == noise_error(e),
                    }
                }
            }
        }),
{
    let attr = params.get_string("attr", "P");
    let domain = domain_from_params(params);
    let dt = params.get_int("data_type", 2);
    let count = mesh.attribute_domain_len(domain);
    if count == 0 && domain != AttributeDomain::Detail {
        return Ok(false);
    }
    let topo = MeshTopology { point_count: mesh.positions.len(), indices: copy_values(mesh.indices.as_slice()), face_counts: Vec::new() };
    let corner_count: usize = topo.indices.len();
    proof {
        assert(corner_count == topo.indices@.len());
        lemma_unsized_corners_fit(topo);
        assert(topo.faces() == mesh.faces());
    }
    let mask = mesh_group_mask(&topo, &mesh.groups, params, domain);
    let ghost gm = node_group_mask(*params, *mesh, domain);
    assert(mask matches Some(g) ==> gm == Some(g@));
    assert(mask is None ==> gm is None);
    let mask_ref: Option<&[bool]> = match &mask {
        Some(g) => Some(g.as_slice()),
        None => None,
    };
    assert(opt_bools(mask_ref) == gm);
    if !mask_has_any(mask_ref) {
        return Ok(false);
    }
    let ghost m0 = *mesh;
    let storage = if dt <= 0 {
        let start = existing_float_attr_mesh(mesh, domain, attr, count);
        let v = masked_update_indexed(start.as_slice(), mask_ref, f1);
        AttributeStorage::Float(v)
    } else if dt == 1 {
        let start = existing_vec2_attr_mesh(mesh, domain, attr, count);
        let v = masked_update_indexed(start.as_slice(), mask_ref, f2);
        AttributeStorage::Vec2(v)
    } else {
        let start = existing_vec3_attr_mesh(mesh, domain, attr, count);
        let v = masked_update_indexed(start.as_slice(), mask_ref, f3);
        AttributeStorage::Vec3(v)
    };
    let moved = crate::text::text_eq(attr, "P") && domain == AttributeDomain::Point && dt >= 2;
    let ghost s = storage;
    let res = mesh.set_attribute(domain, owned(attr), storage);
    proof {
        assert(set_outcome(m0, domain, attr@, s, res, *mesh));
    }
    match res {
        Ok(()) => Ok(moved),
        Err(e) => Err(attribute_error_message("Attribute Noise error: ", e)),
    }
}


/// Adds noise to attribute `attr` of splats, as the node does; as for meshes, the
/// noise itself is what `f1`, `f2` and `f3` add to a float, pair or triple value at
/// a position. Nothing changes when the domain is empty (but for the detail domain)
/// or the group mask selects nothing. Otherwise the attribute's values (or zeros) are
/// noised where the mask holds and stored; an error from storing them is the result.
pub fn apply_to_splats_with<F1, F2, F3>(params: &NodeParams, splats: &mut SplatGeo, f1: F1, f2: F2, f3: F3) -> (r: Result<(), String>)
    where
        F1: Fn(usize, u32) -> u32,
        F2: Fn(usize, [u32; 2]) -> [u32; 2],
        F3: Fn(usize, [u32; 3]) -> [u32; 3],
    requires
        params.values.wf(),
        old(splats).wf(),
        forall|i: usize, v: u32| call_requires(f1, (i, v)),
        forall|i: usize, v: [u32; 2]| call_requires(f2, (i, v)),
        forall|i: usize, v: [u32; 3]| call_requires(f3, (i, v)),
    ensures
        final(splats).wf(),
        ({
            let s = *old(splats);
            let attr = params.text_or("attr"@, "P"@);
            let domain = domain_of_index(params.int_or("domain"@, 0));
            let dt = params.int_or("data_type"@, 2);
            let count = s.domain_len(domain);
            let mask = splat_mask(*params, s, domain);
            let existing = splat_attribute_values(s, domain, attr);
            if (count == 0 && domain != AttributeDomain::Detail) || (mask matches Some(g) && !any_set(g)) {
                r == Ok::<(), String>(()) && *final(splats) == s
            } else {
                exists|st: AttributeStorage, res: Result<(), AttributeError>| {
                    &&& splat_set_outcome(s, domain, attr, st, res, *final(splats))
                    &&& (dt <= 0 ==> (st matches AttributeStorage::Float(v) && masked_results(start_values(floats_of(existing), count, 0u32), mask, f1, v@)))
                    &&& (dt == 1 ==> (st matches AttributeStorage::Vec2(v) && masked_results(start_values(pairs_of(existing), count, [0u32, 0u32]), mask, f2, v@)))
                    &&& (dt >= 2 ==> (st matches AttributeStorage::Vec3(v) && masked_results(start_values(triples_of(existing), count, [0u32, 0u32, 0u32]), mask, f3, v@)))
                    &&& match res {
                        Ok(()) => r == Ok::<(), String>(()),
                        Err(e) => r matches Err(msg) && msg@ == noise_error(e),
                    }
                }
            }
        }),
{
    let attr = params.get_string("attr", "P");
    let domain = domain_from_params(params);
    let dt = params.get_int("data_type", 2);
    let count = splats.attribute_domain_len(domain);
    if count == 0 && domain != AttributeDomain::Detail {
        return Ok(());
    }
    let mask = splat_group_mask(splats, params, domain);
    let mask_ref: Option<&[bool]> = match &mask {
        Some(g) => Some(g.as_slice()),
        None => None,
    };
    assert(opt_bools(mask_ref) == splat_mask(*params, *splats, domain));
    if !mask_has_any(mask_ref) {
        return Ok(());
    }
    let ghost s0 = *splats;
    let storage = if dt <= 0 {
        let start = existing_float_attr_splats(splats, domain, attr, count);
        let v = masked_update_indexed(start.as_slice(), mask_ref, f1);
        AttributeStorage::Float(v)
    } else if dt == 1 {
        let start = existing_vec2_attr_splats(splats, domain, attr, count);
        let v = masked_update_indexed(start.as_slice(), mask_ref, f2);
        AttributeStorage::Vec2(v)
    } else {
        let start = existing_vec3_attr_splats(splats, domain, attr, count);
        let v = masked_update_indexed(start.as_slice(), mask_ref, f3);
        AttributeStorage::Vec3(v)
    };
    let ghost st = storage;
    let res = splats.set_attribute(domain, owned(attr), storage);
    proof {
        assert(splat_set_outcome(s0, domain, attr@, st, res, *splats));
    }
    match res {
        Ok(()) => Ok(()),
        Err(e) => Err(attribute_error_message("Attribute Noise error: ", e)),
    }
}

} // verus!
