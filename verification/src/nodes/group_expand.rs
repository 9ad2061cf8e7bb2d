//! The "Group Expand" node, which grows or shrinks a group over neighbouring elements.

use vstd::prelude::*;
use crate::graph::NodeDefinition;
use crate::nodes::{geometry_in, geometry_out, geometry_node};
use crate::params::{NodeParams, ParamValue, text_entry, text_param};
use crate::text::{chars_of, is_space, char_is_space, owned, string_from_chars, trim_chars, trimmed};
use crate::attributes::AttributeDomain;
use crate::mesh::Mesh;
use crate::mesh_copy::{opt_view, same_group_table, same_mesh, same_storage_table};
use crate::mesh_merge::all_wf;
use crate::nodes::require_mesh_input;
use crate::text_map::{TextMap, entry_names};
use crate::groups::expr_names_group;
use crate::attribute_values::copy_values;
use crate::topology::{MeshTopology, lemma_unsized_corners_fit};
use crate::groups::{build_group_mask, group_tokens, mask_bit, selected_groups};
use crate::nodes::group_utils::{GROUP_PARAM, GROUP_TYPE_PARAM, group_domain, group_type_of, group_type_from_params, select_group_domain};
use crate::nodes::expand_utils::{ExpandMode, adjacent, expand_iter, expand_mask, mesh_adjacency, neighbor_lists, neighbor_seqs, share_edge, lemma_neighbor_lists_unique};
use crate::nodes::attribute_expand::{expand_mode_of, expand_mode_from_params};

verus! {

/// The node kind's name.
pub const NAME: &'static str = "Group Expand";

/// The definition of the "Group Expand" node: an operator with geometry input "in" and one geometry output.
pub fn definition() -> (def: NodeDefinition)
    ensures
        geometry_node(def, NAME@, "Operators"@, seq!["in"@], seq!["out"@]),
{
    let def = NodeDefinition {
        name: owned(NAME),
        category: owned("Operators"),
        inputs: vec![geometry_in("in")],
        outputs: vec![geometry_out("out")],
    };
    assert(def.inputs@ =~= seq![def.inputs@[0]]);
    assert(def.outputs@ =~= seq![def.outputs@[0]]);
    def
}

/// Whether a group expression names more than one group by a pattern: it holds a
/// separator (whitespace, `,` or `;`), starts with an exclusion sign, or holds a wildcard.
pub open spec fn is_pattern(e: Seq<char>) -> bool {
    ||| exists|i: int| 0 <= i < e.len() && (is_space(#[trigger] e[i]) || e[i] == ',' || e[i] == ';')
    ||| (e.len() > 0 && (e[0] == '^' || e[0] == '!'))
    ||| exists|i: int| 0 <= i < e.len() && (#[trigger] e[i] == '*' || e[i] == '?')
}

/// The message given when a pattern needs an explicit output group.
pub const PATTERN_NEEDS_NAME: &'static str = "Group Expand requires an output group name when using group patterns";

/// The name of the group to write: the trimmed `out_group` parameter where it is
/// not empty, else the trimmed group expression where it names a single group;
/// a pattern without an output name is an error.
pub fn output_group_name(group_expr: &str, params: &NodeParams) -> (r: Result<String, String>)
    requires
        params.values.wf(),
    ensures
        ({
            let out = trimmed(params.text_or("out_group"@, ""@));
            let e = trimmed(group_expr@);
            if out.len() > 0 {
                r matches Ok(name) && name@ == out
            } else if !is_pattern(e) {
                r matches Ok(name) && name@ == e
            } else {
                r matches Err(msg) && msg@ == PATTERN_NEEDS_NAME@
            }
        }),
{
    let out_raw = chars_of(params.get_string("out_group", ""));
    let out = trim_chars(out_raw.as_slice());
    if out.len() > 0 {
        return Ok(string_from_chars(out.as_slice()));
    }
    let raw = chars_of(group_expr);
    let e = trim_chars(raw.as_slice());
    let mut has_separators = false;
    let mut has_wildcards = false;
    let mut i: usize = 0;
    while i < e.len()
        invariant
            0 <= i <= e@.len(),
            has_separators == exists|k: int| 0 <= k < i && (is_space(#[trigger] e@[k]) || e@[k] == ',' || e@[k] == ';'),
            has_wildcards == exists|k: int| 0 <= k < i && (#[trigger] e@[k] == '*' || e@[k] == '?'),
        decreases e@.len() - i,
    {
        let c = e[i];
        if char_is_space(c) || c == ',' || c == ';' {
            has_separators = true;
        }
        if c == '*' || c == '?' {
            has_wildcards = true;
        }
        i = i + 1;
    }
    let has_prefix = e.len() > 0 && (e[0] == '^' || e[0] == '!');
    if !has_separators && !has_prefix && !has_wildcards {
        Ok(string_from_chars(e.as_slice()))
    } else {
        Err(owned(PATTERN_NEEDS_NAME))
    }
}

/// The parameters a new "Group Expand" node starts with (floats held as their bit patterns): group "group1", out_group "", group_type 0, expand_mode 0, iterations 1.
pub fn default_params() -> (params: NodeParams)
    ensures
        params.values.wf(),
        params.values@.dom() == set!["group"@, "out_group"@, "group_type"@, "expand_mode"@, "iterations"@],
        text_entry(params.values@, "group"@, "group1"@),
        text_entry(params.values@, "out_group"@, ""@),
        params.values@["group_type"@] == ParamValue::Int(0),
        params.values@["expand_mode"@] == ParamValue::Int(0),
        params.values@["iterations"@] == ParamValue::Int(1),
{
    proof {
        reveal_strlit("group");
        reveal_strlit("out_group");
        reveal_strlit("group_type");
        reveal_strlit("expand_mode");
        reveal_strlit("iterations");
        assert("group"@.len() == 5 && "group"@[0] == 'g');
        assert("out_group"@.len() == 9 && "out_group"@[0] == 'o');
        assert("group_type"@.len() == 10 && "group_type"@[0] == 'g');
        assert("expand_mode"@.len() == 11 && "expand_mode"@[0] == 'e');
        assert("iterations"@.len() == 10 && "iterations"@[0] == 'i');
    }
    let mut values: TextMap<ParamValue> = TextMap::new();
    values.insert(owned("group"), text_param("group1"));
    values.insert(owned("out_group"), text_param(""));
    values.insert(owned("group_type"), ParamValue::Int(0));
    values.insert(owned("expand_mode"), ParamValue::Int(0));
    values.insert(owned("iterations"), ParamValue::Int(1));
    NodeParams { values }
}

/// The message given when no group is named.
pub const NEEDS_GROUP: &'static str = "Group Expand requires a group name";

/// The message given when the group expression has nothing to select by.
pub const NEEDS_EXISTING_GROUP: &'static str = "Group Expand requires an existing group";

/// The group expression of the parameters: the trimmed `group` parameter.
pub open spec fn group_expr_of(params: NodeParams) -> Seq<char> {
    trimmed(params.text_or(GROUP_PARAM@, ""@))
}

/// The name of the group to write for expression `e`: the trimmed `out_group`
/// parameter where it is not empty, else `e` where it names a single group.
pub open spec fn out_group_of(params: NodeParams, e: Seq<char>) -> Option<Seq<char>> {
    let out = trimmed(params.text_or("out_group"@, ""@));
    if out.len() > 0 {
        Some(out)
    } else if !is_pattern(trimmed(e)) {
        Some(trimmed(e))
    } else {
        None
    }
}

/// The number of elements of `domain` that have neighbour lists.
pub open spec fn neighbor_count(m: Mesh, domain: AttributeDomain) -> int {
    match domain {
        AttributeDomain::Point => m.positions@.len() as int,
        AttributeDomain::Vertex => m.indices@.len() as int,
        AttributeDomain::Primitive => m.faces().len() as int,
        AttributeDomain::Detail => 0,
    }
}

/// Whether elements `a` and `b` of `domain` are neighbours in `m`: points joined by
/// an edge, corners next to each other around a polygon, polygons sharing an edge.
pub open spec fn mesh_adjacent(m: Mesh, domain: AttributeDomain, a: int, b: int) -> bool {
    match domain {
        AttributeDomain::Point => adjacent(m.indices@, m.faces(), true, m.positions@.len() as int, a, b),
        AttributeDomain::Vertex => adjacent(m.indices@, m.faces(), false, m.indices@.len() as int, a, b),
        AttributeDomain::Primitive => share_edge(m.indices@, m.faces(), a, b),
        AttributeDomain::Detail => false,
    }
}

/// Whether `nb` are the neighbour lists of the elements of `domain` in `m`.
pub open spec fn mesh_neighbors(m: Mesh, domain: AttributeDomain, nb: Seq<Vec<usize>>) -> bool {
    neighbor_lists(nb, neighbor_count(m, domain), |a: int, b: int| mesh_adjacent(m, domain, a, b))
}

/// The mask of the groups that `e` selects among those of `domain`, over `len` elements.
pub open spec fn selected_mask(m: Mesh, domain: AttributeDomain, e: Seq<char>, len: nat) -> Seq<bool> {
    let groups = m.groups.table(domain)@;
    Seq::new(len, |i: int| mask_bit(groups, selected_groups(groups, e), len as int, i))
}

/// A mask grown (or shrunk) `iterations` times over neighbour lists `nb`; the mask
/// itself where there are none.
pub open spec fn expanded_mask(mask: Seq<bool>, nb: Seq<Vec<usize>>, iterations: nat, mode: ExpandMode) -> Seq<bool> {
    if nb.len() == 0 {
        mask
    } else {
        expand_iter(mask, neighbor_seqs(nb), if mask.len() < nb.len() { mask.len() as int } else { nb.len() as int }, mode, iterations)
    }
}

/// The number of iterations the parameters ask for: `iterations` (default 1), at least 0.
pub open spec fn iterations_of(params: NodeParams) -> nat {
    let i = params.int_or("iterations"@, 1);
    if i < 0 { 0 } else { i as nat }
}

/// The domain whose groups Group Expand works on in `m`.
pub open spec fn expand_domain(params: NodeParams, m: Mesh) -> AttributeDomain {
    group_domain(m.groups, group_expr_of(params), group_type_of(params.int_or(GROUP_TYPE_PARAM@, 0)))
}

/// The message Group Expand fails with on `m`, if it fails: without a group
/// expression, with a pattern but no output name, or (on a domain with elements)
/// with an expression that selects by nothing.
pub open spec fn expand_error(params: NodeParams, m: Mesh) -> Option<Seq<char>> {
    let e = group_expr_of(params);
    if e.len() == 0 {
        Some(NEEDS_GROUP@)
    } else if out_group_of(params, e) is None {
        Some(PATTERN_NEEDS_NAME@)
    } else if m.domain_len(expand_domain(params, m)) == 0 {
        None
    } else if group_tokens(e).len() == 0 {
        Some(NEEDS_EXISTING_GROUP@)
    } else {
        None
    }
}

/// Whether Group Expand stores a group in `m`: it does not fail and its domain has elements.
pub open spec fn expand_changes(params: NodeParams, m: Mesh) -> bool {
    expand_error(params, m) is None && m.domain_len(expand_domain(params, m)) > 0
}

/// Whether `after` is `before` with the output group of Group Expand stored: every
/// other part the same, and the output group holding the selected mask grown (or
/// shrunk) over the neighbour lists of the domain.
pub open spec fn expand_stored(params: NodeParams, before: Mesh, after: Mesh) -> bool {
    let e = group_expr_of(params);
    let d = expand_domain(params, before);
    let len = before.domain_len(d);
    let name = out_group_of(params, e).unwrap();
    let mode = expand_mode_of(params.int_or("expand_mode"@, 0));
    &&& after.positions@ == before.positions@
    &&& after.indices@ == before.indices@
    &&& opt_view(after.normals) == opt_view(before.normals)
    &&& opt_view(after.corner_normals) == opt_view(before.corner_normals)
    &&& opt_view(after.uvs) == opt_view(before.uvs)
    &&& forall|g: AttributeDomain| #[trigger] same_storage_table(after.attributes.table(g), before.attributes.table(g))
    &&& forall|g: AttributeDomain| g != d && !(g == AttributeDomain::Detail && d == AttributeDomain::Primitive)
        ==> #[trigger] same_group_table(after.groups.table(g), before.groups.table(g))
    &&& after.groups.table(d)@.dom() == before.groups.table(d)@.dom().insert(name)
    &&& forall|n: Seq<char>| n != name && #[trigger] before.groups.table(d)@.contains_key(n)
        ==> after.groups.table(d)@[n]@ == before.groups.table(d)@[n]@
    &&& forall|nb: Seq<Vec<usize>>| #[trigger] mesh_neighbors(before, d, nb)
        ==> after.groups.table(d)@[name]@ == expanded_mask(selected_mask(before, d, e, len), nb, iterations_of(params), mode)
}

/// Grows or shrinks the groups selected by the `group` parameter over neighbouring
/// elements and stores the result as the output group, in the domain that the
/// `group_type` parameter picks. Fails without a group expression, with a pattern
/// but no output name, or with an expression that selects by nothing; leaves an
/// empty domain as it is.
pub fn apply_to_mesh(params: &NodeParams, mesh: &mut Mesh) -> (r: Result<(), String>)
    requires
        params.values.wf(),
        old(mesh).wf(),
    ensures
        final(mesh).wf(),
        match expand_error(*params, *old(mesh)) {
            Some(msg) => (r matches Err(m) && m@ == msg) && *final(mesh) == *old(mesh),
            None => r is Ok && if expand_changes(*params, *old(mesh)) {
                expand_stored(*params, *old(mesh), *final(mesh))
            } else {
                *final(mesh) == *old(mesh)
            },
        },
{
    let raw = chars_of(params.get_string(GROUP_PARAM, ""));
    let e_chars = trim_chars(raw.as_slice());
    if e_chars.len() == 0 {
        return Err(owned(NEEDS_GROUP));
    }
    let group_expr = string_from_chars(e_chars.as_slice());
    let output_group = match output_group_name(group_expr.as_str(), params) {
        Ok(name) => name,
        Err(msg) => {
            return Err(msg);
        },
    };
    let group_type = group_type_from_params(params);
    let domain = select_group_domain(&mesh.groups, group_expr.as_str(), group_type);
    let len = mesh.attribute_domain_len(domain);
    if len == 0 {
        return Ok(());
    }
    let mask = match build_group_mask(mesh.groups.map(domain), group_expr.as_str(), len) {
        Some(m) => m,
        None => {
            return Err(owned(NEEDS_EXISTING_GROUP));
        },
    };
    let raw_iterations = params.get_int("iterations", 1);
    let iterations: usize = if raw_iterations < 0 { 0 } else { raw_iterations as usize };
    let mode = expand_mode_from_params(params);
    let topo = MeshTopology { point_count: mesh.positions.len(), indices: copy_values(mesh.indices.as_slice()), face_counts: Vec::new() };
    let corner_count: usize = topo.indices.len();
    proof {
        assert(corner_count == topo.indices@.len());
        lemma_unsized_corners_fit(topo);
    }
    let neighbors = mesh_adjacency(&topo, domain);
    let ghost old_mesh = *mesh;
    proof {
        assert(topo.faces() == old_mesh.faces());
        assert forall|nb: Seq<Vec<usize>>| #[trigger] mesh_neighbors(old_mesh, domain, nb) implies nb.len() == neighbors@.len() && neighbor_seqs(nb) == neighbor_seqs(neighbors@) by {
            lemma_neighbor_lists_unique(nb, neighbors@, neighbor_count(old_mesh, domain),
                |a: int, b: int| mesh_adjacent(old_mesh, domain, a, b));
        }
    }
    let expanded = if neighbors.len() == 0 {
        mask
    } else {
        expand_mask(mask.as_slice(), neighbors.as_slice(), iterations, mode)
    };
    proof {
        assert(mask@ =~= selected_mask(old_mesh, domain, group_expr@, len as nat));
    }
    let ghost name = output_group@;
    let table = mesh.groups.map_mut(domain);
    table.insert(output_group, expanded);
    proof {
        assert forall|g: AttributeDomain| g != domain && !(g == AttributeDomain::Detail && domain == AttributeDomain::Primitive)
            implies #[trigger] same_group_table(mesh.groups.table(g), old_mesh.groups.table(g)) by {
            assert(mesh.groups.table(g) == old_mesh.groups.table(g));
        }
        assert forall|g: AttributeDomain| #[trigger] same_storage_table(mesh.attributes.table(g), old_mesh.attributes.table(g)) by {}
        assert(mesh.groups.table(domain)@.dom() =~= old_mesh.groups.table(domain)@.dom().insert(name));
    }
    Ok(())
}

/// Two group tables with the same names select the same groups by any expression.
proof fn lemma_same_groups_names(a: TextMap<Vec<bool>>, b: TextMap<Vec<bool>>, e: Seq<char>)
    requires
        same_group_table(a, b),
    ensures
        expr_names_group(a, e) == expr_names_group(b, e),
{
    assert(a.entries_view().len() == entry_names(a.entries_view()).len());
    assert(b.entries_view().len() == entry_names(b.entries_view()).len());
    assert forall|n: Seq<char>| a@.contains_key(n) == b@.contains_key(n) by {
        assert(a@.dom().contains(n) == b@.dom().contains(n));
    }
}

/// Two group maps with the same names and masks give the same selected mask.
proof fn lemma_same_selected_mask(a: Mesh, b: Mesh, d: AttributeDomain, e: Seq<char>, len: nat)
    requires
        same_group_table(a.groups.table(d), b.groups.table(d)),
    ensures
        selected_mask(a, d, e, len) == selected_mask(b, d, e, len),
{
    let ga = a.groups.table(d)@;
    let gb = b.groups.table(d)@;
    assert(ga.dom() == gb.dom());
    assert(selected_groups(ga, e) == selected_groups(gb, e));
    let sel = selected_groups(ga, e);
    assert forall|i: int| 0 <= i < len implies mask_bit(ga, sel, len as int, i) == mask_bit(gb, sel, len as int, i) by {
        if mask_bit(ga, sel, len as int, i) {
            let n = choose|n: Seq<char>| #[trigger] sel.contains(n) && ga.contains_key(n) && ga[n]@.len() == len && ga[n]@[i];
            assert(gb.contains_key(n) && gb[n]@ == ga[n]@);
        }
        if mask_bit(gb, sel, len as int, i) {
            let n = choose|n: Seq<char>| #[trigger] sel.contains(n) && gb.contains_key(n) && gb[n]@.len() == len && gb[n]@[i];
            assert(ga.contains_key(n));
            assert(gb[n]@ == ga[n]@);
        }
    }
    assert(selected_mask(a, d, e, len) =~= selected_mask(b, d, e, len));
}

/// Group Expand depends on a mesh only through its contents.
proof fn lemma_expand_same(params: NodeParams, a: Mesh, b: Mesh, after: Mesh)
    requires
        same_mesh(a, b),
    ensures
        expand_domain(params, a) == expand_domain(params, b),
        expand_error(params, a) == expand_error(params, b),
        expand_changes(params, a) == expand_changes(params, b),
        expand_stored(params, a, after) ==> expand_stored(params, b, after),
{
    let e = group_expr_of(params);
    assert(same_group_table(a.groups.table(AttributeDomain::Vertex), b.groups.table(AttributeDomain::Vertex)));
    assert(same_group_table(a.groups.table(AttributeDomain::Point), b.groups.table(AttributeDomain::Point)));
    lemma_same_groups_names(a.groups.table(AttributeDomain::Vertex), b.groups.table(AttributeDomain::Vertex), e);
    lemma_same_groups_names(a.groups.table(AttributeDomain::Point), b.groups.table(AttributeDomain::Point), e);
    let d = expand_domain(params, a);
    assert(d == expand_domain(params, b));
    assert(a.domain_len(d) == b.domain_len(d));
    if expand_stored(params, a, after) {
        let len = a.domain_len(d);
        let name = out_group_of(params, e).unwrap();
        let mode = expand_mode_of(params.int_or("expand_mode"@, 0));
        assert(same_group_table(a.groups.table(d), b.groups.table(d)));
        lemma_same_selected_mask(a, b, d, e, len);
        assert forall|g: AttributeDomain| #[trigger] same_storage_table(after.attributes.table(g), b.attributes.table(g)) by {
            assert(same_storage_table(after.attributes.table(g), a.attributes.table(g)));
            assert(same_storage_table(a.attributes.table(g), b.attributes.table(g)));
        }
        assert forall|g: AttributeDomain| g != d && !(g == AttributeDomain::Detail && d == AttributeDomain::Primitive)
            implies #[trigger] same_group_table(after.groups.table(g), b.groups.table(g)) by {
            assert(same_group_table(after.groups.table(g), a.groups.table(g)));
            assert(same_group_table(a.groups.table(g), b.groups.table(g)));
        }
        assert forall|n: Seq<char>| n != name && #[trigger] b.groups.table(d)@.contains_key(n)
            implies after.groups.table(d)@[n]@ == b.groups.table(d)@[n]@ by {
            assert(a.groups.table(d)@.dom().contains(n));
        }
        assert forall|nb: Seq<Vec<usize>>| #[trigger] mesh_neighbors(b, d, nb)
            implies after.groups.table(d)@[name]@ == expanded_mask(selected_mask(b, d, e, len), nb, iterations_of(params), mode) by {
            assert forall|x: int, y: int| mesh_adjacent(a, d, x, y) == mesh_adjacent(b, d, x, y) by {}
            assert(mesh_neighbors(a, d, nb));
        }
    }
}

/// The message given when there is no input mesh.
pub const NEEDS_INPUT: &'static str = "Group Expand requires a mesh input";

/// Group Expand on a copy of the first input mesh.
pub fn compute(params: &NodeParams, inputs: &[Mesh]) -> (r: Result<Mesh, String>)
    requires
        params.values.wf(),
        all_wf(inputs@),
    ensures
        inputs@.len() == 0 ==> (r matches Err(msg) && msg@ == NEEDS_INPUT@),
        inputs@.len() > 0 ==> match expand_error(*params, inputs@[0]) {
            Some(msg) => r matches Err(m) && m@ == msg,
            None => r matches Ok(out) && out.wf() && if expand_changes(*params, inputs@[0]) {
                expand_stored(*params, inputs@[0], out)
            } else {
                same_mesh(out, inputs@[0])
            },
        },
{
    let mut input = match require_mesh_input(inputs, 0, NEEDS_INPUT) {
        Ok(m) => m,
        Err(msg) => {
            return Err(msg);
        },
    };
    let ghost copy = input;
    let r = apply_to_mesh(params, &mut input);
    proof {
        lemma_expand_same(*params, copy, inputs@[0], input);
    }
    match r {
        Ok(()) => Ok(input),
        Err(msg) => Err(msg),
    }
}

} // verus!
