//! The "Attribute Transfer" node, which copies attributes from a source geometry onto a target.

use vstd::prelude::*;
use crate::params::{NodeParams, ParamValue, text_entry, text_param};
use crate::text_map::TextMap;
use crate::graph::NodeDefinition;
use crate::nodes::{geometry_in, geometry_out, geometry_node};
use crate::attributes::{StringTableAttribute, AttributeRef, ref_len};
use crate::attribute_values::{extend_values, StorageValues, copy_values};
use crate::attributes::{AttributeDomain, AttributeError, AttributeStorage, attribute_error_message, error_text};
use crate::mesh::{Mesh, set_outcome};
use crate::splat::{SplatGeo, splat_set_outcome, splat_attribute_values, splat_mask, splat_group_mask,
    existing_float_attr_splats, existing_int_attr_splats, existing_vec2_attr_splats, existing_vec3_attr_splats,
    existing_vec4_attr_splats};
use crate::topology::{MeshTopology, lemma_unsized_corners_fit};
use crate::nodes::attribute_utils::{attribute_values, existing_float_attr_mesh, existing_int_attr_mesh,
    existing_vec2_attr_mesh, existing_vec3_attr_mesh, existing_vec4_attr_mesh};
use crate::nodes::group_utils::{mesh_group_mask, mask_has_any, any_set};
use crate::nodes::attribute_noise::{node_group_mask, mask_selects, opt_bools,
    start_values, floats_of, pairs_of, triples_of};
use crate::text::owned;
use crate::text_order::texts;

verus! {

/// The node kind's name.
pub const NAME: &'static str = "Attribute Transfer";

/// The definition of the "Attribute Transfer" node: an operator with geometry inputs "target" and "source" and one geometry output.
pub fn definition() -> (def: NodeDefinition)
    ensures
        geometry_node(def, NAME@, "Operators"@, seq!["target"@, "source"@], seq!["out"@]),
{
    let def = NodeDefinition {
        name: owned(NAME),
        category: owned("Operators"),
        inputs: vec![geometry_in("target"), geometry_in("source")],
        outputs: vec![geometry_out("out")],
    };
    assert(def.inputs@ =~= seq![def.inputs@[0], def.inputs@[1]]);
    assert(def.outputs@ =~= seq![def.outputs@[0]]);
    def
}

/// The first `k` strings without repeats, each where it first occurs.
pub open spec fn distinct_prefix(s: Seq<Seq<char>>, k: int) -> Seq<Seq<char>>
    decreases k,
{
    if k <= 0 {
        Seq::empty()
    } else {
        let r = distinct_prefix(s, k - 1);
        if r.contains(s[k - 1]) { r } else { r.push(s[k - 1]) }
    }
}

/// The position of the last `v` among the first `k` strings, or -1.
pub open spec fn last_index(s: Seq<Seq<char>>, v: Seq<char>, k: int) -> int
    decreases k,
{
    if k <= 0 {
        -1
    } else if s[k - 1] == v {
        k - 1
    } else {
        last_index(s, v, k - 1)
    }
}

fn find_last(list: &Vec<String>, x: &String) -> (r: Option<usize>)
    ensures
        match r {
            Some(i) => i == last_index(texts(list@), x@, list@.len() as int),
            None => !texts(list@).contains(x@) && last_index(texts(list@), x@, list@.len() as int) == -1,
        },
{
    let mut k: usize = list.len();
    while k > 0
        invariant
            0 <= k <= list@.len(),
            last_index(texts(list@), x@, list@.len() as int) == last_index(texts(list@), x@, k as int),
            forall|j: int| k <= j < list@.len() ==> texts(list@)[j] != x@,
        decreases k,
    {
        if list[k - 1] == *x {
            return Some(k - 1);
        }
        k = k - 1;
    }
    proof {
        if texts(list@).contains(x@) {
            let j = choose|j: int| 0 <= j < texts(list@).len() && texts(list@)[j] == x@;
        }
    }
    None
}

proof fn lemma_last_index(s: Seq<Seq<char>>, v: Seq<char>, k: int)
    requires
        0 <= k <= s.len(),
    ensures
        -1 <= last_index(s, v, k) < k,
        last_index(s, v, k) >= 0 ==> s[last_index(s, v, k)] == v,
        forall|j: int| last_index(s, v, k) < j < k ==> s[j] != v,
    decreases k,
{
    if k > 0 {
        lemma_last_index(s, v, k - 1);
    }
}

proof fn lemma_distinct_prefix_unique(s: Seq<Seq<char>>, k: int)
    requires
        0 <= k <= s.len(),
    ensures
        forall|a: int, b: int| 0 <= a < b < distinct_prefix(s, k).len() ==> distinct_prefix(s, k)[a] != distinct_prefix(s, k)[b],
        forall|v: Seq<char>| distinct_prefix(s, k).contains(v) <==> exists|j: int| 0 <= j < k && j < s.len() && #[trigger] s[j] == v,
    decreases k,
{
    if k > 0 {
        lemma_distinct_prefix_unique(s, k - 1);
        let r = distinct_prefix(s, k - 1);
        assert forall|v: Seq<char>| distinct_prefix(s, k).contains(v) <==> exists|j: int| 0 <= j < k && j < s.len() && #[trigger] s[j] == v by {
            if distinct_prefix(s, k).contains(v) && !r.contains(v) {
                let d = distinct_prefix(s, k);
                assert(d == r.push(s[k - 1]));
                let t = choose|t: int| 0 <= t < d.len() && #[trigger] d[t] == v;
                if t < r.len() {
                    assert(r[t] == v);
                }
                assert(s[k - 1] == v);
            }
            if r.contains(v) {
                let t = choose|t: int| 0 <= t < r.len() && r[t] == v;
                if !r.contains(s[k - 1]) {
                    assert(r.push(s[k - 1])[t] == v);
                }
            }
            if exists|j: int| 0 <= j < k && j < s.len() && #[trigger] s[j] == v {
                let j = choose|j: int| 0 <= j < k && j < s.len() && #[trigger] s[j] == v;
                if j == k - 1 && !r.contains(v) {
                    assert(r.push(s[k - 1])[r.len() as int] == v);
                }
            }
        }
    }
}

/// Adds `x` to a table of distinct strings unless it is there; gives its position.
fn intern(combined: &mut Vec<String>, x: &String) -> (i: usize)
    requires
        old(combined)@.len() < usize::MAX,
    ensures
        texts(final(combined)@) == (if texts(old(combined)@).contains(x@) { texts(old(combined)@) } else { texts(old(combined)@).push(x@) }),
        final(combined)@.len() == old(combined)@.len() + (if texts(old(combined)@).contains(x@) { 0int } else { 1int }),
        i < final(combined)@.len(),
        texts(final(combined)@)[i as int] == x@,
        i == last_index(texts(final(combined)@), x@, final(combined)@.len() as int),
{
    match find_last(combined, x) {
        Some(i) => {
            proof {
                let t = texts(combined@);
                lemma_last_index(t, x@, t.len() as int);
                assert(t.contains(x@));
            }
            i
        },
        None => {
            let i = combined.len();
            let c = x.clone();
            combined.push(c);
            proof {
                let t = texts(combined@);
                assert(t =~= texts(old(combined)@).push(x@));
                assert(t[i as int] == x@);
            }
            i
        },
    }
}

/// The strings of an optional table.
pub open spec fn table_texts(table: Option<&StringTableAttribute>) -> Seq<Seq<char>> {
    match table {
        Some(t) => texts(t.values@),
        None => Seq::empty(),
    }
}

/// One table of the distinct strings of both tables, in order of first
/// occurrence (the existing table first), with the positions in it of the strings
/// of each table.
pub fn merge_string_tables(existing: Option<&StringTableAttribute>, source: &StringTableAttribute) -> (r: (Vec<String>, Vec<u32>, Vec<u32>))
    requires
        table_texts(existing).len() + source.values@.len() <= u32::MAX,
    ensures
        ({
            let all = table_texts(existing) + texts(source.values@);
            &&& texts(r.0@) == distinct_prefix(all, all.len() as int)
            &&& forall|a: int, b: int| 0 <= a < b < r.0@.len() ==> texts(r.0@)[a] != texts(r.0@)[b]
            &&& r.1@.len() == table_texts(existing).len()
            &&& forall|i: int| 0 <= i < r.1@.len() ==> (#[trigger] r.1@[i] as int) < r.0@.len() && texts(r.0@)[r.1@[i] as int] == table_texts(existing)[i]
            &&& r.2@.len() == source.values@.len()
            &&& forall|j: int| 0 <= j < r.2@.len() ==> (#[trigger] r.2@[j] as int) < r.0@.len() && texts(r.0@)[r.2@[j] as int] == texts(source.values@)[j]
        }),
{
    let ghost all = table_texts(existing) + texts(source.values@);
    let ghost n_existing = table_texts(existing).len();
    let mut combined: Vec<String> = Vec::new();
    let mut existing_map: Vec<u32> = Vec::new();
    if let Some(e) = existing {
        let mut k: usize = 0;
        while k < e.values.len()
            invariant
                existing == Some(e),
                all == texts(e.values@) + texts(source.values@),
                all.len() <= u32::MAX,
                0 <= k <= e.values@.len(),
                texts(combined@) == distinct_prefix(all, k as int),
                combined@.len() <= k,
                existing_map@.len() == k,
                forall|i: int| 0 <= i < k ==> (#[trigger] existing_map@[i] as int) < combined@.len() && texts(combined@)[existing_map@[i] as int] == texts(e.values@)[i],
            decreases e.values@.len() - k,
        {
            let ghost before = texts(combined@);
            let i = intern(&mut combined, &e.values[k]);
            proof {
                assert(all[k as int] == e.values@[k as int]@);
                assert forall|m: int| 0 <= m < k implies (#[trigger] existing_map@[m] as int) < combined@.len() && texts(combined@)[existing_map@[m] as int] == texts(e.values@)[m] by {
                    assert(texts(combined@)[existing_map@[m] as int] == before[existing_map@[m] as int]);
                }
            }
            existing_map.push(i as u32);
            k = k + 1;
        }
    }
    let mut source_map: Vec<u32> = Vec::new();
    let mut k: usize = 0;
    while k < source.values.len()
        invariant
            all == table_texts(existing) + texts(source.values@),
            all.len() <= u32::MAX,
            n_existing == table_texts(existing).len(),
            0 <= k <= source.values@.len(),
            texts(combined@) == distinct_prefix(all, n_existing + k),
            combined@.len() <= n_existing + k,
            existing_map@.len() == n_existing,
            forall|i: int| 0 <= i < n_existing ==> (#[trigger] existing_map@[i] as int) < combined@.len() && texts(combined@)[existing_map@[i] as int] == table_texts(existing)[i],
            source_map@.len() == k,
            forall|j: int| 0 <= j < k ==> (#[trigger] source_map@[j] as int) < combined@.len() && texts(combined@)[source_map@[j] as int] == texts(source.values@)[j],
        decreases source.values@.len() - k,
    {
        let ghost before = texts(combined@);
        let i = intern(&mut combined, &source.values[k]);
        proof {
            assert(all[n_existing + k] == source.values@[k as int]@);
            assert forall|m: int| 0 <= m < n_existing implies (#[trigger] existing_map@[m] as int) < combined@.len() && texts(combined@)[existing_map@[m] as int] == table_texts(existing)[m] by {
                assert(texts(combined@)[existing_map@[m] as int] == before[existing_map@[m] as int]);
            }
            assert forall|m: int| 0 <= m < k implies (#[trigger] source_map@[m] as int) < combined@.len() && texts(combined@)[source_map@[m] as int] == texts(source.values@)[m] by {
                assert(texts(combined@)[source_map@[m] as int] == before[source_map@[m] as int]);
            }
        }
        source_map.push(i as u32);
        k = k + 1;
    }
    proof {
        lemma_distinct_prefix_unique(all, all.len() as int);
    }
    (combined, existing_map, source_map)
}

/// The string an index of a table stands for: the empty string where the table
/// has no entry.
pub open spec fn value_at(values: Seq<Seq<char>>, index: u32) -> Seq<char> {
    if (index as int) < values.len() { values[index as int] } else { Seq::empty() }
}

/// `base` with the first `k` strings of `vs` that it does not hold yet added in order.
pub open spec fn grown(base: Seq<Seq<char>>, vs: Seq<Seq<char>>, k: int) -> Seq<Seq<char>>
    decreases k,
{
    if k <= 0 {
        base
    } else {
        let g = grown(base, vs, k - 1);
        if g.contains(vs[k - 1]) { g } else { g.push(vs[k - 1]) }
    }
}

/// The strings the elements of `source` stand for, in order.
pub open spec fn element_texts(source: StringTableAttribute) -> Seq<Seq<char>> {
    Seq::new(source.indices@.len(), |j: int| value_at(texts(source.values@), source.indices@[j]))
}

/// Appends the elements of `source` to `combined`: each element's string is
/// added to the table unless it is there already, and the element gets the
/// position of the string's last occurrence in the table.
pub fn append_string_table_values(combined: &mut StringTableAttribute, source: &StringTableAttribute)
    requires
        old(combined).values@.len() + source.indices@.len() <= u32::MAX,
    ensures
        ({
            let vs = element_texts(*source);
            let n = vs.len() as int;
            let base = texts(old(combined).values@);
            &&& texts(final(combined).values@) == grown(base, vs, n)
            &&& final(combined).indices@.len() == old(combined).indices@.len() + n
            &&& final(combined).indices@.take(old(combined).indices@.len() as int) == old(combined).indices@
            &&& forall|j: int| 0 <= j < n ==> #[trigger] final(combined).indices@[old(combined).indices@.len() + j]
                == last_index(grown(base, vs, j + 1), vs[j], grown(base, vs, j + 1).len() as int) as u32
        }),
{
    let ghost vs = element_texts(*source);
    let ghost base = texts(combined.values@);
    let ghost start = combined.indices@;
    if source.indices.len() == 0 {
        assert(combined.indices@.take(start.len() as int) =~= start);
        return;
    }
    let mut k: usize = 0;
    while k < source.indices.len()
        invariant
            vs == element_texts(*source),
            base.len() + vs.len() <= u32::MAX,
            0 <= k <= source.indices@.len(),
            texts(combined.values@) == grown(base, vs, k as int),
            combined.values@.len() <= base.len() + k,
            combined.indices@.len() == start.len() + k,
            combined.indices@.take(start.len() as int) == start,
            forall|j: int| 0 <= j < k ==> #[trigger] combined.indices@[start.len() + j]
                == last_index(grown(base, vs, j + 1), vs[j], grown(base, vs, j + 1).len() as int) as u32,
        decreases source.indices@.len() - k,
    {
        let index = source.indices[k];
        let value = if (index as usize) < source.values.len() { source.values[index as usize].clone() } else { String::new() };
        assert(value@ == vs[k as int]);
        let ghost before_indices = combined.indices@;
        let i = intern(&mut combined.values, &value);
        combined.indices.push(i as u32);
        proof {
            assert(combined.indices@.take(start.len() as int) =~= start) by {
                assert(before_indices.take(start.len() as int) == start);
            }
            assert forall|j: int| 0 <= j < k + 1 implies #[trigger] combined.indices@[start.len() + j]
                == last_index(grown(base, vs, j + 1), vs[j], grown(base, vs, j + 1).len() as int) as u32 by {
                if j < k {
                    assert(combined.indices@[start.len() + j] == before_indices[start.len() + j]);
                }
            }
        }
        k = k + 1;
    }
}

/// The parameters a new "Attribute Transfer" node starts with (floats held as their bit patterns): attr "", domain 0, max_radius 0.0, sample_count 1, combine 0, group "", group_type 0.
pub fn default_params() -> (params: NodeParams)
    ensures
        params.values.wf(),
        params.values@.dom() == set!["attr"@, "domain"@, "max_radius"@, "sample_count"@, "combine"@, "group"@, "group_type"@],
        text_entry(params.values@, "attr"@, ""@),
        params.values@["domain"@] == ParamValue::Int(0),
        params.values@["max_radius"@] == ParamValue::Float(0x00000000),
        params.values@["sample_count"@] == ParamValue::Int(1),
        params.values@["combine"@] == ParamValue::Int(0),
        text_entry(params.values@, "group"@, ""@),
        params.values@["group_type"@] == ParamValue::Int(0),
{
    proof {
        reveal_strlit("attr");
        reveal_strlit("domain");
        reveal_strlit("max_radius");
        reveal_strlit("sample_count");
        reveal_strlit("combine");
        reveal_strlit("group");
        reveal_strlit("group_type");
        assert("attr"@.len() == 4 && "attr"@[0] == 'a');
        assert("domain"@.len() == 6 && "domain"@[0] == 'd');
        assert("max_radius"@.len() == 10 && "max_radius"@[0] == 'm');
        assert("sample_count"@.len() == 12 && "sample_count"@[0] == 's');
        assert("combine"@.len() == 7 && "combine"@[0] == 'c');
        assert("group"@.len() == 5 && "group"@[0] == 'g');
        assert("group_type"@.len() == 10 && "group_type"@[0] == 'g');
    }
    let mut values: TextMap<ParamValue> = TextMap::new();
    values.insert(owned("attr"), text_param(""));
    values.insert(owned("domain"), ParamValue::Int(0));
    values.insert(owned("max_radius"), ParamValue::Float(0x00000000));
    values.insert(owned("sample_count"), ParamValue::Int(1));
    values.insert(owned("combine"), ParamValue::Int(0));
    values.insert(owned("group"), text_param(""));
    values.insert(owned("group_type"), ParamValue::Int(0));
    NodeParams { values }
}


/// The positions of the source elements of one attribute, with the attribute's value
/// at each (floats held as their bit patterns).
#[derive(Debug)]
pub enum AttributeSamples {
    Float { positions: Vec<[u32; 3]>, values: Vec<u32> },
    Int { positions: Vec<[u32; 3]>, values: Vec<i32> },
    Vec2 { positions: Vec<[u32; 3]>, values: Vec<[u32; 2]> },
    Vec3 { positions: Vec<[u32; 3]>, values: Vec<[u32; 3]> },
    Vec4 { positions: Vec<[u32; 3]>, values: Vec<[u32; 4]> },
}

/// The contents of gathered samples.
pub enum SamplesView {
    Float(Seq<[u32; 3]>, Seq<u32>),
    Int(Seq<[u32; 3]>, Seq<i32>),
    Vec2(Seq<[u32; 3]>, Seq<[u32; 2]>),
    Vec3(Seq<[u32; 3]>, Seq<[u32; 3]>),
    Vec4(Seq<[u32; 3]>, Seq<[u32; 4]>),
}

/// The contents of `s`.
pub open spec fn samples_view(s: AttributeSamples) -> SamplesView {
    match s {
        AttributeSamples::Float { positions, values } => SamplesView::Float(positions@, values@),
        AttributeSamples::Int { positions, values } => SamplesView::Int(positions@, values@),
        AttributeSamples::Vec2 { positions, values } => SamplesView::Vec2(positions@, values@),
        AttributeSamples::Vec3 { positions, values } => SamplesView::Vec3(positions@, values@),
        AttributeSamples::Vec4 { positions, values } => SamplesView::Vec4(positions@, values@),
    }
}

/// The samples of an attribute at the given positions, of the attribute's type.
pub open spec fn fresh_samples(positions: Seq<[u32; 3]>, attr: AttributeRef) -> SamplesView {
    match attr {
        AttributeRef::Float(v) => SamplesView::Float(positions, v@),
        AttributeRef::Int(v) => SamplesView::Int(positions, v@),
        AttributeRef::Vec2(v) => SamplesView::Vec2(positions, v@),
        AttributeRef::Vec3(v) => SamplesView::Vec3(positions, v@),
        AttributeRef::Vec4(v) => SamplesView::Vec4(positions, v@),
    }
}

/// `old` with the positions and values of `attr` added at its end, where both have
/// the same type; `old` itself otherwise.
pub open spec fn grown_samples(old: SamplesView, positions: Seq<[u32; 3]>, attr: AttributeRef) -> SamplesView {
    match (old, attr) {
        (SamplesView::Float(p, v), AttributeRef::Float(w)) => SamplesView::Float(p + positions, v + w@),
        (SamplesView::Int(p, v), AttributeRef::Int(w)) => SamplesView::Int(p + positions, v + w@),
        (SamplesView::Vec2(p, v), AttributeRef::Vec2(w)) => SamplesView::Vec2(p + positions, v + w@),
        (SamplesView::Vec3(p, v), AttributeRef::Vec3(w)) => SamplesView::Vec3(p + positions, v + w@),
        (SamplesView::Vec4(p, v), AttributeRef::Vec4(w)) => SamplesView::Vec4(p + positions, v + w@),
        _ => old,
    }
}

/// `s` with the positions and values of `attr` added at its end, where both have the
/// same type; `s` unchanged otherwise.
fn grow_samples(s: AttributeSamples, positions: &[[u32; 3]], attr: AttributeRef) -> (r: AttributeSamples)
    ensures
        samples_view(r) == grown_samples(samples_view(s), positions@, attr),
{
    match (s, attr) {
        (AttributeSamples::Float { positions: mut p, values: mut v }, AttributeRef::Float(w)) => {
            extend_values(&mut p, positions);
            extend_values(&mut v, w);
            AttributeSamples::Float { positions: p, values: v }
        },
        (AttributeSamples::Int { positions: mut p, values: mut v }, AttributeRef::Int(w)) => {
            extend_values(&mut p, positions);
            extend_values(&mut v, w);
            AttributeSamples::Int { positions: p, values: v }
        },
        (AttributeSamples::Vec2 { positions: mut p, values: mut v }, AttributeRef::Vec2(w)) => {
            extend_values(&mut p, positions);
            extend_values(&mut v, w);
            AttributeSamples::Vec2 { positions: p, values: v }
        },
        (AttributeSamples::Vec3 { positions: mut p, values: mut v }, AttributeRef::Vec3(w)) => {
            extend_values(&mut p, positions);
            extend_values(&mut v, w);
            AttributeSamples::Vec3 { positions: p, values: v }
        },
        (AttributeSamples::Vec4 { positions: mut p, values: mut v }, AttributeRef::Vec4(w)) => {
            extend_values(&mut p, positions);
            extend_values(&mut v, w);
            AttributeSamples::Vec4 { positions: p, values: v }
        },
        (s, _) => s,
    }
}

/// Adds the samples of attribute `attr` at `positions` under `name`: a new entry when
/// there is none, appended to the entry when it holds the same type, and nothing when
/// its type differs, when there are no positions, or when the attribute does not give
/// one value per position.
pub fn append_samples(samples: &mut TextMap<AttributeSamples>, name: &str, positions: &[[u32; 3]], attr: AttributeRef)
    requires
        old(samples).wf(),
    ensures
        final(samples).wf(),
        (ref_len(attr) != positions@.len() || positions@.len() == 0) ==> final(samples)@ == old(samples)@,
        (ref_len(attr) == positions@.len() && positions@.len() > 0) ==> {
            &&& final(samples)@.dom() == old(samples)@.dom().insert(name@)
            &&& forall|k: Seq<char>| k != name@ && #[trigger] old(samples)@.contains_key(k) ==> final(samples)@[k] == old(samples)@[k]
            &&& samples_view(final(samples)@[name@]) == (if old(samples)@.contains_key(name@) {
                grown_samples(samples_view(old(samples)@[name@]), positions@, attr)
            } else {
                fresh_samples(positions@, attr)
            })
        },
{
    if attr.len() != positions.len() || positions.len() == 0 {
        return;
    }
    let updated = match samples.remove(name) {
        None => match attr {
            AttributeRef::Float(v) => AttributeSamples::Float { positions: copy_values(positions), values: copy_values(v) },
            AttributeRef::Int(v) => AttributeSamples::Int { positions: copy_values(positions), values: copy_values(v) },
            AttributeRef::Vec2(v) => AttributeSamples::Vec2 { positions: copy_values(positions), values: copy_values(v) },
            AttributeRef::Vec3(v) => AttributeSamples::Vec3 { positions: copy_values(positions), values: copy_values(v) },
            AttributeRef::Vec4(v) => AttributeSamples::Vec4 { positions: copy_values(positions), values: copy_values(v) },
        },
        Some(existing) => grow_samples(existing, positions, attr),
    };
    samples.insert(owned(name), updated);
    proof {
        assert(final(samples)@.dom() =~= old(samples)@.dom().insert(name@));
    }
}


/// The number of values of gathered samples.
pub open spec fn samples_len(s: AttributeSamples) -> nat {
    match s {
        AttributeSamples::Float { values, .. } => values@.len(),
        AttributeSamples::Int { values, .. } => values@.len(),
        AttributeSamples::Vec2 { values, .. } => values@.len(),
        AttributeSamples::Vec3 { values, .. } => values@.len(),
        AttributeSamples::Vec4 { values, .. } => values@.len(),
    }
}

/// The number of source positions of gathered samples.
pub open spec fn samples_positions_len(s: AttributeSamples) -> nat {
    match s {
        AttributeSamples::Float { positions, .. } => positions@.len(),
        AttributeSamples::Int { positions, .. } => positions@.len(),
        AttributeSamples::Vec2 { positions, .. } => positions@.len(),
        AttributeSamples::Vec3 { positions, .. } => positions@.len(),
        AttributeSamples::Vec4 { positions, .. } => positions@.len(),
    }
}

/// The mesh has no position for any element of the domain: no points, no corner
/// with a point, no triangle, or (for the detail domain) no points to take the
/// centre of.
pub open spec fn domain_positions_empty(m: Mesh, domain: AttributeDomain) -> bool {
    match domain {
        AttributeDomain::Point => m.positions@.len() == 0,
        AttributeDomain::Vertex => forall|j: int| 0 <= j < m.indices@.len() ==> m.indices@[j] >= m.positions@.len(),
        AttributeDomain::Primitive => m.indices@.len() / 3 == 0,
        AttributeDomain::Detail => m.positions@.len() == 0,
    }
}

/// The existing values of an attribute, where it holds integers.
pub open spec fn ints_of(v: Option<StorageValues>) -> Option<Seq<i32>> {
    match v { Some(StorageValues::Int(x)) => Some(x), _ => None }
}

/// The existing values of an attribute, where it holds quadruples.
pub open spec fn quads_of(v: Option<StorageValues>) -> Option<Seq<[u32; 4]>> {
    match v { Some(StorageValues::Vec4(x)) => Some(x), _ => None }
}

/// The values a transfer of gathered attribute `k` writes: where there are source
/// positions, what `f` gives for `k`, each position the mask holds and the start value
/// there, and the start value elsewhere; the start values unchanged where there are no
/// source positions.
pub open spec fn transferred<T, F: Fn(usize, usize, T) -> T>(start: Seq<T>, mask: Option<Seq<bool>>, sources: bool, f: F, k: usize, out: Seq<T>) -> bool {
    if sources {
        &&& out.len() == start.len()
        &&& forall|i: int| 0 <= i < start.len() ==> if mask_selects(mask, i) {
            call_ensures(f, (k, i as usize, start[i]), #[trigger] out[i])
        } else {
            out[i] == start[i]
        }
    } else {
        out == start
    }
}

/// Whether some corner of the mesh has a point.
fn some_corner_has_point(mesh: &Mesh) -> (r: bool)
    ensures
        r == !(forall|j: int| 0 <= j < mesh.indices@.len() ==> mesh.indices@[j] >= mesh.positions@.len()),
{
    let mut j: usize = 0;
    while j < mesh.indices.len()
        invariant
            0 <= j <= mesh.indices@.len(),
            forall|k: int| 0 <= k < j ==> mesh.indices@[k] >= mesh.positions@.len(),
        decreases mesh.indices@.len() - j,
    {
        if (mesh.indices[j] as usize) < mesh.positions.len() {
            return true;
        }
        j = j + 1;
    }
    false
}

/// `start` itself, or `f` for `k` applied where the mask holds when `sources` is set.
fn transfer_values<T: Copy, F: Fn(usize, usize, T) -> T>(start: Vec<T>, mask: Option<&[bool]>, sources: bool, f: &F, k: usize) -> (out: Vec<T>)
    requires
        forall|a: usize, i: usize, v: T| call_requires(*f, (a, i, v)),
    ensures
        transferred(start@, opt_bools(mask), sources, *f, k, out@),
{
    if !sources {
        return start;
    }
    let mut out: Vec<T> = Vec::new();
    let mut i: usize = 0;
    while i < start.len()
        invariant
            0 <= i <= start@.len(),
            out@.len() == i,
            forall|a: usize, j: usize, v: T| call_requires(*f, (a, j, v)),
            forall|j: int| 0 <= j < i ==> if mask_selects(opt_bools(mask), j) {
                call_ensures(*f, (k, j as usize, start@[j]), #[trigger] out@[j])
            } else {
                out@[j] == start@[j]
            },
        decreases start@.len() - i,
    {
        let selected = match mask {
            Some(m) => i < m.len() && m[i],
            None => true,
        };
        if selected {
            assert(mask_selects(opt_bools(mask), i as int));
            out.push(f(k, i, start[i]));
        } else {
            out.push(start[i]);
        }
        i = i + 1;
    }
    out
}

/// The message for a refused attribute.
pub open spec fn transfer_error(e: AttributeError) -> Seq<char> {
    "Attribute Transfer error: "@ + error_text(e)
}

/// What transferring gathered attribute `k`, named `name`, with samples `samples`
/// does to mesh `m` (giving `after` and result `r`): nothing when there are no
/// samples, when the domain is empty (but for the detail domain), when the group mask
/// selects nothing, or when no element of the domain has a position; otherwise the
/// attribute's values (or zeros) are transferred where the mask holds and stored, and
/// an error from storing them is the result.
pub open spec fn transfer_step<F1, F2, F3, F4, F5>(
    params: NodeParams, m: Mesh, domain: AttributeDomain, name: Seq<char>, samples: AttributeSamples, k: usize,
    f1: F1, f2: F2, f3: F3, f4: F4, f5: F5, after: Mesh, r: Result<(), Seq<char>>,
) -> bool
    where
        F1: Fn(usize, usize, u32) -> u32,
        F2: Fn(usize, usize, i32) -> i32,
        F3: Fn(usize, usize, [u32; 2]) -> [u32; 2],
        F4: Fn(usize, usize, [u32; 3]) -> [u32; 3],
        F5: Fn(usize, usize, [u32; 4]) -> [u32; 4],
{
    let count = m.domain_len(domain);
    let mask = node_group_mask(params, m, domain);
    let existing = attribute_values(m, domain, name);
    let sources = samples_positions_len(samples) > 0;
    if samples_len(samples) == 0 || (count == 0 && domain != AttributeDomain::Detail)
        || (mask matches Some(g) && !any_set(g)) || domain_positions_empty(m, domain) {
        r == Ok::<(), Seq<char>>(()) && after == m
    } else {
        exists|s: AttributeStorage, res: Result<(), AttributeError>| {
            &&& set_outcome(m, domain, name, s, res, after)
            &&& match samples {
                AttributeSamples::Float { .. } => s matches AttributeStorage::Float(v)
                    && transferred(start_values(floats_of(existing), count, 0u32), mask, sources, f1, k, v@),
                AttributeSamples::Int { .. } => s matches AttributeStorage::Int(v)
                    && transferred(start_values(ints_of(existing), count, 0i32), mask, sources, f2, k, v@),
                AttributeSamples::Vec2 { .. } => s matches AttributeStorage::Vec2(v)
                    && transferred(start_values(pairs_of(existing), count, [0u32, 0u32]), mask, sources, f3, k, v@),
                AttributeSamples::Vec3 { .. } => s matches AttributeStorage::Vec3(v)
                    && transferred(start_values(triples_of(existing), count, [0u32, 0u32, 0u32]), mask, sources, f4, k, v@),
                AttributeSamples::Vec4 { .. } => s matches AttributeStorage::Vec4(v)
                    && transferred(start_values(quads_of(existing), count, [0u32, 0u32, 0u32, 0u32]), mask, sources, f5, k, v@),
            }
            &&& match res {
                Ok(()) => r == Ok::<(), Seq<char>>(()),
                Err(e) => r == Err::<(), Seq<char>>(transfer_error(e)),
            }
        }
    }
}

/// The result of a transfer step, with its message as characters.
pub open spec fn result_text(r: Result<(), String>) -> Result<(), Seq<char>> {
    match r {
        Ok(()) => Ok(()),
        Err(m) => Err(m@),
    }
}

/// Transfers gathered attribute `k` (named `name`, with samples `samples`) onto the
/// mesh, as the node does for each attribute it gathered; which source samples a
/// target element takes and how they combine (nearest neighbours by distance) is
/// what `f1` ... `f5` give for `k`, an element position and its start value.
pub fn transfer_attribute_with<F1, F2, F3, F4, F5>(
    params: &NodeParams,
    mesh: &mut Mesh,
    domain: AttributeDomain,
    name: &str,
    samples: &AttributeSamples,
    k: usize,
    f1: &F1,
    f2: &F2,
    f3: &F3,
    f4: &F4,
    f5: &F5,
) -> (r: Result<(), String>)
    where
        F1: Fn(usize, usize, u32) -> u32,
        F2: Fn(usize, usize, i32) -> i32,
        F3: Fn(usize, usize, [u32; 2]) -> [u32; 2],
        F4: Fn(usize, usize, [u32; 3]) -> [u32; 3],
        F5: Fn(usize, usize, [u32; 4]) -> [u32; 4],
    requires
        params.values.wf(),
        old(mesh).wf(),
        forall|a: usize, i: usize, v: u32| call_requires(*f1, (a, i, v)),
        forall|a: usize, i: usize, v: i32| call_requires(*f2, (a, i, v)),
        forall|a: usize, i: usize, v: [u32; 2]| call_requires(*f3, (a, i, v)),
        forall|a: usize, i: usize, v: [u32; 3]| call_requires(*f4, (a, i, v)),
        forall|a: usize, i: usize, v: [u32; 4]| call_requires(*f5, (a, i, v)),
    ensures
        final(mesh).wf(),
        transfer_step(*params, *old(mesh), domain, name@, *samples, k, *f1, *f2, *f3, *f4, *f5, *final(mesh), result_text(r)),
{
    let (n_values, n_positions) = match samples {
        AttributeSamples::Float { positions, values } => (values.len(), positions.len()),
        AttributeSamples::Int { positions, values } => (values.len(), positions.len()),
        AttributeSamples::Vec2 { positions, values } => (values.len(), positions.len()),
        AttributeSamples::Vec3 { positions, values } => (values.len(), positions.len()),
        AttributeSamples::Vec4 { positions, values } => (values.len(), positions.len()),
    };
    if n_values == 0 {
        return Ok(());
    }
    let count = mesh.attribute_domain_len(domain);
    if count == 0 && domain != AttributeDomain::Detail {
        return Ok(());
    }
    let topo = MeshTopology { point_count: mesh.positions.len(), indices: copy_values(mesh.indices.as_slice()), face_counts: Vec::new() };
    let corner_count: usize = topo.indices.len();
    proof {
        assert(corner_count == topo.indices@.len());
        lemma_unsized_corners_fit(topo);
        assert(topo.faces() == mesh.faces());
    }
    let mask = mesh_group_mask(&topo, &mesh.groups, params, domain);
    let ghost gm = node_group_mask(*params, *mesh, domain);
    assert(mask matches Some(g) ==> gm == Some(g@));
    assert(mask is None ==> gm is None);
    let mask_ref: Option<&[bool]> = match &mask {
        Some(g) => Some(g.as_slice()),
        None => None,
    };
    assert(opt_bools(mask_ref) == gm);
    if !mask_has_any(mask_ref) {
        return Ok(());
    }
    let positions_empty = match domain {
        AttributeDomain::Point => mesh.positions.len() == 0,
        AttributeDomain::Vertex => !some_corner_has_point(mesh),
        AttributeDomain::Primitive => mesh.indices.len() / 3 == 0,
        AttributeDomain::Detail => mesh.positions.len() == 0,
    };
    if positions_empty {
        return Ok(());
    }
    let sources = n_positions > 0;
    let storage = match samples {
        AttributeSamples::Float { .. } => {
            let start = existing_float_attr_mesh(mesh, domain, name, count);
            AttributeStorage::Float(transfer_values(start, mask_ref, sources, f1, k))
        },
        AttributeSamples::Int { .. } => {
            let start = existing_int_attr_mesh(mesh, domain, name, count);
            AttributeStorage::Int(transfer_values(start, mask_ref, sources, f2, k))
        },
        AttributeSamples::Vec2 { .. } => {
            let start = existing_vec2_attr_mesh(mesh, domain, name, count);
            AttributeStorage::Vec2(transfer_values(start, mask_ref, sources, f3, k))
        },
        AttributeSamples::Vec3 { .. } => {
            let start = existing_vec3_attr_mesh(mesh, domain, name, count);
            AttributeStorage::Vec3(transfer_values(start, mask_ref, sources, f4, k))
        },
        AttributeSamples::Vec4 { .. } => {
            let start = existing_vec4_attr_mesh(mesh, domain, name, count);
            AttributeStorage::Vec4(transfer_values(start, mask_ref, sources, f5, k))
        },
    };
    let ghost m0 = *mesh;
    let ghost s = storage;
    let res = mesh.set_attribute(domain, owned(name), storage);
    proof {
        assert(set_outcome(m0, domain, name@, s, res, *mesh));
    }
    match res {
        Ok(()) => Ok(()),
        Err(e) => Err(attribute_error_message("Attribute Transfer error: ", e)),
    }
}


/// `ms` are the meshes that transferring the first `ms.len() - 1` gathered attributes
/// of `es` one after the other gives, starting from `ms[0]`, each step succeeding.
pub open spec fn transfer_chain<F1, F2, F3, F4, F5>(
    params: NodeParams, domain: AttributeDomain, es: Seq<(String, AttributeSamples)>,
    f1: F1, f2: F2, f3: F3, f4: F4, f5: F5, ms: Seq<Mesh>,
) -> bool
    where
        F1: Fn(usize, usize, u32) -> u32,
        F2: Fn(usize, usize, i32) -> i32,
        F3: Fn(usize, usize, [u32; 2]) -> [u32; 2],
        F4: Fn(usize, usize, [u32; 3]) -> [u32; 3],
        F5: Fn(usize, usize, [u32; 4]) -> [u32; 4],
{
    &&& 1 <= ms.len() <= es.len() + 1
    &&& forall|j: int| 0 <= j < ms.len() - 1 ==> #[trigger] transfer_step(params, ms[j], domain, es[j].0@, es[j].1, j as usize,
        f1, f2, f3, f4, f5, ms[j + 1], Ok(()))
}

/// Transfers every gathered attribute onto the mesh in turn, in the order of the
/// samples' entries, stopping at the first error, which is the result. Otherwise the
/// result says whether the points moved (positions were gathered on the point
/// domain), so that their normals are to be computed again.
pub fn apply_transfer_to_mesh_with<F1, F2, F3, F4, F5>(
    params: &NodeParams,
    samples: &TextMap<AttributeSamples>,
    domain: AttributeDomain,
    mesh: &mut Mesh,
    f1: &F1,
    f2: &F2,
    f3: &F3,
    f4: &F4,
    f5: &F5,
) -> (r: Result<bool, String>)
    where
        F1: Fn(usize, usize, u32) -> u32,
        F2: Fn(usize, usize, i32) -> i32,
        F3: Fn(usize, usize, [u32; 2]) -> [u32; 2],
        F4: Fn(usize, usize, [u32; 3]) -> [u32; 3],
        F5: Fn(usize, usize, [u32; 4]) -> [u32; 4],
    requires
        params.values.wf(),
        samples.wf(),
        old(mesh).wf(),
        forall|a: usize, i: usize, v: u32| call_requires(*f1, (a, i, v)),
        forall|a: usize, i: usize, v: i32| call_requires(*f2, (a, i, v)),
        forall|a: usize, i: usize, v: [u32; 2]| call_requires(*f3, (a, i, v)),
        forall|a: usize, i: usize, v: [u32; 3]| call_requires(*f4, (a, i, v)),
        forall|a: usize, i: usize, v: [u32; 4]| call_requires(*f5, (a, i, v)),
    ensures
        final(mesh).wf(),
        exists|ms: Seq<Mesh>| {
            &&& #[trigger] transfer_chain(*params, domain, samples.entries_view(), *f1, *f2, *f3, *f4, *f5, ms)
            &&& ms[0] == *old(mesh)
            &&& match r {
                Ok(moved) => ms.len() == samples.entries_view().len() + 1 && *final(mesh) == ms.last()
                    && moved == (domain == AttributeDomain::Point && samples@.contains_key("P"@)),
                Err(msg) => ms.len() <= samples.entries_view().len() && transfer_step(*params, ms.last(), domain,
                    samples.entries_view()[ms.len() - 1].0@, samples.entries_view()[ms.len() - 1].1, (ms.len() - 1) as usize,
                    *f1, *f2, *f3, *f4, *f5, *final(mesh), Err(msg@)),
            }
        },
{
    let entries = samples.entries();
    let ghost es = samples.entries_view();
    let ghost mut ms: Seq<Mesh> = seq![*mesh];
    let mut k: usize = 0;
    while k < entries.len()
        invariant
            entries@ == es,
            es == samples.entries_view(),
            params.values.wf(),
            mesh.wf(),
            0 <= k <= es.len(),
            ms.len() == k + 1,
            ms[0] == *old(mesh),
            ms.last() == *mesh,
            transfer_chain(*params, domain, es, *f1, *f2, *f3, *f4, *f5, ms),
            forall|a: usize, i: usize, v: u32| call_requires(*f1, (a, i, v)),
            forall|a: usize, i: usize, v: i32| call_requires(*f2, (a, i, v)),
            forall|a: usize, i: usize, v: [u32; 2]| call_requires(*f3, (a, i, v)),
            forall|a: usize, i: usize, v: [u32; 3]| call_requires(*f4, (a, i, v)),
            forall|a: usize, i: usize, v: [u32; 4]| call_requires(*f5, (a, i, v)),
        decreases es.len() - k,
    {
        let ghost before = *mesh;
        let r = transfer_attribute_with(params, mesh, domain, entries[k].0.as_str(), &entries[k].1, k, f1, f2, f3, f4, f5);
        match r {
            Ok(()) => {
                proof {
                    let ms2 = ms.push(*mesh);
                    assert forall|j: int| 0 <= j < ms2.len() - 1 implies #[trigger] transfer_step(*params, ms2[j], domain, es[j].0@,
                        es[j].1, j as usize, *f1, *f2, *f3, *f4, *f5, ms2[j + 1], Ok(())) by {
                        if j < ms.len() - 1 {
                            assert(ms2[j] == ms[j] && ms2[j + 1] == ms[j + 1]);
                        } else {
                            assert(ms2[j] == before && ms2[j + 1] == *mesh);
                        }
                    }
                    ms = ms2;
                }
            },
            Err(msg) => {
                proof {
                    assert(transfer_chain(*params, domain, es, *f1, *f2, *f3, *f4, *f5, ms));
                }
                return Err(msg);
            },
        }
        k = k + 1;
    }
    let moved = domain == AttributeDomain::Point && samples.contains_key("P");
    proof {
        assert(transfer_chain(*params, domain, es, *f1, *f2, *f3, *f4, *f5, ms));
    }
    Ok(moved)
}


/// The splats have no position for any element of the domain: no splats, or the
/// corner domain (splats have no corners).
pub open spec fn splat_positions_empty(s: SplatGeo, domain: AttributeDomain) -> bool {
    domain == AttributeDomain::Vertex || s.count() == 0
}

/// What transferring gathered attribute `k`, named `name`, with samples `samples`
/// does to splats `s` (giving `after` and result `r`), as `transfer_step` does for
/// meshes.
pub open spec fn splat_transfer_step<F1, F2, F3, F4, F5>(
    params: NodeParams, s: SplatGeo, domain: AttributeDomain, name: Seq<char>, samples: AttributeSamples, k: usize,
    f1: F1, f2: F2, f3: F3, f4: F4, f5: F5, after: SplatGeo, r: Result<(), Seq<char>>,
) -> bool
    where
        F1: Fn(usize, usize, u32) -> u32,
        F2: Fn(usize, usize, i32) -> i32,
        F3: Fn(usize, usize, [u32; 2]) -> [u32; 2],
        F4: Fn(usize, usize, [u32; 3]) -> [u32; 3],
        F5: Fn(usize, usize, [u32; 4]) -> [u32; 4],
{
    let count = s.domain_len(domain);
    let mask = splat_mask(params, s, domain);
    let existing = splat_attribute_values(s, domain, name);
    let sources = samples_positions_len(samples) > 0;
    if samples_len(samples) == 0 || (count == 0 && domain != AttributeDomain::Detail)
        || (mask matches Some(g) && !any_set(g)) || splat_positions_empty(s, domain) {
        r == Ok::<(), Seq<char>>(()) && after == s
    } else {
        exists|st: AttributeStorage, res: Result<(), AttributeError>| {
            &&& splat_set_outcome(s, domain, name, st, res, after)
            &&& match samples {
                AttributeSamples::Float { .. } => st matches AttributeStorage::Float(v)
                    && transferred(start_values(floats_of(existing), count, 0u32), mask, sources, f1, k, v@),
                AttributeSamples::Int { .. } => st matches AttributeStorage::Int(v)
                    && transferred(start_values(ints_of(existing), count, 0i32), mask, sources, f2, k, v@),
                AttributeSamples::Vec2 { .. } => st matches AttributeStorage::Vec2(v)
                    && transferred(start_values(pairs_of(existing), count, [0u32, 0u32]), mask, sources, f3, k, v@),
                AttributeSamples::Vec3 { .. } => st matches AttributeStorage::Vec3(v)
                    && transferred(start_values(triples_of(existing), count, [0u32, 0u32, 0u32]), mask, sources, f4, k, v@),
                AttributeSamples::Vec4 { .. } => st matches AttributeStorage::Vec4(v)
                    && transferred(start_values(quads_of(existing), count, [0u32, 0u32, 0u32, 0u32]), mask, sources, f5, k, v@),
            }
            &&& match res {
                Ok(()) => r == Ok::<(), Seq<char>>(()),
                Err(e) => r == Err::<(), Seq<char>>(transfer_error(e)),
            }
        }
    }
}

/// Transfers gathered attribute `k` (named `name`, with samples `samples`) onto the
/// splats, as the node does for each attribute it gathered; the combination of
/// source samples is what `f1` ... `f5` give, as for meshes.
pub fn transfer_attribute_to_splats_with<F1, F2, F3, F4, F5>(
    params: &NodeParams,
    splats: &mut SplatGeo,
    domain: AttributeDomain,
    name: &str,
    samples: &AttributeSamples,
    k: usize,
    f1: &F1,
    f2: &F2,
    f3: &F3,
    f4: &F4,
    f5: &F5,
) -> (r: Result<(), String>)
    where
        F1: Fn(usize, usize, u32) -> u32,
        F2: Fn(usize, usize, i32) -> i32,
        F3: Fn(usize, usize, [u32; 2]) -> [u32; 2],
        F4: Fn(usize, usize, [u32; 3]) -> [u32; 3],
        F5: Fn(usize, usize, [u32; 4]) -> [u32; 4],
    requires
        params.values.wf(),
        old(splats).wf(),
        forall|a: usize, i: usize, v: u32| call_requires(*f1, (a, i, v)),
        forall|a: usize, i: usize, v: i32| call_requires(*f2, (a, i, v)),
        forall|a: usize, i: usize, v: [u32; 2]| call_requires(*f3, (a, i, v)),
        forall|a: usize, i: usize, v: [u32; 3]| call_requires(*f4, (a, i, v)),
        forall|a: usize, i: usize, v: [u32; 4]| call_requires(*f5, (a, i, v)),
    ensures
        final(splats).wf(),
        splat_transfer_step(*params, *old(splats), domain, name@, *samples, k, *f1, *f2, *f3, *f4, *f5, *final(splats), result_text(r)),
{
    let (n_values, n_positions) = match samples {
        AttributeSamples::Float { positions, values } => (values.len(), positions.len()),
        AttributeSamples::Int { positions, values } => (values.len(), positions.len()),
        AttributeSamples::Vec2 { positions, values } => (values.len(), positions.len()),
        AttributeSamples::Vec3 { positions, values } => (values.len(), positions.len()),
        AttributeSamples::Vec4 { positions, values } => (values.len(), positions.len()),
    };
    if n_values == 0 {
        return Ok(());
    }
    let count = splats.attribute_domain_len(domain);
    if count == 0 && domain != AttributeDomain::Detail {
        return Ok(());
    }
    let mask = splat_group_mask(splats, params, domain);
    let mask_ref: Option<&[bool]> = match &mask {
        Some(g) => Some(g.as_slice()),
        None => None,
    };
    assert(opt_bools(mask_ref) == splat_mask(*params, *splats, domain));
    if !mask_has_any(mask_ref) {
        return Ok(());
    }
    if domain == AttributeDomain::Vertex || splats.len() == 0 {
        return Ok(());
    }
    let sources = n_positions > 0;
    let storage = match samples {
        AttributeSamples::Float { .. } => {
            let start = existing_float_attr_splats(splats, domain, name, count);
            AttributeStorage::Float(transfer_values(start, mask_ref, sources, f1, k))
        },
        AttributeSamples::Int { .. } => {
            let start = existing_int_attr_splats(splats, domain, name, count);
            AttributeStorage::Int(transfer_values(start, mask_ref, sources, f2, k))
        },
        AttributeSamples::Vec2 { .. } => {
            let start = existing_vec2_attr_splats(splats, domain, name, count);
            AttributeStorage::Vec2(transfer_values(start, mask_ref, sources, f3, k))
        },
        AttributeSamples::Vec3 { .. } => {
            let start = existing_vec3_attr_splats(splats, domain, name, count);
            AttributeStorage::Vec3(transfer_values(start, mask_ref, sources, f4, k))
        },
        AttributeSamples::Vec4 { .. } => {
            let start = existing_vec4_attr_splats(splats, domain, name, count);
            AttributeStorage::Vec4(transfer_values(start, mask_ref, sources, f5, k))
        },
    };
    let ghost s0 = *splats;
    let ghost st = storage;
    let res = splats.set_attribute(domain, owned(name), storage);
    proof {
        assert(splat_set_outcome(s0, domain, name@, st, res, *splats));
    }
    match res {
        Ok(()) => Ok(()),
        Err(e) => Err(attribute_error_message("Attribute Transfer error: ", e)),
    }
}

/// `ss` are the splats that transferring the first `ss.len() - 1` gathered attributes
/// of `es` one after the other gives, starting from `ss[0]`, each step succeeding.
pub open spec fn splat_transfer_chain<F1, F2, F3, F4, F5>(
    params: NodeParams, domain: AttributeDomain, es: Seq<(String, AttributeSamples)>,
    f1: F1, f2: F2, f3: F3, f4: F4, f5: F5, ss: Seq<SplatGeo>,
) -> bool
    where
        F1: Fn(usize, usize, u32) -> u32,
        F2: Fn(usize, usize, i32) -> i32,
        F3: Fn(usize, usize, [u32; 2]) -> [u32; 2],
        F4: Fn(usize, usize, [u32; 3]) -> [u32; 3],
        F5: Fn(usize, usize, [u32; 4]) -> [u32; 4],
{
    &&& 1 <= ss.len() <= es.len() + 1
    &&& forall|j: int| 0 <= j < ss.len() - 1 ==> #[trigger] splat_transfer_step(params, ss[j], domain, es[j].0@, es[j].1, j as usize,
        f1, f2, f3, f4, f5, ss[j + 1], Ok(()))
}

/// Transfers every gathered attribute onto the splats in turn, in the order of the
/// samples' entries, stopping at the first error, which is the result.
pub fn apply_transfer_to_splats_with<F1, F2, F3, F4, F5>(
    params: &NodeParams,
    samples: &TextMap<AttributeSamples>,
    domain: AttributeDomain,
    splats: &mut SplatGeo,
    f1: &F1,
    f2: &F2,
    f3: &F3,
    f4: &F4,
    f5: &F5,
) -> (r: Result<(), String>)
    where
        F1: Fn(usize, usize, u32) -> u32,
        F2: Fn(usize, usize, i32) -> i32,
        F3: Fn(usize, usize, [u32; 2]) -> [u32; 2],
        F4: Fn(usize, usize, [u32; 3]) -> [u32; 3],
        F5: Fn(usize, usize, [u32; 4]) -> [u32; 4],
    requires
        params.values.wf(),
        samples.wf(),
        old(splats).wf(),
        forall|a: usize, i: usize, v: u32| call_requires(*f1, (a, i, v)),
        forall|a: usize, i: usize, v: i32| call_requires(*f2, (a, i, v)),
        forall|a: usize, i: usize, v: [u32; 2]| call_requires(*f3, (a, i, v)),
        forall|a: usize, i: usize, v: [u32; 3]| call_requires(*f4, (a, i, v)),
        forall|a: usize, i: usize, v: [u32; 4]| call_requires(*f5, (a, i, v)),
    ensures
        final(splats).wf(),
        exists|ss: Seq<SplatGeo>| {
            &&& #[trigger] splat_transfer_chain(*params, domain, samples.entries_view(), *f1, *f2, *f3, *f4, *f5, ss)
            &&& ss[0] == *old(splats)
            &&& match r {
                Ok(()) => ss.len() == samples.entries_view().len() + 1 && *final(splats) == ss.last(),
                Err(msg) => ss.len() <= samples.entries_view().len() && splat_transfer_step(*params, ss.last(), domain,
                    samples.entries_view()[ss.len() - 1].0@, samples.entries_view()[ss.len() - 1].1, (ss.len() - 1) as usize,
                    *f1, *f2, *f3, *f4, *f5, *final(splats), Err(msg@)),
            }
        },
{
    let entries = samples.entries();
    let ghost es = samples.entries_view();
    let ghost mut ss: Seq<SplatGeo> = seq![*splats];
    let mut k: usize = 0;
    while k < entries.len()
        invariant
            entries@ == es,
            es == samples.entries_view(),
            params.values.wf(),
            splats.wf(),
            0 <= k <= es.len(),
            ss.len() == k + 1,
            ss[0] == *old(splats),
            ss.last() == *splats,
            splat_transfer_chain(*params, domain, es, *f1, *f2, *f3, *f4, *f5, ss),
            forall|a: usize, i: usize, v: u32| call_requires(*f1, (a, i, v)),
            forall|a: usize, i: usize, v: i32| call_requires(*f2, (a, i, v)),
            forall|a: usize, i: usize, v: [u32; 2]| call_requires(*f3, (a, i, v)),
            forall|a: usize, i: usize, v: [u32; 3]| call_requires(*f4, (a, i, v)),
            forall|a: usize, i: usize, v: [u32; 4]| call_requires(*f5, (a, i, v)),
        decreases es.len() - k,
    {
        let ghost before = *splats;
        let r = transfer_attribute_to_splats_with(params, splats, domain, entries[k].0.as_str(), &entries[k].1, k, f1, f2, f3, f4, f5);
        match r {
            Ok(()) => {
                proof {
                    let ss2 = ss.push(*splats);
                    assert forall|j: int| 0 <= j < ss2.len() - 1 implies #[trigger] splat_transfer_step(*params, ss2[j], domain, es[j].0@,
                        es[j].1, j as usize, *f1, *f2, *f3, *f4, *f5, ss2[j + 1], Ok(())) by {
                        if j < ss.len() - 1 {
                            assert(ss2[j] == ss[j] && ss2[j + 1] == ss[j + 1]);
                        } else {
                            assert(ss2[j] == before && ss2[j + 1] == *splats);
                        }
                    }
                    ss = ss2;
                }
            },
            Err(msg) => {
                proof {
                    assert(splat_transfer_chain(*params, domain, es, *f1, *f2, *f3, *f4, *f5, ss));
                }
                return Err(msg);
            },
        }
        k = k + 1;
    }
    proof {
        assert(splat_transfer_chain(*params, domain, es, *f1, *f2, *f3, *f4, *f5, ss));
    }
    Ok(())
}

} // verus!
