//! Merging sets of splats into one: every per-splat channel one set after another,
//! the further spherical-harmonic coefficients padded to the largest count, and
//! attributes and groups combined by name.

use vstd::prelude::*;
use crate::attributes::{AttributeDomain, AttributeStorage, AttributeType, MeshAttributes, storage_len, storage_type};
use crate::attribute_values::{
    StorageValues, append_storage, copy_storage, empty_storage, storage_equal, storage_equals, storage_values,
    values_concat, values_empty, extend_values,
};
use crate::mesh_groups::MeshGroups;
use crate::mesh_merge::lemma_take_step;
use crate::splat::SplatGeo;
use crate::text_map::{TextMap, lemma_entry_in_map};

verus! {

/// The positions of the sets, one set after another.
pub open spec fn splat_positions_concat(splats: Seq<SplatGeo>) -> Seq<[u32; 3]>
    decreases splats.len(),
{
    if splats.len() == 0 { Seq::empty() } else { splat_positions_concat(splats.drop_last()) + splats.last().positions@ }
}

/// The rotations of the sets, one set after another.
pub open spec fn splat_rotations_concat(splats: Seq<SplatGeo>) -> Seq<[u32; 4]>
    decreases splats.len(),
{
    if splats.len() == 0 { Seq::empty() } else { splat_rotations_concat(splats.drop_last()) + splats.last().rotations@ }
}

/// The scales of the sets, one set after another.
pub open spec fn splat_scales_concat(splats: Seq<SplatGeo>) -> Seq<[u32; 3]>
    decreases splats.len(),
{
    if splats.len() == 0 { Seq::empty() } else { splat_scales_concat(splats.drop_last()) + splats.last().scales@ }
}

/// The opacities of the sets, one set after another.
pub open spec fn splat_opacity_concat(splats: Seq<SplatGeo>) -> Seq<u32>
    decreases splats.len(),
{
    if splats.len() == 0 { Seq::empty() } else { splat_opacity_concat(splats.drop_last()) + splats.last().opacity@ }
}

/// The base colours of the sets, one set after another.
pub open spec fn splat_sh0_concat(splats: Seq<SplatGeo>) -> Seq<[u32; 3]>
    decreases splats.len(),
{
    if splats.len() == 0 { Seq::empty() } else { splat_sh0_concat(splats.drop_last()) + splats.last().sh0@ }
}

/// The largest coefficient count of the sets (0 for none).
pub open spec fn max_sh_coeffs(splats: Seq<SplatGeo>) -> nat
    decreases splats.len(),
{
    if splats.len() == 0 {
        0
    } else {
        let m = max_sh_coeffs(splats.drop_last());
        if splats.last().sh_coeffs > m { splats.last().sh_coeffs as nat } else { m }
    }
}

/// Every set holds its coefficients: `sh_coeffs` of them for each splat.
pub open spec fn sh_rest_fits(splats: Seq<SplatGeo>) -> bool {
    forall|k: int| 0 <= k < splats.len()
        ==> (#[trigger] splats[k]).count() * splats[k].sh_coeffs <= splats[k].sh_rest@.len()
}

/// The `max` coefficients of splat `i` of `s`: its own, then zeros.
pub open spec fn sh_row(s: SplatGeo, i: int, max: nat) -> Seq<[u32; 3]> {
    Seq::new(max, |c: int| if c < s.sh_coeffs { s.sh_rest@[i * s.sh_coeffs + c] } else { [0u32, 0u32, 0u32] })
}

/// The padded coefficients of the first `n` splats of `s`.
pub open spec fn sh_rows(s: SplatGeo, max: nat, n: nat) -> Seq<[u32; 3]>
    decreases n,
{
    if n == 0 { Seq::empty() } else { sh_rows(s, max, (n - 1) as nat) + sh_row(s, n - 1, max) }
}

/// The padded coefficients of the first `n` splats of `s` hold `max` entries per
/// splat, splat by splat: entry `c` of splat `i` is the splat's own coefficient `c`
/// where it has one, and zero otherwise.
pub proof fn law_sh_rows(s: SplatGeo, max: nat, n: nat)
    ensures
        sh_rows(s, max, n).len() == n * max,
        forall|i: int, c: int| 0 <= i < n && 0 <= c < max ==> #[trigger] sh_rows(s, max, n)[i * max + c]
            == if c < s.sh_coeffs { s.sh_rest@[i * s.sh_coeffs + c] } else { [0u32, 0u32, 0u32] },
    decreases n,
{
    if n > 0 {
        let m = (n - 1) as nat;
        law_sh_rows(s, max, m);
        let prev = sh_rows(s, max, m);
        let row = sh_row(s, m as int, max);
        assert(sh_rows(s, max, n) == prev + row);
        assert(m * max + max == n * max) by (nonlinear_arith)
            requires
                m + 1 == n,
        ;
        assert forall|i: int, c: int| 0 <= i < n && 0 <= c < max implies #[trigger] sh_rows(s, max, n)[i * max + c]
            == if c < s.sh_coeffs { s.sh_rest@[i * s.sh_coeffs + c] } else { [0u32, 0u32, 0u32] } by {
            if i < m {
                assert(i * max + c < m * max) by (nonlinear_arith)
                    requires
                        i < m,
                        0 <= c < max,
                        0 <= i,
                ;
                assert(sh_rows(s, max, n)[i * max + c] == prev[i * max + c]);
            } else {
                assert(i == m);
                assert(sh_rows(s, max, n)[i * max + c] == row[c]);
            }
        }
    }
}

/// The padded coefficients of every splat of the sets, one set after another.
pub open spec fn sh_rest_concat(splats: Seq<SplatGeo>, max: nat) -> Seq<[u32; 3]>
    decreases splats.len(),
{
    if splats.len() == 0 {
        Seq::empty()
    } else {
        sh_rest_concat(splats.drop_last(), max) + sh_rows(splats.last(), max, splats.last().count())
    }
}

/// The attribute `name` of `domain` in `s` (meaningful where `s` has it).
pub open spec fn splat_attr(s: SplatGeo, domain: AttributeDomain, name: Seq<char>) -> AttributeStorage {
    s.attributes.table(domain)@[name]
}

/// Whether `s` has the attribute `name` of `domain`, with values of type `t`.
pub open spec fn splat_attr_has_type(s: SplatGeo, domain: AttributeDomain, name: Seq<char>, t: AttributeType) -> bool {
    s.attributes.table(domain)@.contains_key(name) && storage_type(splat_attr(s, domain, name)) == t
}

/// Every set from `from` on has the attribute, with values of type `t`.
pub open spec fn splat_attr_typed_from(splats: Seq<SplatGeo>, from: int, domain: AttributeDomain, name: Seq<char>, t: AttributeType) -> bool {
    forall|k: int| from <= k < splats.len() ==> #[trigger] splat_attr_has_type(splats[k], domain, name, t)
}

/// Every set holds as many values of the attribute as the domain has elements,
/// where the domain has any.
pub open spec fn splat_attr_lengths_fit(splats: Seq<SplatGeo>, domain: AttributeDomain, name: Seq<char>) -> bool {
    forall|k: int| 0 <= k < splats.len() ==> (#[trigger] splats[k]).domain_len(domain) == 0
        || storage_len(splat_attr(splats[k], domain, name)) == splats[k].domain_len(domain)
}

/// Every set after the first holds detail values equal to those of the first.
pub open spec fn splat_attr_detail_agrees(splats: Seq<SplatGeo>, domain: AttributeDomain, name: Seq<char>) -> bool {
    forall|k: int| 1 <= k < splats.len()
        ==> storage_equal(#[trigger] splat_attr(splats[k], domain, name), splat_attr(splats[0], domain, name))
}

/// Whether the attribute `name` of `domain` is kept by a merge: the domain is the
/// point, primitive or detail domain; the first set has the attribute; every other
/// set has it with values of the same type; and detail values agree while other
/// values fill their domains.
pub open spec fn splat_attr_merges(splats: Seq<SplatGeo>, domain: AttributeDomain, name: Seq<char>) -> bool {
    &&& domain != AttributeDomain::Vertex
    &&& splats.len() > 0
    &&& splats[0].attributes.table(domain)@.contains_key(name)
    &&& splat_attr_typed_from(splats, 1, domain, name, storage_type(splat_attr(splats[0], domain, name)))
    &&& if domain == AttributeDomain::Detail {
        splat_attr_detail_agrees(splats, domain, name)
    } else {
        splat_attr_lengths_fit(splats, domain, name)
    }
}

/// The values of the attribute in every set, one set after another, starting
/// from no values of type `t`.
pub open spec fn splat_attr_values_concat(splats: Seq<SplatGeo>, domain: AttributeDomain, name: Seq<char>, t: AttributeType) -> StorageValues
    decreases splats.len(),
{
    if splats.len() == 0 {
        values_empty(t)
    } else {
        values_concat(splat_attr_values_concat(splats.drop_last(), domain, name, t), storage_values(splat_attr(splats.last(), domain, name)))
    }
}

/// The values a merge keeps for an attribute: those of the first set for a detail
/// attribute, those of all sets one after another otherwise.
pub open spec fn splat_merged_attr_values(splats: Seq<SplatGeo>, domain: AttributeDomain, name: Seq<char>) -> StorageValues {
    if domain == AttributeDomain::Detail {
        storage_values(splat_attr(splats[0], domain, name))
    } else {
        splat_attr_values_concat(splats, domain, name, storage_type(splat_attr(splats[0], domain, name)))
    }
}

/// The part of a merged group that set `s` gives: its own mask where it has the
/// group with one flag per splat, no member otherwise.
pub open spec fn splat_group_piece(s: SplatGeo, domain: AttributeDomain, name: Seq<char>) -> Seq<bool> {
    if s.groups.table(domain)@.contains_key(name) && s.groups.table(domain)@[name]@.len() == s.domain_len(domain) {
        s.groups.table(domain)@[name]@
    } else {
        Seq::new(s.domain_len(domain), |i: int| false)
    }
}

/// A merged group: the pieces of all sets, one after another.
pub open spec fn splat_group_concat(splats: Seq<SplatGeo>, domain: AttributeDomain, name: Seq<char>) -> Seq<bool>
    decreases splats.len(),
{
    if splats.len() == 0 {
        Seq::empty()
    } else {
        splat_group_concat(splats.drop_last(), domain, name) + splat_group_piece(splats.last(), domain, name)
    }
}

/// Whether `s` has a group `name` in `domain`.
pub open spec fn splat_has_group(s: SplatGeo, domain: AttributeDomain, name: Seq<char>) -> bool {
    s.groups.table(domain)@.contains_key(name)
}

/// Whether some set has a group `name` in `domain`.
pub open spec fn splat_group_named(splats: Seq<SplatGeo>, domain: AttributeDomain, name: Seq<char>) -> bool {
    exists|k: int| 0 <= k < splats.len() && #[trigger] splat_has_group(splats[k], domain, name)
}

/// Whether `r` is the merge of `splats`: every per-splat channel one set after
/// another; the largest coefficient count, with every splat's coefficients padded
/// to it by zeros (no coefficients where that count is 0); the attributes that
/// survive, with their merged values; and every point or primitive group of any
/// set, with its merged mask.
pub open spec fn is_splat_merge_of(r: SplatGeo, splats: Seq<SplatGeo>) -> bool {
    let max = max_sh_coeffs(splats);
    &&& r.positions@ == splat_positions_concat(splats)
    &&& r.rotations@ == splat_rotations_concat(splats)
    &&& r.scales@ == splat_scales_concat(splats)
    &&& r.opacity@ == splat_opacity_concat(splats)
    &&& r.sh0@ == splat_sh0_concat(splats)
    &&& r.sh_coeffs == max
    &&& r.sh_rest@ == (if max == 0 { Seq::empty() } else { sh_rest_concat(splats, max) })
    &&& forall|d: AttributeDomain, n: Seq<char>| #[trigger] r.attributes.table(d)@.contains_key(n) <==> splat_attr_merges(splats, d, n)
    &&& forall|d: AttributeDomain, n: Seq<char>| splat_attr_merges(splats, d, n)
        ==> storage_values(#[trigger] r.attributes.table(d)@[n]) == splat_merged_attr_values(splats, d, n)
    &&& forall|d: AttributeDomain, n: Seq<char>| d != AttributeDomain::Detail
        ==> (#[trigger] r.groups.table(d)@.contains_key(n) <==> d != AttributeDomain::Vertex && splat_group_named(splats, d, n))
    &&& forall|d: AttributeDomain, n: Seq<char>| d != AttributeDomain::Detail && #[trigger] r.groups.table(d)@.contains_key(n)
        ==> r.groups.table(d)@[n]@ == splat_group_concat(splats, d, n)
}

/// Every set's tables are well formed.
pub open spec fn all_splats_wf(splats: Seq<SplatGeo>) -> bool {
    forall|k: int| 0 <= k < splats.len() ==> (#[trigger] splats[k]).wf()
}

/// The largest coefficient count of the sets.
fn largest_sh_coeffs(splats: &[SplatGeo]) -> (r: usize)
    ensures
        r == max_sh_coeffs(splats@),
{
    let mut m: usize = 0;
    let mut k: usize = 0;
    while k < splats.len()
        invariant
            0 <= k <= splats@.len(),
            m == max_sh_coeffs(splats@.take(k as int)),
        decreases splats@.len() - k,
    {
        if splats[k].sh_coeffs > m {
            m = splats[k].sh_coeffs;
        }
        proof {
            lemma_take_step(splats@, k as int);
        }
        k = k + 1;
    }
    assert(splats@.take(splats@.len() as int) =~= splats@);
    m
}

/// Appends the coefficients of every splat of `s`, each padded to `max` by zeros.
fn push_sh_rows(out: &mut Vec<[u32; 3]>, s: &SplatGeo, max: usize)
    requires
        s.count() * s.sh_coeffs <= s.sh_rest@.len(),
    ensures
        final(out)@ == old(out)@ + sh_rows(*s, max as nat, s.count()),
{
    let ghost start = out@;
    let coeffs = s.sh_coeffs;
    let n = s.len();
    let mut i: usize = 0;
    while i < n
        invariant
            n == s.count(),
            coeffs == s.sh_coeffs,
            n * coeffs <= s.sh_rest@.len(),
            0 <= i <= n,
            out@ == start + sh_rows(*s, max as nat, i as nat),
        decreases n - i,
    {
        let ghost row_start = out@;
        let mut c: usize = 0;
        while c < max
            invariant
                n == s.count(),
                coeffs == s.sh_coeffs,
                n * coeffs <= s.sh_rest@.len(),
                0 <= i < n,
                0 <= c <= max,
                out@ == row_start + sh_row(*s, i as int, max as nat).take(c as int),
            decreases max - c,
        {
            let value = if c < coeffs {
                assert(i * coeffs + c < s.sh_rest@.len()) by (nonlinear_arith)
                    requires
                        i < n,
                        c < coeffs,
                        n * coeffs <= s.sh_rest@.len(),
                {
                    assert(i * coeffs + coeffs == (i + 1) * coeffs);
                    assert((i + 1) * coeffs <= n * coeffs);
                }
                let len = s.sh_rest.len();
                assert(i * coeffs <= len);
                let base = i * coeffs;
                s.sh_rest[base + c]
            } else {
                [0u32, 0u32, 0u32]
            };
            out.push(value);
            c = c + 1;
            proof {
                assert(out@ =~= row_start + sh_row(*s, i as int, max as nat).take(c as int));
            }
        }
        i = i + 1;
        proof {
            assert(sh_row(*s, i - 1, max as nat).take(max as int) =~= sh_row(*s, i - 1, max as nat));
            assert(out@ =~= start + sh_rows(*s, max as nat, i as nat));
        }
    }
}

/// The per-splat channels of the sets one set after another, and their padded
/// coefficients (none where `max` is 0).
fn merge_channels(splats: &[SplatGeo], max: usize) -> (r: (Vec<[u32; 3]>, Vec<[u32; 4]>, Vec<[u32; 3]>, Vec<u32>, Vec<[u32; 3]>, Vec<[u32; 3]>))
    requires
        sh_rest_fits(splats@),
        max == max_sh_coeffs(splats@),
    ensures
        r.0@ == splat_positions_concat(splats@),
        r.1@ == splat_rotations_concat(splats@),
        r.2@ == splat_scales_concat(splats@),
        r.3@ == splat_opacity_concat(splats@),
        r.4@ == splat_sh0_concat(splats@),
        r.5@ == (if max == 0 { Seq::empty() } else { sh_rest_concat(splats@, max as nat) }),
{
    let mut positions: Vec<[u32; 3]> = Vec::new();
    let mut rotations: Vec<[u32; 4]> = Vec::new();
    let mut scales: Vec<[u32; 3]> = Vec::new();
    let mut opacity: Vec<u32> = Vec::new();
    let mut sh0: Vec<[u32; 3]> = Vec::new();
    let mut sh_rest: Vec<[u32; 3]> = Vec::new();
    let mut k: usize = 0;
    while k < splats.len()
        invariant
            sh_rest_fits(splats@),
            max == max_sh_coeffs(splats@),
            0 <= k <= splats@.len(),
            positions@ == splat_positions_concat(splats@.take(k as int)),
            rotations@ == splat_rotations_concat(splats@.take(k as int)),
            scales@ == splat_scales_concat(splats@.take(k as int)),
            opacity@ == splat_opacity_concat(splats@.take(k as int)),
            sh0@ == splat_sh0_concat(splats@.take(k as int)),
            sh_rest@ == (if max == 0 { Seq::empty() } else { sh_rest_concat(splats@.take(k as int), max as nat) }),
        decreases splats@.len() - k,
    {
        let splat = &splats[k];
        extend_values(&mut positions, splat.positions.as_slice());
        extend_values(&mut rotations, splat.rotations.as_slice());
        extend_values(&mut scales, splat.scales.as_slice());
        extend_values(&mut opacity, splat.opacity.as_slice());
        extend_values(&mut sh0, splat.sh0.as_slice());
        if max > 0 {
            assert(splats@[k as int] == *splat);
            push_sh_rows(&mut sh_rest, splat, max);
        }
        proof {
            lemma_take_step(splats@, k as int);
        }
        k = k + 1;
    }
    assert(splats@.take(splats@.len() as int) =~= splats@);
    (positions, rotations, scales, opacity, sh0, sh_rest)
}

/// Whether every set after the first has the attribute with values of type `t`.
fn splat_attr_types_agree(splats: &[SplatGeo], domain: AttributeDomain, name: &str, t: AttributeType) -> (r: bool)
    requires
        all_splats_wf(splats@),
    ensures
        r == splat_attr_typed_from(splats@, 1, domain, name@, t),
{
    if splats.len() == 0 {
        return true;
    }
    let mut k: usize = 1;
    while k < splats.len()
        invariant
            all_splats_wf(splats@),
            1 <= k <= splats@.len(),
            forall|i: int| 1 <= i < k ==> #[trigger] splat_attr_has_type(splats@[i], domain, name@, t),
        decreases splats@.len() - k,
    {
        assert(splats@[k as int].wf());
        match splats[k].attributes.get(domain, name) {
            Some(s) => {
                let st = s.data_type();
                assert(splats@[k as int].attributes.table(domain)@.contains_key(name@));
                assert(splat_attr(splats@[k as int], domain, name@) == *s);
                if st != t {
                    assert(!splat_attr_has_type(splats@[k as int], domain, name@, t));
                    return false;
                }
            },
            None => {
                assert(!splat_attr_has_type(splats@[k as int], domain, name@, t));
                return false;
            },
        }
        assert(splat_attr_has_type(splats@[k as int], domain, name@, t));
        k = k + 1;
    }
    true
}

/// Whether every set after the first holds values equal to `first`.
fn splat_detail_agrees(splats: &[SplatGeo], domain: AttributeDomain, name: &str, first: &AttributeStorage) -> (r: bool)
    requires
        all_splats_wf(splats@),
        splats@.len() > 0,
        *first == splat_attr(splats@[0], domain, name@),
        splat_attr_typed_from(splats@, 1, domain, name@, storage_type(*first)),
    ensures
        r == splat_attr_detail_agrees(splats@, domain, name@),
{
    let mut k: usize = 1;
    while k < splats.len()
        invariant
            all_splats_wf(splats@),
            splats@.len() > 0,
            *first == splat_attr(splats@[0], domain, name@),
            splat_attr_typed_from(splats@, 1, domain, name@, storage_type(*first)),
            1 <= k <= splats@.len(),
            forall|i: int| 1 <= i < k ==> storage_equal(#[trigger] splat_attr(splats@[i], domain, name@), splat_attr(splats@[0], domain, name@)),
        decreases splats@.len() - k,
    {
        assert(splats@[k as int].wf());
        assert(splat_attr_has_type(splats@[k as int], domain, name@, storage_type(*first)));
        match splats[k].attributes.get(domain, name) {
            Some(s) => {
                if !storage_equals(s, first) {
                    assert(!storage_equal(splat_attr(splats@[k as int], domain, name@), splat_attr(splats@[0], domain, name@)));
                    return false;
                }
            },
            None => {
                return false;
            },
        }
        k = k + 1;
    }
    true
}

/// The values of the attribute in every set one after another, where each set
/// holds as many as its domain has elements (or its domain has none).
fn splat_concat_attribute(splats: &[SplatGeo], domain: AttributeDomain, name: &str, t: AttributeType) -> (r: Option<AttributeStorage>)
    requires
        all_splats_wf(splats@),
        splat_attr_typed_from(splats@, 0, domain, name@, t),
    ensures
        r is Some <==> splat_attr_lengths_fit(splats@, domain, name@),
        r matches Some(s) ==> storage_values(s) == splat_attr_values_concat(splats@, domain, name@, t) && storage_type(s) == t,
{
    let mut combined = empty_storage(t);
    let mut k: usize = 0;
    while k < splats.len()
        invariant
            all_splats_wf(splats@),
            splat_attr_typed_from(splats@, 0, domain, name@, t),
            0 <= k <= splats@.len(),
            storage_type(combined) == t,
            storage_values(combined) == splat_attr_values_concat(splats@.take(k as int), domain, name@, t),
            forall|i: int| 0 <= i < k ==> (#[trigger] splats@[i]).domain_len(domain) == 0
                || storage_len(splat_attr(splats@[i], domain, name@)) == splats@[i].domain_len(domain),
        decreases splats@.len() - k,
    {
        assert(splats@[k as int].wf());
        assert(splat_attr_has_type(splats@[k as int], domain, name@, t));
        let expected = splats[k].attribute_domain_len(domain);
        match splats[k].attributes.get(domain, name) {
            Some(current) => {
                if expected != 0 && current.len() != expected {
                    return None;
                }
                let (c, _) = append_storage(combined, current);
                combined = c;
            },
            None => {
                return None;
            },
        }
        proof {
            lemma_take_step(splats@, k as int);
        }
        k = k + 1;
    }
    assert(splats@.take(splats@.len() as int) =~= splats@);
    Some(combined)
}

/// The merged attribute table of one domain.
fn splat_attribute_table(splats: &[SplatGeo], domain: AttributeDomain) -> (r: TextMap<AttributeStorage>)
    requires
        all_splats_wf(splats@),
        splats@.len() > 0,
        domain != AttributeDomain::Vertex,
    ensures
        r.wf(),
        forall|n: Seq<char>| #[trigger] r@.contains_key(n) <==> splat_attr_merges(splats@, domain, n),
        forall|n: Seq<char>| splat_attr_merges(splats@, domain, n) ==> storage_values(#[trigger] r@[n]) == splat_merged_attr_values(splats@, domain, n),
{
    assert(splats@[0].wf());
    let first = splats[0].attributes.map(domain);
    assert(first.wf());
    let entries = first.entries();
    let mut out: TextMap<AttributeStorage> = TextMap::new();
    let mut j: usize = 0;
    while j < entries.len()
        invariant
            all_splats_wf(splats@),
            splats@.len() > 0,
            domain != AttributeDomain::Vertex,
            *first == splats@[0].attributes.table(domain),
            first.wf(),
            entries@ == first.entries_view(),
            0 <= j <= entries@.len(),
            out.wf(),
            forall|n: Seq<char>| #[trigger] out@.contains_key(n) <==> (splat_attr_merges(splats@, domain, n)
                && exists|i: int| 0 <= i < j && entries@[i].0@ == n),
            forall|n: Seq<char>| #[trigger] out@.contains_key(n) ==> storage_values(out@[n]) == splat_merged_attr_values(splats@, domain, n),
        decreases entries@.len() - j,
    {
        let name = &entries[j].0;
        let storage = &entries[j].1;
        proof {
            lemma_entry_in_map(first.entries_view(), j as int);
            assert forall|i: int| 0 <= i < j implies entries@[i].0@ != name@ by {}
        }
        let t = storage.data_type();
        let ghost n = name@;
        if splat_attr_types_agree(splats, domain, name.as_str(), t) {
            let value = if domain == AttributeDomain::Detail {
                if splat_detail_agrees(splats, domain, name.as_str(), storage) {
                    Some(copy_storage(storage))
                } else {
                    None
                }
            } else {
                proof {
                    assert forall|k: int| 0 <= k < splats@.len() implies #[trigger] splat_attr_has_type(splats@[k], domain, n, t) by {
                        if k == 0 {
                            assert(first@.contains_key(n));
                        }
                    }
                }
                splat_concat_attribute(splats, domain, name.as_str(), t)
            };
            match value {
                Some(v) => {
                    let key = name.clone();
                    out.insert(key, v);
                },
                None => {},
            }
        }
        proof {
            assert forall|m: Seq<char>| #[trigger] out@.contains_key(m) <==> (splat_attr_merges(splats@, domain, m)
                && exists|i: int| 0 <= i < j + 1 && entries@[i].0@ == m) by {
                if m == n {
                    assert(entries@[j as int].0@ == m);
                } else {
                    if exists|i: int| 0 <= i < j + 1 && entries@[i].0@ == m {
                        let i = choose|i: int| 0 <= i < j + 1 && entries@[i].0@ == m;
                        assert(i < j);
                    }
                }
            }
        }
        j = j + 1;
    }
    proof {
        assert forall|n: Seq<char>| splat_attr_merges(splats@, domain, n) implies #[trigger] out@.contains_key(n) by {
            assert(first@.contains_key(n));
            let i = choose|i: int| 0 <= i < first.entries_view().len() && first.entries_view()[i].0@ == n;
            assert(entries@[i].0@ == n);
        }
        assert forall|n: Seq<char>| splat_attr_merges(splats@, domain, n) implies storage_values(#[trigger] out@[n])
            == splat_merged_attr_values(splats@, domain, n) by {
            assert(out@.contains_key(n));
        }
    }
    out
}

/// The merged group of `name`: the pieces of all splats one after another.
fn splat_concat_group(splats: &[SplatGeo], domain: AttributeDomain, name: &str) -> (r: Vec<bool>)
    requires
        all_splats_wf(splats@),
        domain != AttributeDomain::Detail,
    ensures
        r@ == splat_group_concat(splats@, domain, name@),
{
    let mut values: Vec<bool> = Vec::new();
    let mut k: usize = 0;
    while k < splats.len()
        invariant
            all_splats_wf(splats@),
            domain != AttributeDomain::Detail,
            0 <= k <= splats@.len(),
            values@ == splat_group_concat(splats@.take(k as int), domain, name@),
        decreases splats@.len() - k,
    {
        assert(splats@[k as int].wf());
        let len = splats[k].attribute_domain_len(domain);
        let table = splats[k].groups.map(domain);
        assert(table.wf());
        let ghost before = values@;
        let mut own = false;
        match table.get(name) {
            Some(group) => {
                if group.len() == len {
                    extend_values(&mut values, group.as_slice());
                    own = true;
                }
            },
            None => {},
        }
        if !own {
            let mut c: usize = 0;
            while c < len
                invariant
                    0 <= c <= len,
                    values@ == before + Seq::new(c as nat, |i: int| false),
                decreases len - c,
            {
                values.push(false);
                c = c + 1;
                proof {
                    assert(values@ =~= before + Seq::new(c as nat, |i: int| false));
                }
            }
        }
        proof {
            lemma_take_step(splats@, k as int);
            assert(values@ =~= before + splat_group_piece(splats@[k as int], domain, name@));
        }
        k = k + 1;
    }
    assert(splats@.take(splats@.len() as int) =~= splats@);
    values
}

/// The merged group table of one domain: every group name of any set.
fn splat_group_table(splats: &[SplatGeo], domain: AttributeDomain) -> (r: TextMap<Vec<bool>>)
    requires
        all_splats_wf(splats@),
        domain != AttributeDomain::Detail,
    ensures
        r.wf(),
        forall|n: Seq<char>| #[trigger] r@.contains_key(n) <==> splat_group_named(splats@, domain, n),
        forall|n: Seq<char>| #[trigger] r@.contains_key(n) ==> r@[n]@ == splat_group_concat(splats@, domain, n),
{
    let mut out: TextMap<Vec<bool>> = TextMap::new();
    let mut k: usize = 0;
    while k < splats.len()
        invariant
            all_splats_wf(splats@),
            domain != AttributeDomain::Detail,
            0 <= k <= splats@.len(),
            out.wf(),
            forall|n: Seq<char>| #[trigger] out@.contains_key(n) <==> splat_group_named(splats@.take(k as int), domain, n),
            forall|n: Seq<char>| #[trigger] out@.contains_key(n) ==> out@[n]@ == splat_group_concat(splats@, domain, n),
        decreases splats@.len() - k,
    {
        assert(splats@[k as int].wf());
        let table = splats[k].groups.map(domain);
        assert(table.wf());
        let entries = table.entries();
        let mut j: usize = 0;
        while j < entries.len()
            invariant
                all_splats_wf(splats@),
                domain != AttributeDomain::Detail,
                0 <= k < splats@.len(),
                *table == splats@[k as int].groups.table(domain),
                table.wf(),
                entries@ == table.entries_view(),
                0 <= j <= entries@.len(),
                out.wf(),
                forall|n: Seq<char>| #[trigger] out@.contains_key(n) <==> (splat_group_named(splats@.take(k as int), domain, n)
                    || exists|i: int| 0 <= i < j && entries@[i].0@ == n),
                forall|n: Seq<char>| #[trigger] out@.contains_key(n) ==> out@[n]@ == splat_group_concat(splats@, domain, n),
            decreases entries@.len() - j,
        {
            let name = &entries[j].0;
            if !out.contains_key(name.as_str()) {
                let values = splat_concat_group(splats, domain, name.as_str());
                out.insert(name.clone(), values);
            }
            proof {
                assert forall|m: Seq<char>| #[trigger] out@.contains_key(m) <==> (splat_group_named(splats@.take(k as int), domain, m)
                    || exists|i: int| 0 <= i < j + 1 && entries@[i].0@ == m) by {
                    if exists|i: int| 0 <= i < j + 1 && entries@[i].0@ == m {
                        let i = choose|i: int| 0 <= i < j + 1 && entries@[i].0@ == m;
                        if i == j {
                            assert(m == name@);
                        }
                    }
                }
            }
            j = j + 1;
        }
        proof {
            lemma_take_step(splats@, k as int);
            let next = splats@.take(k + 1);
            assert forall|n: Seq<char>| #[trigger] out@.contains_key(n) <==> splat_group_named(next, domain, n) by {
                if out@.contains_key(n) {
                    if splat_group_named(splats@.take(k as int), domain, n) {
                        let i = choose|i: int| 0 <= i < k && #[trigger] splat_has_group(splats@.take(k as int)[i], domain, n);
                        assert(next[i] == splats@.take(k as int)[i]);
                        assert(splat_has_group(next[i], domain, n));
                    } else {
                        let i = choose|i: int| 0 <= i < entries@.len() && entries@[i].0@ == n;
                        lemma_entry_in_map(table.entries_view(), i);
                        assert(next[k as int] == splats@[k as int]);
                        assert(splat_has_group(next[k as int], domain, n));
                    }
                }
                if splat_group_named(next, domain, n) {
                    let i = choose|i: int| 0 <= i < k + 1 && #[trigger] splat_has_group(next[i], domain, n);
                    if i < k {
                        assert(splats@.take(k as int)[i] == next[i]);
                        assert(splat_has_group(splats@.take(k as int)[i], domain, n));
                    } else {
                        assert(next[i] == splats@[k as int]);
                        assert(table@.contains_key(n));
                        let e = choose|e: int| 0 <= e < table.entries_view().len() && table.entries_view()[e].0@ == n;
                        assert(entries@[e].0@ == n);
                    }
                }
            }
        }
        k = k + 1;
    }
    assert(splats@.take(splats@.len() as int) =~= splats@);
    out
}

/// One set holding all of `splats`: positions, rotations, scales, opacities and
/// base colours one set after another; the largest coefficient count, with each
/// splat's coefficients padded by zeros to it; the point, primitive and detail
/// attributes of the first set that every set has with one type (detail attributes
/// where all agree, others where each set fills its domain); and every point or
/// primitive group of any set, with no members where a set lacks it.
pub fn merge_splats(splats: &[SplatGeo]) -> (r: SplatGeo)
    requires
        all_splats_wf(splats@),
        sh_rest_fits(splats@),
    ensures
        r.wf(),
        is_splat_merge_of(r, splats@),
{
    let max = largest_sh_coeffs(splats);
    let (positions, rotations, scales, opacity, sh0, sh_rest) = merge_channels(splats, max);
    let attributes = if splats.len() == 0 {
        MeshAttributes::new()
    } else {
        MeshAttributes::from_tables(
            splat_attribute_table(splats, AttributeDomain::Point),
            TextMap::new(),
            splat_attribute_table(splats, AttributeDomain::Primitive),
            splat_attribute_table(splats, AttributeDomain::Detail),
        )
    };
    let groups = MeshGroups::from_tables(
        splat_group_table(splats, AttributeDomain::Point),
        TextMap::new(),
        splat_group_table(splats, AttributeDomain::Primitive),
    );
    let r = SplatGeo { positions, rotations, scales, opacity, sh0, sh_coeffs: max, sh_rest, attributes, groups };
    proof {
        assert forall|d: AttributeDomain| #[trigger] r.attributes.table(d).wf() by {}
        assert forall|d: AttributeDomain, n: Seq<char>| #[trigger] r.attributes.table(d)@.contains_key(n)
            <==> splat_attr_merges(splats@, d, n) by {}
        assert forall|d: AttributeDomain, n: Seq<char>| d != AttributeDomain::Detail
            implies (#[trigger] r.groups.table(d)@.contains_key(n) <==> d != AttributeDomain::Vertex && splat_group_named(splats@, d, n)) by {}
    }
    r
}

/// Merging a single set gives back its positions, rotations, scales, opacities,
/// base colours and coefficient count, and every point, primitive or detail
/// attribute that is a detail attribute or fills its domain, with the same values.
pub proof fn law_splat_merge_single(s: SplatGeo, r: SplatGeo)
    requires
        is_splat_merge_of(r, seq![s]),
    ensures
        r.positions@ == s.positions@,
        r.rotations@ == s.rotations@,
        r.scales@ == s.scales@,
        r.opacity@ == s.opacity@,
        r.sh0@ == s.sh0@,
        r.sh_coeffs == s.sh_coeffs,
        forall|d: AttributeDomain, n: Seq<char>| #![trigger r.attributes.table(d)@[n]]
            d != AttributeDomain::Vertex && s.attributes.table(d)@.contains_key(n) && (d == AttributeDomain::Detail
            || s.domain_len(d) == 0 || storage_len(splat_attr(s, d, n)) == s.domain_len(d))
            ==> r.attributes.table(d)@.contains_key(n) && storage_values(r.attributes.table(d)@[n]) == storage_values(splat_attr(s, d, n)),
{
    let q = seq![s];
    assert(q.drop_last() =~= Seq::<SplatGeo>::empty());
    assert(q.last() == s);
    assert(splat_positions_concat(q.drop_last()).len() == 0);
    assert(splat_rotations_concat(q.drop_last()).len() == 0);
    assert(splat_scales_concat(q.drop_last()).len() == 0);
    assert(splat_opacity_concat(q.drop_last()).len() == 0);
    assert(splat_sh0_concat(q.drop_last()).len() == 0);
    assert(splat_positions_concat(q) =~= s.positions@);
    assert(splat_rotations_concat(q) =~= s.rotations@);
    assert(splat_scales_concat(q) =~= s.scales@);
    assert(splat_opacity_concat(q) =~= s.opacity@);
    assert(splat_sh0_concat(q) =~= s.sh0@);
    assert(max_sh_coeffs(q.drop_last()) == 0);
    assert(max_sh_coeffs(q) == s.sh_coeffs);
    assert forall|d: AttributeDomain, n: Seq<char>| #![trigger r.attributes.table(d)@[n]]
        d != AttributeDomain::Vertex && s.attributes.table(d)@.contains_key(n) && (d == AttributeDomain::Detail
        || s.domain_len(d) == 0 || storage_len(splat_attr(s, d, n)) == s.domain_len(d))
        implies r.attributes.table(d)@.contains_key(n) && storage_values(r.attributes.table(d)@[n]) == storage_values(splat_attr(s, d, n)) by {
        assert(q[0] == s);
        assert(splat_attr_merges(q, d, n));
        if d != AttributeDomain::Detail {
            let t = storage_type(splat_attr(s, d, n));
            assert(splat_attr_values_concat(q.drop_last(), d, n, t) == values_empty(t));
            match splat_attr(s, d, n) {
                AttributeStorage::Float(v) => { assert(Seq::<u32>::empty() + v@ =~= v@); },
                AttributeStorage::Int(v) => { assert(Seq::<i32>::empty() + v@ =~= v@); },
                AttributeStorage::Vec2(v) => { assert(Seq::<[u32; 2]>::empty() + v@ =~= v@); },
                AttributeStorage::Vec3(v) => { assert(Seq::<[u32; 3]>::empty() + v@ =~= v@); },
                AttributeStorage::Vec4(v) => { assert(Seq::<[u32; 4]>::empty() + v@ =~= v@); },
            }
        }
    }
}

} // verus!
