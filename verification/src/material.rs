//! Materials and the library that holds them by name. Float values are held as
//! their IEEE-754 bit patterns.

use vstd::prelude::*;
use crate::text_map::{TextMap, entries_map, entry_names, lemma_entry_in_map, lemma_map_after_push, names_unique};
use crate::text_order::texts_increasing;

verus! {

/// The bit pattern of 1.0.
pub const ONE_BITS: u32 = 0x3f80_0000;

/// The bit pattern of 0.5.
pub const HALF_BITS: u32 = 0x3f00_0000;

/// A surface material.
#[derive(Debug)]
pub struct Material {
    pub name: String,
    pub base_color: [u32; 3],
    pub metallic: u32,
    pub roughness: u32,
    pub base_color_texture: Option<String>,
}

impl Material {
    /// A white, non-metallic material of medium roughness without a texture.
    pub fn new(name: String) -> (m: Self)
        ensures
            m.name == name,
            m.base_color == [ONE_BITS, ONE_BITS, ONE_BITS],
            m.metallic == 0,
            m.roughness == HALF_BITS,
            m.base_color_texture.is_none(),
    {
        Material { name, base_color: [ONE_BITS, ONE_BITS, ONE_BITS], metallic: 0, roughness: HALF_BITS, base_color_texture: None }
    }
}

/// A copy of a material.
pub fn copy_material(m: &Material) -> (c: Material)
    ensures
        c == *m,
{
    let texture = match &m.base_color_texture {
        Some(t) => Some(t.clone()),
        None => None,
    };
    Material {
        name: m.name.clone(),
        base_color: m.base_color,
        metallic: m.metallic,
        roughness: m.roughness,
        base_color_texture: texture,
    }
}

/// Materials by name, kept in the order of their names.
#[derive(Debug)]
pub struct MaterialLibrary {
    materials: TextMap<Material>,
}

impl MaterialLibrary {
    /// The entries: each material under its own name, names increasing.
    pub closed spec fn entries_view(&self) -> Seq<(String, Material)> {
        self.materials.entries_view()
    }

    /// The materials in the order of their names.
    pub open spec fn list(&self) -> Seq<Material> {
        self.entries_view().map_values(|e: (String, Material)| e.1)
    }

    /// The materials by name.
    pub open spec fn view(&self) -> Map<Seq<char>, Material> {
        entries_map(self.entries_view())
    }

    /// Names are distinct and increase, and each material is filed under its name.
    pub open spec fn wf(&self) -> bool {
        &&& names_unique(self.entries_view())
        &&& texts_increasing(entry_names(self.entries_view()))
        &&& forall|i: int| 0 <= i < self.entries_view().len() ==> (#[trigger] self.entries_view()[i]).1.name@ == self.entries_view()[i].0@
    }

    /// An empty library.
    pub fn new() -> (r: Self)
        ensures
            r.wf(),
            r@ == Map::<Seq<char>, Material>::empty(),
            r.list().len() == 0,
    {
        let r = MaterialLibrary { materials: TextMap::new() };
        assert(entry_names(r.entries_view()) =~= Seq::<Seq<char>>::empty());
        r
    }

    /// Whether the library holds no material.
    pub fn is_empty(&self) -> (r: bool)
        ensures
            r == (self.list().len() == 0),
    {
        self.materials.is_empty()
    }

    /// Files `material` under its name, replacing a material of that name.
    pub fn insert(&mut self, material: Material)
        requires
            old(self).wf(),
        ensures
            final(self).wf(),
            final(self)@ == old(self)@.insert(material.name@, material),
    {
        let ghost before = self.entries_view();
        let name = material.name.clone();
        let ghost m = material;
        self.materials.insert_in_order(name, material);
        proof {
            let after = self.entries_view();
            assert forall|i: int| 0 <= i < after.len() implies (#[trigger] after[i]).1.name@ == after[i].0@ by {
                lemma_entry_in_map(after, i);
                if after[i].0@ == m.name@ {
                    assert(after[i].1 == m);
                } else {
                    assert(entries_map(before).contains_key(after[i].0@));
                    let j = choose|j: int| 0 <= j < before.len() && before[j].0@ == after[i].0@;
                    lemma_entry_in_map(before, j);
                }
            }
        }
    }

    /// The material named `name`, if there is one.
    pub fn get(&self, name: &str) -> (r: Option<&Material>)
        requires
            self.wf(),
        ensures
            match r {
                Some(m) => self@.contains_key(name@) && self@[name@] == *m,
                None => !self@.contains_key(name@),
            },
    {
        self.materials.get(name)
    }

    /// The materials in the order of their names.
    pub fn iter(&self) -> (r: Vec<&Material>)
        ensures
            r@.len() == self.list().len(),
            forall|i: int| 0 <= i < r@.len() ==> *(#[trigger] r@[i]) == self.list()[i],
    {
        let entries = self.materials.entries();
        let mut out: Vec<&Material> = Vec::new();
        let mut k: usize = 0;
        while k < entries.len()
            invariant
                entries@ == self.entries_view(),
                0 <= k <= entries@.len(),
                out@.len() == k,
                forall|i: int| 0 <= i < k ==> *(#[trigger] out@[i]) == self.list()[i],
            decreases entries@.len() - k,
        {
            out.push(&entries[k].1);
            k = k + 1;
        }
        out
    }

    /// Adds every material of `other`, replacing materials of the same names.
    pub fn merge(&mut self, other: &MaterialLibrary)
        requires
            old(self).wf(),
            other.wf(),
        ensures
            final(self).wf(),
            final(self)@ == old(self)@.union_prefer_right(other@),
    {
        let ghost start = self@;
        let entries = other.materials.entries();
        let mut k: usize = 0;
        while k < entries.len()
            invariant
                entries@ == other.entries_view(),
                other.wf(),
                self.wf(),
                0 <= k <= entries@.len(),
                self@ == start.union_prefer_right(entries_map(entries@.take(k as int))),
            decreases entries@.len() - k,
        {
            let m = copy_material(&entries[k].1);
            let ghost taken = entries@.take(k as int);
            let ghost e = entries@[k as int];
            self.insert(m);
            proof {
                assert(entries@.take(k + 1) == taken.push(e));
                assert(e.1.name@ == e.0@);
                assert(names_unique(taken)) by {
                    assert forall|a: int, b: int| 0 <= a < taken.len() && 0 <= b < taken.len() && a != b implies taken[a].0@ != taken[b].0@ by {
                        assert(taken[a] == entries@[a]);
                        assert(taken[b] == entries@[b]);
                    }
                }
                assert(!entries_map(taken).contains_key(e.0@)) by {
                    if entries_map(taken).contains_key(e.0@) {
                        let j = choose|j: int| 0 <= j < taken.len() && taken[j].0@ == e.0@;
                        assert(entries@[j].0@ == entries@[k as int].0@);
                    }
                }
                lemma_map_after_push(taken, e);
                assert(self@ =~= start.union_prefer_right(entries_map(entries@.take(k + 1))));
            }
            k = k + 1;
        }
        proof {
            assert(entries@.take(entries@.len() as int) =~= entries@);
        }
    }
}

impl Default for MaterialLibrary {
    fn default() -> (r: Self)
        ensures
            r.wf(),
            r@ == Map::<Seq<char>, Material>::empty(),
    {
        MaterialLibrary::new()
    }
}

} // verus!
