//! Curves: ordered lists of point indices, open or closed.

use vstd::prelude::*;

verus! {

/// A curve through the points with the given indices; a closed curve returns from
/// its last point to its first.
#[derive(Debug, Clone)]
pub struct Curve {
    pub indices: Vec<u32>,
    pub closed: bool,
}

/// `a + b`, held at `u32::MAX`.
pub open spec fn saturating_add_u32(a: u32, b: u32) -> u32 {
    if a + b > u32::MAX { u32::MAX } else { (a + b) as u32 }
}

/// The index that `index` maps to, or `u32::MAX` when the mapping has no entry for it.
pub open spec fn mapped_index(mapping: Seq<u32>, index: u32) -> u32 {
    if (index as int) < mapping.len() { mapping[index as int] } else { u32::MAX }
}

/// The mapped indices, in order, leaving out those that map to `u32::MAX`.
pub open spec fn remapped(indices: Seq<u32>, mapping: Seq<u32>) -> Seq<u32>
    decreases indices.len(),
{
    if indices.len() == 0 {
        Seq::empty()
    } else {
        let rest = remapped(indices.drop_last(), mapping);
        let m = mapped_index(mapping, indices.last());
        if m != u32::MAX { rest.push(m) } else { rest }
    }
}

impl Curve {
    /// A curve through `indices`.
    pub fn new(indices: Vec<u32>, closed: bool) -> (r: Self)
        ensures
            r.indices@ == indices@,
            r.closed == closed,
    {
        Curve { indices, closed }
    }

    /// The number of segments: none below two points, one per point when closed,
    /// one fewer when open.
    pub fn primitive_count(&self) -> (r: usize)
        ensures
            r == (if self.indices@.len() < 2 {
                0
            } else if self.closed {
                self.indices@.len() as int
            } else {
                self.indices@.len() - 1
            }),
    {
        if self.indices.len() < 2 {
            0
        } else if self.closed {
            self.indices.len()
        } else {
            self.indices.len() - 1
        }
    }

    /// Adds `offset` to every index, holding at `u32::MAX`.
    pub fn offset_indices(&mut self, offset: u32)
        ensures
            final(self).closed == old(self).closed,
            final(self).indices@.len() == old(self).indices@.len(),
            forall|i: int| 0 <= i < final(self).indices@.len() ==> #[trigger] final(self).indices@[i]
                == saturating_add_u32(old(self).indices@[i], offset),
    {
        let mut i: usize = 0;
        while i < self.indices.len()
            invariant
                0 <= i <= self.indices@.len(),
                self.closed == old(self).closed,
                self.indices@.len() == old(self).indices@.len(),
                forall|j: int| 0 <= j < i ==> #[trigger] self.indices@[j] == saturating_add_u32(old(self).indices@[j], offset),
                forall|j: int| i <= j < self.indices@.len() ==> #[trigger] self.indices@[j] == old(self).indices@[j],
            decreases self.indices@.len() - i,
        {
            let v = self.indices[i].saturating_add(offset);
            self.indices.set(i, v);
            i = i + 1;
        }
    }

    /// The curve through the mapped indices, leaving out points that map to
    /// `u32::MAX` or past the end of `mapping`; none when `mapping` is empty or fewer
    /// than two points remain.
    pub fn remap_indices(&self, mapping: &[u32]) -> (r: Option<Self>)
        ensures
            match r {
                Some(c) => mapping@.len() > 0 && remapped(self.indices@, mapping@).len() >= 2
                    && c.indices@ == remapped(self.indices@, mapping@) && c.closed == self.closed,
                None => mapping@.len() == 0 || remapped(self.indices@, mapping@).len() < 2,
            },
    {
        if mapping.len() == 0 {
            return None;
        }
        let mut indices: Vec<u32> = Vec::new();
        let mut i: usize = 0;
        while i < self.indices.len()
            invariant
                0 <= i <= self.indices@.len(),
                indices@ == remapped(self.indices@.take(i as int), mapping@),
            decreases self.indices@.len() - i,
        {
            let index = self.indices[i];
            let mapped = if (index as usize) < mapping.len() { mapping[index as usize] } else { u32::MAX };
            assert(self.indices@.take(i + 1).drop_last() =~= self.indices@.take(i as int));
            if mapped != u32::MAX {
                indices.push(mapped);
            }
            i = i + 1;
        }
        assert(self.indices@.take(self.indices@.len() as int) =~= self.indices@);
        if indices.len() < 2 {
            return None;
        }
        Some(Curve { indices, closed: self.closed })
    }
}

} // verus!
