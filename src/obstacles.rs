use std::collections::HashSet;
use vstd::prelude::*;

use crate::vectors::Vector3;

verus! {

broadcast use vstd::std_specs::hash::group_hash_axioms;

/// Offset that maps an `i32` coordinate onto `0 .. 2^32`.
pub const COORD_SHIFT: i64 = 0x8000_0000;

/// The integer key under which a voxel is stored: the three coordinates,
/// each shifted to be non-negative, side by side in 32-bit fields.
pub open spec fn voxel_key(v: Vector3) -> int {
    (v.0 + COORD_SHIFT) * 0x1_0000_0000_0000_0000 + (v.1 + COORD_SHIFT) * 0x1_0000_0000 + (v.2
        + COORD_SHIFT)
}

/// Distinct voxels have distinct keys.
pub proof fn lemma_voxel_key_injective(a: Vector3, b: Vector3)
    requires
        voxel_key(a) == voxel_key(b),
    ensures
        a == b,
{
    let (a0, a1, a2) = (a.0 + COORD_SHIFT, a.1 + COORD_SHIFT, a.2 + COORD_SHIFT);
    let (b0, b1, b2) = (b.0 + COORD_SHIFT, b.1 + COORD_SHIFT, b.2 + COORD_SHIFT);
    assert(0 <= a1 < 0x1_0000_0000 && 0 <= b1 < 0x1_0000_0000);
    assert(a0 == b0) by {
        if a0 < b0 {
            assert(a0 * 0x1_0000_0000_0000_0000 + 0x1_0000_0000_0000_0000 <= b0
                * 0x1_0000_0000_0000_0000);
        } else if b0 < a0 {
            assert(b0 * 0x1_0000_0000_0000_0000 + 0x1_0000_0000_0000_0000 <= a0
                * 0x1_0000_0000_0000_0000);
        }
    }
    assert(a1 == b1) by {
        if a1 < b1 {
            assert(a1 * 0x1_0000_0000 + 0x1_0000_0000 <= b1 * 0x1_0000_0000);
        } else if b1 < a1 {
            assert(b1 * 0x1_0000_0000 + 0x1_0000_0000 <= a1 * 0x1_0000_0000);
        }
    }
}

fn key_of(v: Vector3) -> (r: u128)
    ensures
        r == voxel_key(v),
{
    let a = (v.0 as i64 + COORD_SHIFT) as u128;
    let b = (v.1 as i64 + COORD_SHIFT) as u128;
    let c = (v.2 as i64 + COORD_SHIFT) as u128;
    a * 0x1_0000_0000_0000_0000 + b * 0x1_0000_0000 + c
}

/// The set of voxels occupied by placed structures and committed paths.
pub struct ObstacleSet {
    keys: HashSet<u128>,
}

impl View for ObstacleSet {
    type V = Set<Vector3>;

    closed spec fn view(&self) -> Set<Vector3> {
        Set::new(|v: Vector3| self.keys@.contains(voxel_key(v) as u128))
    }
}

impl ObstacleSet {
    /// An empty set.
    pub fn new() -> (r: ObstacleSet)
        ensures
            r@ == Set::<Vector3>::empty(),
    {
        let r = ObstacleSet { keys: HashSet::new() };
        assert(r@ =~= Set::<Vector3>::empty());
        r
    }

    /// Whether `v` is an obstacle.
    pub fn contains(&self, v: Vector3) -> (r: bool)
        ensures
            r == self@.contains(v),
    {
        let k = key_of(v);
        self.keys.contains(&k)
    }

    /// Adds `v`; returns whether it was absent.
    pub fn insert(&mut self, v: Vector3) -> (r: bool)
        ensures
            final(self)@ == old(self)@.insert(v),
            r == !old(self)@.contains(v),
    {
        let k = key_of(v);
        let r = self.keys.insert(k);
        assert forall|w: Vector3| #[trigger] final(self)@.contains(w) == old(self)@.insert(v).contains(w) by {
            if voxel_key(w) as u128 == k {
                lemma_voxel_key_injective(w, v);
            }
        }
        assert(final(self)@ =~= old(self)@.insert(v));
        r
    }

    /// Removes `v`; returns whether it was present.
    pub fn remove(&mut self, v: Vector3) -> (r: bool)
        ensures
            final(self)@ == old(self)@.remove(v),
            r == old(self)@.contains(v),
    {
        let k = key_of(v);
        let r = self.keys.remove(&k);
        assert forall|w: Vector3| #[trigger] final(self)@.contains(w) == old(self)@.remove(v).contains(w) by {
            if voxel_key(w) as u128 == k {
                lemma_voxel_key_injective(w, v);
            }
        }
        assert(final(self)@ =~= old(self)@.remove(v));
        r
    }
}

} // verus!
