//! Counting the distinct voxels that a cloud of sampled points occupies.

use std::collections::{HashMap, HashSet};
use vstd::prelude::*;

verus! {

/// A voxel of the workspace grid, by its integer coordinates along x, y and z.
pub type Voxel = (i64, i64, i64);

/// The voxels recorded in an index of occupied voxels: the z-coordinates
/// filed under each y-coordinate, filed under each x-coordinate.
pub open spec fn occupied_voxels(index: Map<i64, HashMap<i64, HashSet<i64>>>) -> Set<Voxel> {
    Set::new(
        |v: Voxel|
            index.contains_key(v.0) && index[v.0]@.contains_key(v.1) && index[v.0]@[v.1]@.contains(
                v.2,
            ),
    )
}

/// The number of distinct voxels among `voxels`, each counted once however
/// many points fall into it.
pub fn distinct_voxel_count(voxels: &[Voxel]) -> (count: usize)
    ensures
        count == voxels@.to_set().len(),
        count <= voxels@.len(),
        count == 0 <==> voxels@.len() == 0,
{
    broadcast use vstd::std_specs::hash::group_hash_axioms;
    broadcast use vstd::set::group_set_axioms;
    broadcast use vstd::seq_lib::seq_to_set_is_finite;

    let mut index: HashMap<i64, HashMap<i64, HashSet<i64>>> = HashMap::new();
    let mut count: usize = 0;
    let mut i: usize = 0;
    assert(voxels@.take(0).to_set() =~= Set::<Voxel>::empty());
    assert(occupied_voxels(index@) =~= voxels@.take(0).to_set());
    while i < voxels.len()
        invariant
            i <= voxels@.len(),
            occupied_voxels(index@) == voxels@.take(i as int).to_set(),
            count == voxels@.take(i as int).to_set().len(),
            count <= i,
        decreases voxels@.len() - i,
    {
        let (x, y, z) = voxels[i];
        let ghost before = occupied_voxels(index@);
        proof {
            assert(voxels@.take(i + 1) =~= voxels@.take(i as int).push((x, y, z)));
            voxels@.take(i as int).lemma_push_to_set_commute((x, y, z));
        }
        let mut by_y = match index.remove(&x) {
            Some(m) => m,
            None => HashMap::new(),
        };
        let mut zs = match by_y.remove(&y) {
            Some(s) => s,
            None => HashSet::new(),
        };
        let fresh = zs.insert(z);
        proof {
            assert(fresh == !before.contains((x, y, z)));
        }
        by_y.insert(y, zs);
        index.insert(x, by_y);
        proof {
            assert(occupied_voxels(index@) =~= before.insert((x, y, z)));
        }
        if fresh {
            count = count + 1;
        }
        i += 1;
    }
    proof {
        assert(voxels@.take(voxels@.len() as int) =~= voxels@);
        voxels@.lemma_cardinality_of_set();
        voxels@.lemma_cardinality_of_empty_set_is_0();
    }
    count
}

} // verus!
