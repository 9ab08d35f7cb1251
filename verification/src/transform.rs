//! Parts of a 4x4 homogeneous transform.

use vstd::prelude::*;

verus! {

/// Extract position from a 4x4 transform: the first three entries of the
/// last column.
pub fn position<S: Copy>(t: &[[S; 4]; 4]) -> (p: (S, S, S))
    ensures
        p == (t[0][3], t[1][3], t[2][3]),
{
    (t[0][3], t[1][3], t[2][3])
}

/// Extract rotation matrix from a 4x4 transform: its upper-left 3x3 block.
pub fn rotation_matrix<S: Copy>(t: &[[S; 4]; 4]) -> (r: [[S; 3]; 3])
    ensures
        forall|i: int, j: int| 0 <= i < 3 && 0 <= j < 3 ==> #[trigger] r[i][j] == t[i][j],
{
    let r = [
        [t[0][0], t[0][1], t[0][2]],
        [t[1][0], t[1][1], t[1][2]],
        [t[2][0], t[2][1], t[2][2]],
    ];
    assert forall|i: int, j: int| 0 <= i < 3 && 0 <= j < 3 implies #[trigger] r[i][j] == t[i][j] by {
        if i == 0 {
            assert(j == 0 || j == 1 || j == 2);
        } else if i == 1 {
            assert(j == 0 || j == 1 || j == 2);
        } else {
            assert(j == 0 || j == 1 || j == 2);
        }
    }
    r
}

} // verus!
