# kinematics

Robot kinematics for serial chains described by Denavit-Hartenberg
parameters: forward kinematics, inverse kinematics via Jacobian methods,
workspace analysis.

`src/` is verified with Verus. It holds what does not depend on
floating-point arithmetic, stated and proved over mathematical models:

- `chain`: DH parameter sets over any scalar type; setting and reading joint angles.
- `transform`: the position and rotation parts of a homogeneous transform.
- `sampling`: the grid of joint samples, enumerated in lexicographic order.
- `voxels`: counting the distinct voxels a point cloud occupies.
- `grid`: the occupancy grid of a planar cross-section.
- `jacobian`: the Jacobian's shape and which rows enter its manipulability.
- `inverse`: the control of the iterative solver and the two-link reach check.
- `workspace`: the reachability rule.

`app/` holds the `f64` geometry (transforms, matrix products, Jacobians,
the solvers' numerics) on top of the library.
