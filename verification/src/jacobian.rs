//! The Jacobian of a serial chain: its shape, and which of its rows take part
//! in the manipulability measure.

use vstd::prelude::*;

verus! {

/// Jacobian matrix (3 x n for position-only, or 6 x n for full), stored row
/// by row; `n_joints` is the number of columns.
pub struct Jacobian<S> {
    pub data: Vec<Vec<S>>,
    pub n_joints: usize,
}

impl<S> Jacobian<S> {
    /// Create from raw data; the number of joints is the length of the first
    /// row, or 0 when there is no row.
    pub fn from_vec(data: Vec<Vec<S>>) -> (jac: Self)
        ensures
            jac.data@ == data@,
            jac.n_joints == (if data@.len() == 0 { 0 } else { data@[0]@.len() }),
    {
        let n = if data.len() == 0 {
            0
        } else {
            data[0].len()
        };
        Jacobian { data, n_joints: n }
    }
}

/// `rows` lists, in increasing order, exactly the indices `i` with `active[i]`.
pub open spec fn lists_active_rows(rows: Seq<usize>, active: Seq<bool>) -> bool {
    &&& forall|a: int, b: int| 0 <= a < b < rows.len() ==> rows[a] < rows[b]
    &&& forall|a: int| 0 <= a < rows.len() ==> #[trigger] rows[a] < active.len() && active[rows[a] as int]
    &&& forall|i: int| 0 <= i < active.len() && #[trigger] active[i] ==> rows.contains(i as usize)
}

/// How the manipulability of a Jacobian is obtained.
#[derive(Debug)]
pub enum ManipulabilityCase {
    /// The measure is 0: the matrix has no row, no column, or no active row.
    Zero,
    /// The measure comes from the Gram matrix of these active rows (at least
    /// one of them, in increasing order).
    Rows(Vec<usize>),
}

/// Decides how the manipulability of an `n_rows` by `n_cols` Jacobian is
/// computed, given for each row whether it is active (has a non-negligible
/// entry). Exactly the active rows take part, however many there are.
pub fn manipulability_case(n_rows: usize, n_cols: usize, row_is_active: &[bool]) -> (case: ManipulabilityCase)
    requires
        row_is_active@.len() == n_rows,
    ensures
        match case {
            ManipulabilityCase::Zero => n_rows == 0 || n_cols == 0 || forall|i: int|
                0 <= i < n_rows ==> !#[trigger] row_is_active@[i],
            ManipulabilityCase::Rows(rows) => {
                &&& n_rows > 0
                &&& n_cols > 0
                &&& lists_active_rows(rows@, row_is_active@)
                &&& rows@.len() >= 1
                &&& forall|i: int| 0 <= i < n_rows && #[trigger] row_is_active@[i] ==> rows@.contains(i as usize)
                &&& forall|a: int| 0 <= a < rows@.len() ==> #[trigger] rows@[a] < n_rows && row_is_active@[rows@[a] as int]
                &&& forall|a: int, b: int| 0 <= a < b < rows@.len() ==> rows@[a] < rows@[b]
            },
        },
{
    if n_rows == 0 || n_cols == 0 {
        return ManipulabilityCase::Zero;
    }
    let rows = active_rows(row_is_active);
    if rows.len() == 0 {
        proof {
            assert forall|i: int| 0 <= i < n_rows implies !#[trigger] row_is_active@[i] by {
                if row_is_active@[i] {
                    assert(rows@.contains(i as usize));
                }
            }
        }
        ManipulabilityCase::Zero
    } else {
        proof {
            lemma_active_rows_exact(rows@, row_is_active@);
        }
        ManipulabilityCase::Rows(rows)
    }
}

/// The indices of the active rows, in increasing order.
pub fn active_rows(row_is_active: &[bool]) -> (rows: Vec<usize>)
    ensures
        lists_active_rows(rows@, row_is_active@),
        forall|a: int, b: int| 0 <= a < b < rows@.len() ==> rows@[a] < rows@[b],
        forall|a: int| 0 <= a < rows@.len() ==> #[trigger] rows@[a] < row_is_active@.len() && row_is_active@[rows@[a] as int],
        forall|i: int| 0 <= i < row_is_active@.len() && #[trigger] row_is_active@[i] ==> rows@.contains(i as usize),
{
    let mut rows: Vec<usize> = Vec::new();
    let mut i: usize = 0;
    while i < row_is_active.len()
        invariant
            i <= row_is_active@.len(),
            forall|a: int, b: int| 0 <= a < b < rows@.len() ==> rows@[a] < rows@[b],
            forall|a: int| 0 <= a < rows@.len() ==> #[trigger] rows@[a] < i && row_is_active@[rows@[a] as int],
            forall|j: int| 0 <= j < i && #[trigger] row_is_active@[j] ==> rows@.contains(j as usize),
        decreases row_is_active@.len() - i,
    {
        if row_is_active[i] {
            let ghost before = rows@;
            rows.push(i);
            proof {
                assert forall|j: int| 0 <= j < i + 1 && #[trigger] row_is_active@[j] implies rows@.contains(j as usize) by {
                    if j < i {
                        let a = choose|a: int| 0 <= a < before.len() && before[a] == j as usize;
                        assert(rows@[a] == j as usize);
                    } else {
                        assert(rows@[before.len() as int] == j as usize);
                    }
                }
            }
        }
        i += 1;
    }
    proof {
        lemma_active_rows_exact(rows@, row_is_active@);
    }
    rows
}

/// A listing of the active rows holds every active row once and nothing
/// else: as a set it is exactly the active indices, in increasing order, and
/// it is as long as there are active rows.
pub proof fn lemma_active_rows_exact(rows: Seq<usize>, active: Seq<bool>)
    requires
        lists_active_rows(rows, active),
        active.len() <= usize::MAX,
    ensures
        forall|a: int, b: int| 0 <= a < b < rows.len() ==> rows[a] < rows[b],
        forall|a: int| 0 <= a < rows.len() ==> #[trigger] rows[a] < active.len() && active[rows[a] as int],
        forall|i: int| 0 <= i < active.len() && #[trigger] active[i] ==> rows.contains(i as usize),
        rows.to_set() == Set::new(|i: usize| i < active.len() && active[i as int]),
        rows.no_duplicates(),
        rows.len() == Set::new(|i: usize| i < active.len() && active[i as int]).len(),
{
    let target = Set::new(|i: usize| i < active.len() && active[i as int]);
    assert(rows.to_set() =~= target) by {
        assert forall|i: usize| rows.to_set().contains(i) <==> target.contains(i) by {
            if target.contains(i) {
                assert(active[i as int]);
                assert(rows.contains(i));
            }
            if rows.to_set().contains(i) {
                let a = choose|a: int| 0 <= a < rows.len() && rows[a] == i;
                assert(active[rows[a] as int]);
            }
        }
    }
    assert(rows.no_duplicates()) by {
        assert forall|a: int, b: int| 0 <= a < rows.len() && 0 <= b < rows.len() && a != b implies rows[a] != rows[b] by {
            if a < b {
                assert(rows[a] < rows[b]);
            } else {
                assert(rows[b] < rows[a]);
            }
        }
    }
    rows.unique_seq_to_set();
}

/// The increasing list of active rows is unique.
pub proof fn lemma_active_rows_unique(r1: Seq<usize>, r2: Seq<usize>, active: Seq<bool>)
    requires
        lists_active_rows(r1, active),
        lists_active_rows(r2, active),
        active.len() <= usize::MAX,
    ensures
        r1 == r2,
    decreases r1.len() + r2.len(),
{
    if r1.len() == 0 {
        if r2.len() > 0 {
            assert(active[r2[0] as int]);
            assert(r1.contains(r2[0]));
        }
    } else if r2.len() == 0 {
        assert(active[r1[0] as int]);
        assert(r2.contains(r1[0]));
    } else {
        // The first entries are both the smallest active index.
        assert(r1.contains(r2[0]));
        assert(r2.contains(r1[0]));
        let a = choose|a: int| 0 <= a < r1.len() && r1[a] == r2[0];
        let b = choose|b: int| 0 <= b < r2.len() && r2[b] == r1[0];
        assert(r1[0] <= r1[a]);
        assert(r2[0] <= r2[b]);
        assert(r1[0] == r2[0]);
        let (t1, t2) = (r1.drop_first(), r2.drop_first());
        let rest = Seq::new(active.len(), |i: int| active[i] && i != r1[0] as int);
        assert(lists_active_rows(t1, rest)) by {
            assert forall|i: int| 0 <= i < rest.len() && #[trigger] rest[i] implies t1.contains(i as usize) by {
                assert(r1.contains(i as usize));
                let c = choose|c: int| 0 <= c < r1.len() && r1[c] == i as usize;
                assert(c != 0);
                assert(t1[c - 1] == i as usize);
            }
            assert forall|c: int| 0 <= c < t1.len() implies #[trigger] t1[c] < rest.len() && rest[t1[c] as int] by {
                assert(t1[c] == r1[c + 1]);
                assert(r1[0] < r1[c + 1]);
            }
        }
        assert(lists_active_rows(t2, rest)) by {
            assert forall|i: int| 0 <= i < rest.len() && #[trigger] rest[i] implies t2.contains(i as usize) by {
                assert(r2.contains(i as usize));
                let c = choose|c: int| 0 <= c < r2.len() && r2[c] == i as usize;
                assert(c != 0);
                assert(t2[c - 1] == i as usize);
            }
            assert forall|c: int| 0 <= c < t2.len() implies #[trigger] t2[c] < rest.len() && rest[t2[c] as int] by {
                assert(t2[c] == r2[c + 1]);
                assert(r2[0] < r2[c + 1]);
            }
        }
        lemma_active_rows_unique(t1, t2, rest);
        assert(r1 =~= seq![r1[0]] + t1);
        assert(r2 =~= seq![r2[0]] + t2);
    }
}

} // verus!
