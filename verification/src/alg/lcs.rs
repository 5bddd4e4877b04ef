//! Longest common subsequence: a table-filling pass over two sequences.
//! The search itself is a stub; only the table construction is done.

use vstd::prelude::*;
use vstd::std_specs::cmp::PartialEqSpec;
use vstd::arithmetic::div_mod::lemma_fundamental_div_mod_converse;
use crate::ds::Matrix;

verus! {

/// The table state after `t` cell visits, together with the running match
/// counter. Cells are visited row by row: visit `t` reads row `t / |sb|`,
/// column `t % |sb|` of the inputs; on a match the counter becomes one more
/// than the table cell there, and a positive counter is written one row and
/// one column further down.
pub open spec fn lcs_cells<T: PartialEq>(sa: Seq<T>, sb: Seq<T>, t: int) -> (Seq<u32>, int)
    decreases t,
{
    let w = sb.len() + 1;
    if t <= 0 {
        (Seq::new(((sa.len() + 1) * w) as nat, |k: int| 0u32), 0)
    } else {
        let prev = lcs_cells(sa, sb, t - 1);
        let i = (t - 1) / (sb.len() as int);
        let j = (t - 1) % (sb.len() as int);
        let c = if sa[i].eq_spec(&sb[j]) {
            prev.0[i * w + j] + 1
        } else {
            prev.1
        };
        let m1 = if c > 0 {
            prev.0.update((i + 1) * w + j + 1, c as u32)
        } else {
            prev.0
        };
        (m1, c)
    }
}

/// Fills the match table for the two sequences.
///
/// The table has one more row than `sa` and one more column than `sb`, and,
/// when the element type's equality follows its specification, its contents
/// are exactly the fold described by [`lcs_cells`] after all cells have
/// been visited.
pub fn create_and_fill_matrix<'a, T>(sa: &'a [T], sb: &'a [T]) -> (m: Matrix<u32>) where
    T: Copy + PartialEq,

    requires
        (sa@.len() + 1) * (sb@.len() + 1) <= usize::MAX,
        sa@.len() * sb@.len() + 1 <= u32::MAX,
    ensures
        m.height == sa@.len() + 1,
        m.width == sb@.len() + 1,
        m.m@.len() == (sa@.len() + 1) * (sb@.len() + 1),
        T::obeys_eq_spec() ==> m.m@ == lcs_cells(sa@, sb@, (sa@.len() * sb@.len()) as int).0,
{
    proof {
        assert(sa@.len() + 1 <= usize::MAX && sb@.len() + 1 <= usize::MAX) by (nonlinear_arith)
            requires
                (sa@.len() + 1) * (sb@.len() + 1) <= usize::MAX,
        ;
        assert((sb@.len() + 1) * (sa@.len() + 1) == (sa@.len() + 1) * (sb@.len() + 1))
            by (nonlinear_arith);
    }
    let mut m = Matrix::<u32>::new(sa.len() + 1, sb.len() + 1);

    m.fill(0);
    proof {
        assert(m.m@ =~= lcs_cells(sa@, sb@, 0).0);
    }

    let mut count: u32 = 0;

    let ghost w = sb@.len() + 1;
    let mut i: usize = 0;
    while i < sa.len()
        invariant
            m.height == sa@.len() + 1,
            m.width == sb@.len() + 1,
            m.wf(),
            m.m@.len() == (sa@.len() + 1) * (sb@.len() + 1),
            (sa@.len() + 1) * (sb@.len() + 1) <= usize::MAX,
            sa@.len() * sb@.len() + 1 <= u32::MAX,
            w == sb@.len() + 1,
            i <= sa@.len(),
            count <= i * sb@.len(),
            forall|k: int| 0 <= k < m.m@.len() ==> #[trigger] m.m@[k] <= i * sb@.len(),
            T::obeys_eq_spec() ==> (m.m@, count as int) == lcs_cells(
                sa@,
                sb@,
                i * sb@.len(),
            ),
        decreases sa@.len() - i,
    {
        let mut j: usize = 0;
        proof {
            assert(i * sb@.len() + sb@.len() <= sa@.len() * sb@.len()) by (nonlinear_arith)
                requires
                    i < sa@.len(),
                    sb@.len() >= 0,
            ;
        }
        while j < sb.len()
            invariant
                m.height == sa@.len() + 1,
                m.width == sb@.len() + 1,
                m.wf(),
                m.m@.len() == (sa@.len() + 1) * (sb@.len() + 1),
                (sa@.len() + 1) * (sb@.len() + 1) <= usize::MAX,
                sa@.len() * sb@.len() + 1 <= u32::MAX,
                w == sb@.len() + 1,
                i < sa@.len(),
                j <= sb@.len(),
                i * sb@.len() + sb@.len() <= sa@.len() * sb@.len(),
                count <= i * sb@.len() + j,
                forall|k: int|
                    0 <= k < m.m@.len() ==> #[trigger] m.m@[k] <= i * sb@.len() + j,
                T::obeys_eq_spec() ==> (m.m@, count as int) == lcs_cells(
                    sa@,
                    sb@,
                    i * sb@.len() + j,
                ),
            decreases sb@.len() - j,
        {
            let ghost t = i * sb@.len() + j;
            proof {
                lemma_fundamental_div_mod_converse(
                    t,
                    sb@.len() as int,
                    i as int,
                    j as int,
                );
                assert(t / (sb@.len() as int) == i as int);
                assert(t % (sb@.len() as int) == j as int);
                assert(i * (sb@.len() + 1) + j < (sa@.len() + 1) * (sb@.len() + 1)
                    && (i + 1) * (sb@.len() + 1) + j + 1 < (sa@.len() + 1) * (sb@.len() + 1)
                    && i * (sb@.len() + 1) + j <= i * sb@.len() + j + i) by (nonlinear_arith)
                    requires
                        0 <= i < sa@.len(),
                        0 <= j < sb@.len(),
                ;
                assert(m.m@[i * (sb@.len() + 1) + j] <= i * sb@.len() + j);
            }
            if sa[i].eq(&sb[j]) {
                let cell = m.get(i, j);
                count = cell + 1;
            }
            if count > 0 {
                m.set(i + 1, j + 1, count);
            }
            proof {
                if T::obeys_eq_spec() {
                    assert((m.m@, count as int) == lcs_cells(sa@, sb@, t + 1));
                }
            }
            j += 1;
        }
        i += 1;
        proof {
            assert(i * sb@.len() == (i - 1) * sb@.len() + sb@.len()) by (nonlinear_arith);
        }
    }
    proof {
        assert(i * sb@.len() == sa@.len() * sb@.len()) by (nonlinear_arith)
            requires
                i == sa@.len(),
        ;
    }
    m
}

/// Longest common subsequence of the two sequences (not yet implemented:
/// the table is built, no subsequence is extracted).
pub fn lcs<'a, T>(sa: &'a [T], sb: &'a [T]) -> (r: Option<&'a [T]>) where T: Copy + PartialEq
    requires
        (sa@.len() + 1) * (sb@.len() + 1) <= usize::MAX,
        sa@.len() * sb@.len() + 1 <= u32::MAX,
    ensures
        r is None,
{
    let m = create_and_fill_matrix(sa, sb);

    None
}

} // verus!
