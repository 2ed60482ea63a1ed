//! Round-robin distribution of incoming record groups over partitions.

use vstd::arithmetic::div_mod::{lemma_fundamental_div_mod, lemma_fundamental_div_mod_converse};
use vstd::prelude::*;

verus! {

/// How many of `total` groups partition `j` of `partitions` receives: each
/// partition receives the whole part of `total / partitions`, and the first
/// `total % partitions` of them one more.
pub open spec fn share(total: int, partitions: int, j: int) -> int {
    total / partitions + if j < total % partitions {
        1int
    } else {
        0int
    }
}

/// The groups that partition `j` of `partitions` receives, in the order in
/// which it receives them: those at the indices `j`, `j + partitions`,
/// `j + 2 * partitions` and so on.
pub open spec fn routed<T>(groups: Seq<T>, partitions: int, j: int) -> Seq<T> {
    Seq::new(
        share(groups.len() as int, partitions, j) as nat,
        |t: int| groups[t * partitions + j],
    )
}

/// Where the group after the first `n` goes, and how the shares change
/// with it.
pub proof fn lemma_next_group(n: int, partitions: int)
    requires
        0 <= n,
        0 < partitions,
    ensures
        0 <= n % partitions < partitions,
        (n / partitions) * partitions + n % partitions == n,
        (n + 1) % partitions == if n % partitions + 1 < partitions {
            n % partitions + 1
        } else {
            0
        },
        forall|j: int|
            0 <= j < partitions ==> #[trigger] share(n + 1, partitions, j) == share(
                n,
                partitions,
                j,
            ) + if j == n % partitions {
                1int
            } else {
                0int
            },
        share(n, partitions, n % partitions) == n / partitions,
{
    let q = n / partitions;
    let r = n % partitions;
    lemma_fundamental_div_mod(n, partitions);
    assert(partitions * q == q * partitions) by (nonlinear_arith);
    if r + 1 < partitions {
        lemma_fundamental_div_mod_converse(n + 1, partitions, q, r + 1);
    } else {
        assert((q + 1) * partitions == q * partitions + partitions) by (nonlinear_arith);
        lemma_fundamental_div_mod_converse(n + 1, partitions, q + 1, 0);
    }
}

/// Each group that a partition receives is one of the groups.
pub proof fn lemma_routed_in_range(total: int, partitions: int, j: int, t: int)
    requires
        0 <= total,
        0 < partitions,
        0 <= j < partitions,
        0 <= t < share(total, partitions, j),
    ensures
        0 <= t * partitions + j < total,
{
    lemma_next_group(total, partitions);
    let q = total / partitions;
    let r = total % partitions;
    assert(0 <= t * partitions + j < total) by (nonlinear_arith)
        requires
            q * partitions + r == total,
            0 <= r < partitions,
            0 <= j < partitions,
            0 <= t,
            t < q || (t == q && j < r),
    ;
}

/// Distributes the groups over `num_partitions` partitions in turn: the
/// group at index `i` goes to partition `i % num_partitions`, and each
/// partition receives its groups in the order in which they came. Without
/// a partition there must be no group, and nothing is given out.
pub fn round_robin<T>(groups: Vec<T>, num_partitions: usize) -> (out: Vec<Vec<T>>)
    requires
        num_partitions > 0 || groups@.len() == 0,
    ensures
        out@.len() == num_partitions,
        forall|j: int|
            0 <= j < num_partitions ==> (#[trigger] out@[j])@ == routed(
                groups@,
                num_partitions as int,
                j,
            ),
{
    let ghost all = groups@;
    let mut out: Vec<Vec<T>> = Vec::with_capacity(num_partitions);
    let mut j: usize = 0;
    while j < num_partitions
        invariant
            0 <= j <= num_partitions,
            out@.len() == j,
            forall|k: int| 0 <= k < j ==> (#[trigger] out@[k])@.len() == 0,
        decreases num_partitions - j,
    {
        out.push(Vec::new());
        j = j + 1;
    }
    let mut i: usize = 0;
    for group in iter: groups
        invariant
            num_partitions > 0 || all.len() == 0,
            iter.seq() == all,
            out@.len() == num_partitions,
            num_partitions > 0 ==> i == iter.index() % (num_partitions as int),
            forall|j: int|
                0 <= j < num_partitions ==> (#[trigger] out@[j])@.len() == share(
                    iter.index(),
                    num_partitions as int,
                    j,
                ),
            forall|j: int, t: int|
                0 <= j < num_partitions && 0 <= t < out@[j]@.len() ==> #[trigger] out@[j]@[t]
                    == all[t * num_partitions + j],
    {
        proof {
            lemma_next_group(iter.index(), num_partitions as int);
        }
        out[i].push(group);
        proof {
            if i + 1 < num_partitions {
                lemma_fundamental_div_mod_converse(i + 1, num_partitions as int, 0, i + 1);
            } else {
                lemma_fundamental_div_mod_converse(i + 1, num_partitions as int, 1, 0);
            }
        }
        i = (i + 1) % num_partitions;
    }
    proof {
        assert forall|j: int| 0 <= j < num_partitions implies (#[trigger] out@[j])@ == routed(
            all,
            num_partitions as int,
            j,
        ) by {
            assert(out@[j]@ =~= routed(all, num_partitions as int, j));
        }
    }
    out
}

/// Round-robin distribution is balanced: the numbers of groups that any
/// two partitions receive differ by at most one.
pub proof fn law_round_robin_balanced<T>(groups: Seq<T>, partitions: int, a: int, b: int)
    requires
        0 < partitions,
        0 <= a < partitions,
        0 <= b < partitions,
    ensures
        -1 <= routed(groups, partitions, a).len() - routed(groups, partitions, b).len() <= 1,
{
    lemma_next_group(groups.len() as int, partitions);
    assert(0 <= groups.len() as int / partitions) by (nonlinear_arith)
        requires
            (groups.len() as int / partitions) * partitions + groups.len() as int % partitions
                == groups.len(),
            0 <= groups.len() as int % partitions < partitions,
    ;
}

/// Round-robin distribution keeps the order: of two groups that a
/// partition receives, the one it receives first came first.
pub proof fn law_round_robin_keeps_order<T>(groups: Seq<T>, partitions: int, j: int, s: int, t: int)
    requires
        0 < partitions,
        0 <= j < partitions,
        0 <= s < t < routed(groups, partitions, j).len(),
    ensures
        0 <= s * partitions + j < t * partitions + j < groups.len(),
        routed(groups, partitions, j)[s] == groups[s * partitions + j],
        routed(groups, partitions, j)[t] == groups[t * partitions + j],
{
    lemma_routed_in_range(groups.len() as int, partitions, j, s);
    lemma_routed_in_range(groups.len() as int, partitions, j, t);
    assert(s * partitions < t * partitions) by (nonlinear_arith)
        requires
            s < t,
            0 < partitions,
    ;
}

/// Round-robin distribution loses nothing: the group at index `i` is
/// received by partition `i % partitions`, as its group number
/// `i / partitions`.
pub proof fn law_round_robin_complete<T>(groups: Seq<T>, partitions: int, i: int)
    requires
        0 < partitions,
        0 <= i < groups.len(),
    ensures
        0 <= i % partitions < partitions,
        0 <= i / partitions < routed(groups, partitions, i % partitions).len(),
        routed(groups, partitions, i % partitions)[i / partitions] == groups[i],
{
    let total = groups.len() as int;
    lemma_next_group(i, partitions);
    lemma_next_group(total, partitions);
    let q = total / partitions;
    let r = total % partitions;
    let qi = i / partitions;
    let ri = i % partitions;
    assert(0 <= qi) by (nonlinear_arith)
        requires
            qi * partitions + ri == i,
            0 <= i,
            0 <= ri < partitions,
    ;
    assert(qi < q || (qi == q && ri < r)) by (nonlinear_arith)
        requires
            qi * partitions + ri == i,
            q * partitions + r == total,
            i < total,
            0 <= ri < partitions,
            0 <= r < partitions,
    ;
}

} // verus!
