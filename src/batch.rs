//! Mini-batch planning: which rows of the training set go into which batch,
//! and in what order, for one epoch.
use vstd::prelude::*;

use crate::random::{lemma_shuffle_permutes, seeded_state, shuffled, Rand};

verus! {

/// The rows `0..rows` in their natural order.
pub open spec fn natural_order(rows: nat) -> Seq<usize> {
    Seq::new(rows, |i: int| i as usize)
}

/// The order in which an epoch visits the rows: natural, or shuffled by a
/// generator seeded with `seed`.
pub open spec fn row_order(rows: nat, shuffle: bool, seed: u32) -> Seq<usize> {
    if shuffle {
        shuffled(natural_order(rows), seeded_state(seed)).0
    } else {
        natural_order(rows)
    }
}

/// The seed after planning one epoch: it moves on by one (wrapping) when the
/// rows were shuffled, so that the next epoch draws another order.
pub open spec fn next_seed(seed: u32, shuffle: bool) -> u32 {
    if !shuffle {
        seed
    } else if seed == u32::MAX {
        0
    } else {
        (seed + 1) as u32
    }
}

/// Batch `k` of size `size` over the row order `order`: positions
/// `k * size` up to `(k + 1) * size`.
pub open spec fn batch_of(order: Seq<usize>, size: nat, k: int) -> Seq<usize> {
    order.subrange(k * size, (k + 1) * size)
}

/// `plan` is the batch plan for `rows` rows in batches of `size`: one
/// batch per whole run of `size` positions of the visiting order.
pub open spec fn is_batch_plan(
    rows: nat,
    size: nat,
    shuffle: bool,
    seed: u32,
    plan: Seq<Seq<usize>>,
) -> bool {
    &&& plan.len() == rows / size
    &&& forall|k: int|
        0 <= k < plan.len() ==> #[trigger] plan[k] == batch_of(row_order(rows, shuffle, seed), size, k)
}

/// Splits the rows `0..rows` into batches of `batch_size` row indices, in
/// natural order or shuffled with a generator seeded from `*seed` (which
/// then moves on by one). Only whole batches are kept: a last batch shorter
/// than `batch_size` is dropped.
pub fn batch_indices(rows: usize, batch_size: usize, shuffle: bool, seed: &mut u32) -> (r: Vec<
    Vec<usize>,
>)
    requires
        batch_size > 0,
    ensures
        *final(seed) == next_seed(*old(seed), shuffle),
        is_batch_plan(
            rows as nat,
            batch_size as nat,
            shuffle,
            *old(seed),
            r@.map_values(|b: Vec<usize>| b@),
        ),
{
    let mut order: Vec<usize> = Vec::new();
    let mut i: usize = 0;
    while i < rows
        invariant
            i <= rows,
            order@ == natural_order(i as nat),
        decreases rows - i,
    {
        order.push(i);
        proof {
            assert(order@ =~= natural_order((i + 1) as nat));
        }
        i += 1;
    }
    if shuffle {
        let mut rng = Rand::new(*seed);
        rng.shuffle(&mut order);
        *seed = if *seed == u32::MAX {
            0
        } else {
            *seed + 1
        };
    }
    let ghost order_spec = row_order(rows as nat, shuffle, *old(seed));
    proof {
        lemma_shuffle_permutes(natural_order(rows as nat), seeded_state(*old(seed)));
    }
    assert(order@ == order_spec);
    let count = rows / batch_size;
    let mut result: Vec<Vec<usize>> = Vec::new();
    let mut k: usize = 0;
    while k < count
        invariant
            order@ == order_spec,
            order_spec.len() == rows,
            count == rows / batch_size,
            batch_size > 0,
            k <= count,
            result@.len() == k,
            forall|q: int|
                0 <= q < k ==> (#[trigger] result@[q])@ == batch_of(order_spec, batch_size as nat, q),
        decreases count - k,
    {
        proof {
            assert((k + 1) * batch_size <= rows) by (nonlinear_arith)
                requires
                    k < count,
                    count == rows / batch_size,
                    batch_size > 0,
            ;
            assert((k + 1) * batch_size == k * batch_size + batch_size) by (nonlinear_arith);
        }
        let start = k * batch_size;
        let mut batch: Vec<usize> = Vec::new();
        let mut j: usize = 0;
        while j < batch_size
            invariant
                order@ == order_spec,
                order_spec.len() == rows,
                start == k * batch_size,
                start + batch_size <= rows,
                j <= batch_size,
                batch@ == order_spec.subrange(start as int, start + j),
            decreases batch_size - j,
        {
            batch.push(order[start + j]);
            proof {
                assert(batch@ =~= order_spec.subrange(start as int, start + j + 1));
            }
            j += 1;
        }
        result.push(batch);
        k += 1;
    }
    let ghost plan = result@.map_values(|b: Vec<usize>| b@);
    proof {
        assert forall|q: int| 0 <= q < plan.len() implies #[trigger] plan[q] == batch_of(
            order_spec,
            batch_size as nat,
            q,
        ) by {
            assert(result@[q]@ == batch_of(order_spec, batch_size as nat, q));
        }
    }
    result
}

/// Planning is reproducible: the same row count, batch size, shuffle flag
/// and seed always give the same batches.
pub proof fn lemma_batch_plan_determined(
    rows: nat,
    size: nat,
    shuffle: bool,
    seed: u32,
    plan_a: Seq<Seq<usize>>,
    plan_b: Seq<Seq<usize>>,
)
    requires
        is_batch_plan(rows, size, shuffle, seed, plan_a),
        is_batch_plan(rows, size, shuffle, seed, plan_b),
    ensures
        plan_a == plan_b,
{
    assert forall|k: int| 0 <= k < plan_a.len() implies plan_a[k] == plan_b[k] by {
        assert(plan_a[k] == batch_of(row_order(rows, shuffle, seed), size, k));
        assert(plan_b[k] == batch_of(row_order(rows, shuffle, seed), size, k));
    }
    assert(plan_a =~= plan_b);
}

/// The batches of an epoch never repeat a row and only name rows that
/// exist: any two positions of the visiting order hold different rows, each
/// below `rows`.
pub proof fn lemma_row_order_distinct(rows: nat, shuffle: bool, seed: u32)
    requires
        rows <= usize::MAX,
    ensures
        row_order(rows, shuffle, seed).len() == rows,
        row_order(rows, shuffle, seed).no_duplicates(),
        forall|i: int|
            0 <= i < rows ==> (#[trigger] row_order(rows, shuffle, seed)[i]) < rows,
{
    broadcast use vstd::seq_lib::group_to_multiset_ensures;

    let nat_order = natural_order(rows);
    let order = row_order(rows, shuffle, seed);
    lemma_shuffle_permutes(nat_order, seeded_state(seed));
    assert forall|i: int, j: int| 0 <= i < rows && 0 <= j < rows && i != j implies nat_order[i]
        != nat_order[j] by {
        assert(nat_order[i] == i);
        assert(nat_order[j] == j);
    }
    assert(nat_order.no_duplicates());
    nat_order.lemma_multiset_has_no_duplicates();
    assert(order.to_multiset() == nat_order.to_multiset());
    order.lemma_multiset_has_no_duplicates_conv();
    assert forall|i: int| 0 <= i < rows implies (#[trigger] order[i]) < rows by {
        assert(order.to_multiset().count(order[i]) > 0);
        assert(nat_order.contains(order[i]));
    }
}

/// Two batches of one epoch share no row, and every row they name exists.
pub proof fn lemma_batches_disjoint(
    rows: nat,
    shuffle: bool,
    seed: u32,
    size: nat,
    batch_a: int,
    batch_b: int,
    pos_a: int,
    pos_b: int,
)
    requires
        rows <= usize::MAX,
        size > 0,
        0 <= batch_a < rows / size,
        0 <= batch_b < rows / size,
        0 <= pos_a < size,
        0 <= pos_b < size,
        batch_a != batch_b || pos_a != pos_b,
    ensures
        batch_of(row_order(rows, shuffle, seed), size, batch_a)[pos_a] != batch_of(
            row_order(rows, shuffle, seed),
            size,
            batch_b,
        )[pos_b],
        batch_of(row_order(rows, shuffle, seed), size, batch_a)[pos_a] < rows,
{
    lemma_row_order_distinct(rows, shuffle, seed);
    let order = row_order(rows, shuffle, seed);
    assert((batch_a + 1) * size <= rows) by (nonlinear_arith)
        requires
            0 <= batch_a < rows / size,
            size > 0,
    ;
    assert((batch_b + 1) * size <= rows) by (nonlinear_arith)
        requires
            0 <= batch_b < rows / size,
            size > 0,
    ;
    assert((batch_a + 1) * size == batch_a * size + size) by (nonlinear_arith);
    assert((batch_b + 1) * size == batch_b * size + size) by (nonlinear_arith);
    assert(0 <= batch_a * size) by (nonlinear_arith)
        requires
            0 <= batch_a,
            size > 0,
    ;
    assert(0 <= batch_b * size) by (nonlinear_arith)
        requires
            0 <= batch_b,
            size > 0,
    ;
    if batch_a != batch_b {
        if batch_a < batch_b {
            assert(batch_a * size + size <= batch_b * size) by (nonlinear_arith)
                requires
                    batch_a < batch_b,
                    size > 0,
            ;
        } else {
            assert(batch_b * size + size <= batch_a * size) by (nonlinear_arith)
                requires
                    batch_b < batch_a,
                    size > 0,
            ;
        }
    }
    assert(batch_a * size + pos_a != batch_b * size + pos_b);
}

} // verus!
