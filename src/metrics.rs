//! Evaluation metrics and the confusion matrix they are read from.
use vstd::prelude::*;

verus! {

/// Metrics a model can report on its held-out rows.
#[derive(Debug, Clone, Copy, PartialEq, Eq, Structural)]
pub enum Metric {
    Accuracy,
    ConfusionMatrix,
}

/// Metrics a model can be compiled with.
#[derive(Debug, Clone, Copy, PartialEq, Eq, Structural)]
pub enum Metrics {
    Accuracy,
}

/// How many of the first `n` observations have true class `a` and
/// predicted class `b`.
pub open spec fn pair_count(t: Seq<usize>, p: Seq<usize>, n: nat, a: usize, b: usize) -> nat
    decreases n,
{
    if n == 0 {
        0
    } else {
        pair_count(t, p, (n - 1) as nat, a, b) + if t[n - 1] == a && p[n - 1] == b {
            1nat
        } else {
            0nat
        }
    }
}

proof fn lemma_pair_count_bound(t: Seq<usize>, p: Seq<usize>, n: nat, a: usize, b: usize)
    ensures
        pair_count(t, p, n, a, b) <= n,
    decreases n,
{
    if n > 0 {
        lemma_pair_count_bound(t, p, (n - 1) as nat, a, b);
    }
}

/// Counts of (true class, predicted class) pairs: `data[a][b]` is the number
/// of observations of class `a` predicted as class `b`.
pub struct ConfusionMatrix {
    pub data: Vec<Vec<usize>>,
}

impl ConfusionMatrix {
    /// Tallies the observations whose true and predicted class indices are
    /// `y_true[k]` and `y_pred[k]` into a `classes x classes` matrix.
    pub fn from_labels(classes: usize, y_true: &Vec<usize>, y_pred: &Vec<usize>) -> (r:
        ConfusionMatrix)
        requires
            y_true@.len() == y_pred@.len(),
            classes * classes <= usize::MAX,
            forall|k: int| 0 <= k < y_true@.len() ==> y_true@[k] < classes,
            forall|k: int| 0 <= k < y_pred@.len() ==> y_pred@[k] < classes,
        ensures
            r.data@.len() == classes,
            forall|a: int| 0 <= a < classes ==> (#[trigger] r.data@[a])@.len() == classes,
            forall|a: usize, b: usize|
                a < classes && b < classes ==> #[trigger] r.data@[a as int]@[b as int] == pair_count(
                    y_true@,
                    y_pred@,
                    y_true@.len(),
                    a,
                    b,
                ),
    {
        let n = classes;
        let total = n * n;
        let mut flat: Vec<usize> = Vec::new();
        let mut q: usize = 0;
        while q < total
            invariant
                q <= total,
                flat@.len() == q,
                forall|x: int| 0 <= x < q ==> flat@[x] == 0,
            decreases total - q,
        {
            flat.push(0);
            q += 1;
        }
        let len = y_true.len();
        assert forall|a: usize, b: usize| a < n && b < n implies flat@[a * n + b]
            == #[trigger] pair_count(y_true@, y_pred@, 0, a, b) by {
            crate::tensor::lemma_flat_index(n as int, n as int, a as int, b as int);
        }
        let mut k: usize = 0;
        while k < len
            invariant
                len == y_true@.len(),
                len == y_pred@.len(),
                total == n * n,
                flat@.len() == total,
                forall|x: int| 0 <= x < len ==> y_true@[x] < n,
                forall|x: int| 0 <= x < len ==> y_pred@[x] < n,
                k <= len,
                forall|a: usize, b: usize|
                    a < n && b < n ==> flat@[a * n + b] == #[trigger] pair_count(
                        y_true@,
                        y_pred@,
                        k as nat,
                        a,
                        b,
                    ),
            decreases len - k,
        {
            let a = y_true[k];
            let b = y_pred[k];
            proof {
                crate::tensor::lemma_flat_index(n as int, n as int, a as int, b as int);
                lemma_pair_count_bound(y_true@, y_pred@, k as nat, a, b);
            }
            let idx = a * n + b;
            let ghost old_flat = flat@;
            let v = flat[idx];
            assert(v == pair_count(y_true@, y_pred@, k as nat, a, b));
            flat.set(idx, v + 1);
            k += 1;
            proof {
                assert forall|a2: usize, b2: usize| a2 < n && b2 < n implies flat@[a2 * n + b2]
                    == #[trigger] pair_count(y_true@, y_pred@, k as nat, a2, b2) by {
                    crate::tensor::lemma_flat_index(n as int, n as int, a2 as int, b2 as int);
                    assert(old_flat[a2 * n + b2] == pair_count(
                        y_true@,
                        y_pred@,
                        (k - 1) as nat,
                        a2,
                        b2,
                    ));
                    if a2 != a || b2 != b {
                        if a2 * n + b2 == a * n + b {
                            lemma_same_flat_index(n as int, a as int, b as int, a2 as int, b2 as int);
                        }
                        assert(flat@[a2 * n + b2] == old_flat[a2 * n + b2]);
                    }
                }
            }
        }
        let mut data: Vec<Vec<usize>> = Vec::new();
        let mut a: usize = 0;
        while a < n
            invariant
                total == n * n,
                flat@.len() == total,
                a <= n,
                data@.len() == a,
                forall|x: int| 0 <= x < a ==> (#[trigger] data@[x])@.len() == n,
                forall|x: int, y: int|
                    0 <= x < a && 0 <= y < n ==> #[trigger] data@[x]@[y] == flat@[x * n + y],
            decreases n - a,
        {
            let mut row: Vec<usize> = Vec::new();
            let mut b: usize = 0;
            while b < n
                invariant
                    total == n * n,
                    flat@.len() == total,
                    a < n,
                    b <= n,
                    row@.len() == b,
                    forall|y: int| 0 <= y < b ==> row@[y] == flat@[a * n + y],
                decreases n - b,
            {
                proof {
                    crate::tensor::lemma_flat_index(n as int, n as int, a as int, b as int);
                }
                row.push(flat[a * n + b]);
                b += 1;
            }
            data.push(row);
            a += 1;
        }
        let r = ConfusionMatrix { data };
        assert forall|a: usize, b: usize| a < n && b < n implies #[trigger] r.data@[a as int]@[b as int]
            == pair_count(y_true@, y_pred@, y_true@.len(), a, b) by {
            assert(r.data@[a as int]@[b as int] == flat@[a * n + b]);
        }
        r
    }
}

/// Distinct cells of an `n`-wide matrix have distinct flat indices.
proof fn lemma_same_flat_index(n: int, a: int, b: int, a2: int, b2: int)
    requires
        0 <= a < n,
        0 <= b < n,
        0 <= a2 < n,
        0 <= b2 < n,
        a2 * n + b2 == a * n + b,
    ensures
        a2 == a,
        b2 == b,
{
    if a2 < a {
        assert(a2 * n + n <= a * n) by (nonlinear_arith)
            requires
                a2 < a,
                n > 0,
        ;
    } else if a2 > a {
        assert(a * n + n <= a2 * n) by (nonlinear_arith)
            requires
                a < a2,
                n > 0,
        ;
    }
}

} // verus!
