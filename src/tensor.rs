//! Dense tensors of rank at most two, generic over the element type: shape
//! algebra, row gathering, transposition, mapping, broadcasting, matrix
//! products and reductions. The element arithmetic is supplied by the caller
//! as closures, so every index and shape computation here is checked once for
//! every numeric type.
use vstd::prelude::*;

use crate::random::{lemma_shuffle_permutes, seeded_state, shuffled, Rand};

verus! {

/// A dense array: a flat row-major buffer and its dimensions. Element
/// `(i, j)` of a matrix is `data[i * shape[1] + j]`.
#[derive(Debug, PartialEq)]
pub struct Tensor<T> {
    pub data: Vec<T>,
    pub shape: Vec<usize>,
}

/// Number of elements of a tensor of rank at most two: one for a scalar,
/// the length of a vector, rows times columns of a matrix.
pub open spec fn shape_size(shape: Seq<usize>) -> nat {
    if shape.len() == 0 {
        1
    } else if shape.len() == 1 {
        shape[0] as nat
    } else {
        shape[0] as nat * shape[1] as nat
    }
}

impl<T> Tensor<T> {
    /// Rank at most two, and exactly as many elements as the shape asks for.
    pub open spec fn wf(&self) -> bool {
        self.shape@.len() <= 2 && self.data@.len() == shape_size(self.shape@)
    }

    /// A well-formed rank-two tensor.
    pub open spec fn is_matrix(&self) -> bool {
        self.wf() && self.shape@.len() == 2
    }

    pub open spec fn rows(&self) -> int {
        self.shape@[0] as int
    }

    pub open spec fn cols(&self) -> int {
        self.shape@[1] as int
    }

    /// Element `(i, j)` of a matrix.
    pub open spec fn at(&self, i: int, j: int) -> T {
        self.data@[i * self.cols() + j]
    }

    /// Row `i` of a matrix.
    pub open spec fn row_seq(&self, i: int) -> Seq<T> {
        Seq::new(self.cols() as nat, |j: int| self.at(i, j))
    }

    /// Column `j` of a matrix.
    pub open spec fn col_seq(&self, j: int) -> Seq<T> {
        Seq::new(self.rows() as nat, |i: int| self.at(i, j))
    }

    /// A tensor holding `data` with dimensions `shape`, taken as given.
    pub fn new(data: Vec<T>, shape: Vec<usize>) -> (r: Tensor<T>)
        ensures
            r.data@ == data@,
            r.shape@ == shape@,
    {
        Tensor { data, shape }
    }

    /// Tells whether the tensor is well formed (see `wf`).
    pub fn is_well_formed(&self) -> (r: bool)
        ensures
            r == self.wf(),
    {
        let rank = self.shape.len();
        let len = self.data.len();
        if rank == 0 {
            self.data.len() == 1
        } else if rank == 1 {
            self.data.len() == self.shape[0]
        } else if rank == 2 {
            match self.shape[0].checked_mul(self.shape[1]) {
                Some(n) => len == n,
                None => false,
            }
        } else {
            false
        }
    }
}

/// Index arithmetic for row-major matrices: `i * c + j` lies below `r * c`
/// and is the first index of row `i` plus `j`.
pub proof fn lemma_flat_index(r: int, c: int, i: int, j: int)
    requires
        0 <= i < r,
        0 <= j < c,
    ensures
        0 <= i * c + j < r * c,
        i * c + j + 1 <= (i + 1) * c,
        (i + 1) * c <= r * c,
{
    assert(0 <= i * c + j < r * c) by (nonlinear_arith)
        requires
            0 <= i < r,
            0 <= j < c,
    ;
    lemma_row_start(r, c, i);
}

/// Row `i` of an `r x c` matrix starts at `i * c` and ends by `r * c`.
pub proof fn lemma_row_start(r: int, c: int, i: int)
    requires
        0 <= i < r,
        0 <= c,
    ensures
        0 <= i * c,
        (i + 1) * c == i * c + c,
        (i + 1) * c <= r * c,
{
    assert(0 <= i * c) by (nonlinear_arith)
        requires
            0 <= i,
            0 <= c,
    ;
    assert((i + 1) * c == i * c + c) by (nonlinear_arith);
    assert((i + 1) * c <= r * c) by (nonlinear_arith)
        requires
            i + 1 <= r,
            0 <= c,
    ;
}

impl<T: Copy> Tensor<T> {
    /// A tensor of the given shape with every element equal to `value`.
    pub fn filled(shape: Vec<usize>, value: T) -> (r: Tensor<T>)
        requires
            shape@.len() <= 2,
            shape_size(shape@) <= usize::MAX,
        ensures
            r.wf(),
            r.shape@ == shape@,
            forall|i: int| 0 <= i < r.data@.len() ==> r.data@[i] == value,
    {
        let n: usize = if shape.len() == 0 {
            1
        } else if shape.len() == 1 {
            shape[0]
        } else {
            shape[0] * shape[1]
        };
        let mut data: Vec<T> = Vec::new();
        let mut k: usize = 0;
        while k < n
            invariant
                k <= n,
                data@.len() == k,
                forall|i: int| 0 <= i < k ==> data@[i] == value,
            decreases n - k,
        {
            data.push(value);
            k += 1;
        }
        Tensor { data, shape }
    }

    /// Row `i` of a matrix, as a new `1 x cols` matrix.
    pub fn get_row(&self, i: usize) -> (r: Tensor<T>)
        requires
            self.is_matrix(),
            i < self.rows(),
        ensures
            r.is_matrix(),
            r.shape@ == seq![1usize, self.shape@[1]],
            r.data@ == self.row_seq(i as int),
    {
        let c = self.shape[1];
        let total = self.data.len();
        proof {
            lemma_row_start(self.rows(), self.cols(), i as int);
        }
        let start = i * c;
        let mut data: Vec<T> = Vec::new();
        let mut j: usize = 0;
        while j < c
            invariant
                self.is_matrix(),
                c == self.cols(),
                i < self.rows(),
                total == self.data@.len(),
                start == i * c,
                j <= c,
                data@.len() == j,
                forall|k: int| 0 <= k < j ==> data@[k] == self.at(i as int, k),
            decreases c - j,
        {
            proof {
                lemma_flat_index(self.rows(), c as int, i as int, j as int);
            }
            data.push(self.data[start + j]);
            j += 1;
        }
        let shape = vec![1usize, c];
        assert(data@ =~= self.row_seq(i as int));
        Tensor { data, shape }
    }

    /// The rows of a matrix picked by `indices`, in that order, as a new
    /// `indices.len() x cols` matrix.
    pub fn get_rows(&self, indices: &[usize]) -> (r: Tensor<T>)
        requires
            self.is_matrix(),
            forall|k: int| 0 <= k < indices@.len() ==> indices@[k] < self.rows(),
            indices@.len() * self.cols() <= usize::MAX,
        ensures
            r.is_matrix(),
            r.shape@ == seq![indices@.len() as usize, self.shape@[1]],
            forall|k: int, j: int|
                0 <= k < indices@.len() && 0 <= j < self.cols() ==> #[trigger] r.at(k, j)
                    == self.at(indices@[k] as int, j),
    {
        let c = self.shape[1];
        let m = indices.len();
        let total = self.data.len();
        let mut data: Vec<T> = Vec::new();
        let mut k: usize = 0;
        while k < m
            invariant
                self.is_matrix(),
                c == self.cols(),
                m == indices@.len(),
                m * c <= usize::MAX,
                total == self.data@.len(),
                forall|q: int| 0 <= q < m ==> indices@[q] < self.rows(),
                k <= m,
                data@.len() == k * c,
                forall|q: int, j: int|
                    0 <= q < k && 0 <= j < c ==> data@[q * c + j] == self.at(
                        indices@[q] as int,
                        j,
                    ),
            decreases m - k,
        {
            let row = indices[k];
            proof {
                lemma_row_start(self.rows(), c as int, row as int);
            }
            let start = row * c;
            let mut j: usize = 0;
            while j < c
                invariant
                    self.is_matrix(),
                    c == self.cols(),
                    m == indices@.len(),
                    m * c <= usize::MAX,
                    total == self.data@.len(),
                    k < m,
                    row == indices@[k as int],
                    row < self.rows(),
                    start == row * c,
                    j <= c,
                    data@.len() == k * c + j,
                    forall|q: int, jj: int|
                        0 <= q < k && 0 <= jj < c ==> data@[q * c + jj] == self.at(
                            indices@[q] as int,
                            jj,
                        ),
                    forall|jj: int| 0 <= jj < j ==> data@[k * c + jj] == self.at(row as int, jj),
                decreases c - j,
            {
                proof {
                    lemma_flat_index(self.rows(), c as int, row as int, j as int);
                    lemma_flat_index(m as int, c as int, k as int, j as int);
                }
                data.push(self.data[start + j]);
                proof {
                    assert forall|q: int, jj: int| 0 <= q < k && 0 <= jj < c implies data@[q * c
                        + jj] == self.at(indices@[q] as int, jj) by {
                        lemma_flat_index(k as int, c as int, q, jj);
                    }
                }
                j += 1;
            }
            proof {
                assert((k + 1) * c == k * c + c) by (nonlinear_arith);
                assert forall|q: int, jj: int| 0 <= q < k + 1 && 0 <= jj < c implies data@[q * c
                    + jj] == self.at(indices@[q] as int, jj) by {
                    if q < k {
                        lemma_flat_index(k as int, c as int, q, jj);
                    }
                }
            }
            k += 1;
        }
        proof {
            assert(data@.len() == m * c);
        }
        let shape = vec![m, c];
        Tensor { data, shape }
    }
}


/// `other` can be combined element by element with `self`: both well formed,
/// and either of the same shape or a single row as wide as the matrix `self`
/// (that row is then repeated down every row of `self`).
pub open spec fn broadcasts_to<T>(a: &Tensor<T>, b: &Tensor<T>) -> bool {
    a.wf() && b.wf() && (a.shape@ == b.shape@ || (a.shape@.len() == 2 && b.shape@.len() == 2
        && b.shape@[0] == 1 && b.shape@[1] == a.shape@[1]))
}

/// `r` is `f` applied to each element of `a` and the element of `b` that
/// broadcasting pairs with it.
pub open spec fn is_broadcast_of<T, F: Fn(T, T) -> T>(
    r: &Tensor<T>,
    a: &Tensor<T>,
    b: &Tensor<T>,
    f: F,
) -> bool {
    &&& r.shape@ == a.shape@
    &&& r.data@.len() == a.data@.len()
    &&& forall|i: int|
        0 <= i < a.data@.len() ==> f.ensures(
            (a.data@[i], b.data@[i % b.data@.len() as int]),
            #[trigger] r.data@[i],
        )
}

/// `out` is what folding `f` over `a` from `init` gives: there is a chain of
/// accumulators from `init` to `out`, each produced by `f` from the one
/// before and the next element.
pub open spec fn folds_to<T, F: Fn(T, T) -> T>(f: F, init: T, a: Seq<T>, out: T) -> bool {
    exists|chain: Seq<T>|
        {
            &&& chain.len() == a.len() + 1
            &&& chain[0] == init
            &&& chain[a.len() as int] == out
            &&& forall|k: int|
                0 <= k < a.len() ==> f.ensures((chain[k], a[k]), #[trigger] chain[k + 1])
        }
}

/// `out` is what folding the multiply-accumulate step `f` over the pairs of
/// `a` and `b` from `init` gives.
pub open spec fn folds_pairs_to<T, F: Fn(T, T, T) -> T>(
    f: F,
    init: T,
    a: Seq<T>,
    b: Seq<T>,
    out: T,
) -> bool {
    &&& a.len() == b.len()
    &&& exists|chain: Seq<T>|
        {
            &&& chain.len() == a.len() + 1
            &&& chain[0] == init
            &&& chain[a.len() as int] == out
            &&& forall|k: int|
                0 <= k < a.len() ==> f.ensures((chain[k], a[k], b[k]), #[trigger] chain[k + 1])
        }
}

/// `r` is the matrix product of `a` and `b`: an `a.rows x b.cols` matrix
/// whose element `(i, j)` folds `f` over row `i` of `a` and column `j` of `b`.
pub open spec fn is_product_of<T, F: Fn(T, T, T) -> T>(
    r: &Tensor<T>,
    a: &Tensor<T>,
    b: &Tensor<T>,
    zero: T,
    f: F,
) -> bool {
    &&& r.is_matrix()
    &&& r.shape@ == seq![a.shape@[0], b.shape@[1]]
    &&& forall|i: int, j: int|
        0 <= i < a.rows() && 0 <= j < b.cols() ==> folds_pairs_to(
            f,
            zero,
            a.row_seq(i),
            b.col_seq(j),
            #[trigger] r.at(i, j),
        )
}

/// The shape of a matrix reduced along `axis`: the reduced dimension
/// collapses to one.
pub open spec fn reduced_shape(shape: Seq<usize>, axis: usize) -> Seq<usize> {
    if axis == 0 {
        seq![1usize, shape[1]]
    } else {
        seq![shape[0], 1usize]
    }
}

/// `r` is the reduction of the matrix `a` along `axis`: down each column
/// for axis 0, across each row for axis 1, folding `f` from `init`.
pub open spec fn is_reduction_of<T, F: Fn(T, T) -> T>(
    r: &Tensor<T>,
    a: &Tensor<T>,
    axis: usize,
    init: T,
    f: F,
) -> bool {
    &&& r.is_matrix()
    &&& r.shape@ == reduced_shape(a.shape@, axis)
    &&& axis == 0 ==> forall|j: int|
        0 <= j < a.cols() ==> folds_to(f, init, a.col_seq(j), #[trigger] r.at(0, j))
    &&& axis == 1 ==> forall|i: int|
        0 <= i < a.rows() ==> folds_to(f, init, a.row_seq(i), #[trigger] r.at(i, 0))
}

/// `n` elements, the first `zeros` of them `off` and the rest `on`.
pub open spec fn mask_pattern<T>(n: nat, zeros: nat, off: T, on: T) -> Seq<T> {
    Seq::new(n, |i: int| if i < zeros { off } else { on })
}

/// The unshuffled mask holds `on` exactly `n - zeros` times.
pub proof fn lemma_mask_pattern_count<T>(n: nat, zeros: nat, off: T, on: T)
    requires
        zeros <= n,
        off != on,
    ensures
        mask_pattern(n, zeros, off, on).to_multiset().count(on) == n - zeros,
    decreases n,
{
    broadcast use vstd::seq_lib::group_to_multiset_ensures;

    if n == 0 {
        assert(mask_pattern(n, zeros, off, on) =~= Seq::<T>::empty());
    } else if zeros == n {
        lemma_mask_pattern_count((n - 1) as nat, (n - 1) as nat, off, on);
        assert(mask_pattern(n, zeros, off, on) =~= mask_pattern(
            (n - 1) as nat,
            (n - 1) as nat,
            off,
            on,
        ).push(off));
    } else {
        lemma_mask_pattern_count((n - 1) as nat, zeros, off, on);
        assert(mask_pattern(n, zeros, off, on) =~= mask_pattern((n - 1) as nat, zeros, off, on).push(
            on,
        ));
    }
}

impl<T: Copy> Tensor<T> {
    /// The transpose of a matrix: a `cols x rows` matrix whose element
    /// `(j, i)` is element `(i, j)` of `self`.
    pub fn get_transpose(&self) -> (r: Tensor<T>)
        requires
            self.is_matrix(),
        ensures
            r.is_matrix(),
            r.shape@ == seq![self.shape@[1], self.shape@[0]],
            forall|i: int, j: int|
                0 <= i < self.rows() && 0 <= j < self.cols() ==> #[trigger] r.at(j, i) == self.at(
                    i,
                    j,
                ),
    {
        let rows = self.shape[0];
        let cols = self.shape[1];
        let total = self.data.len();
        let mut data: Vec<T> = Vec::new();
        let mut j: usize = 0;
        while j < cols
            invariant
                self.is_matrix(),
                rows == self.rows(),
                cols == self.cols(),
                total == self.data@.len(),
                j <= cols,
                data@.len() == j * rows,
                forall|jj: int, i: int|
                    0 <= jj < j && 0 <= i < rows ==> data@[jj * rows + i] == self.at(i, jj),
            decreases cols - j,
        {
            let mut i: usize = 0;
            while i < rows
                invariant
                    self.is_matrix(),
                    rows == self.rows(),
                    cols == self.cols(),
                    total == self.data@.len(),
                    j < cols,
                    i <= rows,
                    data@.len() == j * rows + i,
                    forall|jj: int, ii: int|
                        0 <= jj < j && 0 <= ii < rows ==> data@[jj * rows + ii] == self.at(ii, jj),
                    forall|ii: int| 0 <= ii < i ==> data@[j * rows + ii] == self.at(ii, j as int),
                decreases rows - i,
            {
                proof {
                    lemma_flat_index(rows as int, cols as int, i as int, j as int);
                }
                data.push(self.data[i * cols + j]);
                proof {
                    assert forall|jj: int, ii: int| 0 <= jj < j && 0 <= ii < rows implies data@[jj
                        * rows + ii] == self.at(ii, jj) by {
                        lemma_flat_index(j as int, rows as int, jj, ii);
                    }
                }
                i += 1;
            }
            proof {
                assert((j + 1) * rows == j * rows + rows) by (nonlinear_arith);
                assert forall|jj: int, ii: int| 0 <= jj < j + 1 && 0 <= ii < rows implies data@[jj
                    * rows + ii] == self.at(ii, jj) by {
                    if jj < j {
                        lemma_flat_index(j as int, rows as int, jj, ii);
                    }
                }
            }
            j += 1;
        }
        proof {
            assert(cols * rows == rows * cols) by (nonlinear_arith);
        }
        let shape = vec![cols, rows];
        let r = Tensor { data, shape };
        proof {
            assert forall|i: int, j: int|
                0 <= i < self.rows() && 0 <= j < self.cols() implies #[trigger] r.at(j, i)
                == self.at(i, j) by {
                assert(r.at(j, i) == r.data@[j * rows + i]);
            }
        }
        r
    }

    /// Transposes a matrix in place (see `get_transpose`).
    pub fn transpose(&mut self)
        requires
            old(self).is_matrix(),
        ensures
            final(self).is_matrix(),
            final(self).shape@ == seq![old(self).shape@[1], old(self).shape@[0]],
            forall|i: int, j: int|
                0 <= i < old(self).rows() && 0 <= j < old(self).cols() ==> #[trigger] final(self).at(
                    j,
                    i,
                ) == old(self).at(i, j),
    {
        let t = self.get_transpose();
        *self = t;
    }

    /// A tensor of the same shape holding `f` of each element.
    pub fn map<F: Fn(T) -> T>(&self, f: F) -> (r: Tensor<T>)
        requires
            forall|x: T| f.requires((x,)),
        ensures
            r.shape@ == self.shape@,
            r.data@.len() == self.data@.len(),
            forall|i: int| 0 <= i < self.data@.len() ==> f.ensures((self.data@[i],), #[trigger] r.data@[i]),
    {
        let n = self.data.len();
        let mut data: Vec<T> = Vec::new();
        let mut i: usize = 0;
        while i < n
            invariant
                n == self.data@.len(),
                forall|x: T| f.requires((x,)),
                i <= n,
                data@.len() == i,
                forall|k: int| 0 <= k < i ==> f.ensures((self.data@[k],), data@[k]),
            decreases n - i,
        {
            let v = f(self.data[i]);
            data.push(v);
            i += 1;
        }
        Tensor { data, shape: self.shape.clone() }
    }

    /// Combines two tensors element by element with `f`; the right operand
    /// is either of the same shape or a single row repeated down the rows
    /// (see `broadcasts_to`). The result has the shape of `self`.
    pub fn broadcast_with<F: Fn(T, T) -> T>(&self, other: &Tensor<T>, f: F) -> (r: Tensor<T>)
        requires
            broadcasts_to(self, other),
            forall|x: T, y: T| f.requires((x, y)),
        ensures
            is_broadcast_of(&r, self, other, f),
    {
        let n = self.data.len();
        let m = other.data.len();
        proof {
            if self.shape@ != other.shape@ && n > 0 {
                assert(self.shape@[1] > 0) by (nonlinear_arith)
                    requires
                        n == self.shape@[0] * self.shape@[1],
                        n > 0,
                ;
            }
        }
        let mut data: Vec<T> = Vec::new();
        let mut i: usize = 0;
        while i < n
            invariant
                n == self.data@.len(),
                m == other.data@.len(),
                n > 0 ==> m > 0,
                self.shape@ == other.shape@ ==> n == m,
                forall|x: T, y: T| f.requires((x, y)),
                i <= n,
                data@.len() == i,
                forall|k: int|
                    0 <= k < i ==> f.ensures(
                        (self.data@[k], other.data@[k % m as int]),
                        #[trigger] data@[k],
                    ),
            decreases n - i,
        {
            let v = f(self.data[i], other.data[i % m]);
            data.push(v);
            i += 1;
        }
        Tensor { data, shape: self.shape.clone() }
    }

    /// Combines two tensors of the same shape element by element with `f`
    /// (the Hadamard form of a binary operation).
    pub fn zip_with<F: Fn(T, T) -> T>(&self, other: &Tensor<T>, f: F) -> (r: Tensor<T>)
        requires
            self.wf(),
            self.shape@ == other.shape@,
            other.wf(),
            forall|x: T, y: T| f.requires((x, y)),
        ensures
            r.shape@ == self.shape@,
            r.data@.len() == self.data@.len(),
            forall|i: int|
                0 <= i < self.data@.len() ==> f.ensures(
                    (self.data@[i], other.data@[i]),
                    #[trigger] r.data@[i],
                ),
    {
        let n = self.data.len();
        let mut data: Vec<T> = Vec::new();
        let mut i: usize = 0;
        while i < n
            invariant
                n == self.data@.len(),
                n == other.data@.len(),
                forall|x: T, y: T| f.requires((x, y)),
                i <= n,
                data@.len() == i,
                forall|k: int| 0 <= k < i ==> f.ensures((self.data@[k], other.data@[k]), #[trigger] data@[k]),
            decreases n - i,
        {
            let v = f(self.data[i], other.data[i]);
            data.push(v);
            i += 1;
        }
        Tensor { data, shape: self.shape.clone() }
    }

    /// A dropout mask: `shape_size(shape)` elements, `zeros` of them `off`
    /// and the rest `on`, shuffled by a generator seeded with `seed`.
    pub fn mask(shape: &Vec<usize>, zeros: usize, seed: u32, off: T, on: T) -> (r: Tensor<T>)
        requires
            shape@.len() <= 2,
            shape_size(shape@) <= usize::MAX,
            zeros <= shape_size(shape@),
        ensures
            r.wf(),
            r.shape@ == shape@,
            r.data@ == shuffled(
                mask_pattern(shape_size(shape@), zeros as nat, off, on),
                seeded_state(seed),
            ).0,
            off != on ==> r.data@.to_multiset().count(on) == shape_size(shape@) - zeros,
    {
        let n: usize = if shape.len() == 0 {
            1
        } else if shape.len() == 1 {
            shape[0]
        } else {
            shape[0] * shape[1]
        };
        let mut data: Vec<T> = Vec::new();
        let mut i: usize = 0;
        while i < n
            invariant
                i <= n,
                data@ == mask_pattern(i as nat, zeros as nat, off, on),
            decreases n - i,
        {
            if i < zeros {
                data.push(off);
            } else {
                data.push(on);
            }
            proof {
                assert(data@ =~= mask_pattern((i + 1) as nat, zeros as nat, off, on));
            }
            i += 1;
        }
        proof {
            if off != on {
                lemma_mask_pattern_count(n as nat, zeros as nat, off, on);
            }
            lemma_shuffle_permutes(data@, seeded_state(seed));
        }
        let mut rng = Rand::new(seed);
        rng.shuffle(&mut data);
        Tensor { data, shape: shape.clone() }
    }
}


impl<T: Copy> Tensor<T> {
    /// Folds the multiply-accumulate step `f` over row `i` of `self` and
    /// column `j` of `other`, starting from `zero`.
    fn fold_row_col<F: Fn(T, T, T) -> T>(
        &self,
        other: &Tensor<T>,
        i: usize,
        j: usize,
        zero: T,
        f: &F,
    ) -> (r: T)
        requires
            self.is_matrix(),
            other.is_matrix(),
            self.cols() == other.rows(),
            i < self.rows(),
            j < other.cols(),
            forall|x: T, y: T, z: T| f.requires((x, y, z)),
        ensures
            folds_pairs_to(*f, zero, self.row_seq(i as int), other.col_seq(j as int), r),
    {
        let n = self.shape[1];
        let k = other.shape[1];
        let total_a = self.data.len();
        let total_b = other.data.len();
        let mut acc = zero;
        let ghost mut chain: Seq<T> = seq![zero];
        let mut s: usize = 0;
        while s < n
            invariant
                self.is_matrix(),
                other.is_matrix(),
                n == self.cols(),
                n == other.rows(),
                k == other.cols(),
                total_a == self.data@.len(),
                total_b == other.data@.len(),
                i < self.rows(),
                j < k,
                forall|x: T, y: T, z: T| f.requires((x, y, z)),
                s <= n,
                chain.len() == s + 1,
                chain[0] == zero,
                chain[s as int] == acc,
                forall|q: int|
                    0 <= q < s ==> f.ensures(
                        (chain[q], self.row_seq(i as int)[q], other.col_seq(j as int)[q]),
                        #[trigger] chain[q + 1],
                    ),
            decreases n - s,
        {
            proof {
                lemma_flat_index(self.rows(), n as int, i as int, s as int);
                lemma_flat_index(n as int, k as int, s as int, j as int);
            }
            let a = self.data[i * n + s];
            let b = other.data[s * k + j];
            acc = f(acc, a, b);
            proof {
                chain = chain.push(acc);
            }
            s += 1;
        }
        proof {
            assert(self.row_seq(i as int).len() == other.col_seq(j as int).len());
        }
        acc
    }

    /// Matrix product: element `(i, j)` folds the multiply-accumulate step
    /// `f` (typically `acc + a * b`) from `zero` over row `i` of `self` and
    /// column `j` of `other`, in order.
    pub fn matmul_with<F: Fn(T, T, T) -> T>(&self, other: &Tensor<T>, zero: T, f: F) -> (r: Tensor<
        T,
    >)
        requires
            self.is_matrix(),
            other.is_matrix(),
            self.cols() == other.rows(),
            self.rows() * other.cols() <= usize::MAX,
            forall|x: T, y: T, z: T| f.requires((x, y, z)),
        ensures
            is_product_of(&r, self, other, zero, f),
    {
        let m = self.shape[0];
        let k = other.shape[1];
        let mut data: Vec<T> = Vec::new();
        let mut i: usize = 0;
        while i < m
            invariant
                self.is_matrix(),
                other.is_matrix(),
                self.cols() == other.rows(),
                m == self.rows(),
                k == other.cols(),
                m * k <= usize::MAX,
                forall|x: T, y: T, z: T| f.requires((x, y, z)),
                i <= m,
                data@.len() == i * k,
                forall|ii: int, jj: int|
                    0 <= ii < i && 0 <= jj < k ==> folds_pairs_to(
                        f,
                        zero,
                        self.row_seq(ii),
                        other.col_seq(jj),
                        data@[ii * k + jj],
                    ),
            decreases m - i,
        {
            let mut j: usize = 0;
            while j < k
                invariant
                    self.is_matrix(),
                    other.is_matrix(),
                    self.cols() == other.rows(),
                    m == self.rows(),
                    k == other.cols(),
                    m * k <= usize::MAX,
                    forall|x: T, y: T, z: T| f.requires((x, y, z)),
                    i < m,
                    j <= k,
                    data@.len() == i * k + j,
                    forall|ii: int, jj: int|
                        0 <= ii < i && 0 <= jj < k ==> folds_pairs_to(
                            f,
                            zero,
                            self.row_seq(ii),
                            other.col_seq(jj),
                            data@[ii * k + jj],
                        ),
                    forall|jj: int|
                        0 <= jj < j ==> folds_pairs_to(
                            f,
                            zero,
                            self.row_seq(i as int),
                            other.col_seq(jj),
                            data@[i * k + jj],
                        ),
                decreases k - j,
            {
                proof {
                    lemma_flat_index(m as int, k as int, i as int, j as int);
                }
                let v = self.fold_row_col(other, i, j, zero, &f);
                data.push(v);
                proof {
                    assert forall|ii: int, jj: int| 0 <= ii < i && 0 <= jj < k implies folds_pairs_to(
                        f,
                        zero,
                        self.row_seq(ii),
                        other.col_seq(jj),
                        data@[ii * k + jj],
                    ) by {
                        lemma_flat_index(i as int, k as int, ii, jj);
                    }
                }
                j += 1;
            }
            proof {
                assert((i + 1) * k == i * k + k) by (nonlinear_arith);
                assert forall|ii: int, jj: int| 0 <= ii < i + 1 && 0 <= jj < k implies folds_pairs_to(
                    f,
                    zero,
                    self.row_seq(ii),
                    other.col_seq(jj),
                    data@[ii * k + jj],
                ) by {
                    if ii < i {
                        lemma_flat_index(i as int, k as int, ii, jj);
                    }
                }
            }
            i += 1;
        }
        let shape = vec![m, k];
        let r = Tensor { data, shape };
        proof {
            assert forall|i: int, j: int|
                0 <= i < self.rows() && 0 <= j < other.cols() implies folds_pairs_to(
                f,
                zero,
                self.row_seq(i),
                other.col_seq(j),
                #[trigger] r.at(i, j),
            ) by {
                assert(r.at(i, j) == r.data@[i * k + j]);
            }
        }
        r
    }
}


impl<T: Copy> Tensor<T> {
    /// Folds `f` from `init` over column `j` (axis 0) or row `j` (axis 1).
    fn fold_lane<F: Fn(T, T) -> T>(&self, axis: usize, j: usize, init: T, f: &F) -> (r: T)
        requires
            self.is_matrix(),
            axis <= 1,
            axis == 0 ==> j < self.cols(),
            axis == 1 ==> j < self.rows(),
            forall|x: T, y: T| f.requires((x, y)),
        ensures
            axis == 0 ==> folds_to(*f, init, self.col_seq(j as int), r),
            axis == 1 ==> folds_to(*f, init, self.row_seq(j as int), r),
    {
        let rows = self.shape[0];
        let cols = self.shape[1];
        let total = self.data.len();
        let n = if axis == 0 {
            rows
        } else {
            cols
        };
        let ghost lane = if axis == 0 {
            self.col_seq(j as int)
        } else {
            self.row_seq(j as int)
        };
        let mut acc = init;
        let ghost mut chain: Seq<T> = seq![init];
        let mut s: usize = 0;
        while s < n
            invariant
                self.is_matrix(),
                rows == self.rows(),
                cols == self.cols(),
                total == self.data@.len(),
                axis <= 1,
                axis == 0 ==> j < cols && n == rows && lane == self.col_seq(j as int),
                axis == 1 ==> j < rows && n == cols && lane == self.row_seq(j as int),
                forall|x: T, y: T| f.requires((x, y)),
                s <= n,
                chain.len() == s + 1,
                chain[0] == init,
                chain[s as int] == acc,
                forall|q: int| 0 <= q < s ==> f.ensures((chain[q], lane[q]), #[trigger] chain[q + 1]),
            decreases n - s,
        {
            let idx = if axis == 0 {
                proof {
                    lemma_flat_index(rows as int, cols as int, s as int, j as int);
                }
                s * cols + j
            } else {
                proof {
                    lemma_flat_index(rows as int, cols as int, j as int, s as int);
                }
                j * cols + s
            };
            acc = f(acc, self.data[idx]);
            proof {
                chain = chain.push(acc);
            }
            s += 1;
        }
        proof {
            assert(lane.len() == n);
        }
        acc
    }

    /// Reduces a matrix along `axis` by folding `f` from `init`: axis 0 runs
    /// down each column and gives a `1 x cols` matrix, axis 1 runs across
    /// each row and gives a `rows x 1` matrix. Sums, means and maxima are
    /// all of this form.
    pub fn reduce_axis<F: Fn(T, T) -> T>(&self, axis: usize, init: T, f: F) -> (r: Tensor<T>)
        requires
            self.is_matrix(),
            axis <= 1,
            forall|x: T, y: T| f.requires((x, y)),
        ensures
            is_reduction_of(&r, self, axis, init, f),
    {
        let rows = self.shape[0];
        let cols = self.shape[1];
        let n = if axis == 0 {
            cols
        } else {
            rows
        };
        let mut data: Vec<T> = Vec::new();
        let mut j: usize = 0;
        while j < n
            invariant
                self.is_matrix(),
                rows == self.rows(),
                cols == self.cols(),
                axis <= 1,
                axis == 0 ==> n == cols,
                axis == 1 ==> n == rows,
                forall|x: T, y: T| f.requires((x, y)),
                j <= n,
                data@.len() == j,
                axis == 0 ==> forall|q: int|
                    0 <= q < j ==> folds_to(f, init, self.col_seq(q), #[trigger] data@[q]),
                axis == 1 ==> forall|q: int|
                    0 <= q < j ==> folds_to(f, init, self.row_seq(q), #[trigger] data@[q]),
            decreases n - j,
        {
            let v = self.fold_lane(axis, j, init, &f);
            data.push(v);
            j += 1;
        }
        let shape = if axis == 0 {
            vec![1usize, cols]
        } else {
            vec![rows, 1usize]
        };
        let r = Tensor { data, shape };
        proof {
            if axis == 0 {
                assert forall|j: int| 0 <= j < self.cols() implies folds_to(
                    f,
                    init,
                    self.col_seq(j),
                    #[trigger] r.at(0, j),
                ) by {
                    assert(r.at(0, j) == r.data@[j]);
                }
            } else {
                assert forall|i: int| 0 <= i < self.rows() implies folds_to(
                    f,
                    init,
                    self.row_seq(i),
                    #[trigger] r.at(i, 0),
                ) by {
                    assert(i * 1 + 0 == i);
                    assert(r.at(i, 0) == r.data@[i]);
                }
            }
        }
        r
    }

    /// The `dot` of a matrix with another: when `other` is a single row as
    /// long as `self` has rows, the sum-product of that row with each column
    /// of `self` (a `1 x cols` matrix, which is `other` times `self`);
    /// otherwise the matrix product `self` times `other`.
    pub fn dot_with<F: Fn(T, T, T) -> T>(&self, other: &Tensor<T>, zero: T, f: F) -> (r: Tensor<T>)
        requires
            self.is_matrix(),
            other.is_matrix(),
            (other.rows() == 1 && other.cols() == self.rows()) || self.cols() == other.rows(),
            self.rows() * other.cols() <= usize::MAX,
            forall|x: T, y: T, z: T| f.requires((x, y, z)),
        ensures
            other.rows() == 1 && other.cols() == self.rows() ==> is_product_of(
                &r,
                other,
                self,
                zero,
                f,
            ),
            !(other.rows() == 1 && other.cols() == self.rows()) ==> is_product_of(
                &r,
                self,
                other,
                zero,
                f,
            ),
    {
        if other.shape[0] == 1 && other.shape[1] == self.shape[0] {
            other.matmul_with(self, zero, f)
        } else {
            self.matmul_with(other, zero, f)
        }
    }
}


/// Adding a tensor and then subtracting it again gives back the first
/// operand, for any broadcast-compatible pair and any element operations
/// `add` and `sub` that cancel one another on single elements.
pub proof fn lemma_add_then_sub<T, F: Fn(T, T) -> T, G: Fn(T, T) -> T>(
    a: &Tensor<T>,
    b: &Tensor<T>,
    sum: &Tensor<T>,
    diff: &Tensor<T>,
    add: F,
    sub: G,
)
    requires
        broadcasts_to(a, b),
        forall|x: T, y: T, s: T, d: T|
            #[trigger] add.ensures((x, y), s) && #[trigger] sub.ensures((s, y), d) ==> d == x,
        is_broadcast_of(sum, a, b, add),
        is_broadcast_of(diff, sum, b, sub),
    ensures
        diff.shape@ == a.shape@,
        diff.data@ == a.data@,
{
    assert forall|i: int| 0 <= i < a.data@.len() implies diff.data@[i] == a.data@[i] by {
        let y = b.data@[i % b.data@.len() as int];
        assert(add.ensures((a.data@[i], y), sum.data@[i]));
        assert(sub.ensures((sum.data@[i], y), diff.data@[i]));
    }
    assert(diff.data@ =~= a.data@);
}


/// `held` and `beats` trace a left-to-right scan of `row` that starts on
/// the first element and, at each later position `k`, asks `greater`
/// whether `row[k]` beats the element held (`beats[k]`), moving to `k`
/// exactly when it does.
pub open spec fn scan_trace<T, F: Fn(T, T) -> bool>(
    greater: F,
    row: Seq<T>,
    held: Seq<int>,
    beats: Seq<bool>,
) -> bool {
    &&& held.len() == row.len()
    &&& beats.len() == row.len()
    &&& held[0] == 0
    &&& forall|k: int| 0 <= k < held.len() ==> 0 <= #[trigger] held[k] <= k
    &&& forall|k: int|
        1 <= k < row.len() ==> {
            &&& greater.ensures((row[k], row[held[k - 1]]), #[trigger] beats[k])
            &&& held[k] == if beats[k] {
                k
            } else {
                held[k - 1]
            }
        }
}

/// `idx` is where such a scan of the non-empty `row` ends.
pub open spec fn scans_to<T, F: Fn(T, T) -> bool>(greater: F, row: Seq<T>, idx: int) -> bool {
    exists|held: Seq<int>, beats: Seq<bool>|
        #[trigger] scan_trace(greater, row, held, beats) && held[row.len() - 1] == idx
}

/// One more step of a scan: the trace over the first `c` elements extends
/// to the first `c + 1` by the answer `b` of `greater` at position `c`.
pub proof fn lemma_scan_step<T, F: Fn(T, T) -> bool>(
    greater: F,
    row: Seq<T>,
    c: int,
    held: Seq<int>,
    beats: Seq<bool>,
    b: bool,
)
    requires
        1 <= c < row.len(),
        scan_trace(greater, row.subrange(0, c), held, beats),
        greater.ensures((row[c], row[held[c - 1]]), b),
    ensures
        scan_trace(
            greater,
            row.subrange(0, c + 1),
            held.push(if b {
                c
            } else {
                held[c - 1]
            }),
            beats.push(b),
        ),
{
    let cur = row.subrange(0, c + 1);
    let prev = row.subrange(0, c);
    let h2 = held.push(if b {
        c
    } else {
        held[c - 1]
    });
    let b2 = beats.push(b);
    assert forall|k: int| 0 <= k < h2.len() implies 0 <= #[trigger] h2[k] <= k by {
        if k < c {
            assert(h2[k] == held[k]);
        } else {
            assert(0 <= held[c - 1] <= c - 1);
        }
    }
    assert forall|k: int| 1 <= k < cur.len() implies {
        &&& greater.ensures((cur[k], cur[h2[k - 1]]), #[trigger] b2[k])
        &&& h2[k] == if b2[k] {
            k
        } else {
            h2[k - 1]
        }
    } by {
        assert(0 <= h2[k - 1] <= k - 1);
        if k < c {
            assert(b2[k] == beats[k]);
            assert(h2[k] == held[k]);
            assert(h2[k - 1] == held[k - 1]);
            assert(greater.ensures((prev[k], prev[held[k - 1]]), beats[k]));
        }
    }
}

impl<T: Copy> Tensor<T> {
    /// The scan of `scans_to` over row `i`.
    fn scan_row<F: Fn(T, T) -> bool>(&self, i: usize, greater: &F) -> (r: usize)
        requires
            self.is_matrix(),
            i < self.rows(),
            self.cols() > 0,
            forall|x: T, y: T| greater.requires((x, y)),
        ensures
            r < self.cols(),
            scans_to(*greater, self.row_seq(i as int), r as int),
    {
        let cols = self.shape[1];
        let total = self.data.len();
        let ghost row = self.row_seq(i as int);
        proof {
            lemma_flat_index(self.rows(), cols as int, i as int, 0);
        }
        let mut best: usize = 0;
        let mut best_value = self.data[i * cols];
        let ghost mut held: Seq<int> = seq![0int];
        let ghost mut beats: Seq<bool> = seq![false];
        let mut col: usize = 1;
        while col < cols
            invariant
                self.is_matrix(),
                cols == self.cols(),
                total == self.data@.len(),
                i < self.rows(),
                row == self.row_seq(i as int),
                forall|x: T, y: T| greater.requires((x, y)),
                1 <= col <= cols,
                best < col,
                best_value == row[best as int],
                held[col - 1] == best,
                scan_trace(*greater, row.subrange(0, col as int), held, beats),
            decreases cols - col,
        {
            proof {
                lemma_flat_index(self.rows(), cols as int, i as int, col as int);
            }
            let value = self.data[i * cols + col];
            assert(value == row[col as int]);
            let b = greater(value, best_value);
            if b {
                best = col;
                best_value = value;
            }
            proof {
                lemma_scan_step(*greater, row, col as int, held, beats, b);
                beats = beats.push(b);
                held = held.push(best as int);
            }
            col += 1;
        }
        proof {
            assert(row.subrange(0, cols as int) =~= row);
            assert(scan_trace(*greater, row, held, beats));
        }
        best
    }

    /// For each row of a matrix, the position of its largest element as
    /// `greater` judges: the first element, replaced by each later one that
    /// is greater than the one held (so the first of equal maxima wins).
    pub fn argmax_rows<F: Fn(T, T) -> bool>(&self, greater: F) -> (r: Vec<usize>)
        requires
            self.is_matrix(),
            self.cols() > 0,
            forall|x: T, y: T| greater.requires((x, y)),
        ensures
            r@.len() == self.rows(),
            forall|i: int| 0 <= i < self.rows() ==> #[trigger] r@[i] < self.cols(),
            forall|i: int|
                0 <= i < self.rows() ==> scans_to(greater, self.row_seq(i), #[trigger] r@[i] as int),
    {
        let rows = self.shape[0];
        let mut r: Vec<usize> = Vec::new();
        let mut i: usize = 0;
        while i < rows
            invariant
                self.is_matrix(),
                self.cols() > 0,
                rows == self.rows(),
                forall|x: T, y: T| greater.requires((x, y)),
                i <= rows,
                r@.len() == i,
                forall|k: int| 0 <= k < i ==> #[trigger] r@[k] < self.cols(),
                forall|k: int| 0 <= k < i ==> scans_to(greater, self.row_seq(k), #[trigger] r@[k] as int),
            decreases rows - i,
        {
            let v = self.scan_row(i, &greater);
            r.push(v);
            i += 1;
        }
        r
    }
}

} // verus!
