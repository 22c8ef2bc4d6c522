//! The table a model trains on: rows of values, each marked for training,
//! testing or neither, and columns marked as features, targets or neither.
//! Value parsing and comparison live with the loaders; this module keeps
//! the bookkeeping and the selection of training tensors.
use vstd::prelude::*;
use vstd::string::StringExecFns;

use crate::tensor::Tensor;

verus! {

/// The role of a column.
#[derive(Debug, Clone, Copy, PartialEq, Eq, Structural)]
pub enum ColumnType {
    /// A feature used to train the model.
    Feature,
    /// A target to predict.
    Target,
    /// Not used by the model.
    Skip,
}

/// The role of a row.
#[derive(Debug, Clone, Copy, PartialEq, Eq, Structural)]
pub enum RowType {
    /// Used for training.
    Train,
    /// Held out for testing.
    Test,
    /// Ignored.
    Skip,
}

/// Name and role of a column.
#[derive(Debug)]
pub struct ColumnMetadata {
    name: String,
    column_type: ColumnType,
}

impl ColumnMetadata {
    /// The role of the column.
    pub closed spec fn spec_column_type(&self) -> ColumnType {
        self.column_type
    }

    /// The column's name.
    pub fn name(&self) -> &String {
        &self.name
    }

    /// The column's role.
    pub fn column_type(&self) -> (r: ColumnType)
        ensures
            r == self.spec_column_type(),
    {
        self.column_type
    }
}

/// Why a dataset could not be built.
#[derive(Debug)]
pub enum DatasetError {
    FileNotFound,
    BadFormat(String),
}

/// One row of values and its role.
#[derive(Debug)]
pub struct Row<T> {
    data: Vec<T>,
    row_type: RowType,
}

/// A table of values with a role for each row and each column.
pub struct Dataset<T> {
    data: Vec<Row<T>>,
    columns_metadata: Vec<ColumnMetadata>,
}

/// What a dataset holds: the values of each row, the role of each row and
/// the role of each column.
pub struct DatasetView<T> {
    pub rows: Seq<Seq<T>>,
    pub row_types: Seq<RowType>,
    pub columns: Seq<ColumnType>,
}

impl<T> View for Dataset<T> {
    type V = DatasetView<T>;

    closed spec fn view(&self) -> DatasetView<T> {
        DatasetView {
            rows: Seq::new(self.data@.len(), |i: int| self.data@[i].data@),
            row_types: Seq::new(self.data@.len(), |i: int| self.data@[i].row_type),
            columns: Seq::new(
                self.columns_metadata@.len(),
                |i: int| self.columns_metadata@[i].column_type,
            ),
        }
    }
}

/// Every row has one value per column.
pub open spec fn table_wf<T>(v: DatasetView<T>) -> bool {
    &&& v.rows.len() == v.row_types.len()
    &&& forall|i: int| 0 <= i < v.rows.len() ==> (#[trigger] v.rows[i]).len() == v.columns.len()
}

/// How many of the first `n` entries of `s` equal `x`.
pub open spec fn count_of<A>(s: Seq<A>, x: A, n: nat) -> nat
    decreases n,
{
    if n == 0 {
        0
    } else {
        count_of(s, x, (n - 1) as nat) + if s[n - 1] == x {
            1nat
        } else {
            0nat
        }
    }
}

/// The positions among the first `n` columns whose role is `ct`, in order.
pub open spec fn columns_of(cols: Seq<ColumnType>, ct: ColumnType, n: nat) -> Seq<usize>
    decreases n,
{
    if n == 0 {
        Seq::empty()
    } else if cols[n - 1] == ct {
        columns_of(cols, ct, (n - 1) as nat).push((n - 1) as usize)
    } else {
        columns_of(cols, ct, (n - 1) as nat)
    }
}

/// The values of `row` at the positions `idx`, in that order.
pub open spec fn project<T>(row: Seq<T>, idx: Seq<usize>) -> Seq<T> {
    Seq::new(idx.len(), |k: int| row[idx[k] as int])
}

/// The selected columns `idx` of the first `n` rows whose role is `rt`,
/// row after row.
pub open spec fn gather<T>(v: DatasetView<T>, rt: RowType, idx: Seq<usize>, n: nat) -> Seq<T>
    decreases n,
{
    if n == 0 {
        Seq::empty()
    } else if v.row_types[n - 1] == rt {
        gather(v, rt, idx, (n - 1) as nat) + project(v.rows[n - 1], idx)
    } else {
        gather(v, rt, idx, (n - 1) as nat)
    }
}

proof fn lemma_columns_of_bounds(cols: Seq<ColumnType>, ct: ColumnType, n: nat)
    requires
        n <= cols.len(),
    ensures
        columns_of(cols, ct, n).len() <= n,
        columns_of(cols, ct, n).len() == count_of(cols, ct, n),
        forall|k: int|
            0 <= k < columns_of(cols, ct, n).len() ==> (#[trigger] columns_of(cols, ct, n)[k]) < n,
    decreases n,
{
    if n > 0 {
        lemma_columns_of_bounds(cols, ct, (n - 1) as nat);
    }
}

proof fn lemma_gather_len<T>(v: DatasetView<T>, rt: RowType, idx: Seq<usize>, n: nat)
    ensures
        gather(v, rt, idx, n).len() == count_of(v.row_types, rt, n) * idx.len(),
    decreases n,
{
    if n == 0 {
        assert(gather(v, rt, idx, 0).len() == 0);
        assert(count_of(v.row_types, rt, 0) == 0);
    } else {
        lemma_gather_len(v, rt, idx, (n - 1) as nat);
        let c = count_of(v.row_types, rt, (n - 1) as nat);
        let g = gather(v, rt, idx, (n - 1) as nat);
        assert(g.len() == c * idx.len());
        if v.row_types[n - 1] == rt {
            assert(count_of(v.row_types, rt, n) == c + 1);
            assert(gather(v, rt, idx, n) == g + project(v.rows[n - 1], idx));
            assert((c + 1) * idx.len() == c * idx.len() + idx.len()) by (nonlinear_arith);
        } else {
            assert(count_of(v.row_types, rt, n) == c);
            assert(gather(v, rt, idx, n) == g);
        }
    }
}

proof fn lemma_count_bound<A>(s: Seq<A>, x: A, n: nat)
    ensures
        count_of(s, x, n) <= n,
    decreases n,
{
    if n > 0 {
        lemma_count_bound(s, x, (n - 1) as nat);
    }
}

/// A fresh vector with the same elements as `v`.
fn copy_of<T: Copy>(v: &Vec<T>) -> (r: Vec<T>)
    ensures
        r@ == v@,
{
    let mut r: Vec<T> = Vec::new();
    let mut i: usize = 0;
    while i < v.len()
        invariant
            i <= v@.len(),
            r@ == v@.subrange(0, i as int),
        decreases v@.len() - i,
    {
        r.push(v[i]);
        proof {
            assert(r@ =~= v@.subrange(0, i + 1));
        }
        i += 1;
    }
    proof {
        assert(r@ =~= v@);
    }
    r
}

impl<T: Copy> Dataset<T> {
    /// Builds a dataset from rows of values. Every row is a training row;
    /// the last column is the target and the others are features, named
    /// `X_0`, `X_1`, ... and `Y`. Rows of different lengths are refused.
    pub fn from_raw_data(data: Vec<Vec<T>>) -> (r: Result<Dataset<T>, DatasetError>)
        requires
            data@.len() > 0,
            data@[0]@.len() > 0,
        ensures
            r is Err <==> exists|i: int| 0 <= i < data@.len() && #[trigger] data@[i]@.len() != data@[0]@.len(),
            r is Ok ==> {
                let v = r->Ok_0@;
                &&& table_wf(v)
                &&& v.rows == Seq::new(data@.len(), |i: int| data@[i]@)
                &&& v.row_types == Seq::new(data@.len(), |i: int| RowType::Train)
                &&& v.columns == Seq::new(
                    data@[0]@.len(),
                    |i: int|
                        if i < data@[0]@.len() - 1 {
                            ColumnType::Feature
                        } else {
                            ColumnType::Target
                        },
                )
            },
    {
        let cols = data[0].len();
        let mut i: usize = 0;
        while i < data.len()
            invariant
                cols == data@[0]@.len(),
                i <= data@.len(),
                forall|k: int| 0 <= k < i ==> (#[trigger] data@[k])@.len() == cols,
            decreases data@.len() - i,
        {
            if data[i].len() != cols {
                return Err(DatasetError::BadFormat(String::from_str("All rows must have equal lengths.")));
            }
            i += 1;
        }
        let mut columns_metadata: Vec<ColumnMetadata> = Vec::new();
        let mut c: usize = 0;
        while c < cols - 1
            invariant
                c <= cols - 1,
                columns_metadata@.len() == c,
                forall|k: int| 0 <= k < c ==> (#[trigger] columns_metadata@[k]).column_type == ColumnType::Feature,
            decreases cols - 1 - c,
        {
            let mut name = String::from_str("X_");
            let digits = c.to_string();
            name.append(digits.as_str());
            columns_metadata.push(ColumnMetadata { name, column_type: ColumnType::Feature });
            c += 1;
        }
        columns_metadata.push(ColumnMetadata { name: String::from_str("Y"), column_type: ColumnType::Target });
        let ghost input = data@;
        let mut rows: Vec<Row<T>> = Vec::new();
        let mut source = data;
        let mut k: usize = 0;
        let n = source.len();
        while k < n
            invariant
                n == input.len(),
                k <= n,
                source@ == input,
                rows@.len() == k,
                forall|q: int| 0 <= q < k ==> (#[trigger] rows@[q]).data@ == input[q]@ && rows@[q].row_type == RowType::Train,
            decreases n - k,
        {
            let row_data = copy_of(&source[k]);
            rows.push(Row { data: row_data, row_type: RowType::Train });
            k += 1;
        }
        let r = Dataset { data: rows, columns_metadata };
        proof {
            assert(r@.rows =~= Seq::new(input.len(), |i: int| input[i]@));
            assert(r@.row_types =~= Seq::new(input.len(), |i: int| RowType::Train));
            assert(r@.columns =~= Seq::new(
                cols as nat,
                |i: int|
                    if i < cols - 1 {
                        ColumnType::Feature
                    } else {
                        ColumnType::Target
                    },
            ));
        }
        Ok(r)
    }
}


impl<T: Copy> Dataset<T> {
    /// Sets the role of row `index`.
    pub fn set_row_type(&mut self, row_type: RowType, index: usize)
        requires
            index < old(self)@.rows.len(),
        ensures
            final(self)@.rows == old(self)@.rows,
            final(self)@.columns == old(self)@.columns,
            final(self)@.row_types == old(self)@.row_types.update(index as int, row_type),
    {
        self.data[index].row_type = row_type;
        proof {
            assert(self@.rows =~= old(self)@.rows);
            assert(self@.columns =~= old(self)@.columns);
            assert(self@.row_types =~= old(self)@.row_types.update(index as int, row_type));
        }
    }

    /// Sets the role of every row.
    pub fn set_all_rows_type(&mut self, row_type: RowType)
        ensures
            final(self)@.rows == old(self)@.rows,
            final(self)@.columns == old(self)@.columns,
            final(self)@.row_types == Seq::new(old(self)@.rows.len(), |i: int| row_type),
    {
        let n = self.data.len();
        let mut i: usize = 0;
        while i < n
            invariant
                n == self.data@.len(),
                n == old(self).data@.len(),
                i <= n,
                self.columns_metadata == old(self).columns_metadata,
                forall|k: int| 0 <= k < n ==> (#[trigger] self.data@[k]).data == old(self).data@[k].data,
                forall|k: int| 0 <= k < i ==> (#[trigger] self.data@[k]).row_type == row_type,
            decreases n - i,
        {
            self.data[i].row_type = row_type;
            i += 1;
        }
        proof {
            assert(self@.rows =~= old(self)@.rows);
            assert(self@.columns =~= old(self)@.columns);
            assert(self@.row_types =~= Seq::new(old(self)@.rows.len(), |i: int| row_type));
        }
    }

    /// Appends the rows of `other` after those of `self`.
    pub fn concatenate(&mut self, other: Dataset<T>)
        ensures
            final(self)@.rows == old(self)@.rows + other@.rows,
            final(self)@.row_types == old(self)@.row_types + other@.row_types,
            final(self)@.columns == old(self)@.columns,
    {
        let mut rows = other.data;
        self.data.append(&mut rows);
        proof {
            assert(self@.rows =~= old(self)@.rows + other@.rows);
            assert(self@.row_types =~= old(self)@.row_types + other@.row_types);
            assert(self@.columns =~= old(self)@.columns);
        }
    }

    /// Removes column `index` from the metadata and from every row.
    pub fn remove_column(&mut self, index: usize)
        requires
            table_wf(old(self)@),
            index < old(self)@.columns.len(),
        ensures
            table_wf(final(self)@),
            final(self)@.columns == old(self)@.columns.remove(index as int),
            final(self)@.row_types == old(self)@.row_types,
            final(self)@.rows == Seq::new(
                old(self)@.rows.len(),
                |i: int| old(self)@.rows[i].remove(index as int),
            ),
    {
        self.columns_metadata.remove(index);
        let n = self.data.len();
        let mut i: usize = 0;
        while i < n
            invariant
                n == self.data@.len(),
                n == old(self).data@.len(),
                i <= n,
                table_wf(old(self)@),
                index < old(self)@.columns.len(),
                self.columns_metadata@ == old(self).columns_metadata@.remove(index as int),
                forall|k: int| 0 <= k < n ==> (#[trigger] self.data@[k]).row_type == old(self).data@[k].row_type,
                forall|k: int| 0 <= k < i ==> (#[trigger] self.data@[k]).data@ == old(self).data@[k].data@.remove(index as int),
                forall|k: int| i <= k < n ==> (#[trigger] self.data@[k]).data@ == old(self).data@[k].data@,
            decreases n - i,
        {
            proof {
                assert(old(self)@.rows[i as int] == old(self).data@[i as int].data@);
            }
            self.data[i].data.remove(index);
            i += 1;
        }
        proof {
            assert(self@.columns =~= old(self)@.columns.remove(index as int));
            assert(self@.row_types =~= old(self)@.row_types);
            assert(self@.rows =~= Seq::new(
                old(self)@.rows.len(),
                |i: int| old(self)@.rows[i].remove(index as int),
            ));
            assert forall|k: int| 0 <= k < self@.rows.len() implies (#[trigger] self@.rows[k]).len()
                == self@.columns.len() by {
                assert(old(self)@.rows[k].len() == old(self)@.columns.len());
            }
        }
    }

    /// Tells whether every row has one value per column.
    pub fn is_well_formed(&self) -> (r: bool)
        ensures
            r == table_wf(self@),
    {
        let ncols = self.columns_metadata.len();
        let n = self.data.len();
        let mut i: usize = 0;
        while i < n
            invariant
                n == self.data@.len(),
                ncols == self@.columns.len(),
                i <= n,
                forall|k: int| 0 <= k < i ==> (#[trigger] self@.rows[k]).len() == ncols,
            decreases n - i,
        {
            if self.data[i].data.len() != ncols {
                proof {
                    assert(self@.rows[i as int] == self.data@[i as int].data@);
                }
                return false;
            }
            i += 1;
        }
        true
    }

    /// Number of rows whose role is `row_type`.
    pub fn count_row_type(&self, row_type: &RowType) -> (r: usize)
        ensures
            r == count_of(self@.row_types, *row_type, self@.row_types.len()),
    {
        let n = self.data.len();
        let mut c: usize = 0;
        let mut i: usize = 0;
        while i < n
            invariant
                n == self@.row_types.len(),
                n == self.data@.len(),
                i <= n,
                c == count_of(self@.row_types, *row_type, i as nat),
            decreases n - i,
        {
            proof {
                lemma_count_bound(self@.row_types, *row_type, i as nat);
            }
            if self.data[i].row_type == *row_type {
                c += 1;
            }
            i += 1;
        }
        c
    }

    /// Number of columns whose role is `col_type`.
    fn count_column_type(&self, col_type: &ColumnType) -> (r: usize)
        ensures
            r == count_of(self@.columns, *col_type, self@.columns.len()),
    {
        let n = self.columns_metadata.len();
        let mut c: usize = 0;
        let mut i: usize = 0;
        while i < n
            invariant
                n == self@.columns.len(),
                n == self.columns_metadata@.len(),
                i <= n,
                c == count_of(self@.columns, *col_type, i as nat),
            decreases n - i,
        {
            proof {
                lemma_count_bound(self@.columns, *col_type, i as nat);
            }
            if self.columns_metadata[i].column_type == *col_type {
                c += 1;
            }
            i += 1;
        }
        c
    }

    /// Number of feature columns.
    pub fn get_number_features(&self) -> (r: usize)
        ensures
            r == count_of(self@.columns, ColumnType::Feature, self@.columns.len()),
    {
        self.count_column_type(&ColumnType::Feature)
    }

    /// Number of target columns.
    pub fn get_number_targets(&self) -> (r: usize)
        ensures
            r == count_of(self@.columns, ColumnType::Target, self@.columns.len()),
    {
        self.count_column_type(&ColumnType::Target)
    }

    /// The values of row `i`.
    pub fn row(&self, i: usize) -> (r: &Vec<T>)
        requires
            i < self@.rows.len(),
        ensures
            r@ == self@.rows[i as int],
    {
        &self.data[i].data
    }

    /// Name and role of every column.
    pub fn columns_metadata(&self) -> (r: &Vec<ColumnMetadata>)
        ensures
            r@.len() == self@.columns.len(),
            forall|i: int| 0 <= i < r@.len() ==> (#[trigger] r@[i]).spec_column_type() == self@.columns[i],
    {
        &self.columns_metadata
    }

    /// Number of columns, whatever their role.
    pub fn column_count(&self) -> (r: usize)
        ensures
            r == self@.columns.len(),
    {
        self.columns_metadata.len()
    }

    /// Number of rows, whatever their role.
    pub fn get_row_count(&self) -> (r: usize)
        ensures
            r == self@.rows.len(),
    {
        self.data.len()
    }

    /// The matrix of the rows whose role is `row_type`, restricted to the
    /// columns whose role is `col_type`, both in table order.
    pub fn get_tensor(&self, row_type: RowType, col_type: ColumnType) -> (r: Tensor<T>)
        requires
            table_wf(self@),
            count_of(self@.row_types, row_type, self@.row_types.len()) * count_of(
                self@.columns,
                col_type,
                self@.columns.len(),
            ) <= usize::MAX,
        ensures
            r.is_matrix(),
            r.shape@ == seq![
                count_of(self@.row_types, row_type, self@.row_types.len()) as usize,
                count_of(self@.columns, col_type, self@.columns.len()) as usize,
            ],
            r.data@ == gather(
                self@,
                row_type,
                columns_of(self@.columns, col_type, self@.columns.len()),
                self@.rows.len(),
            ),
    {
        let rows = self.count_row_type(&row_type);
        let cols = self.count_column_type(&col_type);
        let ncols = self.columns_metadata.len();
        let mut col_indexes: Vec<usize> = Vec::new();
        let mut i: usize = 0;
        while i < ncols
            invariant
                ncols == self@.columns.len(),
                ncols == self.columns_metadata@.len(),
                i <= ncols,
                col_indexes@ == columns_of(self@.columns, col_type, i as nat),
            decreases ncols - i,
        {
            if self.columns_metadata[i].column_type == col_type {
                col_indexes.push(i);
            }
            i += 1;
        }
        let ghost idx = col_indexes@;
        proof {
            lemma_columns_of_bounds(self@.columns, col_type, ncols as nat);
        }
        let n = self.data.len();
        let mut result: Vec<T> = Vec::new();
        let mut k: usize = 0;
        while k < n
            invariant
                table_wf(self@),
                n == self.data@.len(),
                n == self@.rows.len(),
                ncols == self@.columns.len(),
                idx == col_indexes@,
                idx == columns_of(self@.columns, col_type, ncols as nat),
                forall|q: int| 0 <= q < idx.len() ==> (#[trigger] idx[q]) < ncols,
                k <= n,
                result@ == gather(self@, row_type, idx, k as nat),
            decreases n - k,
        {
            if self.data[k].row_type == row_type {
                let ghost before = result@;
                proof {
                    assert(self@.rows[k as int] == self.data@[k as int].data@);
                    assert(self@.rows[k as int].len() == ncols);
                }
                let mut j: usize = 0;
                while j < col_indexes.len()
                    invariant
                        table_wf(self@),
                        n == self.data@.len(),
                        n == self@.rows.len(),
                        k < n,
                        ncols == self@.columns.len(),
                        self@.rows[k as int] == self.data@[k as int].data@,
                        self.data@[k as int].data@.len() == ncols,
                        idx == col_indexes@,
                        forall|q: int| 0 <= q < idx.len() ==> (#[trigger] idx[q]) < ncols,
                        j <= idx.len(),
                        result@ == before + project(self@.rows[k as int], idx).subrange(0, j as int),
                    decreases idx.len() - j,
                {
                    let col = col_indexes[j];
                    result.push(self.data[k].data[col]);
                    proof {
                        assert(result@ =~= before + project(self@.rows[k as int], idx).subrange(
                            0,
                            j + 1,
                        ));
                    }
                    j += 1;
                }
                proof {
                    assert(project(self@.rows[k as int], idx).subrange(0, idx.len() as int) =~= project(
                        self@.rows[k as int],
                        idx,
                    ));
                    assert(self@.row_types[k as int] == row_type);
                }
            } else {
                proof {
                    assert(self@.row_types[k as int] != row_type);
                }
            }
            k += 1;
        }
        proof {
            lemma_gather_len(self@, row_type, idx, n as nat);
        }
        let shape = vec![rows, cols];
        Tensor::new(result, shape)
    }
}


/// A one-hot vector of length `width` with `one` at `position`.
pub open spec fn one_hot<T>(width: nat, position: int, zero: T, one: T) -> Seq<T> {
    Seq::new(width, |k: int| if k == position { one } else { zero })
}

impl<T: Copy> Dataset<T> {
    /// The values of column `index`, row after row.
    pub fn column(&self, index: usize) -> (r: Vec<T>)
        requires
            table_wf(self@),
            index < self@.columns.len(),
        ensures
            r@ == Seq::new(self@.rows.len(), |i: int| self@.rows[i][index as int]),
    {
        let n = self.data.len();
        let mut r: Vec<T> = Vec::new();
        let mut i: usize = 0;
        while i < n
            invariant
                table_wf(self@),
                index < self@.columns.len(),
                n == self.data@.len(),
                n == self@.rows.len(),
                i <= n,
                r@ == Seq::new(i as nat, |k: int| self@.rows[k][index as int]),
            decreases n - i,
        {
            proof {
                assert(self@.rows[i as int] == self.data@[i as int].data@);
            }
            r.push(self.data[i].data[index]);
            proof {
                assert(r@ =~= Seq::new((i + 1) as nat, |k: int| self@.rows[k][index as int]));
            }
            i += 1;
        }
        r
    }

    /// Replaces column `index` by `width` target columns holding a one-hot
    /// encoding: row `i` gets `one` in the new column `positions[i]` and
    /// `zero` in the others. The new columns are appended after the existing
    /// ones, then column `index` is removed.
    pub fn one_hot_encode_positions(
        &mut self,
        index: usize,
        positions: &Vec<usize>,
        width: usize,
        zero: T,
        one: T,
    )
        requires
            table_wf(old(self)@),
            index < old(self)@.columns.len(),
            positions@.len() == old(self)@.rows.len(),
            forall|i: int| 0 <= i < positions@.len() ==> positions@[i] < width,
            old(self)@.columns.len() + width <= usize::MAX,
        ensures
            table_wf(final(self)@),
            final(self)@.row_types == old(self)@.row_types,
            final(self)@.columns == (old(self)@.columns + Seq::new(
                width as nat,
                |k: int| ColumnType::Target,
            )).remove(index as int),
            final(self)@.rows == Seq::new(
                old(self)@.rows.len(),
                |i: int|
                    (old(self)@.rows[i] + one_hot(
                        width as nat,
                        positions@[i] as int,
                        zero,
                        one,
                    )).remove(index as int),
            ),
    {
        let n = self.data.len();
        let ghost ncols = old(self)@.columns.len();
        let mut i: usize = 0;
        while i < n
            invariant
                n == self.data@.len(),
                n == old(self).data@.len(),
                n == positions@.len(),
                ncols == old(self)@.columns.len(),
                table_wf(old(self)@),
                i <= n,
                self.columns_metadata == old(self).columns_metadata,
                forall|k: int| 0 <= k < n ==> (#[trigger] self.data@[k]).row_type == old(self).data@[k].row_type,
                forall|k: int|
                    0 <= k < i ==> (#[trigger] self.data@[k]).data@ == old(self)@.rows[k] + one_hot(
                        width as nat,
                        positions@[k] as int,
                        zero,
                        one,
                    ),
                forall|k: int| i <= k < n ==> (#[trigger] self.data@[k]).data@ == old(self)@.rows[k],
            decreases n - i,
        {
            let p = positions[i];
            let ghost before = self.data@[i as int].data@;
            let mut j: usize = 0;
            while j < width
                invariant
                    n == self.data@.len(),
                    i < n,
                    self.columns_metadata == old(self).columns_metadata,
                    forall|k: int| 0 <= k < n ==> (#[trigger] self.data@[k]).row_type == old(self).data@[k].row_type,
                    forall|k: int|
                        0 <= k < i ==> (#[trigger] self.data@[k]).data@ == old(self)@.rows[k] + one_hot(
                            width as nat,
                            positions@[k] as int,
                            zero,
                            one,
                        ),
                    forall|k: int| i < k < n ==> (#[trigger] self.data@[k]).data@ == old(self)@.rows[k],
                    j <= width,
                    self.data@[i as int].data@ == before + one_hot(width as nat, p as int, zero, one).subrange(0, j as int),
                decreases width - j,
            {
                if j == p {
                    self.data[i].data.push(one);
                } else {
                    self.data[i].data.push(zero);
                }
                proof {
                    assert(self.data@[i as int].data@ =~= before + one_hot(width as nat, p as int, zero, one).subrange(0, j + 1));
                }
                j += 1;
            }
            proof {
                assert(one_hot(width as nat, p as int, zero, one).subrange(0, width as int) =~= one_hot(width as nat, p as int, zero, one));
                assert(before == old(self)@.rows[i as int]);
            }
            i += 1;
        }
        let mut c: usize = 0;
        while c < width
            invariant
                c <= width,
                self.columns_metadata@.len() == ncols + c,
                forall|k: int| 0 <= k < ncols ==> (#[trigger] self.columns_metadata@[k]).column_type == old(self).columns_metadata@[k].column_type,
                forall|k: int| ncols <= k < ncols + c ==> (#[trigger] self.columns_metadata@[k]).column_type == ColumnType::Target,
                n == self.data@.len(),
                forall|k: int| 0 <= k < n ==> (#[trigger] self.data@[k]).row_type == old(self).data@[k].row_type,
                forall|k: int|
                    0 <= k < n ==> (#[trigger] self.data@[k]).data@ == old(self)@.rows[k] + one_hot(
                        width as nat,
                        positions@[k] as int,
                        zero,
                        one,
                    ),
                ncols == old(self)@.columns.len(),
                ncols + width <= usize::MAX,
            decreases width - c,
        {
            self.columns_metadata.push(ColumnMetadata { name: String::from_str("Y"), column_type: ColumnType::Target });
            c += 1;
        }
        proof {
            assert(self@.columns =~= old(self)@.columns + Seq::new(width as nat, |k: int| ColumnType::Target));
            assert forall|k: int| 0 <= k < self@.rows.len() implies (#[trigger] self@.rows[k]).len() == self@.columns.len() by {
                assert(old(self)@.rows[k].len() == ncols);
            }
        }
        self.remove_column(index);
        proof {
            assert(self@.rows =~= Seq::new(
                old(self)@.rows.len(),
                |i: int|
                    (old(self)@.rows[i] + one_hot(
                        width as nat,
                        positions@[i] as int,
                        zero,
                        one,
                    )).remove(index as int),
            ));
            assert(self@.row_types =~= old(self)@.row_types);
        }
    }
}

} // verus!
