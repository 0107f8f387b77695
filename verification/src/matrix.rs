//! Dense matrices over the scalar field, with the two products that
//! Freivalds' check of a matrix product compares.

use crate::field::{all_wf, fe_values, lemma_add_mod, modulus, Fe};
use crate::sums::sum;
use vstd::prelude::*;

verus! {

/// Term `i` of the dot product of two vectors.
pub open spec fn dot_term(a: Seq<int>, b: Seq<int>) -> spec_fn(int) -> int {
    |i: int| a[i] * b[i]
}

/// The dot product of two vectors of the same length, before reduction.
pub open spec fn dot(a: Seq<int>, b: Seq<int>) -> int {
    sum(a.len() as int, dot_term(a, b))
}

/// A matrix of `rows` rows and `cols` columns, stored row by row.
#[derive(Debug, Clone)]
pub struct Matrix {
    pub rows: usize,
    pub cols: usize,
    pub values: Vec<Vec<Fe>>,
}

impl Matrix {
    /// There are `rows` rows of `cols` entries each.
    pub open spec fn rectangular(&self) -> bool {
        &&& self.values@.len() == self.rows
        &&& forall|i: int|
            0 <= i < self.values@.len() ==> (#[trigger] self.values@[i])@.len() == self.cols
    }

    /// The matrix is rectangular and its entries are well formed.
    pub open spec fn wf(&self) -> bool {
        &&& self.rectangular()
        &&& forall|i: int| 0 <= i < self.values@.len() ==> all_wf((#[trigger] self.values@[i])@)
    }

    /// Tests `rectangular` at run time.
    pub fn is_rectangular(&self) -> (b: bool)
        ensures
            b == self.rectangular(),
    {
        if self.values.len() != self.rows {
            return false;
        }
        let mut i: usize = 0;
        while i < self.values.len()
            invariant
                i <= self.values@.len(),
                forall|k: int| 0 <= k < i ==> (#[trigger] self.values@[k])@.len() == self.cols,
            decreases self.values@.len() - i,
        {
            if self.values[i].len() != self.cols {
                return false;
            }
            i = i + 1;
        }
        true
    }

    /// Row `i` as integers.
    pub open spec fn row(&self, i: int) -> Seq<int> {
        fe_values(self.values@[i]@)
    }

    /// Column `j` as integers.
    pub open spec fn column(&self, j: int) -> Seq<int> {
        Seq::new(self.values@.len(), |i: int| self.values@[i]@[j]@)
    }

    /// A matrix of uniformly sampled elements.
    pub fn random(rows: usize, cols: usize) -> (r: Self)
        ensures
            r.wf(),
            r.rows == rows,
            r.cols == cols,
    {
        let mut values: Vec<Vec<Fe>> = Vec::new();
        let mut i: usize = 0;
        while i < rows
            invariant
                i <= rows,
                values@.len() == i,
                forall|k: int|
                    0 <= k < i ==> (#[trigger] values@[k])@.len() == cols && all_wf(values@[k]@),
            decreases rows - i,
        {
            let mut row: Vec<Fe> = Vec::new();
            let mut j: usize = 0;
            while j < cols
                invariant
                    j <= cols,
                    row@.len() == j,
                    all_wf(row@),
                decreases cols - j,
            {
                row.push(Fe::random());
                j = j + 1;
            }
            values.push(row);
            i = i + 1;
        }
        Self { cols, rows, values }
    }

    /// Column `column_index`, from the first row to the last.
    pub fn get_columns(&self, column_index: usize) -> (out: Vec<Fe>)
        requires
            self.wf(),
            self.cols > column_index,
        ensures
            out@.len() == self.rows,
            all_wf(out@),
            fe_values(out@) == self.column(column_index as int),
    {
        let mut out: Vec<Fe> = Vec::new();
        let mut i: usize = 0;
        while i < self.values.len()
            invariant
                i <= self.values@.len(),
                self.wf(),
                self.cols > column_index,
                out@.len() == i,
                all_wf(out@),
                forall|k: int| 0 <= k < i ==> out@[k] == self.values@[k]@[column_index as int],
            decreases self.values@.len() - i,
        {
            assert(self.values@[i as int]@.len() == self.cols);
            out.push(self.values[i][column_index]);
            i = i + 1;
        }
        assert(fe_values(out@) =~= self.column(column_index as int));
        out
    }

    /// The dot product of two vectors.
    pub fn vec_mul(a: &Vec<Fe>, b: &Vec<Fe>) -> (res: Fe)
        requires
            a@.len() == b@.len(),
            all_wf(a@),
            all_wf(b@),
        ensures
            res.wf(),
            res@ == dot(fe_values(a@), fe_values(b@)) % modulus(),
    {
        let ghost term = dot_term(fe_values(a@), fe_values(b@));
        let mut res = Fe::zero();
        let mut i: usize = 0;
        while i < a.len()
            invariant
                i <= a@.len(),
                a@.len() == b@.len(),
                all_wf(a@),
                all_wf(b@),
                term == dot_term(fe_values(a@), fe_values(b@)),
                res.wf(),
                res@ == sum(i as int, term) % modulus(),
            decreases a@.len() - i,
        {
            let producti = a[i].mul(&b[i]);
            let next = res.add(&producti);
            proof {
                lemma_add_mod(sum(i as int, term), term(i as int));
            }
            res = next;
            i = i + 1;
        }
        res
    }

    /// The product of the matrix with a column vector: entry `i` is the dot
    /// product of row `i` with the vector.
    pub fn matrix_mul_vec(&self, vector: &Vec<Fe>) -> (result: Vec<Fe>)
        requires
            self.wf(),
            self.cols == vector@.len(),
            all_wf(vector@),
        ensures
            result@.len() == self.rows,
            all_wf(result@),
            forall|i: int|
                0 <= i < self.rows ==> (#[trigger] result@[i])@ == dot(
                    self.row(i),
                    fe_values(vector@),
                ) % modulus(),
    {
        let mut result: Vec<Fe> = Vec::new();
        let mut i: usize = 0;
        while i < self.rows
            invariant
                i <= self.rows,
                self.wf(),
                self.cols == vector@.len(),
                all_wf(vector@),
                result@.len() == i,
                all_wf(result@),
                forall|k: int|
                    0 <= k < i ==> (#[trigger] result@[k])@ == dot(
                        self.row(k),
                        fe_values(vector@),
                    ) % modulus(),
            decreases self.rows - i,
        {
            assert(self.values@[i as int]@.len() == self.cols);
            let elem = Self::vec_mul(&self.values[i], vector);
            result.push(elem);
            i = i + 1;
        }
        result
    }

    /// The matrix product: entry `(i, j)` is the dot product of row `i` of
    /// `m_a` with column `j` of `m_b`.
    pub fn mul(m_a: &Matrix, m_b: &Matrix) -> (r: Self)
        requires
            m_a.wf(),
            m_b.wf(),
            m_a.cols > 0 || m_b.rows > 0,
            m_b.cols > 0 || m_b.rows > 0,
            m_a.cols == m_b.rows,
        ensures
            r.wf(),
            r.rows == m_a.rows,
            r.cols == m_b.cols,
            forall|i: int, j: int|
                0 <= i < r.rows && 0 <= j < r.cols ==> (#[trigger] r.values@[i]@[j])@ == dot(
                    m_a.row(i),
                    m_b.column(j),
                ) % modulus(),
    {
        let m = m_a.rows;
        let p = m_b.cols;
        let mut matrix: Vec<Vec<Fe>> = Vec::new();
        let mut i: usize = 0;
        while i < m
            invariant
                i <= m,
                m == m_a.rows,
                p == m_b.cols,
                m_a.wf(),
                m_b.wf(),
                m_a.cols == m_b.rows,
                matrix@.len() == i,
                forall|k: int|
                    0 <= k < i ==> (#[trigger] matrix@[k])@.len() == p && all_wf(matrix@[k]@),
                forall|k: int, j: int|
                    0 <= k < i && 0 <= j < p ==> (#[trigger] matrix@[k]@[j])@ == dot(
                        m_a.row(k),
                        m_b.column(j),
                    ) % modulus(),
            decreases m - i,
        {
            let mut new_row: Vec<Fe> = Vec::new();
            assert(m_a.values@[i as int]@.len() == m_a.cols);
            let mut j: usize = 0;
            while j < p
                invariant
                    j <= p,
                    i < m,
                    m == m_a.rows,
                    p == m_b.cols,
                    m_a.wf(),
                    m_b.wf(),
                    m_a.cols == m_b.rows,
                    m_a.values@[i as int]@.len() == m_a.cols,
                    new_row@.len() == j,
                    all_wf(new_row@),
                    forall|t: int|
                        0 <= t < j ==> (#[trigger] new_row@[t])@ == dot(
                            m_a.row(i as int),
                            m_b.column(t),
                        ) % modulus(),
                decreases p - j,
            {
                let col_j = m_b.get_columns(j);
                let elem_ij = Self::vec_mul(&m_a.values[i], &col_j);
                new_row.push(elem_ij);
                j = j + 1;
            }
            matrix.push(new_row);
            i = i + 1;
        }
        Self { rows: m, cols: p, values: matrix }
    }
}

} // verus!
