//! Rectangular table of elements (two-dimensional array) over one owned,
//! contiguous, row-major buffer.

use vstd::prelude::*;
use vstd::pervasive::cloned;
use vstd::std_specs::cmp::PartialEqSpec;
use vstd::pervasive::VecAdditionalExecFns;
use vstd::arithmetic::div_mod::{lemma_fundamental_div_mod, lemma_mod_bound};

verus! {

/// A sequence filled from one default value: every element is a clone of
/// what a single `T::default()` call returned.
pub open spec fn default_filled<T: Default + Clone>(s: Seq<T>) -> bool {
    exists|d: T|
        #[trigger] call_ensures(T::default, (), d) && (forall|i: int|
            0 <= i < s.len() ==> cloned(d, s[i]))
}

/// Rectangular table of elements (two-dimensional array).
#[derive(Clone, Debug)]
pub struct Matrix<T> where T: Default + Clone {
    cols: usize,
    buffer: Vec<T>,
}

impl<T> Matrix<T> where T: Default + Clone {
    /// The number of columns.
    pub closed spec fn spec_cols(&self) -> usize {
        self.cols
    }

    /// The flat buffer, row-major.
    pub closed spec fn spec_buffer(&self) -> Seq<T> {
        self.buffer@
    }

    /// The number of rows the buffer holds.
    pub open spec fn spec_rows(&self) -> int {
        self.spec_buffer().len() as int / self.spec_cols() as int
    }

    /// The buffer holds whole rows: with no columns there are no elements,
    /// and otherwise the length is a multiple of the column count. Every
    /// constructor establishes this and every method keeps it, so the
    /// element count is exactly rows times columns.
    pub open spec fn wf(&self) -> bool {
        &&& self.spec_cols() == 0 ==> self.spec_buffer().len() == 0
        &&& self.spec_cols() > 0 ==> self.spec_buffer().len() as int % (self.spec_cols() as int)
            == 0
    }

    /// Creates a new matrix and fills it with default values.
    ///
    /// `rows` - rows number.
    /// `cols` - columns number.
    pub fn new(rows: usize, cols: usize) -> (r: Self)
        requires
            rows * cols <= usize::MAX,
        ensures
            r.spec_cols() == cols,
            r.spec_buffer().len() == rows * cols,
            default_filled(r.spec_buffer()),
            r.wf(),
    {
        proof {
            if cols > 0 {
                vstd::arithmetic::div_mod::lemma_mod_multiples_basic(rows as int, cols as int);
            } else {
                assert(rows * cols == 0) by (nonlinear_arith)
                    requires
                        cols == 0,
                ;
            }
        }
        let d = T::default();
        let n = rows * cols;
        let mut buffer: Vec<T> = Vec::with_capacity(n);
        let mut k: usize = 0;
        while k < n
            invariant
                k <= n,
                buffer@.len() == k,
                call_ensures(T::default, (), d),
                forall|i: int| 0 <= i < k ==> cloned(d, buffer@[i]),
            decreases n - k,
        {
            buffer.push(d.clone());
            k += 1;
        }
        Matrix { cols, buffer }
    }

    /// Fills the matrix with default values.
    pub fn clear(&mut self)
        ensures
            final(self).spec_cols() == old(self).spec_cols(),
            final(self).spec_buffer().len() == old(self).spec_buffer().len(),
            final(self).wf() == old(self).wf(),
            default_filled(final(self).spec_buffer()),
    {
        let d = T::default();
        Self::fill_with(&mut self.buffer, d);
    }

    /// Fills the matrix with clones of `value`.
    pub fn fill(&mut self, value: T)
        ensures
            final(self).spec_cols() == old(self).spec_cols(),
            final(self).spec_buffer().len() == old(self).spec_buffer().len(),
            final(self).wf() == old(self).wf(),
            forall|i: int|
                0 <= i < final(self).spec_buffer().len() ==> cloned(
                    value,
                    final(self).spec_buffer()[i],
                ),
    {
        Self::fill_with(&mut self.buffer, value);
    }

    /// Overwrites every buffer element with a clone of `value`.
    fn fill_with(buf: &mut Vec<T>, value: T)
        ensures
            final(buf)@.len() == old(buf)@.len(),
            forall|i: int| 0 <= i < final(buf)@.len() ==> cloned(value, final(buf)@[i]),
    {
        let n = buf.len();
        let mut k: usize = 0;
        while k < n
            invariant
                k <= n,
                buf@.len() == n,
                forall|i: int| 0 <= i < k ==> cloned(value, buf@[i]),
            decreases n - k,
        {
            buf.set(k, value.clone());
            k += 1;
        }
    }

    /// Returns rows number; on a well-formed matrix the buffer holds
    /// exactly this many whole rows.
    pub fn rows(&self) -> (r: usize)
        requires
            self.spec_cols() > 0,
        ensures
            r == self.spec_rows(),
            self.wf() ==> r * self.spec_cols() == self.spec_buffer().len(),
    {
        proof {
            if self.wf() {
                vstd::arithmetic::div_mod::lemma_fundamental_div_mod(
                    self.spec_buffer().len() as int,
                    self.spec_cols() as int,
                );
                assert(self.spec_rows() * (self.spec_cols() as int) == (self.spec_cols() as int)
                    * self.spec_rows()) by (nonlinear_arith);
            }
        }
        self.buffer.len() / self.cols
    }

    /// Returns columns number.
    pub fn cols(&self) -> (r: usize)
        ensures
            r == self.spec_cols(),
    {
        self.cols
    }

    /// Returns number of elements in matrix.
    pub fn elements_number(&self) -> (r: usize)
        ensures
            r == self.spec_buffer().len(),
    {
        self.buffer.len()
    }

    /// Returns the n-th element of the table in line traversal order.
    pub fn nth(&self, index: usize) -> (r: &T)
        requires
            index < self.spec_buffer().len(),
        ensures
            *r == self.spec_buffer()[index as int],
    {
        &self.buffer[index]
    }

    /// The buffer position of the cell at `[row][col]`.
    pub fn linear_index(&self, row: usize, col: usize) -> (r: usize)
        requires
            self.spec_cols() > 0,
            row < self.spec_rows(),
            col < self.spec_cols(),
        ensures
            r == row * self.spec_cols() + col,
            r < self.spec_buffer().len(),
    {
        let n = self.buffer.len();
        proof {
            lemma_row_major_bound(
                row as int,
                col as int,
                self.spec_cols() as int,
                self.spec_buffer().len() as int,
            );
            assert(row * self.spec_cols() + col < n);
        }
        row * self.cols + col
    }

    /// Returns the value at `[row][col]` position.
    pub fn get(&self, row: usize, col: usize) -> (r: &T)
        requires
            self.spec_cols() > 0,
            row < self.spec_rows(),
            col < self.spec_cols(),
        ensures
            *r == self.spec_buffer()[row * self.spec_cols() + col],
    {
        let idx = self.linear_index(row, col);
        &self.buffer[idx]
    }

    /// Sets the `value` of the element at `[row][col]` position.
    pub fn set(&mut self, row: usize, col: usize, value: T)
        requires
            old(self).spec_cols() > 0,
            row < old(self).spec_rows(),
            col < old(self).spec_cols(),
        ensures
            final(self).spec_cols() == old(self).spec_cols(),
            final(self).wf() == old(self).wf(),
            final(self).spec_buffer() == old(self).spec_buffer().update(
                row * old(self).spec_cols() + col,
                value,
            ),
    {
        let idx = self.linear_index(row, col);
        self.buffer.set(idx, value);
    }

    /// The elements in line traversal order.
    pub fn iter(&self) -> (r: &[T])
        ensures
            r@ == self.spec_buffer(),
    {
        self.buffer.as_slice()
    }

    /// Whether the two matrices have the same dimensions.
    pub fn is_same_size(&self, other: &Self) -> (r: bool)
        ensures
            r == (self.spec_cols() == other.spec_cols() && self.spec_buffer().len()
                == other.spec_buffer().len()),
    {
        self.cols == other.cols && self.buffer.len() == other.buffer.len()
    }
}

impl<T> PartialEq for Matrix<T> where T: Default + Clone + PartialEq {
    /// Two matrices are equal when their column counts agree and their
    /// buffers agree element by element.
    fn eq(&self, other: &Self) -> (r: bool) {
        if self.cols != other.cols {
            return false;
        }
        if self.buffer.len() != other.buffer.len() {
            return false;
        }
        let mut k: usize = 0;
        while k < self.buffer.len()
            invariant
                k <= self.buffer@.len(),
                self.buffer@.len() == other.buffer@.len(),
                self.spec_cols() == other.spec_cols(),
                T::obeys_eq_spec() ==> forall|i: int|
                    0 <= i < k ==> #[trigger] self.buffer@[i].eq_spec(&other.buffer@[i]),
            decreases self.buffer@.len() - k,
        {
            if !self.buffer[k].eq(&other.buffer[k]) {
                proof {
                    if T::obeys_eq_spec() {
                        assert(!self.buffer@[k as int].eq_spec(&other.buffer@[k as int]));
                    }
                }
                return false;
            }
            k += 1;
        }
        true
    }
}

impl<T> vstd::std_specs::cmp::PartialEqSpecImpl for Matrix<T> where T: Default + Clone + PartialEq {
    open spec fn obeys_eq_spec() -> bool {
        T::obeys_eq_spec()
    }

    open spec fn eq_spec(&self, other: &Self) -> bool {
        &&& self.spec_cols() == other.spec_cols()
        &&& self.spec_buffer().len() == other.spec_buffer().len()
        &&& forall|i: int|
            0 <= i < self.spec_buffer().len() ==> #[trigger] self.spec_buffer()[i].eq_spec(
                &other.spec_buffer()[i],
            )
    }
}

/// A row-major cell index stays inside the buffer: with `cols` columns and
/// a row below `len / cols`, the cell `[row][col]` lies below `len`.
proof fn lemma_row_major_bound(row: int, col: int, cols: int, len: int)
    requires
        cols > 0,
        0 <= len,
        0 <= col < cols,
        0 <= row < len / cols,
    ensures
        row * cols + col < len,
{
    lemma_fundamental_div_mod(len, cols);
    lemma_mod_bound(len, cols);
    let q = len / cols;
    assert(row * cols + col < q * cols) by (nonlinear_arith)
        requires
            cols > 0,
            0 <= col < cols,
            0 <= row,
            row <= q - 1,
    ;
    assert(q * cols == cols * q) by (nonlinear_arith);
    assert(len == cols * q + len % cols);
}

} // verus!
