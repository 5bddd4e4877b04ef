//! Data structures: two matrix containers and a simple graph.

pub mod graph;
pub mod matrix;

use vstd::prelude::*;

verus! {

/// Rectangular table of copyable elements, stored row-major in one flat
/// buffer. The buffer starts empty; `fill` appends one full table of
/// values, and `get`/`set` address whatever has been filled so far.
#[derive(Debug)]
pub struct Matrix<T> {
    pub m: Vec<T>,
    pub width: usize,
    pub height: usize,
}

impl<T: Copy> Matrix<T> {
    /// The element count fits the machine word.
    pub open spec fn wf(&self) -> bool {
        self.width * self.height <= usize::MAX
    }

    /// Creates an empty table of the given dimensions.
    pub fn new(height: usize, width: usize) -> (r: Matrix<T>)
        requires
            width * height <= usize::MAX,
        ensures
            r.height == height,
            r.width == width,
            r.m@.len() == 0,
            r.wf(),
    {
        Matrix { m: Vec::with_capacity(width * height), width, height }
    }

    /// The number of cells the dimensions describe.
    pub fn count(&self) -> (r: usize)
        requires
            self.wf(),
        ensures
            r == self.width * self.height,
    {
        self.width * self.height
    }

    /// The number of rows.
    pub fn row_count(&self) -> (r: usize)
        ensures
            r == self.height,
    {
        self.height
    }

    /// The number of columns.
    pub fn col_count(&self) -> (r: usize)
        ensures
            r == self.width,
    {
        self.width
    }

    /// Appends one full table of copies of `value` to the buffer.
    pub fn fill(&mut self, value: T)
        requires
            old(self).wf(),
            old(self).m@.len() + old(self).width * old(self).height <= usize::MAX,
        ensures
            final(self).width == old(self).width,
            final(self).height == old(self).height,
            final(self).m@ == old(self).m@ + Seq::new(
                (old(self).width * old(self).height) as nat,
                |i: int| value,
            ),
    {
        let n = self.count();
        let mut k: usize = 0;
        while k < n
            invariant
                k <= n,
                self.width == old(self).width,
                self.height == old(self).height,
                self.m@ =~= old(self).m@ + Seq::new(k as nat, |i: int| value),
            decreases n - k,
        {
            self.m.push(value);
            assert(self.m@ =~= old(self).m@ + Seq::new((k + 1) as nat, |i: int| value));
            k += 1;
        }
    }

    /// The value at `[row][col]`; the cell must lie inside the filled part
    /// of the buffer.
    pub fn get(&self, row: usize, col: usize) -> (r: T)
        requires
            self.wf(),
            row < self.height,
            col < self.width,
            row * self.width + col < self.m@.len(),
        ensures
            r == self.m@[row * self.width + col],
    {
        proof {
            lemma_cell_index_bounded(row as int, col as int, self.width as int, self.height as int);
        }
        self.m[row * self.width + col]
    }

    /// Replaces the value at `[row][col]`; the cell must lie inside the
    /// filled part of the buffer.
    pub fn set(&mut self, row: usize, col: usize, value: T)
        requires
            old(self).wf(),
            row < old(self).height,
            col < old(self).width,
            row * old(self).width + col < old(self).m@.len(),
        ensures
            final(self).width == old(self).width,
            final(self).height == old(self).height,
            final(self).m@ == old(self).m@.update(row * old(self).width + col, value),
    {
        proof {
            lemma_cell_index_bounded(row as int, col as int, self.width as int, self.height as int);
        }
        let idx = row * self.width + col;
        self.m.set(idx, value);
    }

    /// The flat buffer, row-major.
    pub fn as_vec(&self) -> (r: &Vec<T>)
        ensures
            r@ == self.m@,
    {
        &self.m
    }
}

/// A cell index computed from in-range coordinates stays below the element
/// count.
proof fn lemma_cell_index_bounded(row: int, col: int, width: int, height: int)
    requires
        0 <= row < height,
        0 <= col < width,
    ensures
        row * width + col < width * height,
{
    assert(row * width + col < width * height) by (nonlinear_arith)
        requires
            0 <= row < height,
            0 <= col < width,
    ;
}

} // verus!
