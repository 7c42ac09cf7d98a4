//! The surface of active events: a matrix of timestamps, one per pixel, that
//! tells when a change event most recently triggered at that pixel.

use vstd::prelude::*;
use crate::sae_types::SaeTime;

verus! {

/// A surface of active events, stored as a dense `nalgebra` matrix.
///
/// The matrix itself is out of the verifier's sight: contracts speak of it
/// through `sae_cells` and `sae_shape`, and only the four `grid_` functions
/// below touch it.
#[verifier::external_body]
pub struct SaeMatrix {
    grid: nalgebra::DMatrix<SaeTime>,
}

/// The timestamp held at each (row, column) of a surface.
pub uninterp spec fn sae_cells(m: SaeMatrix) -> Map<(int, int), SaeTime>;

/// The extent of a surface: its row count and its column count.
pub uninterp spec fn sae_shape(m: SaeMatrix) -> (usize, usize);

/// Whether (`row`, `col`) is a pixel of a surface with the given extent.
pub open spec fn on_surface(shape: (usize, usize), row: int, col: int) -> bool {
    0 <= row < shape.0 && 0 <= col < shape.1
}

/// Whether a surface with the given extent is small enough to allocate: its
/// timestamps take at most `isize::MAX` bytes.
pub open spec fn fits_in_memory(nrows: int, ncols: int) -> bool {
    nrows * ncols * 4 <= isize::MAX
}

impl SaeMatrix {
    /// Calls `nalgebra::DMatrix::zeros`, which panics when the element count
    /// overflows or the allocation exceeds `isize::MAX` bytes: the matrix has the
    /// extent asked for, and every cell holds 0.
    #[verifier::external_body]
    pub(crate) fn grid_zeros(nrows: usize, ncols: usize) -> (m: SaeMatrix)
        requires
            fits_in_memory(nrows as int, ncols as int),
        ensures
            sae_shape(m) == (nrows, ncols),
            forall|r: int, c: int|
                on_surface(sae_shape(m), r, c) ==> #[trigger] sae_cells(m)[(r, c)] == 0,
    {
        SaeMatrix { grid: nalgebra::DMatrix::zeros(nrows, ncols) }
    }

    /// Calls `nalgebra::Matrix::shape`: the result is the extent of the surface.
    #[verifier::external_body]
    pub(crate) fn grid_shape(&self) -> (shape: (usize, usize))
        ensures
            shape == sae_shape(*self),
    {
        self.grid.shape()
    }

    /// Calls the `Index<(usize, usize)>` of `nalgebra::Matrix`, which panics
    /// outside the extent: the result is the cell at that row and column.
    #[verifier::external_body]
    pub(crate) fn grid_at(&self, row: usize, col: usize) -> (t: SaeTime)
        requires
            on_surface(sae_shape(*self), row as int, col as int),
        ensures
            t == sae_cells(*self)[(row as int, col as int)],
    {
        self.grid[(row, col)]
    }

    /// Calls the `IndexMut<(usize, usize)>` of `nalgebra::Matrix`, which panics
    /// outside the extent: that one cell is overwritten, the extent stays.
    #[verifier::external_body]
    pub(crate) fn grid_put(&mut self, row: usize, col: usize, t: SaeTime)
        requires
            on_surface(sae_shape(*old(self)), row as int, col as int),
        ensures
            sae_shape(*final(self)) == sae_shape(*old(self)),
            sae_cells(*final(self)) == sae_cells(*old(self)).insert((row as int, col as int), t),
    {
        self.grid[(row, col)] = t;
    }

    /// A surface of the given extent on which no event has been recorded yet, or
    /// `None` where a surface of that extent cannot be allocated.
    pub fn zeros(nrows: usize, ncols: usize) -> (m: Option<SaeMatrix>)
        ensures
            m is Some <==> fits_in_memory(nrows as int, ncols as int),
            m matches Some(s) ==> {
                &&& sae_shape(s) == (nrows, ncols)
                &&& forall|r: int, c: int|
                    on_surface(sae_shape(s), r, c) ==> #[trigger] sae_cells(s)[(r, c)] == 0
            },
    {
        match nrows.checked_mul(ncols) {
            Some(len) => {
                if len <= (isize::MAX as usize) / 4 {
                    Some(SaeMatrix::grid_zeros(nrows, ncols))
                } else {
                    None
                }
            },
            None => {
                proof {
                    assert(nrows * ncols * 4 >= nrows * ncols) by (nonlinear_arith)
                        requires
                            nrows * ncols >= 0,
                    ;
                }
                None
            },
        }
    }

    /// The extent of the surface: (number of rows, number of columns).
    pub fn shape(&self) -> (shape: (usize, usize))
        ensures
            shape == sae_shape(*self),
    {
        self.grid_shape()
    }

    /// The timestamp at a pixel, or `None` off the surface.
    pub fn get(&self, row: usize, col: usize) -> (t: Option<SaeTime>)
        ensures
            t is Some <==> on_surface(sae_shape(*self), row as int, col as int),
            t matches Some(v) ==> v == sae_cells(*self)[(row as int, col as int)],
    {
        let (nrows, ncols) = self.grid_shape();
        if row < nrows && col < ncols {
            Some(self.grid_at(row, col))
        } else {
            None
        }
    }

    /// Records a timestamp at a pixel. Returns whether the pixel is on the
    /// surface; off it, nothing changes.
    pub fn set(&mut self, row: usize, col: usize, t: SaeTime) -> (done: bool)
        ensures
            done == on_surface(sae_shape(*old(self)), row as int, col as int),
            sae_shape(*final(self)) == sae_shape(*old(self)),
            done ==> sae_cells(*final(self)) == sae_cells(*old(self)).insert(
                (row as int, col as int),
                t,
            ),
            !done ==> sae_cells(*final(self)) == sae_cells(*old(self)),
    {
        let (nrows, ncols) = self.grid_shape();
        if row < nrows && col < ncols {
            self.grid_put(row, col, t);
            true
        } else {
            false
        }
    }
}

} // verus!
