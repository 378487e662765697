//! A two-dimensional array of bytes, kept in an `ndarray::Array2`.
use vstd::prelude::*;

verus! {

/// A `width x height` array of bytes, indexed by `(column, row)`.
#[verifier::external_body]
pub struct Raster {
    cells: ndarray::Array2<u8>,
}

/// The bytes that a raster holds, keyed by `(column, row)`.
pub uninterp spec fn raster_cells(r: Raster) -> Map<(int, int), u8>;

/// The `(width, height)` that a raster was made with.
pub uninterp spec fn raster_shape(r: Raster) -> (nat, nat);

impl Raster {
    pub open spec fn width(self) -> nat {
        raster_shape(self).0
    }

    pub open spec fn height(self) -> nat {
        raster_shape(self).1
    }

    /// The byte at `(x, y)`.
    pub open spec fn at(self, x: int, y: int) -> u8 {
        raster_cells(self)[(x, y)]
    }

    /// Every position inside the shape holds a byte.
    pub open spec fn covers(self) -> bool {
        forall|x: int, y: int|
            0 <= x < self.width() && 0 <= y < self.height() ==> #[trigger] raster_cells(
                self,
            ).contains_key((x, y))
    }
}

/// Relies on `ndarray::Array2::from_elem`: an array of the given shape, every
/// element a copy of `value`. It panics when the product of the non-zero axis
/// lengths overflows `isize`.
#[verifier::external_body]
pub fn raster_filled(width: usize, height: usize, value: u8) -> (r: Raster)
    requires
        width <= isize::MAX,
        height <= isize::MAX,
        width * height <= isize::MAX,
    ensures
        raster_shape(r) == (width as nat, height as nat),
        forall|x: int, y: int|
            0 <= x < width && 0 <= y < height ==> #[trigger] raster_cells(r).contains_key((x, y)),
        forall|x: int, y: int|
            0 <= x < width && 0 <= y < height ==> #[trigger] raster_cells(r)[(x, y)] == value,
{
    Raster { cells: ndarray::Array2::from_elem((width, height), value) }
}

/// Relies on indexing an `ndarray::Array2` by `[x, y]`: the element stored
/// there. It panics outside the shape.
#[verifier::external_body]
pub fn raster_get(r: &Raster, x: usize, y: usize) -> (v: u8)
    requires
        x < r.width(),
        y < r.height(),
    ensures
        v == r.at(x as int, y as int),
{
    r.cells[[x, y]]
}

/// Relies on mutable indexing of an `ndarray::Array2` by `[x, y]`: that
/// element alone is replaced. It panics outside the shape.
#[verifier::external_body]
pub fn raster_set(r: &mut Raster, x: usize, y: usize, v: u8)
    requires
        x < old(r).width(),
        y < old(r).height(),
    ensures
        raster_shape(*final(r)) == raster_shape(*old(r)),
        raster_cells(*final(r)) == raster_cells(*old(r)).insert((x as int, y as int), v),
{
    r.cells[[x, y]] = v;
}

} // verus!
