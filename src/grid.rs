//! The planisphere: a raster of `width x height` pixels over the sphere, each
//! pixel cut into subpixels whose count along longitude shrinks toward the
//! poles, with the conversions between geographic coordinates and addresses.
use vstd::prelude::*;

use crate::raster::{raster_filled, raster_get, raster_set, raster_shape, Raster};

verus! {

/// Fixed-point units in one degree: coordinates are held in micro-degrees.
pub const UNITS_PER_DEGREE: i64 = 1_000_000;

/// The longitude span of the map, in micro-degrees.
pub const LON_SPAN: i64 = 360_000_000;

/// The latitude span of the map, in micro-degrees.
pub const LAT_SPAN: i64 = 180_000_000;

/// Elevation bytes below this mark sea (30% of the full 0..=255 range).
pub const SEA_LEVEL: u8 = 77;

/// A geographic point in micro-degrees.
#[derive(Clone, Copy, Debug, PartialEq, Eq, Structural)]
pub struct GeoCoordinate {
    pub longitude: i64,
    pub latitude: i64,
}

impl GeoCoordinate {
    /// Longitude in `[-180, 180)` and latitude in `[-90, 90]` degrees.
    pub open spec fn is_valid(self) -> bool {
        -LON_SPAN / 2 <= self.longitude < LON_SPAN / 2 && -LAT_SPAN / 2 <= self.latitude
            <= LAT_SPAN / 2
    }
}

/// A subpixel address: pixel `(i, j)` and the composite subpixel index
/// `k = sub_i * S + sub_j`.
#[derive(Clone, Copy, Debug, PartialEq, Eq, Hash, Structural)]
pub struct GridAddress {
    pub i: usize,
    pub j: usize,
    pub k: usize,
}

impl GridAddress {
    pub fn new(i: usize, j: usize, k: usize) -> (r: GridAddress)
        ensures
            r == (GridAddress { i, j, k }),
    {
        GridAddress { i, j, k }
    }
}

/// Why a planisphere could not be built.
#[derive(Clone, Copy, Debug, PartialEq, Eq, Structural)]
pub enum GridError {
    /// A width, height or division count that is zero or too large
    /// (a height must be at least 2 so that the poles can mirror).
    InvalidDimensions,
    /// A subdivision table of the wrong length, with an entry outside
    /// `1..=S`, or not shrinking from the equator toward the poles.
    InvalidSubdivisions,
    /// Pixel data whose length does not match the dimensions.
    InvalidPixelData,
}

/// The distance of row `j` from the equator, in half-rows:
/// `|2 j - H|`, proportional to the absolute latitude of the row's lower edge.
pub open spec fn row_rank(j: int, height: int) -> int {
    if 2 * j >= height {
        2 * j - height
    } else {
        height - 2 * j
    }
}

/// Every entry lies in `1..=divisions`.
pub open spec fn subdivisions_in_range(rows: Seq<usize>, divisions: int) -> bool {
    forall|j: int| 0 <= j < rows.len() ==> 1 <= #[trigger] rows[j] <= divisions
}

/// Rows nearer the equator never have fewer subdivisions than rows nearer a pole.
pub open spec fn subdivisions_monotone(rows: Seq<usize>) -> bool {
    forall|j1: int, j2: int|
        0 <= j1 < rows.len() && 0 <= j2 < rows.len() && row_rank(j1, rows.len() as int)
            <= row_rank(j2, rows.len() as int) ==> #[trigger] rows[j1] >= #[trigger] rows[j2]
}

/// The local form of the monotonicity that a single pass can test: each row
/// has at least as many subdivisions as its poleward neighbour, and row `j`
/// as many as its mirror row `H - j`.
pub open spec fn subdivisions_locally_monotone(rows: Seq<usize>) -> bool {
    let h = rows.len() as int;
    &&& forall|j: int| 0 <= j && j + 1 < h && 2 * j >= h ==> #[trigger] rows[j] >= rows[j + 1]
    &&& forall|j: int| 0 <= j && j + 1 < h && 2 * j + 2 <= h ==> #[trigger] rows[j] <= rows[j + 1]
    &&& forall|j: int| 0 < j < h ==> #[trigger] rows[j] == rows[h - j]
}


/// Rows on the poleward side of the equator keep shrinking.
proof fn lemma_north_chain(rows: Seq<usize>, a: int, b: int)
    requires
        subdivisions_locally_monotone(rows),
        2 * a >= rows.len(),
        a <= b < rows.len(),
    ensures
        rows[a] >= rows[b],
    decreases b - a,
{
    if a < b {
        lemma_north_chain(rows, a, b - 1);
        assert(rows[b - 1] >= rows[b]);
    }
}

/// The local checks imply the monotonicity over every pair of rows.
pub proof fn lemma_locally_monotone_implies_monotone(rows: Seq<usize>)
    requires
        rows.len() >= 2,
        subdivisions_locally_monotone(rows),
    ensures
        subdivisions_monotone(rows),
{
    let h = rows.len() as int;
    assert forall|j1: int, j2: int|
        0 <= j1 < h && 0 <= j2 < h && row_rank(j1, h) <= row_rank(j2, h) implies #[trigger] rows[j1]
        >= #[trigger] rows[j2] by {
        let n1 = if 2 * j1 >= h { j1 } else { h - j1 };
        let n2 = if 2 * j2 >= h { j2 } else { h - j2 };
        if j1 == 0 {
            if j2 != 0 {
                assert(false);
            }
        } else if j2 == 0 {
            assert(rows[0] <= rows[1]);
            assert(rows[1] == rows[h - 1]);
            assert(rows[j1] == rows[n1]);
            lemma_north_chain(rows, n1, h - 1);
        } else {
            assert(rows[j1] == rows[n1]);
            assert(rows[j2] == rows[n2]);
            lemma_north_chain(rows, n1, n2);
        }
    }
}

/// Tests a subdivision table: every entry in `1..=divisions`, and the local
/// monotonicity.
pub fn subdivisions_valid(rows: &Vec<usize>, divisions: usize) -> (r: bool)
    ensures
        r == (subdivisions_in_range(rows@, divisions as int) && subdivisions_locally_monotone(
            rows@,
        )),
{
    let h = rows.len();
    let mut j: usize = 0;
    while j < h
        invariant
            h == rows@.len(),
            j <= h,
            forall|q: int| 0 <= q < j ==> 1 <= #[trigger] rows@[q] <= divisions,
            forall|q: int|
                0 <= q && q + 1 < h && q < j && 2 * q >= h ==> #[trigger] rows@[q] >= rows@[q + 1],
            forall|q: int|
                0 <= q && q + 1 < h && q < j && 2 * q + 2 <= h ==> #[trigger] rows@[q] <= rows@[q
                    + 1],
            forall|q: int| 0 < q < h && q < j ==> #[trigger] rows@[q] == rows@[h - q],
        decreases h - j,
    {
        let v = rows[j];
        if v < 1 || v > divisions {
            return false;
        }
        if j + 1 < h {
            if j >= h - j && v < rows[j + 1] {
                return false;
            }
            if j + 1 <= h - j - 1 && v > rows[j + 1] {
                return false;
            }
        }
        if j > 0 && v != rows[h - j] {
            return false;
        }
        j = j + 1;
    }
    true
}


/// The planisphere: raster data plus the addressing scheme.
///
/// `lon_subdivisions[j]` is the number of subpixel columns in each pixel of
/// row `j`; it shrinks from `subpixel_divisions` at the equator toward 1 at the
/// poles. Rasters are indexed by `(i, j)` with row 0 at the south pole.
pub struct Planisphere {
    pub width_pixels: usize,
    pub height_pixels: usize,
    pub subpixel_divisions: usize,
    pub lon_subdivisions: Vec<usize>,
    pub elevation: Raster,
    pub red: Raster,
    pub green: Raster,
    pub blue: Raster,
    pub alpha: Raster,
}

/// The dimensions that a planisphere accepts. Every subpixel must be at least
/// one micro-degree wide and tall, so that its corners are distinct points of
/// the coordinate type; a subpixel index `k < S * S` and the pixel count must
/// fit the machine's integers; a height of 2 or more lets the poles mirror.
pub open spec fn dimensions_ok(width: int, height: int, divisions: int) -> bool {
    &&& 1 <= width
    &&& 2 <= height
    &&& 1 <= divisions
    &&& width * divisions <= LON_SPAN
    &&& height * divisions <= LAT_SPAN
    &&& divisions * divisions <= usize::MAX
    &&& width * height <= isize::MAX
}

/// What the dimensions of a planisphere bound.
pub proof fn lemma_dimension_bounds(width: int, height: int, divisions: int, l: int)
    requires
        dimensions_ok(width, height, divisions),
        1 <= l <= divisions,
    ensures
        width <= LON_SPAN,
        height <= LAT_SPAN,
        divisions <= LAT_SPAN,
        1 <= width * l <= LON_SPAN,
        1 <= height * divisions <= LAT_SPAN,
        l * divisions <= divisions * divisions,
        l * divisions <= usize::MAX,
{
    assert(width <= width * divisions) by (nonlinear_arith)
        requires
            1 <= divisions,
            1 <= width,
    ;
    assert(height <= height * divisions && divisions <= height * divisions) by (nonlinear_arith)
        requires
            1 <= divisions,
            1 <= height,
    ;
    assert(1 <= width * l <= width * divisions) by (nonlinear_arith)
        requires
            1 <= l <= divisions,
            1 <= width,
    ;
    assert(1 <= height * divisions) by (nonlinear_arith)
        requires
            1 <= divisions,
            1 <= height,
    ;
    assert(l * divisions <= divisions * divisions) by (nonlinear_arith)
        requires
            1 <= l <= divisions,
    ;
}

/// A subdivision table that a planisphere of height `height` accepts.
pub open spec fn subdivision_table_ok(rows: Seq<usize>, height: int, divisions: int) -> bool {
    &&& rows.len() == height
    &&& subdivisions_in_range(rows, divisions)
    &&& subdivisions_locally_monotone(rows)
}

/// A raster of the planisphere's shape with a byte at every position.
pub open spec fn raster_fits(r: Raster, width: int, height: int) -> bool {
    raster_shape(r) == (width as nat, height as nat) && r.covers()
}

impl Planisphere {
    pub open spec fn wf(self) -> bool {
        &&& dimensions_ok(
            self.width_pixels as int,
            self.height_pixels as int,
            self.subpixel_divisions as int,
        )
        &&& self.lon_subdivisions@.len() == self.height_pixels
        &&& subdivisions_in_range(self.lon_subdivisions@, self.subpixel_divisions as int)
        &&& subdivisions_locally_monotone(self.lon_subdivisions@)
        &&& raster_fits(self.elevation, self.width_pixels as int, self.height_pixels as int)
        &&& raster_fits(self.red, self.width_pixels as int, self.height_pixels as int)
        &&& raster_fits(self.green, self.width_pixels as int, self.height_pixels as int)
        &&& raster_fits(self.blue, self.width_pixels as int, self.height_pixels as int)
        &&& raster_fits(self.alpha, self.width_pixels as int, self.height_pixels as int)
    }

    /// Subpixel columns in each pixel of row `j`.
    pub open spec fn lon_subdivs(self, j: int) -> int {
        self.lon_subdivisions@[j] as int
    }

    /// `a` names a subpixel that exists: a pixel inside the map and
    /// `sub_i < lon_subdivs(j)` (so `k < lon_subdivs(j) * S`).
    pub open spec fn valid_address(self, a: GridAddress) -> bool {
        &&& a.i < self.width_pixels
        &&& a.j < self.height_pixels
        &&& a.k < self.lon_subdivs(a.j as int) * self.subpixel_divisions
    }

    /// A planisphere of the given dimensions with every elevation and color
    /// channel zero and alpha at full (255).
    ///
    /// `lon_subdivisions` gives the subpixel columns of each row; it must have
    /// one entry per row, each in `1..=subpixel_divisions`, shrinking from the
    /// equator toward the poles.
    pub fn new(
        width_pixels: usize,
        height_pixels: usize,
        subpixel_divisions: usize,
        lon_subdivisions: Vec<usize>,
    ) -> (r: Result<Planisphere, GridError>)
        ensures
            !dimensions_ok(width_pixels as int, height_pixels as int, subpixel_divisions as int)
                ==> r == Err::<Planisphere, GridError>(GridError::InvalidDimensions),
            dimensions_ok(width_pixels as int, height_pixels as int, subpixel_divisions as int)
                && !subdivision_table_ok(lon_subdivisions@, height_pixels as int, subpixel_divisions as int)
                ==> r == Err::<Planisphere, GridError>(GridError::InvalidSubdivisions),
            dimensions_ok(width_pixels as int, height_pixels as int, subpixel_divisions as int)
                && subdivision_table_ok(lon_subdivisions@, height_pixels as int, subpixel_divisions as int)
                ==> r is Ok,
            r matches Ok(p) ==> {
                &&& p.wf()
                &&& p.width_pixels == width_pixels
                &&& p.height_pixels == height_pixels
                &&& p.subpixel_divisions == subpixel_divisions
                &&& p.lon_subdivisions@ == lon_subdivisions@
                &&& forall|x: int, y: int|
                    0 <= x < width_pixels && 0 <= y < height_pixels ==> #[trigger] p.elevation.at(
                        x,
                        y,
                    ) == 0
                &&& forall|x: int, y: int|
                    0 <= x < width_pixels && 0 <= y < height_pixels ==> #[trigger] p.red.at(x, y)
                        == 0
                &&& forall|x: int, y: int|
                    0 <= x < width_pixels && 0 <= y < height_pixels ==> #[trigger] p.green.at(x, y)
                        == 0
                &&& forall|x: int, y: int|
                    0 <= x < width_pixels && 0 <= y < height_pixels ==> #[trigger] p.blue.at(x, y)
                        == 0
                &&& forall|x: int, y: int|
                    0 <= x < width_pixels && 0 <= y < height_pixels ==> #[trigger] p.alpha.at(x, y)
                        == 255
            },
    {
        if width_pixels < 1 || height_pixels < 2 || subpixel_divisions < 1 {
            return Err(GridError::InvalidDimensions);
        }
        match width_pixels.checked_mul(subpixel_divisions) {
            None => {
                return Err(GridError::InvalidDimensions);
            },
            Some(n) => {
                if n > LON_SPAN as usize {
                    return Err(GridError::InvalidDimensions);
                }
            },
        }
        match height_pixels.checked_mul(subpixel_divisions) {
            None => {
                return Err(GridError::InvalidDimensions);
            },
            Some(n) => {
                if n > LAT_SPAN as usize {
                    return Err(GridError::InvalidDimensions);
                }
            },
        }
        if subpixel_divisions.checked_mul(subpixel_divisions).is_none() {
            return Err(GridError::InvalidDimensions);
        }
        match width_pixels.checked_mul(height_pixels) {
            None => {
                return Err(GridError::InvalidDimensions);
            },
            Some(n) => {
                if n > isize::MAX as usize {
                    return Err(GridError::InvalidDimensions);
                }
            },
        }
        if lon_subdivisions.len() != height_pixels || !subdivisions_valid(
            &lon_subdivisions,
            subpixel_divisions,
        ) {
            return Err(GridError::InvalidSubdivisions);
        }
        let elevation = blank_raster(width_pixels, height_pixels, 0);
        let red = blank_raster(width_pixels, height_pixels, 0);
        let green = blank_raster(width_pixels, height_pixels, 0);
        let blue = blank_raster(width_pixels, height_pixels, 0);
        let alpha = blank_raster(width_pixels, height_pixels, 255);
        let p = Planisphere {
            width_pixels,
            height_pixels,
            subpixel_divisions,
            lon_subdivisions,
            elevation,
            red,
            green,
            blue,
            alpha,
        };
        Ok(p)
    }
}

/// A raster of the given shape holding `value` everywhere.
fn blank_raster(width: usize, height: usize, value: u8) -> (r: Raster)
    requires
        1 <= width,
        1 <= height,
        width * height <= isize::MAX,
    ensures
        raster_fits(r, width as int, height as int),
        forall|x: int, y: int| 0 <= x < width && 0 <= y < height ==> #[trigger] r.at(x, y) == value,
{
    assert(width <= width * height && height <= width * height) by (nonlinear_arith)
        requires
            1 <= width,
            1 <= height,
    ;
    raster_filled(width, height, value)
}

/// Index of pixel `(x, y)` in an image stored top row first: the map's row `y`
/// (counted from the south) is the image's row `height - 1 - y`.
pub open spec fn image_index(x: int, y: int, width: int, height: int) -> int {
    (height - 1 - y) * width + x
}

proof fn lemma_image_index_bounds(x: int, y: int, width: int, height: int, stride: int, offset: int)
    requires
        0 <= x < width,
        0 <= y < height,
        0 <= offset < stride,
    ensures
        0 <= image_index(x, y, width, height) < width * height,
        0 <= stride * image_index(x, y, width, height) + offset < stride * (width * height),
{
    let idx = image_index(x, y, width, height);
    let r = height - 1 - y;
    assert(0 <= r * width) by (nonlinear_arith)
        requires
            0 <= r,
            0 <= width,
    ;
    assert(r * width + x < width * height) by (nonlinear_arith)
        requires
            0 <= r < height,
            0 <= x < width,
    ;
    assert(stride * idx + offset < stride * (width * height)) by (nonlinear_arith)
        requires
            0 <= idx < width * height,
            0 <= offset < stride,
    ;
    assert(0 <= stride * idx) by (nonlinear_arith)
        requires
            0 <= idx,
            0 <= stride,
    ;
}

/// Copies one channel of an image stored top row first, `stride` bytes per
/// pixel, into `r`, flipping rows so that row 0 is the south.
fn fill_channel(
    r: &mut Raster,
    data: &Vec<u8>,
    width: usize,
    height: usize,
    stride: usize,
    offset: usize,
)
    requires
        raster_fits(*old(r), width as int, height as int),
        offset < stride <= 4,
        data@.len() == stride * (width * height),
    ensures
        raster_fits(*final(r), width as int, height as int),
        forall|x: int, y: int|
            0 <= x < width && 0 <= y < height ==> #[trigger] final(r).at(x, y) == data@[stride
                * image_index(x, y, width as int, height as int) + offset],
{
    let total = data.len();
    proof {
        assert(width * height <= stride * (width * height)) by (nonlinear_arith)
            requires
                1 <= stride,
                0 <= width * height,
        ;
    }
    let mut y: usize = 0;
    while y < height
        invariant
            total == data@.len(),
            width * height <= total,
            raster_fits(*r, width as int, height as int),
            offset < stride <= 4,
            data@.len() == stride * (width * height),
            y <= height,
            forall|x1: int, y1: int|
                0 <= x1 < width && 0 <= y1 < y ==> #[trigger] r.at(x1, y1) == data@[stride
                    * image_index(x1, y1, width as int, height as int) + offset],
        decreases height - y,
    {
        let mut x: usize = 0;
        while x < width
            invariant
                total == data@.len(),
                width * height <= total,
                raster_fits(*r, width as int, height as int),
                offset < stride <= 4,
                data@.len() == stride * (width * height),
                y < height,
                x <= width,
                forall|x1: int, y1: int|
                    0 <= x1 < width && 0 <= y1 < y ==> #[trigger] r.at(x1, y1) == data@[stride
                        * image_index(x1, y1, width as int, height as int) + offset],
                forall|x1: int| 0 <= x1 < x ==> #[trigger] r.at(x1, y as int) == data@[stride
                    * image_index(x1, y as int, width as int, height as int) + offset],
            decreases width - x,
        {
            proof {
                lemma_image_index_bounds(
                    x as int,
                    y as int,
                    width as int,
                    height as int,
                    stride as int,
                    offset as int,
                );
            }
            let idx = (height - 1 - y) * width + x;
            assert(idx == image_index(x as int, y as int, width as int, height as int));
            let v = data[stride * idx + offset];
            let ghost before = *r;
            raster_set(r, x, y, v);
            assert forall|x1: int, y1: int|
                0 <= x1 < width && 0 <= y1 < y implies #[trigger] r.at(x1, y1) == before.at(
                x1,
                y1,
            ) by {
                assert((x1, y1) != (x as int, y as int));
            }
            assert forall|x1: int| 0 <= x1 < x implies #[trigger] r.at(x1, y as int) == before.at(
                x1,
                y as int,
            ) by {
                assert((x1, y as int) != (x as int, y as int));
            }
            x = x + 1;
        }
        y = y + 1;
    }
}

impl Planisphere {
    /// The raster data equal the image: `luma` one byte per pixel and `rgba`
    /// four, both stored top row first.
    pub open spec fn holds_image(self, luma: Seq<u8>, rgba: Seq<u8>) -> bool {
        let w = self.width_pixels as int;
        let h = self.height_pixels as int;
        &&& forall|x: int, y: int|
            0 <= x < w && 0 <= y < h ==> #[trigger] self.elevation.at(x, y) == luma[image_index(
                x,
                y,
                w,
                h,
            )]
        &&& forall|x: int, y: int|
            0 <= x < w && 0 <= y < h ==> #[trigger] self.red.at(x, y) == rgba[4 * image_index(
                x,
                y,
                w,
                h,
            )]
        &&& forall|x: int, y: int|
            0 <= x < w && 0 <= y < h ==> #[trigger] self.green.at(x, y) == rgba[4 * image_index(
                x,
                y,
                w,
                h,
            ) + 1]
        &&& forall|x: int, y: int|
            0 <= x < w && 0 <= y < h ==> #[trigger] self.blue.at(x, y) == rgba[4 * image_index(
                x,
                y,
                w,
                h,
            ) + 2]
        &&& forall|x: int, y: int|
            0 <= x < w && 0 <= y < h ==> #[trigger] self.alpha.at(x, y) == rgba[4 * image_index(
                x,
                y,
                w,
                h,
            ) + 3]
    }

    /// Builds a planisphere from a decoded image: `luma` holds one gray byte
    /// per pixel (the elevation), `rgba` four bytes per pixel (the color), both
    /// with the image's top row first. The map's row 0 is the image's bottom row.
    pub fn from_elevation_map(
        width_pixels: usize,
        height_pixels: usize,
        subpixel_divisions: usize,
        lon_subdivisions: Vec<usize>,
        luma: &Vec<u8>,
        rgba: &Vec<u8>,
    ) -> (r: Result<Planisphere, GridError>)
        ensures
            !dimensions_ok(width_pixels as int, height_pixels as int, subpixel_divisions as int)
                ==> r == Err::<Planisphere, GridError>(GridError::InvalidDimensions),
            dimensions_ok(width_pixels as int, height_pixels as int, subpixel_divisions as int)
                && !subdivision_table_ok(lon_subdivisions@, height_pixels as int, subpixel_divisions as int)
                ==> r == Err::<Planisphere, GridError>(GridError::InvalidSubdivisions),
            dimensions_ok(width_pixels as int, height_pixels as int, subpixel_divisions as int)
                && subdivision_table_ok(lon_subdivisions@, height_pixels as int, subpixel_divisions as int)
                && !(luma@.len() == width_pixels * height_pixels && rgba@.len() == 4 * (width_pixels
                * height_pixels)) ==> r == Err::<Planisphere, GridError>(GridError::InvalidPixelData),
            dimensions_ok(width_pixels as int, height_pixels as int, subpixel_divisions as int)
                && subdivision_table_ok(lon_subdivisions@, height_pixels as int, subpixel_divisions as int)
                && luma@.len() == width_pixels * height_pixels && rgba@.len() == 4 * (width_pixels
                * height_pixels) ==> r is Ok,
            r matches Ok(p) ==> {
                &&& p.wf()
                &&& p.width_pixels == width_pixels
                &&& p.height_pixels == height_pixels
                &&& p.subpixel_divisions == subpixel_divisions
                &&& p.lon_subdivisions@ == lon_subdivisions@
                &&& p.holds_image(luma@, rgba@)
            },
    {
        let mut p = match Planisphere::new(
            width_pixels,
            height_pixels,
            subpixel_divisions,
            lon_subdivisions,
        ) {
            Ok(p) => p,
            Err(e) => {
                return Err(e);
            },
        };
        let n = width_pixels * height_pixels;
        if luma.len() != n || rgba.len() / 4 != n || rgba.len() % 4 != 0 {
            return Err(GridError::InvalidPixelData);
        }
        p.process_elevation_data(luma, rgba);
        Ok(p)
    }

    /// Replaces this planisphere by one built from a decoded image (see
    /// `from_elevation_map`), keeping its subpixel division count. On an error
    /// nothing changes.
    pub fn load_elevation_map(
        &mut self,
        width_pixels: usize,
        height_pixels: usize,
        lon_subdivisions: Vec<usize>,
        luma: &Vec<u8>,
        rgba: &Vec<u8>,
    ) -> (r: Result<(), GridError>)
        requires
            old(self).wf(),
        ensures
            final(self).wf(),
            r is Err ==> *final(self) == *old(self),
            !dimensions_ok(width_pixels as int, height_pixels as int, old(self).subpixel_divisions as int)
                ==> r == Err::<(), GridError>(GridError::InvalidDimensions),
            dimensions_ok(width_pixels as int, height_pixels as int, old(self).subpixel_divisions as int)
                && !subdivision_table_ok(lon_subdivisions@, height_pixels as int, old(self).subpixel_divisions as int)
                ==> r == Err::<(), GridError>(GridError::InvalidSubdivisions),
            dimensions_ok(width_pixels as int, height_pixels as int, old(self).subpixel_divisions as int)
                && subdivision_table_ok(lon_subdivisions@, height_pixels as int, old(self).subpixel_divisions as int)
                && !(luma@.len() == width_pixels * height_pixels && rgba@.len() == 4 * (width_pixels
                * height_pixels)) ==> r == Err::<(), GridError>(GridError::InvalidPixelData),
            r is Ok ==> {
                &&& final(self).width_pixels == width_pixels
                &&& final(self).height_pixels == height_pixels
                &&& final(self).subpixel_divisions == old(self).subpixel_divisions
                &&& final(self).lon_subdivisions@ == lon_subdivisions@
                &&& final(self).holds_image(luma@, rgba@)
            },
            dimensions_ok(width_pixels as int, height_pixels as int, old(self).subpixel_divisions as int)
                && subdivision_table_ok(lon_subdivisions@, height_pixels as int, old(self).subpixel_divisions as int)
                && luma@.len() == width_pixels * height_pixels && rgba@.len() == 4 * (width_pixels
                * height_pixels) ==> r is Ok,
    {
        match Planisphere::from_elevation_map(
            width_pixels,
            height_pixels,
            self.subpixel_divisions,
            lon_subdivisions,
            luma,
            rgba,
        ) {
            Ok(p) => {
                *self = p;
                Ok(())
            },
            Err(e) => Err(e),
        }
    }

    /// Fills the elevation and color rasters from a decoded image.
    fn process_elevation_data(&mut self, luma: &Vec<u8>, rgba: &Vec<u8>)
        requires
            old(self).wf(),
            luma@.len() == old(self).width_pixels * old(self).height_pixels,
            rgba@.len() == 4 * (old(self).width_pixels * old(self).height_pixels),
        ensures
            final(self).wf(),
            final(self).width_pixels == old(self).width_pixels,
            final(self).height_pixels == old(self).height_pixels,
            final(self).subpixel_divisions == old(self).subpixel_divisions,
            final(self).lon_subdivisions@ == old(self).lon_subdivisions@,
            final(self).holds_image(luma@, rgba@),
    {
        let w = self.width_pixels;
        let h = self.height_pixels;
        assert(luma@.len() == 1 * (w * h));
        fill_channel(&mut self.elevation, luma, w, h, 1, 0);
        fill_channel(&mut self.red, rgba, w, h, 4, 0);
        fill_channel(&mut self.green, rgba, w, h, 4, 1);
        fill_channel(&mut self.blue, rgba, w, h, 4, 2);
        fill_channel(&mut self.alpha, rgba, w, h, 4, 3);
    }

    /// Width of the map in pixels.
    pub fn get_width_pixels(&self) -> (r: usize)
        ensures
            r == self.width_pixels,
    {
        self.width_pixels
    }

    /// Height of the map in pixels.
    pub fn get_height_pixels(&self) -> (r: usize)
        ensures
            r == self.height_pixels,
    {
        self.height_pixels
    }

    /// Subpixel divisions per axis at the equator.
    pub fn get_subpixel_divisions(&self) -> (r: usize)
        ensures
            r == self.subpixel_divisions,
    {
        self.subpixel_divisions
    }

    /// The red channel, one byte per pixel.
    pub fn get_red_channel(&self) -> (r: &Raster)
        ensures
            *r == self.red,
    {
        &self.red
    }

    /// The green channel, one byte per pixel.
    pub fn get_green_channel(&self) -> (r: &Raster)
        ensures
            *r == self.green,
    {
        &self.green
    }

    /// The blue channel, one byte per pixel.
    pub fn get_blue_channel(&self) -> (r: &Raster)
        ensures
            *r == self.blue,
    {
        &self.blue
    }

    /// The alpha channel, one byte per pixel.
    pub fn get_alpha_channel(&self) -> (r: &Raster)
        ensures
            *r == self.alpha,
    {
        &self.alpha
    }

    /// Subpixel columns in each pixel of row `j`.
    pub fn get_lon_subdivisons(&self, j: usize) -> (r: usize)
        requires
            self.wf(),
            j < self.height_pixels,
        ensures
            r == self.lon_subdivs(j as int),
            1 <= r <= self.subpixel_divisions,
    {
        self.lon_subdivisions[j]
    }

    /// The color `(r, g, b, a)` of pixel `(i, j)`; `(0, 0, 0, 255)` outside the map.
    pub fn get_rgba_at_pixel(&self, i: usize, j: usize) -> (r: (u8, u8, u8, u8))
        requires
            self.wf(),
        ensures
            i < self.width_pixels && j < self.height_pixels ==> r == (
                self.red.at(i as int, j as int),
                self.green.at(i as int, j as int),
                self.blue.at(i as int, j as int),
                self.alpha.at(i as int, j as int),
            ),
            !(i < self.width_pixels && j < self.height_pixels) ==> r == (0u8, 0u8, 0u8, 255u8),
    {
        if i >= self.width_pixels || j >= self.height_pixels {
            return (0, 0, 0, 255);
        }
        (
            raster_get(&self.red, i, j),
            raster_get(&self.green, i, j),
            raster_get(&self.blue, i, j),
            raster_get(&self.alpha, i, j),
        )
    }

    /// The color of the pixel that holds subpixel `k` of pixel `(i, j)`:
    /// subpixels share their pixel's color.
    pub fn get_rgba_at_subpixel(&self, i: usize, j: usize, k: usize) -> (r: (u8, u8, u8, u8))
        requires
            self.wf(),
        ensures
            i < self.width_pixels && j < self.height_pixels ==> r == (
                self.red.at(i as int, j as int),
                self.green.at(i as int, j as int),
                self.blue.at(i as int, j as int),
                self.alpha.at(i as int, j as int),
            ),
            !(i < self.width_pixels && j < self.height_pixels) ==> r == (0u8, 0u8, 0u8, 255u8),
    {
        self.get_rgba_at_pixel(i, j)
    }

    /// The elevation byte of pixel `(i, j)` (0 lowest, 255 highest).
    pub fn get_elevation(&self, i: usize, j: usize) -> (r: u8)
        requires
            self.wf(),
            i < self.width_pixels,
            j < self.height_pixels,
        ensures
            r == self.elevation.at(i as int, j as int),
    {
        raster_get(&self.elevation, i, j)
    }

    /// Whether pixel `(i, j)` is sea: its elevation is below `SEA_LEVEL`.
    pub fn is_sea(&self, i: usize, j: usize) -> (r: bool)
        requires
            self.wf(),
            i < self.width_pixels,
            j < self.height_pixels,
        ensures
            r == (self.elevation.at(i as int, j as int) < SEA_LEVEL),
    {
        raster_get(&self.elevation, i, j) < SEA_LEVEL
    }
}

/// `a / b` rounded up, for `a >= 0` and `b > 0`.
pub open spec fn ceil_div(a: int, b: int) -> int {
    (a + b - 1) / b
}

pub proof fn lemma_ceil_div_bounds(a: int, b: int)
    requires
        a >= 0,
        b > 0,
    ensures
        a <= ceil_div(a, b) * b <= a + b - 1,
        ceil_div(a, b) >= 0,
{
    vstd::arithmetic::div_mod::lemma_fundamental_div_mod(a + b - 1, b);
    vstd::arithmetic::div_mod::lemma_mod_bound(a + b - 1, b);
    vstd::arithmetic::div_mod::lemma_div_pos_is_pos(a + b - 1, b);
    let q = (a + b - 1) / b;
    assert(q * b == b * q) by (nonlinear_arith);
}

/// The corner of cell `sub` of `m` inside pixel `i` of `n`, as a fraction of
/// `span`, fits the integer widths used and stays below `span`.
proof fn lemma_cell_fraction(i: int, sub: int, n: int, m: int, span: int)
    requires
        0 <= i < n,
        0 <= sub < m,
        n * m <= span,
        LAT_SPAN <= span <= LON_SPAN,
    ensures
        0 <= i * m + sub < n * m,
        1 <= n * m <= LON_SPAN,
        (i * m + sub) * span + n * m - 1 <= LON_SPAN * LON_SPAN + LON_SPAN,
        0 <= ceil_div((i * m + sub) * span, n * m) < span,
{
    assert(i * m + sub < n * m) by (nonlinear_arith)
        requires
            0 <= i < n,
            0 <= sub < m,
    ;
    assert(0 <= i * m) by (nonlinear_arith)
        requires
            0 <= i,
            0 <= m,
    ;
    let a = (i * m + sub) * span;
    let b = n * m;
    assert(a <= (b - 1) * span) by (nonlinear_arith)
        requires
            a == (i * m + sub) * span,
            0 <= i * m + sub <= b - 1,
            0 <= span,
    ;
    assert(a <= LON_SPAN * LON_SPAN) by (nonlinear_arith)
        requires
            a <= (b - 1) * span,
            b <= span,
            span <= LON_SPAN,
            0 <= span,
    ;
    assert(0 <= a) by (nonlinear_arith)
        requires
            a == (i * m + sub) * span,
            0 <= i * m + sub,
            0 <= span,
    ;
    lemma_ceil_div_bounds(a, b);
    let c = ceil_div(a, b);
    assert(c < span) by (nonlinear_arith)
        requires
            c * b <= a + b - 1,
            a <= (b - 1) * span,
            b <= span,
            b >= 1,
    ;
}

impl Planisphere {
    /// The address of the subpixel holding point `p`: the pixel by flooring its
    /// position on the map, then `sub_i = i mod lon_subdivs(j)` and
    /// `sub_j = j mod S`. Indices wrap rather than fail, so the latitude 90
    /// lands in row 0.
    pub open spec fn geo_to_subpixel_spec(self, p: GeoCoordinate) -> GridAddress {
        let w = self.width_pixels as int;
        let h = self.height_pixels as int;
        let s = self.subpixel_divisions as int;
        let i = ((p.longitude + LON_SPAN / 2) * w / LON_SPAN as int) % w;
        let j = ((p.latitude + LAT_SPAN / 2) * h / LAT_SPAN as int) % h;
        let l = self.lon_subdivs(j);
        GridAddress { i: i as usize, j: j as usize, k: ((i % l) * s + j % s) as usize }
    }

    /// The point of subpixel `a` at its lower-left corner: the pixel's corner
    /// plus `sub_i / lon_subdivs(j)` of a pixel in longitude and `sub_j / S` in
    /// latitude, rounded up to the next micro-degree so that it stays inside
    /// the subpixel.
    pub open spec fn subpixel_to_geo_spec(self, a: GridAddress) -> GeoCoordinate {
        let w = self.width_pixels as int;
        let h = self.height_pixels as int;
        let s = self.subpixel_divisions as int;
        let l = self.lon_subdivs(a.j as int);
        GeoCoordinate {
            longitude: (ceil_div((a.i * l + (a.k as int) / s) * LON_SPAN, w * l) - LON_SPAN / 2) as i64,
            latitude: (ceil_div((a.j * s + (a.k as int) % s) * LAT_SPAN, h * s) - LAT_SPAN / 2) as i64,
        }
    }

    /// Converts a geographic point to the address of the subpixel holding it.
    pub fn geo_to_subpixel(&self, p: GeoCoordinate) -> (r: GridAddress)
        requires
            self.wf(),
            p.is_valid(),
        ensures
            r == self.geo_to_subpixel_spec(p),
            self.valid_address(r),
    {
        let w = self.width_pixels;
        let h = self.height_pixels;
        let s = self.subpixel_divisions;
        let u = (p.longitude + LON_SPAN / 2) as u64;
        let v = (p.latitude + LAT_SPAN / 2) as u64;
        proof {
            lemma_dimension_bounds(w as int, h as int, s as int, 1);
            assert(u * w <= LON_SPAN * w) by (nonlinear_arith)
                requires
                    u < LON_SPAN,
                    0 <= w,
            ;
            assert(LON_SPAN * w <= LON_SPAN * LON_SPAN) by (nonlinear_arith)
                requires
                    w <= LON_SPAN,
            ;
            assert(v * h <= LAT_SPAN * h) by (nonlinear_arith)
                requires
                    v <= LAT_SPAN,
                    0 <= h,
            ;
            assert(LAT_SPAN * h <= LAT_SPAN * LAT_SPAN) by (nonlinear_arith)
                requires
                    h <= LAT_SPAN,
            ;
        }
        let i0 = (u * w as u64) / LON_SPAN as u64;
        let j0 = (v * h as u64) / LAT_SPAN as u64;
        proof {
            assert(i0 <= w) by (nonlinear_arith)
                requires
                    i0 == (u * w) / (LON_SPAN as int),
                    u * w <= LON_SPAN * w,
            ;
            assert(j0 <= h) by (nonlinear_arith)
                requires
                    j0 == (v * h) / (LAT_SPAN as int),
                    v * h <= LAT_SPAN * h,
            ;
        }
        let i = i0 as usize % w;
        let j = j0 as usize % h;
        let l = self.lon_subdivisions[j];
        proof {
            assert((i % l) * s < l * s) by (nonlinear_arith)
                requires
                    i % l < l,
                    0 < s,
            ;
            lemma_dimension_bounds(w as int, h as int, s as int, l as int);
            assert((i % l) * s + j % s < l * s) by (nonlinear_arith)
                requires
                    i % l < l,
                    j % s < s,
                    0 < s,
            ;
        }
        let k = (i % l) * s + j % s;
        GridAddress { i, j, k }
    }

    /// Converts a subpixel address to the geographic point of its lower-left
    /// corner (see `subpixel_to_geo_spec`).
    pub fn subpixel_to_geo(&self, a: GridAddress) -> (r: GeoCoordinate)
        requires
            self.wf(),
            self.valid_address(a),
        ensures
            r == self.subpixel_to_geo_spec(a),
            r.is_valid(),
    {
        let w = self.width_pixels as u64;
        let h = self.height_pixels as u64;
        let s = self.subpixel_divisions as u64;
        let l = self.lon_subdivisions[a.j] as u64;
        let sub_i = a.k as u64 / s;
        let sub_j = a.k as u64 % s;
        proof {
            assert(sub_i < l) by (nonlinear_arith)
                requires
                    a.k < l * s,
                    sub_i == (a.k as int) / (s as int),
                    s > 0,
            ;
            lemma_dimension_bounds(w as int, h as int, s as int, l as int);
            lemma_cell_fraction(a.i as int, sub_i as int, w as int, l as int, LON_SPAN as int);
            lemma_cell_fraction(a.j as int, sub_j as int, h as int, s as int, LAT_SPAN as int);
        }
        let lon_num = (a.i as u64 * l + sub_i) * LON_SPAN as u64;
        let lon_den = w * l;
        let lat_num = (a.j as u64 * s + sub_j) * LAT_SPAN as u64;
        let lat_den = h * s;
        let lon = ((lon_num + lon_den - 1) / lon_den) as i64 - LON_SPAN / 2;
        let lat = ((lat_num + lat_den - 1) / lat_den) as i64 - LAT_SPAN / 2;
        GeoCoordinate { longitude: lon, latitude: lat }
    }
}

/// One axis of the round trip: the point `u` lies in cell `i = u n / span`;
/// the rounded-up corner of any subcell of `i` lies in cell `i` too, less than
/// one cell away from `u`.
proof fn lemma_axis_round_trip(u: int, n: int, m: int, span: int, sub: int)
    requires
        0 <= u < span,
        1 <= n,
        1 <= m,
        n * m <= span,
        LAT_SPAN <= span <= LON_SPAN,
        0 <= sub < m,
    ensures
        0 <= u * n / span < n,
        (u * n / span) % n == u * n / span,
        ceil_div(((u * n / span) * m + sub) * span, n * m) * n / span == u * n / span,
        (ceil_div(((u * n / span) * m + sub) * span, n * m) * n / span) % n == u * n / span,
        -span < (ceil_div(((u * n / span) * m + sub) * span, n * m) - u) * n < span,
{
    let i = u * n / span;
    assert(0 <= u * n < span * n) by (nonlinear_arith)
        requires
            0 <= u < span,
            1 <= n,
    ;
    vstd::arithmetic::div_mod::lemma_fundamental_div_mod(u * n, span);
    vstd::arithmetic::div_mod::lemma_mod_bound(u * n, span);
    vstd::arithmetic::div_mod::lemma_div_pos_is_pos(u * n, span);
    assert(i * span <= u * n < (i + 1) * span) by (nonlinear_arith)
        requires
            u * n == span * i + (u * n) % span,
            0 <= (u * n) % span < span,
    ;
    assert(i < n) by (nonlinear_arith)
        requires
            i * span <= u * n,
            u * n < span * n,
            span > 0,
    ;
    vstd::arithmetic::div_mod::lemma_small_mod(i as nat, n as nat);
    lemma_cell_fraction(i, sub, n, m, span);
    let a = (i * m + sub) * span;
    let b = n * m;
    lemma_ceil_div_bounds(a, b);
    let q = ceil_div(a, b);
    assert(q * n >= i * span) by (nonlinear_arith)
        requires
            q * b >= a,
            a == (i * m + sub) * span,
            b == n * m,
            0 <= sub,
            m >= 1,
            span >= 0,
    ;
    assert(a + b - 1 < (i + 1) * span * m) by (nonlinear_arith)
        requires
            a == (i * m + sub) * span,
            sub <= m - 1,
            b <= span,
            span >= 0,
    ;
    assert((q * n) * m == q * b) by (nonlinear_arith)
        requires
            b == n * m,
    ;
    assert(q * n < (i + 1) * span) by (nonlinear_arith)
        requires
            (q * n) * m < (i + 1) * span * m,
            m >= 1,
    ;
    assert(0 <= q * n);
    vstd::arithmetic::div_mod::lemma_fundamental_div_mod(q * n, span);
    vstd::arithmetic::div_mod::lemma_mod_bound(q * n, span);
    let t = q * n / span;
    assert(t == i) by (nonlinear_arith)
        requires
            q * n == span * t + (q * n) % span,
            0 <= (q * n) % span < span,
            i * span <= q * n < (i + 1) * span,
    ;
    assert((q - u) * n == q * n - u * n) by (nonlinear_arith);
}

/// Converting a point to its subpixel, the subpixel back to a point, and that
/// point to a subpixel again gives the same subpixel: the point falls in the
/// cell it came from, less than one pixel away in each axis. The latitude 90
/// wraps to row 0, so it is left out.
pub proof fn lemma_round_trip(grid: Planisphere, c: GeoCoordinate)
    requires
        grid.wf(),
        c.is_valid(),
        c.latitude < LAT_SPAN / 2,
    ensures
        ({
            let a = grid.geo_to_subpixel_spec(c);
            let q = grid.subpixel_to_geo_spec(a);
            &&& q.is_valid()
            &&& grid.geo_to_subpixel_spec(q) == a
            &&& -LON_SPAN < (q.longitude - c.longitude) * grid.width_pixels < LON_SPAN
            &&& -LAT_SPAN < (q.latitude - c.latitude) * grid.height_pixels < LAT_SPAN
        }),
{
    let w = grid.width_pixels as int;
    let h = grid.height_pixels as int;
    let s = grid.subpixel_divisions as int;
    let u = c.longitude + LON_SPAN / 2;
    let v = c.latitude + LAT_SPAN / 2;
    let a = grid.geo_to_subpixel_spec(c);
    let i = u * w / LON_SPAN as int;
    let j = v * h / LAT_SPAN as int;
    lemma_dimension_bounds(w, h, s, 1);
    lemma_axis_round_trip(v, h, s, LAT_SPAN as int, 0);
    let l = grid.lon_subdivs(j);
    assert(1 <= l <= s);
    lemma_dimension_bounds(w, h, s, l);
    assert(0 <= i % l < l) by {
        vstd::arithmetic::div_mod::lemma_mod_bound(i, l);
    }
    assert(0 <= j % s < s) by {
        vstd::arithmetic::div_mod::lemma_mod_bound(j, s);
    }
    lemma_axis_round_trip(u, w, l, LON_SPAN as int, i % l);
    lemma_axis_round_trip(v, h, s, LAT_SPAN as int, j % s);
    assert(a.i == i && a.j == j);
    let k = (i % l) * s + j % s;
    assert(a.k == k) by {
        assert(0 <= (i % l) * s + j % s < l * s) by (nonlinear_arith)
            requires
                0 <= i % l < l,
                0 <= j % s < s,
                s > 0,
        ;
    }
    assert(k / s == i % l && k % s == j % s) by {
        vstd::arithmetic::div_mod::lemma_fundamental_div_mod_converse(k, s, i % l, j % s);
    }
    lemma_cell_fraction(i, i % l, w, l, LON_SPAN as int);
    lemma_cell_fraction(j, j % s, h, s, LAT_SPAN as int);
}

/// Every row has at least one subpixel column, and a row never has more
/// columns than a row nearer the equator.
pub proof fn lemma_subdivisions_monotone(grid: Planisphere)
    requires
        grid.wf(),
    ensures
        forall|j: int| 0 <= j < grid.height_pixels ==> #[trigger] grid.lon_subdivs(j) >= 1,
        forall|j1: int, j2: int|
            0 <= j1 < grid.height_pixels && 0 <= j2 < grid.height_pixels && row_rank(
                j1,
                grid.height_pixels as int,
            ) <= row_rank(j2, grid.height_pixels as int) ==> #[trigger] grid.lon_subdivs(j1)
                >= #[trigger] grid.lon_subdivs(j2),
{
    lemma_locally_monotone_implies_monotone(grid.lon_subdivisions@);
    assert forall|j1: int, j2: int|
        0 <= j1 < grid.height_pixels && 0 <= j2 < grid.height_pixels && row_rank(
            j1,
            grid.height_pixels as int,
        ) <= row_rank(j2, grid.height_pixels as int) implies #[trigger] grid.lon_subdivs(j1)
        >= #[trigger] grid.lon_subdivs(j2) by {
        assert(grid.lon_subdivisions@[j1] >= grid.lon_subdivisions@[j2]);
    }
}

} // verus!
