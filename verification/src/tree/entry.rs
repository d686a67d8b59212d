use vstd::prelude::*;

use crate::config::Source;
use crate::tree::errors::{DatasetError, NoNoDataValueError};

verus! {

/// Largest coordinate magnitude (origins, bounding-box corners, query points)
/// the fixed-point arithmetic supports.
pub const COORD_LIMIT: i64 = 1_000_000_000_000_000;

/// Largest magnitude of a geotransform pixel/rotation coefficient.
pub const GT_COEF_LIMIT: i64 = 1_000_000_000;

/// Largest raster width or height.
pub const DIM_LIMIT: usize = 1_000_000_000;

/// The six affine coefficients of a raster's geotransform, in fixed-point
/// canonical coordinate units. Pixel `(col, row)` maps to the point
/// `x = x0 + col * x_pixel + row * x_rot`,
/// `y = y0 + col * y_rot + row * y_pixel`.
#[derive(Debug, Clone, Copy, PartialEq, Eq, Structural)]
pub struct GeoTransform {
    pub x0: i64,
    pub x_pixel: i64,
    pub x_rot: i64,
    pub y0: i64,
    pub y_rot: i64,
    pub y_pixel: i64,
}

/// An opened raster, handed over by the loader as plain values: the decoded
/// metadata and the primary band's samples, row-major (`band[row * width +
/// col]`), in the raster's integer sample units. Decoding the file and
/// reprojecting its geometry into the canonical coordinate system are the
/// loader's concern.
#[derive(Debug, Clone)]
pub struct Dataset {
    /// The affine transform, if the raster declares one.
    pub geo_transform: Option<GeoTransform>,
    /// Whether the raster declares spatial-reference metadata.
    pub has_spatial_ref: bool,
    /// Raster width in pixels.
    pub width: usize,
    /// Raster height in pixels.
    pub height: usize,
    /// The declared no-data sentinel, if any.
    pub no_data_value: Option<i64>,
    /// The primary band's samples, row-major, one per pixel.
    pub band: Vec<i64>,
}

/// One raster file of a source, with its precomputed spatial metadata: the
/// bounding box in canonical coordinates, the geotransform whose inverse
/// (applied as adjugate over determinant, with floor semantics) turns a point
/// into pixel indices, and the no-data sentinel.
#[derive(Debug)]
pub struct Entry {
    /// The owning source (shared descriptor, copied in: entries own immutable
    /// source values rather than borrowing them).
    pub source: Source,
    /// The raster's geotransform.
    pub gt: GeoTransform,
    /// The geotransform's determinant; never zero for a well-formed entry.
    pub det: i64,
    /// Samples equal to this value mean "no measurement here".
    pub no_data_value: i64,
    pub xmin: i64,
    pub xmax: i64,
    pub ymin: i64,
    pub ymax: i64,
    pub width: usize,
    pub height: usize,
    /// The primary band's samples, row-major.
    pub band: Vec<i64>,
}

/// Floor division: the unique `q` with `q * d <= n < (q + 1) * d` for `d > 0`,
/// mirrored for `d < 0`.
pub open spec fn floor_div(n: int, d: int) -> int
    recommends
        d != 0,
{
    if d > 0 {
        n / d
    } else {
        (-n) / (-d)
    }
}

pub open spec fn spec_det(gt: GeoTransform) -> int {
    gt.x_pixel * gt.y_pixel - gt.x_rot * gt.y_rot
}

pub open spec fn spec_xmax(gt: GeoTransform, width: int) -> int {
    gt.x0 + width * gt.x_pixel
}

pub open spec fn spec_ymin(gt: GeoTransform, height: int) -> int {
    gt.y0 + height * gt.y_pixel
}

/// The raster's dimensions are supported and the band holds one sample per
/// pixel.
pub open spec fn spec_dims_ok(d: Dataset) -> bool {
    &&& d.width <= DIM_LIMIT
    &&& d.height <= DIM_LIMIT
    &&& d.band.len() == d.width * d.height
}

/// The geotransform's coefficients and the corners they generate stay within
/// the bounds the fixed-point arithmetic supports.
pub open spec fn spec_gt_in_range(gt: GeoTransform, width: int, height: int) -> bool {
    &&& -COORD_LIMIT <= gt.x0 <= COORD_LIMIT
    &&& -COORD_LIMIT <= gt.y0 <= COORD_LIMIT
    &&& -GT_COEF_LIMIT <= gt.x_pixel <= GT_COEF_LIMIT
    &&& -GT_COEF_LIMIT <= gt.x_rot <= GT_COEF_LIMIT
    &&& -GT_COEF_LIMIT <= gt.y_rot <= GT_COEF_LIMIT
    &&& -GT_COEF_LIMIT <= gt.y_pixel <= GT_COEF_LIMIT
    &&& -COORD_LIMIT <= spec_xmax(gt, width) <= COORD_LIMIT
    &&& -COORD_LIMIT <= spec_ymin(gt, height) <= COORD_LIMIT
}

/// Why `from_dataset` rejects this raster, or `None` if it is accepted. The
/// checks run in this order: geotransform, spatial reference, no-data
/// sentinel, geometry bounds, invertibility.
pub open spec fn spec_build_error(d: Dataset) -> Option<DatasetError> {
    if d.geo_transform is None {
        Some(DatasetError::MissingGeoTransform)
    } else if !d.has_spatial_ref {
        Some(DatasetError::MissingSpatialRef)
    } else if d.no_data_value is None {
        Some(DatasetError::MissingNoDataValue(NoNoDataValueError {  }))
    } else if !(spec_dims_ok(d) && spec_gt_in_range(
        d.geo_transform->Some_0,
        d.width as int,
        d.height as int,
    )) {
        Some(DatasetError::GeometryOutOfRange)
    } else if spec_det(d.geo_transform->Some_0) == 0 {
        Some(DatasetError::InvalidGeoTransform)
    } else {
        None
    }
}

/// The entry `from_dataset` builds from an accepted raster.
pub open spec fn spec_entry_of(source: Source, d: Dataset) -> Entry {
    let gt = d.geo_transform->Some_0;
    Entry {
        source,
        gt,
        det: spec_det(gt) as i64,
        no_data_value: d.no_data_value->Some_0,
        xmin: gt.x0,
        xmax: spec_xmax(gt, d.width as int) as i64,
        ymax: gt.y0,
        ymin: spec_ymin(gt, d.height as int) as i64,
        width: d.width,
        height: d.height,
        band: d.band,
    }
}

impl Entry {
    /// Well-formedness: the precomputed determinant and bounding box agree
    /// with the geotransform, the transform is invertible, and everything
    /// stays within the supported fixed-point bounds.
    pub open spec fn wf(self) -> bool {
        &&& self.det == spec_det(self.gt)
        &&& self.det != 0
        &&& spec_gt_in_range(self.gt, self.width as int, self.height as int)
        &&& self.width <= DIM_LIMIT
        &&& self.height <= DIM_LIMIT
        &&& self.band.len() == self.width * self.height
        &&& self.xmin == self.gt.x0
        &&& self.ymax == self.gt.y0
        &&& self.xmax == spec_xmax(self.gt, self.width as int)
        &&& self.ymin == spec_ymin(self.gt, self.height as int)
    }

    /// The point lies inside the bounding box, inclusively on all four edges.
    pub open spec fn spec_contains_point(self, lat: int, lng: int) -> bool {
        &&& self.xmin <= lng <= self.xmax
        &&& self.ymin <= lat <= self.ymax
    }

    /// The pixel column the point lands in, by the inverse affine transform
    /// with floor semantics.
    pub open spec fn spec_pixel_col(self, lat: int, lng: int) -> int {
        floor_div(
            self.gt.y_pixel * (lng - self.gt.x0) - self.gt.x_rot * (lat - self.gt.y0),
            self.det as int,
        )
    }

    /// The pixel row the point lands in.
    pub open spec fn spec_pixel_row(self, lat: int, lng: int) -> int {
        floor_div(
            self.gt.x_pixel * (lat - self.gt.y0) - self.gt.y_rot * (lng - self.gt.x0),
            self.det as int,
        )
    }

    /// The raw sample at the point, or `None` if the pixel lies outside the
    /// raster's physical bounds.
    pub open spec fn spec_sample(self, lat: int, lng: int) -> Option<int> {
        let col = self.spec_pixel_col(lat, lng);
        let row = self.spec_pixel_row(lat, lng);
        if 0 <= col < self.width as int && 0 <= row < self.height as int {
            Some(self.band@[row * (self.width as int) + col] as int)
        } else {
            None
        }
    }

    /// The elevation at the point: the raw sample, with the no-data sentinel
    /// and out-of-raster reads collapsed to absence.
    pub open spec fn spec_altitude(self, lat: int, lng: int) -> Option<int> {
        match self.spec_sample(lat, lng) {
            Some(v) => if v == self.no_data_value as int {
                None
            } else {
                Some(v)
            },
            None => None,
        }
    }

    /// Whether the raster's bounding box contains the point, inclusively on
    /// all four edges.
    pub fn contain_point(&self, lat: i64, lng: i64) -> (r: bool)
        ensures
            r == self.spec_contains_point(lat as int, lng as int),
    {
        self.xmin <= lng && lng <= self.xmax && self.ymin <= lat && lat <= self.ymax
    }

    /// The elevation sample at the point: the point is turned into pixel
    /// indices by the inverse affine transform with floor semantics, and the
    /// sample is read from the band. A read outside the raster's physical
    /// bounds, and a sample equal to the no-data sentinel, are both absent.
    pub fn get_altitude(&self, lat: i64, lng: i64) -> (r: Option<i64>)
        requires
            self.wf(),
            -COORD_LIMIT <= lat <= COORD_LIMIT,
            -COORD_LIMIT <= lng <= COORD_LIMIT,
        ensures
            r matches Some(v) ==> self.spec_altitude(lat as int, lng as int) == Some(v as int)
                && v != self.no_data_value,
            r is None ==> self.spec_altitude(lat as int, lng as int) is None,
    {
        let u: i128 = lng as i128 - self.gt.x0 as i128;
        let v: i128 = lat as i128 - self.gt.y0 as i128;
        proof {
            lemma_mul_bound(self.gt.y_pixel as int, u as int, GT_COEF_LIMIT as int, 2 * COORD_LIMIT);
            lemma_mul_bound(self.gt.x_rot as int, v as int, GT_COEF_LIMIT as int, 2 * COORD_LIMIT);
            lemma_mul_bound(self.gt.x_pixel as int, v as int, GT_COEF_LIMIT as int, 2 * COORD_LIMIT);
            lemma_mul_bound(self.gt.y_rot as int, u as int, GT_COEF_LIMIT as int, 2 * COORD_LIMIT);
        }
        let num_col: i128 = self.gt.y_pixel as i128 * u - self.gt.x_rot as i128 * v;
        let num_row: i128 = self.gt.x_pixel as i128 * v - self.gt.y_rot as i128 * u;
        let col: i128 = floor_div_i128(num_col, self.det as i128);
        let row: i128 = floor_div_i128(num_row, self.det as i128);
        if col < 0 || row < 0 || col >= self.width as i128 || row >= self.height as i128 {
            return None;
        }
        proof {
            assert((row as int) * (self.width as int) + (col as int) < (self.width as int) * (
            self.height as int)) by (nonlinear_arith)
                requires
                    0 <= (row as int) < (self.height as int),
                    0 <= (col as int) < (self.width as int),
            ;
        }
        let idx_wide: u128 = row as u128 * self.width as u128 + col as u128;
        assert(idx_wide < self.band@.len());
        let idx: usize = idx_wide as usize;
        let sample: i64 = self.band[idx];
        if sample == self.no_data_value {
            None
        } else {
            Some(sample)
        }
    }
}

/// `a * b` stays within the product of the operands' bounds.
proof fn lemma_mul_bound(a: int, b: int, ab: int, bb: int)
    requires
        -ab <= a <= ab,
        -bb <= b <= bb,
        0 <= ab,
        0 <= bb,
    ensures
        -(ab * bb) <= a * b <= ab * bb,
{
    assert(-(ab * bb) <= a * b <= ab * bb) by (nonlinear_arith)
        requires
            -ab <= a <= ab,
            -bb <= b <= bb,
            0 <= ab,
            0 <= bb,
    ;
}

/// Euclidean division is the unique quotient/remainder pair with a remainder
/// in `[0, d)`.
proof fn lemma_div_unique(n: int, d: int, q: int, r: int)
    requires
        d > 0,
        n == d * q + r,
        0 <= r < d,
    ensures
        q == n / d,
{
    vstd::arithmetic::div_mod::lemma_fundamental_div_mod(n, d);
    vstd::arithmetic::div_mod::lemma_mod_bound(n, d);
    assert(q == n / d) by (nonlinear_arith)
        requires
            d > 0,
            n == d * q + r,
            0 <= r < d,
            n == d * (n / d) + (n % d),
            0 <= n % d < d,
    ;
}

/// Floor division on machine integers, by unsigned division on magnitudes.
fn floor_div_i128(n: i128, d: i128) -> (q: i128)
    requires
        d != 0,
        i128::MIN < n,
        i128::MIN < d,
    ensures
        q == floor_div(n as int, d as int),
{
    let negative = (n < 0) != (d < 0);
    let na: u128 = if n < 0 {
        (-n) as u128
    } else {
        n as u128
    };
    let da: u128 = if d < 0 {
        (-d) as u128
    } else {
        d as u128
    };
    let qa: u128 = na / da;
    let ra: u128 = na % da;
    let ghost ni: int = n as int;
    let ghost di: int = d as int;
    let ghost ni2: int = if di < 0 { -ni } else { ni };
    let ghost di2: int = if di < 0 { -di } else { di };
    let q: i128 = if negative {
        if ra == 0 {
            -(qa as i128)
        } else {
            -(qa as i128) - 1
        }
    } else {
        qa as i128
    };
    proof {
        vstd::arithmetic::div_mod::lemma_fundamental_div_mod(na as int, da as int);
        vstd::arithmetic::div_mod::lemma_mod_bound(na as int, da as int);
        assert(na as int == da as int * (qa as int) + ra as int);
        if negative {
            if ra == 0 {
                assert(ni2 == di2 * (q as int) + 0) by (nonlinear_arith)
                    requires
                        na as int == da as int * (qa as int),
                        q as int == -(qa as int),
                        ni2 == -(na as int),
                        di2 == da as int,
                ;
                lemma_div_unique(ni2, di2, q as int, 0);
            } else {
                assert(ni2 == di2 * (q as int) + (da as int - ra as int)) by (nonlinear_arith)
                    requires
                        na as int == da as int * (qa as int) + ra as int,
                        q as int == -(qa as int) - 1,
                        ni2 == -(na as int),
                        di2 == da as int,
                ;
                lemma_div_unique(ni2, di2, q as int, da as int - ra as int);
            }
        } else {
            lemma_div_unique(ni2, di2, q as int, ra as int);
        }
    }
    q
}

/// Builds an index entry from a source and an opened raster: precomputes the
/// determinant of the geotransform and the bounding box from the raster's
/// corners, and reads the primary band's no-data sentinel. Fails fast on any
/// missing metadata, a non-invertible geotransform, or geometry beyond the
/// supported fixed-point bounds.
pub fn from_dataset(source: &Source, dataset: Dataset) -> (r: Result<Entry, DatasetError>)
    ensures
        spec_build_error(dataset) matches Some(er) ==> r == Err::<Entry, DatasetError>(er),
        spec_build_error(dataset) is None ==> (r matches Ok(e) && e == spec_entry_of(
            *source,
            dataset,
        ) && e.wf()),
{
    let gt = match dataset.geo_transform {
        Some(gt) => gt,
        None => { return Err(DatasetError::MissingGeoTransform) },
    };
    if !dataset.has_spatial_ref {
        return Err(DatasetError::MissingSpatialRef);
    }
    let no_data_value = match dataset.no_data_value {
        Some(v) => v,
        None => { return Err(DatasetError::MissingNoDataValue(NoNoDataValueError {  })) },
    };
    if dataset.width > DIM_LIMIT || dataset.height > DIM_LIMIT {
        return Err(DatasetError::GeometryOutOfRange);
    }
    proof {
        lemma_mul_bound(dataset.width as int, dataset.height as int, DIM_LIMIT as int, DIM_LIMIT as int);
    }
    if dataset.band.len() as u128 != dataset.width as u128 * dataset.height as u128 {
        return Err(DatasetError::GeometryOutOfRange);
    }
    if gt.x0 < -COORD_LIMIT || gt.x0 > COORD_LIMIT || gt.y0 < -COORD_LIMIT || gt.y0 > COORD_LIMIT {
        return Err(DatasetError::GeometryOutOfRange);
    }
    if gt.x_pixel < -GT_COEF_LIMIT || gt.x_pixel > GT_COEF_LIMIT || gt.x_rot < -GT_COEF_LIMIT
        || gt.x_rot > GT_COEF_LIMIT || gt.y_rot < -GT_COEF_LIMIT || gt.y_rot > GT_COEF_LIMIT
        || gt.y_pixel < -GT_COEF_LIMIT || gt.y_pixel > GT_COEF_LIMIT {
        return Err(DatasetError::GeometryOutOfRange);
    }
    proof {
        lemma_mul_bound(dataset.width as int, gt.x_pixel as int, DIM_LIMIT as int, GT_COEF_LIMIT as int);
        lemma_mul_bound(dataset.height as int, gt.y_pixel as int, DIM_LIMIT as int, GT_COEF_LIMIT as int);
    }
    let xmax_wide: i128 = gt.x0 as i128 + dataset.width as i128 * gt.x_pixel as i128;
    let ymin_wide: i128 = gt.y0 as i128 + dataset.height as i128 * gt.y_pixel as i128;
    if xmax_wide < -COORD_LIMIT as i128 || xmax_wide > COORD_LIMIT as i128
        || ymin_wide < -COORD_LIMIT as i128 || ymin_wide > COORD_LIMIT as i128 {
        return Err(DatasetError::GeometryOutOfRange);
    }
    proof {
        lemma_mul_bound(gt.x_pixel as int, gt.y_pixel as int, GT_COEF_LIMIT as int, GT_COEF_LIMIT as int);
        lemma_mul_bound(gt.x_rot as int, gt.y_rot as int, GT_COEF_LIMIT as int, GT_COEF_LIMIT as int);
    }
    let det_wide: i128 = gt.x_pixel as i128 * gt.y_pixel as i128
        - gt.x_rot as i128 * gt.y_rot as i128;
    if det_wide == 0 {
        return Err(DatasetError::InvalidGeoTransform);
    }
    let source_copy = Source {
        id: source.id.clone(),
        name: source.name.clone(),
        path: source.path.clone(),
        resolution: source.resolution,
        link: clone_opt_string(&source.link),
        attributions: clone_opt_string(&source.attributions),
    };
    Ok(
        Entry {
            source: source_copy,
            gt,
            det: det_wide as i64,
            no_data_value,
            xmin: gt.x0,
            xmax: xmax_wide as i64,
            ymax: gt.y0,
            ymin: ymin_wide as i64,
            width: dataset.width,
            height: dataset.height,
            band: dataset.band,
        },
    )
}

/// An exact copy of an optional string.
pub fn clone_opt_string(s: &Option<String>) -> (r: Option<String>)
    ensures
        r == *s,
{
    match s {
        Some(v) => Some(v.clone()),
        None => None,
    }
}

} // verus!
