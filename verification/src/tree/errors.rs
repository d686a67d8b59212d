use vstd::prelude::*;

verus! {

/// A raster that declares no no-data sentinel cannot be used: without the
/// sentinel, absent measurements could surface as numeric elevations.
#[derive(Debug, Clone, PartialEq, Eq, Structural)]
pub struct NoNoDataValueError {}

/// Why building an index entry from an opened raster failed. Construction is
/// fail-fast: any missing or unusable metadata aborts the load.
#[derive(Debug, Clone, PartialEq, Eq, Structural)]
pub enum DatasetError {
    /// The raster declares no geotransform metadata.
    MissingGeoTransform,
    /// The raster declares no spatial-reference metadata.
    MissingSpatialRef,
    /// The raster declares no no-data sentinel.
    MissingNoDataValue(NoNoDataValueError),
    /// The geotransform is not invertible (zero determinant).
    InvalidGeoTransform,
    /// The raster's coefficients, corners or size exceed the bounds the
    /// fixed-point arithmetic supports, or the band does not hold one sample
    /// per pixel.
    GeometryOutOfRange,
}

/// Why loading a whole source failed (fatal at startup; no partial index is
/// ever published).
#[derive(Debug, Clone, PartialEq, Eq, Structural)]
pub enum LoadError {
    /// The configured path does not exist.
    RootMissing,
    /// The configured path is not a directory.
    RootNotDirectory,
    /// One of the discovered rasters could not be turned into an entry.
    Dataset(DatasetError),
}

/// A batch request that exceeds the point limit; rejected before any point is
/// processed, with no partial response.
#[derive(Debug, Clone, PartialEq, Eq, Structural)]
pub struct RangeError {}

} // verus!
