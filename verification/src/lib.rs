//! Resolves geographic points to elevation values by consulting a collection
//! of raster coverage datasets of varying resolution.
//!
//! Coordinates are carried as fixed-point integers in the canonical query
//! coordinate system (the same scaled unit throughout), and elevation samples
//! are the rasters' integer sample units. The library owns the spatial index
//! (which dataset answers a query, with a deterministic tie-break), the
//! per-dataset geometric adapter (inverse affine transform, bounding-box
//! containment), and the read-through cache in front of them. Decoding raster
//! files and reprojecting coordinates between reference systems remain the
//! loader's concern: it hands each opened raster over as plain values.

pub mod config;
pub mod server;
pub mod tree;
