use relevation::config::Source;
use relevation::tree::entry::{from_dataset, Dataset, Entry, GeoTransform};
use relevation::tree::errors::{DatasetError, NoNoDataValueError};

const NO_DATA: i64 = -32768;

fn source(id: &str, resolution: usize) -> Source {
    Source {
        id: String::from(id),
        name: String::from(id),
        path: format!("/data/{}", id),
        resolution,
        link: None,
        attributions: None,
    }
}

/// A square raster centred on the origin: one pixel per unit, `half` units in
/// each direction, every sample set to `value`.
fn square_dataset(half: i64, value: i64) -> Dataset {
    let side = (2 * half) as usize;
    Dataset {
        geo_transform: Some(GeoTransform {
            x0: -half,
            x_pixel: 1,
            x_rot: 0,
            y0: half,
            y_rot: 0,
            y_pixel: -1,
        }),
        has_spatial_ref: true,
        width: side,
        height: side,
        no_data_value: Some(NO_DATA),
        band: vec![value; side * side],
    }
}

fn square_entry(id: &str, resolution: usize, half: i64, value: i64) -> Entry {
    from_dataset(&source(id, resolution), square_dataset(half, value)).unwrap()
}

#[test]
fn bounding_box_from_corners() {
    let e = square_entry("s", 30, 10, 7);
    assert_eq!(e.xmin, -10);
    assert_eq!(e.xmax, 10);
    assert_eq!(e.ymin, -10);
    assert_eq!(e.ymax, 10);
    assert_eq!(e.det, -1);
}

#[test]
fn contain_point_inside_and_outside() {
    let e = square_entry("s", 30, 10, 7);
    assert!(e.contain_point(0, 0));
    assert!(e.contain_point(3, -9));
    assert!(!e.contain_point(11, 0));
    assert!(!e.contain_point(0, -11));
    assert!(!e.contain_point(20, 20));
}

#[test]
fn contain_point_inclusive_on_all_four_edges() {
    let e = square_entry("s", 30, 10, 7);
    assert!(e.contain_point(10, 0));
    assert!(e.contain_point(-10, 0));
    assert!(e.contain_point(0, 10));
    assert!(e.contain_point(0, -10));
    assert!(e.contain_point(10, 10));
    assert!(e.contain_point(-10, -10));
}

#[test]
fn get_altitude_reads_the_pixel_the_point_lands_in() {
    let src = source("s", 30);
    let mut d = square_dataset(2, 0);
    // 4x4 band, row-major, distinct samples.
    d.band = (0..16).collect();
    let e = from_dataset(&src, d).unwrap();
    // Point (lat 2, lng -2) is the north-west corner: column 0, row 0.
    assert_eq!(e.get_altitude(2, -2), Some(0));
    // Point (lat 0, lng 0): column 2, row 2 -> sample 2 * 4 + 2.
    assert_eq!(e.get_altitude(0, 0), Some(10));
    // Point (lat 1, lng -1): column 1, row 1 -> sample 1 * 4 + 1.
    assert_eq!(e.get_altitude(1, -1), Some(5));
}

#[test]
fn no_data_pixels_surface_as_absence() {
    let src = source("s", 30);
    let mut d = square_dataset(2, 1);
    d.band[10] = NO_DATA; // the pixel that (0, 0) lands in
    let e = from_dataset(&src, d).unwrap();
    assert_eq!(e.get_altitude(0, 0), None);
    assert_eq!(e.get_altitude(1, -1), Some(1));
}

#[test]
fn read_outside_physical_bounds_is_absent_not_fatal() {
    let e = square_entry("s", 30, 2, 5);
    // The south and east edges are inside the bounding box inclusively, but
    // land one pixel past the band.
    assert!(e.contain_point(0, 2));
    assert_eq!(e.get_altitude(0, 2), None);
    assert!(e.contain_point(-2, 0));
    assert_eq!(e.get_altitude(-2, 0), None);
    assert_eq!(e.get_altitude(1, 1), Some(5));
}

#[test]
fn pixel_indices_use_floor_semantics() {
    let src = source("s", 30);
    // Two units of ground per pixel: points at odd coordinates land in the
    // pixel whose index is the floor of the exact quotient.
    let d = Dataset {
        geo_transform: Some(GeoTransform {
            x0: -4,
            x_pixel: 2,
            x_rot: 0,
            y0: 4,
            y_rot: 0,
            y_pixel: -2,
        }),
        has_spatial_ref: true,
        width: 4,
        height: 4,
        no_data_value: Some(NO_DATA),
        band: (0..16).collect(),
    };
    let e = from_dataset(&src, d).unwrap();
    // (lat 4, lng -4): column 0, row 0.
    assert_eq!(e.get_altitude(4, -4), Some(0));
    // (lat 3, lng -3): exact column 0.5 -> 0, exact row 0.5 -> 0.
    assert_eq!(e.get_altitude(3, -3), Some(0));
    // (lat 1, lng 1): column floor(2.5) = 2, row floor(1.5) = 1.
    assert_eq!(e.get_altitude(1, 1), Some(6));
}

#[test]
fn missing_geotransform_is_rejected() {
    let mut d = square_dataset(2, 5);
    d.geo_transform = None;
    let r = from_dataset(&source("s", 30), d);
    assert_eq!(r.unwrap_err(), DatasetError::MissingGeoTransform);
}

#[test]
fn missing_spatial_ref_is_rejected() {
    let mut d = square_dataset(2, 5);
    d.has_spatial_ref = false;
    let r = from_dataset(&source("s", 30), d);
    assert_eq!(r.unwrap_err(), DatasetError::MissingSpatialRef);
}

#[test]
fn missing_no_data_value_is_rejected() {
    let mut d = square_dataset(2, 5);
    d.no_data_value = None;
    let r = from_dataset(&source("s", 30), d);
    assert_eq!(
        r.unwrap_err(),
        DatasetError::MissingNoDataValue(NoNoDataValueError {})
    );
}

#[test]
fn non_invertible_geotransform_is_rejected() {
    let mut d = square_dataset(2, 5);
    d.geo_transform = Some(GeoTransform {
        x0: 0,
        x_pixel: 2,
        x_rot: 1,
        y0: 0,
        y_rot: 2,
        y_pixel: 1,
    });
    let r = from_dataset(&source("s", 30), d);
    assert_eq!(r.unwrap_err(), DatasetError::InvalidGeoTransform);
}

#[test]
fn band_not_matching_dimensions_is_rejected() {
    let mut d = square_dataset(2, 5);
    d.band.pop();
    let r = from_dataset(&source("s", 30), d);
    assert_eq!(r.unwrap_err(), DatasetError::GeometryOutOfRange);
}

#[test]
fn oversized_coefficients_are_rejected() {
    let mut d = square_dataset(2, 5);
    d.geo_transform = Some(GeoTransform {
        x0: 2_000_000_000_000_000,
        x_pixel: 1,
        x_rot: 0,
        y0: 0,
        y_rot: 0,
        y_pixel: -1,
    });
    let r = from_dataset(&source("s", 30), d);
    assert_eq!(r.unwrap_err(), DatasetError::GeometryOutOfRange);
}
