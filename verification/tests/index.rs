use relevation::config::{self, Source};
use relevation::tree::entry::{Dataset, GeoTransform};
use relevation::tree::errors::{DatasetError, LoadError};
use relevation::tree::scan::{check_root, has_geotif_extension};
use relevation::tree::Tree;

const NO_DATA: i64 = -32768;

fn source(id: &str, resolution: usize) -> Source {
    Source {
        id: String::from(id),
        name: String::from(id),
        path: format!("/data/{}", id),
        resolution,
        link: None,
        attributions: None,
    }
}

fn square_dataset(half: i64, value: i64) -> Dataset {
    let side = (2 * half) as usize;
    Dataset {
        geo_transform: Some(GeoTransform {
            x0: -half,
            x_pixel: 1,
            x_rot: 0,
            y0: half,
            y_rot: 0,
            y_pixel: -1,
        }),
        has_spatial_ref: true,
        width: side,
        height: side,
        no_data_value: Some(NO_DATA),
        band: vec![value; side * side],
    }
}

/// The nested pair of sources: "srtm30" (resolution 30) covering
/// (-10..10, -10..10) and "srtm90" (resolution 90) covering (-5..5, -5..5).
fn nested_tree() -> Tree {
    let mut tree = Tree::new();
    tree.load_source(&source("srtm30", 30), vec![square_dataset(10, 300)])
        .unwrap();
    tree.load_source(&source("srtm90", 90), vec![square_dataset(5, 900)])
        .unwrap();
    tree
}

#[test]
fn higher_resolution_wins_without_preference() {
    let tree = nested_tree();
    let r = tree.get_altitude(0, 0, None).unwrap();
    assert_eq!(r.dataset_id, "srtm90");
    assert_eq!(r.elevation, 900);
}

#[test]
fn only_covering_source_answers_outside_the_nest() {
    let tree = nested_tree();
    let r = tree.get_altitude(8, 8, None).unwrap();
    assert_eq!(r.dataset_id, "srtm30");
    assert_eq!(r.elevation, 300);
}

#[test]
fn point_outside_all_coverage_is_absent() {
    let tree = nested_tree();
    assert!(tree.get_altitude(20, 20, None).is_none());
}

#[test]
fn preference_overrides_resolution() {
    let tree = nested_tree();
    let r = tree
        .get_altitude(0, 0, Some(String::from("srtm30")))
        .unwrap();
    assert_eq!(r.dataset_id, "srtm30");
    assert_eq!(r.elevation, 300);
}

#[test]
fn unsatisfied_preference_falls_back_to_resolution() {
    let tree = nested_tree();
    let r = tree
        .get_altitude(0, 0, Some(String::from("no-such-source")))
        .unwrap();
    assert_eq!(r.dataset_id, "srtm90");
}

#[test]
fn empty_preference_means_no_preference() {
    let tree = nested_tree();
    let r = tree.get_altitude(0, 0, Some(String::new())).unwrap();
    assert_eq!(r.dataset_id, "srtm90");
}

#[test]
fn equal_resolution_tie_keeps_the_earliest_loaded() {
    let mut tree = Tree::new();
    tree.load_source(&source("first", 30), vec![square_dataset(10, 100)])
        .unwrap();
    tree.load_source(&source("second", 30), vec![square_dataset(10, 200)])
        .unwrap();
    let r = tree.get_altitude(0, 0, None).unwrap();
    assert_eq!(r.dataset_id, "first");
    assert_eq!(r.elevation, 100);
}

#[test]
fn find_entries_returns_all_in_load_order() {
    let tree = nested_tree();
    assert_eq!(tree.find_entries_containing_point(0, 0), vec![0, 1]);
    assert_eq!(tree.find_entries_containing_point(8, 8), vec![0]);
    assert!(tree.find_entries_containing_point(20, 20).is_empty());
}

#[test]
fn find_entry_resolves_or_is_absent() {
    let tree = nested_tree();
    assert_eq!(tree.find_entry_containing_point(0, 0, None), Some(1));
    assert_eq!(tree.find_entry_containing_point(8, 8, None), Some(0));
    assert_eq!(tree.find_entry_containing_point(20, 20, None), None);
    assert_eq!(
        tree.find_entry_containing_point(0, 0, Some(String::from("srtm30"))),
        Some(0)
    );
}

#[test]
fn load_source_fails_fast_and_loads_nothing() {
    let mut tree = Tree::new();
    let mut bad = square_dataset(5, 1);
    bad.no_data_value = None;
    let r = tree.load_source(&source("s", 30), vec![square_dataset(10, 1), bad]);
    assert!(matches!(
        r,
        Err(LoadError::Dataset(DatasetError::MissingNoDataValue(_)))
    ));
    // Nothing of the failed source was published.
    assert!(tree.get_altitude(0, 0, None).is_none());
}

#[test]
fn check_root_rejects_missing_and_non_directory_paths() {
    assert_eq!(check_root(false, false), Err(LoadError::RootMissing));
    assert_eq!(check_root(false, true), Err(LoadError::RootMissing));
    assert_eq!(check_root(true, false), Err(LoadError::RootNotDirectory));
    assert_eq!(check_root(true, true), Ok(()));
}

#[test]
fn geotif_extension_filter() {
    assert!(has_geotif_extension("n43_e005_1arc_v3.tif"));
    assert!(has_geotif_extension("a.tif"));
    assert!(!has_geotif_extension(".tif2"));
    assert!(!has_geotif_extension("tif"));
    assert!(!has_geotif_extension("archive.tar.gz"));
    assert!(!has_geotif_extension(""));
}

#[test]
fn default_config_values() {
    let c = config::new();
    assert_eq!(c.host, "127.0.0.1");
    assert_eq!(c.port, 50051);
    assert_eq!(c.cache_size, 10_000_000);
    assert!(c.sources.is_empty());
}

#[test]
fn host_joins_host_and_port() {
    let mut c = config::new();
    assert_eq!(c.host(), "127.0.0.1:50051");
    c.host = String::from("0.0.0.0");
    c.port = 80;
    assert_eq!(c.host(), "0.0.0.0:80");
    c.port = 65535;
    assert_eq!(c.host(), "0.0.0.0:65535");
    c.port = 0;
    assert_eq!(c.host(), "0.0.0.0:0");
}
