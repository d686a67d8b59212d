use relevation::config::Source;
use relevation::server::cache::Cache;
use relevation::server::{Point, RelevationService};
use relevation::tree::entry::{Dataset, GeoTransform};
use relevation::tree::{ElevationResult, Tree};

const NO_DATA: i64 = -32768;

fn source(id: &str, resolution: usize) -> Source {
    Source {
        id: String::from(id),
        name: String::from(id),
        path: format!("/data/{}", id),
        resolution,
        link: None,
        attributions: None,
    }
}

fn square_dataset(half: i64, value: i64) -> Dataset {
    let side = (2 * half) as usize;
    Dataset {
        geo_transform: Some(GeoTransform {
            x0: -half,
            x_pixel: 1,
            x_rot: 0,
            y0: half,
            y_rot: 0,
            y_pixel: -1,
        }),
        has_spatial_ref: true,
        width: side,
        height: side,
        no_data_value: Some(NO_DATA),
        band: vec![value; side * side],
    }
}

fn nested_service(cache_size: usize) -> RelevationService {
    let mut tree = Tree::new();
    tree.load_source(&source("srtm30", 30), vec![square_dataset(10, 300)])
        .unwrap();
    tree.load_source(&source("srtm90", 90), vec![square_dataset(5, 900)])
        .unwrap();
    RelevationService::new(tree, cache_size)
}

fn result(r: &ElevationResult) -> (i64, String) {
    (r.elevation, r.dataset_id.clone())
}

#[test]
fn single_point_query_answers_like_the_index() {
    let mut service = nested_service(10);
    let r = service.get_elevation(0, 0, None).unwrap();
    assert_eq!(result(&r), (900, String::from("srtm90")));
    let r = service.get_elevation(8, 8, None).unwrap();
    assert_eq!(result(&r), (300, String::from("srtm30")));
    assert!(service.get_elevation(20, 20, None).is_none());
}

#[test]
fn identical_successive_queries_answer_identically() {
    let mut service = nested_service(10);
    let first = service
        .get_elevation(0, 0, Some(String::from("srtm90")))
        .unwrap();
    let second = service
        .get_elevation(0, 0, Some(String::from("srtm90")))
        .unwrap();
    assert_eq!(result(&first), result(&second));
    let first = service.get_elevation(3, 3, None).unwrap();
    let second = service.get_elevation(3, 3, None).unwrap();
    assert_eq!(result(&first), result(&second));
}

#[test]
fn batch_of_exactly_the_limit_succeeds() {
    let mut service = nested_service(100);
    let points: Vec<Point> = (0..10_000)
        .map(|i| Point {
            elv: None,
            lat: (i % 10) as i64,
            lng: ((i / 10) % 10) as i64 - 5,
            dataset_id: String::new(),
        })
        .collect();
    let out = service.get_elevations(&points).unwrap();
    assert_eq!(out.len(), 10_000);
    for p in &out {
        assert!(p.elv.is_some());
    }
}

#[test]
fn batch_over_the_limit_is_rejected_before_processing() {
    let mut service = nested_service(100);
    let points: Vec<Point> = (0..10_001)
        .map(|_| Point {
            elv: None,
            lat: 0,
            lng: 0,
            dataset_id: String::new(),
        })
        .collect();
    assert!(service.get_elevations(&points).is_err());
    // The one point the batch would have served first was never processed:
    // an in-range batch afterwards still computes it fresh.
    let ok = service.get_elevations(&vec![Point {
        elv: None,
        lat: 0,
        lng: 0,
        dataset_id: String::new(),
    }]);
    assert!(ok.is_ok());
}

#[test]
fn batch_reports_uncovered_points_with_dataset_none() {
    let mut service = nested_service(10);
    let points = vec![
        Point {
            elv: None,
            lat: 0,
            lng: 0,
            dataset_id: String::new(),
        },
        Point {
            elv: None,
            lat: 20,
            lng: 20,
            dataset_id: String::new(),
        },
        Point {
            elv: None,
            lat: 8,
            lng: 8,
            dataset_id: String::from("srtm30"),
        },
    ];
    let out = service.get_elevations(&points).unwrap();
    assert_eq!(out.len(), 3);
    assert_eq!(out[0].elv, Some(900));
    assert_eq!(out[0].dataset_id, "srtm90");
    assert_eq!(out[0].lat, 0);
    assert_eq!(out[0].lng, 0);
    assert_eq!(out[1].elv, None);
    assert_eq!(out[1].dataset_id, "none");
    assert_eq!(out[2].elv, Some(300));
    assert_eq!(out[2].dataset_id, "srtm30");
}

fn elev(v: i64, id: &str) -> ElevationResult {
    ElevationResult {
        elevation: v,
        dataset_id: String::from(id),
    }
}

#[test]
fn cache_hit_returns_the_stored_result() {
    let mut cache = Cache::new(4);
    cache.add(1, 2, elev(55, "a"));
    let hit = cache.get(1, 2, Some(String::from("a"))).unwrap();
    assert_eq!(hit.elevation, 55);
    assert_eq!(hit.dataset_id, "a");
    assert!(cache.get(9, 9, Some(String::from("a"))).is_none());
}

#[test]
fn cache_write_key_is_the_resolved_id_not_the_preference() {
    let mut cache = Cache::new(4);
    cache.add(1, 2, elev(55, "a"));
    // An unprefaced read and a read with a different preference use other
    // slots; only the preference equal to the resolved id collides.
    assert!(cache.get(1, 2, None).is_none());
    assert!(cache.get(1, 2, Some(String::from("b"))).is_none());
    assert!(cache.get(1, 2, Some(String::from("a"))).is_some());
}

#[test]
fn capacity_overflow_evicts_exactly_the_least_recently_touched() {
    let mut cache = Cache::new(2);
    cache.add(1, 1, elev(10, "a"));
    cache.add(2, 2, elev(20, "a"));
    // Touch the older entry so the other one becomes least-recently-used.
    assert!(cache.get(1, 1, Some(String::from("a"))).is_some());
    cache.add(3, 3, elev(30, "a"));
    // Exactly the least-recently-touched key is gone; the rest survive.
    assert!(cache.get(2, 2, Some(String::from("a"))).is_none());
    assert!(cache.get(1, 1, Some(String::from("a"))).is_some());
    assert!(cache.get(3, 3, Some(String::from("a"))).is_some());
}

#[test]
fn inserting_one_more_than_capacity_evicts_the_oldest() {
    let n: i64 = 5;
    let mut cache = Cache::new(n as usize);
    for i in 0..(n + 1) {
        cache.add(i, i, elev(i * 10, "a"));
    }
    // The first inserted key was the least-recently-touched one.
    assert!(cache.get(0, 0, Some(String::from("a"))).is_none());
    for i in 1..(n + 1) {
        let hit = cache.get(i, i, Some(String::from("a"))).unwrap();
        assert_eq!(hit.elevation, i * 10);
    }
}

#[test]
fn updating_an_existing_key_does_not_evict() {
    let mut cache = Cache::new(2);
    cache.add(1, 1, elev(10, "a"));
    cache.add(2, 2, elev(20, "a"));
    cache.add(1, 1, elev(11, "a"));
    let hit = cache.get(1, 1, Some(String::from("a"))).unwrap();
    assert_eq!(hit.elevation, 11);
    assert!(cache.get(2, 2, Some(String::from("a"))).is_some());
}
