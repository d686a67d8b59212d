use vstd::prelude::*;
use vstd::string::*;

pub mod cache;

use crate::server::cache::{
    spec_distinct_keys, spec_find_key, spec_promote, spec_put, spec_read_key, Cache, CacheSnapshot,
};
use crate::tree::entry::{clone_opt_string, Entry, COORD_LIMIT};
use crate::tree::errors::RangeError;
use crate::tree::{spec_lookup, spec_pref_view, ElevationResult, Tree};

verus! {

/// Largest number of points one batch request may carry.
pub const BATCH_LIMIT: usize = 10_000;

/// A point of a batch request or reply: coordinates, an optional elevation,
/// and a dataset id — on input the caller's preference (empty for none), on
/// output the id of the source that answered, or `none` when no source did.
#[derive(Debug, Clone)]
pub struct Point {
    pub elv: Option<i64>,
    pub lat: i64,
    pub lng: i64,
    pub dataset_id: String,
}

impl View for Point {
    type V = (Option<int>, int, int, Seq<char>);

    open spec fn view(&self) -> (Option<int>, int, int, Seq<char>) {
        (
            match self.elv {
                Some(v) => Some(v as int),
                None => None,
            },
            self.lat as int,
            self.lng as int,
            self.dataset_id@,
        )
    }
}

/// One lookup through the cache: a hit answers and promotes the entry; a miss
/// consults the index and stores a present result under the resolved id.
pub open spec fn spec_step(
    tree: Seq<Entry>,
    c: CacheSnapshot,
    cap: nat,
    lat: int,
    lng: int,
    pref: Option<Seq<char>>,
) -> (Option<(int, Seq<char>)>, CacheSnapshot) {
    let k = spec_read_key(lat, lng, pref);
    match spec_find_key(c, k) {
        Some(i) => (Some(c[i].1), spec_promote(c, i)),
        None => match spec_lookup(tree, lat, lng, pref) {
            Some(pv) => (Some(pv), spec_put(c, cap, (lat, lng, pv.1), pv)),
            None => (None, c),
        },
    }
}

/// The reply point for a query point and its lookup outcome.
pub open spec fn spec_out_point(pt: Point, rv: Option<(int, Seq<char>)>) -> (
    Option<int>,
    int,
    int,
    Seq<char>,
) {
    match rv {
        Some(pv) => (Some(pv.0), pt.lat as int, pt.lng as int, pv.1),
        None => (None, pt.lat as int, pt.lng as int, "none"@),
    }
}

/// A batch, processed strictly sequentially through the same cache.
pub open spec fn spec_batch(tree: Seq<Entry>, c: CacheSnapshot, cap: nat, pts: Seq<Point>) -> (
    Seq<(Option<int>, int, int, Seq<char>)>,
    CacheSnapshot,
)
    decreases pts.len(),
{
    if pts.len() == 0 {
        (Seq::empty(), c)
    } else {
        let step = spec_step(
            tree,
            c,
            cap,
            pts[0].lat as int,
            pts[0].lng as int,
            Some(pts[0].dataset_id@),
        );
        let rest = spec_batch(tree, step.1, cap, pts.drop_first());
        (seq![spec_out_point(pts[0], step.0)] + rest.0, rest.1)
    }
}

/// Processing one more point extends the batch outcome by one step.
proof fn lemma_batch_snoc(
    tree: Seq<Entry>,
    c: CacheSnapshot,
    cap: nat,
    pts: Seq<Point>,
    pt: Point,
)
    ensures
        ({
            let whole = spec_batch(tree, c, cap, pts.push(pt));
            let front = spec_batch(tree, c, cap, pts);
            let step = spec_step(tree, front.1, cap, pt.lat as int, pt.lng as int, Some(pt.dataset_id@));
            whole.0 == front.0.push(spec_out_point(pt, step.0)) && whole.1 == step.1
        }),
    decreases pts.len(),
{
    let whole = spec_batch(tree, c, cap, pts.push(pt));
    let front = spec_batch(tree, c, cap, pts);
    let step = spec_step(tree, front.1, cap, pt.lat as int, pt.lng as int, Some(pt.dataset_id@));
    if pts.len() == 0 {
        assert(pts.push(pt)[0] == pt);
        assert(pts.push(pt).drop_first() =~= Seq::<Point>::empty());
        assert(spec_batch(tree, step.1, cap, Seq::<Point>::empty()).0 == Seq::<(
            Option<int>,
            int,
            int,
            Seq<char>,
        )>::empty());
        assert(front.0 == Seq::<(Option<int>, int, int, Seq<char>)>::empty());
        assert(whole.0 =~= front.0.push(spec_out_point(pt, step.0)));
    } else {
        assert(pts.push(pt)[0] == pts[0]);
        assert(pts.push(pt).drop_first() =~= pts.drop_first().push(pt));
        let c1 = spec_step(
            tree,
            c,
            cap,
            pts[0].lat as int,
            pts[0].lng as int,
            Some(pts[0].dataset_id@),
        ).1;
        lemma_batch_snoc(tree, c1, cap, pts.drop_first(), pt);
        let front_rest = spec_batch(tree, c1, cap, pts.drop_first());
        assert(front.0 == seq![
            spec_out_point(
                pts[0],
                spec_step(
                    tree,
                    c,
                    cap,
                    pts[0].lat as int,
                    pts[0].lng as int,
                    Some(pts[0].dataset_id@),
                ).0,
            ),
        ] + front_rest.0);
        assert(front.1 == front_rest.1);
        assert(whole.0 == seq![
            spec_out_point(
                pts[0],
                spec_step(
                    tree,
                    c,
                    cap,
                    pts[0].lat as int,
                    pts[0].lng as int,
                    Some(pts[0].dataset_id@),
                ).0,
            ),
        ] + spec_batch(tree, c1, cap, pts.drop_first().push(pt)).0);
        assert(whole.0 =~= front.0.push(spec_out_point(pt, step.0)));
    }
}

/// Law: two identical successive lookups answer identically, whatever the
/// cache held before.
pub proof fn lemma_repeat_lookup_identical(
    tree: Seq<Entry>,
    c: CacheSnapshot,
    cap: nat,
    lat: int,
    lng: int,
    pref: Option<Seq<char>>,
)
    requires
        cap >= 1,
    ensures
        ({
            let first = spec_step(tree, c, cap, lat, lng, pref);
            let second = spec_step(tree, first.1, cap, lat, lng, pref);
            second.0 == first.0
        }),
{
    let k = spec_read_key(lat, lng, pref);
    let first = spec_step(tree, c, cap, lat, lng, pref);
    match spec_find_key(c, k) {
        Some(i) => {
            cache::lemma_find_key_props(c, k);
            assert(first.1 == spec_promote(c, i));
            assert(first.1[0] == c[i]);
            assert(spec_find_key(first.1, k) == Some(0int));
        },
        None => {
            match spec_lookup(tree, lat, lng, pref) {
                Some(pv) => {
                    let k2 = (lat, lng, pv.1);
                    assert(first.1 == spec_put(c, cap, k2, pv));
                    assert(first.1[0] == (k2, pv));
                    if k2 == k {
                        assert(spec_find_key(first.1, k) == Some(0int));
                    } else {
                        cache::lemma_find_key_props(c, k);
                        let tail = first.1.drop_first();
                        match spec_find_key(c, k2) {
                            Some(i) => {
                                cache::lemma_find_key_props(c, k2);
                                assert(tail =~= c.remove(i));
                                assert forall|j: int|
                                    0 <= j < tail.len() implies (#[trigger] tail[j]).0 != k by {
                                    if j < i {
                                        assert(c.remove(i)[j] == c[j]);
                                    } else {
                                        assert(c.remove(i)[j] == c[j + 1]);
                                    }
                                }
                            },
                            None => {
                                if c.len() < cap {
                                    assert(tail =~= c);
                                    assert forall|j: int|
                                        0 <= j < tail.len() implies (#[trigger] tail[j]).0
                                        != k by {}
                                } else {
                                    assert forall|j: int|
                                        0 <= j < tail.len() implies (#[trigger] tail[j]).0
                                        != k by {
                                        assert(tail[j] == first.1[j + 1]);
                                        assert(first.1[j + 1] == c.drop_last()[j]);
                                        assert(c.drop_last()[j] == c[j]);
                                    }
                                }
                            },
                        }
                        cache::lemma_find_key_absent(tail, k);
                        assert(spec_find_key(first.1, k) is None);
                    }
                },
                None => {},
            }
        },
    }
}

/// Law: after a lookup whose preference equals the id it resolved to, the
/// identical second lookup is answered from the cache — the raster read path
/// is not consulted again.
pub proof fn lemma_repeat_lookup_cached(
    tree: Seq<Entry>,
    c: CacheSnapshot,
    cap: nat,
    lat: int,
    lng: int,
    p: Seq<char>,
)
    requires
        spec_lookup(tree, lat, lng, Some(p)) matches Some(pv) && pv.1 == p,
    ensures
        spec_find_key(
            spec_step(tree, c, cap, lat, lng, Some(p)).1,
            spec_read_key(lat, lng, Some(p)),
        ) is Some,
{
    let k = spec_read_key(lat, lng, Some(p));
    let first = spec_step(tree, c, cap, lat, lng, Some(p));
    match spec_find_key(c, k) {
        Some(i) => {
            cache::lemma_find_key_props(c, k);
            assert(first.1 == spec_promote(c, i));
            assert(first.1[0] == c[i]);
            assert(spec_find_key(first.1, k) == Some(0int));
        },
        None => {
            let pv = spec_lookup(tree, lat, lng, Some(p))->Some_0;
            assert(first.1 == spec_put(c, cap, (lat, lng, pv.1), pv));
            assert(first.1[0] == ((lat, lng, pv.1), pv));
            assert(first.1[0].0 == k);
            assert(spec_find_key(first.1, k) == Some(0int));
        },
    }
}

/// The service facade: the immutable index behind the read-through cache.
/// The transport in front of it hands in plain coordinates and preferences
/// and guards the shared state with one lock around each cache operation.
pub struct RelevationService {
    pub tree: Tree,
    pub cache: Cache,
}

impl RelevationService {
    /// The index and the cache are both well-formed.
    pub open spec fn wf(self) -> bool {
        &&& self.tree.wf()
        &&& self.cache.wf()
    }

    /// New service over a loaded index, with an empty cache of the given
    /// capacity.
    pub fn new(tree: Tree, cache_size: usize) -> (r: RelevationService)
        requires
            cache_size >= 1,
        ensures
            r.tree == tree,
            r.cache@ == Seq::<((int, int, Seq<char>), (int, Seq<char>))>::empty(),
            r.cache.capacity() == cache_size as nat,
            tree.wf() ==> r.wf(),
    {
        RelevationService { tree, cache: Cache::new(cache_size) }
    }

    /// Elevation for a single point: consult the cache first; on a miss,
    /// resolve through the index and store a present result under the
    /// resolved dataset id.
    pub fn get_elevation(&mut self, lat: i64, lng: i64, dataset_id: Option<String>) -> (r: Option<
        ElevationResult,
    >)
        requires
            old(self).wf(),
            -COORD_LIMIT <= lat <= COORD_LIMIT,
            -COORD_LIMIT <= lng <= COORD_LIMIT,
        ensures
            final(self).wf(),
            final(self).tree == old(self).tree,
            final(self).cache.capacity() == old(self).cache.capacity(),
            ({
                let step = spec_step(
                    old(self).tree@,
                    old(self).cache@,
                    old(self).cache.capacity(),
                    lat as int,
                    lng as int,
                    spec_pref_view(dataset_id),
                );
                &&& match r {
                    Some(er) => step.0 == Some(er@),
                    None => step.0 is None,
                }
                &&& final(self).cache@ == step.1
            }),
    {
        let ghost c0 = self.cache@;
        let pref = clone_opt_string(&dataset_id);
        let cached = self.cache.get(lat, lng, pref);
        match cached {
            Some(v) => {
                proof {
                    let k = spec_read_key(lat as int, lng as int, spec_pref_view(dataset_id));
                    let i = spec_find_key(c0, k)->Some_0;
                    cache::lemma_find_key_props(c0, k);
                    cache::lemma_promote_preserves_wf(c0, i);
                }
                Some(v)
            },
            None => {
                let result = self.tree.get_altitude(lat, lng, dataset_id);
                match result {
                    Some(er) => {
                        let stored = ElevationResult {
                            elevation: er.elevation,
                            dataset_id: er.dataset_id.clone(),
                        };
                        self.cache.add(lat, lng, stored);
                        proof {
                            cache::lemma_put_preserves_wf(
                                c0,
                                old(self).cache.capacity(),
                                (lat as int, lng as int, er.dataset_id@),
                                er@,
                            );
                        }
                        Some(er)
                    },
                    None => None,
                }
            },
        }
    }

    /// Elevations for a batch of points, processed strictly sequentially. A
    /// batch beyond the limit is rejected with a range error before any point
    /// is processed, with no partial response. The reply has one point per
    /// query point, in order; a point no source answers comes back with no
    /// elevation and the dataset id `none`.
    #[verifier::loop_isolation(false)]
    pub fn get_elevations(&mut self, points: &Vec<Point>) -> (r: Result<Vec<Point>, RangeError>)
        requires
            old(self).wf(),
            forall|i: int|
                0 <= i < points@.len() ==> -COORD_LIMIT <= (#[trigger] points@[i]).lat
                    <= COORD_LIMIT && -COORD_LIMIT <= points@[i].lng <= COORD_LIMIT,
        ensures
            final(self).wf(),
            final(self).tree == old(self).tree,
            final(self).cache.capacity() == old(self).cache.capacity(),
            r is Err <==> points@.len() > BATCH_LIMIT,
            r is Err ==> final(self).cache@ == old(self).cache@,
            r matches Ok(out) ==> ({
                let batch = spec_batch(
                    old(self).tree@,
                    old(self).cache@,
                    old(self).cache.capacity(),
                    points@,
                );
                &&& out@.len() == points@.len()
                &&& out@.map_values(|p: Point| p@) == batch.0
                &&& final(self).cache@ == batch.1
            }),
    {
        if points.len() > BATCH_LIMIT {
            return Err(RangeError {  });
        }
        let ghost tree0 = self.tree@;
        let ghost c0 = self.cache@;
        let ghost cap = self.cache.capacity();
        let mut out: Vec<Point> = Vec::new();
        let mut i: usize = 0;
        while i < points.len()
            invariant
                i <= points@.len(),
                out@.len() == i,
                self.wf(),
                self.tree == old(self).tree,
                self.cache.capacity() == cap,
                out@.map_values(|p: Point| p@) == spec_batch(
                    tree0,
                    c0,
                    cap,
                    points@.take(i as int),
                ).0,
                self.cache@ == spec_batch(tree0, c0, cap, points@.take(i as int)).1,
            decreases points@.len() - i,
        {
            let pt_lat = points[i].lat;
            let pt_lng = points[i].lng;
            let pt_id = points[i].dataset_id.clone();
            let result = self.get_elevation(pt_lat, pt_lng, Some(pt_id));
            let out_pt = match result {
                Some(er) => Point {
                    elv: Some(er.elevation),
                    lat: pt_lat,
                    lng: pt_lng,
                    dataset_id: er.dataset_id,
                },
                None => Point {
                    elv: None,
                    lat: pt_lat,
                    lng: pt_lng,
                    dataset_id: String::from_str("none"),
                },
            };
            out.push(out_pt);
            proof {
                lemma_batch_snoc(tree0, c0, cap, points@.take(i as int), points@[i as int]);
                assert(points@.take(i as int).push(points@[i as int]) =~= points@.take(
                    i as int + 1,
                ));
                assert(out@.map_values(|p: Point| p@) =~= spec_batch(
                    tree0,
                    c0,
                    cap,
                    points@.take(i as int + 1),
                ).0);
            }
            i += 1;
        }
        proof {
            assert(points@.take(points@.len() as int) =~= points@);
        }
        Ok(out)
    }
}

} // verus!
