use vstd::prelude::*;

pub mod entry;
pub mod errors;
pub mod scan;

use crate::config::Source;
use crate::tree::entry::{from_dataset, spec_build_error, spec_entry_of, Dataset, Entry, COORD_LIMIT};
use crate::tree::errors::{DatasetError, LoadError};

verus! {

/// The resolved outcome of a successful lookup: the elevation in the raster's
/// integer sample units, and the id of the source that produced it.
#[derive(Debug, Clone)]
pub struct ElevationResult {
    pub elevation: i64,
    pub dataset_id: String,
}

impl View for ElevationResult {
    type V = (int, Seq<char>);

    open spec fn view(&self) -> (int, Seq<char>) {
        (self.elevation as int, self.dataset_id@)
    }
}

/// The spatial index: an insertion-ordered collection of entries, built once
/// at startup and immutable afterwards, that resolves a query point to the
/// best entry.
pub struct Tree {
    entries: Vec<Entry>,
}

/// The indices, in load order, of the entries among the first `n` whose
/// bounding box contains the point.
pub open spec fn spec_containing_prefix(s: Seq<Entry>, lat: int, lng: int, n: int) -> Seq<usize>
    recommends
        0 <= n <= s.len(),
    decreases n,
{
    if n <= 0 {
        Seq::empty()
    } else {
        let p = spec_containing_prefix(s, lat, lng, n - 1);
        if s[n - 1].spec_contains_point(lat, lng) {
            p.push((n - 1) as usize)
        } else {
            p
        }
    }
}

/// Some entry contains the point.
pub open spec fn spec_some_contains(s: Seq<Entry>, lat: int, lng: int) -> bool {
    exists|i: int| 0 <= i < s.len() && (#[trigger] s[i]).spec_contains_point(lat, lng)
}

/// The caller's dataset preference, as an abstract value.
pub open spec fn spec_pref_view(pref: Option<String>) -> Option<Seq<char>> {
    match pref {
        Some(p) => Some(p@),
        None => None,
    }
}

/// A preference was given and is non-empty.
pub open spec fn spec_pref_active(pref: Option<Seq<char>>) -> bool {
    pref matches Some(p) && p.len() > 0
}

/// An active preference names the source of some containing entry.
pub open spec fn spec_pref_hit(s: Seq<Entry>, lat: int, lng: int, pref: Option<Seq<char>>) -> bool {
    &&& spec_pref_active(pref)
    &&& exists|i: int|
        0 <= i < s.len() && (#[trigger] s[i]).spec_contains_point(lat, lng)
            && s[i].source.id@ == pref->Some_0
}

/// `j` is the entry the index resolves the query to: among containing
/// entries, the earliest one matching an active, satisfiable preference
/// (bypassing resolution comparison); otherwise the one with strictly
/// greatest source resolution, equal-resolution ties keeping the
/// earliest-loaded entry.
pub open spec fn spec_is_selected(
    s: Seq<Entry>,
    lat: int,
    lng: int,
    pref: Option<Seq<char>>,
    j: int,
) -> bool {
    &&& 0 <= j < s.len()
    &&& s[j].spec_contains_point(lat, lng)
    &&& if spec_pref_hit(s, lat, lng, pref) {
        &&& s[j].source.id@ == pref->Some_0
        &&& forall|i: int|
            0 <= i < j ==> !((#[trigger] s[i]).spec_contains_point(lat, lng)
                && s[i].source.id@ == pref->Some_0)
    } else {
        &&& forall|i: int|
            0 <= i < s.len() && (#[trigger] s[i]).spec_contains_point(lat, lng)
                ==> s[i].source.resolution <= s[j].source.resolution
        &&& forall|i: int|
            0 <= i < j && (#[trigger] s[i]).spec_contains_point(lat, lng)
                ==> s[i].source.resolution < s[j].source.resolution
    }
}

/// What a lookup resolves to: the selected entry's elevation and source id,
/// absent if no entry contains the point or the selected entry's sample is
/// absent.
pub open spec fn spec_lookup(s: Seq<Entry>, lat: int, lng: int, pref: Option<Seq<char>>) -> Option<
    (int, Seq<char>),
> {
    if spec_some_contains(s, lat, lng) {
        let j = choose|j: int| spec_is_selected(s, lat, lng, pref, j);
        match s[j].spec_altitude(lat, lng) {
            Some(v) => Some((v, s[j].source.id@)),
            None => None,
        }
    } else {
        None
    }
}

/// At most one entry is selected for a query.
pub proof fn lemma_selected_unique(
    s: Seq<Entry>,
    lat: int,
    lng: int,
    pref: Option<Seq<char>>,
    j1: int,
    j2: int,
)
    requires
        spec_is_selected(s, lat, lng, pref, j1),
        spec_is_selected(s, lat, lng, pref, j2),
    ensures
        j1 == j2,
{
    if spec_pref_hit(s, lat, lng, pref) {
        if j1 < j2 {
            assert(!(s[j1].spec_contains_point(lat, lng) && s[j1].source.id@ == pref->Some_0));
        } else if j2 < j1 {
            assert(!(s[j2].spec_contains_point(lat, lng) && s[j2].source.id@ == pref->Some_0));
        }
    } else {
        if j1 < j2 {
            assert(s[j1].source.resolution < s[j2].source.resolution);
            assert(s[j2].source.resolution <= s[j1].source.resolution);
        } else if j2 < j1 {
            assert(s[j2].source.resolution < s[j1].source.resolution);
            assert(s[j1].source.resolution <= s[j2].source.resolution);
        }
    }
}

/// Law: with no active preference, an entry that contains the point and
/// strictly out-resolves every other containing entry is the one selected,
/// and it is the only selected one.
pub proof fn lemma_highest_resolution_selected(
    s: Seq<Entry>,
    lat: int,
    lng: int,
    pref: Option<Seq<char>>,
    j: int,
)
    requires
        !spec_pref_active(pref),
        0 <= j < s.len(),
        s[j].spec_contains_point(lat, lng),
        forall|i: int|
            0 <= i < s.len() && i != j && (#[trigger] s[i]).spec_contains_point(lat, lng)
                ==> s[i].source.resolution < s[j].source.resolution,
    ensures
        spec_is_selected(s, lat, lng, pref, j),
        forall|k: int| spec_is_selected(s, lat, lng, pref, k) ==> k == j,
{
    assert(!spec_pref_hit(s, lat, lng, pref));
    assert forall|k: int| spec_is_selected(s, lat, lng, pref, k) implies k == j by {
        lemma_selected_unique(s, lat, lng, pref, j, k);
    }
}

/// Law: the lookup answers with the strictly highest-resolution covering
/// entry's source id when no preference is given and that entry's sample is
/// present.
pub proof fn lemma_lookup_highest_resolution(
    s: Seq<Entry>,
    lat: int,
    lng: int,
    pref: Option<Seq<char>>,
    j: int,
)
    requires
        !spec_pref_active(pref),
        0 <= j < s.len(),
        s[j].spec_contains_point(lat, lng),
        forall|i: int|
            0 <= i < s.len() && i != j && (#[trigger] s[i]).spec_contains_point(lat, lng)
                ==> s[i].source.resolution < s[j].source.resolution,
        s[j].spec_altitude(lat, lng) is Some,
    ensures
        spec_lookup(s, lat, lng, pref) == Some(
            (s[j].spec_altitude(lat, lng)->Some_0, s[j].source.id@),
        ),
{
    lemma_highest_resolution_selected(s, lat, lng, pref, j);
    let jj = choose|jj: int| spec_is_selected(s, lat, lng, pref, jj);
    assert(spec_is_selected(s, lat, lng, pref, jj));
    lemma_selected_unique(s, lat, lng, pref, j, jj);
}

/// Law: an active preference equal to a covering entry's source id selects
/// the earliest such entry, whatever the resolutions of the other covering
/// entries are.
pub proof fn lemma_preference_selected(s: Seq<Entry>, lat: int, lng: int, p: Seq<char>, j: int)
    requires
        p.len() > 0,
        0 <= j < s.len(),
        s[j].spec_contains_point(lat, lng),
        s[j].source.id@ == p,
        forall|i: int|
            0 <= i < j ==> !((#[trigger] s[i]).spec_contains_point(lat, lng) && s[i].source.id@
                == p),
    ensures
        spec_is_selected(s, lat, lng, Some(p), j),
        forall|k: int| spec_is_selected(s, lat, lng, Some(p), k) ==> k == j,
{
    assert(spec_pref_hit(s, lat, lng, Some(p)));
    assert forall|k: int| spec_is_selected(s, lat, lng, Some(p), k) implies k == j by {
        lemma_selected_unique(s, lat, lng, Some(p), j, k);
    }
}

/// Law: the lookup answers with the preferred covering entry's source id when
/// its sample is present, even when a higher-resolution entry also covers the
/// point.
pub proof fn lemma_lookup_preference(s: Seq<Entry>, lat: int, lng: int, p: Seq<char>, j: int)
    requires
        p.len() > 0,
        0 <= j < s.len(),
        s[j].spec_contains_point(lat, lng),
        s[j].source.id@ == p,
        forall|i: int|
            0 <= i < j ==> !((#[trigger] s[i]).spec_contains_point(lat, lng) && s[i].source.id@
                == p),
        s[j].spec_altitude(lat, lng) is Some,
    ensures
        spec_lookup(s, lat, lng, Some(p)) == Some(
            (s[j].spec_altitude(lat, lng)->Some_0, s[j].source.id@),
        ),
{
    lemma_preference_selected(s, lat, lng, p, j);
    let jj = choose|jj: int| spec_is_selected(s, lat, lng, Some(p), jj);
    assert(spec_is_selected(s, lat, lng, Some(p), jj));
    lemma_selected_unique(s, lat, lng, Some(p), j, jj);
}

/// The first rejection among a sequence of rasters, in order, if any.
pub open spec fn spec_first_build_error(ds: Seq<Dataset>) -> Option<DatasetError>
    decreases ds.len(),
{
    if ds.len() == 0 {
        None
    } else {
        match spec_build_error(ds[0]) {
            Some(e) => Some(e),
            None => spec_first_build_error(ds.drop_first()),
        }
    }
}

/// A clean prefix does not change the first rejection.
proof fn lemma_first_build_error_skip(ds: Seq<Dataset>, i: int)
    requires
        0 <= i <= ds.len(),
        forall|k: int| 0 <= k < i ==> spec_build_error(#[trigger] ds[k]) is None,
    ensures
        spec_first_build_error(ds) == spec_first_build_error(ds.skip(i)),
    decreases i,
{
    if i > 0 {
        assert(ds.drop_first() =~= ds.skip(1));
        lemma_first_build_error_skip(ds.skip(1), i - 1);
        assert(ds.skip(1).skip(i - 1) =~= ds.skip(i));
    } else {
        assert(ds.skip(0) =~= ds);
    }
}

impl View for Tree {
    type V = Seq<Entry>;

    closed spec fn view(&self) -> Seq<Entry> {
        self.entries@
    }
}

impl Default for Tree {
    fn default() -> (r: Self)
        ensures
            r@ == Seq::<Entry>::empty(),
    {
        Tree::new()
    }
}

impl Tree {
    /// Every entry is well-formed.
    pub open spec fn wf(self) -> bool {
        forall|i: int| 0 <= i < self@.len() ==> (#[trigger] self@[i]).wf()
    }

    /// A new, empty index.
    pub fn new() -> (r: Tree)
        ensures
            r@ == Seq::<Entry>::empty(),
    {
        Tree { entries: Vec::new() }
    }

    /// Appends one entry per raster of the source, in discovery order.
    /// Fail-fast: the first rejected raster fails the whole call and leaves
    /// the index unchanged, so no partial load is ever published.
    #[verifier::loop_isolation(false)]
    pub fn load_source(&mut self, source: &Source, datasets: Vec<Dataset>) -> (r: Result<
        (),
        LoadError,
    >)
        ensures
            r is Ok <==> spec_first_build_error(datasets@) is None,
            r is Ok ==> final(self)@ == old(self)@ + datasets@.map(
                |k: int, d: Dataset| spec_entry_of(*source, d),
            ),
            r matches Err(e) ==> final(self)@ == old(self)@ && (spec_first_build_error(datasets@)
                matches Some(de) && e == LoadError::Dataset(de)),
            old(self).wf() ==> final(self).wf(),
    {
        let ghost ds0: Seq<Dataset> = datasets@;
        let mut rest = datasets;
        let mut built: Vec<Entry> = Vec::new();
        while rest.len() > 0
            invariant
                built@.len() + rest@.len() == ds0.len(),
                rest@ =~= ds0.skip(built@.len() as int),
                forall|k: int|
                    0 <= k < built@.len() ==> spec_build_error(#[trigger] ds0[k]) is None,
                forall|k: int|
                    0 <= k < built@.len() ==> #[trigger] built@[k] == spec_entry_of(
                        *source,
                        ds0[k],
                    ) && built@[k].wf(),
            decreases rest@.len(),
        {
            let ghost i: int = built@.len() as int;
            let d = rest.remove(0);
            proof {
                assert(d == ds0[i]);
            }
            match from_dataset(source, d) {
                Ok(e) => {
                    built.push(e);
                    proof {
                        assert(rest@ =~= ds0.skip(i + 1));
                    }
                },
                Err(de) => {
                    proof {
                        lemma_first_build_error_skip(ds0, i);
                        assert(ds0.skip(i)[0] == ds0[i]);
                        assert(spec_build_error(ds0[i]) == Some(de));
                        assert(spec_first_build_error(ds0.skip(i)) == Some(de));
                        assert(spec_first_build_error(ds0) == Some(de));
                    }
                    return Err(LoadError::Dataset(de));
                },
            }
        }
        proof {
            lemma_first_build_error_skip(ds0, ds0.len() as int);
            assert(ds0.skip(ds0.len() as int) =~= Seq::<Dataset>::empty());
            assert(built@ =~= ds0.map(|k: int, d: Dataset| spec_entry_of(*source, d)));
        }
        let ghost built0: Seq<Entry> = built@;
        self.entries.append(&mut built);
        proof {
            if old(self).wf() {
                assert forall|i: int| 0 <= i < self@.len() implies (#[trigger] self@[i]).wf() by {
                    if i < old(self)@.len() {
                        assert(self@[i] == old(self)@[i]);
                    } else {
                        assert(self@[i] == built0[i - old(self)@.len()]);
                    }
                }
            }
        }
        Ok(())
    }

    /// All entries whose bounding box contains the point, as indices in load
    /// order.
    pub fn find_entries_containing_point(&self, lat: i64, lng: i64) -> (r: Vec<usize>)
        ensures
            r@ == spec_containing_prefix(self@, lat as int, lng as int, self@.len() as int),
    {
        let mut result: Vec<usize> = Vec::new();
        let n = self.entries.len();
        let mut i: usize = 0;
        while i < n
            invariant
                n == self@.len(),
                i <= n,
                result@ == spec_containing_prefix(self@, lat as int, lng as int, i as int),
            decreases n - i,
        {
            if self.entries[i].contain_point(lat, lng) {
                result.push(i);
            }
            i += 1;
        }
        result
    }

    /// Resolves the query to the entry that answers it: the earliest covering
    /// entry matching an active, satisfiable preference, else the covering
    /// entry with strictly greatest resolution (ties keep the earliest-loaded
    /// one); absent when no entry covers the point.
    #[verifier::loop_isolation(false)]
    pub fn find_entry_containing_point(
        &self,
        lat: i64,
        lng: i64,
        dataset_id: Option<String>,
    ) -> (r: Option<usize>)
        ensures
            r matches Some(j) ==> spec_is_selected(
                self@,
                lat as int,
                lng as int,
                spec_pref_view(dataset_id),
                j as int,
            ),
            r is None <==> !spec_some_contains(self@, lat as int, lng as int),
    {
        let n = self.entries.len();
        if let Some(p) = &dataset_id {
            if p.unicode_len() > 0 {
                let mut i: usize = 0;
                while i < n
                    invariant
                        n == self@.len(),
                        i <= n,
                        spec_pref_view(dataset_id) matches Some(pv) && pv == p@,
                        forall|k: int|
                            0 <= k < i ==> !((#[trigger] self@[k]).spec_contains_point(
                                lat as int,
                                lng as int,
                            ) && self@[k].source.id@ == p@),
                    decreases n - i,
                {
                    if self.entries[i].contain_point(lat, lng) && self.entries[i].source.id == *p {
                        proof {
                            assert(self@[i as int].spec_contains_point(lat as int, lng as int));
                            assert(self@[i as int].source.id@ == p@);
                            assert(spec_pref_hit(
                                self@,
                                lat as int,
                                lng as int,
                                spec_pref_view(dataset_id),
                            ));
                            assert(spec_is_selected(
                                self@,
                                lat as int,
                                lng as int,
                                spec_pref_view(dataset_id),
                                i as int,
                            ));
                        }
                        return Some(i);
                    }
                    i += 1;
                }
            }
        }
        proof {
            assert(!spec_pref_hit(self@, lat as int, lng as int, spec_pref_view(dataset_id)));
        }
        let mut best: Option<usize> = None;
        let mut i: usize = 0;
        while i < n
            invariant
                n == self@.len(),
                i <= n,
                !spec_pref_hit(self@, lat as int, lng as int, spec_pref_view(dataset_id)),
                match best {
                    Some(b) => {
                        &&& (b as int) < (i as int)
                        &&& self@[b as int].spec_contains_point(lat as int, lng as int)
                        &&& forall|k: int|
                            0 <= k < i && (#[trigger] self@[k]).spec_contains_point(
                                lat as int,
                                lng as int,
                            ) ==> self@[k].source.resolution <= self@[b as int].source.resolution
                        &&& forall|k: int|
                            0 <= k < b as int && (#[trigger] self@[k]).spec_contains_point(
                                lat as int,
                                lng as int,
                            ) ==> self@[k].source.resolution < self@[b as int].source.resolution
                    },
                    None => forall|k: int|
                        0 <= k < i ==> !(#[trigger] self@[k]).spec_contains_point(
                            lat as int,
                            lng as int,
                        ),
                },
            decreases n - i,
        {
            if self.entries[i].contain_point(lat, lng) {
                match best {
                    None => { best = Some(i) },
                    Some(b) => {
                        if self.entries[i].source.resolution > self.entries[b].source.resolution {
                            best = Some(i);
                        }
                    },
                }
            }
            i += 1;
        }
        best
    }

    /// Resolves the query point to an elevation: selects the best covering
    /// entry, samples it, and combines a present sample with the resolved
    /// source id. Absence at either stage collapses to absence.
    pub fn get_altitude(&self, lat: i64, lng: i64, dataset_id: Option<String>) -> (r: Option<
        ElevationResult,
    >)
        requires
            self.wf(),
            -COORD_LIMIT <= lat <= COORD_LIMIT,
            -COORD_LIMIT <= lng <= COORD_LIMIT,
        ensures
            r matches Some(er) ==> spec_lookup(
                self@,
                lat as int,
                lng as int,
                spec_pref_view(dataset_id),
            ) == Some(er@),
            r is None ==> spec_lookup(self@, lat as int, lng as int, spec_pref_view(dataset_id))
                is None,
    {
        let ghost pv = spec_pref_view(dataset_id);
        let found = self.find_entry_containing_point(lat, lng, dataset_id);
        match found {
            Some(j) => {
                proof {
                    let jj = choose|jj: int| spec_is_selected(self@, lat as int, lng as int, pv, jj);
                    assert(spec_is_selected(self@, lat as int, lng as int, pv, j as int));
                    assert(spec_is_selected(self@, lat as int, lng as int, pv, jj));
                    lemma_selected_unique(self@, lat as int, lng as int, pv, j as int, jj);
                }
                let elevation = self.entries[j].get_altitude(lat, lng);
                match elevation {
                    Some(v) => Some(
                        ElevationResult {
                            elevation: v,
                            dataset_id: self.entries[j].source.id.clone(),
                        },
                    ),
                    None => None,
                }
            },
            None => None,
        }
    }
}

} // verus!
