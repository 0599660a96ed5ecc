//! The columnar feature store: a flat point buffer, a per-feature offset
//! table delimiting each feature's point range, an optional time-interval
//! column, and named text and numeric attribute columns, all kept aligned to
//! the same feature count.

use crate::iterators::RangeIteratorAdapter;
use crate::mask::count_true;
use crate::mask::filter_by;
use crate::mask::kept_index;
use crate::mask::lemma_count_true_all;
use crate::mask::lemma_count_true_le;
use crate::mask::lemma_filter_by_all_true;
use crate::mask::lemma_filter_by_len;
use crate::mask::lemma_filter_by_push;
use crate::mask::lemma_kept_index_all_true;
use vstd::prelude::*;
use vstd::slice::slice_to_vec;

verus! {

/// A two-dimensional coordinate. Each axis holds the raw bit pattern of an
/// IEEE-754 double-precision number; the store never computes with
/// coordinates, it only keeps and hands them back.
#[derive(Clone, Copy, PartialEq, Eq, Structural, Debug)]
pub struct Point {
    pub x: u64,
    pub y: u64,
}

/// An ordered sequence of coordinates forming one multi-point geometry.
#[derive(Clone, PartialEq, Debug)]
pub struct MultiPoint(pub Vec<Point>);

/// The geometry of one feature, shaped by its collection's geometry kind.
#[derive(Clone, PartialEq, Debug)]
pub enum Geometry {
    Point(Point),
    MultiPoint(MultiPoint),
}

/// The fixed shape a collection is specialized for: every feature of a
/// collection holds one geometry of this kind.
#[derive(Clone, Copy, PartialEq, Eq, Debug)]
pub enum GeometryKind {
    Point,
    MultiPoint,
}

/// A span of time attached to a feature. The bounds are instants, counted as
/// milliseconds from an epoch; an absent bound leaves that side unbounded,
/// and a fully absent pair means "always".
#[derive(Clone, Copy, PartialEq, Eq, Debug)]
pub struct TimeInterval {
    start: Option<i64>,
    end: Option<i64>,
}

impl TimeInterval {
    /// The instant the span begins, if bounded below.
    pub closed spec fn start_instant(self) -> Option<i64> {
        self.start
    }

    /// The instant the span ends, if bounded above.
    pub closed spec fn end_instant(self) -> Option<i64> {
        self.end
    }

    pub fn new(start: Option<i64>, end: Option<i64>) -> (t: TimeInterval)
        ensures
            t.start_instant() == start,
            t.end_instant() == end,
    {
        TimeInterval { start, end }
    }

    pub fn start(&self) -> (s: &Option<i64>)
        ensures
            *s == self.start_instant(),
    {
        &self.start
    }

    pub fn end(&self) -> (e: &Option<i64>)
        ensures
            *e == self.end_instant(),
    {
        &self.end
    }
}

/// One named attribute: a key and the value stored under it.
pub struct Entry<V> {
    pub key: String,
    pub value: V,
}

/// No key occurs twice.
pub open spec fn unique_keys<V>(entries: Seq<Entry<V>>) -> bool {
    forall|i: int, j: int|
        0 <= i < j < entries.len() ==> entries[i].key@ != entries[j].key@
}

/// Some entry carries this key.
pub open spec fn contains_key<V>(entries: Seq<Entry<V>>, key: Seq<char>) -> bool {
    exists|i: int| 0 <= i < entries.len() && entries[i].key@ == key
}

/// The value stored under a key that some entry carries.
pub open spec fn value_of<V>(entries: Seq<Entry<V>>, key: Seq<char>) -> V {
    entries[choose|i: int| 0 <= i < entries.len() && entries[i].key@ == key].value
}

/// Under unique keys, the entry at a matching index is the lookup result.
pub proof fn lemma_value_of<V>(entries: Seq<Entry<V>>, key: Seq<char>, i: int)
    requires
        unique_keys(entries),
        0 <= i < entries.len(),
        entries[i].key@ == key,
    ensures
        contains_key(entries, key),
        value_of(entries, key) == entries[i].value,
{
    let j = choose|j: int| 0 <= j < entries.len() && entries[j].key@ == key;
    if j != i {
        assert(entries[i].key@ != entries[j].key@ || entries[j].key@ != entries[i].key@);
    }
}

/// Relies on `str`'s `PartialEq`: two string slices are equal exactly when
/// their character sequences are.
#[verifier::external_body]
fn str_eq(a: &str, b: &str) -> (r: bool)
    ensures
        r == (a@ == b@),
{
    a == b
}

/// Linear lookup in an attribute list with unique keys.
fn find_entry<'e, V>(entries: &'e Vec<Entry<V>>, key: &str) -> (r: Option<&'e V>)
    requires
        unique_keys(entries@),
    ensures
        (r is Some <==> contains_key(entries@, key@)),
        r matches Some(v) ==> *v == value_of(entries@, key@),
{
    let n = entries.len();
    for i in 0..n
        invariant
            n == entries@.len(),
            unique_keys(entries@),
            forall|m: int| 0 <= m < i ==> entries@[m].key@ != key@,
    {
        if str_eq(entries[i].key.as_str(), key) {
            proof {
                lemma_value_of(entries@, key@, i as int);
            }
            return Some(&entries[i].value);
        }
    }
    None
}

/// Offsets never step backwards.
pub open spec fn non_decreasing(s: Seq<usize>) -> bool {
    forall|i: int, j: int| 0 <= i <= j < s.len() ==> s[i] <= s[j]
}

/// The columnar store. One geometry kind for its lifetime; the offset table
/// is the backbone all other columns stay aligned to.
pub struct FeatureCollection {
    kind: GeometryKind,
    start_feature: Vec<usize>,
    points: Vec<Point>,
    time: Vec<TimeInterval>,
    global_text: Vec<Entry<String>>,
    global_numeric: Vec<Entry<u64>>,
    text: Vec<Entry<Vec<String>>>,
    numeric: Vec<Entry<Vec<u64>>>,
}

impl FeatureCollection {
    /// The declared geometry kind.
    pub closed spec fn geometry_kind(self) -> GeometryKind {
        self.kind
    }

    /// The offset table: entry `i` and entry `i + 1` delimit feature `i`'s
    /// point range; the final entry equals the point count.
    pub closed spec fn offsets(self) -> Seq<usize> {
        self.start_feature@
    }

    /// The flat, shared point buffer.
    pub closed spec fn point_buffer(self) -> Seq<Point> {
        self.points@
    }

    /// The time column: empty, or one interval per feature.
    pub closed spec fn time_column(self) -> Seq<TimeInterval> {
        self.time@
    }

    /// The collection-wide text attributes.
    pub closed spec fn global_text_map(self) -> Seq<Entry<String>> {
        self.global_text@
    }

    /// The collection-wide numeric attributes. A numeric value is the raw
    /// bit pattern of an IEEE-754 double.
    pub closed spec fn global_numeric_map(self) -> Seq<Entry<u64>> {
        self.global_numeric@
    }

    /// The per-feature text columns.
    pub closed spec fn text_map(self) -> Seq<Entry<Vec<String>>> {
        self.text@
    }

    /// The per-feature numeric columns.
    pub closed spec fn numeric_map(self) -> Seq<Entry<Vec<u64>>> {
        self.numeric@
    }

    /// One fewer than the offset table's length.
    pub open spec fn feature_count(self) -> int {
        self.offsets().len() - 1
    }

    /// The points of feature `i`: the sub-range of the point buffer its
    /// consecutive offsets delimit.
    pub open spec fn feature_points(self, i: int) -> Seq<Point> {
        self.point_buffer().subrange(self.offsets()[i] as int, self.offsets()[i + 1] as int)
    }

    /// The alignment invariant every operation preserves: the offset table
    /// starts at zero, never steps backwards, and ends at the point count;
    /// a Point-kind table is the identity mapping; the time column is empty
    /// or one entry per feature; every attribute column holds one value per
    /// feature; and no attribute name occurs twice.
    pub open spec fn wf(self) -> bool {
        &&& self.offsets().len() >= 1
        &&& self.offsets()[0] == 0
        &&& non_decreasing(self.offsets())
        &&& self.offsets().last() as int == self.point_buffer().len()
        &&& (self.geometry_kind() == GeometryKind::Point ==> forall|i: int|
            0 <= i < self.offsets().len() ==> self.offsets()[i] as int == i)
        &&& (self.time_column().len() == 0 || self.time_column().len() == self.feature_count())
        &&& unique_keys(self.global_text_map())
        &&& unique_keys(self.global_numeric_map())
        &&& unique_keys(self.text_map())
        &&& unique_keys(self.numeric_map())
        &&& (forall|k: int|
            0 <= k < self.text_map().len() ==> self.text_map()[k].value@.len()
                == self.feature_count())
        &&& (forall|k: int|
            0 <= k < self.numeric_map().len() ==> self.numeric_map()[k].value@.len()
                == self.feature_count())
    }

    pub fn get_feature_count(&self) -> (n: usize)
        requires
            self.wf(),
        ensures
            n as int == self.feature_count(),
    {
        self.start_feature.len() - 1
    }

    /// The lazy sequence of per-feature point ranges, drawn from the offset
    /// table.
    pub fn feature_indizes_iter<'s>(&'s self) -> (it: RangeIteratorAdapter<'s>)
        ensures
            it.inv(),
            it.offsets() == self.offsets(),
            it.position() == 0,
    {
        RangeIteratorAdapter::new(self.start_feature.as_slice())
    }

    pub fn get_time(&self, index: usize) -> (r: Option<&TimeInterval>)
        ensures
            (r is Some <==> (index as int) < self.time_column().len()),
            r matches Some(t) ==> *t == self.time_column()[index as int],
    {
        if index < self.time.len() {
            Some(&self.time[index])
        } else {
            None
        }
    }

    pub fn set_time(&mut self, index: usize, time: TimeInterval) -> (r: Result<(), ()>)
        ensures
            (r is Ok <==> (index as int) < old(self).time_column().len()),
            r is Ok ==> final(self).time_column() == old(self).time_column().update(
                index as int,
                time,
            ),
            r is Err ==> final(self).time_column() == old(self).time_column(),
            only_time_changed(*old(self), *final(self)),
            old(self).wf() ==> final(self).wf(),
    {
        if index < self.time.len() {
            self.time[index] = time;
            Ok(())
        } else {
            Err(())
        }
    }

    pub fn has_time(&self) -> (r: bool)
        requires
            self.wf(),
        ensures
            r == (self.time_column().len() == self.feature_count()),
    {
        self.time.len() == self.start_feature.len() - 1
    }

    pub fn get_global_text<'s>(&'s self, key: &str) -> (r: Option<&'s str>)
        requires
            self.wf(),
        ensures
            (r is Some <==> contains_key(self.global_text_map(), key@)),
            r matches Some(s) ==> s@ == value_of(self.global_text_map(), key@)@,
    {
        match find_entry(&self.global_text, key) {
            Some(v) => Some(v.as_str()),
            None => None,
        }
    }

    pub fn get_global_numeric<'s>(&'s self, key: &str) -> (r: Option<&'s u64>)
        requires
            self.wf(),
        ensures
            (r is Some <==> contains_key(self.global_numeric_map(), key@)),
            r matches Some(v) ==> *v == value_of(self.global_numeric_map(), key@),
    {
        find_entry(&self.global_numeric, key)
    }

    pub fn get_text<'s>(&'s self, index: usize, key: &str) -> (r: Option<&'s str>)
        requires
            self.wf(),
        ensures
            (r is Some <==> contains_key(self.text_map(), key@) && (index as int) < value_of(
                self.text_map(),
                key@,
            )@.len()),
            r matches Some(s) ==> s@ == value_of(self.text_map(), key@)@[index as int]@,
    {
        match find_entry(&self.text, key) {
            Some(column) => {
                if index < column.len() {
                    Some(column[index].as_str())
                } else {
                    None
                }
            },
            None => None,
        }
    }

    pub fn get_numeric<'s>(&'s self, index: usize, key: &str) -> (r: Option<&'s u64>)
        requires
            self.wf(),
        ensures
            (r is Some <==> contains_key(self.numeric_map(), key@) && (index as int) < value_of(
                self.numeric_map(),
                key@,
            )@.len()),
            r matches Some(v) ==> *v == value_of(self.numeric_map(), key@)@[index as int],
    {
        match find_entry(&self.numeric, key) {
            Some(column) => {
                if index < column.len() {
                    Some(&column[index])
                } else {
                    None
                }
            },
            None => None,
        }
    }
}

impl FeatureCollection {
    /// `g` is the geometry of feature `i`, reconstructed as the collection's
    /// kind dictates: a Point-kind feature is the single point at its own
    /// index, a MultiPoint-kind feature is a copy of its whole point range.
    pub open spec fn is_geom_at(self, i: int, g: Geometry) -> bool {
        match g {
            Geometry::Point(p) => self.geometry_kind() == GeometryKind::Point
                && p == self.point_buffer()[i],
            Geometry::MultiPoint(mp) => self.geometry_kind() == GeometryKind::MultiPoint
                && mp.0@ == self.feature_points(i),
        }
    }

    /// The geometry of the feature at `index`, or nothing when `index` is
    /// out of bounds. The result is an owned copy, never a view into the
    /// collection's own storage.
    pub fn get_geom(&self, index: usize) -> (g: Option<Geometry>)
        requires
            self.wf(),
        ensures
            (g is Some <==> (index as int) < self.feature_count()),
            g matches Some(geom) ==> self.is_geom_at(index as int, geom),
    {
        match self.kind {
            GeometryKind::Point => {
                if index < self.points.len() {
                    Some(Geometry::Point(self.points[index]))
                } else {
                    assert(self.offsets().last() as int == self.offsets().len() - 1);
                    None
                }
            },
            GeometryKind::MultiPoint => {
                if index < self.start_feature.len() - 1 {
                    let start = self.start_feature[index];
                    let end = self.start_feature[index + 1];
                    let mut range_points: Vec<Point> = Vec::new();
                    let mut k = start;
                    while k < end
                        invariant
                            self.wf(),
                            (index as int) + 1 < self.offsets().len(),
                            start == self.offsets()[index as int],
                            end == self.offsets()[index as int + 1],
                            start <= k <= end,
                            end <= self.point_buffer().len(),
                            range_points@ == self.point_buffer().subrange(
                                start as int,
                                k as int,
                            ),
                        decreases end - k,
                    {
                        range_points.push(self.points[k]);
                        k = k + 1;
                        proof {
                            assert(self.point_buffer().subrange(start as int, k as int)
                                =~= self.point_buffer().subrange(start as int, k - 1).push(
                                self.point_buffer()[k - 1],
                            ));
                        }
                    }
                    Some(Geometry::MultiPoint(MultiPoint(range_points)))
                } else {
                    None
                }
            },
        }
    }

    /// A fresh geometry cursor over this collection, starting at the first
    /// feature.
    pub fn geom_iter<'c>(&'c self) -> (it: GeomIter<'c>)
        ensures
            it.collection() == *self,
            it.position() == 0,
    {
        GeomIter::new(self)
    }
}

/// A cursor yielding one geometry per feature, in feature order. It borrows
/// the collection read-only, so no mutation can happen while it lives and it
/// can never read stale storage.
pub struct GeomIter<'c> {
    feature_collection: &'c FeatureCollection,
    index: usize,
}

impl<'c> GeomIter<'c> {
    /// The collection iterated over.
    pub closed spec fn collection(self) -> FeatureCollection {
        *self.feature_collection
    }

    /// How many geometries have been yielded so far.
    pub closed spec fn position(self) -> int {
        self.index as int
    }

    fn new(feature_collection: &'c FeatureCollection) -> (it: GeomIter<'c>)
        ensures
            it.collection() == *feature_collection,
            it.position() == 0,
    {
        GeomIter { feature_collection, index: 0 }
    }

    /// Yields the geometry of the next feature and advances, or nothing once
    /// every feature has been yielded.
    pub fn next(&mut self) -> (g: Option<Geometry>)
        requires
            old(self).collection().wf(),
        ensures
            final(self).collection() == old(self).collection(),
            (g is Some <==> old(self).position() < old(self).collection().feature_count()),
            g matches Some(geom) ==> {
                &&& old(self).collection().is_geom_at(old(self).position(), geom)
                &&& final(self).position() == old(self).position() + 1
            },
            g is None ==> final(self).position() == old(self).position(),
    {
        let feature_collection = self.feature_collection;
        if self.index < feature_collection.get_feature_count() {
            let g = feature_collection.get_geom(self.index);
            self.index = self.index + 1;
            g
        } else {
            None
        }
    }
}

/// A Point-kind collection stores one point per feature, so a collection
/// built from a point buffer yields under geometry iteration exactly that
/// buffer: it has one feature per point, and the geometry at index `i` is
/// the `i`-th point.
pub proof fn lemma_point_geometry_round_trip(c: FeatureCollection, i: int, g: Geometry)
    requires
        c.wf(),
        c.geometry_kind() == GeometryKind::Point,
        0 <= i < c.feature_count(),
        c.is_geom_at(i, g),
    ensures
        c.feature_count() == c.point_buffer().len(),
        g == Geometry::Point(c.point_buffer()[i]),
{
    assert(c.offsets().last() as int == c.offsets().len() - 1);
}

/// A usable offset table: it starts at zero, never steps backwards, and its
/// final entry equals the point count.
pub open spec fn valid_offset_table(offsets: Seq<usize>, point_count: int) -> bool {
    &&& offsets.len() >= 1
    &&& offsets[0] == 0
    &&& non_decreasing(offsets)
    &&& offsets.last() as int == point_count
}

/// A table whose consecutive entries never step backwards never steps
/// backwards at any distance.
proof fn lemma_step_le(s: Seq<usize>, i: int, j: int)
    requires
        forall|k: int| 0 <= k < s.len() - 1 ==> #[trigger] s[k] <= s[k + 1],
        0 <= i <= j < s.len(),
    ensures
        s[i] <= s[j],
    decreases j - i,
{
    if i < j {
        lemma_step_le(s, i, j - 1);
    }
}

proof fn lemma_adjacent_non_decreasing(s: Seq<usize>)
    requires
        forall|k: int| 0 <= k < s.len() - 1 ==> #[trigger] s[k] <= s[k + 1],
    ensures
        non_decreasing(s),
{
    assert forall|i: int, j: int| 0 <= i <= j < s.len() implies s[i] <= s[j] by {
        lemma_step_le(s, i, j);
    }
}

impl FeatureCollection {
    /// Builds a Point-kind collection from a flat coordinate buffer and, if
    /// supplied, one time interval per point. A time column of any other
    /// length is a validation error and constructs nothing. On success the
    /// offset table is the identity mapping, one point per feature, and all
    /// attribute maps start empty.
    pub fn new(points: &[Point], time: Option<&[TimeInterval]>) -> (r: Result<
        FeatureCollection,
        (),
    >)
        requires
            points@.len() < usize::MAX,
        ensures
            (r is Ok <==> (match time {
                Some(t) => t@.len() == points@.len(),
                None => true,
            })),
            r matches Ok(c) ==> {
                &&& c.wf()
                &&& c.geometry_kind() == GeometryKind::Point
                &&& c.point_buffer() == points@
                &&& c.feature_count() == points@.len()
                &&& c.time_column() == (match time {
                    Some(t) => t@,
                    None => Seq::<TimeInterval>::empty(),
                })
                &&& c.global_text_map().len() == 0
                &&& c.global_numeric_map().len() == 0
                &&& c.text_map().len() == 0
                &&& c.numeric_map().len() == 0
            },
    {
        if let Some(time_intervals) = time {
            if time_intervals.len() != points.len() {
                return Err(());
            }
        }
        let n = points.len();
        let mut start_feature: Vec<usize> = Vec::new();
        let mut i: usize = 0;
        while i <= n
            invariant
                n == points@.len(),
                n < usize::MAX,
                i <= n + 1,
                start_feature@.len() == i,
                forall|j: int| 0 <= j < i ==> start_feature@[j] as int == j,
            decreases n + 1 - i,
        {
            start_feature.push(i);
            i = i + 1;
        }
        let time_column: Vec<TimeInterval> = match time {
            Some(time_intervals) => slice_to_vec(time_intervals),
            None => Vec::new(),
        };
        Ok(
            FeatureCollection {
                kind: GeometryKind::Point,
                start_feature,
                points: slice_to_vec(points),
                time: time_column,
                global_text: Vec::new(),
                global_numeric: Vec::new(),
                text: Vec::new(),
                numeric: Vec::new(),
            },
        )
    }

    /// Builds a MultiPoint-kind collection from a point buffer and an offset
    /// table supplied by an external reader. The table must be a valid
    /// backbone and the time column, if supplied, must hold one interval per
    /// feature; otherwise construction fails with a validation error.
    pub fn new_multi_point(
        points: &[Point],
        start_feature: &[usize],
        time: Option<&[TimeInterval]>,
    ) -> (r: Result<FeatureCollection, ()>)
        ensures
            (r is Ok <==> valid_offset_table(start_feature@, points@.len() as int) && (match time {
                Some(t) => t@.len() == start_feature@.len() - 1,
                None => true,
            })),
            r matches Ok(c) ==> {
                &&& c.wf()
                &&& c.geometry_kind() == GeometryKind::MultiPoint
                &&& c.point_buffer() == points@
                &&& c.offsets() == start_feature@
                &&& c.feature_count() == start_feature@.len() - 1
                &&& c.time_column() == (match time {
                    Some(t) => t@,
                    None => Seq::<TimeInterval>::empty(),
                })
                &&& c.global_text_map().len() == 0
                &&& c.global_numeric_map().len() == 0
                &&& c.text_map().len() == 0
                &&& c.numeric_map().len() == 0
            },
    {
        let n = start_feature.len();
        if n == 0 {
            return Err(());
        }
        if start_feature[0] != 0 {
            return Err(());
        }
        let mut i: usize = 0;
        while i < n - 1
            invariant
                n == start_feature@.len(),
                n >= 1,
                i <= n - 1,
                forall|k: int| 0 <= k < i ==> #[trigger] start_feature@[k] <= start_feature@[k + 1],
            decreases n - 1 - i,
        {
            if start_feature[i] > start_feature[i + 1] {
                return Err(());
            }
            i = i + 1;
        }
        proof {
            lemma_adjacent_non_decreasing(start_feature@);
        }
        if start_feature[n - 1] != points.len() {
            return Err(());
        }
        if let Some(time_intervals) = time {
            if time_intervals.len() != n - 1 {
                return Err(());
            }
        }
        let time_column: Vec<TimeInterval> = match time {
            Some(time_intervals) => slice_to_vec(time_intervals),
            None => Vec::new(),
        };
        Ok(
            FeatureCollection {
                kind: GeometryKind::MultiPoint,
                start_feature: slice_to_vec(start_feature),
                points: slice_to_vec(points),
                time: time_column,
                global_text: Vec::new(),
                global_numeric: Vec::new(),
                text: Vec::new(),
                numeric: Vec::new(),
            },
        )
    }
}

impl FeatureCollection {
    /// Retains exactly the features whose flag is true, compacting every
    /// column coherently: the time column and each attribute column are
    /// filtered by the mask, the point buffer and the offset table are
    /// rebuilt from the retained features' point ranges, and the relative
    /// order of retained features is preserved. An all-true mask leaves the
    /// collection unchanged. The mask must hold one flag per feature; that
    /// is a demand on the caller, not a recoverable condition.
    pub fn filter_inplace(&mut self, to_keep: &[bool])
        requires
            old(self).wf(),
            to_keep@.len() == old(self).feature_count(),
        ensures
            final(self).wf(),
            final(self).geometry_kind() == old(self).geometry_kind(),
            final(self).feature_count() == count_true(to_keep@),
            final(self).time_column() == filter_by(old(self).time_column(), to_keep@),
            final(self).global_text_map() == old(self).global_text_map(),
            final(self).global_numeric_map() == old(self).global_numeric_map(),
            final(self).text_map().len() == old(self).text_map().len(),
            forall|k: int|
                0 <= k < old(self).text_map().len() ==> (#[trigger] final(self).text_map()[k]).key
                    == old(self).text_map()[k].key && final(self).text_map()[k].value@
                    == filter_by(old(self).text_map()[k].value@, to_keep@),
            final(self).numeric_map().len() == old(self).numeric_map().len(),
            forall|k: int|
                0 <= k < old(self).numeric_map().len() ==> (#[trigger] final(self).numeric_map()[k]).key == old(self).numeric_map()[k].key && final(self).numeric_map()[k].value@ == filter_by(
                    old(self).numeric_map()[k].value@,
                    to_keep@,
                ),
            forall|j: int|
                0 <= j < count_true(to_keep@) ==> #[trigger] final(self).feature_points(j) == old(self).feature_points(kept_index(to_keep@, j)),
            count_true(to_keep@) == to_keep@.len() ==> {
                &&& final(self).offsets() == old(self).offsets()
                &&& final(self).point_buffer() == old(self).point_buffer()
                &&& final(self).time_column() == old(self).time_column()
                &&& final(self).text_map() == old(self).text_map()
                &&& final(self).numeric_map() == old(self).numeric_map()
            },
    {
        let count = self.get_feature_count();
        let kept = count_kept(to_keep);
        if kept == count {
            proof {
                lemma_count_true_all(to_keep@);
                if self.time_column().len() == to_keep@.len() {
                    lemma_filter_by_all_true(self.time_column(), to_keep@);
                } else {
                    assert(self.time_column().len() == 0);
                    assert(filter_by(self.time_column(), to_keep@) =~= self.time_column());
                }
                assert forall|k: int| 0 <= k < self.text_map().len() implies (#[trigger] self
                    .text_map()[k]).value@ == filter_by(
                    self.text_map()[k].value@,
                    to_keep@,
                ) by {
                    lemma_filter_by_all_true(self.text_map()[k].value@, to_keep@);
                }
                assert forall|k: int| 0 <= k < self.numeric_map().len() implies (#[trigger] self
                    .numeric_map()[k]).value@ == filter_by(
                    self.numeric_map()[k].value@,
                    to_keep@,
                ) by {
                    lemma_filter_by_all_true(self.numeric_map()[k].value@, to_keep@);
                }
                assert forall|j: int| 0 <= j < count_true(to_keep@) implies #[trigger] self
                    .feature_points(j) == self.feature_points(kept_index(to_keep@, j)) by {
                    lemma_kept_index_all_true(to_keep@, j);
                }
            }
            return ;
        }
        let new_time = if self.time.len() == to_keep.len() {
            filter_vec(&self.time, to_keep)
        } else {
            Vec::new()
        };
        proof {
            if self.time_column().len() != to_keep@.len() {
                assert(filter_by(self.time_column(), to_keep@) =~= new_time@);
            }
        }
        let new_text = filter_text_columns(&self.text, to_keep);
        let new_numeric = filter_numeric_columns(&self.numeric, to_keep);
        let rebuilt = rebuild_geometry(&self.start_feature, &self.points, to_keep);
        self.time = new_time;
        self.text = new_text;
        self.numeric = new_numeric;
        self.start_feature = rebuilt.0;
        self.points = rebuilt.1;
        proof {
            lemma_count_true_le(to_keep@);
            assert(count_true(to_keep@) != to_keep@.len());
            if old(self).time_column().len() == to_keep@.len() {
                lemma_filter_by_len(old(self).time_column(), to_keep@);
            }
            assert forall|k: int| 0 <= k < self.text_map().len() implies (#[trigger] self
                .text_map()[k]).value@.len() == count_true(to_keep@) by {
                lemma_filter_by_len(old(self).text_map()[k].value@, to_keep@);
            }
            assert forall|k: int| 0 <= k < self.numeric_map().len() implies (#[trigger] self
                .numeric_map()[k]).value@.len() == count_true(to_keep@) by {
                lemma_filter_by_len(old(self).numeric_map()[k].value@, to_keep@);
            }
            assert forall|j: int| 0 <= j < count_true(to_keep@) implies #[trigger] self
                .feature_points(j) == old(self).feature_points(kept_index(to_keep@, j)) by {
                assert(self.feature_points(j) == range_of(
                    self.point_buffer(),
                    self.offsets(),
                    j,
                ));
                assert(old(self).feature_points(kept_index(to_keep@, j)) == range_of(
                    old(self).point_buffer(),
                    old(self).offsets(),
                    kept_index(to_keep@, j),
                ));
            }
        }
    }
}

/// The points of feature `i` under an offset table: the sub-range of the
/// buffer that the feature's consecutive offsets delimit.
pub open spec fn range_of(points: Seq<Point>, offsets: Seq<usize>, i: int) -> Seq<Point> {
    points.subrange(offsets[i] as int, offsets[i + 1] as int)
}

/// Counts the true flags of a mask.
fn count_kept(keep: &[bool]) -> (c: usize)
    ensures
        c as int == count_true(keep@),
{
    let mut c: usize = 0;
    let n = keep.len();
    for i in 0..n
        invariant
            n == keep@.len(),
            c <= i,
            c as int == count_true(keep@.take(i as int)),
    {
        proof {
            assert(keep@.take(i as int + 1).drop_last() =~= keep@.take(i as int));
        }
        if keep[i] {
            c = c + 1;
        }
    }
    proof {
        assert(keep@.take(n as int) =~= keep@);
    }
    c
}

/// Retains the flagged elements of a column of copyable values, in order.
fn filter_vec<A: Copy>(v: &Vec<A>, keep: &[bool]) -> (out: Vec<A>)
    requires
        v@.len() == keep@.len(),
    ensures
        out@ == filter_by(v@, keep@),
{
    let mut out: Vec<A> = Vec::new();
    let n = v.len();
    for i in 0..n
        invariant
            n == v@.len(),
            v@.len() == keep@.len(),
            out@ == filter_by(v@.take(i as int), keep@.take(i as int)),
    {
        proof {
            lemma_filter_by_push(v@.take(i as int), keep@.take(i as int), v@[i as int], keep@[i as int]);
            assert(v@.take(i as int).push(v@[i as int]) =~= v@.take(i as int + 1));
            assert(keep@.take(i as int).push(keep@[i as int]) =~= keep@.take(i as int + 1));
        }
        if keep[i] {
            out.push(v[i]);
        }
    }
    proof {
        assert(v@.take(n as int) =~= v@);
        assert(keep@.take(n as int) =~= keep@);
    }
    out
}

/// Retains the flagged elements of a text column, in order.
fn filter_strings(v: &Vec<String>, keep: &[bool]) -> (out: Vec<String>)
    requires
        v@.len() == keep@.len(),
    ensures
        out@ == filter_by(v@, keep@),
{
    let mut out: Vec<String> = Vec::new();
    let n = v.len();
    for i in 0..n
        invariant
            n == v@.len(),
            v@.len() == keep@.len(),
            out@ == filter_by(v@.take(i as int), keep@.take(i as int)),
    {
        proof {
            lemma_filter_by_push(v@.take(i as int), keep@.take(i as int), v@[i as int], keep@[i as int]);
            assert(v@.take(i as int).push(v@[i as int]) =~= v@.take(i as int + 1));
            assert(keep@.take(i as int).push(keep@[i as int]) =~= keep@.take(i as int + 1));
        }
        if keep[i] {
            out.push(v[i].clone());
        }
    }
    proof {
        assert(v@.take(n as int) =~= v@);
        assert(keep@.take(n as int) =~= keep@);
    }
    out
}

/// Rebuilds every text column under the mask, keys untouched.
fn filter_text_columns(columns: &Vec<Entry<Vec<String>>>, keep: &[bool]) -> (out: Vec<
    Entry<Vec<String>>,
>)
    requires
        forall|k: int| 0 <= k < columns@.len() ==> (#[trigger] columns@[k].value)@.len()
            == keep@.len(),
    ensures
        out@.len() == columns@.len(),
        forall|k: int|
            0 <= k < out@.len() ==> (#[trigger] out@[k]).key == columns@[k].key
                && out@[k].value@ == filter_by(columns@[k].value@, keep@),
{
    let mut out: Vec<Entry<Vec<String>>> = Vec::new();
    let n = columns.len();
    for k in 0..n
        invariant
            n == columns@.len(),
            forall|m: int| 0 <= m < columns@.len() ==> (#[trigger] columns@[m].value)@.len()
                == keep@.len(),
            out@.len() == k,
            forall|m: int|
                0 <= m < k ==> (#[trigger] out@[m]).key == columns@[m].key
                    && out@[m].value@ == filter_by(columns@[m].value@, keep@),
    {
        let filtered = filter_strings(&columns[k].value, keep);
        out.push(Entry { key: columns[k].key.clone(), value: filtered });
    }
    out
}

/// Rebuilds every numeric column under the mask, keys untouched.
fn filter_numeric_columns(columns: &Vec<Entry<Vec<u64>>>, keep: &[bool]) -> (out: Vec<
    Entry<Vec<u64>>,
>)
    requires
        forall|k: int| 0 <= k < columns@.len() ==> (#[trigger] columns@[k].value)@.len()
            == keep@.len(),
    ensures
        out@.len() == columns@.len(),
        forall|k: int|
            0 <= k < out@.len() ==> (#[trigger] out@[k]).key == columns@[k].key
                && out@[k].value@ == filter_by(columns@[k].value@, keep@),
{
    let mut out: Vec<Entry<Vec<u64>>> = Vec::new();
    let n = columns.len();
    for k in 0..n
        invariant
            n == columns@.len(),
            forall|m: int| 0 <= m < columns@.len() ==> (#[trigger] columns@[m].value)@.len()
                == keep@.len(),
            out@.len() == k,
            forall|m: int|
                0 <= m < k ==> (#[trigger] out@[m]).key == columns@[m].key
                    && out@[m].value@ == filter_by(columns@[m].value@, keep@),
    {
        let filtered = filter_vec(&columns[k].value, keep);
        out.push(Entry { key: columns[k].key.clone(), value: filtered });
    }
    out
}

/// Rebuilds the point buffer and the offset table together under the mask:
/// each retained feature's whole point range is appended to a fresh buffer,
/// its new start offset recorded first, and one final sentinel offset equal
/// to the new point count closes the table.
fn rebuild_geometry(offsets: &Vec<usize>, points: &Vec<Point>, keep: &[bool]) -> (r: (
    Vec<usize>,
    Vec<Point>,
))
    requires
        offsets@.len() == keep@.len() + 1,
        offsets@[0] == 0,
        non_decreasing(offsets@),
        offsets@.last() as int == points@.len(),
    ensures
        r.0@.len() == count_true(keep@) + 1,
        r.0@[0] == 0,
        non_decreasing(r.0@),
        r.0@.last() as int == r.1@.len(),
        forall|j: int|
            0 <= j < count_true(keep@) ==> #[trigger] range_of(r.1@, r.0@, j) == range_of(
                points@,
                offsets@,
                kept_index(keep@, j),
            ),
        (forall|i: int| 0 <= i < offsets@.len() ==> #[trigger] offsets@[i] as int == i) ==> (
        forall|i: int| 0 <= i < r.0@.len() ==> #[trigger] r.0@[i] as int == i),
{
    let ghost identity: bool = forall|i: int|
        0 <= i < offsets@.len() ==> #[trigger] offsets@[i] as int == i;
    let mut new_offsets: Vec<usize> = Vec::new();
    let mut new_points: Vec<Point> = Vec::new();
    let n = keep.len();
    for i in 0..n
        invariant
            n == keep@.len(),
            offsets@.len() == n + 1,
            offsets@[0] == 0,
            non_decreasing(offsets@),
            offsets@.last() as int == points@.len(),
            identity == (forall|m: int|
                0 <= m < offsets@.len() ==> #[trigger] offsets@[m] as int == m),
            new_offsets@.len() == count_true(keep@.take(i as int)),
            new_points@.len() <= usize::MAX,
            forall|m: int| 0 <= m < new_offsets@.len() ==> #[trigger] new_offsets@[m] as int
                <= new_points@.len(),
            non_decreasing(new_offsets@),
            new_offsets@.len() == 0 ==> new_points@.len() == 0,
            new_offsets@.len() > 0 ==> new_offsets@[0] == 0,
            forall|j: int|
                0 <= j < new_offsets@.len() ==> #[trigger] range_of(
                    new_points@,
                    new_offsets@.push(new_points@.len() as usize),
                    j,
                ) == range_of(points@, offsets@, kept_index(keep@.take(i as int), j)),
            identity ==> new_points@.len() == new_offsets@.len() && (forall|m: int|
                0 <= m < new_offsets@.len() ==> #[trigger] new_offsets@[m] as int == m),
    {
        proof {
            assert(keep@.take(i as int + 1).drop_last() =~= keep@.take(i as int));
            lemma_count_true_le(keep@.take(i as int));
        }
        if keep[i] {
            let ghost pre_offsets = new_offsets@;
            let ghost pre_points = new_points@;
            let new_start = new_points.len();
            new_offsets.push(new_start);
            assert(offsets@[i as int] <= offsets@[i as int + 1]);
            assert(offsets@[i as int + 1] <= offsets@[n as int]);
            let start = offsets[i];
            let end = offsets[i + 1];
            let mut k = start;
            while k < end
                invariant
                    start <= k <= end,
                    end as int <= points@.len(),
                    new_points@ == pre_points + points@.subrange(start as int, k as int),
                decreases end - k,
            {
                new_points.push(points[k]);
                k = k + 1;
                proof {
                    assert(points@.subrange(start as int, k as int) =~= points@.subrange(
                        start as int,
                        k - 1,
                    ).push(points@[k - 1]));
                }
            }
            let cur_len = new_points.len();
            proof {
                let kc = pre_offsets.len() as int;
                let np = pre_points.len() as int;
                let appended = points@.subrange(start as int, end as int);
                assert(new_points@.len() == cur_len as int);
                assert(new_points@.len() as usize as int == new_points@.len());
                assert(new_points@ == pre_points + appended);
                assert(new_offsets@ == pre_offsets.push(new_start));
                // the mask prefix grew by a true flag
                assert(count_true(keep@.take(i as int + 1)) == kc + 1);
                // every previously built range is still the same sub-range
                let virt_pre = pre_offsets.push(np as usize);
                let virt_post = new_offsets@.push(new_points@.len() as usize);
                assert forall|j: int| 0 <= j < kc + 1 implies #[trigger] range_of(
                    new_points@,
                    virt_post,
                    j,
                ) == range_of(points@, offsets@, kept_index(keep@.take(i as int + 1), j)) by {
                    if j < kc {
                        assert(kept_index(keep@.take(i as int + 1), j) == kept_index(
                            keep@.take(i as int),
                            j,
                        ));
                        assert(virt_post[j] == virt_pre[j]);
                        assert(virt_post[j + 1] == virt_pre[j + 1]);
                        assert(virt_pre[j + 1] as int <= np);
                        assert(range_of(new_points@, virt_post, j) =~= range_of(
                            pre_points,
                            virt_pre,
                            j,
                        ));
                    } else {
                        assert(kept_index(keep@.take(i as int + 1), j) == i as int);
                        assert(virt_post[j] as int == np);
                        assert(virt_post[j + 1] as int == np + appended.len());
                        assert(range_of(new_points@, virt_post, j) =~= appended);
                        assert(range_of(points@, offsets@, i as int) == appended);
                    }
                }
                if identity {
                    assert(end as int == i as int + 1 && start as int == i as int);
                    assert(appended.len() == 1);
                }
            }
        } else {
            proof {
                assert(count_true(keep@.take(i as int + 1)) == new_offsets@.len());
                assert forall|j: int| 0 <= j < new_offsets@.len() implies kept_index(
                    keep@.take(i as int + 1),
                    j,
                ) == kept_index(keep@.take(i as int), j) by {}
            }
        }
    }
    proof {
        assert(keep@.take(n as int) =~= keep@);
    }
    let total = new_points.len();
    let ghost pre_sentinel = new_offsets@;
    new_offsets.push(total);
    proof {
        lemma_count_true_le(keep@);
        assert(new_points@.len() as usize == total);
        assert(new_offsets@ == pre_sentinel.push(new_points@.len() as usize));
        assert forall|j: int| 0 <= j < count_true(keep@) implies #[trigger] range_of(
            new_points@,
            new_offsets@,
            j,
        ) == range_of(points@, offsets@, kept_index(keep@, j)) by {
            assert(range_of(new_points@, pre_sentinel.push(new_points@.len() as usize), j)
                == range_of(points@, offsets@, kept_index(keep@.take(n as int), j)));
        }
    }
    (new_offsets, new_points)
}

/// The attribute list after storing `value` under `key`: the entry already
/// carrying the key is replaced, or a new entry is appended.
pub open spec fn upsert<V>(entries: Seq<Entry<V>>, key: String, value: V) -> Seq<Entry<V>> {
    if contains_key(entries, key@) {
        entries.update(
            choose|i: int| 0 <= i < entries.len() && entries[i].key@ == key@,
            Entry { key, value },
        )
    } else {
        entries.push(Entry { key, value })
    }
}

/// Linear search for the position of a key.
fn find_index<V>(entries: &Vec<Entry<V>>, key: &str) -> (r: Option<usize>)
    ensures
        (r is Some <==> contains_key(entries@, key@)),
        r matches Some(i) ==> (i as int) < entries@.len() && entries@[i as int].key@ == key@,
{
    let n = entries.len();
    for i in 0..n
        invariant
            n == entries@.len(),
            forall|m: int| 0 <= m < i ==> entries@[m].key@ != key@,
    {
        if str_eq(entries[i].key.as_str(), key) {
            return Some(i);
        }
    }
    None
}

/// Under unique keys, upserting at the found position is an update there.
proof fn lemma_upsert_at<V>(entries: Seq<Entry<V>>, key: String, value: V, i: int)
    requires
        unique_keys(entries),
        0 <= i < entries.len(),
        entries[i].key@ == key@,
    ensures
        upsert(entries, key, value) == entries.update(i, Entry { key, value }),
        unique_keys(upsert(entries, key, value)),
{
    lemma_value_of(entries, key@, i);
    let c = choose|c: int| 0 <= c < entries.len() && entries[c].key@ == key@;
    if c != i {
        assert(entries[i].key@ != entries[c].key@ || entries[c].key@ != entries[i].key@);
    }
    let updated = entries.update(i, Entry { key, value });
    assert forall|a: int, b: int| 0 <= a < b < updated.len() implies updated[a].key@
        != updated[b].key@ by {
        assert(entries[a].key@ != entries[b].key@);
    }
}

/// Appending a fresh key keeps the keys unique.
proof fn lemma_upsert_fresh<V>(entries: Seq<Entry<V>>, key: String, value: V)
    requires
        unique_keys(entries),
        !contains_key(entries, key@),
    ensures
        upsert(entries, key, value) == entries.push(Entry { key, value }),
        unique_keys(upsert(entries, key, value)),
{
    let pushed = entries.push(Entry { key, value });
    assert forall|a: int, b: int| 0 <= a < b < pushed.len() implies pushed[a].key@
        != pushed[b].key@ by {
        if b < entries.len() {
            assert(entries[a].key@ != entries[b].key@);
        } else {
            assert(!(0 <= a < entries.len() && entries[a].key@ == key@));
        }
    }
}

/// The geometry columns and the time column are the same in both states.
pub open spec fn same_geometry_and_time(pre: FeatureCollection, post: FeatureCollection) -> bool {
    &&& post.geometry_kind() == pre.geometry_kind()
    &&& post.offsets() == pre.offsets()
    &&& post.point_buffer() == pre.point_buffer()
    &&& post.time_column() == pre.time_column()
}

impl FeatureCollection {
    /// Stores a collection-wide text attribute, replacing any value already
    /// held under the key.
    pub fn set_global_text(&mut self, key: String, value: String)
        requires
            old(self).wf(),
        ensures
            final(self).wf(),
            final(self).global_text_map() == upsert(old(self).global_text_map(), key, value),
            same_geometry_and_time(*old(self), *final(self)),
            final(self).global_numeric_map() == old(self).global_numeric_map(),
            final(self).text_map() == old(self).text_map(),
            final(self).numeric_map() == old(self).numeric_map(),
    {
        match find_index(&self.global_text, key.as_str()) {
            Some(i) => {
                proof {
                    lemma_upsert_at(self.global_text@, key, value, i as int);
                }
                self.global_text[i] = Entry { key, value };
            },
            None => {
                proof {
                    lemma_upsert_fresh(self.global_text@, key, value);
                }
                self.global_text.push(Entry { key, value });
            },
        }
    }

    /// Stores a collection-wide numeric attribute, replacing any value
    /// already held under the key.
    pub fn set_global_numeric(&mut self, key: String, value: u64)
        requires
            old(self).wf(),
        ensures
            final(self).wf(),
            final(self).global_numeric_map() == upsert(
                old(self).global_numeric_map(),
                key,
                value,
            ),
            same_geometry_and_time(*old(self), *final(self)),
            final(self).global_text_map() == old(self).global_text_map(),
            final(self).text_map() == old(self).text_map(),
            final(self).numeric_map() == old(self).numeric_map(),
    {
        match find_index(&self.global_numeric, key.as_str()) {
            Some(i) => {
                proof {
                    lemma_upsert_at(self.global_numeric@, key, value, i as int);
                }
                self.global_numeric[i] = Entry { key, value };
            },
            None => {
                proof {
                    lemma_upsert_fresh(self.global_numeric@, key, value);
                }
                self.global_numeric.push(Entry { key, value });
            },
        }
    }

    /// Attaches a per-feature text column, replacing any column already held
    /// under the key. A column of any length other than one value per
    /// feature is rejected and nothing changes.
    pub fn set_text(&mut self, key: String, values: Vec<String>) -> (r: Result<(), ()>)
        requires
            old(self).wf(),
        ensures
            final(self).wf(),
            (r is Ok <==> values@.len() == old(self).feature_count()),
            r is Ok ==> final(self).text_map() == upsert(old(self).text_map(), key, values),
            r is Err ==> final(self).text_map() == old(self).text_map(),
            same_geometry_and_time(*old(self), *final(self)),
            final(self).global_text_map() == old(self).global_text_map(),
            final(self).global_numeric_map() == old(self).global_numeric_map(),
            final(self).numeric_map() == old(self).numeric_map(),
    {
        if values.len() != self.get_feature_count() {
            return Err(());
        }
        match find_index(&self.text, key.as_str()) {
            Some(i) => {
                proof {
                    lemma_upsert_at(self.text@, key, values, i as int);
                }
                self.text[i] = Entry { key, value: values };
            },
            None => {
                proof {
                    lemma_upsert_fresh(self.text@, key, values);
                }
                self.text.push(Entry { key, value: values });
            },
        }
        Ok(())
    }

    /// Attaches a per-feature numeric column, replacing any column already
    /// held under the key. A column of any length other than one value per
    /// feature is rejected and nothing changes.
    pub fn set_numeric(&mut self, key: String, values: Vec<u64>) -> (r: Result<(), ()>)
        requires
            old(self).wf(),
        ensures
            final(self).wf(),
            (r is Ok <==> values@.len() == old(self).feature_count()),
            r is Ok ==> final(self).numeric_map() == upsert(old(self).numeric_map(), key, values),
            r is Err ==> final(self).numeric_map() == old(self).numeric_map(),
            same_geometry_and_time(*old(self), *final(self)),
            final(self).global_text_map() == old(self).global_text_map(),
            final(self).global_numeric_map() == old(self).global_numeric_map(),
            final(self).text_map() == old(self).text_map(),
    {
        if values.len() != self.get_feature_count() {
            return Err(());
        }
        match find_index(&self.numeric, key.as_str()) {
            Some(i) => {
                proof {
                    lemma_upsert_at(self.numeric@, key, values, i as int);
                }
                self.numeric[i] = Entry { key, value: values };
            },
            None => {
                proof {
                    lemma_upsert_fresh(self.numeric@, key, values);
                }
                self.numeric.push(Entry { key, value: values });
            },
        }
        Ok(())
    }
}

/// Everything but the time column is the same in both states.
pub open spec fn only_time_changed(pre: FeatureCollection, post: FeatureCollection) -> bool {
    &&& post.geometry_kind() == pre.geometry_kind()
    &&& post.offsets() == pre.offsets()
    &&& post.point_buffer() == pre.point_buffer()
    &&& post.global_text_map() == pre.global_text_map()
    &&& post.global_numeric_map() == pre.global_numeric_map()
    &&& post.text_map() == pre.text_map()
    &&& post.numeric_map() == pre.numeric_map()
}

} // verus!
