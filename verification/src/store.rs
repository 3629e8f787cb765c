//! The reference model of the service's client-visible behaviour: what the
//! contract of each remote operation promises once the call is acknowledged.
//! Collections keep their points strictly sorted by the identifier tie-break
//! order, so a search's ranking among equally scored candidates is pinned.

use vstd::prelude::*;
use crate::error::ServiceError;
use crate::ident::id_lt;
use crate::ident::lemma_id_lt_connected;
use crate::ident::lemma_id_lt_irrefl;
use crate::ident::lemma_id_lt_trans;
use crate::payload::obj_get;
use crate::payload::scalar_eq;
use crate::point::Point;
use crate::point::SpecPoint;
use crate::point::points_view;
use crate::query::FilterCondition;
use crate::query::SearchQuery;
use crate::query::SpecCond;
use crate::query::cond_wf;
use crate::query::conds_view;
use crate::query::query_wf;
use crate::result::SearchResult;
use crate::result::SpecResult;
use crate::result::results_view;
use crate::schema::CollectionSchema;
use crate::schema::Metric;

verus! {

/// Model of a collection: its schema and its points.
pub struct SpecCollection {
    pub name: Seq<char>,
    pub dim: u64,
    pub metric: Metric,
    pub points: Seq<SpecPoint>,
}

/// A collection: schema plus points, the points strictly sorted by
/// identifier.
pub struct Collection {
    name: String,
    dim: u64,
    metric: Metric,
    points: Vec<Point>,
}

impl View for Collection {
    type V = SpecCollection;

    closed spec fn view(&self) -> SpecCollection {
        SpecCollection {
            name: self.name@,
            dim: self.dim,
            metric: self.metric,
            points: points_view(self.points@),
        }
    }
}

/// Strict sortedness by the identifier order; identifiers are then unique.
pub open spec fn points_sorted(points: Seq<SpecPoint>) -> bool {
    forall|i: int, j: int|
        0 <= i < j < points.len() ==> id_lt(#[trigger] points[i].id, #[trigger] points[j].id)
}

/// A collection is well formed when its dimensionality is positive, its
/// points are sorted, and every point's vector has that dimensionality.
pub open spec fn collection_wf(c: SpecCollection) -> bool {
    &&& c.dim >= 1
    &&& points_sorted(c.points)
    &&& forall|i: int| 0 <= i < c.points.len() ==> (#[trigger] c.points[i]).vector.len() == c.dim
}

/// A store is well formed when collection names are unique and each
/// collection is well formed.
pub open spec fn store_wf(s: Seq<SpecCollection>) -> bool {
    &&& forall|i: int, j: int|
        0 <= i < j < s.len() ==> (#[trigger] s[i]).name != (#[trigger] s[j]).name
    &&& forall|i: int| 0 <= i < s.len() ==> collection_wf(#[trigger] s[i])
}

/// First position of the collection named `name`, searching from `i`; `-1`
/// when there is none.
pub open spec fn find_idx(s: Seq<SpecCollection>, name: Seq<char>, i: int) -> int
    decreases s.len() - i,
{
    if i < 0 || i >= s.len() {
        -1
    } else if s[i].name == name {
        i
    } else {
        find_idx(s, name, i + 1)
    }
}

/// What `find_idx` yields: either `-1` and no such collection, or the first
/// position carrying the name.
pub proof fn lemma_find_idx(s: Seq<SpecCollection>, name: Seq<char>, i: int)
    requires
        0 <= i,
    ensures
        find_idx(s, name, i) == -1 || find_idx(s, name, i) >= i,
        find_idx(s, name, i) == -1 ==> forall|j: int| i <= j < s.len() ==> s[j].name != name,
        find_idx(s, name, i) >= 0 ==> i <= find_idx(s, name, i) < s.len() && s[find_idx(
            s,
            name,
            i,
        )].name == name,
    decreases s.len() - i,
{
    if i < s.len() && s[i].name != name {
        lemma_find_idx(s, name, i + 1);
    }
}

/// First position in `points`, from `i` on, whose vector length differs from
/// `dim`; `-1` when every vector fits.
pub open spec fn first_bad_dim(points: Seq<SpecPoint>, dim: u64, i: int) -> int
    decreases points.len() - i,
{
    if i < 0 || i >= points.len() {
        -1
    } else if points[i].vector.len() != dim {
        i
    } else {
        first_bad_dim(points, dim, i + 1)
    }
}

/// What `first_bad_dim` yields: either `-1` and every vector fits, or the
/// first offending position.
pub proof fn lemma_first_bad_dim(points: Seq<SpecPoint>, dim: u64, i: int)
    requires
        0 <= i,
    ensures
        first_bad_dim(points, dim, i) == -1 ==> forall|j: int|
            i <= j < points.len() ==> (#[trigger] points[j]).vector.len() == dim,
        first_bad_dim(points, dim, i) >= 0 ==> i <= first_bad_dim(points, dim, i) < points.len()
            && points[first_bad_dim(points, dim, i)].vector.len() != dim,
    decreases points.len() - i,
{
    if i < points.len() && points[i].vector.len() == dim {
        lemma_first_bad_dim(points, dim, i + 1);
    }
}

/// Insert-or-replace of `p` into `points`, scanning from `i`: the point lands
/// at its sorted position, replacing the point of equal identifier if one is
/// there.
pub open spec fn spec_insert(points: Seq<SpecPoint>, p: SpecPoint, i: int) -> Seq<SpecPoint>
    decreases points.len() - i,
{
    if i < 0 || i >= points.len() {
        points.push(p)
    } else if id_lt(points[i].id, p.id) {
        spec_insert(points, p, i + 1)
    } else if points[i].id == p.id {
        points.update(i, p)
    } else {
        points.insert(i, p)
    }
}

/// Sequential application of a batch, from position `j` on: each point is
/// inserted or replaces its predecessor, so the last write to an identifier
/// wins.
pub open spec fn spec_apply(points: Seq<SpecPoint>, batch: Seq<SpecPoint>, j: int) -> Seq<
    SpecPoint,
>
    decreases batch.len() - j,
{
    if j < 0 || j >= batch.len() {
        points
    } else {
        spec_apply(spec_insert(points, batch[j], 0), batch, j + 1)
    }
}

/// Whether a point satisfies every filter condition: each condition's field
/// must be bound to exactly the condition's value in the point's payload.
pub open spec fn spec_matches(p: SpecPoint, conds: Seq<SpecCond>) -> bool {
    forall|i: int|
        0 <= i < conds.len() ==> obj_get(p.payload, (#[trigger] conds[i]).field) == Some(
            conds[i].value,
        )
}

/// The points eligible for a search, reading `points` from position `i` on
/// with `room` result slots left: the first `room` points, in order, that
/// satisfy every condition.
pub open spec fn select_from(
    points: Seq<SpecPoint>,
    conds: Seq<SpecCond>,
    i: int,
    room: int,
) -> Seq<SpecPoint>
    decreases points.len() - i,
{
    if i < 0 || i >= points.len() || room <= 0 {
        Seq::empty()
    } else if spec_matches(points[i], conds) {
        seq![points[i]] + select_from(points, conds, i + 1, room - 1)
    } else {
        select_from(points, conds, i + 1, room)
    }
}

/// How many points from position `i` on satisfy every condition.
pub open spec fn count_matching(points: Seq<SpecPoint>, conds: Seq<SpecCond>, i: int) -> int
    decreases points.len() - i,
{
    if i < 0 || i >= points.len() {
        0
    } else if spec_matches(points[i], conds) {
        1 + count_matching(points, conds, i + 1)
    } else {
        count_matching(points, conds, i + 1)
    }
}

/// The result the model reports for a selected point.  The similarity score
/// is the remote engine's to assign; the model, which does not implement the
/// metric, reports a zero bit pattern.
pub open spec fn mk_result(p: SpecPoint, with_payload: bool) -> SpecResult {
    SpecResult {
        id: p.id,
        score_bits: 0,
        payload: if with_payload {
            Some(p.payload)
        } else {
            None
        },
    }
}

/// The results for a sequence of selected points.
pub open spec fn results_of(sel: Seq<SpecPoint>, with_payload: bool) -> Seq<SpecResult> {
    Seq::new(sel.len(), |i: int| mk_result(sel[i], with_payload))
}

/// Decides whether `p` satisfies every condition of `conds`.
fn point_matches(p: &Point, conds: &Vec<FilterCondition>) -> (r: bool)
    requires
        forall|l: int| 0 <= l < conds@.len() ==> cond_wf(#[trigger] conds_view(conds@)[l]),
    ensures
        r == spec_matches(p@, conds_view(conds@)),
{
    let ghost cv = conds_view(conds@);
    let n: usize = conds.len();
    let mut i: usize = 0;
    while i < n
        invariant
            n == conds@.len(),
            cv == conds_view(conds@),
            cv.len() == n,
            0 <= i <= n,
            forall|l: int| 0 <= l < n ==> cond_wf(#[trigger] cv[l]),
            forall|l: int|
                0 <= l < i ==> obj_get(p@.payload, (#[trigger] cv[l]).field) == Some(cv[l].value),
        decreases n - i,
    {
        proof {
            assert(cv[i as int] == conds@[i as int]@);
        }
        let ok = match p.payload.get_field(&conds[i].field) {
            Some(found) => scalar_eq(&conds[i].value, found),
            None => false,
        };
        if !ok {
            proof {
                assert(obj_get(p@.payload, cv[i as int].field) != Some(cv[i as int].value));
                assert(!spec_matches(p@, cv));
            }
            return false;
        }
        proof {
            assert(obj_get(p@.payload, cv[i as int].field) == Some(cv[i as int].value));
        }
        i = i + 1;
    }
    true
}

/// Insert-or-replace into a sorted sequence: the result is sorted, holds `p`,
/// keeps exactly the points of other identifiers, and holds nothing else.
pub proof fn lemma_spec_insert(points: Seq<SpecPoint>, p: SpecPoint, i: int)
    requires
        0 <= i <= points.len(),
        points_sorted(points),
        forall|j: int| 0 <= j < i ==> id_lt((#[trigger] points[j]).id, p.id),
    ensures
        points_sorted(spec_insert(points, p, i)),
        forall|m: int|
            0 <= m < spec_insert(points, p, i).len() ==> spec_insert(points, p, i)[m] == p
                || (points.contains(#[trigger] spec_insert(points, p, i)[m]) && spec_insert(
                points,
                p,
                i,
            )[m].id != p.id),
        spec_insert(points, p, i).contains(p),
        forall|j: int|
            0 <= j < points.len() && (#[trigger] points[j]).id != p.id ==> spec_insert(
                points,
                p,
                i,
            ).contains(points[j]),
    decreases points.len() - i,
{
    let res = spec_insert(points, p, i);
    if i >= points.len() {
        assert(res == points.push(p));
        assert(res[points.len() as int] == p);
        assert(res.contains(p));
        assert forall|m: int| 0 <= m < res.len() implies res[m] == p || (points.contains(
            #[trigger] res[m],
        ) && res[m].id != p.id) by {
            if m < points.len() {
                assert(res[m] == points[m]);
                lemma_id_lt_irrefl(points[m].id);
            }
        }
        assert forall|j: int|
            0 <= j < points.len() && (#[trigger] points[j]).id != p.id implies res.contains(
            points[j],
        ) by {
            assert(res[j] == points[j]);
        }
    } else if id_lt(points[i].id, p.id) {
        lemma_spec_insert(points, p, i + 1);
    } else if points[i].id == p.id {
        assert(res == points.update(i, p));
        assert(res[i] == p);
        assert(res.contains(p));
        assert forall|m: int| 0 <= m < res.len() implies res[m] == p || (points.contains(
            #[trigger] res[m],
        ) && res[m].id != p.id) by {
            if m != i {
                assert(res[m] == points[m]);
                if points[m].id == p.id {
                    if m < i {
                        assert(id_lt(points[m].id, points[i].id));
                    } else {
                        assert(id_lt(points[i].id, points[m].id));
                    }
                    lemma_id_lt_irrefl(p.id);
                }
            }
        }
        assert forall|j: int|
            0 <= j < points.len() && (#[trigger] points[j]).id != p.id implies res.contains(
            points[j],
        ) by {
            assert(res[j] == points[j]);
        }
        assert forall|m1: int, m2: int| 0 <= m1 < m2 < res.len() implies id_lt(
            (#[trigger] res[m1]).id,
            (#[trigger] res[m2]).id,
        ) by {
            assert(res[m1].id == points[m1].id);
            assert(res[m2].id == points[m2].id);
        }
    } else {
        if !id_lt(p.id, points[i].id) {
            lemma_id_lt_connected(points[i].id, p.id);
        }
        assert(id_lt(p.id, points[i].id));
        assert(res == points.insert(i, p));
        points.insert_ensures(i, p);
        assert(res[i] == p);
        assert(res.contains(p));
        assert forall|m: int| 0 <= m < res.len() implies res[m] == p || (points.contains(
            #[trigger] res[m],
        ) && res[m].id != p.id) by {
            if m < i {
                assert(res[m] == points[m]);
                assert(id_lt(points[m].id, p.id));
                lemma_id_lt_irrefl(p.id);
                if points[m].id == p.id {
                    assert(false);
                }
            } else if m > i {
                assert(res[m] == points[m - 1]);
                if points[m - 1].id == p.id {
                    if m - 1 == i {
                        lemma_id_lt_irrefl(p.id);
                    } else {
                        assert(id_lt(points[i].id, points[m - 1].id));
                        lemma_id_lt_irrefl(points[i].id);
                        lemma_id_lt_trans(p.id, points[i].id, points[m - 1].id);
                    }
                    assert(false);
                }
            }
        }
        assert forall|j: int|
            0 <= j < points.len() && (#[trigger] points[j]).id != p.id implies res.contains(
            points[j],
        ) by {
            if j < i {
                assert(res[j] == points[j]);
            } else {
                assert(res[j + 1] == points[j]);
            }
        }
        assert forall|m1: int, m2: int| 0 <= m1 < m2 < res.len() implies id_lt(
            (#[trigger] res[m1]).id,
            (#[trigger] res[m2]).id,
        ) by {
            if m2 < i {
                assert(res[m1] == points[m1] && res[m2] == points[m2]);
            } else if m1 > i {
                assert(res[m1] == points[m1 - 1] && res[m2] == points[m2 - 1]);
            } else if m1 < i && m2 == i {
                assert(res[m1] == points[m1]);
                assert(id_lt(points[m1].id, p.id));
            } else if m1 == i {
                assert(res[m2] == points[m2 - 1]);
                if m2 - 1 == i {
                    assert(id_lt(p.id, points[i].id));
                } else {
                    lemma_id_lt_trans(p.id, points[i].id, points[m2 - 1].id);
                }
            } else {
                assert(res[m1] == points[m1]);
                assert(res[m2] == points[m2 - 1]);
                if m2 - 1 == i {
                    assert(id_lt(points[m1].id, p.id));
                    assert(id_lt(p.id, points[i].id));
                    lemma_id_lt_trans(points[m1].id, p.id, points[i].id);
                } else {
                    assert(id_lt(points[m1].id, p.id));
                    assert(id_lt(points[i].id, points[m2 - 1].id));
                    lemma_id_lt_trans(p.id, points[i].id, points[m2 - 1].id);
                    lemma_id_lt_trans(points[m1].id, p.id, points[m2 - 1].id);
                }
            }
        }
    }
}

/// Inserts `p` at its sorted position, replacing any point of the same
/// identifier.
fn insert_point(points: &mut Vec<Point>, p: Point)
    ensures
        points_view(final(points)@) == spec_insert(points_view(old(points)@), p@, 0),
{
    let ghost pv = points_view(old(points)@);
    let n: usize = points.len();
    let mut i: usize = 0;
    while i < n && points[i].id.lt_id(&p.id)
        invariant
            *points == *old(points),
            n == points@.len(),
            pv == points_view(points@),
            pv.len() == n,
            0 <= i <= n,
            spec_insert(pv, p@, 0) == spec_insert(pv, p@, i as int),
        decreases n - i,
    {
        proof {
            assert(pv[i as int] == points@[i as int]@);
            assert(id_lt(pv[i as int].id, p@.id));
        }
        i = i + 1;
    }
    if i == n {
        points.push(p);
        proof {
            assert(points_view(points@) =~= pv.push(p@));
        }
    } else {
        proof {
            assert(pv[i as int] == points@[i as int]@);
            assert(!id_lt(pv[i as int].id, p@.id));
        }
        let ghost mid = points@;
        if points[i].id.eq_id(&p.id) {
            points.set(i, p);
            proof {
                assert(points_view(points@) =~= pv.update(i as int, p@));
            }
        } else {
            points.insert(i, p);
            proof {
                assert(points_view(points@) =~= pv.insert(i as int, p@)) by {
                    assert forall|m: int| 0 <= m < points@.len() implies points_view(points@)[m]
                        == pv.insert(i as int, p@)[m] by {
                        pv.insert_ensures(i as int, p@);
                        if m < i as int {
                            assert(points@[m] == mid[m]);
                        } else if m > i as int {
                            assert(points@[m] == mid[m - 1]);
                        }
                    }
                }
            }
        }
    }
}

/// The in-memory reference model of the remote store.
pub struct VectorStore {
    collections: Vec<Collection>,
}

impl View for VectorStore {
    type V = Seq<SpecCollection>;

    closed spec fn view(&self) -> Seq<SpecCollection> {
        Seq::new(self.collections@.len(), |i: int| self.collections@[i]@)
    }
}

impl VectorStore {
    /// Whether the store's invariant holds; every operation preserves it.
    pub open spec fn wf(&self) -> bool {
        store_wf(self@)
    }

    /// An empty store: no collections.
    pub fn new() -> (r: VectorStore)
        ensures
            r@.len() == 0,
            r.wf(),
    {
        let r = VectorStore { collections: Vec::new() };
        proof {
            assert(r@ =~= Seq::<SpecCollection>::empty());
        }
        r
    }

    /// First position of the collection named `name`.
    fn find_collection(&self, name: &String) -> (r: Option<usize>)
        ensures
            match r {
                Some(k) => find_idx(self@, name@, 0) == k as int,
                None => find_idx(self@, name@, 0) == -1,
            },
    {
        let n: usize = self.collections.len();
        let mut i: usize = 0;
        while i < n
            invariant
                n == self.collections@.len(),
                n == self@.len(),
                0 <= i <= n,
                find_idx(self@, name@, 0) == find_idx(self@, name@, i as int),
            decreases n - i,
        {
            if self.collections[i].name == *name {
                assert(self@[i as int].name == name@);
                return Some(i);
            }
            assert(self@[i as int].name != name@);
            i = i + 1;
        }
        None
    }

    /// Creates a collection with the given schema.  Rejects a dimensionality
    /// of zero, and any name already taken -- also when the existing schema is
    /// identical: re-creation is an error here, never a silent no-op.
    pub fn create_collection(&mut self, schema: CollectionSchema) -> (r: Result<(), ServiceError>)
        requires
            old(self).wf(),
        ensures
            final(self).wf(),
            match r {
                Ok(()) => {
                    &&& schema.dim >= 1
                    &&& find_idx(old(self)@, schema.name@, 0) == -1
                    &&& final(self)@ == old(self)@.push(
                        SpecCollection {
                            name: schema.name@,
                            dim: schema.dim,
                            metric: schema.metric,
                            points: Seq::empty(),
                        },
                    )
                },
                Err(ServiceError::InvalidSchema { collection }) => {
                    &&& collection@ == schema.name@
                    &&& schema.dim == 0
                    &&& final(self)@ == old(self)@
                },
                Err(ServiceError::AlreadyExists { collection }) => {
                    &&& collection@ == schema.name@
                    &&& schema.dim >= 1
                    &&& find_idx(old(self)@, schema.name@, 0) >= 0
                    &&& final(self)@ == old(self)@
                },
                Err(_) => false,
            },
    {
        if schema.dim == 0 {
            return Err(ServiceError::InvalidSchema { collection: schema.name });
        }
        match self.find_collection(&schema.name) {
            Some(_) => Err(ServiceError::AlreadyExists { collection: schema.name }),
            None => {
                let ghost prev = self@;
                let c = Collection {
                    name: schema.name,
                    dim: schema.dim,
                    metric: schema.metric,
                    points: Vec::new(),
                };
                proof {
                    assert(points_view(c.points@) =~= Seq::<SpecPoint>::empty());
                }
                self.collections.push(c);
                proof {
                    assert(self@ =~= prev.push(c@));
                    lemma_find_idx(prev, c@.name, 0);
                    assert forall|i: int, j: int|
                        0 <= i < j < self@.len() implies (#[trigger] self@[i]).name != (
                    #[trigger] self@[j]).name by {
                        if j == self@.len() - 1 {
                            assert(self@[i] == prev[i]);
                        }
                    }
                }
                Ok(())
            },
        }
    }

    /// The names of all collections, in the store's own order; callers must
    /// not rely on any particular order.
    pub fn list_collections(&self) -> (r: Vec<String>)
        ensures
            r@.len() == self@.len(),
            forall|i: int| 0 <= i < r@.len() ==> (#[trigger] r@[i])@ == self@[i].name,
    {
        let n: usize = self.collections.len();
        let mut r: Vec<String> = Vec::new();
        let mut i: usize = 0;
        while i < n
            invariant
                n == self.collections@.len(),
                n == self@.len(),
                0 <= i <= n,
                r@.len() == i,
                forall|k: int| 0 <= k < i ==> (#[trigger] r@[k])@ == self@[k].name,
            decreases n - i,
        {
            let name = self.collections[i].name.clone();
            r.push(name);
            i = i + 1;
        }
        r
    }

    /// Deletes the collection named `name` with all its points; deleting a
    /// name that does not exist fails with `NotFound`.
    pub fn delete_collection(&mut self, name: &String) -> (r: Result<(), ServiceError>)
        requires
            old(self).wf(),
        ensures
            final(self).wf(),
            match r {
                Ok(()) => {
                    &&& find_idx(old(self)@, name@, 0) >= 0
                    &&& final(self)@ == old(self)@.remove(find_idx(old(self)@, name@, 0))
                },
                Err(ServiceError::NotFound { collection }) => {
                    &&& collection@ == name@
                    &&& find_idx(old(self)@, name@, 0) == -1
                    &&& final(self)@ == old(self)@
                },
                Err(_) => false,
            },
    {
        match self.find_collection(name) {
            None => Err(ServiceError::NotFound { collection: name.clone() }),
            Some(k) => {
                let ghost prev = self@;
                proof {
                    lemma_find_idx(prev, name@, 0);
                }
                self.collections.remove(k);
                proof {
                    assert(self@ =~= prev.remove(k as int));
                    assert forall|i: int, j: int|
                        0 <= i < j < self@.len() implies (#[trigger] self@[i]).name != (
                    #[trigger] self@[j]).name by {
                        let pi: int = if i < k as int { i } else { i + 1 };
                        let pj: int = if j < k as int { j } else { j + 1 };
                        assert(self@[i] == prev[pi]);
                        assert(self@[j] == prev[pj]);
                    }
                    assert forall|i: int| 0 <= i < self@.len() implies collection_wf(
                        #[trigger] self@[i],
                    ) by {
                        let pi: int = if i < k as int { i } else { i + 1 };
                        assert(self@[i] == prev[pi]);
                    }
                }
                Ok(())
            },
        }
    }

    /// Inserts or fully replaces the batch's points in the named collection,
    /// in batch order, so the last write to an identifier wins.  Every vector
    /// must have the collection's dimensionality: otherwise the call fails
    /// naming the first offending identifier and changes nothing.  The model
    /// is synchronous, so an applied write is visible to every later search
    /// whatever `wait_for_ack` says; the flag is carried to the wire request,
    /// where `false` surrenders that guarantee to the remote engine.
    pub fn upsert(&mut self, name: &String, batch: Vec<Point>, wait_for_ack: bool) -> (r: Result<
        (),
        ServiceError,
    >)
        requires
            old(self).wf(),
        ensures
            final(self).wf(),
            match r {
                Ok(()) => {
                    let k = find_idx(old(self)@, name@, 0);
                    &&& k >= 0
                    &&& first_bad_dim(points_view(batch@), old(self)@[k].dim, 0) == -1
                    &&& final(self)@ == old(self)@.update(
                        k,
                        SpecCollection {
                            name: old(self)@[k].name,
                            dim: old(self)@[k].dim,
                            metric: old(self)@[k].metric,
                            points: spec_apply(old(self)@[k].points, points_view(batch@), 0),
                        },
                    )
                },
                Err(ServiceError::NotFound { collection }) => {
                    &&& collection@ == name@
                    &&& find_idx(old(self)@, name@, 0) == -1
                    &&& final(self)@ == old(self)@
                },
                Err(ServiceError::DimensionMismatch { collection, point, expected, actual }) => {
                    let k = find_idx(old(self)@, name@, 0);
                    let j = first_bad_dim(points_view(batch@), old(self)@[k].dim, 0);
                    &&& k >= 0
                    &&& j >= 0
                    &&& collection@ == name@
                    &&& point matches Some(pid) && pid@ == points_view(batch@)[j].id
                    &&& expected == old(self)@[k].dim
                    &&& actual == points_view(batch@)[j].vector.len()
                    &&& final(self)@ == old(self)@
                },
                Err(_) => false,
            },
    {
        let k = match self.find_collection(name) {
            None => {
                return Err(ServiceError::NotFound { collection: name.clone() });
            },
            Some(k) => k,
        };
        let ghost prev = self@;
        let ghost bv = points_view(batch@);
        proof {
            lemma_find_idx(prev, name@, 0);
            assert(bv.len() == batch@.len());
        }
        let dim = self.collections[k].dim;
        let nb: usize = batch.len();
        let mut j: usize = 0;
        while j < nb
            invariant
                nb == batch@.len(),
                bv == points_view(batch@),
                bv.len() == nb,
                0 <= j <= nb,
                *self == *old(self),
                self.wf(),
                prev == self@,
                (k as int) < prev.len(),
                find_idx(prev, name@, 0) == k as int,
                dim == prev[k as int].dim,
                first_bad_dim(bv, dim, 0) == first_bad_dim(bv, dim, j as int),
            decreases nb - j,
        {
            if batch[j].vector.len() as u64 != dim {
                proof {
                    assert(bv[j as int] == batch@[j as int]@);
                }
                let pid = batch[j].id.clone();
                let actual = batch[j].vector.len() as u64;
                return Err(
                    ServiceError::DimensionMismatch {
                        collection: name.clone(),
                        point: Some(pid),
                        expected: dim,
                        actual,
                    },
                );
            }
            proof {
                assert(bv[j as int] == batch@[j as int]@);
            }
            j = j + 1;
        }
        let mut col = self.collections.remove(k);
        let ghost mid = self@;
        let ghost pv0 = points_view(col.points@);
        proof {
            assert(mid =~= prev.remove(k as int));
            assert(col@ == prev[k as int]);
            lemma_first_bad_dim(bv, dim, 0);
        }
        let mut t: usize = 0;
        while t < nb
            invariant
                nb == batch@.len(),
                bv == points_view(batch@),
                bv.len() == nb,
                0 <= t <= nb,
                mid == self@,
                mid == prev.remove(k as int),
                (k as int) < prev.len(),
                k as int <= mid.len(),
                dim == prev[k as int].dim,
                col@.name == prev[k as int].name,
                col@.dim == dim,
                col@.metric == prev[k as int].metric,
                points_sorted(col@.points),
                forall|m: int|
                    0 <= m < col@.points.len() ==> (#[trigger] col@.points[m]).vector.len() == dim,
                forall|m: int| 0 <= m < nb ==> (#[trigger] bv[m]).vector.len() == dim,
                spec_apply(pv0, bv, 0) == spec_apply(col@.points, bv, t as int),
            decreases nb - t,
        {
            let ghost before = col@.points;
            let c = batch[t].clone();
            proof {
                assert(c@ == bv[t as int]);
                lemma_spec_insert(before, c@, 0);
            }
            insert_point(&mut col.points, c);
            proof {
                assert(col@.points == spec_insert(before, c@, 0));
                assert forall|m: int| 0 <= m < col@.points.len() implies (
                #[trigger] col@.points[m]).vector.len() == dim by {
                    if col@.points[m] != c@ {
                        let w = choose|w: int|
                            0 <= w < before.len() && before[w] == col@.points[m];
                        assert(before.contains(col@.points[m]));
                    }
                }
            }
            t = t + 1;
        }
        self.collections.insert(k, col);
        proof {
            let newc = SpecCollection {
                name: prev[k as int].name,
                dim: prev[k as int].dim,
                metric: prev[k as int].metric,
                points: spec_apply(prev[k as int].points, bv, 0),
            };
            assert(col@.points == spec_apply(pv0, bv, 0));
            assert(col@ == newc);
            assert(self@ =~= mid.insert(k as int, col@));
            assert(self@ =~= prev.update(k as int, newc)) by {
                assert forall|m: int| 0 <= m < self@.len() implies self@[m] == prev.update(
                    k as int,
                    newc,
                )[m] by {
                    mid.insert_ensures(k as int, col@);
                    if m < k as int {
                        assert(mid[m] == prev[m]);
                    } else if m > k as int {
                        assert(mid[m - 1] == prev[m]);
                    }
                }
            }
            assert forall|i: int| 0 <= i < self@.len() implies collection_wf(
                #[trigger] self@[i],
            ) by {
                if i != k as int {
                    assert(self@[i] == prev[i]);
                }
            }
            assert forall|i: int, j2: int|
                0 <= i < j2 < self@.len() implies (#[trigger] self@[i]).name != (
            #[trigger] self@[j2]).name by {
                assert(self@[i].name == prev[i].name);
                assert(self@[j2].name == prev[j2].name);
            }
        }
        Ok(())
    }

    /// Runs a filtered nearest-neighbour query against the named collection.
    /// The query vector must have the collection's dimensionality.  The
    /// results are the points satisfying every condition, best match first:
    /// the model, which leaves scoring to the remote engine, ranks all
    /// candidates equal, so the identifier tie-break order decides and the
    /// first `limit` eligible points in identifier order come back.  Payload
    /// data is included exactly when the query asks for it; no eligible point
    /// yields an empty sequence, not an error.
    pub fn search(&self, name: &String, query: &SearchQuery) -> (r: Result<
        Vec<SearchResult>,
        ServiceError,
    >)
        requires
            self.wf(),
            query_wf(query@),
        ensures
            match r {
                Ok(results) => {
                    let k = find_idx(self@, name@, 0);
                    &&& k >= 0
                    &&& self@[k].dim == query.vector@.len()
                    &&& results_view(results@) == results_of(
                        select_from(
                            self@[k].points,
                            conds_view(query.conditions@),
                            0,
                            query.limit as int,
                        ),
                        query.with_payload,
                    )
                },
                Err(ServiceError::NotFound { collection }) => {
                    &&& collection@ == name@
                    &&& find_idx(self@, name@, 0) == -1
                },
                Err(ServiceError::DimensionMismatch { collection, point, expected, actual }) => {
                    let k = find_idx(self@, name@, 0);
                    &&& k >= 0
                    &&& collection@ == name@
                    &&& point is None
                    &&& expected == self@[k].dim
                    &&& actual == query.vector@.len()
                    &&& expected != actual
                },
                Err(_) => false,
            },
    {
        let k = match self.find_collection(name) {
            None => {
                return Err(ServiceError::NotFound { collection: name.clone() });
            },
            Some(k) => k,
        };
        proof {
            lemma_find_idx(self@, name@, 0);
        }
        let col = &self.collections[k];
        proof {
            assert(col@ == self@[k as int]);
        }
        if query.vector.len() as u64 != col.dim {
            return Err(
                ServiceError::DimensionMismatch {
                    collection: name.clone(),
                    point: None,
                    expected: col.dim,
                    actual: query.vector.len() as u64,
                },
            );
        }
        let ghost pv = points_view(col.points@);
        let ghost cv = conds_view(query.conditions@);
        proof {
            assert(self@[k as int].points == pv);
            assert forall|l: int| 0 <= l < query.conditions@.len() implies cond_wf(
                #[trigger] conds_view(query.conditions@)[l],
            ) by {
                assert(cv[l] == query@.conds[l]);
            }
        }
        let limit = query.limit;
        let n: usize = col.points.len();
        let mut results: Vec<SearchResult> = Vec::new();
        let ghost mut sel: Seq<SpecPoint> = Seq::empty();
        let mut i: usize = 0;
        proof {
            assert(sel + select_from(pv, cv, 0, limit as int) =~= select_from(
                pv,
                cv,
                0,
                limit as int,
            ));
            assert(results_view(results@) =~= results_of(sel, query.with_payload));
        }
        while i < n && (results.len() as u64) < limit
            invariant
                n == col.points@.len(),
                pv == points_view(col.points@),
                pv.len() == n,
                cv == conds_view(query.conditions@),
                forall|l: int| 0 <= l < cv.len() ==> cond_wf(#[trigger] cv[l]),
                0 <= i <= n,
                sel.len() == results@.len(),
                results@.len() <= limit,
                results_view(results@) == results_of(sel, query.with_payload),
                select_from(pv, cv, 0, limit as int) == sel + select_from(
                    pv,
                    cv,
                    i as int,
                    limit as int - results@.len() as int,
                ),
            decreases n - i,
        {
            let ghost room = limit as int - results@.len() as int;
            let m = point_matches(&col.points[i], &query.conditions);
            proof {
                assert(col.points@[i as int]@ == pv[i as int]);
            }
            if m {
                let id = col.points[i].id.clone();
                let payload = if query.with_payload {
                    Some(col.points[i].payload.clone())
                } else {
                    None
                };
                let ghost oldsel = sel;
                let ghost oldresults = results@;
                results.push(SearchResult { id, score_bits: 0, payload });
                proof {
                    sel = oldsel.push(pv[i as int]);
                    assert(results_view(results@) =~= results_of(sel, query.with_payload)) by {
                        assert forall|l: int| 0 <= l < results@.len() implies results_view(
                            results@,
                        )[l] == results_of(sel, query.with_payload)[l] by {
                            if l < oldresults.len() {
                                assert(results@[l] == oldresults[l]);
                                assert(results_view(oldresults)[l] == results_of(
                                    oldsel,
                                    query.with_payload,
                                )[l]);
                            } else {
                                assert(results@[l]@ == mk_result(pv[i as int], query.with_payload));
                            }
                        }
                    }
                    assert(select_from(pv, cv, i as int, room) == seq![pv[i as int]]
                        + select_from(pv, cv, i + 1, room - 1));
                    assert(sel + select_from(pv, cv, i + 1, room - 1) =~= oldsel + select_from(
                        pv,
                        cv,
                        i as int,
                        room,
                    ));
                }
            } else {
                proof {
                    assert(select_from(pv, cv, i as int, room) == select_from(
                        pv,
                        cv,
                        i + 1,
                        room,
                    ));
                }
            }
            i = i + 1;
        }
        proof {
            assert(select_from(pv, cv, i as int, limit as int - results@.len() as int)
                =~= Seq::<SpecPoint>::empty());
            assert(sel + Seq::<SpecPoint>::empty() =~= sel);
            assert(select_from(pv, cv, 0, limit as int) == sel);
        }
        Ok(results)
    }
}

} // verus!
