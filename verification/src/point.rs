//! Points and point batches: what an upsert submits.

use vstd::prelude::*;
use crate::ident::PointId;
use crate::ident::SpecId;
use crate::payload::PayloadValue;
use crate::payload::SpecVal;
use crate::payload::value_view;

verus! {

/// Model of a point.
pub struct SpecPoint {
    pub id: SpecId,
    pub vector: Seq<u32>,
    pub payload: SpecVal,
}

/// A point: identifier, vector, and payload.  Vector components are carried
/// as IEEE 754 single-precision bit patterns; this layer reads only their
/// count, never their numeric value.
#[derive(Debug)]
pub struct Point {
    pub id: PointId,
    pub vector: Vec<u32>,
    pub payload: PayloadValue,
}

impl View for Point {
    type V = SpecPoint;

    open spec fn view(&self) -> SpecPoint {
        SpecPoint { id: self.id@, vector: self.vector@, payload: self.payload@ }
    }
}

/// The models of a sequence of points.
pub open spec fn points_view(points: Seq<Point>) -> Seq<SpecPoint> {
    Seq::new(points.len(), |i: int| points[i]@)
}

/// Whether some point at position `k` or later carries the identifier `id`.
pub open spec fn has_id_from(points: Seq<SpecPoint>, id: SpecId, k: int) -> bool {
    exists|j: int| k <= j < points.len() && points[j].id == id
}

/// The batch with duplicate identifiers resolved: position `i` of the input
/// survives exactly when no later position carries the same identifier, so
/// the last write to each identifier wins.
pub open spec fn spec_normalized(points: Seq<SpecPoint>, i: int) -> Seq<SpecPoint>
    decreases points.len() - i,
{
    if i < 0 || i >= points.len() {
        Seq::empty()
    } else if has_id_from(points, points[i].id, i + 1) {
        spec_normalized(points, i + 1)
    } else {
        seq![points[i]] + spec_normalized(points, i + 1)
    }
}

/// A batch of points submitted for insertion or replacement.
#[derive(Debug)]
pub struct PointBatch {
    pub points: Vec<Point>,
}

impl Clone for Point {
    /// A clone has the same model as the original point.
    fn clone(&self) -> (r: Self)
        ensures
            r@ == self@,
    {
        let mut vector: Vec<u32> = Vec::new();
        let n: usize = self.vector.len();
        let mut i: usize = 0;
        while i < n
            invariant
                n == self.vector@.len(),
                0 <= i <= n,
                vector@ == self.vector@.take(i as int),
            decreases n - i,
        {
            let c = self.vector[i];
            vector.push(c);
            proof {
                assert(vector@ =~= self.vector@.take(i + 1));
            }
            i = i + 1;
        }
        proof {
            assert(vector@ =~= self.vector@);
        }
        Point { id: self.id.clone(), vector, payload: self.payload.clone() }
    }
}

impl PointBatch {
    /// An empty batch.
    pub fn new() -> (r: PointBatch)
        ensures
            r.points@.len() == 0,
    {
        PointBatch { points: Vec::new() }
    }

    /// Appends a point to the batch.
    pub fn add(&mut self, p: Point)
        ensures
            final(self).points@ == old(self).points@.push(p),
    {
        self.points.push(p);
    }

    /// Resolves duplicate identifiers, last write wins: what an upsert
    /// actually submits.  Keeps, in order, each position whose identifier
    /// does not recur later in the batch.
    pub fn normalized(&self) -> (r: Vec<Point>)
        ensures
            points_view(r@) == spec_normalized(points_view(self.points@), 0),
    {
        let n: usize = self.points.len();
        let mut out: Vec<Point> = Vec::new();
        let mut i: usize = 0;
        while i < n
            invariant
                n == self.points@.len(),
                0 <= i <= n,
                spec_normalized(points_view(self.points@), 0) == points_view(out@)
                    + spec_normalized(points_view(self.points@), i as int),
            decreases n - i,
        {
            let ghost pv = points_view(self.points@);
            let ghost prev = out@;
            let dup = has_later_duplicate(&self.points, i);
            if !dup {
                let c = self.points[i].clone();
                out.push(c);
                proof {
                    assert(points_view(out@) =~= points_view(prev).push(pv[i as int]));
                    assert(points_view(out@) + spec_normalized(pv, i + 1) =~= points_view(prev)
                        + (seq![pv[i as int]] + spec_normalized(pv, i + 1)));
                }
            }
            i = i + 1;
        }
        proof {
            assert(points_view(out@) + spec_normalized(points_view(self.points@), n as int)
                =~= points_view(out@));
        }
        out
    }
}

/// Decides whether a later position of `points` repeats the identifier at
/// position `i`.
fn has_later_duplicate(points: &Vec<Point>, i: usize) -> (r: bool)
    requires
        i < points@.len(),
    ensures
        r == has_id_from(points_view(points@), points_view(points@)[i as int].id, i + 1),
{
    let n: usize = points.len();
    let mut j: usize = i + 1;
    while j < n
        invariant
            n == points@.len(),
            i < j <= n,
            forall|k: int|
                i < k < j ==> points_view(points@)[k].id != points_view(points@)[i as int].id,
        decreases n - j,
    {
        if points[j].id.eq_id(&points[i].id) {
            assert(points_view(points@)[j as int].id == points_view(points@)[i as int].id);
            return true;
        }
        j = j + 1;
    }
    false
}

} // verus!
