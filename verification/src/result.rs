//! Search results and extraction of nested payload values.

use vstd::prelude::*;
use crate::error::ExtractionError;
use crate::ident::PointId;
use crate::ident::SpecId;
use crate::payload::PayloadValue;
use crate::payload::SpecVal;
use crate::payload::obj_get;

verus! {

/// Model of a search result.
pub struct SpecResult {
    pub id: SpecId,
    pub score_bits: u32,
    pub payload: Option<SpecVal>,
}

/// One ranked search result: identifier, similarity score (carried as an
/// IEEE 754 single-precision bit pattern, assigned by the remote engine), and
/// the payload when the query asked for it.
#[derive(Debug)]
pub struct SearchResult {
    pub id: PointId,
    pub score_bits: u32,
    pub payload: Option<PayloadValue>,
}

impl View for SearchResult {
    type V = SpecResult;

    open spec fn view(&self) -> SpecResult {
        SpecResult {
            id: self.id@,
            score_bits: self.score_bits,
            payload: match self.payload {
                Some(p) => Some(p@),
                None => None,
            },
        }
    }
}

/// The models of a sequence of search results.
pub open spec fn results_view(rs: Seq<SearchResult>) -> Seq<SpecResult> {
    Seq::new(rs.len(), |i: int| rs[i]@)
}

/// The models of a path's segments.
pub open spec fn path_view(path: Seq<String>) -> Seq<Seq<char>> {
    Seq::new(path.len(), |i: int| path[i]@)
}

/// Outcome of walking a path into a value: the value reached, or the position
/// of the offending segment.
pub enum SpecExtract {
    Found(SpecVal),
    MissingField(int),
    NotMapping(int),
}

/// Walks `path` into `v` from segment `i` on: each remaining segment selects
/// a binding of a mapping.
pub open spec fn spec_extract(v: SpecVal, path: Seq<Seq<char>>, i: int) -> SpecExtract
    decreases path.len() - i,
{
    if i < 0 || i >= path.len() {
        SpecExtract::Found(v)
    } else {
        match v {
            SpecVal::Obj(_) => match obj_get(v, path[i]) {
                Some(c) => spec_extract(c, path, i + 1),
                None => SpecExtract::MissingField(i),
            },
            _ => SpecExtract::NotMapping(i),
        }
    }
}

impl PayloadValue {
    /// Walks a segmented path into this value and yields a copy of the value
    /// it reaches; names the offending segment on failure.
    pub fn extract(&self, path: &Vec<String>) -> (r: Result<PayloadValue, ExtractionError>)
        ensures
            match spec_extract(self@, path_view(path@), 0) {
                SpecExtract::Found(sv) => r matches Ok(out) && out@ == sv,
                SpecExtract::MissingField(j) => r matches Err(ExtractionError::FieldNotFound {
                    segment,
                }) && 0 <= j < path@.len() && segment@ == path@[j]@,
                SpecExtract::NotMapping(j) => r matches Err(ExtractionError::NotAMapping {
                    segment,
                }) && 0 <= j < path@.len() && segment@ == path@[j]@,
            },
    {
        let ghost pv = path_view(path@);
        let n: usize = path.len();
        let mut cur: &PayloadValue = self;
        let mut i: usize = 0;
        while i < n
            invariant
                n == path@.len(),
                0 <= i <= n,
                pv == path_view(path@),
                spec_extract(self@, pv, 0) == spec_extract(cur@, pv, i as int),
            decreases n - i,
        {
            match cur {
                PayloadValue::Obj(_) => {
                },
                _ => {
                    return Err(ExtractionError::NotAMapping { segment: path[i].clone() });
                },
            }
            match cur.get_field(&path[i]) {
                Some(next) => {
                    cur = next;
                },
                None => {
                    return Err(ExtractionError::FieldNotFound { segment: path[i].clone() });
                },
            }
            i = i + 1;
        }
        Ok(cur.clone())
    }
}

impl SearchResult {
    /// Extracts a nested value from this result's payload; a result carrying
    /// no payload has no fields to find.
    pub fn extract_field(&self, path: &Vec<String>) -> (r: Result<PayloadValue, ExtractionError>)
        ensures
            match self.payload {
                Some(p) => match spec_extract(p@, path_view(path@), 0) {
                    SpecExtract::Found(sv) => r matches Ok(out) && out@ == sv,
                    SpecExtract::MissingField(j) => r matches Err(
                        ExtractionError::FieldNotFound { segment },
                    ) && 0 <= j < path@.len() && segment@ == path@[j]@,
                    SpecExtract::NotMapping(j) => r matches Err(ExtractionError::NotAMapping {
                        segment,
                    }) && 0 <= j < path@.len() && segment@ == path@[j]@,
                },
                None => r matches Err(ExtractionError::FieldNotFound { segment }) && segment@
                    == (if path@.len() > 0 {
                    path@[0]@
                } else {
                    Seq::<char>::empty()
                }),
            },
    {
        match &self.payload {
            Some(p) => p.extract(path),
            None => {
                let segment = if path.len() > 0 {
                    path[0].clone()
                } else {
                    String::new()
                };
                Err(ExtractionError::FieldNotFound { segment })
            },
        }
    }
}

} // verus!
