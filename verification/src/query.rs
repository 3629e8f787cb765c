//! Filtered vector queries: what a search submits.

use vstd::prelude::*;
use crate::payload::PayloadValue;
use crate::payload::SpecVal;
use crate::payload::is_scalar;

verus! {

/// Model of a filter condition.
pub struct SpecCond {
    pub field: Seq<char>,
    pub value: SpecVal,
}

/// An equality constraint on a payload field; several conditions combine by
/// conjunction.
#[derive(Debug)]
pub struct FilterCondition {
    pub field: String,
    pub value: PayloadValue,
}

impl View for FilterCondition {
    type V = SpecCond;

    open spec fn view(&self) -> SpecCond {
        SpecCond { field: self.field@, value: self.value@ }
    }
}

/// The models of a sequence of filter conditions.
pub open spec fn conds_view(conds: Seq<FilterCondition>) -> Seq<SpecCond> {
    Seq::new(conds.len(), |i: int| conds[i]@)
}

/// A condition is well formed when it compares against a scalar.
pub open spec fn cond_wf(c: SpecCond) -> bool {
    is_scalar(c.value)
}

impl FilterCondition {
    /// A condition requiring the payload field `field` to equal `value`.
    pub fn equals(field: String, value: PayloadValue) -> (r: FilterCondition)
        requires
            is_scalar(value@),
        ensures
            r@ == (SpecCond { field: field@, value: value@ }),
            cond_wf(r@),
    {
        FilterCondition { field, value }
    }
}

/// Model of a search query.
pub struct SpecQuery {
    pub vector: Seq<u32>,
    pub limit: u64,
    pub conds: Seq<SpecCond>,
    pub with_payload: bool,
}

/// A nearest-neighbour query: query vector, result-count limit, filter
/// conditions, and whether payload data is wanted in the results.
#[derive(Debug)]
pub struct SearchQuery {
    pub vector: Vec<u32>,
    pub limit: u64,
    pub conditions: Vec<FilterCondition>,
    pub with_payload: bool,
}

impl View for SearchQuery {
    type V = SpecQuery;

    open spec fn view(&self) -> SpecQuery {
        SpecQuery {
            vector: self.vector@,
            limit: self.limit,
            conds: conds_view(self.conditions@),
            with_payload: self.with_payload,
        }
    }
}

/// A query is well formed when its limit is at least one and each condition
/// compares against a scalar.
pub open spec fn query_wf(q: SpecQuery) -> bool {
    &&& q.limit >= 1
    &&& forall|i: int| 0 <= i < q.conds.len() ==> cond_wf(#[trigger] q.conds[i])
}

impl SearchQuery {
    /// A query over `vector` returning at most `limit` results, with no
    /// filter and without payload data.
    pub fn new(vector: Vec<u32>, limit: u64) -> (r: SearchQuery)
        requires
            limit >= 1,
        ensures
            r.vector@ == vector@,
            r.limit == limit,
            r.conditions@.len() == 0,
            r.with_payload == false,
            query_wf(r@),
    {
        SearchQuery { vector, limit, conditions: Vec::new(), with_payload: false }
    }

    /// Adds a filter condition; every condition must hold for a point to be
    /// eligible.
    pub fn filter(self, cond: FilterCondition) -> (r: SearchQuery)
        ensures
            r.vector@ == self.vector@,
            r.limit == self.limit,
            r.with_payload == self.with_payload,
            r.conditions@ == self.conditions@.push(cond),
            query_wf(self@) && cond_wf(cond@) ==> query_wf(r@),
    {
        let mut conditions = self.conditions;
        conditions.push(cond);
        let r = SearchQuery {
            vector: self.vector,
            limit: self.limit,
            conditions,
            with_payload: self.with_payload,
        };
        proof {
            if query_wf(self@) && cond_wf(cond@) {
                assert forall|i: int| 0 <= i < r@.conds.len() implies cond_wf(
                    #[trigger] r@.conds[i],
                ) by {
                    if i < self.conditions@.len() {
                        assert(r@.conds[i] == self@.conds[i]);
                        assert(cond_wf(self@.conds[i]));
                    } else {
                        assert(r@.conds[i] == cond@);
                    }
                }
            }
        }
        r
    }

    /// Sets whether results carry payload data.
    pub fn include_payload(self, yes: bool) -> (r: SearchQuery)
        ensures
            r.vector@ == self.vector@,
            r.limit == self.limit,
            r.with_payload == yes,
            r.conditions@ == self.conditions@,
            query_wf(self@) ==> query_wf(r@),
    {
        let r = SearchQuery {
            vector: self.vector,
            limit: self.limit,
            conditions: self.conditions,
            with_payload: yes,
        };
        proof {
            if query_wf(self@) {
                assert forall|i: int| 0 <= i < r@.conds.len() implies cond_wf(
                    #[trigger] r@.conds[i],
                ) by {
                    assert(r@.conds[i] == self@.conds[i]);
                    assert(cond_wf(self@.conds[i]));
                }
            }
        }
        r
    }

    /// Decides well-formedness: the check a caller runs before searching.
    pub fn is_valid(&self) -> (r: bool)
        ensures
            r == query_wf(self@),
    {
        if self.limit < 1 {
            return false;
        }
        let n: usize = self.conditions.len();
        let mut i: usize = 0;
        while i < n
            invariant
                n == self.conditions@.len(),
                0 <= i <= n,
                forall|k: int| 0 <= k < i ==> cond_wf(#[trigger] conds_view(self.conditions@)[k]),
            decreases n - i,
        {
            if !self.conditions[i].value.is_scalar_value() {
                assert(self@.conds[i as int] == self.conditions@[i as int]@);
                assert(!cond_wf(self@.conds[i as int]));
                return false;
            }
            assert(cond_wf(conds_view(self.conditions@)[i as int]));
            i = i + 1;
        }
        assert forall|i: int| 0 <= i < self@.conds.len() implies cond_wf(
            #[trigger] self@.conds[i],
        ) by {
            assert(self@.conds[i] == conds_view(self.conditions@)[i]);
        }
        true
    }
}

} // verus!
