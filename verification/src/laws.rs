//! The general laws of the model, stated and proved once for all inputs:
//! what upserting leaves in a collection, which points a filtered search
//! returns, and what deletion leaves behind.

use vstd::prelude::*;
use crate::ident::id_lt;
use crate::ident::lemma_id_lt_irrefl;
use crate::point::SpecPoint;
use crate::point::has_id_from;
use crate::query::SpecCond;
use crate::store::SpecCollection;
use crate::store::count_matching;
use crate::store::find_idx;
use crate::store::lemma_find_idx;
use crate::store::lemma_spec_insert;
use crate::store::mk_result;
use crate::store::points_sorted;
use crate::store::results_of;
use crate::store::select_from;
use crate::store::spec_apply;
use crate::store::spec_insert;
use crate::store::spec_matches;
use crate::store::store_wf;

verus! {

/// Applying a batch to a sorted collection keeps it sorted; every surviving
/// point comes from the old collection or from the batch; the last write to
/// each identifier in the batch lands in the collection; and every old point
/// whose identifier the batch never writes survives untouched.
pub proof fn law_upsert_contents(points: Seq<SpecPoint>, batch: Seq<SpecPoint>, j: int)
    requires
        0 <= j,
        points_sorted(points),
    ensures
        points_sorted(spec_apply(points, batch, j)),
        forall|m: int|
            0 <= m < spec_apply(points, batch, j).len() ==> points.contains(
                #[trigger] spec_apply(points, batch, j)[m],
            ) || exists|t: int| j <= t < batch.len() && batch[t] == spec_apply(points, batch, j)[m],
        forall|t: int|
            j <= t < batch.len() && !has_id_from(batch, (#[trigger] batch[t]).id, t + 1)
                ==> spec_apply(points, batch, j).contains(batch[t]),
        forall|m: int|
            0 <= m < points.len() && !has_id_from(batch, (#[trigger] points[m]).id, j)
                ==> spec_apply(points, batch, j).contains(points[m]),
    decreases batch.len() - j,
{
    let res = spec_apply(points, batch, j);
    if j >= batch.len() {
        assert(forall|m: int| 0 <= m < points.len() ==> res.contains(#[trigger] points[m]));
    } else {
        let ins = spec_insert(points, batch[j], 0);
        lemma_spec_insert(points, batch[j], 0);
        law_upsert_contents(ins, batch, j + 1);
        assert(res == spec_apply(ins, batch, j + 1));
        assert forall|m: int| 0 <= m < res.len() implies points.contains(#[trigger] res[m])
            || exists|t: int| j <= t < batch.len() && batch[t] == res[m] by {
            if ins.contains(res[m]) {
                let w = choose|w: int| 0 <= w < ins.len() && ins[w] == res[m];
                if ins[w] == batch[j] {
                    assert(batch[j] == res[m]);
                } else {
                    assert(points.contains(ins[w]));
                }
            }
        }
        assert forall|t: int|
            j <= t < batch.len() && !has_id_from(batch, (#[trigger] batch[t]).id, t + 1) implies res
            .contains(batch[t]) by {
            if t == j {
                assert(ins.contains(batch[j]));
                let w = choose|w: int| 0 <= w < ins.len() && ins[w] == batch[j];
                assert(!has_id_from(batch, ins[w].id, j + 1));
                assert(res.contains(ins[w]));
            }
        }
        assert forall|m: int|
            0 <= m < points.len() && !has_id_from(batch, (#[trigger] points[m]).id, j) implies res
            .contains(points[m]) by {
            assert(!(points[m].id == batch[j].id)) by {
                if points[m].id == batch[j].id {
                    assert(has_id_from(batch, points[m].id, j));
                }
            }
            assert(ins.contains(points[m]));
            let w = choose|w: int| 0 <= w < ins.len() && ins[w] == points[m];
            assert(!has_id_from(batch, ins[w].id, j + 1)) by {
                if has_id_from(batch, ins[w].id, j + 1) {
                    assert(has_id_from(batch, points[m].id, j));
                }
            }
            assert(res.contains(ins[w]));
        }
    }
}

/// Every selected point satisfies every condition and stands in the
/// collection: a filtered search never returns a point whose field differs
/// from the wanted value.
pub proof fn law_search_sound(
    points: Seq<SpecPoint>,
    conds: Seq<SpecCond>,
    i: int,
    room: int,
)
    requires
        0 <= i,
    ensures
        forall|m: int|
            0 <= m < select_from(points, conds, i, room).len() ==> spec_matches(
                #[trigger] select_from(points, conds, i, room)[m],
                conds,
            ) && points.contains(select_from(points, conds, i, room)[m]),
    decreases points.len() - i,
{
    let sel = select_from(points, conds, i, room);
    if i < points.len() && room > 0 {
        if spec_matches(points[i], conds) {
            law_search_sound(points, conds, i + 1, room - 1);
            let rest = select_from(points, conds, i + 1, room - 1);
            assert(sel == seq![points[i]] + rest);
            assert forall|m: int| 0 <= m < sel.len() implies spec_matches(
                #[trigger] sel[m],
                conds,
            ) && points.contains(sel[m]) by {
                if m == 0 {
                    assert(sel[0] == points[i]);
                } else {
                    assert(sel[m] == rest[m - 1]);
                    assert(spec_matches(rest[m - 1], conds));
                }
            }
        } else {
            law_search_sound(points, conds, i + 1, room);
            let rest = select_from(points, conds, i + 1, room);
            assert(sel == rest);
            assert forall|m: int| 0 <= m < sel.len() implies spec_matches(
                #[trigger] sel[m],
                conds,
            ) && points.contains(sel[m]) by {
                assert(sel[m] == rest[m]);
                assert(spec_matches(rest[m], conds));
            }
        }
    }
}

/// A match count is never negative.
proof fn lemma_count_nonneg(points: Seq<SpecPoint>, conds: Seq<SpecCond>, i: int)
    ensures
        count_matching(points, conds, i) >= 0,
    decreases points.len() - i,
{
    if 0 <= i < points.len() {
        lemma_count_nonneg(points, conds, i + 1);
    }
}

/// When the limit admits every match, a filtered search returns every point
/// that satisfies the conditions, whatever the limit's excess.
pub proof fn law_search_complete(points: Seq<SpecPoint>, conds: Seq<SpecCond>, i: int, room: int)
    requires
        0 <= i,
        room >= count_matching(points, conds, i),
    ensures
        forall|j: int|
            i <= j < points.len() && spec_matches(#[trigger] points[j], conds) ==> select_from(
                points,
                conds,
                i,
                room,
            ).contains(points[j]),
    decreases points.len() - i,
{
    let sel = select_from(points, conds, i, room);
    if i < points.len() {
        if spec_matches(points[i], conds) {
            lemma_count_nonneg(points, conds, i + 1);
            assert(room > 0);
            law_search_complete(points, conds, i + 1, room - 1);
            let rest = select_from(points, conds, i + 1, room - 1);
            assert(sel == seq![points[i]] + rest);
            assert forall|j: int|
                i <= j < points.len() && spec_matches(#[trigger] points[j], conds) implies sel
                .contains(points[j]) by {
                if j == i {
                    assert(sel[0] == points[i]);
                } else {
                    assert(rest.contains(points[j]));
                    let w = choose|w: int| 0 <= w < rest.len() && rest[w] == points[j];
                    assert(sel[w + 1] == points[j]);
                }
            }
        } else {
            law_search_complete(points, conds, i + 1, room);
            let rest = select_from(points, conds, i + 1, room);
            assert forall|j: int|
                i <= j < points.len() && spec_matches(#[trigger] points[j], conds) implies sel
                .contains(points[j]) by {
                assert(rest.contains(points[j]));
            }
        }
    }
}

/// Identifiers are unique within a collection: strict sortedness leaves no
/// room for a repeat.
pub proof fn law_identifiers_unique(points: Seq<SpecPoint>)
    requires
        points_sorted(points),
    ensures
        forall|i: int, j: int|
            0 <= i < j < points.len() ==> (#[trigger] points[i]).id != (#[trigger] points[j]).id,
{
    assert forall|i: int, j: int|
        0 <= i < j < points.len() implies (#[trigger] points[i]).id != (
    #[trigger] points[j]).id by {
        assert(id_lt(points[i].id, points[j].id));
        lemma_id_lt_irrefl(points[i].id);
    }
}

/// Every point selected from position `i` on follows position `bound` in the
/// identifier order.
proof fn lemma_select_above(
    points: Seq<SpecPoint>,
    conds: Seq<SpecCond>,
    i: int,
    room: int,
    bound: int,
)
    requires
        points_sorted(points),
        0 <= bound < i,
    ensures
        forall|m: int|
            0 <= m < select_from(points, conds, i, room).len() ==> id_lt(
                points[bound].id,
                (#[trigger] select_from(points, conds, i, room)[m]).id,
            ),
    decreases points.len() - i,
{
    let sel = select_from(points, conds, i, room);
    if i < points.len() && room > 0 {
        if spec_matches(points[i], conds) {
            lemma_select_above(points, conds, i + 1, room - 1, bound);
            let rest = select_from(points, conds, i + 1, room - 1);
            assert(sel == seq![points[i]] + rest);
            assert forall|m: int| 0 <= m < sel.len() implies id_lt(
                points[bound].id,
                (#[trigger] sel[m]).id,
            ) by {
                if m == 0 {
                    assert(sel[0] == points[i]);
                } else {
                    assert(sel[m] == rest[m - 1]);
                    assert(id_lt(points[bound].id, rest[m - 1].id));
                }
            }
        } else {
            lemma_select_above(points, conds, i + 1, room, bound);
            let rest = select_from(points, conds, i + 1, room);
            assert(sel == rest);
            assert forall|m: int| 0 <= m < sel.len() implies id_lt(
                points[bound].id,
                (#[trigger] sel[m]).id,
            ) by {
                assert(sel[m] == rest[m]);
                assert(id_lt(points[bound].id, rest[m].id));
            }
        }
    }
}

/// Determinism of ranking: the selected points, and with them the results,
/// come back in ascending identifier order.
pub proof fn law_results_ordered(points: Seq<SpecPoint>, conds: Seq<SpecCond>, i: int, room: int)
    requires
        0 <= i,
        points_sorted(points),
    ensures
        points_sorted(select_from(points, conds, i, room)),
    decreases points.len() - i,
{
    let sel = select_from(points, conds, i, room);
    if i < points.len() && room > 0 {
        if spec_matches(points[i], conds) {
            law_results_ordered(points, conds, i + 1, room - 1);
            lemma_select_above(points, conds, i + 1, room - 1, i);
            let rest = select_from(points, conds, i + 1, room - 1);
            assert(sel == seq![points[i]] + rest);
            assert forall|m1: int, m2: int| 0 <= m1 < m2 < sel.len() implies id_lt(
                (#[trigger] sel[m1]).id,
                (#[trigger] sel[m2]).id,
            ) by {
                assert(sel[m2] == rest[m2 - 1]);
                if m1 == 0 {
                    assert(sel[0] == points[i]);
                    assert(id_lt(points[i].id, rest[m2 - 1].id));
                } else {
                    assert(sel[m1] == rest[m1 - 1]);
                    assert(id_lt(rest[m1 - 1].id, rest[m2 - 1].id));
                }
            }
        } else {
            law_results_ordered(points, conds, i + 1, room);
            let rest = select_from(points, conds, i + 1, room);
            assert(sel == rest);
            assert forall|m1: int, m2: int| 0 <= m1 < m2 < sel.len() implies id_lt(
                (#[trigger] sel[m1]).id,
                (#[trigger] sel[m2]).id,
            ) by {
                assert(sel[m1] == rest[m1] && sel[m2] == rest[m2]);
            }
        }
    }
}

/// Visibility and round-trip: after a batch is applied, a search whose
/// conditions the batch's last write to an identifier satisfies, asked with
/// payload data and a limit admitting every match, returns a result carrying
/// that identifier and exactly the payload that was written.
pub proof fn law_upsert_then_search(
    points: Seq<SpecPoint>,
    batch: Seq<SpecPoint>,
    t: int,
    conds: Seq<SpecCond>,
    limit: int,
)
    requires
        points_sorted(points),
        0 <= t < batch.len(),
        !has_id_from(batch, batch[t].id, t + 1),
        spec_matches(batch[t], conds),
        limit >= count_matching(spec_apply(points, batch, 0), conds, 0),
    ensures
        exists|m: int|
            #![trigger results_of(select_from(spec_apply(points, batch, 0), conds, 0, limit), true)[m]]
            {
                &&& 0 <= m < results_of(
                    select_from(spec_apply(points, batch, 0), conds, 0, limit),
                    true,
                ).len()
                &&& results_of(select_from(spec_apply(points, batch, 0), conds, 0, limit), true)[m].id
                    == batch[t].id
                &&& results_of(select_from(spec_apply(points, batch, 0), conds, 0, limit), true)[m].payload
                    == Some(batch[t].payload)
            },
{
    let applied = spec_apply(points, batch, 0);
    law_upsert_contents(points, batch, 0);
    assert(applied.contains(batch[t]));
    law_search_complete(applied, conds, 0, limit);
    let w = choose|w: int| 0 <= w < applied.len() && applied[w] == batch[t];
    assert(select_from(applied, conds, 0, limit).contains(applied[w]));
    let sel = select_from(applied, conds, 0, limit);
    let m = choose|m: int| 0 <= m < sel.len() && sel[m] == batch[t];
    let rs = results_of(sel, true);
    assert(rs[m] == mk_result(batch[t], true));
}

/// Deletion is observable: once the only collection of a name is removed
/// from a well-formed store, no lookup of that name succeeds.
pub proof fn law_delete_removes_name(s: Seq<SpecCollection>, name: Seq<char>)
    requires
        store_wf(s),
        find_idx(s, name, 0) >= 0,
    ensures
        find_idx(s.remove(find_idx(s, name, 0)), name, 0) == -1,
{
    let k = find_idx(s, name, 0);
    lemma_find_idx(s, name, 0);
    let rest = s.remove(k);
    s.remove_ensures(k);
    assert forall|j: int| 0 <= j < rest.len() implies rest[j].name != name by {
        if j < k {
            assert(rest[j] == s[j]);
            lemma_find_idx_prefix(s, name, 0, j);
        } else {
            assert(rest[j] == s[j + 1]);
            assert(s[k].name == name);
            assert(s[k].name != s[j + 1].name);
        }
    }
    lemma_find_idx(rest, name, 0);
    if find_idx(rest, name, 0) >= 0 {
        assert(rest[find_idx(rest, name, 0)].name == name);
    }
}

/// Positions before the first hit of `find_idx` never carry the name.
proof fn lemma_find_idx_prefix(s: Seq<SpecCollection>, name: Seq<char>, i: int, j: int)
    requires
        0 <= i <= j < s.len(),
        find_idx(s, name, i) > j || find_idx(s, name, i) == -1,
    ensures
        s[j].name != name,
    decreases j - i,
{
    if i < j {
        lemma_find_idx_prefix(s, name, i + 1, j);
    }
}

} // verus!
