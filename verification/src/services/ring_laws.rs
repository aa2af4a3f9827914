//! What changes of the pressings of a disc do to those that they name and to the others.

use vstd::prelude::*;

use crate::json::{self, JsonView};
use crate::order;
use crate::services::changes;
use crate::services::disc_service;
use crate::services::ring_history::{self, RingState};

verus! {

/// A change means a pressing: by its id, or without an id by what it says of the pressing.
pub open spec fn touches(change: JsonView, ring: JsonView, removed: Seq<i32>) -> bool {
    match ring_history::id_of(change) {
        Some(id) => ring_history::id_of(ring) == Some(id),
        None => ring_history::ring_matches(ring, change, removed),
    }
}

/// No two pressings have the same id.
pub open spec fn ids_differ(rings: Seq<JsonView>) -> bool {
    forall|i: int, j: int|
        0 <= i < j < rings.len() && ring_history::id_of(#[trigger] rings[i]) is Some ==> ring_history::id_of(
            #[trigger] rings[j],
        ) != ring_history::id_of(rings[i])
}

// ── Ids ────────────────────────────────────────────────────────────────────

proof fn lemma_set_key_id(v: JsonView, key: Seq<char>, x: JsonView)
    requires
        key != "id"@,
    ensures
        ring_history::id_of(ring_history::set_key(v, key, x)) == ring_history::id_of(v),
{
    if ring_history::settable(v) {
        ring_history::lemma_set_key(v, key, x, "id"@);
    }
}

proof fn lemma_field_step_id(v: JsonView, change: JsonView, from: Seq<char>, to: Seq<char>)
    requires
        to != "id"@,
    ensures
        ring_history::field_step(Ok(v), change, from, to) matches Ok(w) ==> ring_history::id_of(w) == ring_history::id_of(v),
{
    if let Some(node) = json::get(change, from) {
        if let Ok(x) = changes::scalar_op(node) {
            lemma_set_key_id(v, to, JsonView::Str(ring_history::op_text(x)));
        }
    }
}

proof fn lemma_layer_changes_id(v: JsonView, changes: Seq<JsonView>, merge: bool)
    ensures
        ring_history::layer_changes(v, changes, merge) matches Ok(w) ==> ring_history::id_of(w) == ring_history::id_of(v),
    decreases changes.len(),
{
    reveal_strlit("id");
    reveal_strlit("layers");
    assert("id"@.len() != "layers"@.len());
    if changes.len() > 0 {
        if let Some(n) = ring_history::layer_index(changes[0]) {
            let ls = ring_history::grown_layers(v, n);
            if let Ok(l) = ring_history::layer_fields(ls[n as int], changes[0], merge) {
                lemma_set_key_id(v, "layers"@, JsonView::Arr(ls.update(n as int, l)));
            }
        }
        if let Ok(w) = ring_history::layer_change(v, changes[0], merge) {
            lemma_layer_changes_id(w, changes.drop_first(), merge);
        }
    }
}

pub proof fn lemma_entry_change_id(v: JsonView, change: JsonView, merge: bool)
    ensures
        ring_history::entry_change(v, change, merge) matches Ok(w) ==> ring_history::id_of(w) == ring_history::id_of(v),
{
    reveal_strlit("id");
    reveal_strlit("offset_value");
    reveal_strlit("offset_extra_value");
    reveal_strlit("sample_start");
    reveal_strlit("comment");
    assert("id"@.len() == 2 && "offset_value"@.len() == 12 && "offset_extra_value"@.len() == 18);
    assert("sample_start"@.len() == 12 && "comment"@.len() == 7);
    lemma_field_step_id(v, change, "offset_value"@, "offset_value"@);
    if let Ok(a) = ring_history::field_step(Ok(v), change, "offset_value"@, "offset_value"@) {
        lemma_field_step_id(a, change, "offset_extra_value"@, "offset_extra_value"@);
        if let Ok(b) = ring_history::field_step(Ok(a), change, "offset_extra_value"@, "offset_extra_value"@) {
            lemma_field_step_id(b, change, "sample_data_start"@, "sample_start"@);
            if let Ok(c) = ring_history::field_step(Ok(b), change, "sample_data_start"@, "sample_start"@) {
                lemma_field_step_id(c, change, "comment"@, "comment"@);
                if let Ok(d) = ring_history::field_step(Ok(c), change, "comment"@, "comment"@) {
                    lemma_layer_changes_id(d, json::list_or_empty(json::field(change, "layers"@)), merge);
                }
            }
        }
    }
}

proof fn lemma_blank_entry_id()
    ensures
        ring_history::id_of(ring_history::blank_entry()) is None,
{
    reveal_strlit("id");
    reveal_strlit("offset_value");
    reveal_strlit("offset_extra_value");
    reveal_strlit("sample_start");
    reveal_strlit("comment");
    reveal_strlit("layers");
    assert("id"@.len() == 2 && "offset_value"@.len() == 12 && "offset_extra_value"@.len() == 18);
    assert("sample_start"@.len() == 12 && "comment"@.len() == 7 && "layers"@.len() == 6);
    let none = JsonView::Str(Seq::empty());
    let e = Seq::<(Seq<char>, JsonView)>::empty();
    json::lemma_lookup_put(e, "offset_value"@, none, "id"@);
    let e = json::put(e, "offset_value"@, none);
    json::lemma_lookup_put(e, "offset_extra_value"@, none, "id"@);
    let e = json::put(e, "offset_extra_value"@, none);
    json::lemma_lookup_put(e, "sample_start"@, none, "id"@);
    let e = json::put(e, "sample_start"@, none);
    json::lemma_lookup_put(e, "comment"@, none, "id"@);
    let e = json::put(e, "comment"@, none);
    json::lemma_lookup_put(e, "layers"@, JsonView::Arr(Seq::empty()), "id"@);
}

// ── One change ─────────────────────────────────────────────────────────────

/// What a change does to the state: the pressings keep their ids and places, what it does
/// not mean stays, what it adds has no id, and what it removes has its id.
spec fn is_step(s: RingState, change: JsonView, removed: Seq<i32>, t: RingState) -> bool {
    &&& t.rings.len() == s.rings.len()
    &&& forall|k: int| 0 <= k < s.rings.len() ==> ring_history::id_of(#[trigger] t.rings[k]) == ring_history::id_of(s.rings[k])
    &&& forall|k: int|
        0 <= k < s.rings.len() && !touches(change, s.rings[k], removed) ==> #[trigger] t.rings[k]
            == s.rings[k]
    &&& t.additions == s.additions || (t.additions.len() > 0 && t.additions.drop_last()
        == s.additions && ring_history::id_of(t.additions.last()) is None)
    &&& if ring_history::id_of(change) is Some && ring_history::is_removal(change) {
        &&& t.removals.len() > 0
        &&& t.removals.drop_last() == s.removals
        &&& 0 <= t.removals.last() < s.rings.len()
        &&& ring_history::id_of(s.rings[t.removals.last()]) == ring_history::id_of(change)
    } else {
        t.removals == s.removals
    }
}

proof fn lemma_step(s: RingState, change: JsonView, removed: Seq<i32>)
    ensures
        ring_history::ring_step(s, change, removed) matches Ok(t) ==> is_step(s, change, removed, t),
        ring_history::id_of(change) matches Some(id) ==> (ring_history::ring_step(s, change, removed) is Ok ==> exists|k: int|
            0 <= k < s.rings.len() && ring_history::id_of(#[trigger] s.rings[k]) == Some(id)),
{
    match ring_history::id_of(change) {
        Some(id) => {
            ring_history::lemma_position_from(s.rings, id, 0);
            if let Some(i) = ring_history::position_from(s.rings, id, 0) {
                lemma_entry_change_id(s.rings[i], change, false);
                if ring_history::is_removal(change) {
                    assert(s.removals.push(i).drop_last() =~= s.removals);
                }
            }
        },
        None => {
            ring_history::lemma_match_from(s.rings, change, removed, 0);
            match ring_history::matching_ring(s.rings, change, removed) {
                Some(i) => {
                        lemma_entry_change_id(s.rings[i], change, true);
                },
                None => {
                    lemma_blank_entry_id();
                    lemma_entry_change_id(ring_history::blank_entry(), change, false);
                    if let Ok(v) = ring_history::entry_change(ring_history::blank_entry(), change, false) {
                        assert(s.additions.push(v).drop_last() =~= s.additions);
                    }
                },
            }
        },
    }
}

// ── All changes ────────────────────────────────────────────────────────────

/// What was added so far has no id.
spec fn additions_have_no_id(s: RingState) -> bool {
    forall|k: int| 0 <= k < s.additions.len() ==> ring_history::id_of(#[trigger] s.additions[k]) is None
}

proof fn lemma_steps(s: RingState, changes: Seq<JsonView>, removed: Seq<i32>)
    requires
        additions_have_no_id(s),
    ensures
        ring_history::ring_steps(s, changes, removed) matches Ok(t) ==> {
            &&& t.rings.len() == s.rings.len()
            &&& forall|k: int|
                0 <= k < s.rings.len() ==> ring_history::id_of(#[trigger] t.rings[k]) == ring_history::id_of(s.rings[k])
            &&& additions_have_no_id(t)
            &&& forall|p: int| #[trigger] s.removals.contains(p) ==> t.removals.contains(p)
        },
    decreases changes.len(),
{
    if changes.len() > 0 {
        lemma_step(s, changes[0], removed);
        if let Ok(t) = ring_history::ring_step(s, changes[0], removed) {
            assert forall|k: int| 0 <= k < t.additions.len() implies ring_history::id_of(
                #[trigger] t.additions[k],
            ) is None by {
                if t.additions != s.additions {
                    if k < t.additions.len() - 1 {
                        assert(t.additions.drop_last()[k] == t.additions[k]);
                        assert(ring_history::id_of(s.additions[k]) is None);
                    }
                }
            }
            assert forall|p: int| #[trigger] s.removals.contains(p) implies t.removals.contains(
                p,
            ) by {
                let i = choose|i: int| 0 <= i < s.removals.len() && s.removals[i] == p;
                if t.removals != s.removals {
                    assert(t.removals.drop_last()[i] == p);
                    assert(t.removals[i] == p);
                }
            }
            lemma_steps(t, changes.drop_first(), removed);
        }
    }
}

proof fn lemma_untouched(s: RingState, changes: Seq<JsonView>, removed: Seq<i32>, k: int)
    requires
        0 <= k < s.rings.len(),
        !s.removals.contains(k),
        forall|j: int|
            0 <= j < changes.len() ==> !touches(#[trigger] changes[j], s.rings[k], removed),
    ensures
        ring_history::ring_steps(s, changes, removed) matches Ok(t) ==> {
            &&& t.rings.len() == s.rings.len()
            &&& t.rings[k] == s.rings[k]
            &&& !t.removals.contains(k)
        },
    decreases changes.len(),
{
    if changes.len() > 0 {
        lemma_step(s, changes[0], removed);
        if let Ok(t) = ring_history::ring_step(s, changes[0], removed) {
            assert(!touches(changes[0], s.rings[k], removed));
            assert(t.rings[k] == s.rings[k]);
            if t.removals.contains(k) {
                let i = choose|i: int| 0 <= i < t.removals.len() && t.removals[i] == k;
                if t.removals != s.removals {
                    if i < t.removals.len() - 1 {
                        assert(t.removals.drop_last()[i] == k);
                        assert(s.removals[i] == k);
                    }
                } else {
                    assert(s.removals[i] == k);
                }
            }
            let rest = changes.drop_first();
            assert forall|j: int| 0 <= j < rest.len() implies !touches(
                #[trigger] rest[j],
                t.rings[k],
                removed,
            ) by {
                assert(rest[j] == changes[j + 1]);
            }
            lemma_untouched(t, rest, removed, k);
        }
    }
}

proof fn lemma_named(s: RingState, changes: Seq<JsonView>, removed: Seq<i32>, j: int)
    requires
        additions_have_no_id(s),
        0 <= j < changes.len(),
        ring_history::id_of(changes[j]) is Some,
    ensures
        ring_history::ring_steps(s, changes, removed) matches Ok(t) ==> {
            &&& exists|k: int|
                0 <= k < s.rings.len() && ring_history::id_of(#[trigger] s.rings[k]) == ring_history::id_of(changes[j])
            &&& ring_history::is_removal(changes[j]) ==> exists|p: int|
                0 <= p < t.rings.len() && ring_history::id_of(#[trigger] t.rings[p]) == ring_history::id_of(changes[j])
                    && t.removals.contains(p)
        },
    decreases changes.len(),
{
    let id = ring_history::id_of(changes[j]);
    lemma_step(s, changes[0], removed);
    if let Ok(t) = ring_history::ring_step(s, changes[0], removed) {
        let rest = changes.drop_first();
        lemma_additions(s, changes[0], removed);
        lemma_steps(t, rest, removed);
        if j == 0 {
            if ring_history::is_removal(changes[0]) {
                let p = t.removals.last();
                assert(t.removals[t.removals.len() - 1] == p);
                assert(t.removals.contains(p));
                if let Ok(u) = ring_history::ring_steps(t, rest, removed) {
                    assert(ring_history::id_of(u.rings[p]) == id);
                }
            }
        } else {
            assert(rest[j - 1] == changes[j]);
            lemma_named(t, rest, removed, j - 1);
            if ring_history::ring_steps(t, rest, removed) is Ok {
                let k = choose|k: int|
                    0 <= k < t.rings.len() && ring_history::id_of(#[trigger] t.rings[k]) == id;
                assert(ring_history::id_of(s.rings[k]) == id);
            }
        }
    }
}

proof fn lemma_additions(s: RingState, change: JsonView, removed: Seq<i32>)
    requires
        additions_have_no_id(s),
    ensures
        ring_history::ring_step(s, change, removed) matches Ok(t) ==> additions_have_no_id(t),
{
    lemma_step(s, change, removed);
    if let Ok(t) = ring_history::ring_step(s, change, removed) {
        assert forall|k: int| 0 <= k < t.additions.len() implies ring_history::id_of(
            #[trigger] t.additions[k],
        ) is None by {
            if t.additions != s.additions && k < t.additions.len() - 1 {
                assert(t.additions.drop_last()[k] == t.additions[k]);
                assert(ring_history::id_of(s.additions[k]) is None);
            }
        }
    }
}

proof fn lemma_kept_holds(rs: Seq<JsonView>, removals: Seq<int>, k: int)
    requires
        0 <= k < rs.len(),
        !removals.contains(k),
    ensures
        ring_history::kept(rs, removals).contains(rs[k]),
    decreases rs.len(),
{
    let before = ring_history::kept(rs.drop_last(), removals);
    if k == rs.len() - 1 {
        assert(before.push(rs.last())[before.len() as int] == rs[k]);
    } else {
        lemma_kept_holds(rs.drop_last(), removals, k);
        assert(rs.drop_last()[k] == rs[k]);
        let i = choose|i: int| 0 <= i < before.len() && before[i] == rs[k];
        if !removals.contains(rs.len() - 1) {
            assert(before.push(rs.last())[i] == rs[k]);
        }
    }
}

proof fn lemma_kept_is_of(rs: Seq<JsonView>, removals: Seq<int>)
    ensures
        forall|i: int|
            0 <= i < ring_history::kept(rs, removals).len() ==> exists|k: int|
                0 <= k < rs.len() && !removals.contains(k) && rs[k] == #[trigger] ring_history::kept(
                    rs,
                    removals,
                )[i],
    decreases rs.len(),
{
    if rs.len() > 0 {
        let p = rs.drop_last();
        let before = ring_history::kept(p, removals);
        let all = ring_history::kept(rs, removals);
        lemma_kept_is_of(p, removals);
        assert forall|i: int| 0 <= i < all.len() implies exists|k: int|
            0 <= k < rs.len() && !removals.contains(k) && rs[k] == #[trigger] all[i] by {
            if i < before.len() {
                assert(all[i] == before[i]);
                let k = choose|k: int|
                    0 <= k < p.len() && !removals.contains(k) && p[k] == before[i];
                assert(rs[k] == all[i]);
            } else {
                assert(rs[rs.len() - 1] == all[i]);
            }
        }
    }
}

pub proof fn lemma_ordered_holds(rs: Seq<JsonView>)
    ensures
        ring_history::ordered_rings(rs).len() == rs.len(),
        forall|r: JsonView| #[trigger] ring_history::ordered_rings(rs).contains(r) <==> rs.contains(r),
        ids_differ(rs) ==> ids_differ(ring_history::ordered_rings(rs)),
{
    let ks = disc_service::ring_keys(rs, ring_history::max_layers(rs));
    let o = order::stable_order(ks);
    let all = ring_history::ordered_rings(rs);
    order::law_stable_order(ks);
    assert(all.len() == rs.len());
    assert forall|r: JsonView| #[trigger] all.contains(r) <==> rs.contains(r) by {
        if all.contains(r) {
            let i = choose|i: int| 0 <= i < all.len() && all[i] == r;
            assert(rs[o[i]] == r);
        }
        if rs.contains(r) {
            let k = choose|k: int| 0 <= k < rs.len() && rs[k] == r;
            assert(o.contains(k));
            let i = choose|i: int| 0 <= i < o.len() && o[i] == k;
            assert(all[i] == r);
        }
    }
    if ids_differ(rs) {
        assert forall|i: int, j: int|
            0 <= i < j < all.len() && ring_history::id_of(#[trigger] all[i]) is Some implies ring_history::id_of(
            #[trigger] all[j],
        ) != ring_history::id_of(all[i]) by {
            assert(all[i] == rs[o[i]] && all[j] == rs[o[j]]);
            assert(o[i] != o[j]);
            if o[i] < o[j] {
                assert(ring_history::id_of(rs[o[j]]) != ring_history::id_of(rs[o[i]]));
            } else if ring_history::id_of(rs[o[j]]) is Some {
                assert(ring_history::id_of(rs[o[i]]) != ring_history::id_of(rs[o[j]]));
            }
        }
    }
}

/// The state before any change.
spec fn start_of(old: JsonView) -> RingState {
    RingState {
        rings: ring_history::ordered_rings(json::list_or_empty(old)),
        additions: Seq::empty(),
        removals: Seq::empty(),
    }
}

/// A pressing that no change means stays as it is.
pub proof fn law_other_pressings_stay(old: JsonView, changes: Seq<JsonView>, ring: JsonView)
    requires
        json::list_or_empty(old).contains(ring),
        forall|j: int|
            0 <= j < changes.len() ==> !touches(#[trigger] changes[j], ring, ring_history::removed_ids(changes)),
    ensures
        ring_history::ring_history(old, JsonView::Arr(changes)) matches Ok(rs) ==> rs.contains(ring),
{
    let removed = ring_history::removed_ids(changes);
    let s = start_of(old);
    lemma_ordered_holds(json::list_or_empty(old));
    assert(s.rings.contains(ring));
    let k = choose|k: int| 0 <= k < s.rings.len() && s.rings[k] == ring;
    lemma_untouched(s, changes, removed, k);
    if let Ok(t) = ring_history::ring_steps(s, changes, removed) {
        lemma_kept_holds(t.rings, t.removals, k);
        let left = ring_history::kept(t.rings, t.removals);
        let i = choose|i: int| 0 <= i < left.len() && left[i] == ring;
        assert((left + t.additions)[i] == ring);
        assert((left + t.additions).contains(ring));
        lemma_ordered_holds(left + t.additions);
    }
}

/// A change that names a pressing by an id that none has is refused.
pub proof fn law_unknown_pressings_are_refused(old: JsonView, changes: Seq<JsonView>, j: int)
    requires
        0 <= j < changes.len(),
        ring_history::id_of(changes[j]) is Some,
        forall|k: int|
            0 <= k < json::list_or_empty(old).len() ==> ring_history::id_of(#[trigger] json::list_or_empty(old)[k]) != ring_history::id_of(
                changes[j],
            ),
    ensures
        ring_history::ring_history(old, JsonView::Arr(changes)) is Err,
{
    let removed = ring_history::removed_ids(changes);
    let s = start_of(old);
    let list = json::list_or_empty(old);
    lemma_ordered_holds(list);
    lemma_named(s, changes, removed, j);
    if ring_history::ring_steps(s, changes, removed) is Ok {
        let k = choose|k: int|
            0 <= k < s.rings.len() && ring_history::id_of(#[trigger] s.rings[k]) == ring_history::id_of(changes[j]);
        assert(s.rings.contains(s.rings[k]));
        assert(list.contains(s.rings[k]));
        let m = choose|m: int| 0 <= m < list.len() && list[m] == s.rings[k];
        assert(ring_history::id_of(list[m]) == ring_history::id_of(changes[j]));
    }
}

/// A pressing that is removed is gone, whatever else the changes do.
pub proof fn law_removed_pressings_are_gone(old: JsonView, changes: Seq<JsonView>, j: int)
    requires
        ids_differ(json::list_or_empty(old)),
        0 <= j < changes.len(),
        ring_history::id_of(changes[j]) is Some,
        ring_history::is_removal(changes[j]),
    ensures
        ring_history::ring_history(old, JsonView::Arr(changes)) matches Ok(rs) ==> forall|i: int|
            0 <= i < rs.len() ==> ring_history::id_of(#[trigger] rs[i]) != ring_history::id_of(changes[j]),
{
    let removed = ring_history::removed_ids(changes);
    let s = start_of(old);
    let id = ring_history::id_of(changes[j]);
    lemma_ordered_holds(json::list_or_empty(old));
    lemma_named(s, changes, removed, j);
    lemma_steps(s, changes, removed);
    if let Ok(t) = ring_history::ring_steps(s, changes, removed) {
        let p = choose|p: int|
            0 <= p < t.rings.len() && ring_history::id_of(#[trigger] t.rings[p]) == id && t.removals.contains(p);
        let left = ring_history::kept(t.rings, t.removals);
        lemma_kept_is_of(t.rings, t.removals);
        lemma_ordered_holds(left + t.additions);
        let rs = ring_history::ordered_rings(left + t.additions);
        assert forall|i: int| 0 <= i < rs.len() implies ring_history::id_of(#[trigger] rs[i]) != id by {
            assert(rs.contains(rs[i]));
            let all = left + t.additions;
            assert(all.contains(rs[i]));
            let m = choose|m: int| 0 <= m < all.len() && all[m] == rs[i];
            if m < left.len() {
                assert(left[m] == rs[i]);
                let k = choose|k: int|
                    0 <= k < t.rings.len() && !t.removals.contains(k) && t.rings[k] == left[m];
                assert(k != p);
                assert(ring_history::id_of(t.rings[k]) == ring_history::id_of(s.rings[k]));
                assert(ring_history::id_of(t.rings[p]) == ring_history::id_of(s.rings[p]));
                if k < p {
                    assert(ring_history::id_of(s.rings[k]) is Some ==> ring_history::id_of(s.rings[p]) != ring_history::id_of(s.rings[k]));
                } else {
                    assert(ring_history::id_of(s.rings[p]) is Some ==> ring_history::id_of(s.rings[k]) != ring_history::id_of(s.rings[p]));
                }
            } else {
                assert(t.additions[m - left.len()] == rs[i]);
            }
        }
    }
}

} // verus!
