//! What a change of a pressing leaves in its fields and in those of its layers.

use vstd::prelude::*;

use crate::error::ErrorView;
use crate::json::{self, JsonView};
use crate::json_text;
use crate::services::changes;
use crate::services::ring_history::{self, RingState};
use crate::services::ring_laws;
use crate::services::stamp_laws;
use crate::text;

verus! {

// ── Operations ─────────────────────────────────────────────────────────────

/// An object with one entry.
pub open spec fn one(key: Seq<char>, v: JsonView) -> JsonView {
    JsonView::Obj(seq![(key, v)])
}

/// The operation that gives a field its first value.
pub open spec fn adding(new: JsonView) -> JsonView {
    one("add"@, one("new"@, new))
}

/// The operation that gives a field another value.
pub open spec fn replacing(old: JsonView, new: JsonView) -> JsonView {
    one("modify"@, JsonView::Obj(seq![("new"@, new), ("old"@, old)]))
}

/// The operation that takes the value of a field away.
pub open spec fn removing(old: JsonView) -> JsonView {
    one("remove"@, one("old"@, old))
}

pub proof fn lemma_lookup_one(key: Seq<char>, v: JsonView, other: Seq<char>)
    ensures
        json::lookup(seq![(key, v)], other) == (if other == key {
            Some(v)
        } else {
            None
        }),
{
    reveal_with_fuel(json::lookup, 3);
    let s = seq![(key, v)];
    assert(s.drop_first() =~= Seq::<(Seq<char>, JsonView)>::empty());
}

pub proof fn lemma_lookup_two(
    a: Seq<char>,
    x: JsonView,
    b: Seq<char>,
    y: JsonView,
    other: Seq<char>,
)
    ensures
        json::lookup(seq![(a, x), (b, y)], other) == (if other == a {
            Some(x)
        } else if other == b {
            Some(y)
        } else {
            None
        }),
{
    let s = seq![(a, x), (b, y)];
    assert(s.drop_first() =~= seq![(b, y)]);
    lemma_lookup_one(b, y, other);
}

pub proof fn lemma_operation_names()
    ensures
        "add"@ != "modify"@,
        "add"@ != "remove"@,
        "modify"@ != "remove"@,
        "old"@ != "new"@,
{
    reveal_strlit("add");
    reveal_strlit("modify");
    reveal_strlit("remove");
    reveal_strlit("old");
    reveal_strlit("new");
    assert("add"@.len() == 3 && "modify"@.len() == 6 && "remove"@.len() == 6);
    assert("modify"@[0] == 'm' && "remove"@[0] == 'r');
    assert("old"@[0] == 'o' && "new"@[0] == 'n');
}

/// Adding and replacing give the new value and never the old one; removing gives none.
pub proof fn law_operations_give_their_value(old: JsonView, new: JsonView)
    ensures
        changes::scalar_op(adding(new)) == Ok::<Option<JsonView>, ErrorView>(Some(new)),
        changes::scalar_op(replacing(old, new)) == Ok::<Option<JsonView>, ErrorView>(Some(new)),
        changes::scalar_op(removing(old)) == Ok::<Option<JsonView>, ErrorView>(None),
{
    lemma_operation_names();
    assert forall|k: Seq<char>, v: JsonView, other: Seq<char>|
        #[trigger] json::lookup(seq![(k, v)], other) == (if other == k {
            Some(v)
        } else {
            None
        }) by {
        lemma_lookup_one(k, v, other);
    }
    lemma_lookup_two("new"@, new, "old"@, old, "new"@);
    lemma_lookup_two("new"@, new, "old"@, old, "old"@);
    let a = seq![("add"@, one("new"@, new))];
    let m = seq![("modify"@, JsonView::Obj(seq![("new"@, new), ("old"@, old)]))];
    let r = seq![("remove"@, one("old"@, old))];
    assert(!changes::has_unknown_op(a)) by {
        assert(a[0].0 == "add"@);
    }
    assert(!changes::has_unknown_op(m)) by {
        assert(m[0].0 == "modify"@);
    }
    assert(!changes::has_unknown_op(r)) by {
        assert(r[0].0 == "remove"@);
    }
}

/// An operation that is accepted is an object whose keys are among the names of the
/// operations. A value that it gives is the new value of its one operation, and one that
/// gives none is a removal.
pub proof fn law_accepted_operations(node: JsonView)
    requires
        changes::scalar_op(node) is Ok,
    ensures
        node matches JsonView::Obj(es) && forall|i: int|
            0 <= i < es.len() ==> ((#[trigger] es[i]).0 == "add"@ || es[i].0 == "modify"@
                || es[i].0 == "remove"@),
        !(json::get(node, "add"@) is Some && json::get(node, "modify"@) is Some),
        !(json::get(node, "add"@) is Some && json::get(node, "remove"@) is Some),
        !(json::get(node, "modify"@) is Some && json::get(node, "remove"@) is Some),
        json::get(node, "add"@) is Some ==> changes::scalar_op(node)->Ok_0 == json::get(json::field(node, "add"@), "new"@)
            && json::get(json::field(node, "add"@), "new"@) is Some,
        json::get(node, "modify"@) is Some ==> changes::scalar_op(node)->Ok_0 == json::get(
            json::field(node, "modify"@),
            "new"@,
        ) && json::get(json::field(node, "modify"@), "new"@) is Some && json::get(
            json::field(node, "modify"@),
            "old"@,
        ) is Some,
        json::get(node, "remove"@) is Some ==> changes::scalar_op(node)->Ok_0 is None,
        changes::scalar_op(node)->Ok_0 is None ==> json::get(node, "remove"@) is Some,
{
    if let JsonView::Obj(es) = node {
        assert forall|i: int| 0 <= i < es.len() implies ((#[trigger] es[i]).0 == "add"@ || es[i].0
            == "modify"@ || es[i].0 == "remove"@) by {
            assert(changes::is_scalar_op(es[i].0));
        }
    }
}

// ── The fields of a pressing ───────────────────────────────────────────────

/// The text that the value of an operation leaves in a field of a pressing.
pub open spec fn leaves_text(v: Option<JsonView>, t: Seq<char>) -> bool {
    match v {
        None => t.len() == 0,
        Some(JsonView::Null) => t.len() == 0,
        Some(JsonView::Str(s)) => t == s,
        Some(x) => t == json_text::json_text(x),
    }
}

/// A field holds what a change says under one of its keys, or what it held where the change
/// does not say anything.
pub open spec fn follows(
    before: JsonView,
    after: JsonView,
    change: JsonView,
    said: Seq<char>,
    key: Seq<char>,
) -> bool {
    match json::get(change, said) {
        None => json::get(after, key) == json::get(before, key),
        Some(node) => {
            &&& changes::scalar_op(node) is Ok
            &&& json::get(after, key) matches Some(JsonView::Str(t)) && leaves_text(
                changes::scalar_op(node)->Ok_0,
                t,
            )
        },
    }
}

proof fn lemma_keys_differ()
    ensures
        "offset_value"@ != "offset_extra_value"@,
        "offset_value"@ != "sample_start"@,
        "offset_value"@ != "comment"@,
        "offset_value"@ != "layers"@,
        "offset_value"@ != "id"@,
        "offset_extra_value"@ != "sample_start"@,
        "offset_extra_value"@ != "comment"@,
        "offset_extra_value"@ != "layers"@,
        "offset_extra_value"@ != "id"@,
        "sample_start"@ != "comment"@,
        "sample_start"@ != "layers"@,
        "sample_start"@ != "id"@,
        "comment"@ != "layers"@,
        "comment"@ != "id"@,
        "layers"@ != "id"@,
{
    reveal_strlit("offset_value");
    reveal_strlit("offset_extra_value");
    reveal_strlit("sample_start");
    reveal_strlit("comment");
    reveal_strlit("layers");
    reveal_strlit("id");
    assert("offset_value"@.len() == 12 && "offset_extra_value"@.len() == 18);
    assert("sample_start"@.len() == 12 && "comment"@.len() == 7 && "layers"@.len() == 6);
    assert("id"@.len() == 2);
    assert("offset_value"@[0] == 'o' && "sample_start"@[0] == 's');
}

proof fn lemma_step_sets(v: JsonView, change: JsonView, said: Seq<char>, key: Seq<char>)
    requires
        ring_history::settable(v),
        ring_history::field_step(Ok(v), change, said, key) is Ok,
    ensures
        ({
            let w = ring_history::field_step(Ok(v), change, said, key)->Ok_0;
            &&& ring_history::settable(w)
            &&& follows(v, w, change, said, key)
            &&& forall|other: Seq<char>| other != key ==> #[trigger] json::get(w, other) == json::get(v, other)
        }),
{
    if let Some(node) = json::get(change, said) {
        let x = JsonView::Str(ring_history::op_text(changes::scalar_op(node)->Ok_0));
        ring_history::lemma_set_key(v, key, x, key);
        assert forall|other: Seq<char>| other != key implies #[trigger] json::get(
            ring_history::set_key(v, key, x),
            other,
        ) == json::get(v, other) by {
            ring_history::lemma_set_key(v, key, x, other);
        }
    }
}

proof fn lemma_layer_changes_keep_fields(v: JsonView, changes: Seq<JsonView>, merge: bool)
    requires
        ring_history::settable(v),
        ring_history::layer_changes(v, changes, merge) is Ok,
    ensures
        ring_history::settable(ring_history::layer_changes(v, changes, merge)->Ok_0),
        forall|other: Seq<char>|
            other != "layers"@ ==> #[trigger] json::get(ring_history::layer_changes(v, changes, merge)->Ok_0, other)
                == json::get(v, other),
    decreases changes.len(),
{
    if changes.len() > 0 {
        let w = ring_history::layer_change(v, changes[0], merge)->Ok_0;
        if let Some(n) = ring_history::layer_index(changes[0]) {
            let ls = ring_history::grown_layers(v, n);
            let l = ring_history::layer_fields(ls[n as int], changes[0], merge)->Ok_0;
            let x = JsonView::Arr(ls.update(n as int, l));
            ring_history::lemma_set_key(v, "layers"@, x, "layers"@);
            assert forall|other: Seq<char>| other != "layers"@ implies #[trigger] json::get(w, other)
                == json::get(v, other) by {
                ring_history::lemma_set_key(v, "layers"@, x, other);
            }
        }
        lemma_layer_changes_keep_fields(w, changes.drop_first(), merge);
    }
}

/// A change sets the fields of a pressing that it speaks of, each to what it says of that
/// field, and no other: the offset, the extra offset, the start of the samples, which a
/// change calls the start of the sample data, and the comment. Whatever else the pressing
/// holds, its id among it, stays.
pub proof fn law_change_sets_the_fields_it_names(entry: JsonView, change: JsonView, merge: bool)
    requires
        ring_history::settable(entry),
        ring_history::entry_change(entry, change, merge) is Ok,
    ensures
        ({
            let w = ring_history::entry_change(entry, change, merge)->Ok_0;
            &&& ring_history::settable(w)
            &&& follows(entry, w, change, "offset_value"@, "offset_value"@)
            &&& follows(entry, w, change, "offset_extra_value"@, "offset_extra_value"@)
            &&& follows(entry, w, change, "sample_data_start"@, "sample_start"@)
            &&& follows(entry, w, change, "comment"@, "comment"@)
            &&& forall|other: Seq<char>|
                other != "offset_value"@ && other != "offset_extra_value"@ && other
                    != "sample_start"@ && other != "comment"@ && other != "layers"@
                    ==> #[trigger] json::get(w, other) == json::get(entry, other)
        }),
{
    lemma_keys_differ();
    let a = ring_history::field_step(Ok(entry), change, "offset_value"@, "offset_value"@);
    lemma_step_sets(entry, change, "offset_value"@, "offset_value"@);
    let b = ring_history::field_step(a, change, "offset_extra_value"@, "offset_extra_value"@);
    lemma_step_sets(a->Ok_0, change, "offset_extra_value"@, "offset_extra_value"@);
    let c = ring_history::field_step(b, change, "sample_data_start"@, "sample_start"@);
    lemma_step_sets(b->Ok_0, change, "sample_data_start"@, "sample_start"@);
    let d = ring_history::field_step(c, change, "comment"@, "comment"@);
    lemma_step_sets(c->Ok_0, change, "comment"@, "comment"@);
    lemma_layer_changes_keep_fields(
        d->Ok_0,
        json::list_or_empty(json::field(change, "layers"@)),
        merge,
    );
    let w = ring_history::entry_change(entry, change, merge)->Ok_0;
    assert(json::get(w, "offset_value"@) == json::get(a->Ok_0, "offset_value"@));
    assert(json::get(w, "offset_extra_value"@) == json::get(b->Ok_0, "offset_extra_value"@));
    assert(json::get(w, "sample_start"@) == json::get(c->Ok_0, "sample_start"@));
    assert(json::get(w, "comment"@) == json::get(d->Ok_0, "comment"@));
    assert forall|other: Seq<char>|
        other != "offset_value"@ && other != "offset_extra_value"@ && other != "sample_start"@
            && other != "comment"@ && other != "layers"@ implies #[trigger] json::get(w, other) == json::get(
        entry,
        other,
    ) by {
        assert(json::get(w, other) == json::get(d->Ok_0, other));
        assert(json::get(d->Ok_0, other) == json::get(c->Ok_0, other));
        assert(json::get(c->Ok_0, other) == json::get(b->Ok_0, other));
        assert(json::get(b->Ok_0, other) == json::get(a->Ok_0, other));
    }
}

// ── The layers of a pressing ───────────────────────────────────────────────

/// The stamps under a key are those that a change gives, in order and each once; where the
/// change is merged into a pressing, they join those that are there.
pub open spec fn stamps_follow(
    before: JsonView,
    after: JsonView,
    change: JsonView,
    key: Seq<char>,
    merge: bool,
) -> bool {
    match json::get(change, key) {
        None => json::get(after, key) == json::get(before, key),
        Some(node) => {
            let given = match changes::scalar_op(node) {
                Ok(Some(JsonView::Str(s))) => s,
                _ => Seq::empty(),
            };
            &&& changes::scalar_op(node) is Ok
            &&& json::get(after, key) matches Some(JsonView::Str(t)) && ring_history::csv_ids(t) =~= ring_history::csv_ids(
                if merge {
                    json::text_or_empty(json::field(before, key)) + ","@ + given
                } else {
                    given
                },
            )
        },
    }
}

proof fn lemma_stamps_set(v: JsonView, change: JsonView, key: Seq<char>, merge: bool)
    requires
        ring_history::settable(v),
        ring_history::stamp_step(Ok(v), change, key, merge) is Ok,
    ensures
        ({
            let w = ring_history::stamp_step(Ok(v), change, key, merge)->Ok_0;
            &&& ring_history::settable(w)
            &&& stamps_follow(v, w, change, key, merge)
            &&& forall|other: Seq<char>| other != key ==> #[trigger] json::get(w, other) == json::get(v, other)
        }),
{
    if let Some(node) = json::get(change, key) {
        let csv = match changes::scalar_op(node) {
            Ok(Some(JsonView::Str(s))) => s,
            _ => Seq::empty(),
        };
        let old = json::text_or_empty(json::field(v, key));
        let text = if merge {
            ring_history::merged_csv(old, csv)
        } else {
            text::join(ring_history::csv_ids(csv), ", "@)
        };
        if merge {
            stamp_laws::law_merging_is_normalizing_both(old, csv);
            stamp_laws::law_stamps_normalize_once(old + ","@ + csv);
        } else {
            stamp_laws::law_stamps_normalize_once(csv);
        }
        let x = JsonView::Str(text);
        ring_history::lemma_set_key(v, key, x, key);
        assert forall|other: Seq<char>| other != key implies #[trigger] json::get(
            ring_history::set_key(v, key, x),
            other,
        ) == json::get(v, other) by {
            ring_history::lemma_set_key(v, key, x, other);
        }
    }
}

proof fn lemma_layer_keys_differ()
    ensures
        "mastering_code"@ != "mastering_sid"@,
        "mastering_code"@ != "toolstamps"@,
        "mastering_code"@ != "mould_sids"@,
        "mastering_code"@ != "additional_moulds"@,
        "mastering_sid"@ != "toolstamps"@,
        "mastering_sid"@ != "mould_sids"@,
        "mastering_sid"@ != "additional_moulds"@,
        "toolstamps"@ != "mould_sids"@,
        "toolstamps"@ != "additional_moulds"@,
        "mould_sids"@ != "additional_moulds"@,
{
    reveal_strlit("mastering_code");
    reveal_strlit("mastering_sid");
    reveal_strlit("toolstamps");
    reveal_strlit("mould_sids");
    reveal_strlit("additional_moulds");
    assert("mastering_code"@.len() == 14 && "mastering_sid"@.len() == 13);
    assert("toolstamps"@.len() == 10 && "mould_sids"@.len() == 10);
    assert("additional_moulds"@.len() == 17);
    assert("toolstamps"@[0] == 't' && "mould_sids"@[0] == 'm');
}

proof fn lemma_layer_fields_follow(layer: JsonView, change: JsonView, merge: bool)
    requires
        ring_history::settable(layer),
        ring_history::layer_fields(layer, change, merge) is Ok,
    ensures
        layer_follows(layer, ring_history::layer_fields(layer, change, merge)->Ok_0, change, merge),
{
    lemma_layer_keys_differ();
    let a = ring_history::field_step(Ok(layer), change, "mastering_code"@, "mastering_code"@);
    lemma_step_sets(layer, change, "mastering_code"@, "mastering_code"@);
    let b = ring_history::field_step(a, change, "mastering_sid"@, "mastering_sid"@);
    lemma_step_sets(a->Ok_0, change, "mastering_sid"@, "mastering_sid"@);
    let c = ring_history::stamp_step(b, change, "toolstamps"@, merge);
    lemma_stamps_set(b->Ok_0, change, "toolstamps"@, merge);
    let d = ring_history::stamp_step(c, change, "mould_sids"@, merge);
    lemma_stamps_set(c->Ok_0, change, "mould_sids"@, merge);
    lemma_stamps_set(d->Ok_0, change, "additional_moulds"@, merge);
    let w = ring_history::layer_fields(layer, change, merge)->Ok_0;
    assert(json::get(w, "mastering_code"@) == json::get(a->Ok_0, "mastering_code"@));
    assert(json::get(w, "mastering_sid"@) == json::get(b->Ok_0, "mastering_sid"@));
    assert(json::get(w, "toolstamps"@) == json::get(c->Ok_0, "toolstamps"@));
    assert(json::get(w, "mould_sids"@) == json::get(d->Ok_0, "mould_sids"@));
    assert(json::get(b->Ok_0, "toolstamps"@) == json::get(layer, "toolstamps"@));
    assert(json::get(c->Ok_0, "mould_sids"@) == json::get(layer, "mould_sids"@));
    assert(json::get(d->Ok_0, "additional_moulds"@) == json::get(layer, "additional_moulds"@));
}

/// A layer holds what a change says of it.
pub open spec fn layer_follows(
    before: JsonView,
    after: JsonView,
    change: JsonView,
    merge: bool,
) -> bool {
    &&& follows(before, after, change, "mastering_code"@, "mastering_code"@)
    &&& follows(before, after, change, "mastering_sid"@, "mastering_sid"@)
    &&& stamps_follow(before, after, change, "toolstamps"@, merge)
    &&& stamps_follow(before, after, change, "mould_sids"@, merge)
    &&& stamps_follow(before, after, change, "additional_moulds"@, merge)
}

/// The layers of a pressing.
pub open spec fn layers_of(entry: JsonView) -> Seq<JsonView> {
    json::list_or_empty(json::field(entry, "layers"@))
}

/// A layer that says nothing.
pub open spec fn says_nothing(layer: JsonView) -> bool {
    &&& json::get(layer, "mastering_code"@) == Some(JsonView::Str(Seq::empty()))
    &&& json::get(layer, "mastering_sid"@) == Some(JsonView::Str(Seq::empty()))
    &&& json::get(layer, "toolstamps"@) == Some(JsonView::Str(Seq::empty()))
    &&& json::get(layer, "mould_sids"@) == Some(JsonView::Str(Seq::empty()))
    &&& json::get(layer, "additional_moulds"@) == Some(JsonView::Str(Seq::empty()))
}

proof fn lemma_blank_layer_says_nothing()
    ensures
        says_nothing(ring_history::blank_layer()),
        ring_history::settable(ring_history::blank_layer()),
{
    lemma_layer_keys_differ();
    let n = JsonView::Str(Seq::empty());
    let e0 = Seq::<(Seq<char>, JsonView)>::empty();
    let e1 = json::put(e0, "mastering_code"@, n);
    let e2 = json::put(e1, "mastering_sid"@, n);
    let e3 = json::put(e2, "toolstamps"@, n);
    let e4 = json::put(e3, "mould_sids"@, n);
    assert forall|k: Seq<char>| #[trigger] json::get(ring_history::blank_layer(), k) == (if k == "mastering_code"@ || k
        == "mastering_sid"@ || k == "toolstamps"@ || k == "mould_sids"@ || k
        == "additional_moulds"@ {
        Some(n)
    } else {
        None
    }) by {
        json::lemma_lookup_put(e0, "mastering_code"@, n, k);
        json::lemma_lookup_put(e1, "mastering_sid"@, n, k);
        json::lemma_lookup_put(e2, "toolstamps"@, n, k);
        json::lemma_lookup_put(e3, "mould_sids"@, n, k);
        json::lemma_lookup_put(e4, "additional_moulds"@, n, k);
        assert(json::lookup(e0, k) is None);
    }
}

/// A layer change sets the layer that it names, and of that what it speaks of. Layers that
/// are not there yet are made up to it and say nothing; the others stay.
pub proof fn law_layer_change_sets_its_layer(entry: JsonView, change: JsonView, merge: bool, n: nat)
    requires
        ring_history::settable(entry),
        n <= 0xFFFF,
        json::get(change, "index"@) == Some(JsonView::Int(n as int)),
        n < layers_of(entry).len() ==> ring_history::settable(layers_of(entry)[n as int]),
        ring_history::layer_change(entry, change, merge) is Ok,
    ensures
        ({
            let w = ring_history::layer_change(entry, change, merge)->Ok_0;
            let a = layers_of(entry);
            let b = layers_of(w);
            &&& b.len() == (if a.len() > n {
                a.len()
            } else {
                n + 1
            })
            &&& forall|k: int| 0 <= k < a.len() && k != n ==> #[trigger] b[k] == a[k]
            &&& forall|k: int| a.len() <= k < n ==> says_nothing(#[trigger] b[k])
            &&& n < a.len() ==> layer_follows(a[n as int], b[n as int], change, merge)
            &&& n >= a.len() ==> exists|bare: JsonView| #[trigger]
                says_nothing(bare) && layer_follows(bare, b[n as int], change, merge)
            &&& forall|other: Seq<char>|
                other != "layers"@ ==> #[trigger] json::get(w, other) == json::get(entry, other)
        }),
{
    lemma_blank_layer_says_nothing();
    assert(((n as int) as usize) as nat == n);
    assert(ring_history::layer_index(change) == Some(n));
    let ls = ring_history::grown_layers(entry, n);
    let old = ls[n as int];
    let l = ring_history::layer_fields(old, change, merge)->Ok_0;
    let x = JsonView::Arr(ls.update(n as int, l));
    lemma_layer_fields_follow(old, change, merge);
    ring_history::lemma_set_key(entry, "layers"@, x, "layers"@);
    let w = ring_history::layer_change(entry, change, merge)->Ok_0;
    assert forall|other: Seq<char>| other != "layers"@ implies #[trigger] json::get(w, other) == json::get(
        entry,
        other,
    ) by {
        ring_history::lemma_set_key(entry, "layers"@, x, other);
    }
    if n >= layers_of(entry).len() {
        assert(old == ring_history::blank_layer());
        assert(says_nothing(old));
    }
}

/// The layer changes of a change are applied after its fields, one after the other.
pub proof fn law_layer_changes_in_turn(entry: JsonView, change: JsonView, merge: bool)
    requires
        ring_history::settable(entry),
        json::field(change, "layers"@) matches JsonView::Arr(cs) && cs.len() == 1,
        ring_history::entry_change(entry, change, merge) is Ok,
    ensures
        ({
            let w = ring_history::entry_change(entry, change, merge)->Ok_0;
            exists|v: JsonView| #[trigger]
                ring_history::settable(v) && layers_of(v) == layers_of(entry) && ring_history::layer_change(
                    v,
                    json::list_or_empty(json::field(change, "layers"@))[0],
                    merge,
                ) == Ok::<JsonView, ErrorView>(w)
        }),
{
    lemma_keys_differ();
    let a = ring_history::field_step(Ok(entry), change, "offset_value"@, "offset_value"@);
    lemma_step_sets(entry, change, "offset_value"@, "offset_value"@);
    let b = ring_history::field_step(a, change, "offset_extra_value"@, "offset_extra_value"@);
    lemma_step_sets(a->Ok_0, change, "offset_extra_value"@, "offset_extra_value"@);
    let c = ring_history::field_step(b, change, "sample_data_start"@, "sample_start"@);
    lemma_step_sets(b->Ok_0, change, "sample_data_start"@, "sample_start"@);
    let d = ring_history::field_step(c, change, "comment"@, "comment"@);
    lemma_step_sets(c->Ok_0, change, "comment"@, "comment"@);
    let v = d->Ok_0;
    assert(json::get(v, "layers"@) == json::get(c->Ok_0, "layers"@));
    assert(json::get(c->Ok_0, "layers"@) == json::get(b->Ok_0, "layers"@));
    assert(json::get(b->Ok_0, "layers"@) == json::get(a->Ok_0, "layers"@));
    assert(json::get(a->Ok_0, "layers"@) == json::get(entry, "layers"@));
    let cs = json::list_or_empty(json::field(change, "layers"@));
    assert(cs.drop_first() =~= Seq::<JsonView>::empty());
    reveal_with_fuel(ring_history::layer_changes, 2);
    assert(ring_history::settable(v));
}

// ── The pressings of a disc ────────────────────────────────────────────────

/// A pressing that says nothing.
pub open spec fn is_bare(ring: JsonView) -> bool {
    &&& json::get(ring, "offset_value"@) == Some(JsonView::Str(Seq::empty()))
    &&& json::get(ring, "offset_extra_value"@) == Some(JsonView::Str(Seq::empty()))
    &&& json::get(ring, "sample_start"@) == Some(JsonView::Str(Seq::empty()))
    &&& json::get(ring, "comment"@) == Some(JsonView::Str(Seq::empty()))
    &&& layers_of(ring).len() == 0
    &&& json::get(ring, "id"@) is None
}

proof fn lemma_blank_entry_is_bare()
    ensures
        is_bare(ring_history::blank_entry()),
        ring_history::settable(ring_history::blank_entry()),
{
    lemma_keys_differ();
    let n = JsonView::Str(Seq::empty());
    let e0 = Seq::<(Seq<char>, JsonView)>::empty();
    let e1 = json::put(e0, "offset_value"@, n);
    let e2 = json::put(e1, "offset_extra_value"@, n);
    let e3 = json::put(e2, "sample_start"@, n);
    let e4 = json::put(e3, "comment"@, n);
    let l = JsonView::Arr(Seq::empty());
    assert forall|k: Seq<char>| #[trigger] json::get(ring_history::blank_entry(), k) == (if k == "layers"@ {
        Some(l)
    } else if k == "offset_value"@ || k == "offset_extra_value"@ || k == "sample_start"@ || k
        == "comment"@ {
        Some(n)
    } else {
        None
    }) by {
        json::lemma_lookup_put(e0, "offset_value"@, n, k);
        json::lemma_lookup_put(e1, "offset_extra_value"@, n, k);
        json::lemma_lookup_put(e2, "sample_start"@, n, k);
        json::lemma_lookup_put(e3, "comment"@, n, k);
        json::lemma_lookup_put(e4, "layers"@, l, k);
        assert(json::lookup(e0, k) is None);
    }
    assert(json::get(ring_history::blank_entry(), "layers"@) == Some(l));
}

/// The fields of a pressing hold what a change says of them.
pub open spec fn pressing_follows(before: JsonView, after: JsonView, change: JsonView) -> bool {
    &&& follows(before, after, change, "offset_value"@, "offset_value"@)
    &&& follows(before, after, change, "offset_extra_value"@, "offset_extra_value"@)
    &&& follows(before, after, change, "sample_data_start"@, "sample_start"@)
    &&& follows(before, after, change, "comment"@, "comment"@)
}

proof fn lemma_nothing_removed(rs: Seq<JsonView>)
    ensures
        ring_history::kept(rs, Seq::empty()) == rs,
    decreases rs.len(),
{
    if rs.len() > 0 {
        lemma_nothing_removed(rs.drop_last());
        assert(rs.drop_last().push(rs.last()) =~= rs);
        assert(!Seq::<int>::empty().contains(rs.len() - 1));
    } else {
        assert(ring_history::kept(rs, Seq::empty()) =~= rs);
    }
}

proof fn lemma_one_step(s: RingState, change: JsonView, removed: Seq<i32>)
    ensures
        ring_history::ring_steps(s, seq![change], removed) == ring_history::ring_step(s, change, removed),
{
    reveal_with_fuel(ring_history::ring_steps, 2);
    assert(seq![change].drop_first() =~= Seq::<JsonView>::empty());
}

/// A change that names a pressing by its id changes that pressing and nothing else: there
/// are as many as before, the pressing is still there under its id, and its fields hold what
/// the change says of them.
pub proof fn law_named_pressing_is_changed(old: JsonView, change: JsonView, k: int)
    requires
        0 <= k < json::list_or_empty(old).len(),
        ring_history::id_of(change) is Some,
        ring_history::id_of(json::list_or_empty(old)[k]) == ring_history::id_of(change),
        ring_laws::ids_differ(json::list_or_empty(old)),
        json::field(change, "remove"@) != JsonView::Bool(true),
        ring_history::settable(json::list_or_empty(old)[k]),
        ring_history::ring_history(old, JsonView::Arr(seq![change])) is Ok,
    ensures
        ({
            let rs = ring_history::ring_history(old, JsonView::Arr(seq![change]))->Ok_0;
            &&& rs.len() == json::list_or_empty(old).len()
            &&& exists|j: int|
                0 <= j < rs.len() && ring_history::id_of(rs[j]) == ring_history::id_of(change) && pressing_follows(
                    json::list_or_empty(old)[k],
                    #[trigger] rs[j],
                    change,
                )
            &&& forall|i: int|
                0 <= i < json::list_or_empty(old).len() && i != k ==> rs.contains(
                    #[trigger] json::list_or_empty(old)[i],
                )
        }),
{
    let list = json::list_or_empty(old);
    let cs = seq![change];
    let start = ring_history::ordered_rings(list);
    ring_laws::lemma_ordered_holds(list);
    lemma_one_step(
        RingState { rings: start, additions: Seq::empty(), removals: Seq::empty() },
        change,
        ring_history::removed_ids(cs),
    );
    let id = ring_history::id_of(change)->0;
    ring_history::lemma_position_from(start, id, 0);
    let p = ring_history::position_from(start, id, 0)->0;
    assert(start.contains(list[k]));
    let q = choose|q: int| 0 <= q < start.len() && start[q] == list[k];
    if p != q {
        if p < q {
            assert(ring_history::id_of(start[q]) != ring_history::id_of(start[p]));
        } else {
            assert(ring_history::id_of(start[p]) != ring_history::id_of(start[q]));
        }
    }
    let w = ring_history::entry_change(start[p], change, false)->Ok_0;
    law_change_sets_the_fields_it_names(start[p], change, false);
    ring_laws::lemma_entry_change_id(start[p], change, false);
    let after = start.update(p, w);
    lemma_nothing_removed(after);
    assert(after + Seq::<JsonView>::empty() =~= after);
    ring_laws::lemma_ordered_holds(after);
    let rs = ring_history::ordered_rings(after);
    assert(ring_history::ring_history(old, JsonView::Arr(cs)) == Ok::<Seq<JsonView>, ErrorView>(rs));
    assert(after[p] == w);
    assert(after.contains(w));
    assert(rs.contains(w));
    let j = choose|j: int| 0 <= j < rs.len() && rs[j] == w;
    assert(pressing_follows(list[k], rs[j], change));
    assert forall|i: int| 0 <= i < list.len() && i != k implies rs.contains(
        #[trigger] list[i],
    ) by {
        lemma_other_place(list, start, k, i, p);
        let m = choose|m: int| 0 <= m < start.len() && m != p && start[m] == list[i];
        assert(after[m] == list[i]);
        assert(after.contains(list[i]));
    }
}

proof fn lemma_other_place(list: Seq<JsonView>, start: Seq<JsonView>, k: int, i: int, p: int)
    requires
        start == ring_history::ordered_rings(list),
        0 <= i < list.len(),
        0 <= k < list.len(),
        i != k,
        0 <= p < start.len(),
        start[p] == list[k],
        ring_history::id_of(list[k]) is Some,
        ring_laws::ids_differ(list),
    ensures
        exists|m: int| 0 <= m < start.len() && m != p && start[m] == list[i],
{
    ring_laws::lemma_ordered_holds(list);
    assert(start.contains(list[i]));
    let m = choose|m: int| 0 <= m < start.len() && start[m] == list[i];
    if m == p {
        if i < k {
            if ring_history::id_of(list[i]) is Some {
                assert(ring_history::id_of(list[k]) != ring_history::id_of(list[i]));
            }
        } else {
            assert(ring_history::id_of(list[i]) != ring_history::id_of(list[k]));
        }
    }
}

/// A pressing without an id says what a change says, and nothing more.
pub open spec fn holds_new_pressing(rs: Seq<JsonView>, change: JsonView) -> bool {
    exists|j: int, bare: JsonView|
        0 <= j < rs.len() && ring_history::id_of(rs[j]) is None && is_bare(bare) && #[trigger] pressing_follows(
            bare,
            rs[j],
            change,
        )
}

/// A change without an id that means no pressing adds one: there is one more, the others
/// stay, and the new one has no id and says what the change says and nothing more.
pub proof fn law_unmatched_change_adds_a_pressing(old: JsonView, change: JsonView)
    requires
        ring_history::id_of(change) is None,
        json::field(change, "remove"@) != JsonView::Bool(true),
        forall|i: int|
            0 <= i < json::list_or_empty(old).len() ==> !ring_history::ring_matches(
                #[trigger] json::list_or_empty(old)[i],
                change,
                Seq::empty(),
            ),
        ring_history::ring_history(old, JsonView::Arr(seq![change])) is Ok,
    ensures
        ring_history::ring_history(old, JsonView::Arr(seq![change]))->Ok_0.len() == json::list_or_empty(old).len() + 1,
        holds_new_pressing(ring_history::ring_history(old, JsonView::Arr(seq![change]))->Ok_0, change),
        forall|i: int|
            0 <= i < json::list_or_empty(old).len() ==> ring_history::ring_history(
                old,
                JsonView::Arr(seq![change]),
            )->Ok_0.contains(#[trigger] json::list_or_empty(old)[i]),
{
    let list = json::list_or_empty(old);
    let cs = seq![change];
    let start = ring_history::ordered_rings(list);
    ring_laws::lemma_ordered_holds(list);
    assert(cs.drop_last() =~= Seq::<JsonView>::empty());
    reveal_with_fuel(ring_history::removed_ids, 2);
    assert(ring_history::removed_ids(cs) =~= Seq::<i32>::empty());
    lemma_one_step(
        RingState { rings: start, additions: Seq::empty(), removals: Seq::empty() },
        change,
        ring_history::removed_ids(cs),
    );
    ring_history::lemma_match_from(start, change, Seq::empty(), 0);
    if let Some(m) = ring_history::match_from(start, change, Seq::empty(), 0) {
        assert(start.contains(start[m]));
        assert(list.contains(start[m]));
        let i = choose|i: int| 0 <= i < list.len() && list[i] == start[m];
        assert(!ring_history::ring_matches(list[i], change, Seq::empty()));
    }
    lemma_blank_entry_is_bare();
    let w = ring_history::entry_change(ring_history::blank_entry(), change, false)->Ok_0;
    law_change_sets_the_fields_it_names(ring_history::blank_entry(), change, false);
    ring_laws::lemma_entry_change_id(ring_history::blank_entry(), change, false);
    lemma_nothing_removed(start);
    let all = start + Seq::<JsonView>::empty().push(w);
    ring_laws::lemma_ordered_holds(all);
    let rs = ring_history::ordered_rings(all);
    assert(ring_history::matching_ring(start, change, Seq::empty()) is None);
    assert(ring_history::ring_history(old, JsonView::Arr(cs)) == Ok::<Seq<JsonView>, ErrorView>(rs));
    assert(all.len() == list.len() + 1);
    assert(all[start.len() as int] == w);
    assert(all.contains(w));
    assert(rs.contains(w));
    let j = choose|j: int| 0 <= j < rs.len() && rs[j] == w;
    assert(ring_history::id_of(w) is None);
    assert(is_bare(ring_history::blank_entry()));
    assert(pressing_follows(ring_history::blank_entry(), rs[j], change));
    assert(holds_new_pressing(rs, change));
    assert forall|i: int| 0 <= i < list.len() implies rs.contains(#[trigger] list[i]) by {
        assert(start.contains(list[i]));
        let m = choose|m: int| 0 <= m < start.len() && start[m] == list[i];
        assert(all[m] == list[i]);
        assert(all.contains(list[i]));
    }
}

/// A change without an id is not merged into a pressing that says something else: another
/// comment, or other numbers where both give them.
pub proof fn law_different_pressings_stay_apart(ring: JsonView, change: JsonView, s: Seq<char>, t: Seq<char>)
    requires
        s != t,
    ensures
        json::field(ring, "comment"@) == JsonView::Str(s) && json::get(change, "comment"@) == Some(
            adding(JsonView::Str(t)),
        ) ==> !ring_history::ring_matches(ring, change, Seq::empty()),
        s.len() > 0 && t.len() > 0 && json::field(ring, "offset_value"@) == JsonView::Str(s) && json::get(
            change,
            "offset_value"@,
        ) == Some(adding(JsonView::Str(t))) ==> !ring_history::ring_matches(ring, change, Seq::empty()),
        s.len() > 0 && t.len() > 0 && json::field(ring, "offset_extra_value"@) == JsonView::Str(s)
            && json::get(change, "offset_extra_value"@) == Some(adding(JsonView::Str(t)))
            ==> !ring_history::ring_matches(ring, change, Seq::empty()),
        s.len() > 0 && t.len() > 0 && json::field(ring, "sample_start"@) == JsonView::Str(s) && json::get(
            change,
            "sample_data_start"@,
        ) == Some(adding(JsonView::Str(t))) ==> !ring_history::ring_matches(ring, change, Seq::empty()),
{
    law_operations_give_their_value(JsonView::Null, JsonView::Str(t));
}

/// A change without an id that says of a pressing what it says itself, with a mastering,
/// means it, unless the pressing is being removed; a number that either of them leaves out
/// does not tell them apart.
pub proof fn law_same_mastering_is_merged(
    ring: JsonView,
    change: JsonView,
    layer: JsonView,
    code: Seq<char>,
    sid: Seq<char>,
    removed: Seq<i32>,
)
    requires
        code.len() > 0 || sid.len() > 0,
        layers_of(ring) == seq![layer],
        json::field(layer, "mastering_code"@) == JsonView::Str(code),
        json::field(layer, "mastering_sid"@) == JsonView::Str(sid),
        json::field(change, "layers"@) matches JsonView::Arr(cs) && cs.len() == 1 && json::get(cs[0], "index"@)
            == Some(JsonView::Int(0)) && json::get(cs[0], "mastering_code"@) == Some(
            adding(JsonView::Str(code)),
        ) && json::get(cs[0], "mastering_sid"@) == Some(adding(JsonView::Str(sid))),
        json::get(change, "offset_value"@) is None || json::text_or_empty(json::field(ring, "offset_value"@)).len() == 0,
        json::get(change, "offset_extra_value"@) is None || json::text_or_empty(json::field(ring, "offset_extra_value"@)).len() == 0,
        json::get(change, "sample_data_start"@) is None || json::text_or_empty(json::field(ring, "sample_start"@)).len() == 0,
        json::get(change, "comment"@) is None,
        json::text_or_empty(json::field(ring, "comment"@)).len() == 0,
    ensures
        ring_history::ring_matches(ring, change, removed) == !(ring_history::id_of(ring) is Some && removed.contains(
            ring_history::id_of(ring)->0,
        )),
{
    law_operations_give_their_value(JsonView::Null, JsonView::Str(code));
    law_operations_give_their_value(JsonView::Null, JsonView::Str(sid));
    let cs = json::list_or_empty(json::field(change, "layers"@));
    let ls = layers_of(ring);
    assert(json::text_or_empty(json::field(ring, "comment"@)) =~= ring_history::new_text(change, "comment"@));
    assert(((0int) as usize) as nat == 0);
    assert(ring_history::layer_index(cs[0]) == Some(0nat));
    assert(ls[0] == layer);
    assert(ring_history::new_text(cs[0], "mastering_code"@) == code);
    assert(ring_history::new_text(cs[0], "mastering_sid"@) == sid);
    assert(ring_history::identifies(cs[0]));
    assert(ring_history::any_identifies(cs));
    assert(ring_history::layer_agrees(ls, cs[0]));
    assert(ring_history::named_index(cs[0]) == Some(0int));
    assert(ring_history::names_layer(cs, 0));
    assert(ring_history::layers_agree(ls, cs));
    assert(ring_history::identified_are_named(ls, cs));
}

/// A change without an id is not merged into a pressing of another mastering: with another
/// code or another SID on a layer that it names, or with a mastering on a layer that it does
/// not name.
pub proof fn law_other_masterings_stay_apart(
    ring: JsonView,
    change: JsonView,
    cs: Seq<JsonView>,
    k: int,
    n: int,
    s: Seq<char>,
    t: Seq<char>,
    removed: Seq<i32>,
)
    requires
        s != t,
        json::field(change, "layers"@) == JsonView::Arr(cs),
        0 <= k < cs.len(),
        0 <= n < layers_of(ring).len(),
        n <= 0xffff,
    ensures
        json::get(cs[k], "index"@) == Some(JsonView::Int(n)) && json::get(cs[k], "mastering_code"@) == Some(
            adding(JsonView::Str(t)),
        ) && json::field(layers_of(ring)[n], "mastering_code"@) == JsonView::Str(s) ==> !ring_history::ring_matches(
            ring,
            change,
            removed,
        ),
        json::get(cs[k], "index"@) == Some(JsonView::Int(n)) && json::get(cs[k], "mastering_sid"@) == Some(
            adding(JsonView::Str(t)),
        ) && json::field(layers_of(ring)[n], "mastering_sid"@) == JsonView::Str(s) ==> !ring_history::ring_matches(
            ring,
            change,
            removed,
        ),
        (forall|i: int| 0 <= i < cs.len() ==> json::get(#[trigger] cs[i], "index"@) != Some(JsonView::Int(n)))
            && s.len() > 0 && (json::field(layers_of(ring)[n], "mastering_code"@) == JsonView::Str(s)
            || json::field(layers_of(ring)[n], "mastering_sid"@) == JsonView::Str(s)) ==> !ring_history::ring_matches(
            ring,
            change,
            removed,
        ),
{
    law_operations_give_their_value(JsonView::Null, JsonView::Str(t));
    let ls = layers_of(ring);
    if ring_history::ring_matches(ring, change, removed) {
        assert(ring_history::layer_agrees(ls, cs[k]));
        if json::get(cs[k], "index"@) == Some(JsonView::Int(n)) {
            assert((n as usize) as nat == n);
            assert(ring_history::layer_index(cs[k]) == Some(n as nat));
        }
        if ring_history::identified(ls[n]) {
            assert(ring_history::names_layer(cs, n));
            let i = choose|i: int| 0 <= i < cs.len() && ring_history::named_index(#[trigger] cs[i]) == Some(n);
            assert(json::get(cs[i], "index"@) == Some(JsonView::Int(n)));
        }
    }
}

/// The pressings that are removed are those that a change of the list removes by their ids.
pub proof fn law_which_pressings_are_removed(changes: Seq<JsonView>, id: i32)
    ensures
        ring_history::removed_ids(changes).contains(id) <==> exists|i: int|
            0 <= i < changes.len() && json::field(#[trigger] changes[i], "remove"@) == JsonView::Bool(true)
                && ring_history::id_of(changes[i]) == Some(id),
    decreases changes.len(),
{
    if changes.len() > 0 {
        let front = changes.drop_last();
        let before = ring_history::removed_ids(front);
        let all = ring_history::removed_ids(changes);
        law_which_pressings_are_removed(front, id);
        assert(changes[changes.len() - 1] == changes.last());
        if before.contains(id) {
            let k = choose|k: int| 0 <= k < before.len() && before[k] == id;
            assert(all[k] == id);
            let i = choose|i: int|
                0 <= i < front.len() && json::field(#[trigger] front[i], "remove"@) == JsonView::Bool(true)
                    && ring_history::id_of(front[i]) == Some(id);
            assert(changes[i] == front[i]);
        }
        if ring_history::is_removal(changes.last()) && ring_history::id_of(changes.last()) == Some(id) {
            assert(all[before.len() as int] == id);
        }
        if all.contains(id) {
            let k = choose|k: int| 0 <= k < all.len() && all[k] == id;
            if k < before.len() {
                assert(before[k] == id);
            }
        }
        if exists|i: int|
            0 <= i < changes.len() && json::field(#[trigger] changes[i], "remove"@) == JsonView::Bool(true)
                && ring_history::id_of(changes[i]) == Some(id) {
            let i = choose|i: int|
                0 <= i < changes.len() && json::field(#[trigger] changes[i], "remove"@) == JsonView::Bool(
                    true,
                ) && ring_history::id_of(changes[i]) == Some(id);
            if i < front.len() {
                assert(front[i] == changes[i]);
            }
        }
    }
}

} // verus!
