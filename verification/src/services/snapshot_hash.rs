//! The fingerprint of a snapshot, by which a review knows that the disc has changed.

use vstd::prelude::*;
use vstd::utf8::encode_utf8;

use crate::json::{self, Json, JsonObject, JsonView};
use crate::json_text::{self, sha256_hex, write_json};
use crate::order;
use crate::services::dump_text;
use crate::text::{self, str_eq, str_trim};

verus! {

/// A value with the keys of every object in order.
pub open spec fn canonical(v: JsonView) -> JsonView
    decreases v,
{
    match v {
        JsonView::Arr(list) => JsonView::Arr(canonical_list(list)),
        JsonView::Obj(es) => JsonView::Obj(canonical_entries(es)),
        _ => v,
    }
}

/// The elements of a list, each with its keys in order.
pub open spec fn canonical_list(list: Seq<JsonView>) -> Seq<JsonView>
    decreases list,
{
    if list.len() == 0 {
        Seq::empty()
    } else {
        canonical_list(list.drop_last()).push(canonical(list.last()))
    }
}

/// The entries of an object in the order of their keys.
pub open spec fn canonical_entries(es: Seq<(Seq<char>, JsonView)>) -> Seq<(Seq<char>, JsonView)>
    decreases es,
{
    if es.len() == 0 {
        Seq::empty()
    } else {
        json::put(canonical_entries(es.drop_last()), es.last().0, canonical(es.last().1))
    }
}

/// The fingerprint of a snapshot: the SHA-256 of its compact JSON text, its keys in
/// order.
pub open spec fn snapshot_hash(v: JsonView) -> Seq<char> {
    dump_text::hex_text(json_text::sha256_digest(encode_utf8(json_text::json_text(canonical(v)))))
}

/// A value with the keys of every object in order.
pub fn canonical_json(value: &Json) -> (r: Json)
    ensures
        r@ == canonical(value@),
    decreases value,
{
    match value {
        Json::Array(list) => {
            let ghost all = json::json_views(list@);
            let mut out: Vec<Json> = Vec::new();
            proof {
                json::lemma_json_views(list@);
                assert(all.take(0) =~= Seq::<JsonView>::empty());
                assert(json::json_views(out@) =~= Seq::<JsonView>::empty());
            }
            for i in 0..list.len()
                invariant
                    all == json::json_views(list@),
                    all.len() == list@.len(),
                    forall|k: int| 0 <= k < list@.len() ==> #[trigger] all[k] == list@[k]@,
                    json::json_views(out@) == canonical_list(all.take(i as int)),
                    decreases_to!(value => list@),
            {
                proof {
                    let t = all.take(i + 1);
                    assert(t.drop_last() =~= all.take(i as int));
                    assert(t.last() == list@[i as int]@);
                }
                let x = canonical_json(&list[i]);
                proof {
                    json::lemma_json_views_push(out@, x);
                }
                out.push(x);
            }
            assert(all.take(all.len() as int) =~= all);
            Json::Array(out)
        },
        Json::Object(o) => {
            let ghost all = json::entry_views(o.entries@);
            let mut sorted = JsonObject::new();
            proof {
                json::lemma_entry_views(o.entries@);
                assert(all.take(0) =~= Seq::<(Seq<char>, JsonView)>::empty());
            }
            for i in 0..o.entries.len()
                invariant
                    all == json::entry_views(o.entries@),
                    all.len() == o.entries@.len(),
                    forall|k: int|
                        0 <= k < o.entries@.len() ==> #[trigger] all[k] == (
                            (o.entries@[k].0)@,
                            (o.entries@[k].1)@,
                        ),
                    sorted@ == canonical_entries(all.take(i as int)),
                    decreases_to!(value => o.entries@),
            {
                proof {
                    let t = all.take(i + 1);
                    assert(t.drop_last() =~= all.take(i as int));
                    assert(t.last() == all[i as int]);
                    assert(decreases_to!(o.entries@ => o.entries@[i as int]));
                    assert(decreases_to!(o.entries@[i as int] => o.entries@[i as int].1));
                }
                let x = canonical_json(&o.entries[i].1);
                sorted.insert(o.entries[i].0.as_str(), x);
            }
            assert(all.take(all.len() as int) =~= all);
            Json::Object(sorted)
        },
        other => other.copy(),
    }
}

/// The fingerprint of a snapshot: sixty-four small hexadecimal digits.
pub fn disc_snapshot_hash(snapshot: &Json) -> (r: String)
    ensures
        r@ == snapshot_hash(snapshot@),
        r@.len() == 64,
        forall|i: int| 0 <= i < r@.len() ==> dump_text::is_small_hex(#[trigger] r@[i]),
{
    let canonical = canonical_json(snapshot);
    let text = write_json(&canonical);
    sha256_hex(text.as_str().as_bytes())
}

/// A review was begun on another state of the disc than the current one.
pub open spec fn is_stale(expected: Option<Seq<char>>, current: Seq<char>) -> bool {
    match expected {
        Some(e) => text::trim(e) != current,
        None => false,
    }
}

/// Whether a review was begun on another state of the disc than the current one.
pub fn review_base_hash_is_stale(expected_hash: Option<&str>, current_hash: &str) -> (r: bool)
    ensures
        r == is_stale(text::opt_str(expected_hash), current_hash@),
{
    match expected_hash {
        Some(e) => !str_eq(str_trim(e).as_str(), current_hash),
        None => false,
    }
}

// ── Laws ───────────────────────────────────────────────────────────────────

/// No key occurs twice.
pub open spec fn distinct_keys(es: Seq<(Seq<char>, JsonView)>) -> bool {
    forall|i: int, j: int|
        0 <= i < j < es.len() ==> #[trigger] es[i].0 != #[trigger] es[j].0
}

/// What an object holds under a key, with its keys in order.
pub open spec fn canonical_at(es: Seq<(Seq<char>, JsonView)>, key: Seq<char>) -> Option<JsonView> {
    match json::lookup(es, key) {
        Some(v) => Some(canonical(v)),
        None => None,
    }
}

proof fn lemma_canonical_ascends(es: Seq<(Seq<char>, JsonView)>)
    ensures
        json::keys_ascend(canonical_entries(es)),
    decreases es.len(),
{
    if es.len() > 0 {
        lemma_canonical_ascends(es.drop_last());
        json::law_put_then_lookup(
            canonical_entries(es.drop_last()),
            es.last().0,
            canonical(es.last().1),
            es.last().0,
        );
    }
}

proof fn lemma_lookup_index(es: Seq<(Seq<char>, JsonView)>, key: Seq<char>) -> (k: int)
    requires
        json::lookup(es, key) is Some,
    ensures
        0 <= k < es.len(),
        es[k].0 == key,
        json::lookup(es, key) == Some(es[k].1),
    decreases es.len(),
{
    if es[0].0 == key {
        0
    } else {
        lemma_lookup_index(es.drop_first(), key) + 1
    }
}

proof fn lemma_lookup_none(es: Seq<(Seq<char>, JsonView)>, key: Seq<char>, i: int)
    requires
        json::lookup(es, key) is None,
        0 <= i < es.len(),
    ensures
        es[i].0 != key,
    decreases es.len(),
{
    if i > 0 {
        lemma_lookup_none(es.drop_first(), key, i - 1);
    }
}

/// In a list without a key twice, the last entry is looked up by its key.
proof fn lemma_lookup_last(es: Seq<(Seq<char>, JsonView)>, key: Seq<char>)
    requires
        es.len() > 0,
        distinct_keys(es),
    ensures
        key == es.last().0 ==> json::lookup(es, key) == Some(es.last().1),
        key != es.last().0 ==> json::lookup(es, key) == json::lookup(es.drop_last(), key),
    decreases es.len(),
{
    reveal_with_fuel(json::lookup, 2);
    if es.len() > 1 {
        let rest = es.drop_first();
        assert(distinct_keys(rest)) by {
            assert forall|i: int, j: int| 0 <= i < j < rest.len() implies #[trigger] rest[i].0
                != #[trigger] rest[j].0 by {
                assert(rest[i] == es[i + 1] && rest[j] == es[j + 1]);
            }
        }
        lemma_lookup_last(rest, key);
        assert(rest.last() == es.last());
        assert(es[0].0 != es[es.len() - 1].0);
        assert(es.drop_last().drop_first() =~= rest.drop_last());
        assert(es.drop_last()[0] == es[0]);
    } else {
        assert(es.drop_last().len() == 0);
        assert(es.drop_first().len() == 0);
    }
}

proof fn lemma_canonical_lookup(es: Seq<(Seq<char>, JsonView)>, key: Seq<char>)
    requires
        distinct_keys(es),
    ensures
        json::lookup(canonical_entries(es), key) == canonical_at(es, key),
    decreases es.len(),
{
    if es.len() > 0 {
        let front = es.drop_last();
        assert(distinct_keys(front)) by {
            assert forall|i: int, j: int| 0 <= i < j < front.len() implies #[trigger] front[i].0
                != #[trigger] front[j].0 by {
                assert(front[i] == es[i] && front[j] == es[j]);
            }
        }
        lemma_canonical_lookup(front, key);
        lemma_lookup_last(es, key);
        json::lemma_lookup_put(canonical_entries(front), es.last().0, canonical(es.last().1), key);
    }
}

proof fn lemma_ascending_tail(es: Seq<(Seq<char>, JsonView)>)
    requires
        json::keys_ascend(es),
        es.len() > 0,
    ensures
        json::keys_ascend(es.drop_first()),
        json::lookup(es.drop_first(), es[0].0) is None,
{
    let rest = es.drop_first();
    assert forall|i: int, j: int| 0 <= i < j < rest.len() implies order::text_less(
        #[trigger] rest[i].0,
        #[trigger] rest[j].0,
    ) by {
        assert(rest[i] == es[i + 1] && rest[j] == es[j + 1]);
    }
    if json::lookup(rest, es[0].0) is Some {
        let k = lemma_lookup_index(rest, es[0].0);
        assert(rest[k] == es[k + 1]);
        order::lemma_text_less_irreflexive(es[0].0);
        assert(order::text_less(es[0].0, es[k + 1].0));
    }
}

/// Two lists in the order of their keys that hold the same are equal.
proof fn lemma_ascending_equal(a: Seq<(Seq<char>, JsonView)>, b: Seq<(Seq<char>, JsonView)>)
    requires
        json::keys_ascend(a),
        json::keys_ascend(b),
        forall|k: Seq<char>| #[trigger] json::lookup(a, k) == json::lookup(b, k),
    ensures
        a == b,
    decreases a.len(),
{
    if a.len() == 0 {
        if b.len() > 0 {
            assert(json::lookup(a, b[0].0) == json::lookup(b, b[0].0));
        }
        assert(a =~= b);
    } else {
        assert(json::lookup(a, a[0].0) == json::lookup(b, a[0].0));
        let i = lemma_lookup_index(b, a[0].0);
        assert(json::lookup(a, b[0].0) == json::lookup(b, b[0].0));
        let j = lemma_lookup_index(a, b[0].0);
        if i > 0 {
            assert(order::text_less(b[0].0, b[i].0));
            if j > 0 {
                assert(order::text_less(a[0].0, a[j].0));
                order::lemma_text_less_transitive(a[0].0, b[0].0, a[0].0);
            }
            order::lemma_text_less_irreflexive(a[0].0);
        }
        assert(a[0] == b[0]);
        lemma_ascending_tail(a);
        lemma_ascending_tail(b);
        let ra = a.drop_first();
        let rb = b.drop_first();
        assert forall|k: Seq<char>| #[trigger] json::lookup(ra, k) == json::lookup(rb, k) by {
            assert(json::lookup(a, k) == json::lookup(b, k));
        }
        lemma_ascending_equal(ra, rb);
        assert(a =~= seq![a[0]] + ra);
        assert(b =~= seq![b[0]] + rb);
    }
}

/// Two objects that hold the same under every key, up to the order of the keys inside,
/// have the same fingerprint, whatever order their own keys stand in.
pub proof fn law_hash_ignores_key_order(
    a: Seq<(Seq<char>, JsonView)>,
    b: Seq<(Seq<char>, JsonView)>,
)
    requires
        distinct_keys(a),
        distinct_keys(b),
        forall|k: Seq<char>| #[trigger] canonical_at(a, k) == canonical_at(b, k),
    ensures
        canonical(JsonView::Obj(a)) == canonical(JsonView::Obj(b)),
        snapshot_hash(JsonView::Obj(a)) == snapshot_hash(JsonView::Obj(b)),
{
    lemma_canonical_ascends(a);
    lemma_canonical_ascends(b);
    assert forall|k: Seq<char>| #[trigger]
        json::lookup(canonical_entries(a), k) == json::lookup(canonical_entries(b), k) by {
        lemma_canonical_lookup(a, k);
        lemma_canonical_lookup(b, k);
        assert(canonical_at(a, k) == canonical_at(b, k));
    }
    lemma_ascending_equal(canonical_entries(a), canonical_entries(b));
}

/// The keys of every object in a value go up.
pub open spec fn is_ordered(v: JsonView) -> bool
    decreases v,
{
    match v {
        JsonView::Arr(list) => forall|i: int| 0 <= i < list.len() ==> is_ordered(#[trigger] list[i]),
        JsonView::Obj(es) => json::keys_ascend(es) && forall|i: int|
            0 <= i < es.len() ==> is_ordered((#[trigger] es[i]).1),
        _ => true,
    }
}

proof fn lemma_put_last(es: Seq<(Seq<char>, JsonView)>, key: Seq<char>, value: JsonView)
    requires
        forall|i: int| 0 <= i < es.len() ==> order::text_less((#[trigger] es[i]).0, key),
    ensures
        json::put(es, key, value) == es.push((key, value)),
    decreases es.len(),
{
    if es.len() == 0 {
        assert(json::put(es, key, value) =~= es.push((key, value)));
    } else {
        let r = es.drop_first();
        assert(order::text_less(es[0].0, key));
        order::lemma_text_less_irreflexive(key);
        if order::text_less(key, es[0].0) {
            order::lemma_text_less_transitive(key, es[0].0, key);
        }
        assert forall|i: int| 0 <= i < r.len() implies order::text_less((#[trigger] r[i]).0, key) by {
            assert(r[i] == es[i + 1]);
        }
        lemma_put_last(r, key, value);
        assert(json::put(es, key, value) =~= es.push((key, value)));
    }
}

proof fn lemma_ordered_list(list: Seq<JsonView>)
    requires
        forall|i: int| 0 <= i < list.len() ==> is_ordered(#[trigger] list[i]),
    ensures
        canonical_list(list) == list,
    decreases list,
{
    if list.len() > 0 {
        let p = list.drop_last();
        assert forall|i: int| 0 <= i < p.len() implies is_ordered(#[trigger] p[i]) by {
            assert(p[i] == list[i]);
        }
        assert(list[list.len() - 1] == list.last());
        lemma_ordered_list(p);
        law_ordered_values_stay(list.last());
        assert(p.push(list.last()) =~= list);
    } else {
        assert(canonical_list(list) =~= list);
    }
}

proof fn lemma_ordered_entries(es: Seq<(Seq<char>, JsonView)>)
    requires
        json::keys_ascend(es),
        forall|i: int| 0 <= i < es.len() ==> is_ordered((#[trigger] es[i]).1),
    ensures
        canonical_entries(es) == es,
    decreases es,
{
    if es.len() > 0 {
        let p = es.drop_last();
        let last = es[es.len() - 1];
        assert forall|i: int| 0 <= i < p.len() implies is_ordered((#[trigger] p[i]).1) by {
            assert(p[i] == es[i]);
        }
        assert forall|i: int, j: int| 0 <= i < j < p.len() implies order::text_less(
            #[trigger] p[i].0,
            #[trigger] p[j].0,
        ) by {
            assert(p[i] == es[i] && p[j] == es[j]);
        }
        lemma_ordered_entries(p);
        law_ordered_values_stay(last.1);
        assert forall|i: int| 0 <= i < p.len() implies order::text_less((#[trigger] p[i]).0, last.0) by {
            assert(p[i] == es[i]);
        }
        lemma_put_last(p, last.0, last.1);
        assert(p.push(last) =~= es);
    } else {
        assert(canonical_entries(es) =~= es);
    }
}

/// A value whose keys are in order stays as it is, and its text is that of the value
/// itself.
pub proof fn law_ordered_values_stay(v: JsonView)
    requires
        is_ordered(v),
    ensures
        canonical(v) == v,
        json_text::json_text(v) == json_text::compact_text(v),
        json_text::pretty_text(v) == json_text::laid_out_text(v),
    decreases v,
{
    match v {
        JsonView::Arr(list) => {
            lemma_ordered_list(list);
        },
        JsonView::Obj(es) => {
            lemma_ordered_entries(es);
        },
        _ => {},
    }
}

/// A review that was begun on a state of the disc is not stale while the disc is in it.
pub proof fn law_current_hash_is_not_stale(v: JsonView)
    ensures
        !is_stale(Some(snapshot_hash(v)), snapshot_hash(v)),
        !is_stale(None, snapshot_hash(v)),
{
    let s = snapshot_hash(v);
    dump_text::law_hex_text_reads_back(json_text::sha256_digest(encode_utf8(json_text::json_text(canonical(v)))));
    if s.len() > 0 {
        assert(text::is_hex(s[0]) && text::is_hex(s[s.len() - 1]));
        assert(text::trim(s) == s);
    }
}

} // verus!
