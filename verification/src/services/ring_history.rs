//! Changes of the pressings of a disc: which entry a change means, and what it leaves.

use vstd::prelude::*;

use crate::error::{AppError, ErrorView, bad_request};
use crate::json::{self, Json, JsonObject, JsonView, copy_list};
use crate::json_text::{self, write_json};
use crate::numbers::{self, write_i64};
use crate::order::{self, KeyView, SortKey, arrange, sort_positions};
use crate::services::changes::{self, contains_text, scalar_operation_new_value};
use crate::services::disc_service::{self, read_csv_items, sort_ring_codes_json};
use crate::services::disc_update;
use crate::text::{self, cat3, join_strings, str_eq};
use crate::unicode::{self, to_lowercase};

verus! {

// ── Lists of stamps ────────────────────────────────────────────────────────

/// What a stamp sorts by: its small form, then its text.
pub open spec fn stamp_key(s: Seq<char>) -> KeyView {
    KeyView { rank: 0, texts: seq![unicode::lowercase(s), s], last: 0 }
}

/// The stamps in order.
pub open spec fn sorted_stamps(items: Seq<Seq<char>>) -> Seq<Seq<char>> {
    order::arranged(items, order::stable_order(items.map_values(|s: Seq<char>| stamp_key(s))))
}

/// The items without those that repeat the item before them.
pub open spec fn dedup(items: Seq<Seq<char>>) -> Seq<Seq<char>>
    decreases items.len(),
{
    if items.len() == 0 {
        Seq::empty()
    } else {
        let before = dedup(items.drop_last());
        if before.len() > 0 && before.last() == items.last() {
            before
        } else {
            before.push(items.last())
        }
    }
}

/// The stamps of a comma-separated text, sorted, each once.
pub open spec fn csv_ids(s: Seq<char>) -> Seq<Seq<char>> {
    dedup(sorted_stamps(disc_service::csv_items(s)))
}

fn sort_stamps(items: Vec<String>) -> (r: Vec<String>)
    ensures
        text::texts(r@) == sorted_stamps(text::texts(items@)),
{
    let ghost all = text::texts(items@);
    let ghost ks = all.map_values(|s: Seq<char>| stamp_key(s));
    let mut keys: Vec<SortKey> = Vec::new();
    for i in 0..items.len()
        invariant
            all == text::texts(items@),
            ks == all.map_values(|s: Seq<char>| stamp_key(s)),
            order::key_views(keys@) == ks.take(i as int),
            keys@.len() == i,
    {
        let small = to_lowercase(items[i].as_str());
        let mut ts: Vec<String> = Vec::new();
        ts.push(small);
        ts.push(items[i].clone());
        let key = SortKey { rank: 0, texts: ts, last: 0 };
        let ghost before = keys@;
        proof {
            assert(text::texts(ts@) =~= seq![unicode::lowercase(all[i as int]), all[i as int]]);
            assert(key@ == ks[i as int]);
        }
        keys.push(key);
        assert(order::key_views(keys@) =~= order::key_views(before).push(key@));
        assert(ks.take(i + 1) =~= ks.take(i as int).push(ks[i as int]));
    }
    assert(ks.take(ks.len() as int) =~= ks);
    let order = sort_positions(&keys);
    let sorted = arrange(items, &order);
    assert(text::texts(sorted@) =~= sorted_stamps(all));
    sorted
}

/// The stamps of a comma-separated text, sorted, each once.
pub fn parse_csv_ids(value: &str) -> (r: Vec<String>)
    ensures
        text::texts(r@) == csv_ids(value@),
{
    let sorted = sort_stamps(read_csv_items(value));
    let ghost all = text::texts(sorted@);
    let mut out: Vec<String> = Vec::new();
    assert(all.take(0) =~= Seq::<Seq<char>>::empty());
    assert(text::texts(out@) =~= Seq::<Seq<char>>::empty());
    for i in 0..sorted.len()
        invariant
            all == text::texts(sorted@),
            text::texts(out@) == dedup(all.take(i as int)),
    {
        let ghost before = out@;
        proof {
            let t = all.take(i + 1);
            assert(t.drop_last() =~= all.take(i as int));
            assert(t.last() == sorted@[i as int]@);
            if out@.len() > 0 {
                assert(text::texts(out@).last() == out@.last()@);
            }
        }
        let repeats = out.len() > 0 && str_eq(out[out.len() - 1].as_str(), sorted[i].as_str());
        if !repeats {
            out.push(sorted[i].clone());
            assert(text::texts(out@) =~= text::texts(before).push(sorted@[i as int]@));
        }
    }
    assert(all.take(all.len() as int) =~= all);
    out
}

/// The stamps of a comma-separated text, sorted, each once, in one text.
pub fn normalize_csv_ids(value: &str) -> (r: String)
    ensures
        r@ == text::join(csv_ids(value@), ", "@),
{
    let ids = parse_csv_ids(value);
    join_strings(&ids, ", ")
}

/// `values` and each of `incoming` that is not there.
pub open spec fn union_texts(values: Seq<Seq<char>>, incoming: Seq<Seq<char>>) -> Seq<Seq<char>>
    decreases incoming.len(),
{
    if incoming.len() == 0 {
        values
    } else {
        let before = union_texts(values, incoming.drop_last());
        if before.contains(incoming.last()) {
            before
        } else {
            before.push(incoming.last())
        }
    }
}

/// The stamps of two texts, sorted, each once.
pub open spec fn merged_csv(existing: Seq<char>, incoming: Seq<char>) -> Seq<char> {
    text::join(sorted_stamps(union_texts(csv_ids(existing), csv_ids(incoming))), ", "@)
}

/// The stamps of two texts, sorted, each once.
pub fn merge_csv_values(existing: &str, incoming: &str) -> (r: String)
    ensures
        r@ == merged_csv(existing@, incoming@),
{
    let mut combined = parse_csv_ids(existing);
    let more = parse_csv_ids(incoming);
    let ghost start = text::texts(combined@);
    let ghost all = text::texts(more@);
    assert(all.take(0) =~= Seq::<Seq<char>>::empty());
    for i in 0..more.len()
        invariant
            all == text::texts(more@),
            text::texts(combined@) == union_texts(start, all.take(i as int)),
    {
        let ghost before = combined@;
        proof {
            let t = all.take(i + 1);
            assert(t.drop_last() =~= all.take(i as int));
            assert(t.last() == more@[i as int]@);
        }
        if !contains_text(&combined, more[i].as_str()) {
            combined.push(more[i].clone());
            assert(text::texts(combined@) =~= text::texts(before).push(more@[i as int]@));
        }
    }
    assert(all.take(all.len() as int) =~= all);
    let sorted = sort_stamps(combined);
    join_strings(&sorted, ", ")
}

// ── Fields of an entry ─────────────────────────────────────────────────────

/// An object, or null, which becomes one when a field is set.
pub open spec fn settable(v: JsonView) -> bool {
    v is Obj || v is Null
}

/// A value with `x` under `key`.
pub open spec fn set_key(v: JsonView, key: Seq<char>, x: JsonView) -> JsonView {
    match v {
        JsonView::Obj(es) => JsonView::Obj(json::put(es, key, x)),
        JsonView::Null => JsonView::Obj(json::put(Seq::empty(), key, x)),
        _ => v,
    }
}

/// A field that was set holds the value; the others hold what they held.
pub proof fn lemma_set_key(v: JsonView, key: Seq<char>, x: JsonView, other: Seq<char>)
    requires
        settable(v),
    ensures
        settable(set_key(v, key, x)),
        json::field(set_key(v, key, x), other) == (if other == key {
            x
        } else {
            json::field(v, other)
        }),
        json::get(set_key(v, key, x), other) == (if other == key {
            Some(x)
        } else {
            json::get(v, other)
        }),
{
    match v {
        JsonView::Obj(es) => {
            json::lemma_lookup_put(es, key, x, other);
        },
        _ => {
            json::lemma_lookup_put(Seq::empty(), key, x, other);
        },
    }
}

/// Set a field.
pub fn set_field(v: Json, key: &str, x: Json) -> (r: Json)
    ensures
        r@ == set_key(v@, key@, x@),
{
    match v {
        Json::Object(o) => {
            let mut o = o;
            o.insert(key, x);
            Json::Object(o)
        },
        Json::Null => {
            let mut o = JsonObject::new();
            o.insert(key, x);
            Json::Object(o)
        },
        other => other,
    }
}

/// A pressing whose fields can be set, as can those of its layers.
pub open spec fn ring_ok(v: JsonView) -> bool {
    &&& settable(v)
    &&& forall|i: int|
        0 <= i < json::list_or_empty(json::field(v, "layers"@)).len() ==> settable(
            #[trigger] json::list_or_empty(json::field(v, "layers"@))[i],
        )
}

/// Pressings whose fields can be set.
pub open spec fn rings_ok(rs: Seq<JsonView>) -> bool {
    forall|i: int| 0 <= i < rs.len() ==> ring_ok(#[trigger] rs[i])
}

/// The text that an operation leaves in a field of a pressing.
pub open spec fn op_text(v: Option<JsonView>) -> Seq<char> {
    match v {
        None => Seq::empty(),
        Some(JsonView::Null) => Seq::empty(),
        Some(JsonView::Str(s)) => s,
        Some(x) => json_text::json_text(x),
    }
}

/// An entry with a field changed.
pub open spec fn field_change(entry: JsonView, key: Seq<char>, node: JsonView) -> Result<
    JsonView,
    ErrorView,
> {
    match changes::scalar_op(node) {
        Err(e) => Err(e),
        Ok(v) => Ok(set_key(entry, key, JsonView::Str(op_text(v)))),
    }
}

/// An entry with a field changed, if the change names it.
pub open spec fn field_step(
    entry: Result<JsonView, ErrorView>,
    change: JsonView,
    from: Seq<char>,
    to: Seq<char>,
) -> Result<JsonView, ErrorView> {
    match entry {
        Err(e) => Err(e),
        Ok(v) => match json::get(change, from) {
            None => Ok(v),
            Some(node) => field_change(v, to, node),
        },
    }
}

/// Change a field of an entry.
pub fn apply_ring_scalar_field(entry: Json, key: &str, change_node: &Json) -> (r: Result<
    Json,
    AppError,
>)
    ensures
        changes::json_result(r) == field_change(entry@, key@, change_node@),
{
    let text = match scalar_operation_new_value(change_node) {
        Err(e) => {
            return Err(e);
        },
        Ok(None) => String::new(),
        Ok(Some(v)) => match v {
            Json::Null => String::new(),
            Json::Text(s) => s.clone(),
            other => write_json(other),
        },
    };
    Ok(set_field(entry, key, Json::Text(text)))
}

fn step_field(entry: Json, change: &Json, from: &str, to: &str) -> (r: Result<Json, AppError>)
    ensures
        changes::json_result(r) == field_step(Ok(entry@), change@, from@, to@),
{
    match change.get(from) {
        None => Ok(entry),
        Some(node) => apply_ring_scalar_field(entry, to, node),
    }
}

/// The text that a change gives a field, or the empty text.
pub open spec fn new_text(change: JsonView, key: Seq<char>) -> Seq<char> {
    match json::get(change, key) {
        None => Seq::empty(),
        Some(node) => match changes::scalar_op(node) {
            Ok(Some(JsonView::Str(s))) => s,
            _ => Seq::empty(),
        },
    }
}

/// The text that a change gives a field, or the empty text.
pub fn operation_new_str(change: &Json, key: &str) -> (r: String)
    ensures
        r@ == new_text(change@, key@),
{
    match change.get(key) {
        None => String::new(),
        Some(node) => match scalar_operation_new_value(node) {
            Ok(Some(Json::Text(s))) => s.clone(),
            _ => String::new(),
        },
    }
}

// ── Layers ─────────────────────────────────────────────────────────────────

/// A layer without data.
pub open spec fn blank_layer() -> JsonView {
    let e = Seq::<(Seq<char>, JsonView)>::empty();
    let e = json::put(e, "mastering_code"@, JsonView::Str(Seq::empty()));
    let e = json::put(e, "mastering_sid"@, JsonView::Str(Seq::empty()));
    let e = json::put(e, "toolstamps"@, JsonView::Str(Seq::empty()));
    let e = json::put(e, "mould_sids"@, JsonView::Str(Seq::empty()));
    JsonView::Obj(json::put(e, "additional_moulds"@, JsonView::Str(Seq::empty())))
}

/// The layers of a pressing, with blank ones up to layer `n`.
pub open spec fn grown_layers(entry: JsonView, n: nat) -> Seq<JsonView> {
    let ls = json::list_or_empty(json::field(entry, "layers"@));
    if ls.len() > n {
        ls
    } else {
        ls + Seq::new((n + 1 - ls.len()) as nat, |i: int| blank_layer())
    }
}

fn build_blank_layer() -> (r: Json)
    ensures
        r@ == blank_layer(),
{
    let mut o = JsonObject::new();
    o.insert("mastering_code", Json::Text(String::new()));
    o.insert("mastering_sid", Json::Text(String::new()));
    o.insert("toolstamps", Json::Text(String::new()));
    o.insert("mould_sids", Json::Text(String::new()));
    o.insert("additional_moulds", Json::Text(String::new()));
    Json::Object(o)
}

/// The layers of a pressing, with blank ones up to layer `layer_index`.
fn ring_get_or_create_layer(entry: &Json, layer_index: usize) -> (r: Vec<Json>)
    ensures
        json::json_views(r@) == grown_layers(entry@, layer_index as nat),
        r@.len() > layer_index,
{
    let mut list: Vec<Json> = match entry.field("layers") {
        Json::Array(l) => copy_list(l),
        _ => Vec::new(),
    };
    let ghost start = json::list_or_empty(json::field(entry@, "layers"@));
    proof {
        assert(json::json_views(list@) =~= start);
        json::lemma_json_views(list@);
        assert(start + Seq::new(0, |i: int| blank_layer()) =~= start);
    }
    while list.len() <= layer_index
        invariant
            start.len() <= list@.len(),
            json::json_views(list@).len() == list@.len(),
            list@.len() <= layer_index + 1 || list@.len() == start.len(),
            json::json_views(list@) == start + Seq::new(
                (list@.len() - start.len()) as nat,
                |i: int| blank_layer(),
            ),
        decreases layer_index + 1 - list@.len(),
    {
        let x = build_blank_layer();
        let ghost before = list@;
        proof {
            json::lemma_json_views_push(list@, x);
        }
        list.push(x);
        assert(json::json_views(list@) =~= start + Seq::new(
            (list@.len() - start.len()) as nat,
            |i: int| blank_layer(),
        ));
    }
    assert(json::json_views(list@) =~= grown_layers(entry@, layer_index as nat));
    list
}

/// The stamps that a change leaves in a layer: merged with those that are there, or in
/// their place.
pub open spec fn stamp_step(
    layer: Result<JsonView, ErrorView>,
    change: JsonView,
    key: Seq<char>,
    merge: bool,
) -> Result<JsonView, ErrorView> {
    match layer {
        Err(e) => Err(e),
        Ok(l) => match json::get(change, key) {
            None => Ok(l),
            Some(node) => match changes::scalar_op(node) {
                Err(e) => Err(e),
                Ok(v) => {
                    let csv = match v {
                        Some(JsonView::Str(s)) => s,
                        _ => Seq::empty(),
                    };
                    let text = if merge {
                        merged_csv(json::text_or_empty(json::field(l, key)), csv)
                    } else {
                        text::join(csv_ids(csv), ", "@)
                    };
                    Ok(set_key(l, key, JsonView::Str(text)))
                },
            },
        },
    }
}

/// What a change leaves of a layer.
pub open spec fn layer_fields(layer: JsonView, change: JsonView, merge: bool) -> Result<
    JsonView,
    ErrorView,
> {
    let l = field_step(Ok(layer), change, "mastering_code"@, "mastering_code"@);
    let l = field_step(l, change, "mastering_sid"@, "mastering_sid"@);
    let l = stamp_step(l, change, "toolstamps"@, merge);
    let l = stamp_step(l, change, "mould_sids"@, merge);
    stamp_step(l, change, "additional_moulds"@, merge)
}

fn step_stamps(layer: Json, change: &Json, key: &str, merge: bool) -> (r: Result<Json, AppError>)
    ensures
        changes::json_result(r) == stamp_step(Ok(layer@), change@, key@, merge),
{
    match change.get(key) {
        None => Ok(layer),
        Some(node) => {
            let new_csv = match scalar_operation_new_value(node) {
                Err(e) => {
                    return Err(e);
                },
                Ok(Some(Json::Text(s))) => s.clone(),
                Ok(_) => String::new(),
            };
            let text = if merge {
                merge_csv_values(layer.field(key).str_or_empty(), new_csv.as_str())
            } else {
                normalize_csv_ids(new_csv.as_str())
            };
            Ok(set_field(layer, key, Json::Text(text)))
        },
    }
}

fn change_layer_fields(layer: Json, change: &Json, merge: bool) -> (r: Result<Json, AppError>)
    ensures
        changes::json_result(r) == layer_fields(layer@, change@, merge),
{
    let l = match step_field(layer, change, "mastering_code", "mastering_code") {
        Ok(v) => v,
        Err(e) => {
            return Err(e);
        },
    };
    let l = match step_field(l, change, "mastering_sid", "mastering_sid") {
        Ok(v) => v,
        Err(e) => {
            return Err(e);
        },
    };
    let l = match step_stamps(l, change, "toolstamps", merge) {
        Ok(v) => v,
        Err(e) => {
            return Err(e);
        },
    };
    let l = match step_stamps(l, change, "mould_sids", merge) {
        Ok(v) => v,
        Err(e) => {
            return Err(e);
        },
    };
    step_stamps(l, change, "additional_moulds", merge)
}

/// The layer that a change means.
pub open spec fn layer_index(change: JsonView) -> Option<nat> {
    match json::get(change, "index"@) {
        Some(v) => match json::as_index(v) {
            Some(n) => Some((n as usize) as nat),
            None => None,
        },
        None => None,
    }
}

/// What a layer change leaves of a pressing.
pub open spec fn layer_change(entry: JsonView, change: JsonView, merge: bool) -> Result<
    JsonView,
    ErrorView,
> {
    match layer_index(change) {
        None => Ok(entry),
        Some(n) => {
            let ls = grown_layers(entry, n);
            match layer_fields(ls[n as int], change, merge) {
                Err(e) => Err(e),
                Ok(l) => Ok(
                    set_key(entry, "layers"@, JsonView::Arr(ls.update(n as int, l))),
                ),
            }
        },
    }
}

/// What layer changes leave of a pressing, one after the other.
pub open spec fn layer_changes(entry: JsonView, changes: Seq<JsonView>, merge: bool) -> Result<
    JsonView,
    ErrorView,
>
    decreases changes.len(),
{
    if changes.len() == 0 {
        Ok(entry)
    } else {
        match layer_change(entry, changes[0], merge) {
            Err(e) => Err(e),
            Ok(v) => layer_changes(v, changes.drop_first(), merge),
        }
    }
}

fn read_layer_index(change: &Json) -> (r: Option<usize>)
    ensures
        match r {
            Some(n) => layer_index(change@) == Some(n as nat),
            None => layer_index(change@) is None,
        },
{
    match change.get("index") {
        Some(v) => match v.as_u64() {
            Some(n) => Some(
                #[verifier::truncate]
                (n as usize),
            ),
            None => None,
        },
        None => None,
    }
}

fn change_layer(entry: Json, change: &Json, merge: bool) -> (r: Result<Json, AppError>)
    ensures
        changes::json_result(r) == layer_change(entry@, change@, merge),
{
    match read_layer_index(change) {
        None => Ok(entry),
        Some(n) => {
            let mut list = ring_get_or_create_layer(&entry, n);
            let ghost ls = json::json_views(list@);
            proof {
                json::lemma_json_views(list@);
                assert(ls[n as int] == list@[n as int]@);
            }
            let layer = list[n].copy();
            let changed = match change_layer_fields(layer, change, merge) {
                Ok(l) => l,
                Err(e) => {
                    return Err(e);
                },
            };
            let ghost before = list@;
            list[n] = changed;
            proof {
                json::lemma_json_views(list@);
                assert(json::json_views(list@) =~= ls.update(n as int, changed@)) by {
                    assert forall|k: int| 0 <= k < ls.len() implies json::json_views(list@)[k]
                        == ls.update(n as int, changed@)[k] by {
                        assert(ls[k] == before[k]@);
                    }
                }
            }
            Ok(set_field(entry, "layers", Json::Array(list)))
        },
    }
}

// ── Entries ────────────────────────────────────────────────────────────────

/// What a change leaves of a pressing.
pub open spec fn entry_change(entry: JsonView, change: JsonView, merge: bool) -> Result<
    JsonView,
    ErrorView,
> {
    let e = field_step(Ok(entry), change, "offset_value"@, "offset_value"@);
    let e = field_step(e, change, "offset_extra_value"@, "offset_extra_value"@);
    let e = field_step(e, change, "sample_data_start"@, "sample_start"@);
    let e = field_step(e, change, "comment"@, "comment"@);
    match e {
        Err(x) => Err(x),
        Ok(v) => layer_changes(v, json::list_or_empty(json::field(change, "layers"@)), merge),
    }
}

/// What a change leaves of a pressing.
pub fn change_entry(entry: Json, change: &Json, merge: bool) -> (r: Result<Json, AppError>)
    ensures
        changes::json_result(r) == entry_change(entry@, change@, merge),
{
    let e = match step_field(entry, change, "offset_value", "offset_value") {
        Ok(v) => v,
        Err(x) => {
            return Err(x);
        },
    };
    let e = match step_field(e, change, "offset_extra_value", "offset_extra_value") {
        Ok(v) => v,
        Err(x) => {
            return Err(x);
        },
    };
    let e = match step_field(e, change, "sample_data_start", "sample_start") {
        Ok(v) => v,
        Err(x) => {
            return Err(x);
        },
    };
    let e = match step_field(e, change, "comment", "comment") {
        Ok(v) => v,
        Err(x) => {
            return Err(x);
        },
    };
    match change.field("layers") {
        Json::Array(list) => change_layers(e, list, merge),
        _ => Ok(e),
    }
}

fn change_layers(entry: Json, list: &Vec<Json>, merge: bool) -> (r: Result<Json, AppError>)
    ensures
        changes::json_result(r) == layer_changes(entry@, json::json_views(list@), merge),
{
    let mut e = entry;
    let ghost start = e@;
    let ghost all = json::json_views(list@);
    proof {
        json::lemma_json_views(list@);
        assert(all.skip(0) =~= all);
    }
    for i in 0..list.len()
        invariant
            all == json::json_views(list@),
            all.len() == list@.len(),
            forall|k: int| 0 <= k < list@.len() ==> #[trigger] all[k] == list@[k]@,
            start == entry@,
            layer_changes(e@, all.skip(i as int), merge) == layer_changes(start, all, merge),
    {
        proof {
            let rest = all.skip(i as int);
            assert(rest[0] == list@[i as int]@);
            assert(rest.drop_first() =~= all.skip(i + 1));
        }
        match change_layer(e, &list[i], merge) {
            Ok(v) => {
                e = v;
            },
            Err(x) => {
                return Err(x);
            },
        }
    }
    Ok(e)
}

/// A pressing without data.
pub open spec fn blank_entry() -> JsonView {
    let e = Seq::<(Seq<char>, JsonView)>::empty();
    let e = json::put(e, "offset_value"@, JsonView::Str(Seq::empty()));
    let e = json::put(e, "offset_extra_value"@, JsonView::Str(Seq::empty()));
    let e = json::put(e, "sample_start"@, JsonView::Str(Seq::empty()));
    let e = json::put(e, "comment"@, JsonView::Str(Seq::empty()));
    JsonView::Obj(json::put(e, "layers"@, JsonView::Arr(Seq::empty())))
}

fn build_blank_entry() -> (r: Json)
    ensures
        r@ == blank_entry(),
{
    let mut o = JsonObject::new();
    o.insert("offset_value", Json::Text(String::new()));
    o.insert("offset_extra_value", Json::Text(String::new()));
    o.insert("sample_start", Json::Text(String::new()));
    o.insert("comment", Json::Text(String::new()));
    let none: Vec<Json> = Vec::new();
    assert(json::json_views(none@) =~= Seq::<JsonView>::empty());
    o.insert("layers", Json::Array(none));
    Json::Object(o)
}

// ── Which entry a change means ─────────────────────────────────────────────

/// The id of an entry or of a change.
pub open spec fn id_of(v: JsonView) -> Option<i32> {
    disc_update::id_field(json::field(v, "id"@))
}

/// Reads the id of an entry or of a change.
pub fn read_id(v: &Json) -> (r: Option<i32>)
    ensures
        r == id_of(v@),
{
    match v.field("id").as_i64() {
        Some(n) => Some(
            #[verifier::truncate]
            (n as i32),
        ),
        None => None,
    }
}

/// Two numeric fields agree: they are equal, or one is empty where that is enough.
pub open spec fn numbers_agree(a: Seq<char>, b: Seq<char>, exact: bool) -> bool {
    a == b || (!exact && (a.len() == 0 || b.len() == 0))
}

/// Whether two numeric fields agree.
pub fn ring_numeric_values_match(existing_val: &str, change_val: &str, require_exact: bool) -> (r:
    bool)
    ensures
        r == numbers_agree(existing_val@, change_val@, require_exact),
{
    str_eq(existing_val, change_val) || (!require_exact && (existing_val.is_empty()
        || change_val.is_empty()))
}

/// A layer that is identified by its mastering.
pub open spec fn identified(layer: JsonView) -> bool {
    json::text_or_empty(json::field(layer, "mastering_code"@)).len() > 0 || json::text_or_empty(
        json::field(layer, "mastering_sid"@),
    ).len() > 0
}

/// Whether a layer is identified by its mastering.
pub fn ring_layer_has_mastering_identity(layer: &Json) -> (r: bool)
    ensures
        r == identified(layer@),
{
    !layer.field("mastering_code").str_or_empty().is_empty() || !layer.field(
        "mastering_sid",
    ).str_or_empty().is_empty()
}

/// Some layer is identified.
pub open spec fn any_identified(layers: Seq<JsonView>) -> bool {
    exists|i: int| 0 <= i < layers.len() && identified(#[trigger] layers[i])
}

/// A layer change that gives a mastering.
pub open spec fn identifies(change: JsonView) -> bool {
    new_text(change, "mastering_code"@).len() > 0 || new_text(change, "mastering_sid"@).len() > 0
}

/// Some layer change gives a mastering.
pub open spec fn any_identifies(changes: Seq<JsonView>) -> bool {
    exists|i: int| 0 <= i < changes.len() && identifies(#[trigger] changes[i])
}

fn layers_are_identified(layers: &Vec<Json>) -> (r: bool)
    ensures
        r == any_identified(json::json_views(layers@)),
{
    proof {
        json::lemma_json_views(layers@);
    }
    for i in 0..layers.len()
        invariant
            json::json_views(layers@).len() == layers@.len(),
            forall|k: int|
                0 <= k < layers@.len() ==> #[trigger] json::json_views(layers@)[k] == layers@[k]@,
            forall|k: int| 0 <= k < i ==> !identified(#[trigger] json::json_views(layers@)[k]),
    {
        assert(json::json_views(layers@)[i as int] == layers@[i as int]@);
        if ring_layer_has_mastering_identity(&layers[i]) {
            return true;
        }
    }
    false
}

fn ring_change_layers_have_mastering_identity(changes: &Vec<Json>) -> (r: bool)
    ensures
        r == any_identifies(json::json_views(changes@)),
{
    proof {
        json::lemma_json_views(changes@);
    }
    for i in 0..changes.len()
        invariant
            json::json_views(changes@).len() == changes@.len(),
            forall|k: int|
                0 <= k < changes@.len() ==> #[trigger] json::json_views(changes@)[k] == changes@[k]@,
            forall|k: int| 0 <= k < i ==> !identifies(#[trigger] json::json_views(changes@)[k]),
    {
        assert(json::json_views(changes@)[i as int] == changes@[i as int]@);
        if !operation_new_str(&changes[i], "mastering_code").as_str().is_empty()
            || !operation_new_str(&changes[i], "mastering_sid").as_str().is_empty() {
            return true;
        }
    }
    false
}

/// The text of a field of layer `n`, or the empty text.
pub open spec fn layer_text(layers: Seq<JsonView>, n: nat, key: Seq<char>) -> Seq<char> {
    if n < layers.len() {
        json::text_or_empty(json::field(layers[n as int], key))
    } else {
        Seq::empty()
    }
}

/// A layer change says of the mastering what the pressing says.
pub open spec fn layer_agrees(layers: Seq<JsonView>, change: JsonView) -> bool {
    match layer_index(change) {
        None => true,
        Some(n) => new_text(change, "mastering_code"@) == layer_text(
            layers,
            n,
            "mastering_code"@,
        ) && new_text(change, "mastering_sid"@) == layer_text(layers, n, "mastering_sid"@),
    }
}

/// Every layer change agrees with the pressing.
pub open spec fn layers_agree(layers: Seq<JsonView>, changes: Seq<JsonView>) -> bool {
    forall|i: int| 0 <= i < changes.len() ==> layer_agrees(layers, #[trigger] changes[i])
}

/// The index that a layer change gives, before it is cut to the size of an index.
pub open spec fn named_index(change: JsonView) -> Option<int> {
    match json::get(change, "index"@) {
        Some(v) => json::as_index(v),
        None => None,
    }
}

/// Some layer change names layer `n`.
pub open spec fn names_layer(changes: Seq<JsonView>, n: int) -> bool {
    exists|i: int| 0 <= i < changes.len() && named_index(#[trigger] changes[i]) == Some(n)
}

/// Every identified layer of the pressing is named by the change.
pub open spec fn identified_are_named(layers: Seq<JsonView>, changes: Seq<JsonView>) -> bool {
    forall|i: int|
        0 <= i < layers.len() && identified(#[trigger] layers[i]) ==> names_layer(changes, i)
}

/// A change without an id means this pressing: it is not being removed, its numbers and
/// its comment agree, and so does its mastering. Numbers must be equal where neither
/// side is identified by its mastering.
pub open spec fn ring_matches(ring: JsonView, change: JsonView, removed: Seq<i32>) -> bool {
    let changes = json::list_or_empty(json::field(change, "layers"@));
    let layers = json::list_or_empty(json::field(ring, "layers"@));
    let exact = !any_identifies(changes) && !any_identified(layers);
    &&& !(id_of(ring) is Some && removed.contains(id_of(ring)->0))
    &&& numbers_agree(
        json::text_or_empty(json::field(ring, "offset_value"@)),
        new_text(change, "offset_value"@),
        exact,
    )
    &&& numbers_agree(
        json::text_or_empty(json::field(ring, "offset_extra_value"@)),
        new_text(change, "offset_extra_value"@),
        exact,
    )
    &&& numbers_agree(
        json::text_or_empty(json::field(ring, "sample_start"@)),
        new_text(change, "sample_data_start"@),
        exact,
    )
    &&& json::text_or_empty(json::field(ring, "comment"@)) == new_text(change, "comment"@)
    &&& layers_agree(layers, changes)
    &&& identified_are_named(layers, changes)
}

/// The first pressing from `i` on that a change without an id means.
pub open spec fn match_from(rs: Seq<JsonView>, change: JsonView, removed: Seq<i32>, i: int) -> Option<
    int,
>
    decreases rs.len() - i,
{
    if i < 0 || i >= rs.len() {
        None
    } else if ring_matches(rs[i], change, removed) {
        Some(i)
    } else {
        match_from(rs, change, removed, i + 1)
    }
}

/// The pressing that a change without an id means; a change without layers means none.
pub open spec fn matching_ring(rs: Seq<JsonView>, change: JsonView, removed: Seq<i32>) -> Option<
    int,
> {
    if json::field(change, "layers"@) is Arr {
        match_from(rs, change, removed, 0)
    } else {
        None
    }
}

fn read_named_index(change: &Json) -> (r: Option<u64>)
    ensures
        match r {
            Some(n) => named_index(change@) == Some(n as int),
            None => named_index(change@) is None,
        },
{
    match change.get("index") {
        Some(v) => v.as_u64(),
        None => None,
    }
}

fn layer_is_named(changes: &Vec<Json>, n: usize) -> (r: bool)
    ensures
        r == names_layer(json::json_views(changes@), n as int),
{
    proof {
        json::lemma_json_views(changes@);
    }
    for i in 0..changes.len()
        invariant
            json::json_views(changes@).len() == changes@.len(),
            forall|k: int|
                0 <= k < changes@.len() ==> #[trigger] json::json_views(changes@)[k] == changes@[k]@,
            forall|k: int|
                0 <= k < i ==> named_index(#[trigger] json::json_views(changes@)[k]) != Some(n as int),
    {
        assert(json::json_views(changes@)[i as int] == changes@[i as int]@);
        if let Some(m) = read_named_index(&changes[i]) {
            if m == n as u64 {
                return true;
            }
        }
    }
    false
}

fn layer_change_agrees(layers: &Vec<Json>, change: &Json) -> (r: bool)
    ensures
        r == layer_agrees(json::json_views(layers@), change@),
{
    proof {
        json::lemma_json_views(layers@);
    }
    match read_layer_index(change) {
        None => true,
        Some(n) => {
            let code = operation_new_str(change, "mastering_code");
            let sid = operation_new_str(change, "mastering_sid");
            if n < layers.len() {
                assert(json::json_views(layers@)[n as int] == layers@[n as int]@);
                str_eq(code.as_str(), layers[n].field("mastering_code").str_or_empty()) && str_eq(
                    sid.as_str(),
                    layers[n].field("mastering_sid").str_or_empty(),
                )
            } else {
                if code.as_str().is_empty() {
                    assert(code@ =~= Seq::<char>::empty());
                }
                if sid.as_str().is_empty() {
                    assert(sid@ =~= Seq::<char>::empty());
                }
                code.as_str().is_empty() && sid.as_str().is_empty()
            }
        },
    }
}

fn layers_match(layers: &Vec<Json>, changes: &Vec<Json>) -> (r: bool)
    ensures
        r == (layers_agree(json::json_views(layers@), json::json_views(changes@)) && identified_are_named(
            json::json_views(layers@),
            json::json_views(changes@),
        )),
{
    proof {
        json::lemma_json_views(changes@);
        json::lemma_json_views(layers@);
    }
    let ghost cs = json::json_views(changes@);
    let ghost ls = json::json_views(layers@);
    for i in 0..changes.len()
        invariant
            cs == json::json_views(changes@),
            ls == json::json_views(layers@),
            cs.len() == changes@.len(),
            forall|k: int| 0 <= k < changes@.len() ==> #[trigger] cs[k] == changes@[k]@,
            forall|k: int| 0 <= k < i ==> layer_agrees(ls, #[trigger] cs[k]),
    {
        assert(cs[i as int] == changes@[i as int]@);
        if !layer_change_agrees(layers, &changes[i]) {
            return false;
        }
    }
    for i in 0..layers.len()
        invariant
            cs == json::json_views(changes@),
            ls == json::json_views(layers@),
            ls.len() == layers@.len(),
            forall|k: int| 0 <= k < layers@.len() ==> #[trigger] ls[k] == layers@[k]@,
            forall|k: int|
                0 <= k < i && identified(#[trigger] ls[k]) ==> names_layer(cs, k),
    {
        assert(ls[i as int] == layers@[i as int]@);
        if ring_layer_has_mastering_identity(&layers[i]) && !layer_is_named(changes, i) {
            return false;
        }
    }
    true
}

fn contains_id(ids: &Vec<i32>, id: i32) -> (r: bool)
    ensures
        r == ids@.contains(id),
{
    for i in 0..ids.len()
        invariant
            forall|k: int| 0 <= k < i ==> ids@[k] != id,
    {
        if ids[i] == id {
            return true;
        }
    }
    false
}

fn ring_is_meant(ring: &Json, change: &Json, changes: &Vec<Json>, removed: &Vec<i32>) -> (r: bool)
    requires
        json::list_or_empty(json::field(change@, "layers"@)) == json::json_views(changes@),
    ensures
        r == ring_matches(ring@, change@, removed@),
{
    if let Some(id) = read_id(ring) {
        if contains_id(removed, id) {
            return false;
        }
    }
    let none: Vec<Json> = Vec::new();
    assert(json::json_views(none@) =~= Seq::<JsonView>::empty());
    let layers: &Vec<Json> = match ring.field("layers") {
        Json::Array(l) => l,
        _ => &none,
    };
    assert(json::json_views(layers@) == json::list_or_empty(json::field(ring@, "layers"@)));
    let exact = !ring_change_layers_have_mastering_identity(changes) && !layers_are_identified(
        layers,
    );
    if !ring_numeric_values_match(
        ring.field("offset_value").str_or_empty(),
        operation_new_str(change, "offset_value").as_str(),
        exact,
    ) {
        return false;
    }
    if !ring_numeric_values_match(
        ring.field("offset_extra_value").str_or_empty(),
        operation_new_str(change, "offset_extra_value").as_str(),
        exact,
    ) {
        return false;
    }
    if !ring_numeric_values_match(
        ring.field("sample_start").str_or_empty(),
        operation_new_str(change, "sample_data_start").as_str(),
        exact,
    ) {
        return false;
    }
    if !str_eq(
        ring.field("comment").str_or_empty(),
        operation_new_str(change, "comment").as_str(),
    ) {
        return false;
    }
    layers_match(layers, changes)
}

/// The pressing that a change without an id means.
pub fn find_matching_ring_entry(
    rings: &Vec<Json>,
    change: &Json,
    removed_ring_ids: &Vec<i32>,
) -> (r: Option<usize>)
    ensures
        match r {
            Some(k) => k < rings@.len() && matching_ring(
                json::json_views(rings@),
                change@,
                removed_ring_ids@,
            ) == Some(k as int),
            None => matching_ring(json::json_views(rings@), change@, removed_ring_ids@) is None,
        },
{
    let ghost rs = json::json_views(rings@);
    proof {
        json::lemma_json_views(rings@);
    }
    let changes = match change.field("layers") {
        Json::Array(l) => l,
        _ => {
            return None;
        },
    };
    for i in 0..rings.len()
        invariant
            rs == json::json_views(rings@),
            rs.len() == rings@.len(),
            forall|k: int| 0 <= k < rings@.len() ==> #[trigger] rs[k] == rings@[k]@,
            json::field(change@, "layers"@) == JsonView::Arr(json::json_views(changes@)),
            match_from(rs, change@, removed_ring_ids@, i as int) == match_from(
                rs,
                change@,
                removed_ring_ids@,
                0,
            ),
    {
        assert(rs[i as int] == rings@[i as int]@);
        if ring_is_meant(&rings[i], change, changes, removed_ring_ids) {
            return Some(i);
        }
    }
    None
}

// ── The whole change ───────────────────────────────────────────────────────

/// What a list of changes has done to the pressings so far.
pub struct RingState {
    pub rings: Seq<JsonView>,
    pub additions: Seq<JsonView>,
    pub removals: Seq<int>,
}

/// A change that removes its entry.
pub open spec fn is_removal(change: JsonView) -> bool {
    json::field(change, "remove"@) == JsonView::Bool(true)
}

/// The ids of the entries that are removed.
pub open spec fn removed_ids(changes: Seq<JsonView>) -> Seq<i32>
    decreases changes.len(),
{
    if changes.len() == 0 {
        Seq::empty()
    } else {
        let before = removed_ids(changes.drop_last());
        let c = changes.last();
        if is_removal(c) && id_of(c) is Some {
            before.push(id_of(c)->0)
        } else {
            before
        }
    }
}

/// The first entry from `i` on with an id.
pub open spec fn position_from(rs: Seq<JsonView>, id: i32, i: int) -> Option<int>
    decreases rs.len() - i,
{
    if i < 0 || i >= rs.len() {
        None
    } else if id_of(rs[i]) == Some(id) {
        Some(i)
    } else {
        position_from(rs, id, i + 1)
    }
}

/// The pressings with entry `i` changed.
pub open spec fn state_with(s: RingState, i: int, e: Result<JsonView, ErrorView>) -> Result<
    RingState,
    ErrorView,
> {
    match e {
        Err(x) => Err(x),
        Ok(v) => Ok(
            RingState {
                rings: s.rings.update(i, v),
                additions: s.additions,
                removals: s.removals,
            },
        ),
    }
}

/// What one change does: it removes or changes the entry with its id; without an id it
/// is merged into the entry that it means, or adds one.
pub open spec fn ring_step(s: RingState, change: JsonView, removed: Seq<i32>) -> Result<
    RingState,
    ErrorView,
> {
    match id_of(change) {
        Some(id) => match position_from(s.rings, id, 0) {
            None => changes::refused("ring_codes id "@ + numbers::int_text(id as int) + " not found"@),
            Some(i) => if is_removal(change) {
                Ok(
                    RingState {
                        rings: s.rings,
                        additions: s.additions,
                        removals: s.removals.push(i),
                    },
                )
            } else {
                state_with(s, i, entry_change(s.rings[i], change, false))
            },
        },
        None => if is_removal(change) {
            changes::refused("ring_codes removal requires entry id"@)
        } else {
            match matching_ring(s.rings, change, removed) {
                Some(i) => state_with(s, i, entry_change(s.rings[i], change, true)),
                None => match entry_change(blank_entry(), change, false) {
                    Err(x) => Err(x),
                    Ok(v) => Ok(
                        RingState {
                            rings: s.rings,
                            additions: s.additions.push(v),
                            removals: s.removals,
                        },
                    ),
                },
            }
        },
    }
}

/// What a list of changes does, one after the other.
pub open spec fn ring_steps(s: RingState, changes: Seq<JsonView>, removed: Seq<i32>) -> Result<
    RingState,
    ErrorView,
>
    decreases changes.len(),
{
    if changes.len() == 0 {
        Ok(s)
    } else {
        match ring_step(s, changes[0], removed) {
            Err(e) => Err(e),
            Ok(t) => ring_steps(t, changes.drop_first(), removed),
        }
    }
}

/// The entries whose positions are not removed.
pub open spec fn kept(rs: Seq<JsonView>, removals: Seq<int>) -> Seq<JsonView>
    decreases rs.len(),
{
    if rs.len() == 0 {
        Seq::empty()
    } else {
        let before = kept(rs.drop_last(), removals);
        if removals.contains(rs.len() - 1) {
            before
        } else {
            before.push(rs.last())
        }
    }
}

/// The greatest number of layers among pressings.
pub open spec fn max_layers(rs: Seq<JsonView>) -> nat
    decreases rs.len(),
{
    if rs.len() == 0 {
        0
    } else {
        let before = max_layers(rs.drop_last());
        let n = json::list_or_empty(json::field(rs.last(), "layers"@)).len();
        if n > before {
            n
        } else {
            before
        }
    }
}

/// Pressings in order, as many layers compared as any of them has.
pub open spec fn ordered_rings(rs: Seq<JsonView>) -> Seq<JsonView> {
    disc_service::sorted_rings(rs, max_layers(rs))
}

/// What a change of the pressings leaves.
pub open spec fn ring_history(old: JsonView, node: JsonView) -> Result<Seq<JsonView>, ErrorView> {
    let start = ordered_rings(json::list_or_empty(old));
    match node {
        JsonView::Arr(changes) => match ring_steps(
            RingState { rings: start, additions: Seq::empty(), removals: Seq::empty() },
            changes,
            removed_ids(changes),
        ) {
            Err(e) => Err(e),
            Ok(s) => Ok(ordered_rings(kept(s.rings, s.removals) + s.additions)),
        },
        _ => Ok(start),
    }
}

/// The greatest number of layers among pressings.
pub fn ring_layers_max(entries: &Vec<Json>) -> (r: usize)
    ensures
        r == max_layers(json::json_views(entries@)),
{
    let ghost rs = json::json_views(entries@);
    let mut most: usize = 0;
    proof {
        json::lemma_json_views(entries@);
        assert(rs.take(0) =~= Seq::<JsonView>::empty());
    }
    for i in 0..entries.len()
        invariant
            rs == json::json_views(entries@),
            rs.len() == entries@.len(),
            forall|k: int| 0 <= k < entries@.len() ==> #[trigger] rs[k] == entries@[k]@,
            most == max_layers(rs.take(i as int)),
    {
        proof {
            let t = rs.take(i + 1);
            assert(t.drop_last() =~= rs.take(i as int));
            assert(t.last() == entries@[i as int]@);
        }
        let n: usize = match entries[i].field("layers") {
            Json::Array(l) => {
                proof {
                    json::lemma_json_views(l@);
                }
                l.len()
            },
            _ => 0,
        };
        if n > most {
            most = n;
        }
    }
    assert(rs.take(rs.len() as int) =~= rs);
    most
}

fn read_removed_ids(changes: &Vec<Json>) -> (r: Vec<i32>)
    ensures
        r@ == removed_ids(json::json_views(changes@)),
{
    let ghost cs = json::json_views(changes@);
    let mut out: Vec<i32> = Vec::new();
    proof {
        json::lemma_json_views(changes@);
        assert(cs.take(0) =~= Seq::<JsonView>::empty());
        assert(out@ =~= Seq::<i32>::empty());
    }
    for i in 0..changes.len()
        invariant
            cs == json::json_views(changes@),
            cs.len() == changes@.len(),
            forall|k: int| 0 <= k < changes@.len() ==> #[trigger] cs[k] == changes@[k]@,
            out@ == removed_ids(cs.take(i as int)),
    {
        proof {
            let t = cs.take(i + 1);
            assert(t.drop_last() =~= cs.take(i as int));
            assert(t.last() == changes@[i as int]@);
        }
        if change_is_removal(&changes[i]) {
            if let Some(id) = read_id(&changes[i]) {
                out.push(id);
            }
        }
    }
    assert(cs.take(cs.len() as int) =~= cs);
    out
}

fn change_is_removal(change: &Json) -> (r: bool)
    ensures
        r == is_removal(change@),
{
    match change.field("remove").as_bool() {
        Some(b) => b,
        None => false,
    }
}

fn position_of_id(rings: &Vec<Json>, id: i32) -> (r: Option<usize>)
    ensures
        match r {
            Some(k) => k < rings@.len() && position_from(json::json_views(rings@), id, 0) == Some(
                k as int,
            ),
            None => position_from(json::json_views(rings@), id, 0) is None,
        },
{
    let ghost rs = json::json_views(rings@);
    proof {
        json::lemma_json_views(rings@);
    }
    for i in 0..rings.len()
        invariant
            rs == json::json_views(rings@),
            rs.len() == rings@.len(),
            forall|k: int| 0 <= k < rings@.len() ==> #[trigger] rs[k] == rings@[k]@,
            position_from(rs, id, i as int) == position_from(rs, id, 0),
    {
        assert(rs[i as int] == rings@[i as int]@);
        if let Some(n) = read_id(&rings[i]) {
            if n == id {
                return Some(i);
            }
        }
    }
    None
}

fn contains_position(v: &Vec<usize>, n: usize) -> (r: bool)
    ensures
        r == order::positions(v@).contains(n as int),
{
    let ghost ps = order::positions(v@);
    for i in 0..v.len()
        invariant
            ps == order::positions(v@),
            forall|k: int| 0 <= k < i ==> #[trigger] ps[k] != n as int,
    {
        assert(ps[i as int] == v@[i as int] as int);
        if v[i] == n {
            assert(ps.contains(ps[i as int]));
            return true;
        }
    }
    false
}

fn keep_rings(rings: &Vec<Json>, removals: &Vec<usize>) -> (r: Vec<Json>)
    ensures
        json::json_views(r@) == kept(json::json_views(rings@), order::positions(removals@)),
{
    let ghost rs = json::json_views(rings@);
    let mut out: Vec<Json> = Vec::new();
    proof {
        json::lemma_json_views(rings@);
        assert(rs.take(0) =~= Seq::<JsonView>::empty());
        assert(json::json_views(out@) =~= Seq::<JsonView>::empty());
    }
    for i in 0..rings.len()
        invariant
            rs == json::json_views(rings@),
            rs.len() == rings@.len(),
            forall|k: int| 0 <= k < rings@.len() ==> #[trigger] rs[k] == rings@[k]@,
            json::json_views(out@) == kept(rs.take(i as int), order::positions(removals@)),
    {
        proof {
            let t = rs.take(i + 1);
            assert(t.drop_last() =~= rs.take(i as int));
            assert(t.last() == rings@[i as int]@);
        }
        if !contains_position(removals, i) {
            let x = rings[i].copy();
            proof {
                json::lemma_json_views_push(out@, x);
            }
            out.push(x);
        }
    }
    assert(rs.take(rs.len() as int) =~= rs);
    out
}

/// Replace entry `i` by what a change leaves of it.
fn change_ring_at(rings: &mut Vec<Json>, i: usize, change: &Json, merge: bool) -> (r: Result<
    (),
    AppError,
>)
    requires
        i < old(rings)@.len(),
    ensures
        match r {
            Ok(_) => entry_change(json::json_views(old(rings)@)[i as int], change@, merge) is Ok
                && json::json_views(final(rings)@) == json::json_views(old(rings)@).update(
                i as int,
                entry_change(json::json_views(old(rings)@)[i as int], change@, merge)->Ok_0,
            ),
            Err(e) => entry_change(json::json_views(old(rings)@)[i as int], change@, merge) == Err::<
                JsonView,
                ErrorView,
            >(e@),
        },
{
    let ghost rs = json::json_views(rings@);
    let ghost before = rings@;
    proof {
        json::lemma_json_views(rings@);
        assert(rs[i as int] == rings@[i as int]@);
    }
    let entry = rings[i].copy();
    match change_entry(entry, change, merge) {
        Err(e) => Err(e),
        Ok(v) => {
            rings[i] = v;
            proof {
                json::lemma_json_views(rings@);
                assert(json::json_views(rings@) =~= rs.update(i as int, v@)) by {
                    assert forall|k: int| 0 <= k < rs.len() implies json::json_views(rings@)[k]
                        == rs.update(i as int, v@)[k] by {
                        assert(rs[k] == before[k]@);
                    }
                }
            }
            Ok(())
        },
    }
}

/// Apply one change to the pressings.
fn apply_ring_step(
    rings: &mut Vec<Json>,
    additions: &mut Vec<Json>,
    removals: &mut Vec<usize>,
    change: &Json,
    removed: &Vec<i32>,
) -> (r: Result<(), AppError>)
    ensures
        ({
            let s = RingState {
                rings: json::json_views(old(rings)@),
                additions: json::json_views(old(additions)@),
                removals: order::positions(old(removals)@),
            };
            match r {
                Ok(_) => ring_step(s, change@, removed@) == Ok::<RingState, ErrorView>(
                    RingState {
                        rings: json::json_views(final(rings)@),
                        additions: json::json_views(final(additions)@),
                        removals: order::positions(final(removals)@),
                    },
                ),
                Err(e) => ring_step(s, change@, removed@) == Err::<RingState, ErrorView>(e@),
            }
        }),
{
    let is_removed = change_is_removal(change);
    match read_id(change) {
        Some(id) => match position_of_id(rings, id) {
            None => Err(
                AppError::BadRequest(
                    cat3("ring_codes id ", write_i64(id as i64).as_str(), " not found"),
                ),
            ),
            Some(i) => {
                if is_removed {
                    let ghost before = removals@;
                    removals.push(i);
                    assert(order::positions(removals@) =~= order::positions(before).push(i as int));
                    Ok(())
                } else {
                    change_ring_at(rings, i, change, false)
                }
            },
        },
        None => {
            if is_removed {
                return Err(bad_request("ring_codes removal requires entry id"));
            }
            match find_matching_ring_entry(rings, change, removed) {
                Some(i) => change_ring_at(rings, i, change, true),
                None => match change_entry(build_blank_entry(), change, false) {
                    Err(e) => Err(e),
                    Ok(v) => {
                        proof {
                            json::lemma_json_views_push(additions@, v);
                        }
                        additions.push(v);
                        Ok(())
                    },
                },
            }
        },
    }
}

/// The value of a result that is a list.
pub open spec fn list_result(r: Result<Json, AppError>) -> Result<Seq<JsonView>, ErrorView> {
    match r {
        Ok(v) => Ok(json::list_or_empty(v@)),
        Err(e) => Err(e@),
    }
}

/// The pressing that a change is applied to, if it is applied to one that is there.
pub open spec fn changed_ring(s: RingState, change: JsonView, removed: Seq<i32>) -> Option<int> {
    if is_removal(change) {
        None
    } else {
        match id_of(change) {
            Some(id) => position_from(s.rings, id, 0),
            None => matching_ring(s.rings, change, removed),
        }
    }
}

/// A value can take what a change gives one of its fields: it need not be settable where
/// the change names no such field, or is refused.
pub open spec fn field_fits(v: Result<JsonView, ErrorView>, change: JsonView, key: Seq<char>) -> bool {
    match (v, json::get(change, key)) {
        (Ok(x), Some(node)) => changes::scalar_op(node) is Ok ==> settable(x),
        _ => true,
    }
}

/// A layer can take what a change gives its fields, one after the other.
pub open spec fn layer_fields_fit(layer: JsonView, change: JsonView, merge: bool) -> bool {
    let a = Ok::<JsonView, ErrorView>(layer);
    let b = field_step(a, change, "mastering_code"@, "mastering_code"@);
    let c = field_step(b, change, "mastering_sid"@, "mastering_sid"@);
    let d = stamp_step(c, change, "toolstamps"@, merge);
    let e = stamp_step(d, change, "mould_sids"@, merge);
    &&& field_fits(a, change, "mastering_code"@)
    &&& field_fits(b, change, "mastering_sid"@)
    &&& field_fits(c, change, "toolstamps"@)
    &&& field_fits(d, change, "mould_sids"@)
    &&& field_fits(e, change, "additional_moulds"@)
}

/// A pressing can take a layer change: where the change means a layer, the pressing can
/// hold layers, and the layer can take what the change gives it.
pub open spec fn layer_fits(entry: JsonView, change: JsonView, merge: bool) -> bool {
    layer_index(change) matches Some(n) ==> settable(entry) && layer_fields_fit(
        grown_layers(entry, n)[n as int],
        change,
        merge,
    )
}

/// A pressing can take layer changes, one after the other.
pub open spec fn layers_fit(entry: JsonView, changes: Seq<JsonView>, merge: bool) -> bool
    decreases changes.len(),
{
    changes.len() > 0 ==> {
        &&& layer_fits(entry, changes[0], merge)
        &&& layer_change(entry, changes[0], merge) matches Ok(v) ==> layers_fit(
            v,
            changes.drop_first(),
            merge,
        )
    }
}

/// A pressing can take a change: whatever the change sets, of the pressing or of one of
/// its layers, is a field of a value that can have fields.
pub open spec fn entry_fits(entry: JsonView, change: JsonView, merge: bool) -> bool {
    let a = Ok::<JsonView, ErrorView>(entry);
    let b = field_step(a, change, "offset_value"@, "offset_value"@);
    let c = field_step(b, change, "offset_extra_value"@, "offset_extra_value"@);
    let d = field_step(c, change, "sample_data_start"@, "sample_start"@);
    let e = field_step(d, change, "comment"@, "comment"@);
    &&& field_fits(a, change, "offset_value"@)
    &&& field_fits(b, change, "offset_extra_value"@)
    &&& field_fits(c, change, "sample_data_start"@)
    &&& field_fits(d, change, "comment"@)
    &&& e matches Ok(v) ==> layers_fit(v, json::list_or_empty(json::field(change, "layers"@)), merge)
}

/// Every pressing that a change is applied to can take it.
pub open spec fn steps_ok(s: RingState, changes: Seq<JsonView>, removed: Seq<i32>) -> bool
    decreases changes.len(),
{
    changes.len() > 0 ==> {
        &&& changed_ring(s, changes[0], removed) matches Some(i) ==> entry_fits(
            s.rings[i],
            changes[0],
            id_of(changes[0]) is None,
        )
        &&& ring_step(s, changes[0], removed) matches Ok(t) ==> steps_ok(
            t,
            changes.drop_first(),
            removed,
        )
    }
}

/// A change of the pressings can be applied: those that it means can take what it gives
/// them.
pub open spec fn rings_changeable(old: JsonView, node: JsonView) -> bool {
    match node {
        JsonView::Arr(changes) => steps_ok(
            RingState {
                rings: ordered_rings(json::list_or_empty(old)),
                additions: Seq::empty(),
                removals: Seq::empty(),
            },
            changes,
            removed_ids(changes),
        ),
        _ => true,
    }
}

/// Apply a change of the pressings.
pub fn apply_ring_codes_history(old_value: &Json, change_node: &Json) -> (r: Result<
    Json,
    AppError,
>)
    requires
        rings_changeable(old_value@, change_node@),
    ensures
        list_result(r) == ring_history(old_value@, change_node@),
        r matches Ok(v) ==> v@ is Arr,
{
    let mut rings: Vec<Json> = match old_value {
        Json::Array(l) => copy_list(l),
        _ => Vec::new(),
    };
    assert(json::json_views(rings@) =~= json::list_or_empty(old_value@));
    let before_layers = ring_layers_max(&rings);
    sort_ring_codes_json(&mut rings, before_layers);
    let changes = match change_node {
        Json::Array(l) => l,
        _ => {
            return Ok(Json::Array(rings));
        },
    };
    let removed = read_removed_ids(changes);
    let mut removals: Vec<usize> = Vec::new();
    let mut additions: Vec<Json> = Vec::new();
    let ghost cs = json::json_views(changes@);
    let ghost start = RingState {
        rings: json::json_views(rings@),
        additions: Seq::empty(),
        removals: Seq::empty(),
    };
    proof {
        json::lemma_json_views(changes@);
        assert(cs.skip(0) =~= cs);
        assert(order::positions(removals@) =~= Seq::<int>::empty());
        assert(json::json_views(additions@) =~= Seq::<JsonView>::empty());
    }
    for i in 0..changes.len()
        invariant
            cs == json::json_views(changes@),
            cs.len() == changes@.len(),
            forall|k: int| 0 <= k < changes@.len() ==> #[trigger] cs[k] == changes@[k]@,
            ring_steps(
                RingState {
                    rings: json::json_views(rings@),
                    additions: json::json_views(additions@),
                    removals: order::positions(removals@),
                },
                cs.skip(i as int),
                removed@,
            ) == ring_steps(start, cs, removed@),
            removed@ == removed_ids(cs),
            start.rings == ordered_rings(json::list_or_empty(old_value@)),
            start.additions == Seq::<JsonView>::empty(),
            start.removals == Seq::<int>::empty(),
            change_node@ == JsonView::Arr(cs),
    {
        proof {
            let rest = cs.skip(i as int);
            assert(rest[0] == changes@[i as int]@);
            assert(rest.drop_first() =~= cs.skip(i + 1));
        }
        match apply_ring_step(&mut rings, &mut additions, &mut removals, &changes[i], &removed) {
            Ok(_) => {},
            Err(e) => {
                return Err(e);
            },
        }
    }
    let mut out = keep_rings(&rings, &removals);
    let ghost first = json::json_views(out@);
    let ghost added = json::json_views(additions@);
    proof {
        json::lemma_json_views(additions@);
        assert(added.take(0) =~= Seq::<JsonView>::empty());
        assert(first + added.take(0) =~= first);
    }
    for i in 0..additions.len()
        invariant
            added == json::json_views(additions@),
            added.len() == additions@.len(),
            forall|k: int| 0 <= k < additions@.len() ==> #[trigger] added[k] == additions@[k]@,
            json::json_views(out@) == first + added.take(i as int),
    {
        let x = additions[i].copy();
        proof {
            json::lemma_json_views_push(out@, x);
            assert(first + added.take(i + 1) =~= (first + added.take(i as int)).push(
                added[i as int],
            ));
        }
        out.push(x);
    }
    assert(added.take(added.len() as int) =~= added);
    let after_layers = ring_layers_max(&out);
    sort_ring_codes_json(&mut out, after_layers);
    Ok(Json::Array(out))
}

// ── What every change keeps ────────────────────────────────────────────────

proof fn lemma_field_step_keeps(entry: JsonView, change: JsonView, from: Seq<char>, to: Seq<char>)
    requires
        ring_ok(entry),
        to != "layers"@,
    ensures
        field_step(Ok(entry), change, from, to) matches Ok(v) ==> ring_ok(v),
{
    if let Some(node) = json::get(change, from) {
        if let Ok(v) = changes::scalar_op(node) {
            lemma_set_key(entry, to, JsonView::Str(op_text(v)), "layers"@);
        }
    }
}

proof fn lemma_layer_step_keeps(layer: JsonView, change: JsonView, merge: bool)
    requires
        settable(layer),
    ensures
        layer_fields(layer, change, merge) matches Ok(v) ==> settable(v),
{
}

proof fn lemma_layer_change_keeps(entry: JsonView, change: JsonView, merge: bool)
    requires
        ring_ok(entry),
    ensures
        layer_change(entry, change, merge) matches Ok(v) ==> ring_ok(v),
{
    if let Some(n) = layer_index(change) {
        let ls = grown_layers(entry, n);
        assert(settable(ls[n as int]));
        lemma_layer_step_keeps(ls[n as int], change, merge);
        if let Ok(l) = layer_fields(ls[n as int], change, merge) {
            let x = JsonView::Arr(ls.update(n as int, l));
            lemma_set_key(entry, "layers"@, x, "layers"@);
        }
    }
}

proof fn lemma_layer_changes_keep(entry: JsonView, changes: Seq<JsonView>, merge: bool)
    requires
        ring_ok(entry),
    ensures
        layer_changes(entry, changes, merge) matches Ok(v) ==> ring_ok(v),
    decreases changes.len(),
{
    if changes.len() > 0 {
        lemma_layer_change_keeps(entry, changes[0], merge);
        if let Ok(v) = layer_change(entry, changes[0], merge) {
            lemma_layer_changes_keep(v, changes.drop_first(), merge);
        }
    }
}

/// A change leaves a pressing whose fields can be set.
pub proof fn lemma_entry_change_keeps(entry: JsonView, change: JsonView, merge: bool)
    requires
        ring_ok(entry),
    ensures
        entry_change(entry, change, merge) matches Ok(v) ==> ring_ok(v),
{
    reveal_strlit("layers");
    reveal_strlit("offset_value");
    reveal_strlit("offset_extra_value");
    reveal_strlit("sample_start");
    reveal_strlit("comment");
    assert("layers"@[0] == 'l' && "layers"@.len() == 6);
    assert("offset_value"@[0] == 'o' && "offset_extra_value"@[0] == 'o');
    assert("sample_start"@[0] == 's' && "comment"@[0] == 'c');
    lemma_field_step_keeps(entry, change, "offset_value"@, "offset_value"@);
    let e = field_step(Ok(entry), change, "offset_value"@, "offset_value"@);
    if let Ok(a) = e {
        lemma_field_step_keeps(a, change, "offset_extra_value"@, "offset_extra_value"@);
        if let Ok(b) = field_step(e, change, "offset_extra_value"@, "offset_extra_value"@) {
            lemma_field_step_keeps(b, change, "sample_data_start"@, "sample_start"@);
            if let Ok(c) = field_step(Ok(b), change, "sample_data_start"@, "sample_start"@) {
                lemma_field_step_keeps(c, change, "comment"@, "comment"@);
                if let Ok(d) = field_step(Ok(c), change, "comment"@, "comment"@) {
                    lemma_layer_changes_keep(d, json::list_or_empty(json::field(change, "layers"@)), merge);
                }
            }
        }
    }
}

/// The fields of a pressing without data can be set.
pub proof fn lemma_blank_entry()
    ensures
        ring_ok(blank_entry()),
{
    let e = Seq::<(Seq<char>, JsonView)>::empty();
    let e = json::put(e, "offset_value"@, JsonView::Str(Seq::empty()));
    let e = json::put(e, "offset_extra_value"@, JsonView::Str(Seq::empty()));
    let e = json::put(e, "sample_start"@, JsonView::Str(Seq::empty()));
    let e = json::put(e, "comment"@, JsonView::Str(Seq::empty()));
    json::lemma_lookup_put(e, "layers"@, JsonView::Arr(Seq::empty()), "layers"@);
}

/// The first entry with an id is one of the entries.
pub proof fn lemma_position_from(rs: Seq<JsonView>, id: i32, i: int)
    requires
        0 <= i,
    ensures
        position_from(rs, id, i) matches Some(k) ==> i <= k < rs.len() && id_of(rs[k]) == Some(id),
    decreases rs.len() - i,
{
    if i < rs.len() && id_of(rs[i]) != Some(id) {
        lemma_position_from(rs, id, i + 1);
    }
}

/// The entry that a change means is one of the entries.
pub proof fn lemma_match_from(rs: Seq<JsonView>, change: JsonView, removed: Seq<i32>, i: int)
    requires
        0 <= i,
    ensures
        match_from(rs, change, removed, i) matches Some(k) ==> i <= k < rs.len() && ring_matches(
            rs[k],
            change,
            removed,
        ),
    decreases rs.len() - i,
{
    if i < rs.len() && !ring_matches(rs[i], change, removed) {
        lemma_match_from(rs, change, removed, i + 1);
    }
}

/// A change leaves pressings whose fields can be set such.
pub proof fn lemma_ring_step_keeps(s: RingState, change: JsonView, removed: Seq<i32>)
    requires
        rings_ok(s.rings),
        rings_ok(s.additions),
    ensures
        ring_step(s, change, removed) matches Ok(t) ==> rings_ok(t.rings) && rings_ok(t.additions),
{
    match id_of(change) {
        Some(id) => {
            lemma_position_from(s.rings, id, 0);
            if let Some(i) = position_from(s.rings, id, 0) {
                lemma_entry_change_keeps(s.rings[i], change, false);
            }
        },
        None => {
            lemma_match_from(s.rings, change, removed, 0);
            match matching_ring(s.rings, change, removed) {
                Some(i) => {
                    lemma_entry_change_keeps(s.rings[i], change, true);
                },
                None => {
                    lemma_blank_entry();
                    lemma_entry_change_keeps(blank_entry(), change, false);
                },
            }
        },
    }
}

proof fn lemma_ring_steps_keep(s: RingState, changes: Seq<JsonView>, removed: Seq<i32>)
    requires
        rings_ok(s.rings),
        rings_ok(s.additions),
    ensures
        ring_steps(s, changes, removed) matches Ok(t) ==> rings_ok(t.rings) && rings_ok(
            t.additions,
        ),
    decreases changes.len(),
{
    if changes.len() > 0 {
        lemma_ring_step_keeps(s, changes[0], removed);
        if let Ok(t) = ring_step(s, changes[0], removed) {
            lemma_ring_steps_keep(t, changes.drop_first(), removed);
        }
    }
}

proof fn lemma_kept(rs: Seq<JsonView>, removals: Seq<int>)
    requires
        rings_ok(rs),
    ensures
        rings_ok(kept(rs, removals)),
    decreases rs.len(),
{
    if rs.len() > 0 {
        lemma_kept(rs.drop_last(), removals);
    }
}

proof fn lemma_ordered_rings(rs: Seq<JsonView>)
    requires
        rings_ok(rs),
    ensures
        rings_ok(ordered_rings(rs)),
{
    order::law_stable_order(disc_service::ring_keys(rs, max_layers(rs)));
}

/// Whatever the changes are, pressings whose fields can be set stay such.
pub proof fn law_ring_history_keeps_rings(old_value: JsonView, node: JsonView)
    requires
        rings_ok(json::list_or_empty(old_value)),
    ensures
        ring_history(old_value, node) matches Ok(rs) ==> rings_ok(rs),
{
    let start = ordered_rings(json::list_or_empty(old_value));
    lemma_ordered_rings(json::list_or_empty(old_value));
    if let JsonView::Arr(changes) = node {
        let s = RingState { rings: start, additions: Seq::empty(), removals: Seq::empty() };
        lemma_ring_steps_keep(s, changes, removed_ids(changes));
        if let Ok(t) = ring_steps(s, changes, removed_ids(changes)) {
            lemma_kept(t.rings, t.removals);
            lemma_ordered_rings(kept(t.rings, t.removals) + t.additions);
        }
    }
}

proof fn lemma_changed_ring(s: RingState, change: JsonView, removed: Seq<i32>)
    ensures
        changed_ring(s, change, removed) matches Some(i) ==> 0 <= i < s.rings.len(),
{
    if let Some(id) = id_of(change) {
        lemma_position(s.rings, id, 0);
    } else {
        lemma_match(s.rings, change, removed, 0);
    }
}

proof fn lemma_position(rs: Seq<JsonView>, id: i32, i: int)
    requires
        0 <= i <= rs.len(),
    ensures
        position_from(rs, id, i) matches Some(k) ==> i <= k < rs.len(),
    decreases rs.len() - i,
{
    if i < rs.len() {
        lemma_position(rs, id, i + 1);
    }
}

proof fn lemma_match(rs: Seq<JsonView>, change: JsonView, removed: Seq<i32>, i: int)
    requires
        0 <= i <= rs.len(),
    ensures
        match_from(rs, change, removed, i) matches Some(k) ==> i <= k < rs.len(),
    decreases rs.len() - i,
{
    if i < rs.len() {
        lemma_match(rs, change, removed, i + 1);
    }
}

proof fn lemma_layer_fields_fit(layer: JsonView, change: JsonView, merge: bool)
    requires
        settable(layer),
    ensures
        layer_fields_fit(layer, change, merge),
{
}

proof fn lemma_layers_fit(entry: JsonView, changes: Seq<JsonView>, merge: bool)
    requires
        ring_ok(entry),
    ensures
        layers_fit(entry, changes, merge),
    decreases changes.len(),
{
    if changes.len() > 0 {
        if let Some(n) = layer_index(changes[0]) {
            let ls = grown_layers(entry, n);
            assert(settable(ls[n as int]));
            lemma_layer_fields_fit(ls[n as int], changes[0], merge);
        }
        lemma_layer_change_keeps(entry, changes[0], merge);
        if let Ok(v) = layer_change(entry, changes[0], merge) {
            lemma_layers_fit(v, changes.drop_first(), merge);
        }
    }
}

/// A pressing whose fields can be set can take any change.
proof fn lemma_entry_fits(entry: JsonView, change: JsonView, merge: bool)
    requires
        ring_ok(entry),
    ensures
        entry_fits(entry, change, merge),
{
    reveal_strlit("offset_value");
    reveal_strlit("offset_extra_value");
    reveal_strlit("sample_start");
    reveal_strlit("comment");
    reveal_strlit("layers");
    assert("offset_value"@.len() == 12 && "offset_extra_value"@.len() == 18);
    assert("sample_start"@.len() == 12 && "comment"@.len() == 7 && "layers"@.len() == 6);
    lemma_field_step_keeps(entry, change, "offset_value"@, "offset_value"@);
    if let Ok(a) = field_step(Ok(entry), change, "offset_value"@, "offset_value"@) {
        lemma_field_step_keeps(a, change, "offset_extra_value"@, "offset_extra_value"@);
        if let Ok(b) = field_step(Ok(a), change, "offset_extra_value"@, "offset_extra_value"@) {
            lemma_field_step_keeps(b, change, "sample_data_start"@, "sample_start"@);
            if let Ok(c) = field_step(Ok(b), change, "sample_data_start"@, "sample_start"@) {
                lemma_field_step_keeps(c, change, "comment"@, "comment"@);
                if let Ok(d) = field_step(Ok(c), change, "comment"@, "comment"@) {
                    lemma_layers_fit(d, json::list_or_empty(json::field(change, "layers"@)), merge);
                }
            }
        }
    }
}

proof fn lemma_steps_ok(s: RingState, changes: Seq<JsonView>, removed: Seq<i32>)
    requires
        rings_ok(s.rings),
        rings_ok(s.additions),
    ensures
        steps_ok(s, changes, removed),
    decreases changes.len(),
{
    if changes.len() > 0 {
        lemma_changed_ring(s, changes[0], removed);
        if let Some(i) = changed_ring(s, changes[0], removed) {
            lemma_entry_fits(s.rings[i], changes[0], id_of(changes[0]) is None);
        }
        lemma_ring_step_keeps(s, changes[0], removed);
        if let Ok(t) = ring_step(s, changes[0], removed) {
            lemma_steps_ok(t, changes.drop_first(), removed);
        }
    }
}

/// Pressings whose fields can all be set can be changed in any way.
pub proof fn law_settable_rings_are_changeable(old: JsonView, node: JsonView)
    requires
        rings_ok(json::list_or_empty(old)),
    ensures
        rings_changeable(old, node),
{
    lemma_ordered_rings(json::list_or_empty(old));
    if let JsonView::Arr(changes) = node {
        lemma_steps_ok(
            RingState {
                rings: ordered_rings(json::list_or_empty(old)),
                additions: Seq::empty(),
                removals: Seq::empty(),
            },
            changes,
            removed_ids(changes),
        );
    }
}

/// Whether the fields of all pressings of a snapshot, and of their layers, can be set.
pub fn rings_are_settable(rings: &Json) -> (r: bool)
    ensures
        r == rings_ok(json::list_or_empty(rings@)),
{
    let list = match rings {
        Json::Array(l) => l,
        _ => {
            return true;
        },
    };
    let ghost rs = json::json_views(list@);
    proof {
        json::lemma_json_views(list@);
    }
    for i in 0..list.len()
        invariant
            rs == json::json_views(list@),
            rs == json::list_or_empty(rings@),
            rs.len() == list@.len(),
            forall|k: int| 0 <= k < list@.len() ==> #[trigger] rs[k] == list@[k]@,
            forall|k: int| 0 <= k < i ==> ring_ok(#[trigger] rs[k]),
    {
        assert(rs[i as int] == list@[i as int]@);
        if !ring_is_settable(&list[i]) {
            return false;
        }
    }
    true
}

fn is_settable(v: &Json) -> (r: bool)
    ensures
        r == settable(v@),
{
    match v {
        Json::Object(_) => true,
        Json::Null => true,
        _ => false,
    }
}

fn ring_is_settable(ring: &Json) -> (r: bool)
    ensures
        r == ring_ok(ring@),
{
    if !is_settable(ring) {
        return false;
    }
    let layers = match ring.field("layers") {
        Json::Array(l) => l,
        _ => {
            return true;
        },
    };
    let ghost ls = json::json_views(layers@);
    proof {
        json::lemma_json_views(layers@);
    }
    for i in 0..layers.len()
        invariant
            settable(ring@),
            ls == json::json_views(layers@),
            ls == json::list_or_empty(json::field(ring@, "layers"@)),
            ls.len() == layers@.len(),
            forall|k: int| 0 <= k < layers@.len() ==> #[trigger] ls[k] == layers@[k]@,
            forall|k: int| 0 <= k < i ==> settable(#[trigger] ls[k]),
    {
        assert(ls[i as int] == layers@[i as int]@);
        if !is_settable(&layers[i]) {
            return false;
        }
    }
    true
}

} // verus!
