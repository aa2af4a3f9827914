//! Change sets: the operations that a submission applies to the fields of a snapshot.

use vstd::prelude::*;

use crate::error::{AppError, ErrorView, bad_request};
use crate::json::{self, Json, JsonObject, JsonView};
use crate::models::{self, eq_ignore_case};
use crate::services::disc_snapshot::{self, json_texts};
use crate::text::{self, cat2, cat3, str_eq, str_is_blank};

verus! {

// ── One value ──────────────────────────────────────────────────────────────

/// The name of an operation on one value.
pub open spec fn is_scalar_op(key: Seq<char>) -> bool {
    key == "add"@ || key == "modify"@ || key == "remove"@
}

/// Some key is no operation.
pub open spec fn has_unknown_op(es: Seq<(Seq<char>, JsonView)>) -> bool {
    exists|i: int| 0 <= i < es.len() && !is_scalar_op((#[trigger] es[i]).0)
}

/// How many of the operations are there.
pub open spec fn op_count(es: Seq<(Seq<char>, JsonView)>) -> int {
    (if json::lookup(es, "add"@) is Some {
        1int
    } else {
        0int
    }) + (if json::lookup(es, "modify"@) is Some {
        1int
    } else {
        0int
    }) + (if json::lookup(es, "remove"@) is Some {
        1int
    } else {
        0int
    })
}

/// A refusal of a change.
pub open spec fn refused<T>(message: Seq<char>) -> Result<T, ErrorView> {
    Err(ErrorView::BadRequest(message))
}

/// The value that an operation leaves behind: `add` and `modify` give the new one,
/// `remove` gives none.
pub open spec fn scalar_op(node: JsonView) -> Result<Option<JsonView>, ErrorView> {
    match node {
        JsonView::Obj(es) => if has_unknown_op(es) {
            refused("scalar change contains unknown operation"@)
        } else if op_count(es) != 1 {
            refused("scalar change must contain exactly one operation"@)
        } else if json::lookup(es, "add"@) is Some {
            match json::lookup(es, "add"@)->0 {
                JsonView::Obj(a) => if a.len() != 1 || json::lookup(a, "new"@) is None {
                    refused("scalar add operation requires only new value"@)
                } else {
                    Ok(json::lookup(a, "new"@))
                },
                _ => refused("scalar add operation must be an object"@),
            }
        } else if json::lookup(es, "modify"@) is Some {
            match json::lookup(es, "modify"@)->0 {
                JsonView::Obj(m) => if m.len() != 2 || json::lookup(m, "old"@) is None || json::lookup(
                    m,
                    "new"@,
                ) is None {
                    refused("scalar modify operation requires old and new values"@)
                } else {
                    Ok(json::lookup(m, "new"@))
                },
                _ => refused("scalar modify operation must be an object"@),
            }
        } else {
            match json::lookup(es, "remove"@)->0 {
                JsonView::Obj(r) => if r.len() != 1 || json::lookup(r, "old"@) is None {
                    refused("scalar remove operation requires only old value"@)
                } else {
                    Ok(None)
                },
                _ => refused("scalar remove operation must be an object"@),
            }
        },
        _ => refused("scalar change must be an object"@),
    }
}

/// The value of an operation's result.
pub open spec fn op_result(r: Result<Option<&Json>, AppError>) -> Result<
    Option<JsonView>,
    ErrorView,
> {
    match r {
        Ok(Some(v)) => Ok(Some(v@)),
        Ok(None) => Ok(None),
        Err(e) => Err(e@),
    }
}

fn any_unknown_op(o: &JsonObject) -> (r: bool)
    ensures
        r == has_unknown_op(o@),
{
    proof {
        json::lemma_entry_views(o.entries@);
    }
    for i in 0..o.entries.len()
        invariant
            o@.len() == o.entries@.len(),
            forall|k: int|
                0 <= k < o@.len() ==> #[trigger] o@[k] == (
                    (o.entries@[k].0)@,
                    (o.entries@[k].1)@,
                ),
            forall|k: int| 0 <= k < i ==> is_scalar_op((#[trigger] o@[k]).0),
    {
        let key = o.entries[i].0.as_str();
        assert(o@[i as int].0 == key@);
        if !str_eq(key, "add") && !str_eq(key, "modify") && !str_eq(key, "remove") {
            return true;
        }
    }
    false
}

/// The value that an operation leaves behind.
pub fn scalar_operation_new_value(node: &Json) -> (r: Result<Option<&Json>, AppError>)
    ensures
        op_result(r) == scalar_op(node@),
{
    let obj = match node {
        Json::Object(o) => o,
        _ => {
            return Err(bad_request("scalar change must be an object"));
        },
    };
    if any_unknown_op(obj) {
        return Err(bad_request("scalar change contains unknown operation"));
    }
    let add = obj.get("add");
    let modify = obj.get("modify");
    let remove = obj.get("remove");
    let count: u8 = (if add.is_some() {
        1u8
    } else {
        0u8
    }) + (if modify.is_some() {
        1u8
    } else {
        0u8
    }) + (if remove.is_some() {
        1u8
    } else {
        0u8
    });
    if count != 1 {
        return Err(bad_request("scalar change must contain exactly one operation"));
    }
    if let Some(add) = add {
        let a = match add {
            Json::Object(a) => a,
            _ => {
                return Err(bad_request("scalar add operation must be an object"));
            },
        };
        let new = a.get("new");
        if a.len() != 1 || new.is_none() {
            return Err(bad_request("scalar add operation requires only new value"));
        }
        return Ok(new);
    }
    if let Some(modify) = modify {
        let m = match modify {
            Json::Object(m) => m,
            _ => {
                return Err(bad_request("scalar modify operation must be an object"));
            },
        };
        let new = m.get("new");
        if m.len() != 2 || m.get("old").is_none() || new.is_none() {
            return Err(bad_request("scalar modify operation requires old and new values"));
        }
        return Ok(new);
    }
    if let Some(remove) = remove {
        let x = match remove {
            Json::Object(x) => x,
            _ => {
                return Err(bad_request("scalar remove operation must be an object"));
            },
        };
        if x.len() != 1 || x.get("old").is_none() {
            return Err(bad_request("scalar remove operation requires only old value"));
        }
    }
    Ok(None)
}

/// A field that may be removed.
pub open spec fn nullable(key: Seq<char>) -> bool {
    ||| key == "title_foreign"@
    ||| key == "disc_number"@
    ||| key == "disc_title"@
    ||| key == "filename_suffix"@
    ||| key == "version"@
    ||| key == "error_count"@
    ||| key == "exe_date"@
    ||| key == "comments"@
    ||| key == "contents"@
    ||| key == "protection"@
    ||| key == "sector_ranges"@
    ||| key == "sbi"@
    ||| key == "disc_id"@
    ||| key == "disc_key"@
    ||| key == "universal_hash"@
    ||| key == "pvd"@
    ||| key == "header"@
    ||| key == "bca"@
    ||| key == "pic"@
    ||| key == "cuesheet"@
    ||| key == "dat"@
    ||| key == "layerbreaks"@
}

/// Whether a field may be removed.
pub fn is_nullable_scalar_field(key: &str) -> (r: bool)
    ensures
        r == nullable(key@),
{
    str_eq(key, "title_foreign") || str_eq(key, "disc_number") || str_eq(key, "disc_title")
        || str_eq(key, "filename_suffix") || str_eq(key, "version") || str_eq(key, "error_count")
        || str_eq(key, "exe_date") || str_eq(key, "comments") || str_eq(key, "contents")
        || str_eq(key, "protection") || str_eq(key, "sector_ranges") || str_eq(key, "sbi")
        || str_eq(key, "disc_id") || str_eq(key, "disc_key") || str_eq(key, "universal_hash")
        || str_eq(key, "pvd") || str_eq(key, "header") || str_eq(key, "bca") || str_eq(key, "pic")
        || str_eq(key, "cuesheet") || str_eq(key, "dat") || str_eq(key, "layerbreaks")
}

/// The new value of a field of the snapshot.
pub open spec fn scalar_change(key: Seq<char>, node: JsonView) -> Result<JsonView, ErrorView> {
    match scalar_op(node) {
        Err(e) => Err(e),
        Ok(Some(v)) => Ok(v),
        Ok(None) => if nullable(key) {
            Ok(JsonView::Null)
        } else {
            refused(key + " cannot be removed"@)
        },
    }
}

/// The value of a result.
pub open spec fn json_result(r: Result<Json, AppError>) -> Result<JsonView, ErrorView> {
    match r {
        Ok(v) => Ok(v@),
        Err(e) => Err(e@),
    }
}

/// The new value of a field of the snapshot.
pub fn apply_scalar_operation(key: &str, change_node: &Json) -> (r: Result<Json, AppError>)
    ensures
        json_result(r) == scalar_change(key@, change_node@),
{
    match scalar_operation_new_value(change_node) {
        Err(e) => Err(e),
        Ok(Some(v)) => Ok(v.copy()),
        Ok(None) => if is_nullable_scalar_field(key) {
            Ok(Json::Null)
        } else {
            Err(AppError::BadRequest(cat2(key, " cannot be removed")))
        },
    }
}

// ── Sets of texts ──────────────────────────────────────────────────────────

/// `values` and each of `incoming` that is neither blank nor there.
pub open spec fn with_new(values: Seq<Seq<char>>, incoming: Seq<Seq<char>>) -> Seq<Seq<char>>
    decreases incoming.len(),
{
    if incoming.len() == 0 {
        values
    } else {
        let before = with_new(values, incoming.drop_last());
        let x = incoming.last();
        if !text::is_blank(x) && !before.contains(x) {
            before.push(x)
        } else {
            before
        }
    }
}

/// The values that are not among `removed`.
pub open spec fn without(values: Seq<Seq<char>>, removed: Seq<Seq<char>>) -> Seq<Seq<char>>
    decreases values.len(),
{
    if values.len() == 0 {
        Seq::empty()
    } else {
        let before = without(values.drop_last(), removed);
        if removed.contains(values.last()) {
            before
        } else {
            before.push(values.last())
        }
    }
}

/// The texts of a list, or none if an element is no text.
pub open spec fn all_texts(list: Seq<JsonView>) -> Option<Seq<Seq<char>>>
    decreases list.len(),
{
    if list.len() == 0 {
        Some(Seq::empty())
    } else {
        match (all_texts(list.drop_last()), list.last()) {
            (Some(before), JsonView::Str(s)) => Some(before.push(s)),
            _ => None,
        }
    }
}

/// The operands of a set operation.
pub open spec fn set_operands(es: Seq<(Seq<char>, JsonView)>, key: Seq<char>) -> Result<
    Seq<Seq<char>>,
    ErrorView,
> {
    match json::lookup(es, key) {
        None => Ok(Seq::empty()),
        Some(JsonView::Arr(list)) => match all_texts(list) {
            Some(v) => Ok(v),
            None => refused("set "@ + key + " operation values must be strings"@),
        },
        Some(_) => refused("set "@ + key + " operation must be an array"@),
    }
}

/// Some key is neither `add` nor `remove`.
pub open spec fn has_unknown_set_op(es: Seq<(Seq<char>, JsonView)>) -> bool {
    exists|i: int|
        0 <= i < es.len() && (#[trigger] es[i]).0 != "add"@ && es[i].0 != "remove"@
}

/// The new values of a set: the old ones without those removed, then those added that
/// are new.
pub open spec fn set_change(old: Seq<Seq<char>>, node: JsonView) -> Result<
    Seq<Seq<char>>,
    ErrorView,
> {
    match node {
        JsonView::Obj(es) => if es.len() == 0 || has_unknown_set_op(es) {
            refused("set change must contain add and/or remove arrays"@)
        } else {
            match (set_operands(es, "remove"@), set_operands(es, "add"@)) {
                (Err(e), _) => Err(e),
                (Ok(_), Err(e)) => Err(e),
                (Ok(removed), Ok(added)) => Ok(with_new(without(old, removed), added)),
            }
        },
        _ => refused("set change must be an object"@),
    }
}

/// Whether a text is in a list.
pub fn contains_text(values: &Vec<String>, x: &str) -> (r: bool)
    ensures
        r == text::texts(values@).contains(x@),
{
    let ghost all = text::texts(values@);
    for i in 0..values.len()
        invariant
            all == text::texts(values@),
            forall|k: int| 0 <= k < i ==> #[trigger] all[k] != x@,
    {
        assert(all[i as int] == values@[i as int]@);
        if str_eq(values[i].as_str(), x) {
            assert(all.contains(all[i as int]));
            return true;
        }
    }
    false
}

/// Append each text that is neither blank nor there.
pub fn append_unique(values: &mut Vec<String>, incoming: Vec<String>)
    ensures
        text::texts(final(values)@) == with_new(text::texts(old(values)@), text::texts(incoming@)),
{
    let ghost start = text::texts(values@);
    let ghost all = text::texts(incoming@);
    assert(all.take(0) =~= Seq::<Seq<char>>::empty());
    for i in 0..incoming.len()
        invariant
            all == text::texts(incoming@),
            text::texts(values@) == with_new(start, all.take(i as int)),
    {
        let ghost before = values@;
        proof {
            let t = all.take(i + 1);
            assert(t.drop_last() =~= all.take(i as int));
            assert(t.last() == incoming@[i as int]@);
        }
        if !str_is_blank(incoming[i].as_str()) && !contains_text(values, incoming[i].as_str()) {
            values.push(incoming[i].clone());
            assert(text::texts(values@) =~= text::texts(before).push(incoming@[i as int]@));
        }
    }
    assert(all.take(all.len() as int) =~= all);
}

/// A text is there up to the case of ASCII letters.
pub open spec fn has_ignoring_case(v: Seq<Seq<char>>, x: Seq<char>) -> bool {
    exists|i: int| 0 <= i < v.len() && models::same_ignoring_case(#[trigger] v[i], x)
}

/// Texts with each other text that is not there up to the case of ASCII letters.
pub open spec fn with_new_ignoring_case(v: Seq<Seq<char>>, more: Seq<Seq<char>>) -> Seq<Seq<char>>
    decreases more.len(),
{
    if more.len() == 0 {
        v
    } else {
        let before = with_new_ignoring_case(v, more.drop_last());
        if has_ignoring_case(before, more.last()) {
            before
        } else {
            before.push(more.last())
        }
    }
}

fn contains_ignoring_case(values: &Vec<String>, x: &str) -> (r: bool)
    ensures
        r == has_ignoring_case(text::texts(values@), x@),
{
    let ghost all = text::texts(values@);
    for i in 0..values.len()
        invariant
            all == text::texts(values@),
            forall|k: int| 0 <= k < i ==> !models::same_ignoring_case(#[trigger] all[k], x@),
    {
        assert(all[i as int] == values@[i as int]@);
        if eq_ignore_case(values[i].as_str(), x) {
            return true;
        }
    }
    false
}

/// Append each text that is not there up to the case of ASCII letters.
pub fn append_unique_case_insensitive(values: &mut Vec<String>, incoming: Vec<String>)
    ensures
        text::texts(final(values)@) == with_new_ignoring_case(text::texts(old(values)@), text::texts(incoming@)),
{
    let ghost start = text::texts(values@);
    let ghost all = text::texts(incoming@);
    assert(all.take(0) =~= Seq::<Seq<char>>::empty());
    for i in 0..incoming.len()
        invariant
            all == text::texts(incoming@),
            text::texts(values@) == with_new_ignoring_case(start, all.take(i as int)),
    {
        let ghost before = values@;
        proof {
            let t = all.take(i + 1);
            assert(t.drop_last() =~= all.take(i as int));
            assert(t.last() == incoming@[i as int]@);
        }
        if !contains_ignoring_case(values, incoming[i].as_str()) {
            values.push(incoming[i].clone());
            assert(text::texts(values@) =~= text::texts(before).push(incoming@[i as int]@));
        }
    }
    assert(all.take(all.len() as int) =~= all);
}

fn read_set_values(obj: &JsonObject, key: &str) -> (r: Result<Vec<String>, AppError>)
    ensures
        match r {
            Ok(v) => set_operands(obj@, key@) == Ok::<Seq<Seq<char>>, ErrorView>(text::texts(v@)),
            Err(e) => set_operands(obj@, key@) == Err::<Seq<Seq<char>>, ErrorView>(e@),
        },
{
    let mut out: Vec<String> = Vec::new();
    match obj.get(key) {
        None => {
            assert(text::texts(out@) =~= Seq::<Seq<char>>::empty());
            Ok(out)
        },
        Some(Json::Array(list)) => {
            let ghost all = json::json_views(list@);
            proof {
                json::lemma_json_views(list@);
                assert(text::texts(out@) =~= Seq::<Seq<char>>::empty());
                assert(all.take(0) =~= Seq::<JsonView>::empty());
            }
            for i in 0..list.len()
                invariant
                    all == json::json_views(list@),
                    all.len() == list@.len(),
                    forall|k: int| 0 <= k < list@.len() ==> #[trigger] all[k] == list@[k]@,
                    all_texts(all.take(i as int)) == Some(text::texts(out@)),
                    json::lookup(obj@, key@) == Some(JsonView::Arr(all)),
            {
                let ghost before = out@;
                proof {
                    let t = all.take(i + 1);
                    assert(t.drop_last() =~= all.take(i as int));
                    assert(t.last() == list@[i as int]@);
                }
                match &list[i] {
                    Json::Text(s) => {
                        out.push(s.clone());
                        assert(text::texts(out@) =~= text::texts(before).push(s@));
                    },
                    _ => {
                        proof {
                            lemma_all_texts_none(all, i + 1);
                        }
                        return Err(
                            AppError::BadRequest(
                                cat3("set ", key, " operation values must be strings"),
                            ),
                        );
                    },
                }
            }
            assert(all.take(all.len() as int) =~= all);
            Ok(out)
        },
        Some(_) => Err(AppError::BadRequest(cat3("set ", key, " operation must be an array"))),
    }
}

proof fn lemma_all_texts_none(list: Seq<JsonView>, i: int)
    requires
        0 <= i <= list.len(),
        all_texts(list.take(i)) is None,
    ensures
        all_texts(list) is None,
    decreases list.len(),
{
    if i == list.len() {
        assert(list.take(i) =~= list);
    } else {
        assert(list.drop_last().take(i) =~= list.take(i));
        lemma_all_texts_none(list.drop_last(), i);
    }
}

fn any_unknown_set_op(o: &JsonObject) -> (r: bool)
    ensures
        r == has_unknown_set_op(o@),
{
    proof {
        json::lemma_entry_views(o.entries@);
    }
    for i in 0..o.entries.len()
        invariant
            o@.len() == o.entries@.len(),
            forall|k: int|
                0 <= k < o@.len() ==> #[trigger] o@[k] == (
                    (o.entries@[k].0)@,
                    (o.entries@[k].1)@,
                ),
            forall|k: int|
                0 <= k < i ==> (#[trigger] o@[k]).0 == "add"@ || o@[k].0 == "remove"@,
    {
        let key = o.entries[i].0.as_str();
        assert(o@[i as int].0 == key@);
        if !str_eq(key, "add") && !str_eq(key, "remove") {
            return true;
        }
    }
    false
}

fn remove_texts(old_values: &Vec<String>, removed: &Vec<String>) -> (r: Vec<String>)
    ensures
        text::texts(r@) == without(text::texts(old_values@), text::texts(removed@)),
{
    let ghost all = text::texts(old_values@);
    let mut out: Vec<String> = Vec::new();
    assert(all.take(0) =~= Seq::<Seq<char>>::empty());
    assert(text::texts(out@) =~= Seq::<Seq<char>>::empty());
    for i in 0..old_values.len()
        invariant
            all == text::texts(old_values@),
            text::texts(out@) == without(all.take(i as int), text::texts(removed@)),
    {
        let ghost before = out@;
        proof {
            let t = all.take(i + 1);
            assert(t.drop_last() =~= all.take(i as int));
            assert(t.last() == old_values@[i as int]@);
        }
        if !contains_text(removed, old_values[i].as_str()) {
            out.push(old_values[i].clone());
            assert(text::texts(out@) =~= text::texts(before).push(old_values@[i as int]@));
        }
    }
    assert(all.take(all.len() as int) =~= all);
    out
}

/// The new values of a set.
pub fn apply_set_operation(old_values: &Vec<String>, change_node: &Json) -> (r: Result<
    Json,
    AppError,
>)
    ensures
        match set_change(text::texts(old_values@), change_node@) {
            Ok(v) => json_result(r) == Ok::<JsonView, ErrorView>(disc_snapshot::text_values(v)),
            Err(e) => json_result(r) == Err::<JsonView, ErrorView>(e),
        },
{
    let obj = match change_node {
        Json::Object(o) => o,
        _ => {
            return Err(bad_request("set change must be an object"));
        },
    };
    if obj.is_empty() || any_unknown_set_op(obj) {
        return Err(bad_request("set change must contain add and/or remove arrays"));
    }
    let removed = match read_set_values(obj, "remove") {
        Ok(v) => v,
        Err(e) => {
            return Err(e);
        },
    };
    let added = match read_set_values(obj, "add") {
        Ok(v) => v,
        Err(e) => {
            return Err(e);
        },
    };
    let mut out = remove_texts(old_values, &removed);
    append_unique(&mut out, added);
    Ok(json_texts(&out))
}

proof fn lemma_with_new_contains(values: Seq<Seq<char>>, incoming: Seq<Seq<char>>, x: Seq<char>)
    ensures
        with_new(values, incoming).contains(x) <==> (values.contains(x) || (incoming.contains(x)
            && !text::is_blank(x))),
    decreases incoming.len(),
{
    if incoming.len() > 0 {
        let p = incoming.drop_last();
        lemma_with_new_contains(values, p, x);
        let before = with_new(values, p);
        let last = incoming.last();
        if incoming.contains(x) {
            let k = choose|k: int| 0 <= k < incoming.len() && incoming[k] == x;
            if k < p.len() {
                assert(p[k] == x);
            }
        }
        if p.contains(x) {
            let k = choose|k: int| 0 <= k < p.len() && p[k] == x;
            assert(incoming[k] == x);
        }
        assert(incoming[incoming.len() - 1] == last);
        let r = with_new(values, incoming);
        if !text::is_blank(last) && !before.contains(last) {
            assert(r == before.push(last));
            if before.contains(x) {
                let k = choose|k: int| 0 <= k < before.len() && before[k] == x;
                assert(r[k] == x);
            }
            assert(r[before.len() as int] == last);
            if r.contains(x) && x != last {
                let k = choose|k: int| 0 <= k < r.len() && r[k] == x;
                assert(before[k] == x);
            }
        }
    }
}

proof fn lemma_without_contains(values: Seq<Seq<char>>, removed: Seq<Seq<char>>, x: Seq<char>)
    ensures
        without(values, removed).contains(x) <==> (values.contains(x) && !removed.contains(x)),
    decreases values.len(),
{
    if values.len() > 0 {
        let p = values.drop_last();
        lemma_without_contains(p, removed, x);
        let before = without(p, removed);
        let last = values.last();
        let r = without(values, removed);
        if values.contains(x) {
            let k = choose|k: int| 0 <= k < values.len() && values[k] == x;
            if k < p.len() {
                assert(p[k] == x);
            }
        }
        if p.contains(x) {
            let k = choose|k: int| 0 <= k < p.len() && p[k] == x;
            assert(values[k] == x);
        }
        assert(values[values.len() - 1] == last);
        if !removed.contains(last) {
            assert(r == before.push(last));
            if before.contains(x) {
                let k = choose|k: int| 0 <= k < before.len() && before[k] == x;
                assert(r[k] == x);
            }
            assert(r[before.len() as int] == last);
            if r.contains(x) && x != last {
                let k = choose|k: int| 0 <= k < r.len() && r[k] == x;
                assert(before[k] == x);
            }
        }
    }
}

/// What a set change leaves in the set: the values that were there and are not
/// removed, and the values added that are not blank.
pub proof fn law_set_change_members(
    old: Seq<Seq<char>>,
    removed: Seq<Seq<char>>,
    added: Seq<Seq<char>>,
    x: Seq<char>,
)
    ensures
        with_new(without(old, removed), added).contains(x) <==> ((old.contains(x)
            && !removed.contains(x)) || (added.contains(x) && !text::is_blank(x))),
{
    lemma_without_contains(old, removed, x);
    lemma_with_new_contains(without(old, removed), added, x);
}

/// Adding values a second time changes nothing.
pub proof fn law_adding_twice_is_adding_once(values: Seq<Seq<char>>, added: Seq<Seq<char>>)
    ensures
        with_new(with_new(values, added), added) == with_new(values, added),
{
    let once = with_new(values, added);
    lemma_nothing_new(once, values, added, added.len() as int);
    assert(added.take(added.len() as int) =~= added);
}

proof fn lemma_nothing_new(
    once: Seq<Seq<char>>,
    values: Seq<Seq<char>>,
    added: Seq<Seq<char>>,
    n: int,
)
    requires
        once == with_new(values, added),
        0 <= n <= added.len(),
    ensures
        with_new(once, added.take(n)) == once,
    decreases n,
{
    if n > 0 {
        lemma_nothing_new(once, values, added, n - 1);
        assert(added.take(n).drop_last() =~= added.take(n - 1));
        let x = added[n - 1];
        assert(added.take(n).last() == x);
        assert(added.contains(x));
        lemma_with_new_contains(values, added, x);
    }
}

} // verus!
