//! What a review marks as added, removed or changed.

use vstd::prelude::*;

use crate::json::{self, Json, JsonObject, JsonView, copy_list, json_eq};
use crate::json_text::{self, write_json};
use crate::routes::review_values::{
    self, array_strings, is_empty_review_value, review_values_equal, template_field_name,
};
use crate::services::disc_service::{self, read_csv_items, sort_ring_codes_json};
use crate::services::ring_history::{self, read_id, ring_layers_max};
use crate::text::{self, cat2, str_eq};
use crate::unicode::{self, to_lowercase};

verus! {

/// A value of a set, and whether it was added or removed.
#[derive(Debug)]
pub struct Mark {
    pub value: String,
    pub kind: String,
}

/// The marks of a set.
pub open spec fn mark_views(v: Seq<Mark>) -> Seq<(Seq<char>, Seq<char>)> {
    v.map_values(|m: Mark| (m.value@, m.kind@))
}

/// What a review marks.
#[derive(Debug)]
pub struct FieldHighlights {
    pub changed_fields: Vec<String>,
    pub region_highlights: Vec<Mark>,
    pub language_highlights: Vec<Mark>,
    pub serial_highlights: Vec<Mark>,
    pub edition_highlights: Vec<Mark>,
    pub barcode_highlights: Vec<Mark>,
    pub ring_highlights_json: String,
}

/// What a review marks.
pub struct HighlightsView {
    pub changed_fields: Seq<Seq<char>>,
    pub regions: Seq<(Seq<char>, Seq<char>)>,
    pub languages: Seq<(Seq<char>, Seq<char>)>,
    pub serials: Seq<(Seq<char>, Seq<char>)>,
    pub editions: Seq<(Seq<char>, Seq<char>)>,
    pub barcodes: Seq<(Seq<char>, Seq<char>)>,
    pub rings: Seq<char>,
}

impl View for FieldHighlights {
    type V = HighlightsView;

    open spec fn view(&self) -> HighlightsView {
        HighlightsView {
            changed_fields: text::texts(self.changed_fields@),
            regions: mark_views(self.region_highlights@),
            languages: mark_views(self.language_highlights@),
            serials: mark_views(self.serial_highlights@),
            editions: mark_views(self.edition_highlights@),
            barcodes: mark_views(self.barcode_highlights@),
            rings: self.ring_highlights_json@,
        }
    }
}

// ── Fields with one value ──────────────────────────────────────────────────

/// The fields with one value.
pub open spec fn simple_fields() -> Seq<Seq<char>> {
    seq![
        "system_code"@,
        "media_type"@,
        "category"@,
        "title"@,
        "title_foreign"@,
        "disc_number"@,
        "disc_title"@,
        "filename_suffix"@,
        "version"@,
        "error_count"@,
        "exe_date"@,
        "edc"@,
        "comments"@,
        "contents"@,
        "protection"@,
        "sector_ranges"@,
        "sbi"@,
        "disc_id"@,
        "disc_key"@,
        "universal_hash"@,
        "pvd"@,
        "header"@,
        "bca"@,
        "pic"@,
        "cuesheet"@,
        "dat"@,
        "status"@,
    ]
}

/// How a value changed, if it did.
pub open spec fn kind_of_change(stored: JsonView, submitted: JsonView) -> Option<Seq<char>> {
    if review_values::is_empty_value(stored) && review_values::is_empty_value(submitted) {
        None
    } else if review_values::is_empty_value(stored) {
        Some(":added"@)
    } else if review_values::is_empty_value(submitted) {
        Some(":removed"@)
    } else if !review_values::values_equal(stored, submitted) {
        Some(":changed"@)
    } else {
        None
    }
}

/// The marks of fields with one value.
pub open spec fn simple_marks(fields: Seq<Seq<char>>, db: JsonView, submitted: JsonView) -> Seq<
    Seq<char>,
>
    decreases fields.len(),
{
    if fields.len() == 0 {
        Seq::empty()
    } else {
        let before = simple_marks(fields.drop_last(), db, submitted);
        let f = fields.last();
        match kind_of_change(json::field(db, f), json::field(submitted, f)) {
            Some(kind) => before.push(review_values::form_field(f) + kind),
            None => before,
        }
    }
}

/// A list without elements, or no list.
pub open spec fn no_elements(v: JsonView) -> bool {
    json::list_or_empty(v).len() == 0
}

/// The mark of the layer breaks.
pub open spec fn layerbreak_marks(db: JsonView, submitted: JsonView) -> Seq<Seq<char>> {
    let a = json::field(db, "layerbreaks"@);
    let b = json::field(submitted, "layerbreaks"@);
    if json::same_value(a, b) {
        Seq::empty()
    } else if no_elements(a) && !no_elements(b) {
        seq!["layerbreaks:added"@]
    } else if !no_elements(a) && no_elements(b) {
        seq!["layerbreaks:removed"@]
    } else {
        seq!["layerbreaks:changed"@]
    }
}

/// Borrowed texts.
pub open spec fn strs(v: Seq<&str>) -> Seq<Seq<char>> {
    v.map_values(|s: &str| s@)
}

fn simple_field_names() -> (r: Vec<&'static str>)
    ensures
        strs(r@) == simple_fields(),
{
    let v: Vec<&'static str> = vec![
        "system_code",
        "media_type",
        "category",
        "title",
        "title_foreign",
        "disc_number",
        "disc_title",
        "filename_suffix",
        "version",
        "error_count",
        "exe_date",
        "edc",
        "comments",
        "contents",
        "protection",
        "sector_ranges",
        "sbi",
        "disc_id",
        "disc_key",
        "universal_hash",
        "pvd",
        "header",
        "bca",
        "pic",
        "cuesheet",
        "dat",
        "status",
    ];
    assert(strs(v@) =~= simple_fields());
    v
}

fn find_kind(stored: &Json, submitted: &Json) -> (r: Option<&'static str>)
    ensures
        text::opt_str(r) == kind_of_change(stored@, submitted@),
{
    let a = is_empty_review_value(stored);
    let b = is_empty_review_value(submitted);
    if a && b {
        None
    } else if a {
        Some(":added")
    } else if b {
        Some(":removed")
    } else if !review_values_equal(stored, submitted) {
        Some(":changed")
    } else {
        None
    }
}

fn mark_simple_fields(db: &Json, submitted: &Json) -> (r: Vec<String>)
    ensures
        text::texts(r@) == simple_marks(simple_fields(), db@, submitted@),
{
    let names = simple_field_names();
    let ghost all = strs(names@);
    let mut out: Vec<String> = Vec::new();
    assert(all.take(0) =~= Seq::<Seq<char>>::empty());
    assert(text::texts(out@) =~= Seq::<Seq<char>>::empty());
    for i in 0..names.len()
        invariant
            all == strs(names@),
            text::texts(out@) == simple_marks(all.take(i as int), db@, submitted@),
    {
        proof {
            assert(all.take(i + 1).drop_last() =~= all.take(i as int));
            assert(all.take(i + 1).last() == names@[i as int]@);
        }
        let name = names[i];
        if let Some(kind) = find_kind(db.field(name), submitted.field(name)) {
            let mark = cat2(template_field_name(name).as_str(), kind);
            let ghost before = out@;
            out.push(mark);
            assert(text::texts(out@) =~= text::texts(before).push(mark@));
        }
    }
    assert(all.take(all.len() as int) =~= all);
    out
}

fn has_no_elements(v: &Json) -> (r: bool)
    ensures
        r == no_elements(v@),
{
    match v {
        Json::Array(l) => {
            proof {
                json::lemma_json_views(l@);
            }
            l.len() == 0
        },
        _ => true,
    }
}

fn mark_layerbreaks(db: &Json, submitted: &Json) -> (r: Option<&'static str>)
    ensures
        layerbreak_marks(db@, submitted@) == (match r {
            Some(m) => seq![m@],
            None => Seq::empty(),
        }),
{
    let a = db.field("layerbreaks");
    let b = submitted.field("layerbreaks");
    if json_eq(a, b) {
        return None;
    }
    let a_empty = has_no_elements(a);
    let b_empty = has_no_elements(b);
    if a_empty && !b_empty {
        Some("layerbreaks:added")
    } else if !a_empty && b_empty {
        Some("layerbreaks:removed")
    } else {
        Some("layerbreaks:changed")
    }
}

// ── Fields with a set of values ────────────────────────────────────────────

/// The values that are not among the others, each once.
pub open spec fn once_not_among(values: Seq<Seq<char>>, others: Seq<Seq<char>>) -> Seq<Seq<char>>
    decreases values.len(),
{
    if values.len() == 0 {
        Seq::empty()
    } else {
        let before = once_not_among(values.drop_last(), others);
        let x = values.last();
        if others.contains(x) || before.contains(x) {
            before
        } else {
            before.push(x)
        }
    }
}

/// Values with one mark.
pub open spec fn marked(values: Seq<Seq<char>>, kind: Seq<char>) -> Seq<(Seq<char>, Seq<char>)> {
    values.map_values(|v: Seq<char>| (v, kind))
}

/// The marks of a set: what was added and what was removed.
pub open spec fn set_marks(stored: Seq<Seq<char>>, submitted: Seq<Seq<char>>) -> Seq<
    (Seq<char>, Seq<char>),
> {
    marked(once_not_among(submitted, stored), "added"@) + marked(
        once_not_among(stored, submitted),
        "removed"@,
    )
}

/// The marks of a field with a set of values.
pub open spec fn field_marks(db: JsonView, submitted: JsonView, key: Seq<char>) -> Seq<
    (Seq<char>, Seq<char>),
> {
    set_marks(
        json::list_texts(json::list_or_empty(json::field(db, key))),
        json::list_texts(json::list_or_empty(json::field(submitted, key))),
    )
}

/// The mark of a value, if it has one.
pub open spec fn mark_of(ms: Seq<(Seq<char>, Seq<char>)>, v: Seq<char>) -> Option<Seq<char>>
    decreases ms.len(),
{
    if ms.len() == 0 {
        None
    } else if ms[0].0 == v {
        Some(ms[0].1)
    } else {
        mark_of(ms.drop_first(), v)
    }
}

fn text_among(values: &Vec<String>, x: &str) -> (r: bool)
    ensures
        r == text::texts(values@).contains(x@),
{
    let ghost all = text::texts(values@);
    for i in 0..values.len()
        invariant
            all == text::texts(values@),
            forall|k: int| 0 <= k < i ==> #[trigger] all[k] != x@,
    {
        assert(all[i as int] == values@[i as int]@);
        if str_eq(values[i].as_str(), x) {
            assert(all.contains(all[i as int]));
            return true;
        }
    }
    false
}

fn leave_out_once(values: &Vec<String>, others: &Vec<String>) -> (r: Vec<String>)
    ensures
        text::texts(r@) == once_not_among(text::texts(values@), text::texts(others@)),
{
    let ghost all = text::texts(values@);
    let mut out: Vec<String> = Vec::new();
    assert(all.take(0) =~= Seq::<Seq<char>>::empty());
    assert(text::texts(out@) =~= Seq::<Seq<char>>::empty());
    for i in 0..values.len()
        invariant
            all == text::texts(values@),
            text::texts(out@) == once_not_among(all.take(i as int), text::texts(others@)),
    {
        proof {
            assert(all.take(i + 1).drop_last() =~= all.take(i as int));
            assert(all.take(i + 1).last() == values@[i as int]@);
        }
        if !text_among(others, values[i].as_str()) && !text_among(&out, values[i].as_str()) {
            let ghost before = out@;
            out.push(values[i].clone());
            assert(text::texts(out@) =~= text::texts(before).push(values@[i as int]@));
        }
    }
    assert(all.take(all.len() as int) =~= all);
    out
}

fn push_marks(out: &mut Vec<Mark>, values: Vec<String>, kind: &str)
    ensures
        mark_views(final(out)@) == mark_views(old(out)@) + marked(text::texts(values@), kind@),
{
    let ghost start = mark_views(out@);
    let ghost all = marked(text::texts(values@), kind@);
    assert(start + all.take(0) =~= start);
    for i in 0..values.len()
        invariant
            all == marked(text::texts(values@), kind@),
            mark_views(out@) == start + all.take(i as int),
    {
        let m = Mark { value: values[i].clone(), kind: String::from_str(kind) };
        let ghost before = out@;
        assert(all[i as int] == (values@[i as int]@, kind@));
        out.push(m);
        assert(mark_views(out@) =~= mark_views(before).push((m.value@, m.kind@)));
        assert(start + all.take(i + 1) =~= (start + all.take(i as int)).push(all[i as int]));
    }
    assert(all.take(all.len() as int) =~= all);
}

fn mark_set(db: &Json, submitted: &Json, key: &str) -> (r: Vec<Mark>)
    ensures
        mark_views(r@) == field_marks(db@, submitted@, key@),
{
    let stored = array_strings(db.field(key));
    let given = array_strings(submitted.field(key));
    let mut out: Vec<Mark> = Vec::new();
    assert(mark_views(out@) =~= Seq::<(Seq<char>, Seq<char>)>::empty());
    push_marks(&mut out, leave_out_once(&given, &stored), "added");
    push_marks(&mut out, leave_out_once(&stored, &given), "removed");
    assert(mark_views(out@) =~= field_marks(db@, submitted@, key@));
    out
}

// ── Pressings ──────────────────────────────────────────────────────────────

/// The parts of a text between commas, trimmed and in their small form.
pub open spec fn small_items(s: Seq<char>) -> Seq<Seq<char>> {
    disc_service::csv_items(s).map_values(|t: Seq<char>| unicode::lowercase(t))
}

/// Two lists hold the same values.
pub open spec fn same_members(a: Seq<Seq<char>>, b: Seq<Seq<char>>) -> bool {
    forall|x: Seq<char>| #[trigger] a.contains(x) <==> b.contains(x)
}

/// How a field of a pressing changed, if it did. Lists of stamps are compared as sets,
/// whatever their case.
pub open spec fn ring_field_change(stored: JsonView, submitted: JsonView, csv: bool) -> Option<
    Seq<char>,
> {
    if json::same_value(stored, submitted) {
        None
    } else if review_values::is_empty_value(stored) && !review_values::is_empty_value(submitted) {
        Some("added"@)
    } else if !review_values::is_empty_value(stored) && review_values::is_empty_value(submitted) {
        Some("removed"@)
    } else if csv && same_members(
        small_items(json::text_or_empty(stored)),
        small_items(json::text_or_empty(submitted)),
    ) {
        None
    } else {
        Some("changed"@)
    }
}

fn read_small_items(s: &str) -> (r: Vec<String>)
    ensures
        text::texts(r@) == small_items(s@),
{
    let items = read_csv_items(s);
    let ghost all = small_items(s@);
    let mut out: Vec<String> = Vec::new();
    assert(text::texts(out@) =~= all.take(0));
    for i in 0..items.len()
        invariant
            text::texts(items@) == disc_service::csv_items(s@),
            all == small_items(s@),
            text::texts(out@) == all.take(i as int),
    {
        let t = to_lowercase(items[i].as_str());
        assert(text::texts(items@)[i as int] == items@[i as int]@);
        assert(all[i as int] == t@);
        let ghost before = out@;
        out.push(t);
        assert(text::texts(out@) =~= text::texts(before).push(t@));
        assert(all.take(i + 1) =~= all.take(i as int).push(all[i as int]));
    }
    assert(all.take(all.len() as int) =~= all);
    out
}

fn all_among(a: &Vec<String>, b: &Vec<String>) -> (r: bool)
    ensures
        r == (forall|x: Seq<char>| #[trigger] text::texts(a@).contains(x) ==> text::texts(b@).contains(x)),
{
    let ghost all = text::texts(a@);
    for i in 0..a.len()
        invariant
            all == text::texts(a@),
            forall|k: int| 0 <= k < i ==> text::texts(b@).contains(#[trigger] all[k]),
    {
        assert(all[i as int] == a@[i as int]@);
        if !text_among(b, a[i].as_str()) {
            assert(all.contains(all[i as int]));
            return false;
        }
    }
    assert forall|x: Seq<char>| #[trigger] all.contains(x) implies text::texts(b@).contains(x) by {
        let k = choose|k: int| 0 <= k < all.len() && all[k] == x;
        assert(text::texts(b@).contains(all[k]));
    }
    true
}

fn have_same_members(a: &Vec<String>, b: &Vec<String>) -> (r: bool)
    ensures
        r == same_members(text::texts(a@), text::texts(b@)),
{
    let x = all_among(a, b);
    let y = all_among(b, a);
    proof {
        let ta = text::texts(a@);
        let tb = text::texts(b@);
        if x && y {
            assert forall|t: Seq<char>| #[trigger] ta.contains(t) <==> tb.contains(t) by {
                if tb.contains(t) {
                    assert(ta.contains(t));
                }
            }
        }
        if same_members(ta, tb) {
            assert forall|t: Seq<char>| #[trigger] tb.contains(t) implies ta.contains(t) by {
                assert(ta.contains(t) <==> tb.contains(t));
            }
        }
    }
    x && y
}

fn classify_change(stored: &Json, submitted: &Json, csv_ids: bool) -> (r: Option<&'static str>)
    ensures
        text::opt_str(r) == ring_field_change(stored@, submitted@, csv_ids),
{
    if json_eq(stored, submitted) {
        return None;
    }
    let a = is_empty_review_value(stored);
    let b = is_empty_review_value(submitted);
    if a && !b {
        return Some("added");
    }
    if !a && b {
        return Some("removed");
    }
    if csv_ids {
        let x = read_small_items(stored.str_or_empty());
        let y = read_small_items(submitted.str_or_empty());
        if have_same_members(&x, &y) {
            return None;
        }
    }
    Some("changed")
}

/// The marks of an object with the mark of one more field.
pub open spec fn with_mark(
    es: Seq<(Seq<char>, JsonView)>,
    stored: JsonView,
    submitted: JsonView,
    key: Seq<char>,
    csv: bool,
) -> Seq<(Seq<char>, JsonView)> {
    match ring_field_change(json::field(stored, key), json::field(submitted, key), csv) {
        Some(kind) => json::put(es, key, JsonView::Str(kind)),
        None => es,
    }
}

fn add_mark(o: &mut JsonObject, stored: &Json, submitted: &Json, key: &str, csv: bool)
    ensures
        final(o)@ == with_mark(old(o)@, stored@, submitted@, key@, csv),
{
    if let Some(kind) = classify_change(stored.field(key), submitted.field(key), csv) {
        o.insert(key, Json::text(kind));
    }
}

/// The marks of a layer.
pub open spec fn layer_marks(stored: JsonView, submitted: JsonView) -> Seq<(Seq<char>, JsonView)> {
    let e = Seq::<(Seq<char>, JsonView)>::empty();
    let e = with_mark(e, stored, submitted, "mastering_code"@, false);
    let e = with_mark(e, stored, submitted, "mastering_sid"@, false);
    let e = with_mark(e, stored, submitted, "toolstamps"@, true);
    let e = with_mark(e, stored, submitted, "mould_sids"@, true);
    with_mark(e, stored, submitted, "additional_moulds"@, true)
}

fn mark_layer(stored: &Json, submitted: &Json) -> (r: JsonObject)
    ensures
        r@ == layer_marks(stored@, submitted@),
{
    let mut o = JsonObject::new();
    add_mark(&mut o, stored, submitted, "mastering_code", false);
    add_mark(&mut o, stored, submitted, "mastering_sid", false);
    add_mark(&mut o, stored, submitted, "toolstamps", true);
    add_mark(&mut o, stored, submitted, "mould_sids", true);
    add_mark(&mut o, stored, submitted, "additional_moulds", true);
    o
}

/// Layer `i`, or one without fields.
pub open spec fn layer_or_bare(ls: Seq<JsonView>, i: int) -> JsonView {
    if 0 <= i < ls.len() {
        ls[i]
    } else {
        JsonView::Obj(Seq::empty())
    }
}

/// The marks of the first `n` layers.
pub open spec fn layers_marks(a: Seq<JsonView>, b: Seq<JsonView>, n: nat) -> Seq<JsonView> {
    Seq::new(
        n,
        |i: int| JsonView::Obj(layer_marks(layer_or_bare(a, i), layer_or_bare(b, i))),
    )
}

/// Some layer has a mark.
pub open spec fn any_layer_marked(ms: Seq<JsonView>) -> bool {
    exists|i: int| 0 <= i < ms.len() && #[trigger] ms[i] != JsonView::Obj(Seq::empty())
}

/// As many layers as either pressing has.
pub open spec fn more_layers(a: Seq<JsonView>, b: Seq<JsonView>) -> nat {
    if a.len() > b.len() {
        a.len()
    } else {
        b.len()
    }
}

/// The marks of a pressing.
pub open spec fn entry_marks(stored: JsonView, submitted: JsonView) -> JsonView {
    let e = Seq::<(Seq<char>, JsonView)>::empty();
    let e = with_mark(e, stored, submitted, "offset_value"@, false);
    let e = with_mark(e, stored, submitted, "offset_extra_value"@, false);
    let e = with_mark(e, stored, submitted, "sample_start"@, false);
    let e = with_mark(e, stored, submitted, "comment"@, false);
    let a = json::list_or_empty(json::field(stored, "layers"@));
    let b = json::list_or_empty(json::field(submitted, "layers"@));
    let ms = layers_marks(a, b, more_layers(a, b));
    JsonView::Obj(
        if any_layer_marked(ms) {
            json::put(e, "layers"@, JsonView::Arr(ms))
        } else {
            e
        },
    )
}

fn bare_layer() -> (r: Json)
    ensures
        r@ == JsonView::Obj(Seq::empty()),
{
    Json::object()
}

fn mark_layers(a: &Vec<Json>, b: &Vec<Json>) -> (r: (Vec<Json>, bool))
    ensures
        ({
            let ms = layers_marks(
                json::json_views(a@),
                json::json_views(b@),
                more_layers(json::json_views(a@), json::json_views(b@)),
            );
            json::json_views(r.0@) == ms && r.1 == any_layer_marked(ms)
        }),
{
    let ghost va = json::json_views(a@);
    let ghost vb = json::json_views(b@);
    let ghost ms = layers_marks(va, vb, more_layers(va, vb));
    proof {
        json::lemma_json_views(a@);
        json::lemma_json_views(b@);
    }
    let n: usize = if a.len() > b.len() {
        a.len()
    } else {
        b.len()
    };
    let bare = bare_layer();
    let mut out: Vec<Json> = Vec::new();
    let mut any = false;
    assert(json::json_views(out@) =~= ms.take(0));
    for i in 0..n
        invariant
            va == json::json_views(a@),
            vb == json::json_views(b@),
            va.len() == a@.len(),
            vb.len() == b@.len(),
            forall|k: int| 0 <= k < a@.len() ==> #[trigger] va[k] == a@[k]@,
            forall|k: int| 0 <= k < b@.len() ==> #[trigger] vb[k] == b@[k]@,
            n == more_layers(va, vb),
            ms == layers_marks(va, vb, more_layers(va, vb)),
            bare@ == JsonView::Obj(Seq::empty()),
            json::json_views(out@) == ms.take(i as int),
            any == (exists|k: int|
                0 <= k < i && #[trigger] ms[k] != JsonView::Obj(Seq::empty())),
    {
        let x = if i < a.len() {
            &a[i]
        } else {
            &bare
        };
        let y = if i < b.len() {
            &b[i]
        } else {
            &bare
        };
        assert(x@ == layer_or_bare(va, i as int));
        assert(y@ == layer_or_bare(vb, i as int));
        let o = mark_layer(x, y);
        let is_marked = !o.is_empty();
        let j = Json::Object(o);
        assert(j@ == ms[i as int]);
        proof {
            if !is_marked {
                assert(o@ =~= Seq::<(Seq<char>, JsonView)>::empty());
            }
            json::lemma_json_views_push(out@, j);
            assert(ms.take(i + 1) =~= ms.take(i as int).push(ms[i as int]));
        }
        if is_marked {
            assert(ms[i as int] != JsonView::Obj(Seq::empty()));
            any = true;
        }
        out.push(j);
    }
    assert(ms.take(ms.len() as int) =~= ms);
    (out, any)
}

fn mark_entry(stored: &Json, submitted: &Json) -> (r: Json)
    ensures
        r@ == entry_marks(stored@, submitted@),
{
    let mut o = JsonObject::new();
    add_mark(&mut o, stored, submitted, "offset_value", false);
    add_mark(&mut o, stored, submitted, "offset_extra_value", false);
    add_mark(&mut o, stored, submitted, "sample_start", false);
    add_mark(&mut o, stored, submitted, "comment", false);
    let none: Vec<Json> = Vec::new();
    assert(json::json_views(none@) =~= Seq::<JsonView>::empty());
    let a: &Vec<Json> = match stored.field("layers") {
        Json::Array(l) => l,
        _ => &none,
    };
    let b: &Vec<Json> = match submitted.field("layers") {
        Json::Array(l) => l,
        _ => &none,
    };
    assert(json::json_views(a@) == json::list_or_empty(json::field(stored@, "layers"@)));
    assert(json::json_views(b@) == json::list_or_empty(json::field(submitted@, "layers"@)));
    let (list, any) = mark_layers(a, b);
    if any {
        o.insert("layers", Json::Array(list));
    }
    Json::Object(o)
}

/// The last of the first `n` entries with an id.
pub open spec fn last_with_id(rs: Seq<JsonView>, id: i32, n: int) -> Option<int>
    decreases n,
{
    if n <= 0 || n > rs.len() {
        None
    } else if ring_history::id_of(rs[n - 1]) == Some(id) {
        Some(n - 1)
    } else {
        last_with_id(rs, id, n - 1)
    }
}

/// The marks of a submitted pressing: those of its fields, or that it is new.
pub open spec fn ring_mark(db: Seq<JsonView>, entry: JsonView) -> JsonView {
    let at = match ring_history::id_of(entry) {
        Some(id) => last_with_id(db, id, db.len() as int),
        None => None,
    };
    match at {
        Some(i) => entry_marks(db[i], entry),
        None => JsonView::Obj(json::put(Seq::empty(), "entry"@, JsonView::Str("added"@))),
    }
}

/// The greater number of layers among the pressings of two lists.
pub open spec fn layers_of_both(a: Seq<JsonView>, b: Seq<JsonView>) -> nat {
    if ring_history::max_layers(a) > ring_history::max_layers(b) {
        ring_history::max_layers(a)
    } else {
        ring_history::max_layers(b)
    }
}

/// The marks of the submitted pressings.
pub open spec fn ring_marks(db: JsonView, submitted: JsonView) -> Seq<JsonView> {
    let a = json::list_or_empty(json::field(db, "ring_codes"@));
    let b = json::list_or_empty(json::field(submitted, "ring_codes"@));
    let n = layers_of_both(a, b);
    disc_service::sorted_rings(b, n).map_values(|e: JsonView| ring_mark(disc_service::sorted_rings(a, n), e))
}

fn find_last_with_id(rs: &Vec<Json>, id: i32) -> (r: Option<usize>)
    ensures
        match r {
            Some(k) => k < rs@.len() && last_with_id(json::json_views(rs@), id, rs@.len() as int) == Some(
                k as int,
            ),
            None => last_with_id(json::json_views(rs@), id, rs@.len() as int) is None,
        },
{
    let ghost vs = json::json_views(rs@);
    proof {
        json::lemma_json_views(rs@);
    }
    let mut n: usize = rs.len();
    while n > 0
        invariant
            vs == json::json_views(rs@),
            vs.len() == rs@.len(),
            n <= rs@.len(),
            forall|k: int| 0 <= k < rs@.len() ==> #[trigger] vs[k] == rs@[k]@,
            last_with_id(vs, id, n as int) == last_with_id(vs, id, rs@.len() as int),
        decreases n,
    {
        assert(vs[n - 1] == rs@[n - 1]@);
        if let Some(x) = read_id(&rs[n - 1]) {
            if x == id {
                return Some(n - 1);
            }
        }
        n = n - 1;
    }
    None
}

fn mark_ring(db: &Vec<Json>, entry: &Json) -> (r: Json)
    ensures
        r@ == ring_mark(json::json_views(db@), entry@),
{
    proof {
        json::lemma_json_views(db@);
    }
    let at = match read_id(entry) {
        Some(id) => find_last_with_id(db, id),
        None => None,
    };
    match at {
        Some(i) => {
            assert(json::json_views(db@)[i as int] == db@[i as int]@);
            mark_entry(&db[i], entry)
        },
        None => {
            let mut o = JsonObject::new();
            o.insert("entry", Json::text("added"));
            Json::Object(o)
        },
    }
}

fn list_of(v: &Json) -> (r: Vec<Json>)
    ensures
        json::json_views(r@) == json::list_or_empty(v@),
{
    match v {
        Json::Array(l) => copy_list(l),
        _ => {
            let none: Vec<Json> = Vec::new();
            assert(json::json_views(none@) =~= Seq::<JsonView>::empty());
            none
        },
    }
}

fn mark_rings(db: &Json, submitted: &Json) -> (r: Json)
    ensures
        r@ == JsonView::Arr(ring_marks(db@, submitted@)),
{
    let mut a = list_of(db.field("ring_codes"));
    let mut b = list_of(submitted.field("ring_codes"));
    let x = ring_layers_max(&a);
    let y = ring_layers_max(&b);
    let n: usize = if x > y {
        x
    } else {
        y
    };
    sort_ring_codes_json(&mut a, n);
    sort_ring_codes_json(&mut b, n);
    let ghost all = ring_marks(db@, submitted@);
    let ghost vb = json::json_views(b@);
    let mut out: Vec<Json> = Vec::new();
    proof {
        json::lemma_json_views(b@);
        assert(json::json_views(out@) =~= all.take(0));
    }
    for i in 0..b.len()
        invariant
            vb == json::json_views(b@),
            vb.len() == b@.len(),
            forall|k: int| 0 <= k < b@.len() ==> #[trigger] vb[k] == b@[k]@,
            all == vb.map_values(|e: JsonView| ring_mark(json::json_views(a@), e)),
            json::json_views(out@) == all.take(i as int),
    {
        let m = mark_ring(&a, &b[i]);
        assert(vb[i as int] == b@[i as int]@);
        assert(all[i as int] == m@);
        proof {
            json::lemma_json_views_push(out@, m);
            assert(all.take(i + 1) =~= all.take(i as int).push(all[i as int]));
        }
        out.push(m);
    }
    assert(all.take(all.len() as int) =~= all);
    Json::Array(out)
}

// ── All of it ──────────────────────────────────────────────────────────────

/// The mark of a set that has marks.
pub open spec fn set_changed(ms: Seq<(Seq<char>, Seq<char>)>, mark: Seq<char>) -> Seq<Seq<char>> {
    if ms.len() > 0 {
        seq![mark]
    } else {
        Seq::empty()
    }
}

/// The fields that are marked.
pub open spec fn changed_fields(db: JsonView, submitted: JsonView) -> Seq<Seq<char>> {
    simple_marks(simple_fields(), db, submitted) + layerbreak_marks(db, submitted) + set_changed(
        field_marks(db, submitted, "regions"@),
        "regions:changed"@,
    ) + set_changed(field_marks(db, submitted, "languages"@), "languages:changed"@) + set_changed(
        field_marks(db, submitted, "serial"@),
        "serial:changed"@,
    ) + set_changed(field_marks(db, submitted, "edition"@), "edition:changed"@) + set_changed(
        field_marks(db, submitted, "barcode"@),
        "barcode:changed"@,
    )
}

fn push_changed(out: &mut Vec<String>, marks: &Vec<Mark>, mark: &str)
    ensures
        text::texts(final(out)@) == text::texts(old(out)@) + set_changed(mark_views(marks@), mark@),
{
    let ghost before = out@;
    if marks.len() > 0 {
        out.push(String::from_str(mark));
        assert(text::texts(out@) =~= text::texts(before) + seq![mark@]);
    } else {
        assert(text::texts(out@) =~= text::texts(before) + Seq::empty());
    }
}

/// What a review of a submitted snapshot marks against the stored one.
pub open spec fn highlights_of(db: JsonView, submitted: JsonView) -> HighlightsView {
    HighlightsView {
        changed_fields: changed_fields(db, submitted),
        regions: field_marks(db, submitted, "regions"@),
        languages: field_marks(db, submitted, "languages"@),
        serials: field_marks(db, submitted, "serial"@),
        editions: field_marks(db, submitted, "edition"@),
        barcodes: field_marks(db, submitted, "barcode"@),
        rings: json_text::json_text(JsonView::Arr(ring_marks(db, submitted))),
    }
}

/// What a review of a submitted snapshot marks against the stored one.
pub fn compute_field_highlights(changes: &Json, db_snapshot: &Json) -> (r: FieldHighlights)
    ensures
        r@ == highlights_of(db_snapshot@, changes@),
{
    let mut out = mark_simple_fields(db_snapshot, changes);
    let ghost simple = text::texts(out@);
    if let Some(mark) = mark_layerbreaks(db_snapshot, changes) {
        let ghost before = out@;
        out.push(String::from_str(mark));
        assert(text::texts(out@) =~= text::texts(before) + seq![mark@]);
    }
    assert(text::texts(out@) =~= simple + layerbreak_marks(db_snapshot@, changes@));
    let regions = mark_set(db_snapshot, changes, "regions");
    let languages = mark_set(db_snapshot, changes, "languages");
    let serials = mark_set(db_snapshot, changes, "serial");
    let editions = mark_set(db_snapshot, changes, "edition");
    let barcodes = mark_set(db_snapshot, changes, "barcode");
    push_changed(&mut out, &regions, "regions:changed");
    push_changed(&mut out, &languages, "languages:changed");
    push_changed(&mut out, &serials, "serial:changed");
    push_changed(&mut out, &editions, "edition:changed");
    push_changed(&mut out, &barcodes, "barcode:changed");
    let rings = mark_rings(db_snapshot, changes);
    FieldHighlights {
        changed_fields: out,
        region_highlights: regions,
        language_highlights: languages,
        serial_highlights: serials,
        edition_highlights: editions,
        barcode_highlights: barcodes,
        ring_highlights_json: write_json(&rings),
    }
}

// ── Laws ───────────────────────────────────────────────────────────────────

proof fn lemma_once(values: Seq<Seq<char>>, others: Seq<Seq<char>>, v: Seq<char>)
    ensures
        once_not_among(values, others).contains(v) <==> values.contains(v) && !others.contains(v),
    decreases values.len(),
{
    if values.len() > 0 {
        let front = values.drop_last();
        let x = values.last();
        lemma_once(front, others, v);
        assert(values =~= front.push(x));
        let before = once_not_among(front, others);
        if v == x {
            assert(values[values.len() - 1] == v);
        }
        if front.contains(v) {
            let k = choose|k: int| 0 <= k < front.len() && front[k] == v;
            assert(values[k] == v);
        }
        if values.contains(v) && v != x {
            let k = choose|k: int| 0 <= k < values.len() && values[k] == v;
            assert(front[k] == v);
        }
        if !others.contains(x) && !before.contains(x) {
            let after = before.push(x);
            if before.contains(v) {
                let k = choose|k: int| 0 <= k < before.len() && before[k] == v;
                assert(after[k] == v);
            }
            if v == x {
                assert(after[before.len() as int] == v);
            }
            if after.contains(v) && v != x {
                let k = choose|k: int| 0 <= k < after.len() && after[k] == v;
                assert(before[k] == v);
            }
        }
    }
}

proof fn lemma_mark_of(a: Seq<Seq<char>>, b: Seq<Seq<char>>, v: Seq<char>)
    ensures
        mark_of(marked(a, "added"@) + marked(b, "removed"@), v) == (if a.contains(v) {
            Some("added"@)
        } else if b.contains(v) {
            Some("removed"@)
        } else {
            None
        }),
    decreases a.len() + b.len(),
{
    let ms = marked(a, "added"@) + marked(b, "removed"@);
    if a.len() > 0 {
        let rest = a.drop_first();
        assert(ms[0] == (a[0], "added"@));
        assert(ms.drop_first() =~= marked(rest, "added"@) + marked(b, "removed"@));
        lemma_mark_of(rest, b, v);
        assert(a =~= seq![a[0]] + rest);
        if a[0] == v {
            assert(a.contains(a[0]));
        } else if rest.contains(v) {
            let k = choose|k: int| 0 <= k < rest.len() && rest[k] == v;
            assert(a[k + 1] == v);
        } else if a.contains(v) {
            let k = choose|k: int| 0 <= k < a.len() && a[k] == v;
            assert(rest[k - 1] == v);
        }
    } else if b.len() > 0 {
        let rest = b.drop_first();
        assert(ms[0] == (b[0], "removed"@));
        assert(ms.drop_first() =~= marked(a, "added"@) + marked(rest, "removed"@));
        lemma_mark_of(a, rest, v);
        if b[0] == v {
            assert(b.contains(b[0]));
        } else if rest.contains(v) {
            let k = choose|k: int| 0 <= k < rest.len() && rest[k] == v;
            assert(b[k + 1] == v);
        } else if b.contains(v) {
            let k = choose|k: int| 0 <= k < b.len() && b[k] == v;
            assert(rest[k - 1] == v);
        }
    } else {
        assert(ms.len() == 0);
    }
}

/// A value of a set is marked as added exactly if only the submission has it, and as
/// removed exactly if only the disc has it.
pub proof fn law_marks_of_a_set(stored: Seq<Seq<char>>, submitted: Seq<Seq<char>>, v: Seq<char>)
    ensures
        mark_of(set_marks(stored, submitted), v) == (if submitted.contains(v)
            && !stored.contains(v) {
            Some("added"@)
        } else if stored.contains(v) && !submitted.contains(v) {
            Some("removed"@)
        } else {
            None
        }),
{
    lemma_once(submitted, stored, v);
    lemma_once(stored, submitted, v);
    lemma_mark_of(once_not_among(submitted, stored), once_not_among(stored, submitted), v);
}

proof fn lemma_nothing_left(values: Seq<Seq<char>>)
    ensures
        once_not_among(values, values).len() == 0,
{
    let r = once_not_among(values, values);
    if r.len() > 0 {
        lemma_once(values, values, r[0]);
        assert(r.contains(r[0]));
    }
}

proof fn lemma_no_simple_marks(fields: Seq<Seq<char>>, db: JsonView)
    ensures
        simple_marks(fields, db, db).len() == 0,
    decreases fields.len(),
{
    if fields.len() > 0 {
        lemma_no_simple_marks(fields.drop_last(), db);
        json::law_same_value_reflexive(json::field(db, fields.last()));
    }
}

/// A submission that leaves the disc as it is marks no field.
pub proof fn law_nothing_changed_nothing_marked(db: JsonView)
    ensures
        changed_fields(db, db).len() == 0,
{
    lemma_no_simple_marks(simple_fields(), db);
    json::law_same_value_reflexive(json::field(db, "layerbreaks"@));
    lemma_nothing_left(json::list_texts(json::list_or_empty(json::field(db, "regions"@))));
    lemma_nothing_left(json::list_texts(json::list_or_empty(json::field(db, "languages"@))));
    lemma_nothing_left(json::list_texts(json::list_or_empty(json::field(db, "serial"@))));
    lemma_nothing_left(json::list_texts(json::list_or_empty(json::field(db, "edition"@))));
    lemma_nothing_left(json::list_texts(json::list_or_empty(json::field(db, "barcode"@))));
}

/// A mark of a field, with what was added taken for removed and the other way round.
pub open spec fn turned_mark(m: Seq<char>) -> Seq<char> {
    if text::ends_with(m, ":added"@) {
        m.take(m.len() - 6) + ":removed"@
    } else if text::ends_with(m, ":removed"@) {
        m.take(m.len() - 8) + ":added"@
    } else {
        m
    }
}

/// Marks of fields, turned.
pub open spec fn turned_marks(v: Seq<Seq<char>>) -> Seq<Seq<char>> {
    v.map_values(|m: Seq<char>| turned_mark(m))
}

/// The mark of a value, turned.
pub open spec fn turned_kind(k: Option<Seq<char>>) -> Option<Seq<char>> {
    match k {
        Some(s) => if s == "added"@ {
            Some("removed"@)
        } else if s == "removed"@ {
            Some("added"@)
        } else {
            Some(s)
        },
        None => None,
    }
}

proof fn lemma_turned(f: Seq<char>)
    ensures
        turned_mark(f + ":added"@) == f + ":removed"@,
        turned_mark(f + ":removed"@) == f + ":added"@,
        turned_mark(f + ":changed"@) == f + ":changed"@,
{
    reveal_strlit(":added");
    reveal_strlit(":removed");
    reveal_strlit(":changed");
    let a = f + ":added"@;
    let r = f + ":removed"@;
    let c = f + ":changed"@;
    let n = f.len() as int;
    assert(a.skip(n) =~= ":added"@);
    assert(a.take(n) =~= f);
    assert(r.skip(n) =~= ":removed"@);
    assert(r.take(n) =~= f);
    assert(r.skip(n + 2)[3] == 'v' && ":added"@[3] == 'd');
    assert(!text::ends_with(r, ":added"@));
    assert(c.skip(n + 2)[3] == 'g');
    assert(!text::ends_with(c, ":added"@));
    assert(c.skip(n)[5] == 'g' && ":removed"@[5] == 'v');
    assert(!text::ends_with(c, ":removed"@));
}

proof fn lemma_turned_concat(x: Seq<Seq<char>>, y: Seq<Seq<char>>)
    ensures
        turned_marks(x + y) == turned_marks(x) + turned_marks(y),
{
    assert(turned_marks(x + y) =~= turned_marks(x) + turned_marks(y));
}

proof fn lemma_simple_marks_turn(fields: Seq<Seq<char>>, a: JsonView, b: JsonView)
    ensures
        simple_marks(fields, b, a) == turned_marks(simple_marks(fields, a, b)),
    decreases fields.len(),
{
    if fields.len() == 0 {
        assert(simple_marks(fields, b, a) =~= turned_marks(simple_marks(fields, a, b)));
    } else {
        let f = fields.last();
        lemma_simple_marks_turn(fields.drop_last(), a, b);
        json::law_same_value_symmetric(json::field(a, f), json::field(b, f));
        lemma_turned(review_values::form_field(f));
        let before = simple_marks(fields.drop_last(), a, b);
        match kind_of_change(json::field(a, f), json::field(b, f)) {
            Some(kind) => {
                let m = review_values::form_field(f) + kind;
                assert(turned_marks(before.push(m)) =~= turned_marks(before).push(turned_mark(m)));
            },
            None => {},
        }
    }
}

proof fn lemma_layerbreak_marks_turn(a: JsonView, b: JsonView)
    ensures
        layerbreak_marks(b, a) == turned_marks(layerbreak_marks(a, b)),
{
    json::law_same_value_symmetric(json::field(a, "layerbreaks"@), json::field(b, "layerbreaks"@));
    lemma_turned("layerbreaks"@);
    reveal_strlit("layerbreaks");
    reveal_strlit(":added");
    reveal_strlit(":removed");
    reveal_strlit(":changed");
    reveal_strlit("layerbreaks:added");
    reveal_strlit("layerbreaks:removed");
    reveal_strlit("layerbreaks:changed");
    assert("layerbreaks:added"@ =~= "layerbreaks"@ + ":added"@);
    assert("layerbreaks:removed"@ =~= "layerbreaks"@ + ":removed"@);
    assert("layerbreaks:changed"@ =~= "layerbreaks"@ + ":changed"@);
    assert(layerbreak_marks(b, a) =~= turned_marks(layerbreak_marks(a, b)));
}

proof fn lemma_set_changed_turns(
    x: Seq<(Seq<char>, Seq<char>)>,
    y: Seq<(Seq<char>, Seq<char>)>,
    f: Seq<char>,
    mark: Seq<char>,
)
    requires
        x.len() == y.len(),
        mark == f + ":changed"@,
    ensures
        set_changed(y, mark) == turned_marks(set_changed(x, mark)),
{
    lemma_turned(f);
    assert(set_changed(y, mark) =~= turned_marks(set_changed(x, mark)));
}

proof fn lemma_set_marks_len(a: Seq<Seq<char>>, b: Seq<Seq<char>>)
    ensures
        set_marks(a, b).len() == set_marks(b, a).len(),
{
}

proof fn lemma_sets_turn(a: JsonView, b: JsonView, f: Seq<char>, mark: Seq<char>)
    requires
        mark == f + ":changed"@,
    ensures
        set_changed(field_marks(b, a, f), mark) == turned_marks(set_changed(field_marks(a, b, f), mark)),
{
    lemma_set_marks_len(
        json::list_texts(json::list_or_empty(json::field(a, f))),
        json::list_texts(json::list_or_empty(json::field(b, f))),
    );
    lemma_set_changed_turns(field_marks(a, b, f), field_marks(b, a, f), f, mark);
}

proof fn lemma_marks_that_say_changed()
    ensures
        "regions:changed"@ == "regions"@ + ":changed"@,
        "languages:changed"@ == "languages"@ + ":changed"@,
        "serial:changed"@ == "serial"@ + ":changed"@,
        "edition:changed"@ == "edition"@ + ":changed"@,
        "barcode:changed"@ == "barcode"@ + ":changed"@,
{
    reveal_strlit(":changed");
    reveal_strlit("regions");
    reveal_strlit("languages");
    reveal_strlit("serial");
    reveal_strlit("edition");
    reveal_strlit("barcode");
    reveal_strlit("regions:changed");
    reveal_strlit("languages:changed");
    reveal_strlit("serial:changed");
    reveal_strlit("edition:changed");
    reveal_strlit("barcode:changed");
    assert("regions:changed"@ =~= "regions"@ + ":changed"@);
    assert("languages:changed"@ =~= "languages"@ + ":changed"@);
    assert("serial:changed"@ =~= "serial"@ + ":changed"@);
    assert("edition:changed"@ =~= "edition"@ + ":changed"@);
    assert("barcode:changed"@ =~= "barcode"@ + ":changed"@);
}

/// Exchanging the submitted snapshot and the stored one marks the same fields in the same
/// order, with what was added taken for removed and the other way round.
pub proof fn law_exchange_turns_fields(a: JsonView, b: JsonView)
    ensures
        highlights_of(b, a).changed_fields == turned_marks(highlights_of(a, b).changed_fields),
{
    lemma_simple_marks_turn(simple_fields(), a, b);
    lemma_layerbreak_marks_turn(a, b);
    lemma_marks_that_say_changed();
    lemma_sets_turn(a, b, "regions"@, "regions:changed"@);
    lemma_sets_turn(a, b, "languages"@, "languages:changed"@);
    lemma_sets_turn(a, b, "serial"@, "serial:changed"@);
    lemma_sets_turn(a, b, "edition"@, "edition:changed"@);
    lemma_sets_turn(a, b, "barcode"@, "barcode:changed"@);
    let s0 = simple_marks(simple_fields(), a, b);
    let s1 = s0 + layerbreak_marks(a, b);
    let s2 = s1 + set_changed(field_marks(a, b, "regions"@), "regions:changed"@);
    let s3 = s2 + set_changed(field_marks(a, b, "languages"@), "languages:changed"@);
    let s4 = s3 + set_changed(field_marks(a, b, "serial"@), "serial:changed"@);
    let s5 = s4 + set_changed(field_marks(a, b, "edition"@), "edition:changed"@);
    lemma_turned_concat(s0, layerbreak_marks(a, b));
    lemma_turned_concat(s1, set_changed(field_marks(a, b, "regions"@), "regions:changed"@));
    lemma_turned_concat(s2, set_changed(field_marks(a, b, "languages"@), "languages:changed"@));
    lemma_turned_concat(s3, set_changed(field_marks(a, b, "serial"@), "serial:changed"@));
    lemma_turned_concat(s4, set_changed(field_marks(a, b, "edition"@), "edition:changed"@));
    lemma_turned_concat(s5, set_changed(field_marks(a, b, "barcode"@), "barcode:changed"@));
}

proof fn lemma_field_marks_turn(a: JsonView, b: JsonView, key: Seq<char>, v: Seq<char>)
    ensures
        mark_of(field_marks(b, a, key), v) == turned_kind(mark_of(field_marks(a, b, key), v)),
{
    reveal_strlit("added");
    reveal_strlit("removed");
    assert("added"@ != "removed"@) by {
        assert("added"@.len() != "removed"@.len());
    }
    let x = json::list_texts(json::list_or_empty(json::field(a, key)));
    let y = json::list_texts(json::list_or_empty(json::field(b, key)));
    law_marks_of_a_set(x, y, v);
    law_marks_of_a_set(y, x, v);
}

/// Exchanging the submitted snapshot and the stored one marks the same regions, languages,
/// serials, editions and barcodes, with what was added taken for removed and the other way
/// round.
pub proof fn law_exchange_turns_sets(a: JsonView, b: JsonView, v: Seq<char>)
    ensures
        mark_of(highlights_of(b, a).regions, v) == turned_kind(
            mark_of(highlights_of(a, b).regions, v),
        ),
        mark_of(highlights_of(b, a).languages, v) == turned_kind(
            mark_of(highlights_of(a, b).languages, v),
        ),
        mark_of(highlights_of(b, a).serials, v) == turned_kind(
            mark_of(highlights_of(a, b).serials, v),
        ),
        mark_of(highlights_of(b, a).editions, v) == turned_kind(
            mark_of(highlights_of(a, b).editions, v),
        ),
        mark_of(highlights_of(b, a).barcodes, v) == turned_kind(
            mark_of(highlights_of(a, b).barcodes, v),
        ),
{
    lemma_field_marks_turn(a, b, "regions"@, v);
    lemma_field_marks_turn(a, b, "languages"@, v);
    lemma_field_marks_turn(a, b, "serial"@, v);
    lemma_field_marks_turn(a, b, "edition"@, v);
    lemma_field_marks_turn(a, b, "barcode"@, v);
}

} // verus!
