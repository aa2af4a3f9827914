//! What a review marks of a submission.

use vstd::prelude::*;

use crate::json::{self, JsonView};
use crate::models::{Disc, DiscDetail};
use crate::routes::highlights;
use crate::routes::review_values::{self, COMMENTS_REVIEW_DELIMITER};
use crate::services::disc_snapshot;
use crate::services::resolution;
use crate::services::ring_history;
use crate::text;

verus! {

// ── Fields ─────────────────────────────────────────────────────────────────

proof fn lemma_simple_mark(
    fields: Seq<Seq<char>>,
    db: JsonView,
    submitted: JsonView,
    i: int,
    kind: Seq<char>,
)
    requires
        0 <= i < fields.len(),
        highlights::kind_of_change(json::field(db, fields[i]), json::field(submitted, fields[i])) == Some(kind),
    ensures
        highlights::simple_marks(fields, db, submitted).contains(review_values::form_field(fields[i]) + kind),
    decreases fields.len(),
{
    let all = highlights::simple_marks(fields, db, submitted);
    let front = fields.drop_last();
    if i == fields.len() - 1 {
        assert(all.last() == review_values::form_field(fields[i]) + kind);
    } else {
        assert(front[i] == fields[i]);
        lemma_simple_mark(front, db, submitted, i, kind);
        let before = highlights::simple_marks(front, db, submitted);
        let k = choose|k: int| 0 <= k < before.len() && before[k] == review_values::form_field(fields[i]) + kind;
        assert(all[k] == before[k]);
    }
}

proof fn lemma_marked_field(
    fields: Seq<Seq<char>>,
    db: JsonView,
    submitted: JsonView,
    m: Seq<char>,
)
    requires
        highlights::simple_marks(fields, db, submitted).contains(m),
    ensures
        exists|i: int|
            0 <= i < fields.len() && (highlights::kind_of_change(
                json::field(db, #[trigger] fields[i]),
                json::field(submitted, fields[i]),
            ) matches Some(kind) && m == review_values::form_field(fields[i]) + kind),
    decreases fields.len(),
{
    let all = highlights::simple_marks(fields, db, submitted);
    let k = choose|k: int| 0 <= k < all.len() && all[k] == m;
    if fields.len() > 0 {
        let front = fields.drop_last();
        let before = highlights::simple_marks(front, db, submitted);
        if k < before.len() {
            assert(before[k] == m);
            lemma_marked_field(front, db, submitted, m);
            let i = choose|i: int|
                0 <= i < front.len() && (highlights::kind_of_change(
                    json::field(db, #[trigger] front[i]),
                    json::field(submitted, front[i]),
                ) matches Some(kind) && m == review_values::form_field(front[i]) + kind);
            assert(fields[i] == front[i]);
        } else {
            assert(fields[fields.len() - 1] == fields.last());
        }
    }
}

/// A field with one value is marked under its name in the form: as added where the disc has
/// nothing in it, as removed where the submission has nothing, as changed where the two
/// differ.
pub proof fn law_changed_fields_are_marked(db: JsonView, submitted: JsonView, i: int)
    requires
        0 <= i < highlights::simple_fields().len(),
    ensures
        ({
            let f = highlights::simple_fields()[i];
            let a = json::field(db, f);
            let b = json::field(submitted, f);
            let marks = highlights::changed_fields(db, submitted);
            &&& review_values::is_empty_value(a) && !review_values::is_empty_value(b) ==> marks.contains(
                review_values::form_field(f) + ":added"@,
            )
            &&& !review_values::is_empty_value(a) && review_values::is_empty_value(b) ==> marks.contains(
                review_values::form_field(f) + ":removed"@,
            )
            &&& !review_values::is_empty_value(a) && !review_values::is_empty_value(b) && !review_values::values_equal(a, b)
                ==> marks.contains(review_values::form_field(f) + ":changed"@)
        }),
{
    let f = highlights::simple_fields()[i];
    let simple = highlights::simple_marks(highlights::simple_fields(), db, submitted);
    if let Some(kind) = highlights::kind_of_change(json::field(db, f), json::field(submitted, f)) {
        lemma_simple_mark(highlights::simple_fields(), db, submitted, i, kind);
        let m = review_values::form_field(f) + kind;
        let k = choose|k: int| 0 <= k < simple.len() && simple[k] == m;
        assert(highlights::changed_fields(db, submitted)[k] == m);
    }
}

/// A field with one value is marked only where it changed.
pub proof fn law_only_changed_fields_are_marked(db: JsonView, submitted: JsonView, m: Seq<char>)
    requires
        highlights::simple_marks(highlights::simple_fields(), db, submitted).contains(m),
    ensures
        exists|i: int|
            0 <= i < highlights::simple_fields().len() && text::starts_with(
                m,
                review_values::form_field(#[trigger] highlights::simple_fields()[i]),
            ) && review_values::value_changed(
                json::field(db, highlights::simple_fields()[i]),
                json::field(submitted, highlights::simple_fields()[i]),
            ),
{
    lemma_marked_field(highlights::simple_fields(), db, submitted, m);
    let fs = highlights::simple_fields();
    let i = choose|i: int|
        0 <= i < fs.len() && (highlights::kind_of_change(json::field(db, #[trigger] fs[i]), json::field(submitted, fs[i]))
            matches Some(kind) && m == review_values::form_field(fs[i]) + kind);
    let f = review_values::form_field(fs[i]);
    assert(m.take(f.len() as int) =~= f);
    if review_values::is_empty_value(json::field(db, fs[i])) != review_values::is_empty_value(json::field(submitted, fs[i])) {
        lemma_empty_differs(json::field(db, fs[i]), json::field(submitted, fs[i]));
    }
}

proof fn lemma_empty_differs(a: JsonView, b: JsonView)
    requires
        review_values::is_empty_value(a) != review_values::is_empty_value(b),
    ensures
        !review_values::values_equal(a, b),
{
}

/// Every field of a disc is compared: as one value, as a set, as the layer breaks, or as the
/// pressings.
pub proof fn law_every_field_is_compared(d: DiscDetail, key: Seq<char>)
    requires
        json::get(disc_snapshot::snapshot(d), key) is Some,
    ensures
        highlights::simple_fields().contains(key) || resolution::is_set_field(key) || key == "layerbreaks"@ || key
            == "ring_codes"@,
{
    let fs = highlights::simple_fields();
    assert(fs[0] == "system_code"@ && fs[1] == "media_type"@ && fs[2] == "category"@ && fs[3]
        == "title"@ && fs[4] == "title_foreign"@ && fs[5] == "disc_number"@ && fs[6]
        == "disc_title"@ && fs[7] == "filename_suffix"@ && fs[8] == "version"@);
    assert(fs[9] == "error_count"@ && fs[10] == "exe_date"@ && fs[11] == "edc"@ && fs[12]
        == "comments"@ && fs[13] == "contents"@ && fs[14] == "protection"@ && fs[15]
        == "sector_ranges"@ && fs[16] == "sbi"@ && fs[17] == "disc_id"@ && fs[18] == "disc_key"@);
    assert(fs[19] == "universal_hash"@ && fs[20] == "pvd"@ && fs[21] == "header"@ && fs[22]
        == "bca"@ && fs[23] == "pic"@ && fs[24] == "cuesheet"@ && fs[25] == "dat"@ && fs[26]
        == "status"@);
    assert forall|o: Seq<(Seq<char>, JsonView)>, k: Seq<char>, v: JsonView|
        #[trigger] json::lookup(json::put(o, k, v), key) is Some implies key == k || json::lookup(o, key) is Some by {
        json::lemma_lookup_put(o, k, v, key);
    }
    assert(json::lookup(Seq::<(Seq<char>, JsonView)>::empty(), key) is None);
    lemma_last_keys(d, key);
}

proof fn lemma_last_keys(d: DiscDetail, key: Seq<char>)
    requires
        json::get(disc_snapshot::snapshot(d), key) is Some,
        forall|o: Seq<(Seq<char>, JsonView)>, k: Seq<char>, v: JsonView|
            #[trigger] json::lookup(json::put(o, k, v), key) is Some ==> key == k || json::lookup(o, key) is Some,
    ensures
        key == "cuesheet"@
            || key == "status"@
            || key == "regions"@
            || key == "languages"@
            || key == "ring_codes"@
            || key == "sector_ranges"@
            || key == "dat"@
            || key == "pvd"@
            || key == "pic"@
            || key == "bca"@
            || key == "header"@
            || key == "protection"@
            || key == "sbi"@
            || key == "disc_id"@
            || key == "disc_key"@
            || key == "universal_hash"@
            || key == "serial"@
            || key == "version"@
            || key == "edition"@
            || key == "barcode"@
            || key == "comments"@
            || key == "contents"@
            || key == "error_count"@
            || key == "exe_date"@
            || key == "edc"@
            || key == "layerbreaks"@
            || key == "system_code"@
            || key == "media_type"@
            || key == "title"@
            || key == "category"@
            || key == "title_foreign"@
            || key == "disc_number"@
            || key == "disc_title"@
            || key == "filename_suffix"@,
{
    let x = d.disc;
    let a = disc_snapshot::name_entries(x);
    let b = disc_snapshot::with_release_entries(a, x);
    let c = disc_snapshot::with_data_entries(b, x);
    lemma_name_keys(x, key);
    lemma_release_keys(a, x, key);
    lemma_data_keys(b, x, key);
}

proof fn lemma_name_keys(x: Disc, key: Seq<char>)
    requires
        forall|o: Seq<(Seq<char>, JsonView)>, k: Seq<char>, v: JsonView|
            #[trigger] json::lookup(json::put(o, k, v), key) is Some ==> key == k || json::lookup(o, key) is Some,
    ensures
        json::lookup(disc_snapshot::name_entries(x), key) is Some ==> key == "system_code"@ || key == "media_type"@
            || key == "title"@ || key == "category"@ || key == "title_foreign"@ || key
            == "disc_number"@ || key == "disc_title"@ || key == "filename_suffix"@,
{
}

proof fn lemma_release_keys(o: Seq<(Seq<char>, JsonView)>, x: Disc, key: Seq<char>)
    requires
        forall|o: Seq<(Seq<char>, JsonView)>, k: Seq<char>, v: JsonView|
            #[trigger] json::lookup(json::put(o, k, v), key) is Some ==> key == k || json::lookup(o, key) is Some,
    ensures
        json::lookup(disc_snapshot::with_release_entries(o, x), key) is Some ==> json::lookup(o, key) is Some || key
            == "serial"@ || key == "version"@ || key == "edition"@ || key == "barcode"@ || key
            == "comments"@ || key == "contents"@ || key == "error_count"@ || key == "exe_date"@
            || key == "edc"@ || key == "layerbreaks"@,
{
}

proof fn lemma_data_keys(o: Seq<(Seq<char>, JsonView)>, x: Disc, key: Seq<char>)
    requires
        forall|o: Seq<(Seq<char>, JsonView)>, k: Seq<char>, v: JsonView|
            #[trigger] json::lookup(json::put(o, k, v), key) is Some ==> key == k || json::lookup(o, key) is Some,
    ensures
        json::lookup(disc_snapshot::with_data_entries(o, x), key) is Some ==> json::lookup(o, key) is Some || key == "pvd"@
            || key == "pic"@ || key == "bca"@ || key == "header"@ || key == "protection"@ || key
            == "sbi"@ || key == "disc_id"@ || key == "disc_key"@ || key == "universal_hash"@,
{
}

// ── Sets ───────────────────────────────────────────────────────────────────

/// The values of a set in a snapshot.
pub open spec fn set_of(v: JsonView, key: Seq<char>) -> Seq<Seq<char>> {
    json::list_texts(json::list_or_empty(json::field(v, key)))
}

/// How a value of a set is marked between two snapshots.
pub open spec fn is_marked_between(
    ms: Seq<(Seq<char>, Seq<char>)>,
    db: JsonView,
    submitted: JsonView,
    key: Seq<char>,
    v: Seq<char>,
) -> bool {
    highlights::mark_of(ms, v) == (if set_of(submitted, key).contains(v) && !set_of(db, key).contains(v) {
        Some("added"@)
    } else if set_of(db, key).contains(v) && !set_of(submitted, key).contains(v) {
        Some("removed"@)
    } else {
        None
    })
}

/// The values of each set are marked as added where only the submission has them, as removed
/// where only the disc has them, and not at all where both do.
pub proof fn law_sets_are_marked(db: JsonView, submitted: JsonView, v: Seq<char>)
    ensures
        is_marked_between(highlights::highlights_of(db, submitted).regions, db, submitted, "regions"@, v),
        is_marked_between(highlights::highlights_of(db, submitted).languages, db, submitted, "languages"@, v),
        is_marked_between(highlights::highlights_of(db, submitted).serials, db, submitted, "serial"@, v),
        is_marked_between(highlights::highlights_of(db, submitted).editions, db, submitted, "edition"@, v),
        is_marked_between(highlights::highlights_of(db, submitted).barcodes, db, submitted, "barcode"@, v),
{
    highlights::law_marks_of_a_set(set_of(db, "regions"@), set_of(submitted, "regions"@), v);
    highlights::law_marks_of_a_set(set_of(db, "languages"@), set_of(submitted, "languages"@), v);
    highlights::law_marks_of_a_set(set_of(db, "serial"@), set_of(submitted, "serial"@), v);
    highlights::law_marks_of_a_set(set_of(db, "edition"@), set_of(submitted, "edition"@), v);
    highlights::law_marks_of_a_set(set_of(db, "barcode"@), set_of(submitted, "barcode"@), v);
}

proof fn lemma_set_has_marks(db: JsonView, submitted: JsonView, key: Seq<char>, v: Seq<char>)
    requires
        set_of(db, key).contains(v) != set_of(submitted, key).contains(v),
    ensures
        highlights::field_marks(db, submitted, key).len() > 0,
{
    highlights::law_marks_of_a_set(set_of(db, key), set_of(submitted, key), v);
    if highlights::field_marks(db, submitted, key).len() == 0 {
        assert(highlights::mark_of(highlights::field_marks(db, submitted, key), v) is None);
    }
}

/// A set in which any value differs is marked as changed.
pub proof fn law_changed_sets_are_marked(db: JsonView, submitted: JsonView, v: Seq<char>)
    ensures
        set_of(db, "regions"@).contains(v) != set_of(submitted, "regions"@).contains(v)
            ==> highlights::changed_fields(db, submitted).contains("regions:changed"@),
        set_of(db, "languages"@).contains(v) != set_of(submitted, "languages"@).contains(v)
            ==> highlights::changed_fields(db, submitted).contains("languages:changed"@),
        set_of(db, "serial"@).contains(v) != set_of(submitted, "serial"@).contains(v)
            ==> highlights::changed_fields(db, submitted).contains("serial:changed"@),
        set_of(db, "edition"@).contains(v) != set_of(submitted, "edition"@).contains(v)
            ==> highlights::changed_fields(db, submitted).contains("edition:changed"@),
        set_of(db, "barcode"@).contains(v) != set_of(submitted, "barcode"@).contains(v)
            ==> highlights::changed_fields(db, submitted).contains("barcode:changed"@),
{
    let s0 = highlights::simple_marks(highlights::simple_fields(), db, submitted) + highlights::layerbreak_marks(db, submitted);
    let s1 = s0 + highlights::set_changed(highlights::field_marks(db, submitted, "regions"@), "regions:changed"@);
    let s2 = s1 + highlights::set_changed(highlights::field_marks(db, submitted, "languages"@), "languages:changed"@);
    let s3 = s2 + highlights::set_changed(highlights::field_marks(db, submitted, "serial"@), "serial:changed"@);
    let s4 = s3 + highlights::set_changed(highlights::field_marks(db, submitted, "edition"@), "edition:changed"@);
    let s5 = s4 + highlights::set_changed(highlights::field_marks(db, submitted, "barcode"@), "barcode:changed"@);
    assert(s5 == highlights::changed_fields(db, submitted));
    if set_of(db, "regions"@).contains(v) != set_of(submitted, "regions"@).contains(v) {
        lemma_set_has_marks(db, submitted, "regions"@, v);
        assert(s5[s0.len() as int] == "regions:changed"@);
    }
    if set_of(db, "languages"@).contains(v) != set_of(submitted, "languages"@).contains(v) {
        lemma_set_has_marks(db, submitted, "languages"@, v);
        assert(s5[s1.len() as int] == "languages:changed"@);
    }
    if set_of(db, "serial"@).contains(v) != set_of(submitted, "serial"@).contains(v) {
        lemma_set_has_marks(db, submitted, "serial"@, v);
        assert(s5[s2.len() as int] == "serial:changed"@);
    }
    if set_of(db, "edition"@).contains(v) != set_of(submitted, "edition"@).contains(v) {
        lemma_set_has_marks(db, submitted, "edition"@, v);
        assert(s5[s3.len() as int] == "edition:changed"@);
    }
    if set_of(db, "barcode"@).contains(v) != set_of(submitted, "barcode"@).contains(v) {
        lemma_set_has_marks(db, submitted, "barcode"@, v);
        assert(s5[s4.len() as int] == "barcode:changed"@);
    }
}

// ── Pressings ──────────────────────────────────────────────────────────────

/// How a field of a pressing is marked between two pressings.
pub open spec fn field_is_marked(m: Option<JsonView>, a: JsonView, b: JsonView, csv: bool) -> bool {
    &&& json::same_value(a, b) ==> m is None
    &&& review_values::is_empty_value(a) && !review_values::is_empty_value(b) && !json::same_value(a, b) ==> m == Some(
        JsonView::Str("added"@),
    )
    &&& !review_values::is_empty_value(a) && review_values::is_empty_value(b) && !json::same_value(a, b) ==> m == Some(
        JsonView::Str("removed"@),
    )
    &&& !csv && !review_values::is_empty_value(a) && !review_values::is_empty_value(b) && !json::same_value(a, b) ==> m == Some(
        JsonView::Str("changed"@),
    )
}

proof fn lemma_with_mark(
    es: Seq<(Seq<char>, JsonView)>,
    a: JsonView,
    b: JsonView,
    key: Seq<char>,
    csv: bool,
    other: Seq<char>,
)
    ensures
        other != key ==> json::lookup(highlights::with_mark(es, a, b, key, csv), other) == json::lookup(es, other),
        json::lookup(es, key) is None ==> field_is_marked(
            json::lookup(highlights::with_mark(es, a, b, key, csv), key),
            json::field(a, key),
            json::field(b, key),
            csv,
        ),
{
    if let Some(kind) = highlights::ring_field_change(json::field(a, key), json::field(b, key), csv) {
        json::lemma_lookup_put(es, key, JsonView::Str(kind), key);
        json::lemma_lookup_put(es, key, JsonView::Str(kind), other);
    }
}

proof fn lemma_entry_keys()
    ensures
        "offset_value"@ != "offset_extra_value"@,
        "offset_value"@ != "sample_start"@,
        "offset_value"@ != "comment"@,
        "offset_value"@ != "layers"@,
        "offset_extra_value"@ != "sample_start"@,
        "offset_extra_value"@ != "comment"@,
        "offset_extra_value"@ != "layers"@,
        "sample_start"@ != "comment"@,
        "sample_start"@ != "layers"@,
        "comment"@ != "layers"@,
{
    reveal_strlit("offset_value");
    reveal_strlit("offset_extra_value");
    reveal_strlit("sample_start");
    reveal_strlit("comment");
    reveal_strlit("layers");
    assert("offset_value"@.len() == 12 && "offset_extra_value"@.len() == 18);
    assert("sample_start"@.len() == 12 && "comment"@.len() == 7 && "layers"@.len() == 6);
    assert("offset_value"@[0] == 'o' && "sample_start"@[0] == 's');
}

/// The fields of a pressing are marked each by its own change.
pub proof fn law_pressings_are_marked(a: JsonView, b: JsonView)
    ensures
        field_is_marked(
            json::get(highlights::entry_marks(a, b), "offset_value"@),
            json::field(a, "offset_value"@),
            json::field(b, "offset_value"@),
            false,
        ),
        field_is_marked(
            json::get(highlights::entry_marks(a, b), "offset_extra_value"@),
            json::field(a, "offset_extra_value"@),
            json::field(b, "offset_extra_value"@),
            false,
        ),
        field_is_marked(
            json::get(highlights::entry_marks(a, b), "sample_start"@),
            json::field(a, "sample_start"@),
            json::field(b, "sample_start"@),
            false,
        ),
        field_is_marked(
            json::get(highlights::entry_marks(a, b), "comment"@),
            json::field(a, "comment"@),
            json::field(b, "comment"@),
            false,
        ),
{
    lemma_entry_keys();
    let k1 = "offset_value"@;
    let k2 = "offset_extra_value"@;
    let k3 = "sample_start"@;
    let k4 = "comment"@;
    let e0 = Seq::<(Seq<char>, JsonView)>::empty();
    let e1 = highlights::with_mark(e0, a, b, k1, false);
    let e2 = highlights::with_mark(e1, a, b, k2, false);
    let e3 = highlights::with_mark(e2, a, b, k3, false);
    let e4 = highlights::with_mark(e3, a, b, k4, false);
    assert(json::lookup(e0, k1) is None && json::lookup(e0, k2) is None && json::lookup(e0, k3) is None && json::lookup(
        e0,
        k4,
    ) is None);
    lemma_with_mark(e0, a, b, k1, false, k2);
    lemma_with_mark(e0, a, b, k1, false, k3);
    lemma_with_mark(e0, a, b, k1, false, k4);
    lemma_with_mark(e1, a, b, k2, false, k1);
    lemma_with_mark(e1, a, b, k2, false, k3);
    lemma_with_mark(e1, a, b, k2, false, k4);
    lemma_with_mark(e2, a, b, k3, false, k1);
    lemma_with_mark(e2, a, b, k3, false, k2);
    lemma_with_mark(e2, a, b, k3, false, k4);
    lemma_with_mark(e3, a, b, k4, false, k1);
    lemma_with_mark(e3, a, b, k4, false, k2);
    lemma_with_mark(e3, a, b, k4, false, k3);
    let x = json::list_or_empty(json::field(a, "layers"@));
    let y = json::list_or_empty(json::field(b, "layers"@));
    let ms = JsonView::Arr(highlights::layers_marks(x, y, highlights::more_layers(x, y)));
    json::lemma_lookup_put(e4, "layers"@, ms, k1);
    json::lemma_lookup_put(e4, "layers"@, ms, k2);
    json::lemma_lookup_put(e4, "layers"@, ms, k3);
    json::lemma_lookup_put(e4, "layers"@, ms, k4);
}

/// The fields of a layer are marked each by its own change. Stamps are compared as sets,
/// whatever their case and their order.
pub proof fn law_layers_are_marked(a: JsonView, b: JsonView)
    ensures
        field_is_marked(
            json::lookup(highlights::layer_marks(a, b), "mastering_code"@),
            json::field(a, "mastering_code"@),
            json::field(b, "mastering_code"@),
            false,
        ),
        field_is_marked(
            json::lookup(highlights::layer_marks(a, b), "mastering_sid"@),
            json::field(a, "mastering_sid"@),
            json::field(b, "mastering_sid"@),
            false,
        ),
        field_is_marked(
            json::lookup(highlights::layer_marks(a, b), "toolstamps"@),
            json::field(a, "toolstamps"@),
            json::field(b, "toolstamps"@),
            true,
        ),
        field_is_marked(
            json::lookup(highlights::layer_marks(a, b), "mould_sids"@),
            json::field(a, "mould_sids"@),
            json::field(b, "mould_sids"@),
            true,
        ),
        field_is_marked(
            json::lookup(highlights::layer_marks(a, b), "additional_moulds"@),
            json::field(a, "additional_moulds"@),
            json::field(b, "additional_moulds"@),
            true,
        ),
{
    reveal_strlit("mastering_code");
    reveal_strlit("mastering_sid");
    reveal_strlit("toolstamps");
    reveal_strlit("mould_sids");
    reveal_strlit("additional_moulds");
    assert("mastering_code"@.len() == 14 && "mastering_sid"@.len() == 13);
    assert("toolstamps"@.len() == 10 && "mould_sids"@.len() == 10);
    assert("additional_moulds"@.len() == 17);
    assert("toolstamps"@[0] == 't' && "mould_sids"@[0] == 'm');
    let k1 = "mastering_code"@;
    let k2 = "mastering_sid"@;
    let k3 = "toolstamps"@;
    let k4 = "mould_sids"@;
    let k5 = "additional_moulds"@;
    let e0 = Seq::<(Seq<char>, JsonView)>::empty();
    let e1 = highlights::with_mark(e0, a, b, k1, false);
    let e2 = highlights::with_mark(e1, a, b, k2, false);
    let e3 = highlights::with_mark(e2, a, b, k3, true);
    let e4 = highlights::with_mark(e3, a, b, k4, true);
    assert forall|k: Seq<char>| #[trigger] json::lookup(e0, k) is None by {}
    assert forall|k: Seq<char>| k != k1 implies #[trigger] json::lookup(e1, k) is None by {
        lemma_with_mark(e0, a, b, k1, false, k);
    }
    assert forall|k: Seq<char>| k != k2 implies #[trigger] json::lookup(e2, k) == json::lookup(e1, k) by {
        lemma_with_mark(e1, a, b, k2, false, k);
    }
    assert forall|k: Seq<char>| k != k3 implies #[trigger] json::lookup(e3, k) == json::lookup(e2, k) by {
        lemma_with_mark(e2, a, b, k3, true, k);
    }
    assert forall|k: Seq<char>| k != k4 implies #[trigger] json::lookup(e4, k) == json::lookup(e3, k) by {
        lemma_with_mark(e3, a, b, k4, true, k);
    }
    lemma_with_mark(e0, a, b, k1, false, k1);
    lemma_with_mark(e1, a, b, k2, false, k2);
    lemma_with_mark(e2, a, b, k3, true, k3);
    lemma_with_mark(e3, a, b, k4, true, k4);
    lemma_with_mark(e4, a, b, k5, true, k5);
    lemma_with_mark(e4, a, b, k5, true, k1);
    lemma_with_mark(e4, a, b, k5, true, k2);
    lemma_with_mark(e4, a, b, k5, true, k3);
    lemma_with_mark(e4, a, b, k5, true, k4);
}

/// Two lists of stamps that hold the same stamps, in whatever case and order, are not marked;
/// two that do not are.
pub proof fn law_stamps_are_compared_as_sets(x: Seq<char>, y: Seq<char>)
    requires
        !text::is_blank(x),
        !text::is_blank(y),
    ensures
        highlights::same_members(highlights::small_items(x), highlights::small_items(y)) ==> highlights::ring_field_change(
            JsonView::Str(x),
            JsonView::Str(y),
            true,
        ) is None,
        x != y && !highlights::same_members(highlights::small_items(x), highlights::small_items(y)) ==> highlights::ring_field_change(
            JsonView::Str(x),
            JsonView::Str(y),
            true,
        ) == Some("changed"@),
{
}

/// A submitted pressing is compared with the stored one of its id, and is new where there is
/// none of its id, or where it has none.
pub proof fn law_pressings_are_compared_by_id(db: Seq<JsonView>, entry: JsonView, k: int)
    ensures
        ring_history::id_of(entry) is None ==> json::get(highlights::ring_mark(db, entry), "entry"@) == Some(
            JsonView::Str("added"@),
        ),
        0 <= k < db.len() && ring_history::id_of(entry) is Some && ring_history::id_of(db[k]) == ring_history::id_of(entry) && (forall|j: int|
            k < j < db.len() ==> ring_history::id_of(#[trigger] db[j]) != ring_history::id_of(entry)) ==> highlights::ring_mark(db, entry)
            == highlights::entry_marks(db[k], entry),
        ring_history::id_of(entry) is Some && (forall|j: int|
            0 <= j < db.len() ==> ring_history::id_of(#[trigger] db[j]) != ring_history::id_of(entry)) ==> json::get(
            highlights::ring_mark(db, entry),
            "entry"@,
        ) == Some(JsonView::Str("added"@)),
{
    json::lemma_lookup_put(Seq::empty(), "entry"@, JsonView::Str("added"@), "entry"@);
    if let Some(id) = ring_history::id_of(entry) {
        lemma_last_with_id(db, id, db.len() as int);
    }
}

proof fn lemma_last_with_id(rs: Seq<JsonView>, id: i32, n: int)
    requires
        0 <= n <= rs.len(),
    ensures
        match highlights::last_with_id(rs, id, n) {
            Some(i) => 0 <= i < n && ring_history::id_of(rs[i]) == Some(id) && forall|j: int|
                i < j < n ==> ring_history::id_of(#[trigger] rs[j]) != Some(id),
            None => forall|j: int| 0 <= j < n ==> ring_history::id_of(#[trigger] rs[j]) != Some(id),
        },
    decreases n,
{
    if n > 0 && ring_history::id_of(rs[n - 1]) != Some(id) {
        lemma_last_with_id(rs, id, n - 1);
    }
}

// ── Values ─────────────────────────────────────────────────────────────────

/// Two texts differ in a review exactly if they differ in more than the space around them and
/// the way their lines end, and are not both blank.
pub proof fn law_texts_that_differ(x: Seq<char>, y: Seq<char>)
    ensures
        review_values::value_changed(JsonView::Str(x), JsonView::Str(y)) <==> x != y && text::fold_crlf(text::trim(x))
            != text::fold_crlf(text::trim(y)) && !(text::is_blank(x) && text::is_blank(y)),
        review_values::value_changed(JsonView::Null, JsonView::Str(y)) <==> !text::is_blank(y),
        review_values::value_changed(JsonView::Str(x), JsonView::Null) <==> !text::is_blank(x),
{
}

/// The comments of a review begin with those that are stored and end with those that were
/// submitted.
pub proof fn law_comments_stand_in_order(a: Seq<char>, b: Seq<char>)
    requires
        !text::is_blank(a),
        !text::is_blank(b),
    ensures
        text::starts_with(review_values::review_comments(JsonView::Str(a), JsonView::Str(b)), a),
        text::ends_with(review_values::review_comments(JsonView::Str(a), JsonView::Str(b)), b),
{
    let d = COMMENTS_REVIEW_DELIMITER@;
    let sep = "\n\n"@;
    let parts = seq![a] + seq![d] + seq![b];
    let r = review_values::review_comments(JsonView::Str(a), JsonView::Str(b));
    assert(r == text::join(parts, sep));
    assert(parts.drop_last() =~= seq![a, d]);
    assert(seq![a, d].drop_last() =~= seq![a]);
    reveal_with_fuel(text::join, 3);
    assert(r =~= a + sep + d + sep + b);
    assert(r.take(a.len() as int) =~= a);
    assert(r.skip(r.len() - b.len()) =~= b);
}

} // verus!
