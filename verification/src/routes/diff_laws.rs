//! What the page of a review notes and shows.

use vstd::prelude::*;

use crate::json::{self, JsonView};
use crate::models::{Language, Region, System};
use crate::order::{self, KeyView};
use crate::routes::disc_edit::{
    self, AnnotationView, CategoryRow, EditMediaTypeRow, EditRefData, TemplateView,
};
use crate::routes::highlights::{self, HighlightsView};
use crate::routes::review_diff;
use crate::routes::review_values;
use crate::text;
use crate::unicode;

verus! {

// ── Notes ──────────────────────────────────────────────────────────────────

proof fn lemma_in_first(a: Seq<AnnotationView>, b: Seq<AnnotationView>, n: AnnotationView)
    ensures
        a.contains(n) || b.contains(n) ==> (a + b).contains(n),
{
    if a.contains(n) {
        let k = choose|k: int| 0 <= k < a.len() && a[k] == n;
        assert((a + b)[k] == n);
    }
    if b.contains(n) {
        let k = choose|k: int| 0 <= k < b.len() && b[k] == n;
        assert((a + b)[a.len() + k] == n);
    }
}

proof fn lemma_noted_to(
    names: Seq<Seq<char>>,
    db: JsonView,
    submitted: JsonView,
    ref_data: EditRefData,
    i: int,
    n: AnnotationView,
)
    requires
        0 <= i < names.len(),
        review_diff::changed_to(names[i], db, submitted, ref_data).contains(n),
    ensures
        review_diff::all_changed_to(names, db, submitted, ref_data).contains(n),
    decreases names.len(),
{
    let front = names.drop_last();
    let a = review_diff::all_changed_to(front, db, submitted, ref_data);
    let b = review_diff::changed_to(names.last(), db, submitted, ref_data);
    if i < front.len() {
        assert(front[i] == names[i]);
        lemma_noted_to(front, db, submitted, ref_data, i, n);
    }
    lemma_in_first(a, b, n);
}

proof fn lemma_noted_from(
    names: Seq<Seq<char>>,
    db: JsonView,
    submitted: JsonView,
    i: int,
    n: AnnotationView,
)
    requires
        0 <= i < names.len(),
        review_diff::changed_from(names[i], db, submitted).contains(n),
    ensures
        review_diff::all_changed_from(names, db, submitted).contains(n),
    decreases names.len(),
{
    let front = names.drop_last();
    let a = review_diff::all_changed_from(front, db, submitted);
    let b = review_diff::changed_from(names.last(), db, submitted);
    if i < front.len() {
        assert(front[i] == names[i]);
        lemma_noted_from(front, db, submitted, i, n);
    }
    lemma_in_first(a, b, n);
}

/// The parts of the notes of a review, each joined to those before it.
proof fn lemma_parts(
    p: Seq<Seq<AnnotationView>>,
    all: Seq<AnnotationView>,
    i: int,
    n: AnnotationView,
)
    requires
        p.len() == 7,
        all == p[0] + p[1] + p[2] + p[3] + p[4] + p[5] + p[6],
        0 <= i < 7,
        p[i].contains(n),
    ensures
        all.contains(n),
{
    let a1 = p[0] + p[1];
    let a2 = a1 + p[2];
    let a3 = a2 + p[3];
    let a4 = a3 + p[4];
    let a5 = a4 + p[5];
    lemma_in_first(p[0], p[1], n);
    lemma_in_first(a1, p[2], n);
    lemma_in_first(a2, p[3], n);
    lemma_in_first(a3, p[4], n);
    lemma_in_first(a4, p[5], n);
    lemma_in_first(a5, p[6], n);
}

spec fn note_parts(db: JsonView, submitted: JsonView, ref_data: EditRefData) -> Seq<
    Seq<AnnotationView>,
> {
    seq![
        review_diff::all_changed_to(review_diff::kept_fields(), db, submitted, ref_data),
        review_diff::all_changed_from(review_diff::replaced_fields(), db, submitted),
        review_diff::set_notes(
            "regions"@,
            review_diff::region_names(review_diff::gained(submitted, db, "regions"@), ref_data),
            review_diff::region_names(review_diff::gained(db, submitted, "regions"@), ref_data),
        ),
        review_diff::set_notes(
            "languages"@,
            review_diff::language_names(review_diff::gained(submitted, db, "languages"@), ref_data),
            review_diff::language_names(review_diff::gained(db, submitted, "languages"@), ref_data),
        ),
        review_diff::plain_set_notes(db, submitted, "serial"@),
        review_diff::plain_set_notes(db, submitted, "edition"@),
        review_diff::plain_set_notes(db, submitted, "barcode"@),
    ]
}

/// A field that changed is noted: one that shows what is stored with the submitted value, one
/// that shows what was submitted with the stored value, or that there is none.
pub proof fn law_changes_are_noted(
    db: JsonView,
    submitted: JsonView,
    ref_data: EditRefData,
    i: int,
)
    ensures
        0 <= i < review_diff::kept_fields().len() && review_values::value_changed(
            json::field(db, review_diff::kept_fields()[i]),
            json::field(submitted, review_diff::kept_fields()[i]),
        ) ==> review_diff::review_notes(db, submitted, ref_data).contains(
            (AnnotationView {
                field: review_diff::kept_fields()[i],
                label: "Changed to"@,
                kind: "added"@,
                values: seq![
                    review_values::shown_or_empty(
                        review_diff::named_value(review_diff::kept_fields()[i], json::field(submitted, review_diff::kept_fields()[i]), ref_data),
                    ),
                ],
            }),
        ),
        0 <= i < review_diff::replaced_fields().len() && review_values::value_changed(
            json::field(db, review_diff::replaced_fields()[i]),
            json::field(submitted, review_diff::replaced_fields()[i]),
        ) ==> review_diff::review_notes(db, submitted, ref_data).contains(
            (AnnotationView {
                field: review_diff::replaced_fields()[i],
                label: "Changed from"@,
                kind: "removed"@,
                values: seq![review_values::shown_or_empty(review_values::display_value(json::field(db, review_diff::replaced_fields()[i])))],
            }),
        ),
{
    let all = review_diff::review_notes(db, submitted, ref_data);
    let p = note_parts(db, submitted, ref_data);
    assert(all == p[0] + p[1] + p[2] + p[3] + p[4] + p[5] + p[6]);
    if 0 <= i < review_diff::kept_fields().len() {
        let f = review_diff::kept_fields()[i];
        if review_values::value_changed(json::field(db, f), json::field(submitted, f)) {
            let n = AnnotationView {
                field: f,
                label: "Changed to"@,
                kind: "added"@,
                values: seq![review_values::shown_or_empty(review_diff::named_value(f, json::field(submitted, f), ref_data))],
            };
            assert(review_diff::changed_to(f, db, submitted, ref_data)[0] == n);
            lemma_noted_to(review_diff::kept_fields(), db, submitted, ref_data, i, n);
            lemma_parts(p, all, 0, n);
        }
    }
    if 0 <= i < review_diff::replaced_fields().len() {
        let f = review_diff::replaced_fields()[i];
        if review_values::value_changed(json::field(db, f), json::field(submitted, f)) {
            let n = AnnotationView {
                field: f,
                label: "Changed from"@,
                kind: "removed"@,
                values: seq![review_values::shown_or_empty(review_values::display_value(json::field(db, f)))],
            };
            assert(review_diff::changed_from(f, db, submitted)[0] == n);
            lemma_noted_from(review_diff::replaced_fields(), db, submitted, i, n);
            lemma_parts(p, all, 1, n);
        }
    }
}

/// Some note of a field and kind has a value.
pub open spec fn notes_value(
    ns: Seq<AnnotationView>,
    name: Seq<char>,
    kind: Seq<char>,
    v: Seq<char>,
) -> bool {
    exists|i: int|
        0 <= i < ns.len() && (#[trigger] ns[i]).field == name && ns[i].kind == kind
            && ns[i].values.contains(v)
}

proof fn lemma_gained(db: JsonView, submitted: JsonView, key: Seq<char>, v: Seq<char>)
    ensures
        review_diff::gained(db, submitted, key).contains(v) <==> json::list_texts(
            json::list_or_empty(json::field(submitted, key)),
        ).contains(v) && !json::list_texts(json::list_or_empty(json::field(db, key))).contains(v),
{
    let a = json::list_texts(json::list_or_empty(json::field(submitted, key)));
    let b = json::list_texts(json::list_or_empty(json::field(db, key)));
    let g = review_values::not_among(a, b);
    review_values::law_gained_values(b, a, v);
    let ks = g.map_values(|s: Seq<char>| KeyView { rank: 0, texts: seq![unicode::lowercase(s)], last: 0 });
    order::law_stable_order(ks);
    let o = order::stable_order(ks);
    let r = review_values::by_small_form(g);
    if g.contains(v) {
        let i = choose|i: int| 0 <= i < g.len() && g[i] == v;
        assert(o.contains(i));
        let j = choose|j: int| 0 <= j < o.len() && o[j] == i;
        assert(r[j] == v);
    }
    if r.contains(v) {
        let j = choose|j: int| 0 <= j < r.len() && r[j] == v;
        assert(g[o[j]] == v);
    }
}

proof fn lemma_set_notes(
    name: Seq<char>,
    removed: Seq<Seq<char>>,
    added: Seq<Seq<char>>,
    v: Seq<char>,
    all: Seq<AnnotationView>,
    p: Seq<Seq<AnnotationView>>,
    i: int,
)
    requires
        p.len() == 7,
        all == p[0] + p[1] + p[2] + p[3] + p[4] + p[5] + p[6],
        0 <= i < 7,
        p[i] == review_diff::set_notes(name, removed, added),
    ensures
        added.contains(v) ==> notes_value(all, name, "added"@, v),
        removed.contains(v) ==> notes_value(all, name, "removed"@, v),
{
    let s = review_diff::set_notes(name, removed, added);
    let r = review_diff::note(name, "Removed"@, "removed"@, removed);
    let a = review_diff::note(name, "Added"@, "added"@, added);
    if added.contains(v) {
        let n = AnnotationView { field: name, label: "Added"@, kind: "added"@, values: added };
        assert(a[0] == n);
        lemma_in_first(r, a, n);
        lemma_parts(p, all, i, n);
        let k = choose|k: int| 0 <= k < all.len() && all[k] == n;
        assert(all[k].values.contains(v));
    }
    if removed.contains(v) {
        let n = AnnotationView {
            field: name,
            label: "Removed"@,
            kind: "removed"@,
            values: removed,
        };
        assert(r[0] == n);
        lemma_in_first(r, a, n);
        lemma_parts(p, all, i, n);
        let k = choose|k: int| 0 <= k < all.len() && all[k] == n;
        assert(all[k].values.contains(v));
    }
}

/// A value that a set of serials, editions or barcodes gained is noted as added, one that it
/// lost as removed.
pub proof fn law_set_changes_are_noted(
    db: JsonView,
    submitted: JsonView,
    ref_data: EditRefData,
    key: Seq<char>,
    v: Seq<char>,
)
    requires
        key == "serial"@ || key == "edition"@ || key == "barcode"@,
    ensures
        ({
            let a = json::list_texts(json::list_or_empty(json::field(db, key)));
            let b = json::list_texts(json::list_or_empty(json::field(submitted, key)));
            let ns = review_diff::review_notes(db, submitted, ref_data);
            &&& b.contains(v) && !a.contains(v) ==> notes_value(ns, key, "added"@, v)
            &&& a.contains(v) && !b.contains(v) ==> notes_value(ns, key, "removed"@, v)
        }),
{
    let all = review_diff::review_notes(db, submitted, ref_data);
    let p = note_parts(db, submitted, ref_data);
    assert(all == p[0] + p[1] + p[2] + p[3] + p[4] + p[5] + p[6]);
    lemma_gained(db, submitted, key, v);
    lemma_gained(submitted, db, key, v);
    let i: int = if key == "serial"@ {
        4
    } else if key == "edition"@ {
        5
    } else {
        6
    };
    lemma_set_notes(key, review_diff::gained(submitted, db, key), review_diff::gained(db, submitted, key), v, all, p, i);
}

proof fn lemma_named(v: Seq<Seq<char>>, name: spec_fn(Seq<char>) -> Seq<char>, c: Seq<char>)
    requires
        v.contains(c),
    ensures
        v.map_values(name).contains(name(c)),
{
    let k = choose|k: int| 0 <= k < v.len() && v[k] == c;
    assert(v.map_values(name)[k] == name(c));
}

/// A region or a language that was added or removed is noted by its name.
pub proof fn law_named_changes_are_noted(
    db: JsonView,
    submitted: JsonView,
    ref_data: EditRefData,
    c: Seq<char>,
)
    ensures
        ({
            let a = json::list_texts(json::list_or_empty(json::field(db, "regions"@)));
            let b = json::list_texts(json::list_or_empty(json::field(submitted, "regions"@)));
            let ns = review_diff::review_notes(db, submitted, ref_data);
            let name = review_diff::region_name(ref_data.all_regions@, c, 0);
            &&& b.contains(c) && !a.contains(c) ==> notes_value(ns, "regions"@, "added"@, name)
            &&& a.contains(c) && !b.contains(c) ==> notes_value(ns, "regions"@, "removed"@, name)
        }),
        ({
            let a = json::list_texts(json::list_or_empty(json::field(db, "languages"@)));
            let b = json::list_texts(json::list_or_empty(json::field(submitted, "languages"@)));
            let ns = review_diff::review_notes(db, submitted, ref_data);
            let name = review_diff::language_name(ref_data.all_languages@, c, 0);
            &&& b.contains(c) && !a.contains(c) ==> notes_value(ns, "languages"@, "added"@, name)
            &&& a.contains(c) && !b.contains(c) ==> notes_value(ns, "languages"@, "removed"@, name)
        }),
{
    let all = review_diff::review_notes(db, submitted, ref_data);
    let p = note_parts(db, submitted, ref_data);
    assert(all == p[0] + p[1] + p[2] + p[3] + p[4] + p[5] + p[6]);
    let region = |c: Seq<char>| review_diff::region_name(ref_data.all_regions@, c, 0);
    let language = |c: Seq<char>| review_diff::language_name(ref_data.all_languages@, c, 0);
    lemma_gained(db, submitted, "regions"@, c);
    lemma_gained(submitted, db, "regions"@, c);
    lemma_gained(db, submitted, "languages"@, c);
    lemma_gained(submitted, db, "languages"@, c);
    let r0 = review_diff::gained(submitted, db, "regions"@);
    let r1 = review_diff::gained(db, submitted, "regions"@);
    let l0 = review_diff::gained(submitted, db, "languages"@);
    let l1 = review_diff::gained(db, submitted, "languages"@);
    if r0.contains(c) {
        lemma_named(r0, region, c);
    }
    if r1.contains(c) {
        lemma_named(r1, region, c);
    }
    if l0.contains(c) {
        lemma_named(l0, language, c);
    }
    if l1.contains(c) {
        lemma_named(l1, language, c);
    }
    lemma_set_notes(
        "regions"@,
        review_diff::region_names(r0, ref_data),
        review_diff::region_names(r1, ref_data),
        region(c),
        all,
        p,
        2,
    );
    lemma_set_notes(
        "languages"@,
        review_diff::language_names(l0, ref_data),
        review_diff::language_names(l1, ref_data),
        language(c),
        all,
        p,
        3,
    );
}

/// A code is shown by the name of the first region or language that has it, whatever space
/// stands around it; one that nothing has is shown as it is.
pub proof fn law_codes_are_shown_by_name(
    regions: Seq<Region>,
    languages: Seq<Language>,
    c: Seq<char>,
    k: int,
)
    ensures
        0 <= k < regions.len() && text::trim(regions[k].code@) == text::trim(c) && (forall|j: int|
            0 <= j < k ==> text::trim((#[trigger] regions[j]).code@) != text::trim(c)) ==> review_diff::region_name(
            regions,
            c,
            0,
        ) == regions[k].name@,
        (forall|j: int| 0 <= j < regions.len() ==> text::trim((#[trigger] regions[j]).code@) != text::trim(c))
            ==> review_diff::region_name(regions, c, 0) == c,
        0 <= k < languages.len() && text::trim(languages[k].code@) == text::trim(c) && (forall|j: int|
            0 <= j < k ==> text::trim((#[trigger] languages[j]).code@) != text::trim(c)) ==> review_diff::language_name(
            languages,
            c,
            0,
        ) == languages[k].name@,
        (forall|j: int|
            0 <= j < languages.len() ==> text::trim((#[trigger] languages[j]).code@) != text::trim(c))
            ==> review_diff::language_name(languages, c, 0) == c,
{
    lemma_region_name(regions, c, 0);
    lemma_language_name(languages, c, 0);
}

proof fn lemma_region_name(v: Seq<Region>, c: Seq<char>, i: int)
    requires
        0 <= i,
    ensures
        (forall|j: int| i <= j < v.len() ==> text::trim((#[trigger] v[j]).code@) != text::trim(c))
            ==> review_diff::region_name(v, c, i) == c,
        forall|k: int|
            i <= k < v.len() && text::trim((#[trigger] v[k]).code@) == text::trim(c) && (forall|j: int|
                i <= j < k ==> text::trim((#[trigger] v[j]).code@) != text::trim(c)) ==> review_diff::region_name(v, c, i)
                == v[k].name@,
    decreases v.len() - i,
{
    if i < v.len() && text::trim(v[i].code@) != text::trim(c) {
        lemma_region_name(v, c, i + 1);
    }
}

proof fn lemma_language_name(v: Seq<Language>, c: Seq<char>, i: int)
    requires
        0 <= i,
    ensures
        (forall|j: int| i <= j < v.len() ==> text::trim((#[trigger] v[j]).code@) != text::trim(c))
            ==> review_diff::language_name(v, c, i) == c,
        forall|k: int|
            i <= k < v.len() && text::trim((#[trigger] v[k]).code@) == text::trim(c) && (forall|j: int|
                i <= j < k ==> text::trim((#[trigger] v[j]).code@) != text::trim(c)) ==> review_diff::language_name(v, c, i)
                == v[k].name@,
    decreases v.len() - i,
{
    if i < v.len() && text::trim(v[i].code@) != text::trim(c) {
        lemma_language_name(v, c, i + 1);
    }
}

/// Every field that is compared as one value is noted or shown with its lines, but for the
/// comments, which are put together, and the two that a form shows as a choice.
pub proof fn law_every_change_is_shown(f: Seq<char>)
    requires
        highlights::simple_fields().contains(f),
    ensures
        review_diff::kept_fields().contains(f) || review_diff::replaced_fields().contains(f) || review_diff::multiline_fields().contains(f)
            || f == "comments"@ || f == "edc"@ || f == "status"@,
{
    let k = review_diff::kept_fields();
    let r = review_diff::replaced_fields();
    let m = review_diff::multiline_fields();
    assert(k[0] == "system_code"@ && k[1] == "media_type"@ && k[2] == "category"@ && k[3]
        == "title"@ && k[4] == "title_foreign"@ && k[5] == "disc_number"@ && k[6] == "disc_title"@
        && k[7] == "filename_suffix"@);
    assert(r[0] == "version"@ && r[1] == "error_count"@ && r[2] == "exe_date"@ && r[3]
        == "disc_id"@ && r[4] == "disc_key"@ && r[5] == "universal_hash"@);
    assert(m[0] == "contents"@ && m[1] == "protection"@ && m[2] == "sector_ranges"@ && m[3]
        == "sbi"@ && m[4] == "pvd"@ && m[5] == "header"@ && m[6] == "bca"@ && m[7] == "pic"@ && m[8]
        == "cuesheet"@ && m[9] == "dat"@);
}

/// A field of several lines that changed is shown with its stored value.
pub proof fn law_stored_lines_are_shown(db: JsonView, submitted: JsonView, i: int)
    requires
        0 <= i < review_diff::multiline_fields().len(),
        review_values::value_changed(
            json::field(db, review_diff::multiline_fields()[i]),
            json::field(submitted, review_diff::multiline_fields()[i]),
        ),
    ensures
        review_diff::stored_multiline(review_diff::multiline_fields(), db, submitted).contains(
            (
                review_values::form_field(review_diff::multiline_fields()[i]),
                review_values::multiline_value(review_diff::multiline_fields()[i], json::field(db, review_diff::multiline_fields()[i])),
            ),
        ),
{
    lemma_stored_lines(review_diff::multiline_fields(), db, submitted, i);
}

proof fn lemma_stored_lines(names: Seq<Seq<char>>, db: JsonView, submitted: JsonView, i: int)
    requires
        0 <= i < names.len(),
        review_values::value_changed(json::field(db, names[i]), json::field(submitted, names[i])),
    ensures
        review_diff::stored_multiline(names, db, submitted).contains(
            (review_values::form_field(names[i]), review_values::multiline_value(names[i], json::field(db, names[i]))),
        ),
    decreases names.len(),
{
    let front = names.drop_last();
    let all = review_diff::stored_multiline(names, db, submitted);
    let x = (review_values::form_field(names[i]), review_values::multiline_value(names[i], json::field(db, names[i])));
    if i == names.len() - 1 {
        assert(all.last() == x);
    } else {
        assert(front[i] == names[i]);
        lemma_stored_lines(front, db, submitted, i);
        let before = review_diff::stored_multiline(front, db, submitted);
        let k = choose|k: int| 0 <= k < before.len() && before[k] == x;
        assert(all[k] == x);
    }
}

// ── The first page ─────────────────────────────────────────────────────────

/// What a field shows on the first page of a review: the stored value where it changed, else
/// what the page had.
pub open spec fn shows_stored(
    after: Seq<char>,
    before: Seq<char>,
    db: JsonView,
    submitted: JsonView,
    key: Seq<char>,
) -> bool {
    after == (if review_values::value_changed(json::field(db, key), json::field(submitted, key)) {
        review_values::display_value(json::field(db, key))
    } else {
        before
    })
}

/// The first page of a review shows the stored value of each field of the name that changed,
/// and the stored and the submitted comments together.
pub proof fn law_first_page(
    t: TemplateView,
    submitted: JsonView,
    db: JsonView,
    ref_data: EditRefData,
)
    ensures
        ({
            let p = review_diff::with_diff(t, submitted, db, ref_data, true);
            &&& shows_stored(p.system_code, t.system_code, db, submitted, "system_code"@)
            &&& shows_stored(p.media_type_code, t.media_type_code, db, submitted, "media_type"@)
            &&& shows_stored(p.title, t.title, db, submitted, "title"@)
            &&& shows_stored(p.title_foreign, t.title_foreign, db, submitted, "title_foreign"@)
            &&& shows_stored(p.disc_number, t.disc_number, db, submitted, "disc_number"@)
            &&& shows_stored(p.disc_title, t.disc_title, db, submitted, "disc_title"@)
            &&& shows_stored(
                p.filename_suffix,
                t.filename_suffix,
                db,
                submitted,
                "filename_suffix"@,
            )
            &&& review_values::value_changed(json::field(db, "comments"@), json::field(submitted, "comments"@))
                ==> p.comments == review_values::review_comments(
                json::field(db, "comments"@),
                json::field(submitted, "comments"@),
            )
            &&& !review_values::value_changed(json::field(db, "comments"@), json::field(submitted, "comments"@))
                ==> p.comments == t.comments
            &&& p.version == t.version
            &&& p.contents == t.contents
            &&& p.review_annotations == review_diff::review_notes(db, submitted, ref_data)
        }),
{
    reveal(review_diff::with_notes);
    reveal(review_diff::with_stored_system);
    reveal(review_diff::with_stored_media);
    reveal(review_diff::with_stored_texts);
}

// ── Marks and choices ──────────────────────────────────────────────────────

/// The marks of a review go to the entries of their own list.
pub proof fn law_marks_go_to_their_lists(t: TemplateView, h: HighlightsView, i: int)
    ensures
        0 <= i < t.regions.len() ==> review_diff::with_marks(t, h).regions[i].highlight == (match highlights::mark_of(
            h.regions,
            t.regions[i].value,
        ) {
            Some(kind) => kind,
            None => t.regions[i].highlight,
        }) && review_diff::with_marks(t, h).regions[i].checked == t.regions[i].checked,
        0 <= i < t.languages.len() ==> review_diff::with_marks(t, h).languages[i].highlight == (match highlights::mark_of(
            h.languages,
            t.languages[i].value,
        ) {
            Some(kind) => kind,
            None => t.languages[i].highlight,
        }) && review_diff::with_marks(t, h).languages[i].checked == t.languages[i].checked,
        0 <= i < t.serials.len() ==> review_diff::with_marks(t, h).serials[i].1 == (match highlights::mark_of(
            h.serials,
            t.serials[i].0,
        ) {
            Some(kind) => kind,
            None => t.serials[i].1,
        }),
        0 <= i < t.editions.len() ==> review_diff::with_marks(t, h).editions[i].1 == (match highlights::mark_of(
            h.editions,
            t.editions[i].0,
        ) {
            Some(kind) => kind,
            None => t.editions[i].1,
        }),
        0 <= i < t.barcodes.len() ==> review_diff::with_marks(t, h).barcodes[i].1 == (match highlights::mark_of(
            h.barcodes,
            t.barcodes[i].0,
        ) {
            Some(kind) => kind,
            None => t.barcodes[i].1,
        }),
        review_diff::with_marks(t, h).changed_fields == h.changed_fields,
        review_diff::with_marks(t, h).ring_highlights_json == h.rings,
{
}

/// A list of choices has an entry for each that there is, in their order, and chooses
/// exactly those that have the code.
pub proof fn law_choices(
    systems: Seq<System>,
    media: Seq<EditMediaTypeRow>,
    categories: Seq<CategoryRow>,
    code: Seq<char>,
    i: int,
)
    ensures
        disc_edit::system_choices(systems, code).len() == systems.len(),
        disc_edit::media_choices(media, code).len() == media.len(),
        disc_edit::category_choices(categories, code).len() == categories.len(),
        0 <= i < systems.len() ==> {
            let c = disc_edit::system_choices(systems, code)[i];
            c.code == systems[i].code@ && (c.selected <==> systems[i].code@ == code)
        },
        0 <= i < media.len() ==> {
            let c = disc_edit::media_choices(media, code)[i];
            c.code == media[i].code@ && c.name == media[i].name@ && (c.selected <==> media[i].code@
                == code)
        },
        0 <= i < categories.len() ==> {
            let c = disc_edit::category_choices(categories, code)[i];
            c.0 == categories[i].name@ && (c.1 <==> categories[i].name@ == code)
        },
{
}

/// A region or a language is chosen exactly if its code is among the chosen ones, whatever
/// space stands around the codes.
pub proof fn law_checks(
    regions: Seq<Region>,
    languages: Seq<Language>,
    codes: Seq<Seq<char>>,
    i: int,
)
    ensures
        0 <= i < regions.len() ==> {
            let c = disc_edit::region_checks(regions, codes)[i];
            &&& c.label == regions[i].name@
            &&& c.value == text::trim(regions[i].code@)
            &&& c.checked <==> exists|k: int|
                0 <= k < codes.len() && text::trim(#[trigger] codes[k]) == text::trim(regions[i].code@)
        },
        0 <= i < languages.len() ==> {
            let c = disc_edit::language_checks(languages, codes)[i];
            &&& c.label == languages[i].name@
            &&& c.value == text::trim(languages[i].code@)
            &&& c.checked <==> exists|k: int|
                0 <= k < codes.len() && text::trim(#[trigger] codes[k]) == text::trim(languages[i].code@)
        },
{
}

/// What a kind of media has is that of the first row with its code.
pub proof fn law_media_rows(v: Seq<EditMediaTypeRow>, code: Seq<char>, k: int)
    ensures
        0 <= k < v.len() && v[k].code@ == code && (forall|j: int|
            0 <= j < k ==> (#[trigger] v[j]).code@ != code) ==> {
            &&& disc_edit::layers_of_media(v, code) == v[k].layer_count
            &&& disc_edit::media_has_pic(v, code) == v[k].pic
            &&& disc_edit::media_is_cd(v, code) <==> text::lower_text(v[k].rom_extension@) == "bin"@
        },
        (forall|j: int| 0 <= j < v.len() ==> (#[trigger] v[j]).code@ != code) ==> {
            &&& disc_edit::layers_of_media(v, code) == 1
            &&& !disc_edit::media_has_pic(v, code)
            &&& !disc_edit::media_is_cd(v, code)
        },
{
    reveal_strlit("bin");
    assert(text::lower_text("bin"@) =~= "bin"@);
    lemma_media_from(v, code, 0);
}

proof fn lemma_media_from(v: Seq<EditMediaTypeRow>, code: Seq<char>, i: int)
    requires
        0 <= i,
    ensures
        match disc_edit::media_from(v, code, i) {
            Some(k) => i <= k < v.len() && v[k].code@ == code && forall|j: int|
                i <= j < k ==> (#[trigger] v[j]).code@ != code,
            None => forall|j: int| i <= j < v.len() ==> (#[trigger] v[j]).code@ != code,
        },
    decreases v.len() - i,
{
    if i < v.len() && v[i].code@ != code {
        lemma_media_from(v, code, i + 1);
    }
}

} // verus!
