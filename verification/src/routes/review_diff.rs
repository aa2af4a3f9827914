//! What a review page says of the difference between a disc and a submission.

use vstd::prelude::*;

use crate::json::{self, Json, JsonView};
use crate::models::{Language, Region};
use crate::routes::disc_edit::{
    self, AnnotationView, CheckOption, CheckView, DiscEditTemplate, EditRefData, HighlightedValue,
    ReviewAnnotation, ReviewOldMultiline, TemplateView, build_category_options, build_media_options,
    build_system_options, find_media, find_system, is_cd_media, is_pic_media, max_layers_for_media,
};
use crate::routes::highlights::{self, FieldHighlights, HighlightsView, Mark};
use crate::routes::review_template::{self, ShownFields, read_fields_of};
use crate::routes::review_values::{
    self, array_strings, compose_review_comments, multiline_display_value, or_empty,
    review_annotation_value, review_display_value, review_value_changed, set_added_removed,
    template_field_name,
};
use crate::text::{self, str_eq, str_trim};

verus! {

/// The notes of a review, and the stored values of fields with several lines.
#[derive(Debug)]
pub struct ReviewDiffContext {
    pub annotations: Vec<ReviewAnnotation>,
    pub old_multiline: Vec<ReviewOldMultiline>,
}

// ── Names for codes ────────────────────────────────────────────────────────

/// The name of the first region from `i` on with a code, or the code.
pub open spec fn region_name(v: Seq<Region>, code: Seq<char>, i: int) -> Seq<char>
    decreases v.len() - i,
{
    if i < 0 || i >= v.len() {
        code
    } else if text::trim(v[i].code@) == text::trim(code) {
        v[i].name@
    } else {
        region_name(v, code, i + 1)
    }
}

/// The name of a region, or its code.
pub fn display_region(ref_data: &EditRefData, code: &str) -> (r: String)
    ensures
        r@ == region_name(ref_data.all_regions@, code@, 0),
{
    let wanted = str_trim(code);
    let v = &ref_data.all_regions;
    for i in 0..v.len()
        invariant
            wanted@ == text::trim(code@),
            v == ref_data.all_regions,
            region_name(v@, code@, i as int) == region_name(v@, code@, 0),
    {
        if str_eq(str_trim(v[i].code.as_str()).as_str(), wanted.as_str()) {
            return v[i].name.clone();
        }
    }
    String::from_str(code)
}

/// The name of the first language from `i` on with a code, or the code.
pub open spec fn language_name(v: Seq<Language>, code: Seq<char>, i: int) -> Seq<char>
    decreases v.len() - i,
{
    if i < 0 || i >= v.len() {
        code
    } else if text::trim(v[i].code@) == text::trim(code) {
        v[i].name@
    } else {
        language_name(v, code, i + 1)
    }
}

/// The name of a language, or its code.
pub fn display_language(ref_data: &EditRefData, code: &str) -> (r: String)
    ensures
        r@ == language_name(ref_data.all_languages@, code@, 0),
{
    let wanted = str_trim(code);
    let v = &ref_data.all_languages;
    for i in 0..v.len()
        invariant
            wanted@ == text::trim(code@),
            v == ref_data.all_languages,
            language_name(v@, code@, i as int) == language_name(v@, code@, 0),
    {
        if str_eq(str_trim(v[i].code.as_str()).as_str(), wanted.as_str()) {
            return v[i].name.clone();
        }
    }
    String::from_str(code)
}

/// The name of the system with a code, or the code.
pub open spec fn system_label(ref_data: EditRefData, code: Seq<char>) -> Seq<char> {
    match disc_edit::system_from(ref_data.all_systems@, code, 0) {
        Some(i) => ref_data.all_systems@[i].full_name(),
        None => code,
    }
}

/// The name of a system, or its code.
pub fn display_system(ref_data: &EditRefData, code: &str) -> (r: String)
    ensures
        r@ == system_label(*ref_data, code@),
{
    match find_system(&ref_data.all_systems, code) {
        Some(i) => ref_data.all_systems[i].system_name(),
        None => String::from_str(code),
    }
}

/// The name of the kind of media with a code, or the code.
pub open spec fn media_label(ref_data: EditRefData, code: Seq<char>) -> Seq<char> {
    match disc_edit::media_from(ref_data.all_media_types@, code, 0) {
        Some(i) => ref_data.all_media_types@[i].name@,
        None => code,
    }
}

/// The name of a kind of media, or its code.
pub fn display_media(ref_data: &EditRefData, code: &str) -> (r: String)
    ensures
        r@ == media_label(*ref_data, code@),
{
    match find_media(&ref_data.all_media_types, code) {
        Some(i) => ref_data.all_media_types[i].name.clone(),
        None => String::from_str(code),
    }
}

/// A value as text, systems and kinds of media by their names.
pub open spec fn named_value(name: Seq<char>, v: JsonView, ref_data: EditRefData) -> Seq<char> {
    if name == "system_code"@ {
        match json::as_text(v) {
            Some(code) => system_label(ref_data, code),
            None => Seq::empty(),
        }
    } else if name == "media_type"@ {
        match json::as_text(v) {
            Some(code) => media_label(ref_data, code),
            None => Seq::empty(),
        }
    } else {
        review_values::display_value(v)
    }
}

/// A value as text, systems and kinds of media by their names.
pub fn review_named_value(field: &str, value: &Json, ref_data: &EditRefData) -> (r: String)
    ensures
        r@ == named_value(field@, value@, *ref_data),
{
    if str_eq(field, "system_code") {
        match value.as_str() {
            Some(code) => display_system(ref_data, code),
            None => String::new(),
        }
    } else if str_eq(field, "media_type") {
        match value.as_str() {
            Some(code) => display_media(ref_data, code),
            None => String::new(),
        }
    } else {
        review_display_value(value)
    }
}

// ── Notes ──────────────────────────────────────────────────────────────────

/// A note with values; without values there is none.
pub open spec fn note(
    name: Seq<char>,
    label: Seq<char>,
    kind: Seq<char>,
    values: Seq<Seq<char>>,
) -> Seq<AnnotationView> {
    if values.len() == 0 {
        Seq::empty()
    } else {
        seq![AnnotationView { field: name, label, kind, values }]
    }
}

/// Adds a note, if it has values.
pub fn add_annotation(
    out: &mut Vec<ReviewAnnotation>,
    field: &str,
    label: &str,
    kind: &str,
    values: Vec<String>,
)
    ensures
        disc_edit::annotation_views(final(out)@) == disc_edit::annotation_views(old(out)@) + note(
            field@,
            label@,
            kind@,
            text::texts(values@),
        ),
{
    let ghost before = out@;
    if values.len() == 0 {
        assert(disc_edit::annotation_views(out@) =~= disc_edit::annotation_views(before) + Seq::empty());
        return;
    }
    let a = ReviewAnnotation {
        field: String::from_str(field),
        label: String::from_str(label),
        kind: String::from_str(kind),
        values,
    };
    out.push(a);
    assert(disc_edit::annotation_views(out@) =~= disc_edit::annotation_views(before) + note(
        field@,
        label@,
        kind@,
        text::texts(values@),
    ));
}

fn add_single_annotation(
    out: &mut Vec<ReviewAnnotation>,
    field: &str,
    label: &str,
    kind: &str,
    value: String,
)
    ensures
        disc_edit::annotation_views(final(out)@) == disc_edit::annotation_views(old(out)@) + note(
            field@,
            label@,
            kind@,
            seq![value@],
        ),
{
    let mut values: Vec<String> = Vec::new();
    values.push(value);
    assert(text::texts(values@) =~= seq![value@]);
    add_annotation(out, field, label, kind, values);
}

/// The note of a field that shows the stored value and notes the submitted one.
pub open spec fn changed_to(
    name: Seq<char>,
    db: JsonView,
    submitted: JsonView,
    ref_data: EditRefData,
) -> Seq<AnnotationView> {
    if review_values::value_changed(json::field(db, name), json::field(submitted, name)) {
        note(
            name,
            "Changed to"@,
            "added"@,
            seq![review_values::shown_or_empty(named_value(name, json::field(submitted, name), ref_data))],
        )
    } else {
        Seq::empty()
    }
}

/// The notes of fields that show the stored value.
pub open spec fn all_changed_to(
    names: Seq<Seq<char>>,
    db: JsonView,
    submitted: JsonView,
    ref_data: EditRefData,
) -> Seq<AnnotationView>
    decreases names.len(),
{
    if names.len() == 0 {
        Seq::empty()
    } else {
        all_changed_to(names.drop_last(), db, submitted, ref_data) + changed_to(
            names.last(),
            db,
            submitted,
            ref_data,
        )
    }
}

/// The note of a field that shows the submitted value and notes the stored one.
pub open spec fn changed_from(name: Seq<char>, db: JsonView, submitted: JsonView) -> Seq<
    AnnotationView,
> {
    if review_values::value_changed(json::field(db, name), json::field(submitted, name)) {
        note(
            name,
            "Changed from"@,
            "removed"@,
            seq![review_values::shown_or_empty(review_values::display_value(json::field(db, name)))],
        )
    } else {
        Seq::empty()
    }
}

/// The notes of fields that show the submitted value.
pub open spec fn all_changed_from(
    names: Seq<Seq<char>>,
    db: JsonView,
    submitted: JsonView,
) -> Seq<AnnotationView>
    decreases names.len(),
{
    if names.len() == 0 {
        Seq::empty()
    } else {
        all_changed_from(names.drop_last(), db, submitted) + changed_from(
            names.last(),
            db,
            submitted,
        )
    }
}

/// The fields of which a review shows the stored value.
pub open spec fn kept_fields() -> Seq<Seq<char>> {
    seq![
        "system_code"@,
        "media_type"@,
        "category"@,
        "title"@,
        "title_foreign"@,
        "disc_number"@,
        "disc_title"@,
        "filename_suffix"@,
    ]
}

/// The fields of which a review shows the submitted value and notes the stored one.
pub open spec fn replaced_fields() -> Seq<Seq<char>> {
    seq![
        "version"@,
        "error_count"@,
        "exe_date"@,
        "disc_id"@,
        "disc_key"@,
        "universal_hash"@,
        "layerbreaks"@,
    ]
}

/// The fields with several lines.
pub open spec fn multiline_fields() -> Seq<Seq<char>> {
    seq![
        "contents"@,
        "protection"@,
        "sector_ranges"@,
        "sbi"@,
        "pvd"@,
        "header"@,
        "bca"@,
        "pic"@,
        "cuesheet"@,
        "dat"@,
    ]
}

/// What a set of a snapshot gained, in order.
pub open spec fn gained(db: JsonView, submitted: JsonView, name: Seq<char>) -> Seq<Seq<char>> {
    review_values::by_small_form(
        review_values::not_among(
            json::list_texts(json::list_or_empty(json::field(submitted, name))),
            json::list_texts(json::list_or_empty(json::field(db, name))),
        ),
    )
}

/// The notes of a set.
pub open spec fn set_notes(name: Seq<char>, removed: Seq<Seq<char>>, added: Seq<Seq<char>>) -> Seq<
    AnnotationView,
> {
    note(name, "Removed"@, "removed"@, removed) + note(name, "Added"@, "added"@, added)
}

/// The notes of a set whose values are shown as they are.
pub open spec fn plain_set_notes(db: JsonView, submitted: JsonView, name: Seq<char>) -> Seq<
    AnnotationView,
> {
    set_notes(name, gained(submitted, db, name), gained(db, submitted, name))
}

/// The names of regions.
pub open spec fn region_names(v: Seq<Seq<char>>, ref_data: EditRefData) -> Seq<Seq<char>> {
    v.map_values(|c: Seq<char>| region_name(ref_data.all_regions@, c, 0))
}

/// The names of languages.
pub open spec fn language_names(v: Seq<Seq<char>>, ref_data: EditRefData) -> Seq<Seq<char>> {
    v.map_values(|c: Seq<char>| language_name(ref_data.all_languages@, c, 0))
}

/// The notes of a review.
pub open spec fn review_notes(db: JsonView, submitted: JsonView, ref_data: EditRefData) -> Seq<
    AnnotationView,
> {
    all_changed_to(kept_fields(), db, submitted, ref_data) + all_changed_from(
        replaced_fields(),
        db,
        submitted,
    ) + set_notes(
        "regions"@,
        region_names(gained(submitted, db, "regions"@), ref_data),
        region_names(gained(db, submitted, "regions"@), ref_data),
    ) + set_notes(
        "languages"@,
        language_names(gained(submitted, db, "languages"@), ref_data),
        language_names(gained(db, submitted, "languages"@), ref_data),
    ) + plain_set_notes(db, submitted, "serial"@) + plain_set_notes(db, submitted, "edition"@)
        + plain_set_notes(db, submitted, "barcode"@)
}

/// The stored values of fields with several lines that changed.
pub open spec fn stored_multiline(names: Seq<Seq<char>>, db: JsonView, submitted: JsonView) -> Seq<
    (Seq<char>, Seq<char>),
>
    decreases names.len(),
{
    if names.len() == 0 {
        Seq::empty()
    } else {
        let before = stored_multiline(names.drop_last(), db, submitted);
        let f = names.last();
        if review_values::value_changed(json::field(db, f), json::field(submitted, f)) {
            before.push((review_values::form_field(f), review_values::multiline_value(f, json::field(db, f))))
        } else {
            before
        }
    }
}

fn kept_field_names() -> (r: Vec<&'static str>)
    ensures
        highlights::strs(r@) == kept_fields(),
{
    let v: Vec<&'static str> = vec![
        "system_code",
        "media_type",
        "category",
        "title",
        "title_foreign",
        "disc_number",
        "disc_title",
        "filename_suffix",
    ];
    assert(highlights::strs(v@) =~= kept_fields());
    v
}

fn replaced_field_names() -> (r: Vec<&'static str>)
    ensures
        highlights::strs(r@) == replaced_fields(),
{
    let v: Vec<&'static str> = vec![
        "version",
        "error_count",
        "exe_date",
        "disc_id",
        "disc_key",
        "universal_hash",
        "layerbreaks",
    ];
    assert(highlights::strs(v@) =~= replaced_fields());
    v
}

fn multiline_field_names() -> (r: Vec<&'static str>)
    ensures
        highlights::strs(r@) == multiline_fields(),
{
    let v: Vec<&'static str> = vec![
        "contents",
        "protection",
        "sector_ranges",
        "sbi",
        "pvd",
        "header",
        "bca",
        "pic",
        "cuesheet",
        "dat",
    ];
    assert(highlights::strs(v@) =~= multiline_fields());
    v
}

fn note_kept_fields(db: &Json, submitted: &Json, ref_data: &EditRefData) -> (r: Vec<
    ReviewAnnotation,
>)
    ensures
        disc_edit::annotation_views(r@) == all_changed_to(kept_fields(), db@, submitted@, *ref_data),
{
    let names = kept_field_names();
    let ghost all = highlights::strs(names@);
    let mut out: Vec<ReviewAnnotation> = Vec::new();
    assert(all.take(0) =~= Seq::<Seq<char>>::empty());
    assert(disc_edit::annotation_views(out@) =~= Seq::<AnnotationView>::empty());
    for i in 0..names.len()
        invariant
            all == highlights::strs(names@),
            disc_edit::annotation_views(out@) == all_changed_to(
                all.take(i as int),
                db@,
                submitted@,
                *ref_data,
            ),
    {
        proof {
            assert(all.take(i + 1).drop_last() =~= all.take(i as int));
            assert(all.take(i + 1).last() == names@[i as int]@);
        }
        let name = names[i];
        let ghost before = disc_edit::annotation_views(out@);
        if review_value_changed(db.field(name), submitted.field(name)) {
            let shown = or_empty(review_named_value(name, submitted.field(name), ref_data));
            add_single_annotation(&mut out, name, "Changed to", "added", shown);
        } else {
            assert(before =~= before + Seq::empty());
        }
    }
    assert(all.take(all.len() as int) =~= all);
    out
}

fn note_replaced_fields(out: &mut Vec<ReviewAnnotation>, db: &Json, submitted: &Json)
    ensures
        disc_edit::annotation_views(final(out)@) == disc_edit::annotation_views(old(out)@) + all_changed_from(
            replaced_fields(),
            db@,
            submitted@,
        ),
{
    let names = replaced_field_names();
    let ghost all = highlights::strs(names@);
    let ghost start = disc_edit::annotation_views(out@);
    assert(all.take(0) =~= Seq::<Seq<char>>::empty());
    assert(start + Seq::empty() =~= start);
    for i in 0..names.len()
        invariant
            all == highlights::strs(names@),
            disc_edit::annotation_views(out@) == start + all_changed_from(
                all.take(i as int),
                db@,
                submitted@,
            ),
    {
        proof {
            assert(all.take(i + 1).drop_last() =~= all.take(i as int));
            assert(all.take(i + 1).last() == names@[i as int]@);
        }
        let name = names[i];
        let ghost before = all_changed_from(all.take(i as int), db@, submitted@);
        if review_value_changed(db.field(name), submitted.field(name)) {
            let shown = review_annotation_value(db.field(name));
            add_single_annotation(out, name, "Changed from", "removed", shown);
            assert(disc_edit::annotation_views(out@) =~= start + (before + changed_from(
                name@,
                db@,
                submitted@,
            )));
        } else {
            assert(before =~= before + Seq::empty());
        }
    }
    assert(all.take(all.len() as int) =~= all);
}

fn note_set(out: &mut Vec<ReviewAnnotation>, name: &str, removed: Vec<String>, added: Vec<String>)
    ensures
        disc_edit::annotation_views(final(out)@) == disc_edit::annotation_views(old(out)@) + set_notes(
            name@,
            text::texts(removed@),
            text::texts(added@),
        ),
{
    let ghost start = disc_edit::annotation_views(out@);
    add_annotation(out, name, "Removed", "removed", removed);
    add_annotation(out, name, "Added", "added", added);
    assert(disc_edit::annotation_views(out@) =~= start + set_notes(name@, text::texts(removed@), text::texts(added@)));
}

fn note_plain_set(out: &mut Vec<ReviewAnnotation>, db: &Json, submitted: &Json, name: &str)
    ensures
        disc_edit::annotation_views(final(out)@) == disc_edit::annotation_views(old(out)@) + plain_set_notes(
            db@,
            submitted@,
            name@,
        ),
{
    let a = array_strings(db.field(name));
    let b = array_strings(submitted.field(name));
    let (added, removed) = set_added_removed(&a, &b);
    note_set(out, name, removed, added);
}

fn name_regions(codes: Vec<String>, ref_data: &EditRefData) -> (r: Vec<String>)
    ensures
        text::texts(r@) == region_names(text::texts(codes@), *ref_data),
{
    let ghost all = region_names(text::texts(codes@), *ref_data);
    let mut out: Vec<String> = Vec::new();
    assert(text::texts(out@) =~= all.take(0));
    for i in 0..codes.len()
        invariant
            all == region_names(text::texts(codes@), *ref_data),
            text::texts(out@) == all.take(i as int),
    {
        let n = display_region(ref_data, codes[i].as_str());
        let ghost before = out@;
        out.push(n);
        assert(text::texts(out@) =~= text::texts(before).push(all[i as int]));
        assert(all.take(i + 1) =~= all.take(i as int).push(all[i as int]));
    }
    assert(all.take(all.len() as int) =~= all);
    out
}

fn name_languages(codes: Vec<String>, ref_data: &EditRefData) -> (r: Vec<String>)
    ensures
        text::texts(r@) == language_names(text::texts(codes@), *ref_data),
{
    let ghost all = language_names(text::texts(codes@), *ref_data);
    let mut out: Vec<String> = Vec::new();
    assert(text::texts(out@) =~= all.take(0));
    for i in 0..codes.len()
        invariant
            all == language_names(text::texts(codes@), *ref_data),
            text::texts(out@) == all.take(i as int),
    {
        let n = display_language(ref_data, codes[i].as_str());
        let ghost before = out@;
        out.push(n);
        assert(text::texts(out@) =~= text::texts(before).push(all[i as int]));
        assert(all.take(i + 1) =~= all.take(i as int).push(all[i as int]));
    }
    assert(all.take(all.len() as int) =~= all);
    out
}

fn note_regions(out: &mut Vec<ReviewAnnotation>, db: &Json, submitted: &Json, ref_data: &EditRefData)
    ensures
        disc_edit::annotation_views(final(out)@) == disc_edit::annotation_views(old(out)@) + set_notes(
            "regions"@,
            region_names(gained(submitted@, db@, "regions"@), *ref_data),
            region_names(gained(db@, submitted@, "regions"@), *ref_data),
        ),
{
    let a = array_strings(db.field("regions"));
    let b = array_strings(submitted.field("regions"));
    let (added, removed) = set_added_removed(&a, &b);
    note_set(out, "regions", name_regions(removed, ref_data), name_regions(added, ref_data));
}

fn note_languages(
    out: &mut Vec<ReviewAnnotation>,
    db: &Json,
    submitted: &Json,
    ref_data: &EditRefData,
)
    ensures
        disc_edit::annotation_views(final(out)@) == disc_edit::annotation_views(old(out)@) + set_notes(
            "languages"@,
            language_names(gained(submitted@, db@, "languages"@), *ref_data),
            language_names(gained(db@, submitted@, "languages"@), *ref_data),
        ),
{
    let a = array_strings(db.field("languages"));
    let b = array_strings(submitted.field("languages"));
    let (added, removed) = set_added_removed(&a, &b);
    note_set(out, "languages", name_languages(removed, ref_data), name_languages(added, ref_data));
}

fn note_multiline(db: &Json, submitted: &Json) -> (r: Vec<ReviewOldMultiline>)
    ensures
        disc_edit::multiline_views(r@) == stored_multiline(multiline_fields(), db@, submitted@),
{
    let names = multiline_field_names();
    let ghost all = highlights::strs(names@);
    let mut out: Vec<ReviewOldMultiline> = Vec::new();
    assert(all.take(0) =~= Seq::<Seq<char>>::empty());
    assert(disc_edit::multiline_views(out@) =~= Seq::<(Seq<char>, Seq<char>)>::empty());
    for i in 0..names.len()
        invariant
            all == highlights::strs(names@),
            disc_edit::multiline_views(out@) == stored_multiline(all.take(i as int), db@, submitted@),
    {
        proof {
            assert(all.take(i + 1).drop_last() =~= all.take(i as int));
            assert(all.take(i + 1).last() == names@[i as int]@);
        }
        let name = names[i];
        if review_value_changed(db.field(name), submitted.field(name)) {
            let m = ReviewOldMultiline {
                field: template_field_name(name),
                value: multiline_display_value(name, db.field(name)),
            };
            let ghost before = out@;
            out.push(m);
            assert(disc_edit::multiline_views(out@) =~= disc_edit::multiline_views(before).push((m.field@, m.value@)));
        }
    }
    assert(all.take(all.len() as int) =~= all);
    out
}

/// What a review page says of the difference between the stored snapshot and the
/// submitted one.
pub fn build_review_diff_context(
    submitted_snapshot: &Json,
    db_snapshot: &Json,
    ref_data: &EditRefData,
) -> (r: ReviewDiffContext)
    ensures
        disc_edit::annotation_views(r.annotations@) == review_notes(
            db_snapshot@,
            submitted_snapshot@,
            *ref_data,
        ),
        disc_edit::multiline_views(r.old_multiline@) == stored_multiline(
            multiline_fields(),
            db_snapshot@,
            submitted_snapshot@,
        ),
{
    let mut out = note_kept_fields(db_snapshot, submitted_snapshot, ref_data);
    note_replaced_fields(&mut out, db_snapshot, submitted_snapshot);
    note_regions(&mut out, db_snapshot, submitted_snapshot, ref_data);
    note_languages(&mut out, db_snapshot, submitted_snapshot, ref_data);
    note_plain_set(&mut out, db_snapshot, submitted_snapshot, "serial");
    note_plain_set(&mut out, db_snapshot, submitted_snapshot, "edition");
    note_plain_set(&mut out, db_snapshot, submitted_snapshot, "barcode");
    ReviewDiffContext {
        annotations: out,
        old_multiline: note_multiline(db_snapshot, submitted_snapshot),
    }
}

// ── The page ───────────────────────────────────────────────────────────────

/// The page with the fields of a system shown.
pub open spec fn showing(t: TemplateView, f: ShownFields) -> TemplateView {
    TemplateView {
        show_title_foreign: f.has_title_foreign,
        show_disc_number: f.has_disc_number,
        show_disc_title: f.has_disc_title,
        show_serial: f.has_serial,
        show_version: f.has_version,
        show_edition: f.has_edition,
        show_barcode: f.has_barcode,
        show_exe_date: f.has_exe_date,
        show_edc: f.has_edc,
        show_pvd: f.has_pvd,
        show_bca: f.has_bca,
        show_header: f.has_header,
        show_disc_id: f.has_disc_id,
        show_key: f.has_key,
        show_universal_hash: f.has_universal_hash,
        show_protection: f.has_protection,
        show_sector_ranges: f.has_sector_ranges,
        show_sbi: f.has_sbi,
        has_sample_start: f.has_sample_start,
        ..t
    }
}

fn show_fields(template: &mut DiscEditTemplate, f: ShownFields)
    ensures
        final(template)@ == showing(old(template)@, f),
{
    template.show_title_foreign = f.has_title_foreign;
    template.show_disc_number = f.has_disc_number;
    template.show_disc_title = f.has_disc_title;
    template.show_serial = f.has_serial;
    template.show_version = f.has_version;
    template.show_edition = f.has_edition;
    template.show_barcode = f.has_barcode;
    template.show_exe_date = f.has_exe_date;
    template.show_edc = f.has_edc;
    template.show_pvd = f.has_pvd;
    template.show_bca = f.has_bca;
    template.show_header = f.has_header;
    template.show_disc_id = f.has_disc_id;
    template.show_key = f.has_key;
    template.show_universal_hash = f.has_universal_hash;
    template.show_protection = f.has_protection;
    template.show_sector_ranges = f.has_sector_ranges;
    template.show_sbi = f.has_sbi;
    template.has_sample_start = f.has_sample_start;
}

/// The page with the stored system, if the system changed.
#[verifier::opaque]
pub open spec fn with_stored_system(
    t: TemplateView,
    db: JsonView,
    submitted: JsonView,
    ref_data: EditRefData,
) -> TemplateView {
    if review_values::value_changed(json::field(db, "system_code"@), json::field(submitted, "system_code"@)) {
        let code = review_values::display_value(json::field(db, "system_code"@));
        let t = TemplateView {
            system_code: code,
            systems: disc_edit::system_choices(ref_data.all_systems@, code),
            ..t
        };
        match disc_edit::system_from(ref_data.all_systems@, code, 0) {
            Some(i) => showing(t, review_template::fields_of(ref_data.all_systems@[i])),
            None => t,
        }
    } else {
        t
    }
}

fn keep_system(template: &mut DiscEditTemplate, db: &Json, submitted: &Json, ref_data: &EditRefData)
    ensures
        final(template)@ == with_stored_system(old(template)@, db@, submitted@, *ref_data),
{
    proof {
        reveal(with_stored_system);
    }
    if review_value_changed(db.field("system_code"), submitted.field("system_code")) {
        let code = review_display_value(db.field("system_code"));
        template.systems = build_system_options(&ref_data.all_systems, code.as_str());
        let found = find_system(&ref_data.all_systems, code.as_str());
        template.system_code = code;
        if let Some(i) = found {
            show_fields(template, read_fields_of(&ref_data.all_systems[i]));
        }
    }
}

/// The page with the stored kind of media, if it changed.
#[verifier::opaque]
pub open spec fn with_stored_media(
    t: TemplateView,
    db: JsonView,
    submitted: JsonView,
    ref_data: EditRefData,
) -> TemplateView {
    if review_values::value_changed(json::field(db, "media_type"@), json::field(submitted, "media_type"@)) {
        let code = review_values::display_value(json::field(db, "media_type"@));
        TemplateView {
            media_type_code: code,
            media_types_all: disc_edit::media_choices(ref_data.all_media_types@, code),
            max_layers: disc_edit::layers_of_media(ref_data.all_media_types@, code),
            show_error_count: disc_edit::media_is_cd(ref_data.all_media_types@, code),
            show_pic: disc_edit::media_has_pic(ref_data.all_media_types@, code),
            ..t
        }
    } else {
        t
    }
}

fn keep_media(template: &mut DiscEditTemplate, db: &Json, submitted: &Json, ref_data: &EditRefData)
    ensures
        final(template)@ == with_stored_media(old(template)@, db@, submitted@, *ref_data),
{
    proof {
        reveal(with_stored_media);
    }
    if review_value_changed(db.field("media_type"), submitted.field("media_type")) {
        let code = review_display_value(db.field("media_type"));
        template.media_types_all = build_media_options(&ref_data.all_media_types, code.as_str());
        template.max_layers = max_layers_for_media(&ref_data.all_media_types, code.as_str());
        template.show_error_count = is_cd_media(&ref_data.all_media_types, code.as_str());
        template.show_pic = is_pic_media(&ref_data.all_media_types, code.as_str());
        template.media_type_code = code;
    }
}

/// The stored value of a field that changed, or what the page shows.
pub open spec fn stored_or(shown: Seq<char>, db: JsonView, submitted: JsonView, name: Seq<char>) -> Seq<
    char,
> {
    if review_values::value_changed(json::field(db, name), json::field(submitted, name)) {
        review_values::display_value(json::field(db, name))
    } else {
        shown
    }
}

/// The page with the stored category, title and comments, where they changed.
#[verifier::opaque]
pub open spec fn with_stored_texts(
    t: TemplateView,
    db: JsonView,
    submitted: JsonView,
    ref_data: EditRefData,
) -> TemplateView {
    TemplateView {
        categories: if review_values::value_changed(json::field(db, "category"@), json::field(submitted, "category"@)) {
            disc_edit::category_choices(ref_data.all_categories@, review_values::display_value(json::field(db, "category"@)))
        } else {
            t.categories
        },
        title: stored_or(t.title, db, submitted, "title"@),
        title_foreign: stored_or(t.title_foreign, db, submitted, "title_foreign"@),
        disc_number: stored_or(t.disc_number, db, submitted, "disc_number"@),
        disc_title: stored_or(t.disc_title, db, submitted, "disc_title"@),
        filename_suffix: stored_or(t.filename_suffix, db, submitted, "filename_suffix"@),
        comments: if review_values::value_changed(json::field(db, "comments"@), json::field(submitted, "comments"@)) {
            review_values::review_comments(json::field(db, "comments"@), json::field(submitted, "comments"@))
        } else {
            t.comments
        },
        ..t
    }
}

fn stored_text(shown: &String, db: &Json, submitted: &Json, name: &str) -> (r: String)
    ensures
        r@ == stored_or(shown@, db@, submitted@, name@),
{
    if review_value_changed(db.field(name), submitted.field(name)) {
        review_display_value(db.field(name))
    } else {
        shown.clone()
    }
}

fn comments_to_merge(shown: &String, db: &Json, submitted: &Json) -> (r: String)
    ensures
        r@ == (if review_values::value_changed(json::field(db@, "comments"@), json::field(submitted@, "comments"@)) {
            review_values::review_comments(json::field(db@, "comments"@), json::field(submitted@, "comments"@))
        } else {
            shown@
        }),
{
    if review_value_changed(db.field("comments"), submitted.field("comments")) {
        compose_review_comments(db.field("comments"), submitted.field("comments"))
    } else {
        shown.clone()
    }
}

fn keep_category(template: &mut DiscEditTemplate, db: &Json, submitted: &Json, ref_data: &EditRefData)
    ensures
        final(template)@ == (TemplateView {
            categories: if review_values::value_changed(json::field(db@, "category"@), json::field(submitted@, "category"@)) {
                disc_edit::category_choices(ref_data.all_categories@, review_values::display_value(json::field(db@, "category"@)))
            } else {
                old(template)@.categories
            },
            ..old(template)@
        }),
{
    if review_value_changed(db.field("category"), submitted.field("category")) {
        let category = review_display_value(db.field("category"));
        template.categories = build_category_options(&ref_data.all_categories, category.as_str());
    }
}

fn keep_texts(template: &mut DiscEditTemplate, db: &Json, submitted: &Json, ref_data: &EditRefData)
    ensures
        final(template)@ == with_stored_texts(old(template)@, db@, submitted@, *ref_data),
{
    proof {
        reveal(with_stored_texts);
    }
    let title = stored_text(&template.title, db, submitted, "title");
    let title_foreign = stored_text(&template.title_foreign, db, submitted, "title_foreign");
    let disc_number = stored_text(&template.disc_number, db, submitted, "disc_number");
    let disc_title = stored_text(&template.disc_title, db, submitted, "disc_title");
    let filename_suffix = stored_text(&template.filename_suffix, db, submitted, "filename_suffix");
    let comments = comments_to_merge(&template.comments, db, submitted);
    keep_category(template, db, submitted, ref_data);
    template.title = title;
    template.title_foreign = title_foreign;
    template.disc_number = disc_number;
    template.disc_title = disc_title;
    template.filename_suffix = filename_suffix;
    template.comments = comments;
}

/// The page with the notes of a review.
#[verifier::opaque]
pub open spec fn with_notes(
    t: TemplateView,
    submitted: JsonView,
    db: JsonView,
    ref_data: EditRefData,
) -> TemplateView {
    TemplateView {
        review_annotations: review_notes(db, submitted, ref_data),
        review_old_multiline: stored_multiline(multiline_fields(), db, submitted),
        ..t
    }
}

fn put_notes(template: &mut DiscEditTemplate, submitted: &Json, db: &Json, ref_data: &EditRefData)
    ensures
        final(template)@ == with_notes(old(template)@, submitted@, db@, *ref_data),
{
    proof {
        reveal(with_notes);
    }
    let context = build_review_diff_context(submitted, db, ref_data);
    template.review_annotations = context.annotations;
    template.review_old_multiline = context.old_multiline;
}

/// The page with the notes of a review; when it is first shown, also with the stored
/// values of the fields that a review keeps.
pub open spec fn with_diff(
    t: TemplateView,
    submitted: JsonView,
    db: JsonView,
    ref_data: EditRefData,
    initial: bool,
) -> TemplateView {
    let t = with_notes(t, submitted, db, ref_data);
    if initial {
        let t = with_stored_system(t, db, submitted, ref_data);
        let t = with_stored_media(t, db, submitted, ref_data);
        with_stored_texts(t, db, submitted, ref_data)
    } else {
        t
    }
}

/// Put the difference between a disc and a submission on a review page.
pub fn apply_review_diff_context(
    template: &mut DiscEditTemplate,
    submitted_snapshot: &Json,
    db_snapshot: &Json,
    ref_data: &EditRefData,
    apply_initial_values: bool,
)
    ensures
        final(template)@ == with_diff(
            old(template)@,
            submitted_snapshot@,
            db_snapshot@,
            *ref_data,
            apply_initial_values,
        ),
{
    put_notes(template, submitted_snapshot, db_snapshot, ref_data);
    if !apply_initial_values {
        return;
    }
    keep_system(template, db_snapshot, submitted_snapshot, ref_data);
    keep_media(template, db_snapshot, submitted_snapshot, ref_data);
    keep_texts(template, db_snapshot, submitted_snapshot, ref_data);
}

// ── Marks ──────────────────────────────────────────────────────────────────

/// The marks of entries that are marked, in place of those they had.
pub open spec fn marked_checks(v: Seq<CheckView>, ms: Seq<(Seq<char>, Seq<char>)>) -> Seq<CheckView> {
    v.map_values(
        |c: CheckView|
            match highlights::mark_of(ms, c.value) {
                Some(kind) => CheckView { highlight: kind, ..c },
                None => c,
            },
    )
}

/// The marks of values that are marked, in place of those they had.
pub open spec fn marked_values(
    v: Seq<(Seq<char>, Seq<char>)>,
    ms: Seq<(Seq<char>, Seq<char>)>,
) -> Seq<(Seq<char>, Seq<char>)> {
    v.map_values(
        |c: (Seq<char>, Seq<char>)|
            match highlights::mark_of(ms, c.0) {
                Some(kind) => (c.0, kind),
                None => c,
            },
    )
}

fn find_mark<'a>(marks: &'a Vec<Mark>, value: &str) -> (r: Option<&'a str>)
    ensures
        text::opt_str(r) == highlights::mark_of(highlights::mark_views(marks@), value@),
{
    let ghost ms = highlights::mark_views(marks@);
    assert(ms.skip(0) =~= ms);
    for i in 0..marks.len()
        invariant
            ms == highlights::mark_views(marks@),
            highlights::mark_of(ms.skip(i as int), value@) == highlights::mark_of(ms, value@),
    {
        proof {
            let rest = ms.skip(i as int);
            assert(rest[0] == (marks@[i as int].value@, marks@[i as int].kind@));
            assert(rest.drop_first() =~= ms.skip(i + 1));
        }
        if str_eq(marks[i].value.as_str(), value) {
            return Some(marks[i].kind.as_str());
        }
    }
    None
}

fn mark_checks(v: &mut Vec<CheckOption>, marks: &Vec<Mark>)
    ensures
        disc_edit::check_views(final(v)@) == marked_checks(disc_edit::check_views(old(v)@), highlights::mark_views(marks@)),
{
    let ghost start = disc_edit::check_views(v@);
    let ghost all = marked_checks(start, highlights::mark_views(marks@));
    let n: usize = v.len();
    assert(disc_edit::check_views(v@) =~= all.take(0) + start.skip(0));
    for i in 0..n
        invariant
            n == v@.len(),
            start.len() == n,
            all == marked_checks(start, highlights::mark_views(marks@)),
            disc_edit::check_views(v@) == all.take(i as int) + start.skip(i as int),
    {
        let ghost before = v@;
        assert(disc_edit::check_views(v@)[i as int] == start[i as int]);
        if let Some(kind) = find_mark(marks, v[i].value.as_str()) {
            let c = CheckOption {
                value: v[i].value.clone(),
                label: v[i].label.clone(),
                checked: v[i].checked,
                highlight: String::from_str(kind),
            };
            v[i] = c;
        }
        assert(disc_edit::check_views(v@) =~= disc_edit::check_views(before).update(i as int, all[i as int]));
        assert(disc_edit::check_views(before).update(i as int, all[i as int]) =~= all.take(i + 1) + start.skip(
            i + 1,
        ));
    }
    assert(all.take(n as int) + start.skip(n as int) =~= all);
}

fn mark_values(v: &mut Vec<HighlightedValue>, marks: &Vec<Mark>)
    ensures
        disc_edit::highlighted_views(final(v)@) == marked_values(
            disc_edit::highlighted_views(old(v)@),
            highlights::mark_views(marks@),
        ),
{
    let ghost start = disc_edit::highlighted_views(v@);
    let ghost all = marked_values(start, highlights::mark_views(marks@));
    let n: usize = v.len();
    assert(disc_edit::highlighted_views(v@) =~= all.take(0) + start.skip(0));
    for i in 0..n
        invariant
            n == v@.len(),
            start.len() == n,
            all == marked_values(start, highlights::mark_views(marks@)),
            disc_edit::highlighted_views(v@) == all.take(i as int) + start.skip(i as int),
    {
        let ghost before = v@;
        assert(disc_edit::highlighted_views(v@)[i as int] == start[i as int]);
        if let Some(kind) = find_mark(marks, v[i].value.as_str()) {
            let c = HighlightedValue {
                value: v[i].value.clone(),
                highlight: String::from_str(kind),
            };
            v[i] = c;
        }
        assert(disc_edit::highlighted_views(v@) =~= disc_edit::highlighted_views(before).update(
            i as int,
            all[i as int],
        ));
        assert(disc_edit::highlighted_views(before).update(i as int, all[i as int]) =~= all.take(i + 1)
            + start.skip(i + 1));
    }
    assert(all.take(n as int) + start.skip(n as int) =~= all);
}

/// The page with the marks of a review.
pub open spec fn with_marks(t: TemplateView, h: HighlightsView) -> TemplateView {
    TemplateView {
        changed_fields: h.changed_fields,
        ring_highlights_json: h.rings,
        regions: marked_checks(t.regions, h.regions),
        languages: marked_checks(t.languages, h.languages),
        serials: marked_values(t.serials, h.serials),
        editions: marked_values(t.editions, h.editions),
        barcodes: marked_values(t.barcodes, h.barcodes),
        ..t
    }
}

/// Put the marks of a review on its page.
pub fn apply_highlights(template: &mut DiscEditTemplate, highlights: FieldHighlights)
    ensures
        final(template)@ == with_marks(old(template)@, highlights@),
{
    mark_checks(&mut template.regions, &highlights.region_highlights);
    mark_checks(&mut template.languages, &highlights.language_highlights);
    mark_values(&mut template.serials, &highlights.serial_highlights);
    mark_values(&mut template.editions, &highlights.edition_highlights);
    mark_values(&mut template.barcodes, &highlights.barcode_highlights);
    template.changed_fields = highlights.changed_fields;
    template.ring_highlights_json = highlights.ring_highlights_json;
}

// ── Laws ───────────────────────────────────────────────────────────────────

/// A review page that is shown again keeps what the moderator entered: only the notes are
/// put on it.
pub proof fn law_notes_keep_entered_values(
    t: TemplateView,
    submitted: JsonView,
    db: JsonView,
    ref_data: EditRefData,
)
    ensures
        with_diff(t, submitted, db, ref_data, false) == (TemplateView {
            review_annotations: review_notes(db, submitted, ref_data),
            review_old_multiline: stored_multiline(multiline_fields(), db, submitted),
            ..t
        }),
{
    reveal(with_notes);
}

/// When a review page is first shown, a field of the title that changed shows what is
/// stored.
pub proof fn law_first_page_shows_stored_title(
    t: TemplateView,
    submitted: JsonView,
    db: JsonView,
    ref_data: EditRefData,
)
    requires
        review_values::value_changed(json::field(db, "title"@), json::field(submitted, "title"@)),
    ensures
        with_diff(t, submitted, db, ref_data, true).title == review_values::display_value(json::field(db, "title"@)),
{
    reveal(with_stored_texts);
}

} // verus!
