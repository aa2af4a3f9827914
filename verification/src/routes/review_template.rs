//! The page on which a submission is reviewed.

use vstd::prelude::*;

use crate::clock::{self, ZONED_MINUTE, write_time};
use crate::json::{self, Json, JsonView, number_text};
use crate::json_text::{self, write_json, write_pretty};
use crate::models::{AuthenticatedUser, DiscSubmission, System};
use crate::naming::{self, format_display_title};
use crate::numbers::{self, write_i64};
use crate::routes::disc_edit::{
    self, AnnotationView, DiscEditTemplate, EditRefData, HighlightedValue, TemplateView,
    build_category_options, build_check_options, build_lang_check_options, build_media_options,
    build_system_options, is_cd_media, is_pic_media,
};
use crate::routes::review_values::{self, array_strings, sector_ranges_display};
use crate::services::approval::ConflictView;
use crate::text;

verus! {

/// What the page holds besides the submission and the snapshot.
#[derive(Debug)]
pub struct ReviewPage {
    pub submitter_name: String,
    pub reviewer_name: String,
    pub systems_media_json: String,
    pub systems_has_flags_json: String,
    pub edition_suggestions_json: String,
    pub media_layers_json: String,
    pub media_rom_extensions_json: String,
    pub media_is_cd_json: String,
    pub media_has_pic_json: String,
}

/// The fields that a form shows for a system.
#[derive(Clone, Copy, Debug)]
pub struct ShownFields {
    pub has_title_foreign: bool,
    pub has_disc_number: bool,
    pub has_disc_title: bool,
    pub has_serial: bool,
    pub has_version: bool,
    pub has_edition: bool,
    pub has_barcode: bool,
    pub has_exe_date: bool,
    pub has_edc: bool,
    pub has_pvd: bool,
    pub has_bca: bool,
    pub has_header: bool,
    pub has_disc_id: bool,
    pub has_key: bool,
    pub has_universal_hash: bool,
    pub has_protection: bool,
    pub has_sector_ranges: bool,
    pub has_sbi: bool,
    pub has_sample_start: bool,
}

/// The fields that the discs of a system have.
pub open spec fn fields_of(s: System) -> ShownFields {
    ShownFields {
        has_title_foreign: s.has_title_foreign,
        has_disc_number: s.has_disc_number,
        has_disc_title: s.has_disc_title,
        has_serial: s.has_serial,
        has_version: s.has_version,
        has_edition: s.has_edition,
        has_barcode: s.has_barcode,
        has_exe_date: s.has_exe_date,
        has_edc: s.has_edc,
        has_pvd: s.has_pvd,
        has_bca: s.has_bca,
        has_header: s.has_header,
        has_disc_id: s.has_disc_id,
        has_key: s.has_key,
        has_universal_hash: s.has_universal_hash,
        has_protection: s.has_protection,
        has_sector_ranges: s.has_sector_ranges,
        has_sbi: s.has_sbi,
        has_sample_start: s.has_sample_start,
    }
}

/// The fields that a form shows: those that the discs of the system have, and all where
/// no system is known.
pub open spec fn shown_fields(system: Option<&System>) -> ShownFields {
    match system {
        Some(s) => fields_of(*s),
        None => ShownFields {
            has_title_foreign: true,
            has_disc_number: true,
            has_disc_title: true,
            has_serial: true,
            has_version: true,
            has_edition: true,
            has_barcode: true,
            has_exe_date: true,
            has_edc: true,
            has_pvd: true,
            has_bca: true,
            has_header: true,
            has_disc_id: true,
            has_key: true,
            has_universal_hash: true,
            has_protection: true,
            has_sector_ranges: true,
            has_sbi: true,
            has_sample_start: true,
        },
    }
}

/// The fields that the discs of a system have.
pub fn read_fields_of(s: &System) -> (r: ShownFields)
    ensures
        r == fields_of(*s),
{
    ShownFields {
        has_title_foreign: s.has_title_foreign,
        has_disc_number: s.has_disc_number,
        has_disc_title: s.has_disc_title,
        has_serial: s.has_serial,
        has_version: s.has_version,
        has_edition: s.has_edition,
        has_barcode: s.has_barcode,
        has_exe_date: s.has_exe_date,
        has_edc: s.has_edc,
        has_pvd: s.has_pvd,
        has_bca: s.has_bca,
        has_header: s.has_header,
        has_disc_id: s.has_disc_id,
        has_key: s.has_key,
        has_universal_hash: s.has_universal_hash,
        has_protection: s.has_protection,
        has_sector_ranges: s.has_sector_ranges,
        has_sbi: s.has_sbi,
        has_sample_start: s.has_sample_start,
    }
}

/// The fields that a form shows.
pub fn read_shown_fields(system: Option<&System>) -> (r: ShownFields)
    ensures
        r == shown_fields(system),
{
    match system {
        Some(s) => read_fields_of(s),
        None => ShownFields {
            has_title_foreign: true,
            has_disc_number: true,
            has_disc_title: true,
            has_serial: true,
            has_version: true,
            has_edition: true,
            has_barcode: true,
            has_exe_date: true,
            has_edc: true,
            has_pvd: true,
            has_bca: true,
            has_header: true,
            has_disc_id: true,
            has_key: true,
            has_universal_hash: true,
            has_protection: true,
            has_sector_ranges: true,
            has_sbi: true,
            has_sample_start: true,
        },
    }
}

/// A text, or another one where there is none.
pub open spec fn text_else(v: JsonView, other: Seq<char>) -> Seq<char> {
    match v {
        JsonView::Str(s) => s,
        _ => other,
    }
}

/// An id, or nought.
pub open spec fn or_nought(id: Option<i32>) -> i32 {
    match id {
        Some(n) => n,
        None => 0,
    }
}

/// A text, or the empty one.
pub open spec fn opt_or_empty(s: Option<String>) -> Seq<char> {
    match s {
        Some(t) => t@,
        None => Seq::empty(),
    }
}

/// Values without marks.
pub open spec fn unmarked(v: Seq<Seq<char>>) -> Seq<(Seq<char>, Seq<char>)> {
    v.map_values(|s: Seq<char>| (s, Seq::<char>::empty()))
}

/// A number as text; what is no number is empty.
pub open spec fn count_text(v: JsonView) -> Seq<char> {
    match v {
        JsonView::Int(n) => numbers::int_text(n),
        JsonView::Other(t) => t,
        _ => Seq::empty(),
    }
}

/// The whole numbers of a list as texts.
pub open spec fn number_texts(list: Seq<JsonView>) -> Seq<Seq<char>>
    decreases list.len(),
{
    if list.len() == 0 {
        Seq::empty()
    } else {
        let before = number_texts(list.drop_last());
        match json::as_int(list.last()) {
            Some(n) => before.push(numbers::int_text(n)),
            None => before,
        }
    }
}

fn text_field(snapshot: &Json, key: &str) -> (r: String)
    ensures
        r@ == json::text_or_empty(json::field(snapshot@, key@)),
{
    String::from_str(snapshot.field(key).str_or_empty())
}

fn str_else<'a>(v: &'a Json, other: &'a str) -> (r: &'a str)
    ensures
        r@ == text_else(v@, other@),
{
    match v.as_str() {
        Some(s) => s,
        None => other,
    }
}

fn id_or_nought(id: Option<i32>) -> (r: i32)
    ensures
        r == or_nought(id),
{
    match id {
        Some(n) => n,
        None => 0,
    }
}

fn copy_or_empty(s: &Option<String>) -> (r: String)
    ensures
        r@ == opt_or_empty(*s),
{
    match s {
        Some(t) => t.clone(),
        None => String::new(),
    }
}

fn unmarked_values(v: &Json) -> (r: Vec<HighlightedValue>)
    ensures
        disc_edit::highlighted_views(r@) == unmarked(json::list_texts(json::list_or_empty(v@))),
{
    let values = array_strings(v);
    let ghost all = unmarked(text::texts(values@));
    let mut out: Vec<HighlightedValue> = Vec::new();
    assert(disc_edit::highlighted_views(out@) =~= all.take(0));
    for i in 0..values.len()
        invariant
            all == unmarked(text::texts(values@)),
            disc_edit::highlighted_views(out@) == all.take(i as int),
    {
        let h = HighlightedValue { value: values[i].clone(), highlight: String::new() };
        let ghost before = out@;
        out.push(h);
        assert(disc_edit::highlighted_views(out@) =~= disc_edit::highlighted_views(before).push(all[i as int]));
        assert(all.take(i + 1) =~= all.take(i as int).push(all[i as int]));
    }
    assert(all.take(all.len() as int) =~= all);
    out
}

fn write_count(v: &Json) -> (r: String)
    ensures
        r@ == count_text(v@),
{
    match v {
        Json::Number(n) => number_text(n),
        _ => String::new(),
    }
}

/// Whether a value is true, as text.
pub open spec fn flag_text(v: JsonView) -> Seq<char> {
    if v == JsonView::Bool(true) {
        "true"@
    } else {
        "false"@
    }
}

fn write_flag(v: &Json) -> (r: String)
    ensures
        r@ == flag_text(v@),
{
    match v {
        Json::Bool(true) => String::from_str("true"),
        _ => String::from_str("false"),
    }
}

/// The pressings as JSON text.
pub open spec fn rings_text(v: Option<JsonView>) -> Seq<char> {
    match v {
        Some(x) => json_text::json_text(x),
        None => "[]"@,
    }
}

fn write_rings(snapshot: &Json) -> (r: String)
    ensures
        r@ == rings_text(json::get(snapshot@, "ring_codes"@)),
{
    match snapshot.get("ring_codes") {
        Some(v) => write_json(v),
        None => String::from_str("[]"),
    }
}

/// A point in time, if there is one.
pub open spec fn opt_time_text(t: Option<i64>) -> Seq<char> {
    match t {
        Some(s) => clock::time_text(s as int, ZONED_MINUTE@),
        None => Seq::empty(),
    }
}

fn write_opt_time(t: Option<i64>) -> (r: String)
    ensures
        r@ == opt_time_text(t),
{
    match t {
        Some(s) => write_time(s, ZONED_MINUTE),
        None => String::new(),
    }
}

fn write_numbers(v: &Json) -> (r: Vec<String>)
    ensures
        text::texts(r@) == number_texts(json::list_or_empty(v@)),
{
    let mut out: Vec<String> = Vec::new();
    assert(text::texts(out@) =~= Seq::<Seq<char>>::empty());
    let list = match v {
        Json::Array(l) => l,
        _ => {
            return out;
        },
    };
    let ghost all = json::json_views(list@);
    proof {
        json::lemma_json_views(list@);
        assert(all.take(0) =~= Seq::<JsonView>::empty());
    }
    for i in 0..list.len()
        invariant
            all == json::json_views(list@),
            all == json::list_or_empty(v@),
            all.len() == list@.len(),
            forall|k: int| 0 <= k < list@.len() ==> #[trigger] all[k] == list@[k]@,
            text::texts(out@) == number_texts(all.take(i as int)),
    {
        proof {
            assert(all.take(i + 1).drop_last() =~= all.take(i as int));
            assert(all.take(i + 1).last() == list@[i as int]@);
        }
        if let Some(n) = list[i].as_i64() {
            let t = write_i64(n);
            let ghost before = out@;
            out.push(t);
            assert(text::texts(out@) =~= text::texts(before).push(t@));
        }
    }
    assert(all.take(all.len() as int) =~= all);
    out
}

/// What the page shows of a snapshot under review. Without a system every field is
/// shown.
pub open spec fn review_view(
    current_user: AuthenticatedUser,
    sub: DiscSubmission,
    page: ReviewPage,
    snapshot: JsonView,
    ref_data: EditRefData,
    system_code: Seq<char>,
    media_type_code: Seq<char>,
    max_layers: u32,
    system: Option<&System>,
) -> TemplateView {
    let shown = shown_fields(system);
    TemplateView {
        current_user: disc_edit::user_view(Some(current_user)),
        disc_id: or_nought(sub.target_disc_id),
        page_title: naming::display_title(
            json::text_or_empty(json::field(snapshot, "title"@)),
            json::as_text(json::field(snapshot, "disc_number"@)),
            json::as_text(json::field(snapshot, "disc_title"@)),
            json::as_text(json::field(snapshot, "filename_suffix"@)),
        ),
        systems: disc_edit::system_choices(ref_data.all_systems@, system_code),
        media_types_all: disc_edit::media_choices(ref_data.all_media_types@, media_type_code),
        categories: disc_edit::category_choices(ref_data.all_categories@, text_else(json::field(snapshot, "category"@), "Games"@)),
        regions: disc_edit::region_checks(ref_data.all_regions@, json::list_texts(json::list_or_empty(json::field(snapshot, "regions"@)))),
        languages: disc_edit::language_checks(ref_data.all_languages@, json::list_texts(json::list_or_empty(json::field(snapshot, "languages"@)))),
        system_code: system_code,
        media_type_code: media_type_code,
        max_layers: max_layers,
        media_layers_json: page.media_layers_json@,
        systems_media_json: page.systems_media_json@,
        systems_has_flags_json: page.systems_has_flags_json@,
        edition_suggestions_json: page.edition_suggestions_json@,
        submit_as_usernames_json: "[]"@,
        media_rom_extensions_json: page.media_rom_extensions_json@,
        media_is_cd_json: page.media_is_cd_json@,
        title: json::text_or_empty(json::field(snapshot, "title"@)),
        show_title_foreign: shown.has_title_foreign,
        title_foreign: json::text_or_empty(json::field(snapshot, "title_foreign"@)),
        show_disc_number: shown.has_disc_number,
        disc_number: json::text_or_empty(json::field(snapshot, "disc_number"@)),
        show_disc_title: shown.has_disc_title,
        disc_title: json::text_or_empty(json::field(snapshot, "disc_title"@)),
        filename_suffix: json::text_or_empty(json::field(snapshot, "filename_suffix"@)),
        show_serial: shown.has_serial,
        serials: unmarked(json::list_texts(json::list_or_empty(json::field(snapshot, "serial"@)))),
        show_version: shown.has_version,
        version: json::text_or_empty(json::field(snapshot, "version"@)),
        show_edition: shown.has_edition,
        editions: unmarked(json::list_texts(json::list_or_empty(json::field(snapshot, "edition"@)))),
        show_barcode: shown.has_barcode,
        barcodes: unmarked(json::list_texts(json::list_or_empty(json::field(snapshot, "barcode"@)))),
        ring_codes_json: rings_text(json::get(snapshot, "ring_codes"@)),
        ring_highlights_json: "[]"@,
        comments: json::text_or_empty(json::field(snapshot, "comments"@)),
        contents: json::text_or_empty(json::field(snapshot, "contents"@)),
        show_error_count: disc_edit::media_is_cd(ref_data.all_media_types@, media_type_code),
        error_count: count_text(json::field(snapshot, "error_count"@)),
        show_exe_date: shown.has_exe_date,
        exe_date: json::text_or_empty(json::field(snapshot, "exe_date"@)),
        show_edc: shown.has_edc,
        edc_value: flag_text(json::field(snapshot, "edc"@)),
        layerbreaks: number_texts(json::list_or_empty(json::field(snapshot, "layerbreaks"@))),
        show_pvd: shown.has_pvd,
        pvd_hex: json::text_or_empty(json::field(snapshot, "pvd"@)),
        show_pic: disc_edit::media_has_pic(ref_data.all_media_types@, media_type_code),
        media_has_pic_json: page.media_has_pic_json@,
        pic_hex: json::text_or_empty(json::field(snapshot, "pic"@)),
        show_bca: shown.has_bca,
        bca_hex: json::text_or_empty(json::field(snapshot, "bca"@)),
        show_header: shown.has_header,
        header_hex: json::text_or_empty(json::field(snapshot, "header"@)),
        show_disc_id: shown.has_disc_id,
        show_key: shown.has_key,
        show_universal_hash: shown.has_universal_hash,
        show_protection: shown.has_protection,
        protection: json::text_or_empty(json::field(snapshot, "protection"@)),
        show_sector_ranges: shown.has_sector_ranges,
        sector_ranges_text: review_values::ranges_text(json::field(snapshot, "sector_ranges"@)),
        show_sbi: shown.has_sbi,
        sbi: json::text_or_empty(json::field(snapshot, "sbi"@)),
        protection_key_disc_key: json::text_or_empty(json::field(snapshot, "disc_key"@)),
        universal_hash: json::text_or_empty(json::field(snapshot, "universal_hash"@)),
        protection_key_disc_id: json::text_or_empty(json::field(snapshot, "disc_id"@)),
        has_sample_start: shown.has_sample_start,
        cue: json::text_or_empty(json::field(snapshot, "cuesheet"@)),
        files_xml: json::text_or_empty(json::field(snapshot, "dat"@)),
        status: text_else(json::field(snapshot, "status"@), "Unverified"@),
        is_add_mode: false,
        dump_log: Seq::empty(),
        dump_log_required: false,
        extra_upload_url: Seq::empty(),
        show_submit_as: false,
        submit_as_username: Seq::empty(),
        submit_button_text: Seq::empty(),
        validation_errors: Seq::empty(),
        linked_validation_errors: Seq::empty(),
        validation_result: Seq::empty(),
        validation_result_disc_id: 0,
        validation_result_disc_title: Seq::empty(),
        is_review_mode: true,
        changed_fields: Seq::empty(),
        review_annotations: Seq::empty(),
        review_old_multiline: Seq::empty(),
        submission_id: sub.id,
        submission_type_display: sub.submission_type.name(),
        submitter_id: sub.submitter_id,
        submitter_name: page.submitter_name@,
        submission_comment: opt_or_empty(sub.submission_comment),
        dump_log_display: opt_or_empty(sub.dump_log),
        extra_upload_url_display: opt_or_empty(sub.extra_upload_url),
        submission_status: sub.status.name(),
        reviewer_id: or_nought(sub.reviewer_id),
        reviewer_name: page.reviewer_name@,
        review_comment_display: opt_or_empty(sub.review_comment),
        review_comment_input: Seq::empty(),
        created_at_display: clock::time_text(sub.created_at as int, ZONED_MINUTE@),
        reviewed_at_display: opt_time_text(sub.reviewed_at),
        changes_json: json_text::pretty_text(sub.changes@),
    }
}

/// The page on which a submission is reviewed.
#[verifier::rlimit(60)]
pub fn build_review_template(
    current_user: AuthenticatedUser,
    sub: &DiscSubmission,
    page: &ReviewPage,
    snapshot: &Json,
    ref_data: &EditRefData,
    system_code: &str,
    media_type_code: &str,
    max_layers: u32,
    system: Option<&System>,
) -> (r: DiscEditTemplate)
    ensures
        r@ == review_view(
            current_user,
            *sub,
            *page,
            snapshot@,
            *ref_data,
            system_code@,
            media_type_code@,
            max_layers,
            system,
        ),
{
    let shown = read_shown_fields(system);
    let t = DiscEditTemplate {
        current_user: Some(current_user),
        disc_id: id_or_nought(sub.target_disc_id),
        page_title: format_display_title(
            snapshot.field("title").str_or_empty(),
            snapshot.field("disc_number").as_str(),
            snapshot.field("disc_title").as_str(),
            snapshot.field("filename_suffix").as_str(),
        ),
        systems: build_system_options(&ref_data.all_systems, system_code),
        media_types_all: build_media_options(&ref_data.all_media_types, media_type_code),
        categories: build_category_options(&ref_data.all_categories, str_else(snapshot.field("category"), "Games")),
        regions: build_check_options(&ref_data.all_regions, &array_strings(snapshot.field("regions"))),
        languages: build_lang_check_options(&ref_data.all_languages, &array_strings(snapshot.field("languages"))),
        system_code: String::from_str(system_code),
        media_type_code: String::from_str(media_type_code),
        max_layers: max_layers,
        media_layers_json: page.media_layers_json.clone(),
        systems_media_json: page.systems_media_json.clone(),
        systems_has_flags_json: page.systems_has_flags_json.clone(),
        edition_suggestions_json: page.edition_suggestions_json.clone(),
        submit_as_usernames_json: String::from_str("[]"),
        media_rom_extensions_json: page.media_rom_extensions_json.clone(),
        media_is_cd_json: page.media_is_cd_json.clone(),
        title: text_field(snapshot, "title"),
        show_title_foreign: shown.has_title_foreign,
        title_foreign: text_field(snapshot, "title_foreign"),
        show_disc_number: shown.has_disc_number,
        disc_number: text_field(snapshot, "disc_number"),
        show_disc_title: shown.has_disc_title,
        disc_title: text_field(snapshot, "disc_title"),
        filename_suffix: text_field(snapshot, "filename_suffix"),
        show_serial: shown.has_serial,
        serials: unmarked_values(snapshot.field("serial")),
        show_version: shown.has_version,
        version: text_field(snapshot, "version"),
        show_edition: shown.has_edition,
        editions: unmarked_values(snapshot.field("edition")),
        show_barcode: shown.has_barcode,
        barcodes: unmarked_values(snapshot.field("barcode")),
        ring_codes_json: write_rings(snapshot),
        ring_highlights_json: String::from_str("[]"),
        comments: text_field(snapshot, "comments"),
        contents: text_field(snapshot, "contents"),
        show_error_count: is_cd_media(&ref_data.all_media_types, media_type_code),
        error_count: write_count(snapshot.field("error_count")),
        show_exe_date: shown.has_exe_date,
        exe_date: text_field(snapshot, "exe_date"),
        show_edc: shown.has_edc,
        edc_value: write_flag(snapshot.field("edc")),
        layerbreaks: write_numbers(snapshot.field("layerbreaks")),
        show_pvd: shown.has_pvd,
        pvd_hex: text_field(snapshot, "pvd"),
        show_pic: is_pic_media(&ref_data.all_media_types, media_type_code),
        media_has_pic_json: page.media_has_pic_json.clone(),
        pic_hex: text_field(snapshot, "pic"),
        show_bca: shown.has_bca,
        bca_hex: text_field(snapshot, "bca"),
        show_header: shown.has_header,
        header_hex: text_field(snapshot, "header"),
        show_disc_id: shown.has_disc_id,
        show_key: shown.has_key,
        show_universal_hash: shown.has_universal_hash,
        show_protection: shown.has_protection,
        protection: text_field(snapshot, "protection"),
        show_sector_ranges: shown.has_sector_ranges,
        sector_ranges_text: sector_ranges_display(snapshot.field("sector_ranges")),
        show_sbi: shown.has_sbi,
        sbi: text_field(snapshot, "sbi"),
        protection_key_disc_key: text_field(snapshot, "disc_key"),
        universal_hash: text_field(snapshot, "universal_hash"),
        protection_key_disc_id: text_field(snapshot, "disc_id"),
        has_sample_start: shown.has_sample_start,
        cue: text_field(snapshot, "cuesheet"),
        files_xml: text_field(snapshot, "dat"),
        status: String::from_str(str_else(snapshot.field("status"), "Unverified")),
        is_add_mode: false,
        dump_log: String::new(),
        dump_log_required: false,
        extra_upload_url: String::new(),
        show_submit_as: false,
        submit_as_username: String::new(),
        submit_button_text: String::new(),
        validation_errors: Vec::new(),
        linked_validation_errors: Vec::new(),
        validation_result: String::new(),
        validation_result_disc_id: 0,
        validation_result_disc_title: String::new(),
        is_review_mode: true,
        changed_fields: Vec::new(),
        review_annotations: Vec::new(),
        review_old_multiline: Vec::new(),
        submission_id: sub.id,
        submission_type_display: String::from_str(sub.submission_type.as_str()),
        submitter_id: sub.submitter_id,
        submitter_name: page.submitter_name.clone(),
        submission_comment: copy_or_empty(&sub.submission_comment),
        dump_log_display: copy_or_empty(&sub.dump_log),
        extra_upload_url_display: copy_or_empty(&sub.extra_upload_url),
        submission_status: String::from_str(sub.status.as_str()),
        reviewer_id: id_or_nought(sub.reviewer_id),
        reviewer_name: page.reviewer_name.clone(),
        review_comment_display: copy_or_empty(&sub.review_comment),
        review_comment_input: String::new(),
        created_at_display: write_time(sub.created_at, ZONED_MINUTE),
        reviewed_at_display: write_opt_time(sub.reviewed_at),
        changes_json: write_pretty(&sub.changes),
    };
    proof {
        assert(t@.validation_errors =~= Seq::<Seq<char>>::empty());
        assert(t@.linked_validation_errors =~= Seq::<ConflictView>::empty());
        assert(t@.changed_fields =~= Seq::<Seq<char>>::empty());
        assert(t@.review_annotations =~= Seq::<AnnotationView>::empty());
        assert(t@.review_old_multiline =~= Seq::<(Seq<char>, Seq<char>)>::empty());
    }
    t
}

} // verus!
