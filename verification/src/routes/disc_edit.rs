//! The form in which a disc is edited and reviewed.

use vstd::prelude::*;

use crate::models::{
    self, AuthenticatedUser, Language, Region, System, UserRole, is_cd_rom_extension,
};
use crate::services::approval::{self, ApprovalConflict, ConflictView};
use crate::text::{self, str_eq, str_trim};

verus! {

/// An entry of a list of which one is chosen.
#[derive(Debug)]
pub struct Choice {
    pub code: String,
    pub name: String,
    pub selected: bool,
}

/// An entry of a list of which one is chosen.
pub struct ChoiceView {
    pub code: Seq<char>,
    pub name: Seq<char>,
    pub selected: bool,
}

/// The entries of a list of which one is chosen.
pub open spec fn choice_views(v: Seq<Choice>) -> Seq<ChoiceView> {
    v.map_values(
        |c: Choice| ChoiceView { code: c.code@, name: c.name@, selected: c.selected },
    )
}

/// A category that can be chosen.
#[derive(Debug)]
pub struct CategoryChoice {
    pub value: String,
    pub selected: bool,
}

/// The categories that can be chosen.
pub open spec fn category_views(v: Seq<CategoryChoice>) -> Seq<(Seq<char>, bool)> {
    v.map_values(|c: CategoryChoice| (c.value@, c.selected))
}

/// An entry of a list of which any number is chosen.
#[derive(Debug)]
pub struct CheckOption {
    pub value: String,
    pub label: String,
    pub checked: bool,
    pub highlight: String,
}

/// An entry of a list of which any number is chosen.
pub struct CheckView {
    pub value: Seq<char>,
    pub label: Seq<char>,
    pub checked: bool,
    pub highlight: Seq<char>,
}

/// The entries of a list of which any number is chosen.
pub open spec fn check_views(v: Seq<CheckOption>) -> Seq<CheckView> {
    v.map_values(
        |c: CheckOption|
            CheckView {
                value: c.value@,
                label: c.label@,
                checked: c.checked,
                highlight: c.highlight@,
            },
    )
}

/// A value of a set, and how it is marked.
#[derive(Debug)]
pub struct HighlightedValue {
    pub value: String,
    pub highlight: String,
}

/// The values of a set, and how they are marked.
pub open spec fn highlighted_views(v: Seq<HighlightedValue>) -> Seq<(Seq<char>, Seq<char>)> {
    v.map_values(|h: HighlightedValue| (h.value@, h.highlight@))
}

/// A note at a field of a review.
#[derive(Debug)]
pub struct ReviewAnnotation {
    pub field: String,
    pub label: String,
    pub kind: String,
    pub values: Vec<String>,
}

/// A note at a field of a review.
pub struct AnnotationView {
    pub field: Seq<char>,
    pub label: Seq<char>,
    pub kind: Seq<char>,
    pub values: Seq<Seq<char>>,
}

/// The notes of a review.
pub open spec fn annotation_views(v: Seq<ReviewAnnotation>) -> Seq<AnnotationView> {
    v.map_values(
        |a: ReviewAnnotation|
            AnnotationView {
                field: a.field@,
                label: a.label@,
                kind: a.kind@,
                values: text::texts(a.values@),
            },
    )
}

/// The stored value of a field with several lines.
#[derive(Debug)]
pub struct ReviewOldMultiline {
    pub field: String,
    pub value: String,
}

/// The stored values of fields with several lines.
pub open spec fn multiline_views(v: Seq<ReviewOldMultiline>) -> Seq<(Seq<char>, Seq<char>)> {
    v.map_values(|m: ReviewOldMultiline| (m.field@, m.value@))
}

/// A kind of medium, as the form knows it.
#[derive(Debug)]
pub struct EditMediaTypeRow {
    pub code: String,
    pub name: String,
    pub layer_count: u32,
    pub pic: bool,
    pub rom_extension: String,
}

/// A category.
#[derive(Debug)]
pub struct CategoryRow {
    pub id: i32,
    pub name: String,
}

/// What the form offers for choice.
#[derive(Debug)]
pub struct EditRefData {
    pub all_systems: Vec<System>,
    pub all_media_types: Vec<EditMediaTypeRow>,
    pub all_categories: Vec<CategoryRow>,
    pub all_regions: Vec<Region>,
    pub all_languages: Vec<Language>,
}

/// Who is logged in.
pub struct UserView {
    pub id: i32,
    pub username: Seq<char>,
    pub role: UserRole,
    pub avatar_url: Option<Seq<char>>,
}

/// Who is logged in, if anyone is.
pub open spec fn user_view(u: Option<AuthenticatedUser>) -> Option<UserView> {
    match u {
        Some(u) => Some(
            UserView {
                id: u.id,
                username: u.username@,
                role: u.role,
                avatar_url: text::opt_text(u.avatar_url),
            },
        ),
        None => None,
    }
}

/// The form in which a disc is edited and reviewed.
#[derive(Debug)]
pub struct DiscEditTemplate {
    pub current_user: Option<AuthenticatedUser>,
    pub disc_id: i32,
    pub page_title: String,
    pub systems: Vec<Choice>,
    pub media_types_all: Vec<Choice>,
    pub categories: Vec<CategoryChoice>,
    pub regions: Vec<CheckOption>,
    pub languages: Vec<CheckOption>,
    pub system_code: String,
    pub media_type_code: String,
    pub max_layers: u32,
    pub media_layers_json: String,
    pub systems_media_json: String,
    pub systems_has_flags_json: String,
    pub edition_suggestions_json: String,
    pub submit_as_usernames_json: String,
    pub media_rom_extensions_json: String,
    pub media_is_cd_json: String,
    pub title: String,
    pub show_title_foreign: bool,
    pub title_foreign: String,
    pub show_disc_number: bool,
    pub disc_number: String,
    pub show_disc_title: bool,
    pub disc_title: String,
    pub filename_suffix: String,
    pub show_serial: bool,
    pub serials: Vec<HighlightedValue>,
    pub show_version: bool,
    pub version: String,
    pub show_edition: bool,
    pub editions: Vec<HighlightedValue>,
    pub show_barcode: bool,
    pub barcodes: Vec<HighlightedValue>,
    pub ring_codes_json: String,
    pub ring_highlights_json: String,
    pub comments: String,
    pub contents: String,
    pub show_error_count: bool,
    pub error_count: String,
    pub show_exe_date: bool,
    pub exe_date: String,
    pub show_edc: bool,
    pub edc_value: String,
    pub layerbreaks: Vec<String>,
    pub show_pvd: bool,
    pub pvd_hex: String,
    pub show_pic: bool,
    pub media_has_pic_json: String,
    pub pic_hex: String,
    pub show_bca: bool,
    pub bca_hex: String,
    pub show_header: bool,
    pub header_hex: String,
    pub show_disc_id: bool,
    pub show_key: bool,
    pub show_universal_hash: bool,
    pub show_protection: bool,
    pub protection: String,
    pub show_sector_ranges: bool,
    pub sector_ranges_text: String,
    pub show_sbi: bool,
    pub sbi: String,
    pub protection_key_disc_key: String,
    pub universal_hash: String,
    pub protection_key_disc_id: String,
    pub has_sample_start: bool,
    pub cue: String,
    pub files_xml: String,
    pub status: String,
    pub is_add_mode: bool,
    pub dump_log: String,
    pub dump_log_required: bool,
    pub extra_upload_url: String,
    pub show_submit_as: bool,
    pub submit_as_username: String,
    pub submit_button_text: String,
    pub validation_errors: Vec<String>,
    pub linked_validation_errors: Vec<ApprovalConflict>,
    pub validation_result: String,
    pub validation_result_disc_id: i32,
    pub validation_result_disc_title: String,
    pub is_review_mode: bool,
    pub changed_fields: Vec<String>,
    pub review_annotations: Vec<ReviewAnnotation>,
    pub review_old_multiline: Vec<ReviewOldMultiline>,
    pub submission_id: i32,
    pub submission_type_display: String,
    pub submitter_id: i32,
    pub submitter_name: String,
    pub submission_comment: String,
    pub dump_log_display: String,
    pub extra_upload_url_display: String,
    pub submission_status: String,
    pub reviewer_id: i32,
    pub reviewer_name: String,
    pub review_comment_display: String,
    pub review_comment_input: String,
    pub created_at_display: String,
    pub reviewed_at_display: String,
    pub changes_json: String,
}

/// What the form shows.
pub struct TemplateView {
    pub current_user: Option<UserView>,
    pub disc_id: i32,
    pub page_title: Seq<char>,
    pub systems: Seq<ChoiceView>,
    pub media_types_all: Seq<ChoiceView>,
    pub categories: Seq<(Seq<char>, bool)>,
    pub regions: Seq<CheckView>,
    pub languages: Seq<CheckView>,
    pub system_code: Seq<char>,
    pub media_type_code: Seq<char>,
    pub max_layers: u32,
    pub media_layers_json: Seq<char>,
    pub systems_media_json: Seq<char>,
    pub systems_has_flags_json: Seq<char>,
    pub edition_suggestions_json: Seq<char>,
    pub submit_as_usernames_json: Seq<char>,
    pub media_rom_extensions_json: Seq<char>,
    pub media_is_cd_json: Seq<char>,
    pub title: Seq<char>,
    pub show_title_foreign: bool,
    pub title_foreign: Seq<char>,
    pub show_disc_number: bool,
    pub disc_number: Seq<char>,
    pub show_disc_title: bool,
    pub disc_title: Seq<char>,
    pub filename_suffix: Seq<char>,
    pub show_serial: bool,
    pub serials: Seq<(Seq<char>, Seq<char>)>,
    pub show_version: bool,
    pub version: Seq<char>,
    pub show_edition: bool,
    pub editions: Seq<(Seq<char>, Seq<char>)>,
    pub show_barcode: bool,
    pub barcodes: Seq<(Seq<char>, Seq<char>)>,
    pub ring_codes_json: Seq<char>,
    pub ring_highlights_json: Seq<char>,
    pub comments: Seq<char>,
    pub contents: Seq<char>,
    pub show_error_count: bool,
    pub error_count: Seq<char>,
    pub show_exe_date: bool,
    pub exe_date: Seq<char>,
    pub show_edc: bool,
    pub edc_value: Seq<char>,
    pub layerbreaks: Seq<Seq<char>>,
    pub show_pvd: bool,
    pub pvd_hex: Seq<char>,
    pub show_pic: bool,
    pub media_has_pic_json: Seq<char>,
    pub pic_hex: Seq<char>,
    pub show_bca: bool,
    pub bca_hex: Seq<char>,
    pub show_header: bool,
    pub header_hex: Seq<char>,
    pub show_disc_id: bool,
    pub show_key: bool,
    pub show_universal_hash: bool,
    pub show_protection: bool,
    pub protection: Seq<char>,
    pub show_sector_ranges: bool,
    pub sector_ranges_text: Seq<char>,
    pub show_sbi: bool,
    pub sbi: Seq<char>,
    pub protection_key_disc_key: Seq<char>,
    pub universal_hash: Seq<char>,
    pub protection_key_disc_id: Seq<char>,
    pub has_sample_start: bool,
    pub cue: Seq<char>,
    pub files_xml: Seq<char>,
    pub status: Seq<char>,
    pub is_add_mode: bool,
    pub dump_log: Seq<char>,
    pub dump_log_required: bool,
    pub extra_upload_url: Seq<char>,
    pub show_submit_as: bool,
    pub submit_as_username: Seq<char>,
    pub submit_button_text: Seq<char>,
    pub validation_errors: Seq<Seq<char>>,
    pub linked_validation_errors: Seq<ConflictView>,
    pub validation_result: Seq<char>,
    pub validation_result_disc_id: i32,
    pub validation_result_disc_title: Seq<char>,
    pub is_review_mode: bool,
    pub changed_fields: Seq<Seq<char>>,
    pub review_annotations: Seq<AnnotationView>,
    pub review_old_multiline: Seq<(Seq<char>, Seq<char>)>,
    pub submission_id: i32,
    pub submission_type_display: Seq<char>,
    pub submitter_id: i32,
    pub submitter_name: Seq<char>,
    pub submission_comment: Seq<char>,
    pub dump_log_display: Seq<char>,
    pub extra_upload_url_display: Seq<char>,
    pub submission_status: Seq<char>,
    pub reviewer_id: i32,
    pub reviewer_name: Seq<char>,
    pub review_comment_display: Seq<char>,
    pub review_comment_input: Seq<char>,
    pub created_at_display: Seq<char>,
    pub reviewed_at_display: Seq<char>,
    pub changes_json: Seq<char>,
}

impl View for DiscEditTemplate {
    type V = TemplateView;

    open spec fn view(&self) -> TemplateView {
        TemplateView {
            current_user: user_view(self.current_user),
            disc_id: self.disc_id,
            page_title: self.page_title@,
            systems: choice_views(self.systems@),
            media_types_all: choice_views(self.media_types_all@),
            categories: category_views(self.categories@),
            regions: check_views(self.regions@),
            languages: check_views(self.languages@),
            system_code: self.system_code@,
            media_type_code: self.media_type_code@,
            max_layers: self.max_layers,
            media_layers_json: self.media_layers_json@,
            systems_media_json: self.systems_media_json@,
            systems_has_flags_json: self.systems_has_flags_json@,
            edition_suggestions_json: self.edition_suggestions_json@,
            submit_as_usernames_json: self.submit_as_usernames_json@,
            media_rom_extensions_json: self.media_rom_extensions_json@,
            media_is_cd_json: self.media_is_cd_json@,
            title: self.title@,
            show_title_foreign: self.show_title_foreign,
            title_foreign: self.title_foreign@,
            show_disc_number: self.show_disc_number,
            disc_number: self.disc_number@,
            show_disc_title: self.show_disc_title,
            disc_title: self.disc_title@,
            filename_suffix: self.filename_suffix@,
            show_serial: self.show_serial,
            serials: highlighted_views(self.serials@),
            show_version: self.show_version,
            version: self.version@,
            show_edition: self.show_edition,
            editions: highlighted_views(self.editions@),
            show_barcode: self.show_barcode,
            barcodes: highlighted_views(self.barcodes@),
            ring_codes_json: self.ring_codes_json@,
            ring_highlights_json: self.ring_highlights_json@,
            comments: self.comments@,
            contents: self.contents@,
            show_error_count: self.show_error_count,
            error_count: self.error_count@,
            show_exe_date: self.show_exe_date,
            exe_date: self.exe_date@,
            show_edc: self.show_edc,
            edc_value: self.edc_value@,
            layerbreaks: text::texts(self.layerbreaks@),
            show_pvd: self.show_pvd,
            pvd_hex: self.pvd_hex@,
            show_pic: self.show_pic,
            media_has_pic_json: self.media_has_pic_json@,
            pic_hex: self.pic_hex@,
            show_bca: self.show_bca,
            bca_hex: self.bca_hex@,
            show_header: self.show_header,
            header_hex: self.header_hex@,
            show_disc_id: self.show_disc_id,
            show_key: self.show_key,
            show_universal_hash: self.show_universal_hash,
            show_protection: self.show_protection,
            protection: self.protection@,
            show_sector_ranges: self.show_sector_ranges,
            sector_ranges_text: self.sector_ranges_text@,
            show_sbi: self.show_sbi,
            sbi: self.sbi@,
            protection_key_disc_key: self.protection_key_disc_key@,
            universal_hash: self.universal_hash@,
            protection_key_disc_id: self.protection_key_disc_id@,
            has_sample_start: self.has_sample_start,
            cue: self.cue@,
            files_xml: self.files_xml@,
            status: self.status@,
            is_add_mode: self.is_add_mode,
            dump_log: self.dump_log@,
            dump_log_required: self.dump_log_required,
            extra_upload_url: self.extra_upload_url@,
            show_submit_as: self.show_submit_as,
            submit_as_username: self.submit_as_username@,
            submit_button_text: self.submit_button_text@,
            validation_errors: text::texts(self.validation_errors@),
            linked_validation_errors: approval::conflict_views(self.linked_validation_errors@),
            validation_result: self.validation_result@,
            validation_result_disc_id: self.validation_result_disc_id,
            validation_result_disc_title: self.validation_result_disc_title@,
            is_review_mode: self.is_review_mode,
            changed_fields: text::texts(self.changed_fields@),
            review_annotations: annotation_views(self.review_annotations@),
            review_old_multiline: multiline_views(self.review_old_multiline@),
            submission_id: self.submission_id,
            submission_type_display: self.submission_type_display@,
            submitter_id: self.submitter_id,
            submitter_name: self.submitter_name@,
            submission_comment: self.submission_comment@,
            dump_log_display: self.dump_log_display@,
            extra_upload_url_display: self.extra_upload_url_display@,
            submission_status: self.submission_status@,
            reviewer_id: self.reviewer_id,
            reviewer_name: self.reviewer_name@,
            review_comment_display: self.review_comment_display@,
            review_comment_input: self.review_comment_input@,
            created_at_display: self.created_at_display@,
            reviewed_at_display: self.reviewed_at_display@,
            changes_json: self.changes_json@,
        }
    }
}

// ── Choices ────────────────────────────────────────────────────────────────

/// The systems, with the chosen one marked.
pub open spec fn system_choices(v: Seq<System>, code: Seq<char>) -> Seq<ChoiceView> {
    v.map_values(
        |s: System|
            ChoiceView {
                code: s.code@,
                name: s.full_name(),
                selected: s.code@ == code,
            },
    )
}

/// The systems, with the chosen one marked.
pub fn build_system_options(systems: &Vec<System>, selected: &str) -> (r: Vec<Choice>)
    ensures
        choice_views(r@) == system_choices(systems@, selected@),
{
    let ghost all = system_choices(systems@, selected@);
    let mut out: Vec<Choice> = Vec::new();
    assert(choice_views(out@) =~= all.take(0));
    for i in 0..systems.len()
        invariant
            all == system_choices(systems@, selected@),
            choice_views(out@) == all.take(i as int),
    {
        let s = &systems[i];
        let c = Choice {
            code: s.code.clone(),
            name: s.system_name(),
            selected: str_eq(s.code.as_str(), selected),
        };
        let ghost before = out@;
        out.push(c);
        assert(choice_views(out@) =~= choice_views(before).push(all[i as int]));
        assert(all.take(i + 1) =~= all.take(i as int).push(all[i as int]));
    }
    assert(all.take(all.len() as int) =~= all);
    out
}

/// The kinds of media, with the chosen one marked.
pub open spec fn media_choices(v: Seq<EditMediaTypeRow>, code: Seq<char>) -> Seq<ChoiceView> {
    v.map_values(
        |m: EditMediaTypeRow|
            ChoiceView { code: m.code@, name: m.name@, selected: m.code@ == code },
    )
}

/// The kinds of media, with the chosen one marked.
pub fn build_media_options(media: &Vec<EditMediaTypeRow>, selected: &str) -> (r: Vec<Choice>)
    ensures
        choice_views(r@) == media_choices(media@, selected@),
{
    let ghost all = media_choices(media@, selected@);
    let mut out: Vec<Choice> = Vec::new();
    assert(choice_views(out@) =~= all.take(0));
    for i in 0..media.len()
        invariant
            all == media_choices(media@, selected@),
            choice_views(out@) == all.take(i as int),
    {
        let m = &media[i];
        let c = Choice {
            code: m.code.clone(),
            name: m.name.clone(),
            selected: str_eq(m.code.as_str(), selected),
        };
        let ghost before = out@;
        out.push(c);
        assert(choice_views(out@) =~= choice_views(before).push(all[i as int]));
        assert(all.take(i + 1) =~= all.take(i as int).push(all[i as int]));
    }
    assert(all.take(all.len() as int) =~= all);
    out
}

/// The categories, with the chosen one marked.
pub open spec fn category_choices(v: Seq<CategoryRow>, name: Seq<char>) -> Seq<(Seq<char>, bool)> {
    v.map_values(|c: CategoryRow| (c.name@, c.name@ == name))
}

/// The categories, with the chosen one marked.
pub fn build_category_options(categories: &Vec<CategoryRow>, selected: &str) -> (r: Vec<
    CategoryChoice,
>)
    ensures
        category_views(r@) == category_choices(categories@, selected@),
{
    let ghost all = category_choices(categories@, selected@);
    let mut out: Vec<CategoryChoice> = Vec::new();
    assert(category_views(out@) =~= all.take(0));
    for i in 0..categories.len()
        invariant
            all == category_choices(categories@, selected@),
            category_views(out@) == all.take(i as int),
    {
        let c = &categories[i];
        let x = CategoryChoice {
            value: c.name.clone(),
            selected: str_eq(c.name.as_str(), selected),
        };
        let ghost before = out@;
        out.push(x);
        assert(category_views(out@) =~= category_views(before).push(all[i as int]));
        assert(all.take(i + 1) =~= all.take(i as int).push(all[i as int]));
    }
    assert(all.take(all.len() as int) =~= all);
    out
}

/// A code is among chosen ones, whatever space stands around it.
pub open spec fn chosen(codes: Seq<Seq<char>>, code: Seq<char>) -> bool {
    exists|i: int| 0 <= i < codes.len() && text::trim(#[trigger] codes[i]) == text::trim(code)
}

fn is_chosen(codes: &Vec<String>, code: &str) -> (r: bool)
    ensures
        r == chosen(text::texts(codes@), code@),
{
    let ghost all = text::texts(codes@);
    let wanted = str_trim(code);
    for i in 0..codes.len()
        invariant
            all == text::texts(codes@),
            wanted@ == text::trim(code@),
            forall|k: int| 0 <= k < i ==> text::trim(#[trigger] all[k]) != text::trim(code@),
    {
        assert(all[i as int] == codes@[i as int]@);
        if str_eq(str_trim(codes[i].as_str()).as_str(), wanted.as_str()) {
            return true;
        }
    }
    false
}

/// An entry that is chosen if its code is among the chosen ones.
pub open spec fn check_view(code: Seq<char>, name: Seq<char>, codes: Seq<Seq<char>>) -> CheckView {
    CheckView {
        value: text::trim(code),
        label: name,
        checked: chosen(codes, code),
        highlight: Seq::empty(),
    }
}

/// The regions, with the chosen ones marked.
pub open spec fn region_checks(v: Seq<Region>, codes: Seq<Seq<char>>) -> Seq<CheckView> {
    v.map_values(|x: Region| check_view(x.code@, x.name@, codes))
}

/// The languages, with the chosen ones marked.
pub open spec fn language_checks(v: Seq<Language>, codes: Seq<Seq<char>>) -> Seq<CheckView> {
    v.map_values(|x: Language| check_view(x.code@, x.name@, codes))
}

fn build_check(code: &str, name: &str, codes: &Vec<String>) -> (r: CheckOption)
    ensures
        r.value@ == text::trim(code@),
        r.label@ == name@,
        r.checked == chosen(text::texts(codes@), code@),
        r.highlight@ == Seq::<char>::empty(),
{
    CheckOption {
        value: str_trim(code),
        label: String::from_str(name),
        checked: is_chosen(codes, code),
        highlight: String::new(),
    }
}

/// The regions, with the chosen ones marked.
pub fn build_check_options(regions: &Vec<Region>, codes: &Vec<String>) -> (r: Vec<CheckOption>)
    ensures
        check_views(r@) == region_checks(regions@, text::texts(codes@)),
{
    let ghost all = region_checks(regions@, text::texts(codes@));
    let mut out: Vec<CheckOption> = Vec::new();
    assert(check_views(out@) =~= all.take(0));
    for i in 0..regions.len()
        invariant
            all == region_checks(regions@, text::texts(codes@)),
            check_views(out@) == all.take(i as int),
    {
        let c = build_check(regions[i].code.as_str(), regions[i].name.as_str(), codes);
        let ghost before = out@;
        out.push(c);
        assert(check_views(out@) =~= check_views(before).push(all[i as int]));
        assert(all.take(i + 1) =~= all.take(i as int).push(all[i as int]));
    }
    assert(all.take(all.len() as int) =~= all);
    out
}

/// The languages, with the chosen ones marked.
pub fn build_lang_check_options(languages: &Vec<Language>, codes: &Vec<String>) -> (r: Vec<
    CheckOption,
>)
    ensures
        check_views(r@) == language_checks(languages@, text::texts(codes@)),
{
    let ghost all = language_checks(languages@, text::texts(codes@));
    let mut out: Vec<CheckOption> = Vec::new();
    assert(check_views(out@) =~= all.take(0));
    for i in 0..languages.len()
        invariant
            all == language_checks(languages@, text::texts(codes@)),
            check_views(out@) == all.take(i as int),
    {
        let c = build_check(languages[i].code.as_str(), languages[i].name.as_str(), codes);
        let ghost before = out@;
        out.push(c);
        assert(check_views(out@) =~= check_views(before).push(all[i as int]));
        assert(all.take(i + 1) =~= all.take(i as int).push(all[i as int]));
    }
    assert(all.take(all.len() as int) =~= all);
    out
}

/// The first kind of media from `i` on with a code.
pub open spec fn media_from(v: Seq<EditMediaTypeRow>, code: Seq<char>, i: int) -> Option<int>
    decreases v.len() - i,
{
    if i < 0 || i >= v.len() {
        None
    } else if v[i].code@ == code {
        Some(i)
    } else {
        media_from(v, code, i + 1)
    }
}

/// Finds the kind of media with a code.
pub fn find_media(v: &Vec<EditMediaTypeRow>, code: &str) -> (r: Option<usize>)
    ensures
        match r {
            Some(k) => k < v@.len() && media_from(v@, code@, 0) == Some(k as int),
            None => media_from(v@, code@, 0) is None,
        },
{
    for i in 0..v.len()
        invariant
            media_from(v@, code@, i as int) == media_from(v@, code@, 0),
    {
        if str_eq(v[i].code.as_str(), code) {
            return Some(i);
        }
    }
    None
}

/// The first system from `i` on with a code.
pub open spec fn system_from(v: Seq<System>, code: Seq<char>, i: int) -> Option<int>
    decreases v.len() - i,
{
    if i < 0 || i >= v.len() {
        None
    } else if v[i].code@ == code {
        Some(i)
    } else {
        system_from(v, code, i + 1)
    }
}

/// Finds the system with a code.
pub fn find_system(v: &Vec<System>, code: &str) -> (r: Option<usize>)
    ensures
        match r {
            Some(k) => k < v@.len() && system_from(v@, code@, 0) == Some(k as int),
            None => system_from(v@, code@, 0) is None,
        },
{
    for i in 0..v.len()
        invariant
            system_from(v@, code@, i as int) == system_from(v@, code@, 0),
    {
        if str_eq(v[i].code.as_str(), code) {
            return Some(i);
        }
    }
    None
}

/// The number of layers of a kind of media; one that is not known has one.
pub open spec fn layers_of_media(v: Seq<EditMediaTypeRow>, code: Seq<char>) -> u32 {
    match media_from(v, code, 0) {
        Some(i) => v[i].layer_count,
        None => 1,
    }
}

/// The number of layers of a kind of media.
pub fn max_layers_for_media(v: &Vec<EditMediaTypeRow>, code: &str) -> (r: u32)
    ensures
        r == layers_of_media(v@, code@),
{
    match find_media(v, code) {
        Some(i) => v[i].layer_count,
        None => 1,
    }
}

/// A kind of media whose dumps are those of a CD.
pub open spec fn media_is_cd(v: Seq<EditMediaTypeRow>, code: Seq<char>) -> bool {
    match media_from(v, code, 0) {
        Some(i) => models::cd_extension(v[i].rom_extension@),
        None => false,
    }
}

/// Whether the dumps of a kind of media are those of a CD.
pub fn is_cd_media(v: &Vec<EditMediaTypeRow>, code: &str) -> (r: bool)
    ensures
        r == media_is_cd(v@, code@),
{
    match find_media(v, code) {
        Some(i) => is_cd_rom_extension(v[i].rom_extension.as_str()),
        None => false,
    }
}

/// A kind of media that has permanent information and control data.
pub open spec fn media_has_pic(v: Seq<EditMediaTypeRow>, code: Seq<char>) -> bool {
    match media_from(v, code, 0) {
        Some(i) => v[i].pic,
        None => false,
    }
}

/// Whether a kind of media has permanent information and control data.
pub fn is_pic_media(v: &Vec<EditMediaTypeRow>, code: &str) -> (r: bool)
    ensures
        r == media_has_pic(v@, code@),
{
    match find_media(v, code) {
        Some(i) => v[i].pic,
        None => false,
    }
}

} // verus!
