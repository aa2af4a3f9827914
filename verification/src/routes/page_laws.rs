//! What the page of a review shows of a submission.

use vstd::prelude::*;

use crate::json::{self, JsonView};
use crate::models::{AuthenticatedUser, DiscSubmission, System};
use crate::naming;
use crate::numbers;
use crate::routes::disc_edit::{self, EditRefData, TemplateView};
use crate::routes::review_diff;
use crate::routes::review_template::{self, ReviewPage};
use crate::routes::review_values;
use crate::routes::search;
use crate::services::disc_update;
use crate::services::search_service::SearchResult;
use crate::services::validation;
use crate::text;

verus! {

/// A text that may be missing.
pub open spec fn or_nothing(t: Option<Seq<char>>) -> Seq<char> {
    match t {
        Some(s) => s,
        None => Seq::empty(),
    }
}

/// What the page of a review shows in its fields is what a snapshot writes of a disc: each
/// field what is written under its own name.
pub proof fn law_page_shows_what_is_written(
    current_user: AuthenticatedUser,
    sub: DiscSubmission,
    page: ReviewPage,
    snapshot: JsonView,
    ref_data: EditRefData,
    system_code: Seq<char>,
    media_type_code: Seq<char>,
    max_layers: u32,
    system: Option<&System>,
)
    ensures
        ({
            let p = review_template::review_view(
                current_user,
                sub,
                page,
                snapshot,
                ref_data,
                system_code,
                media_type_code,
                max_layers,
                system,
            );
            let u = disc_update::update_of(snapshot);
            &&& p.title == u.title
            &&& p.title_foreign == or_nothing(u.title_foreign)
            &&& p.disc_number == or_nothing(u.disc_number)
            &&& p.disc_title == or_nothing(u.disc_title)
            &&& p.filename_suffix == or_nothing(u.filename_suffix)
            &&& p.version == or_nothing(u.version)
            &&& p.exe_date == or_nothing(u.exe_date)
            &&& text::unix_newlines(p.comments) == or_nothing(u.comments)
            &&& text::unix_newlines(p.contents) == or_nothing(u.contents)
            &&& text::unix_newlines(p.protection) == or_nothing(u.protection)
            &&& text::unix_newlines(p.sbi) == or_nothing(u.sbi)
            &&& text::unix_newlines(p.cue) == or_nothing(u.cue)
            &&& text::trim(p.protection_key_disc_id) == or_nothing(u.disc_id)
            &&& p.edc_value == (if u.edc {
                "true"@
            } else {
                "false"@
            })
            &&& p.system_code == system_code
            &&& p.media_type_code == media_type_code
        }),
{
    assert(text::unix_newlines(Seq::<char>::empty()) =~= Seq::<char>::empty());
    assert(text::trim(Seq::<char>::empty()) =~= Seq::<char>::empty());
    lemma_filled(json::field(snapshot, "title_foreign"@));
    lemma_filled(json::field(snapshot, "disc_number"@));
    lemma_filled(json::field(snapshot, "disc_title"@));
    lemma_filled(json::field(snapshot, "filename_suffix"@));
    lemma_filled(json::field(snapshot, "version"@));
    lemma_filled(json::field(snapshot, "exe_date"@));
    lemma_filled(json::field(snapshot, "comments"@));
    lemma_filled(json::field(snapshot, "contents"@));
    lemma_filled(json::field(snapshot, "protection"@));
    lemma_filled(json::field(snapshot, "sbi"@));
    lemma_filled(json::field(snapshot, "cuesheet"@));
    lemma_filled(json::field(snapshot, "disc_id"@));
}

proof fn lemma_filled(v: JsonView)
    ensures
        json::text_or_empty(v) == or_nothing(disc_update::filled(v)),
        text::unix_newlines(json::text_or_empty(v)) == or_nothing(disc_update::filled_lines(v)),
        text::trim(json::text_or_empty(v)) == or_nothing(disc_update::filled_trim(v)),
{
    assert(text::unix_newlines(Seq::<char>::empty()) =~= Seq::<char>::empty());
    assert(text::trim(Seq::<char>::empty()) =~= Seq::<char>::empty());
    if let JsonView::Str(s) = v {
        if s.len() == 0 {
            assert(s =~= Seq::<char>::empty());
        }
        if text::unix_newlines(s).len() == 0 {
            assert(text::unix_newlines(s) =~= Seq::<char>::empty());
        }
        if text::trim(s).len() == 0 {
            assert(text::trim(s) =~= Seq::<char>::empty());
        }
    }
}

/// The page of a submission for a system shows the fields that the system has, and no others.
pub proof fn law_page_shows_the_fields_of_the_system(
    current_user: AuthenticatedUser,
    sub: DiscSubmission,
    page: ReviewPage,
    snapshot: JsonView,
    ref_data: EditRefData,
    system_code: Seq<char>,
    media_type_code: Seq<char>,
    max_layers: u32,
    s: &System,
)
    ensures
        ({
            let p = review_template::review_view(
                current_user,
                sub,
                page,
                snapshot,
                ref_data,
                system_code,
                media_type_code,
                max_layers,
                Some(s),
            );
            &&& p.show_title_foreign == s.has_title_foreign
            &&& p.show_disc_number == s.has_disc_number
            &&& p.show_disc_title == s.has_disc_title
            &&& p.show_serial == s.has_serial
            &&& p.show_version == s.has_version
            &&& p.show_edition == s.has_edition
            &&& p.show_barcode == s.has_barcode
            &&& p.show_exe_date == s.has_exe_date
            &&& p.show_edc == s.has_edc
            &&& p.show_pvd == s.has_pvd
            &&& p.show_bca == s.has_bca
            &&& p.show_header == s.has_header
            &&& p.show_disc_id == s.has_disc_id
            &&& p.show_key == s.has_key
            &&& p.show_universal_hash == s.has_universal_hash
            &&& p.show_protection == s.has_protection
            &&& p.show_sector_ranges == s.has_sector_ranges
            &&& p.show_sbi == s.has_sbi
            &&& p.has_sample_start == s.has_sample_start
        }),
{
}

/// A page that is turned to the stored system shows its fields as that of a submission for
/// it does.
pub proof fn law_stored_system_shows_its_fields(
    t: TemplateView,
    db: JsonView,
    submitted: JsonView,
    ref_data: EditRefData,
    k: int,
)
    requires
        review_values::value_changed(json::field(db, "system_code"@), json::field(submitted, "system_code"@)),
        0 <= k < ref_data.all_systems@.len(),
        json::field(db, "system_code"@) == JsonView::Str(ref_data.all_systems@[k].code@),
        forall|j: int|
            0 <= j < k ==> (#[trigger] ref_data.all_systems@[j]).code@
                != ref_data.all_systems@[k].code@,
    ensures
        ({
            let p = review_diff::with_stored_system(t, db, submitted, ref_data);
            let s = ref_data.all_systems@[k];
            &&& p.system_code == s.code@
            &&& p.show_serial == s.has_serial
            &&& p.show_version == s.has_version
            &&& p.show_edition == s.has_edition
            &&& p.show_barcode == s.has_barcode
            &&& p.show_exe_date == s.has_exe_date
            &&& p.show_edc == s.has_edc
            &&& p.show_pvd == s.has_pvd
            &&& p.show_bca == s.has_bca
            &&& p.show_header == s.has_header
            &&& p.show_disc_id == s.has_disc_id
            &&& p.show_key == s.has_key
            &&& p.show_universal_hash == s.has_universal_hash
            &&& p.show_protection == s.has_protection
            &&& p.show_sector_ranges == s.has_sector_ranges
            &&& p.show_sbi == s.has_sbi
            &&& p.has_sample_start == s.has_sample_start
            &&& p.show_title_foreign == s.has_title_foreign
            &&& p.show_disc_number == s.has_disc_number
            &&& p.show_disc_title == s.has_disc_title
        }),
{
    reveal(review_diff::with_stored_system);
    lemma_system_from(ref_data.all_systems@, ref_data.all_systems@[k].code@, 0, k);
}

proof fn lemma_system_from(v: Seq<System>, code: Seq<char>, i: int, k: int)
    requires
        0 <= i <= k < v.len(),
        v[k].code@ == code,
        forall|j: int| 0 <= j < k ==> (#[trigger] v[j]).code@ != code,
    ensures
        disc_edit::system_from(v, code, i) == Some(k),
    decreases k - i,
{
    if i < k {
        assert(v[i].code@ != code);
        lemma_system_from(v, code, i + 1, k);
    }
}

/// The ranges of sectors are shown as they are read: line by line, the first end before the
/// second.
pub proof fn law_shown_ranges_read_back(a: i32, b: i32, v: JsonView)
    requires
        json::field(v, "start"@) == JsonView::Int(a as int),
        json::field(v, "end"@) == JsonView::Int(b as int),
    ensures
        validation::range_of_line(review_values::range_line(v)) == Some((a as int, b as int)),
{
    crate::services::field_laws::law_ranges_read_back(a, b);
}

/// Every disc that was found is in the list, with its address, its title and its system.
pub proof fn law_found_discs_are_listed(v: Seq<SearchResult>, i: int)
    requires
        0 <= i < v.len(),
    ensures
        exists|a: Seq<char>, b: Seq<char>| #[trigger]
            (a + ("<a href=\"/disc/"@ + numbers::int_text(v[i].id as int) + "/\">"@ + v[i].title@
                + " <small>("@ + v[i].system@ + ")</small></a>"@) + b) == search::results_html(v),
{
    reveal_strlit("<li><a href=\"/disc/");
    reveal_strlit("<li>");
    reveal_strlit("<a href=\"/disc/");
    reveal_strlit(")</small></a></li>");
    reveal_strlit(")</small></a>");
    reveal_strlit("</li>");
    let (a, b) = lemma_item_listed(v, i);
    let r = v[i];
    let x = "<a href=\"/disc/"@ + numbers::int_text(r.id as int) + "/\">"@ + r.title@ + " <small>("@
        + r.system@ + ")</small></a>"@;
    assert("<li><a href=\"/disc/"@ =~= "<li>"@ + "<a href=\"/disc/"@);
    assert(")</small></a></li>"@ =~= ")</small></a>"@ + "</li>"@);
    assert(search::result_item(r) =~= "<li>"@ + x + "</li>"@);
    let head = "<ul class=\"search-results\">"@;
    let tail = "</ul>"@;
    assert((head + a + "<li>"@) + x + ("</li>"@ + b + tail) =~= search::results_html(v)) by {
        assert(search::results_html(v) == head + search::result_items(v) + tail);
        assert(search::result_items(v) == a + search::result_item(r) + b);
    }
}

proof fn lemma_item_listed(v: Seq<SearchResult>, i: int) -> (r: (Seq<char>, Seq<char>))
    requires
        0 <= i < v.len(),
    ensures
        search::result_items(v) == r.0 + search::result_item(v[i]) + r.1,
    decreases v.len(),
{
    let front = v.drop_last();
    if i == v.len() - 1 {
        let none = Seq::<char>::empty();
        assert(search::result_items(v) =~= search::result_items(front) + search::result_item(v[i]) + none);
        (search::result_items(front), none)
    } else {
        let (a, b) = lemma_item_listed(front, i);
        assert(front[i] == v[i]);
        assert(search::result_items(v) =~= a + search::result_item(v[i]) + (b + search::result_item(v.last())));
        (a, b + search::result_item(v.last()))
    }
}

/// The page of a review shows the submission itself: who submitted it and who reviewed it, what
/// they wrote, and when.
pub proof fn law_page_shows_the_submission(
    current_user: AuthenticatedUser,
    sub: DiscSubmission,
    page: ReviewPage,
    snapshot: JsonView,
    ref_data: EditRefData,
    system_code: Seq<char>,
    media_type_code: Seq<char>,
    max_layers: u32,
    system: Option<&System>,
)
    ensures
        ({
            let p = review_template::review_view(
                current_user,
                sub,
                page,
                snapshot,
                ref_data,
                system_code,
                media_type_code,
                max_layers,
                system,
            );
            &&& p.submission_id == sub.id
            &&& p.submission_type_display == sub.submission_type.name()
            &&& p.submission_status == sub.status.name()
            &&& p.submitter_id == sub.submitter_id
            &&& p.submitter_name == page.submitter_name@
            &&& p.reviewer_name == page.reviewer_name@
            &&& sub.reviewer_id matches Some(id) ==> p.reviewer_id == id
            &&& sub.target_disc_id matches Some(id) ==> p.disc_id == id
            &&& sub.submission_comment matches Some(c) ==> p.submission_comment == c@
            &&& sub.dump_log matches Some(c) ==> p.dump_log_display == c@
            &&& sub.extra_upload_url matches Some(c) ==> p.extra_upload_url_display == c@
            &&& sub.review_comment matches Some(c) ==> p.review_comment_display == c@
            &&& sub.submission_comment is None ==> p.submission_comment.len() == 0
            &&& sub.dump_log is None ==> p.dump_log_display.len() == 0
            &&& sub.extra_upload_url is None ==> p.extra_upload_url_display.len() == 0
            &&& sub.review_comment is None ==> p.review_comment_display.len() == 0
            &&& sub.reviewed_at is None ==> p.reviewed_at_display.len() == 0
            &&& sub.reviewed_at == Some(sub.created_at) ==> p.reviewed_at_display
                == p.created_at_display
            &&& p.is_review_mode && !p.is_add_mode
            &&& p.validation_errors.len() == 0
            &&& p.current_user matches Some(u) && u.id == current_user.id && u.username
                == current_user.username@
        }),
{
}

/// The title of the page of a review is the title that is shown in its fields, with what tells
/// the disc from others.
pub proof fn law_title_of_the_page(
    current_user: AuthenticatedUser,
    sub: DiscSubmission,
    page: ReviewPage,
    snapshot: JsonView,
    ref_data: EditRefData,
    system_code: Seq<char>,
    media_type_code: Seq<char>,
    max_layers: u32,
    system: Option<&System>,
    number: Seq<char>,
    title: Seq<char>,
    suffix: Seq<char>,
)
    requires
        json::field(snapshot, "disc_number"@) == JsonView::Str(number),
        json::field(snapshot, "disc_title"@) == JsonView::Str(title),
        json::field(snapshot, "filename_suffix"@) == JsonView::Str(suffix),
    ensures
        ({
            let p = review_template::review_view(
                current_user,
                sub,
                page,
                snapshot,
                ref_data,
                system_code,
                media_type_code,
                max_layers,
                system,
            );
            p.page_title == p.title + " (Disc "@ + p.disc_number + ")"@ + " ("@ + p.disc_title + ")"@
                + " ("@ + p.filename_suffix + ")"@
        }),
{
    reveal_strlit(" (Disc ");
    reveal_strlit(" (");
    reveal_strlit("Disc ");
    reveal_strlit(")");
    assert(" ("@ + "Disc "@ =~= " (Disc "@);
    let t = json::text_or_empty(json::field(snapshot, "title"@));
    assert(naming::display_title(t, Some(number), Some(title), Some(suffix)) =~= t + " (Disc "@ + number
        + ")"@ + " ("@ + title + ")"@ + " ("@ + suffix + ")"@);
}

/// Layer breaks are shown as the numbers they are, and a count of errors as its numeral.
pub proof fn law_shown_numbers_read_back(v: Seq<i32>, i: int, n: int)
    requires
        0 <= i < v.len(),
        i64::MIN <= n <= i64::MAX,
    ensures
        review_template::number_texts(v.map_values(|x: i32| JsonView::Int(x as int))).len() == v.len(),
        numbers::i32_value(review_template::number_texts(v.map_values(|x: i32| JsonView::Int(x as int)))[i]) == Some(
            v[i] as int,
        ),
        numbers::i64_value(review_template::count_text(JsonView::Int(n))) == Some(n),
    decreases v.len(),
{
    lemma_shown_numbers(v, i);
    numbers::law_int_text_reads_back(v[i] as i64);
    numbers::law_int_text_reads_back(n as i64);
}

proof fn lemma_shown_numbers(v: Seq<i32>, i: int)
    requires
        0 <= i < v.len(),
    ensures
        review_template::number_texts(v.map_values(|x: i32| JsonView::Int(x as int))).len() == v.len(),
        review_template::number_texts(v.map_values(|x: i32| JsonView::Int(x as int)))[i] == numbers::int_text(v[i] as int),
    decreases v.len(),
{
    let list = v.map_values(|x: i32| JsonView::Int(x as int));
    let front = v.drop_last();
    assert(list.drop_last() =~= front.map_values(|x: i32| JsonView::Int(x as int)));
    assert(list.last() == JsonView::Int(v.last() as int));
    if front.len() > 0 {
        lemma_shown_numbers(
            front,
            if i < front.len() {
                i
            } else {
                0
            },
        );
    } else {
        assert(list.drop_last() =~= Seq::<JsonView>::empty());
        assert(review_template::number_texts(list.drop_last()).len() == 0);
    }
    if i < front.len() {
        assert(front[i] == v[i]);
    } else {
        assert(v[i] == v.last());
    }
}

/// Where the system is not known, every field is shown that any system has.
pub proof fn law_unknown_system_shows_every_field(s: System)
    ensures
        ({
            let f = review_template::shown_fields(None);
            let g = review_template::fields_of(s);
            &&& g.has_title_foreign ==> f.has_title_foreign
            &&& g.has_disc_number ==> f.has_disc_number
            &&& g.has_disc_title ==> f.has_disc_title
            &&& g.has_serial ==> f.has_serial
            &&& g.has_version ==> f.has_version
            &&& g.has_edition ==> f.has_edition
            &&& g.has_barcode ==> f.has_barcode
            &&& g.has_exe_date ==> f.has_exe_date
            &&& g.has_edc ==> f.has_edc
            &&& g.has_pvd ==> f.has_pvd
            &&& g.has_bca ==> f.has_bca
            &&& g.has_header ==> f.has_header
            &&& g.has_disc_id ==> f.has_disc_id
            &&& g.has_key ==> f.has_key
            &&& g.has_universal_hash ==> f.has_universal_hash
            &&& g.has_protection ==> f.has_protection
            &&& g.has_sector_ranges ==> f.has_sector_ranges
            &&& g.has_sbi ==> f.has_sbi
            &&& g.has_sample_start ==> f.has_sample_start
        }),
{
}

} // verus!
