use serde_json::Value;
use vgindex::error::AppError;
use vgindex::json::{Json, JsonObject};
use vgindex::models::{
    AuthenticatedUser, DiscSubmission, Language, Region, SubmissionDisplayKind, SubmissionStatus,
    SubmissionType, System, UserRole,
};
use vgindex::routes::disc_edit::{CategoryRow, DiscEditTemplate, EditMediaTypeRow, EditRefData};
use vgindex::routes::highlights::compute_field_highlights;
use vgindex::routes::queue::{
    after_decision, build_queue_page, build_readonly_detail, can_open_entry, change_source,
    check_comments, detail_mode, next_order, plan_queue, review_step, submitter_display_name,
    type_icon_class, type_icon_label, ChangeSource, DetailMode, DiscEditForm, QueueQuery,
    ReviewForm, ReviewStep, SubmissionListRow,
};
use vgindex::routes::review_diff::apply_review_diff_context;
use vgindex::routes::review_template::{build_review_template, ReviewPage};
use vgindex::routes::review_values::{
    comments_text_contains_review_delimiter, compose_review_comments, set_added_removed,
    COMMENTS_REVIEW_DELIMITER,
};
use vgindex::routes::search::render_results;
use vgindex::routes::submissions::{
    build_submission_detail, check_access, count_pages, plan_list, submission_path,
    SubmissionsQuery,
};
use vgindex::services::queue_sql::SortColumn;
use vgindex::services::search_service::SearchResult;

fn to_json(v: &Value) -> Json {
    match v {
        Value::Null => Json::Null,
        Value::Bool(b) => Json::Bool(*b),
        Value::Number(n) => Json::Number(n.clone()),
        Value::String(s) => Json::text(s),
        Value::Array(a) => Json::Array(a.iter().map(to_json).collect()),
        Value::Object(o) => {
            let mut out = JsonObject::new();
            for (k, x) in o {
                out.insert(k, to_json(x));
            }
            Json::Object(out)
        }
    }
}

fn test_system(code: &str, name: &str) -> System {
    System {
        code: code.to_string(),
        system_type: "Console".to_string(),
        manufacturer: "Test".to_string(),
        name: name.to_string(),
        short_name: code.to_string(),
        media_types: vec!["DVD".to_string(), "BD".to_string()],
        has_exe_date: true,
        has_sbi: true,
        has_pvd: true,
        has_edc: true,
        has_disc_id: true,
        has_key: true,
        has_universal_hash: true,
        has_title_foreign: true,
        has_disc_title: true,
        has_disc_number: true,
        has_serial: true,
        has_barcode: true,
        has_version: true,
        has_edition: true,
        has_protection: true,
        has_sector_ranges: true,
        has_header: true,
        has_bca: true,
        has_sample_start: true,
        has_offset_extra: true,
    }
}
fn ref_data() -> EditRefData {
    EditRefData {
        all_systems: vec![
            test_system("OLD", "Old System"),
            test_system("NEW", "New System"),
        ],
        all_media_types: vec![
            EditMediaTypeRow {
                code: "DVD".to_string(),
                name: "DVD-ROM".to_string(),
                layer_count: 2,
                pic: false,
                rom_extension: "iso".to_string(),
            },
            EditMediaTypeRow {
                code: "BD".to_string(),
                name: "Blu-ray".to_string(),
                layer_count: 2,
                pic: false,
                rom_extension: "iso".to_string(),
            },
        ],
        all_categories: vec![
            CategoryRow {
                id: 1,
                name: "Games".to_string(),
            },
            CategoryRow {
                id: 2,
                name: "Demos".to_string(),
            },
        ],
        all_regions: vec![
            Region {
                code: "EU".to_string(),
                name: "Europe".to_string(),
                flag_code: "eu".to_string(),
                sort_order: 0,
            },
            Region {
                code: "JP".to_string(),
                name: "Japan".to_string(),
                flag_code: "jp".to_string(),
                sort_order: 1,
            },
            Region {
                code: "US".to_string(),
                name: "USA".to_string(),
                flag_code: "us".to_string(),
                sort_order: 2,
            },
        ],
        all_languages: vec![
            Language {
                code: "en".to_string(),
                name: "English".to_string(),
                flag_code: "gb".to_string(),
                sort_order: 0,
            },
            Language {
                code: "ja".to_string(),
                name: "Japanese".to_string(),
                flag_code: "jp".to_string(),
                sort_order: 1,
            },
        ],
    }
}
fn old_snapshot() -> Value {
    serde_json::from_str(
        r##"{
            "system_code": "OLD",
            "media_type": "DVD",
            "title": "Old Game",
            "category": "Games",
            "title_foreign": "Old Foreign",
            "disc_number": "1",
            "disc_title": "Old Disc",
            "filename_suffix": "Old Suffix",
            "serial": ["OLD-001", "KEEP-002"],
            "version": "1.0",
            "edition": ["Original"],
            "barcode": ["111111111111"],
            "comments": "old comment",
            "contents": "old contents",
            "error_count": 1,
            "exe_date": "2020-01-01",
            "edc": true,
            "layerbreaks": [10, 20],
            "pvd": "old pvd",
            "pic": "old pic",
            "bca": "old bca",
            "header": "old header",
            "protection": "old protection",
            "sbi": "old sbi",
            "disc_id": "old-disc-id",
            "disc_key": "1234",
            "universal_hash": "aaaaaaaaaaaaaaaaaaaaaaaaaaaaaaaaaaaaaaaa",
            "cuesheet": "old cue",
            "status": "Unverified",
            "regions": ["EU", "US"],
            "languages": ["en"],
            "ring_codes": [],
            "sector_ranges": [{"start": 100, "end": 200}],
            "dat": "<rom name=\"old.iso\" size=\"1\" crc=\"11111111\" md5=\"aaaaaaaaaaaaaaaaaaaaaaaaaaaaaaaa\" sha1=\"bbbbbbbbbbbbbbbbbbbbbbbbbbbbbbbbbbbbbbbb\" />"
        }"##,
    )
    .unwrap()
}

fn submitted_snapshot() -> Value {
    serde_json::from_str(
        r##"{
            "system_code": "NEW",
            "media_type": "BD",
            "title": "New Game",
            "category": "Demos",
            "title_foreign": "New Foreign",
            "disc_number": "2",
            "disc_title": "New Disc",
            "filename_suffix": "New Suffix",
            "serial": ["KEEP-002", "NEW-003"],
            "version": "2.0",
            "edition": ["Original", "Rerelease"],
            "barcode": ["222222222222"],
            "comments": "new comment",
            "contents": "new contents",
            "error_count": 2,
            "exe_date": "2024-01-01",
            "edc": false,
            "layerbreaks": [10, 30],
            "pvd": "new pvd",
            "pic": "new pic",
            "bca": "new bca",
            "header": "new header",
            "protection": "new protection",
            "sbi": "new sbi",
            "disc_id": "new-disc-id",
            "disc_key": "abcd",
            "universal_hash": "bbbbbbbbbbbbbbbbbbbbbbbbbbbbbbbbbbbbbbbb",
            "cuesheet": "new cue",
            "status": "Unverified",
            "regions": ["JP", "US"],
            "languages": ["en", "ja"],
            "ring_codes": [],
            "sector_ranges": [{"start": 150, "end": 250}],
            "dat": "<rom name=\"new.iso\" size=\"2\" crc=\"22222222\" md5=\"cccccccccccccccccccccccccccccccc\" sha1=\"dddddddddddddddddddddddddddddddddddddddd\" />"
        }"##,
    )
    .unwrap()
}

fn test_submission() -> DiscSubmission {
    DiscSubmission {
        id: 42,
        submission_type: SubmissionType::Edit,
        submitter_id: 7,
        submission_comment: None,
        target_disc_id: Some(1),
        changes: Json::object(),
        dump_log: None,
        extra_upload_url: None,
        submission_token: None,
        submission_fingerprint: None,
        status: SubmissionStatus::Pending,
        reviewer_id: None,
        review_comment: None,
        created_at: 1767225600,
        reviewed_at: None,
    }
}

fn moderator(avatar_url: Option<&str>) -> AuthenticatedUser {
    AuthenticatedUser {
        id: 42,
        username: "moderator".to_string(),
        role: UserRole::Moderator,
        avatar_url: avatar_url.map(str::to_string),
    }
}

fn annotation_values(template: &DiscEditTemplate, field: &str, label: &str) -> Vec<String> {
    template
        .review_annotations
        .iter()
        .find(|annotation| annotation.field == field && annotation.label == label)
        .map(|annotation| annotation.values.clone())
        .unwrap_or_default()
}
fn selected_system(template: &DiscEditTemplate) -> String {
    template
        .systems
        .iter()
        .find(|system| system.selected)
        .map(|system| system.code.clone())
        .unwrap_or_default()
}
fn selected_media(template: &DiscEditTemplate) -> String {
    template
        .media_types_all
        .iter()
        .find(|media| media.selected)
        .map(|media| media.code.clone())
        .unwrap_or_default()
}
fn selected_category(template: &DiscEditTemplate) -> String {
    template
        .categories
        .iter()
        .find(|category| category.selected)
        .map(|category| category.value.clone())
        .unwrap_or_default()
}
fn build_template(snapshot: &Value) -> DiscEditTemplate {
    let ref_data = ref_data();
    let page = ReviewPage {
        submitter_name: "submitter".to_string(),
        reviewer_name: String::new(),
        systems_media_json: "{}".to_string(),
        systems_has_flags_json: "{}".to_string(),
        edition_suggestions_json: "{}".to_string(),
        media_layers_json: "{}".to_string(),
        media_rom_extensions_json: "{}".to_string(),
        media_is_cd_json: "{}".to_string(),
        media_has_pic_json: "{}".to_string(),
    };
    build_review_template(
        moderator(None),
        &test_submission(),
        &page,
        &to_json(snapshot),
        &ref_data,
        snapshot["system_code"].as_str().unwrap_or(""),
        snapshot["media_type"].as_str().unwrap_or(""),
        2,
        Some(&ref_data.all_systems[0]),
    )
}

#[test]
fn queue_detail_template_preserves_current_user_avatar() {
    let sub = DiscSubmission {
        id: 1,
        submitter_id: 2,
        status: SubmissionStatus::Approved,
        reviewer_id: Some(42),
        target_disc_id: Some(3),
        ..test_submission()
    };
    let template = build_readonly_detail(
        Some(moderator(Some("https://example.test/avatar.png"))),
        &sub,
        "submitter",
        "moderator",
    );

    assert_eq!(
        template.current_user.unwrap().avatar_url.as_deref(),
        Some("https://example.test/avatar.png")
    );
    assert_eq!(template.submission_type_display, "Edit");
    assert_eq!(template.submission_status, "Approved");
    assert_eq!(template.created_at_display, "2026-01-01 00:00 UTC");
    assert_eq!(template.changes_json, "{}");
    assert_eq!(template.target_disc_id, 3);
}

#[test]
fn review_initial_values_prefer_old_title_fields_and_annotate_submitted_values() {
    let db = old_snapshot();
    let submitted = submitted_snapshot();
    let ref_data = ref_data();
    let mut template = build_template(&submitted);

    apply_review_diff_context(&mut template, &to_json(&submitted), &to_json(&db), &ref_data, true);

    assert_eq!(template.system_code, "OLD");
    assert_eq!(template.media_type_code, "DVD");
    assert_eq!(selected_system(&template), "OLD");
    assert_eq!(selected_media(&template), "DVD");
    assert_eq!(selected_category(&template), "Games");
    assert_eq!(template.title, "Old Game");
    assert_eq!(template.title_foreign, "Old Foreign");
    assert_eq!(template.disc_number, "1");
    assert_eq!(template.disc_title, "Old Disc");
    assert_eq!(template.filename_suffix, "Old Suffix");
    assert_eq!(
        annotation_values(&template, "title", "Changed to"),
        vec!["New Game".to_string()]
    );
    assert_eq!(
        annotation_values(&template, "system_code", "Changed to"),
        vec!["Test New System".to_string()]
    );
    assert_eq!(
        annotation_values(&template, "media_type", "Changed to"),
        vec!["Blu-ray".to_string()]
    );
    assert_eq!(
        annotation_values(&template, "category", "Changed to"),
        vec!["Demos".to_string()]
    );
}

#[test]
fn review_annotations_include_added_removed_sets_and_old_multiline_sidecars() {
    let db = old_snapshot();
    let submitted = submitted_snapshot();
    let ref_data = ref_data();
    let mut template = build_template(&submitted);

    apply_review_diff_context(&mut template, &to_json(&submitted), &to_json(&db), &ref_data, true);

    assert_eq!(
        annotation_values(&template, "regions", "Removed"),
        vec!["Europe".to_string()]
    );
    assert_eq!(
        annotation_values(&template, "regions", "Added"),
        vec!["Japan".to_string()]
    );
    assert_eq!(
        annotation_values(&template, "serial", "Removed"),
        vec!["OLD-001".to_string()]
    );
    assert_eq!(
        annotation_values(&template, "serial", "Added"),
        vec!["NEW-003".to_string()]
    );
    assert_eq!(
        annotation_values(&template, "universal_hash", "Changed from"),
        vec!["aaaaaaaaaaaaaaaaaaaaaaaaaaaaaaaaaaaaaaaa".to_string()]
    );
    assert!(template
        .review_old_multiline
        .iter()
        .any(|old| old.field == "contents" && old.value == "old contents"));
    assert!(template
        .review_old_multiline
        .iter()
        .any(|old| old.field == "cue" && old.value == "old cue"));
    assert!(template
        .review_old_multiline
        .iter()
        .any(|old| { old.field == "files_xml" && old.value.contains("old.iso") }));
    assert!(!template
        .review_old_multiline
        .iter()
        .any(|old| old.field == "comments"));
}

#[test]
fn review_comments_are_additive_only_on_initial_display() {
    let db = old_snapshot();
    let submitted = submitted_snapshot();
    let ref_data = ref_data();
    let mut template = build_template(&submitted);

    apply_review_diff_context(&mut template, &to_json(&submitted), &to_json(&db), &ref_data, true);

    assert_eq!(
        template.comments,
        format!("old comment\n\n{COMMENTS_REVIEW_DELIMITER}\n\nnew comment")
    );

    let mut posted = submitted.clone();
    posted["title"] = Value::from("Moderator Title");
    posted["comments"] = Value::from("moderator edited comments");
    let mut posted_template = build_template(&posted);
    apply_review_diff_context(&mut posted_template, &to_json(&submitted), &to_json(&db), &ref_data, false);

    assert_eq!(posted_template.title, "Moderator Title");
    assert_eq!(posted_template.comments, "moderator edited comments");
}

#[test]
fn universal_hash_highlights_add_change_and_remove() {
    let mut db = old_snapshot();
    let mut submitted = db.clone();
    submitted["universal_hash"] =
        Value::from("bbbbbbbbbbbbbbbbbbbbbbbbbbbbbbbbbbbbbbbb");

    let highlights = compute_field_highlights(&to_json(&submitted), &to_json(&db));
    assert!(highlights
        .changed_fields
        .contains(&"universal_hash:changed".to_string()));

    db["universal_hash"] = Value::Null;
    let highlights = compute_field_highlights(&to_json(&submitted), &to_json(&db));
    assert!(highlights
        .changed_fields
        .contains(&"universal_hash:added".to_string()));

    db["universal_hash"] = Value::from("aaaaaaaaaaaaaaaaaaaaaaaaaaaaaaaaaaaaaaaa");
    submitted["universal_hash"] = Value::Null;
    let highlights = compute_field_highlights(&to_json(&submitted), &to_json(&db));
    assert!(highlights
        .changed_fields
        .contains(&"universal_hash:removed".to_string()));
}

#[test]
fn comments_delimiter_validation_detects_unreviewed_comments() {
    assert!(comments_text_contains_review_delimiter(Some(&format!(
        "old\n\n{COMMENTS_REVIEW_DELIMITER}\n\nnew"
    ))));
    assert!(!comments_text_contains_review_delimiter(Some("old\n\nnew")));
    assert!(!comments_text_contains_review_delimiter(None));
}

fn row(status: SubmissionStatus, target_disc_id: Option<i32>) -> SubmissionListRow {
    SubmissionListRow {
        id: 5,
        submission_type: SubmissionType::Disc,
        title: "Game".to_string(),
        system_code: "SYS".to_string(),
        system_display: "System".to_string(),
        submitter: "submitter".to_string(),
        submitter_id: 7,
        reviewer: None,
        reviewer_id: None,
        status,
        has_target_disc: target_disc_id.is_some(),
        target_disc_id,
        created_at: 0,
    }
}

fn query() -> QueueQuery {
    QueueQuery {
        status: None,
        sub_type: None,
        system: None,
        submitter: None,
        disc_id: None,
        sort: None,
        order: None,
        page: None,
    }
}

#[test]
fn queue_pages_count_and_link() {
    let plan = plan_queue(&QueueQuery { submitter: Some("a b&c".to_string()), ..query() }, true).unwrap();
    assert_eq!(plan.filter_submitter, "a b&c");
    assert_eq!(plan.filter_submitter_url, "a%20b%26c");
    assert_eq!(plan.page, 1);
    let page = build_queue_page(
        &plan,
        Some(moderator(None)),
        vec![row(SubmissionStatus::Pending, None)],
        51,
        &Vec::new(),
        &Vec::new(),
    );
    assert_eq!(page.total_count, 51);
    assert_eq!(page.entries.len(), 1);
    assert_eq!(page.total_pages, 2);
    assert!(matches!(plan_queue(&query(), false), Err(AppError::Unauthorized)));
    let history = plan_queue(&QueueQuery { disc_id: Some(4), page: Some(3), ..query() }, false).unwrap();
    assert_eq!(history.filter_status, "All Visible");
    assert_eq!(history.page, 3);
    assert_eq!(history.sort_column, SortColumn::Date);
    assert_eq!(history.sort_order, "desc");
}

#[test]
fn orders_turn_on_a_second_click() {
    assert_eq!(next_order(&SortColumn::Title, "asc", &SortColumn::Title), "desc");
    assert_eq!(next_order(&SortColumn::Title, "desc", &SortColumn::Title), "asc");
    assert_eq!(next_order(&SortColumn::Title, "asc", &SortColumn::Date), "asc");
    let other = SortColumn::Other("title".to_string());
    assert_eq!(next_order(&other, "asc", &SortColumn::Date), "asc");
}

#[test]
fn the_queue_is_sorted_by_who_decided() {
    let sorted = QueueQuery {
        sort: Some(SortColumn::Reviewer),
        order: Some("asc".to_string()),
        ..query()
    };
    let plan = plan_queue(&sorted, true).unwrap();
    assert_eq!(plan.sort_column, SortColumn::Reviewer);
    let page = build_queue_page(&plan, None, Vec::new(), 0, &Vec::new(), &Vec::new());
    assert_eq!(page.next_reviewer_order, "desc");
    assert_eq!(page.next_submitter_order, "asc");
}

#[test]
fn entries_show_what_they_are() {
    let new_disc = row(SubmissionStatus::Pending, None);
    let known_disc = row(SubmissionStatus::Pending, Some(1));
    assert_ne!(type_icon_label(&new_disc), type_icon_label(&known_disc));
    assert_ne!(type_icon_class(&new_disc), type_icon_class(&known_disc));
    assert!(can_open_entry(Some(7), &new_disc));
    assert!(!can_open_entry(None, &new_disc));
}

#[test]
fn drafts_keep_the_kind_that_their_target_gives_them() {
    let draft = SubmissionListRow { has_target_disc: true, ..row(SubmissionStatus::Draft, None) };
    assert_eq!(draft.target_disc_id, None);
    assert_eq!(draft.display_kind(), SubmissionDisplayKind::Verification);
    assert_eq!(type_icon_label(&draft), "Verification");
    let fresh = row(SubmissionStatus::Draft, None);
    assert_eq!(fresh.display_kind(), SubmissionDisplayKind::NewDisc);
    assert_eq!(type_icon_label(&fresh), "New Disc");
    let edit = SubmissionListRow { submission_type: SubmissionType::Edit, ..draft };
    assert_eq!(edit.display_kind(), SubmissionDisplayKind::Edit);
    assert_eq!(type_icon_label(&edit), "Edit");
}

#[test]
fn submissions_are_shown_by_status_and_target() {
    let kind = |submission_type, status, target_disc_id| {
        DiscSubmission { submission_type, status, target_disc_id, ..test_submission() }.display_kind()
    };
    let disc = SubmissionType::Disc;
    assert_eq!(
        kind(disc, SubmissionStatus::Pending, Some(4)),
        SubmissionDisplayKind::Verification
    );
    assert_eq!(kind(disc, SubmissionStatus::Pending, None), SubmissionDisplayKind::NewDisc);
    assert_eq!(kind(disc, SubmissionStatus::Approved, Some(4)), SubmissionDisplayKind::Disc);
    assert_eq!(
        kind(SubmissionType::Edit, SubmissionStatus::Rejected, Some(4)),
        SubmissionDisplayKind::Edit
    );
}

#[test]
fn details_are_reviewed_by_moderators_only() {
    assert!(matches!(detail_mode(true, true, SubmissionStatus::Pending), Ok(DetailMode::Review)));
    assert!(matches!(detail_mode(true, true, SubmissionStatus::Approved), Ok(DetailMode::ReadOnly)));
    assert!(detail_mode(false, false, SubmissionStatus::Pending).is_err());
    assert_eq!(submitter_display_name(Some("x".to_string()), 7), "x");
}

fn form(action: &str, comments: Option<&str>) -> ReviewForm {
    ReviewForm {
        action: action.to_string(),
        review_comment: None,
        disc: DiscEditForm {
            system_code: "SYS".to_string(),
            media_type: "DVD".to_string(),
            status: None,
            comments: comments.map(str::to_string),
        },
    }
}

#[test]
fn reviews_take_one_step() {
    assert!(matches!(
        review_step(SubmissionStatus::Approved, &form("approve", None)),
        Ok(ReviewStep::ShowSubmission)
    ));
    assert!(matches!(
        review_step(SubmissionStatus::Pending, &form("reject", None)),
        Ok(ReviewStep::Reject(None))
    ));
    assert!(matches!(
        review_step(SubmissionStatus::Pending, &form("approve", None)),
        Ok(ReviewStep::Approve(None))
    ));
    assert!(matches!(
        review_step(SubmissionStatus::Pending, &form("burn", None)),
        Err(AppError::BadRequest(_))
    ));
    assert!(matches!(change_source(&test_submission()), Ok(ChangeSource::EditOf(1))));
    let lost = DiscSubmission { target_disc_id: None, ..test_submission() };
    assert!(matches!(change_source(&lost), Err(AppError::BadRequest(_))));
    assert_eq!(after_decision(9, true), "/queue/");
    assert_eq!(after_decision(9, false), "/queue/9/");
}

#[test]
fn unmerged_comments_are_an_error() {
    let merged = compose_review_comments(&Json::text("old"), &Json::text("new"));
    assert_eq!(merged, format!("old\n\n{COMMENTS_REVIEW_DELIMITER}\n\nnew"));
    assert_eq!(check_comments(Vec::new(), &form("approve", Some(&merged)).disc).len(), 1);
    assert!(check_comments(Vec::new(), &form("approve", Some("new")).disc).is_empty());
    let (added, removed) = set_added_removed(
        &vec!["a".to_string(), "b".to_string()],
        &vec!["b".to_string(), "c".to_string()],
    );
    assert_eq!(added, vec!["c"]);
    assert_eq!(removed, vec!["a"]);
}

#[test]
fn submissions_are_listed_and_guarded() {
    let user = AuthenticatedUser { id: 8, role: UserRole::User, ..moderator(None) };
    let (page, filter) = plan_list(
        &SubmissionsQuery { status: None, sub_type: None, page: Some(-3) },
        &user,
    );
    assert_eq!(page, 1);
    assert_eq!(filter.user_id, Some(8));
    assert!(matches!(check_access(&user, &test_submission()), Err(AppError::Forbidden)));
    assert_eq!(check_access(&moderator(None), &test_submission()), Ok(()));
    assert_eq!(submission_path(12), "/submissions/12/");
    assert_eq!(count_pages(0), 0);
    assert_eq!(count_pages(51), 2);
    let changes = to_json(&serde_json::from_str(r#"{"title":"A"}"#).unwrap());
    let sub = DiscSubmission { changes, ..test_submission() };
    let detail = build_submission_detail(&moderator(None), &sub, "submitter", "pending", None);
    assert_eq!(detail.status_class, "pending");
    assert_eq!(detail.data_json, "{\n  \"title\": \"A\"\n}");
    assert!(detail.is_pending);
}

#[test]
fn search_results_are_rendered() {
    let one = SearchResult { id: 3, title: "A<B".to_string(), system: "SYS".to_string() };
    let html = render_results(&vec![one]);
    assert!(html.contains("/disc/3"));
    assert_eq!(
        render_results(&Vec::new()),
        "<ul class=\"search-results\"><li>No results found</li></ul>"
    );
}

/// Marks of fields with what was added taken for removed, and the other way round.
fn turned(marks: &[String]) -> Vec<String> {
    marks
        .iter()
        .map(|m| {
            if let Some(f) = m.strip_suffix(":added") {
                format!("{f}:removed")
            } else if let Some(f) = m.strip_suffix(":removed") {
                format!("{f}:added")
            } else {
                m.clone()
            }
        })
        .collect()
}

#[test]
fn exchanged_snapshots_turn_their_marks() {
    let a = to_json(
        &serde_json::from_str::<Value>(
            r#"{"title": "One", "version": "1.0", "regions": ["eu", "jp"], "layerbreaks": [1]}"#,
        )
        .unwrap(),
    );
    let b = to_json(
        &serde_json::from_str::<Value>(
            r#"{"title": "Two", "comments": "x", "regions": ["eu", "us"], "layerbreaks": []}"#,
        )
        .unwrap(),
    );
    let there = compute_field_highlights(&b, &a);
    let back = compute_field_highlights(&a, &b);
    assert!(there.changed_fields.contains(&"layerbreaks:removed".to_string()));
    assert!(there.changed_fields.contains(&"regions:changed".to_string()));
    assert_eq!(back.changed_fields, turned(&there.changed_fields));
    let kinds = |marks: &Vec<vgindex::routes::highlights::Mark>, v: &str| {
        marks.iter().find(|m| m.value == v).map(|m| m.kind.clone())
    };
    assert_eq!(kinds(&there.region_highlights, "us"), Some("added".to_string()));
    assert_eq!(kinds(&back.region_highlights, "us"), Some("removed".to_string()));
    assert_eq!(kinds(&there.region_highlights, "jp"), Some("removed".to_string()));
    assert_eq!(kinds(&back.region_highlights, "jp"), Some("added".to_string()));
    assert_eq!(kinds(&back.region_highlights, "eu"), None);
}
