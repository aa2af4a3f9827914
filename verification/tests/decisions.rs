use vgindex::clock::{
    is_before, read_day, read_hour, read_rfc3339, read_stamp, write_moment, write_time, Moment,
    DAY, MINUTE, ZONED_MINUTE,
};
use vgindex::error::AppError;
use vgindex::json::{json_eq, Json, JsonObject};
use vgindex::json_text::{read_json_list, sha256_hex, write_json, write_pretty};
use vgindex::models::{DiscStatus, DiscSubmission, File, SubmissionStatus, SubmissionType};
use vgindex::naming::{build_rom_base_name, build_rom_name, format_display_title};
use vgindex::services::approval::{
    after_direct_approval, after_direct_creation, approval_commits, approval_write,
    choose_name_conflict, claim_outcome, collect_conflicts, conflict_disc_title, conflict_outcome,
    dirty_systems, disabled_target_conflict, generated_name_key, match_is_still, name_query,
    pending_target_update_outcome, plan_conflict_searches, read_request_identity,
    retarget_after_read, retarget_after_status, retarget_after_write, settle_insert,
    settle_repeated_request, submission_is_current, ApprovalConflict, ApprovalOutcome,
    ApprovalWrite, ConflictDisc, ConflictPlan, DirectFinish, DirectStep, InsertOutcome,
    ManualRetargetOutcome, NameCandidate, PendingTargetUpdateOutcome, RetargetStep,
};
use vgindex::services::changes::{append_unique, append_unique_case_insensitive};
use vgindex::services::disc_match::{choose_matching_disc, parse_rom_entries, MatchCandidate};
use vgindex::services::disc_update::{read_disc_update, read_files, read_new_disc};
use vgindex::services::queue_sql::{
    count_submissions_sql, list_submissions_sql, sort_column, SortColumn, SubmissionFilter,
};
use vgindex::services::search_service::asks_for_anything;
use vgindex::services::submission_service::{
    count_submissions_query, list_submissions_query, plan_review, read_decision, submitted_sha1s,
    PlainFilter, ReviewDecision, ReviewWrite,
};
use vgindex::services::user_service::{
    check_account, check_registration, check_unclaimed, login_result, login_write,
};

fn object(fields: Vec<(&str, Json)>) -> Json {
    let mut out = JsonObject::new();
    for (k, v) in fields {
        out.insert(k, v);
    }
    Json::Object(out)
}

fn submission(submission_type: SubmissionType, target_disc_id: Option<i32>) -> DiscSubmission {
    DiscSubmission {
        id: 1,
        submission_type,
        submitter_id: 7,
        submission_comment: None,
        target_disc_id,
        changes: Json::object(),
        dump_log: None,
        extra_upload_url: None,
        submission_token: None,
        submission_fingerprint: Some("f".to_string()),
        status: SubmissionStatus::Pending,
        reviewer_id: None,
        review_comment: None,
        created_at: 0,
        reviewed_at: None,
    }
}

#[test]
fn repeated_requests_are_recognized() {
    let token = "a".repeat(64);
    let identity = read_request_identity(Some(&token), Some(&token)).unwrap();
    assert_eq!(identity.token, Some(token));
    let same = settle_repeated_request(submission(SubmissionType::Disc, None), SubmissionType::Disc, 7, Some("f"));
    assert!(!same.unwrap().created);
    for other in [
        settle_repeated_request(submission(SubmissionType::Disc, None), SubmissionType::Edit, 7, Some("f")),
        settle_repeated_request(submission(SubmissionType::Disc, None), SubmissionType::Disc, 8, Some("f")),
        settle_repeated_request(submission(SubmissionType::Disc, None), SubmissionType::Disc, 7, Some("g")),
    ] {
        assert!(matches!(other, Err(AppError::BadRequest(_))));
    }
    let new = settle_insert(
        InsertOutcome::Inserted(submission(SubmissionType::Disc, None)),
        SubmissionType::Disc,
        7,
        None,
    );
    assert!(matches!(after_direct_creation(new.unwrap()), DirectStep::Approve(_)));
    assert!(matches!(
        settle_insert(InsertOutcome::Conflict(None), SubmissionType::Disc, 7, None),
        Err(AppError::Internal(_))
    ));
}

#[test]
fn approvals_commit_only_when_approved() {
    assert!(approval_commits(&Ok(ApprovalOutcome::Approved(1))));
    assert!(!approval_commits(&Ok(ApprovalOutcome::StaleDiscState)));
    assert!(!approval_commits(&Err(AppError::NotFound)));
    assert!(matches!(after_direct_approval(ApprovalOutcome::Approved(3)), DirectFinish::Commit(3)));
    assert!(matches!(after_direct_approval(ApprovalOutcome::AlreadyProcessed), DirectFinish::Reread));
    assert_eq!(claim_outcome(0), Some(ApprovalOutcome::AlreadyProcessed));
    assert_eq!(claim_outcome(1), None);
    assert!(submission_is_current(Some((SubmissionStatus::Pending, Some(2))), Some(2)));
    assert!(!submission_is_current(Some((SubmissionStatus::Pending, Some(2))), Some(3)));
    assert!(!submission_is_current(Some((SubmissionStatus::Approved, Some(2))), Some(2)));
    assert!(!submission_is_current(None, None));
    assert_eq!(dirty_systems(Some("A".to_string()), Some("B".to_string())), vec!["A", "B"]);
    assert_eq!(dirty_systems(Some("A".to_string()), Some("A".to_string())), vec!["A"]);
    assert!(matches!(
        approval_write(&submission(SubmissionType::Disc, None)),
        ApprovalWrite::Create
    ));
    assert!(matches!(
        approval_write(&submission(SubmissionType::Edit, Some(4))),
        ApprovalWrite::Update { disc_id: 4, add_dumper: false }
    ));
}

#[test]
fn retargeting_goes_step_by_step() {
    assert!(matches!(
        retarget_after_read(None, Some(1)),
        RetargetStep::Stop(ManualRetargetOutcome::SubmissionChanged)
    ));
    assert!(matches!(
        retarget_after_read(Some(Some(1)), Some(1)),
        RetargetStep::Stop(ManualRetargetOutcome::Unchanged)
    ));
    assert!(matches!(retarget_after_read(Some(None), Some(1)), RetargetStep::ReadStatus(1)));
    assert!(matches!(retarget_after_read(Some(Some(1)), None), RetargetStep::Write));
    assert!(matches!(
        retarget_after_status(None),
        RetargetStep::Stop(ManualRetargetOutcome::TargetNotFound)
    ));
    assert!(matches!(
        retarget_after_status(Some(DiscStatus::Disabled)),
        RetargetStep::Stop(ManualRetargetOutcome::TargetDisabled)
    ));
    assert!(matches!(retarget_after_status(Some(DiscStatus::Verified)), RetargetStep::Write));
    assert!(matches!(pending_target_update_outcome(1), PendingTargetUpdateOutcome::Updated));
    assert!(matches!(
        retarget_after_write(pending_target_update_outcome(0)),
        ManualRetargetOutcome::SubmissionChanged
    ));
    assert!(match_is_still(Some(5), 5));
    assert!(!match_is_still(None, 5));
}

#[test]
fn conflicts_are_searched_and_told() {
    let active = object(vec![
        ("status", Json::text("Verified")),
        ("dat", Json::text("<rom/>")),
        ("system_code", Json::text("SYS")),
        ("title", Json::text("Game")),
    ]);
    let changes = object(vec![("dat", object(vec![]))]);
    match plan_conflict_searches(SubmissionType::Disc, None, None, &changes, &active) {
        Ok(ConflictPlan::Search(s)) => {
            assert!(s.by_name);
            assert_eq!(s.by_files.as_deref(), Some("<rom/>"));
            assert_eq!(s.by_universal_hash, None);
        }
        _ => unreachable!(),
    }
    assert!(matches!(
        plan_conflict_searches(
            SubmissionType::Disc,
            Some(9),
            Some(DiscStatus::Disabled),
            &changes,
            &active
        ),
        Ok(ConflictPlan::DisabledTarget(9))
    ));
    let disabled = object(vec![("status", Json::text("Disabled"))]);
    assert!(matches!(
        plan_conflict_searches(SubmissionType::Edit, Some(9), None, &changes, &disabled),
        Ok(ConflictPlan::Nothing)
    ));
    assert!(name_query(&active).is_some());
    let candidate = NameCandidate {
        id: 12,
        title: "GAME".to_string(),
        disc_number: None,
        disc_title: None,
        filename_suffix: None,
        region_names: Vec::new(),
        language_codes: Vec::new(),
    };
    assert_eq!(generated_name_key("GAME"), generated_name_key("game"));
    let found = choose_name_conflict(&active, &Vec::new(), &Vec::new(), &vec![candidate]).unwrap();
    assert_eq!(found.disc_id, 12);
    let all = collect_conflicts(Some(found), Some((3, "Three".to_string())), None);
    assert_eq!(all.len(), 2);
    assert_eq!(all[1].disc_id, 3);
    assert!(matches!(conflict_outcome(all), Some(ApprovalOutcome::Conflicts(_))));
    assert_eq!(conflict_outcome(Vec::<ApprovalConflict>::new()), None);
    assert_eq!(conflict_disc_title(5, &None), "disc #5");
    let row = ConflictDisc {
        title: "Game".to_string(),
        disc_number: Some("2".to_string()),
        disc_title: Some("Bonus".to_string()),
        filename_suffix: None,
        has_disc_number: true,
        has_disc_title: false,
    };
    assert_eq!(
        conflict_disc_title(5, &Some(row)),
        format_display_title("Game", Some("2"), None, None)
    );
    assert_eq!(disabled_target_conflict(8, "Game".to_string()).disc_id, 8);
}

#[test]
fn accounts_are_checked() {
    assert_eq!(check_registration("abc", "12345678"), Ok(()));
    assert!(check_registration("ab", "12345678").is_err());
    assert!(check_registration("abc", "1234567").is_err());
    assert!(check_unclaimed(true).is_err());
    assert_eq!(check_unclaimed(false), Ok(()));
    assert!(check_account(false, None, 0).is_err());
    assert!(check_account(true, Some(10), 9).is_err());
    assert_eq!(check_account(true, Some(10), 10), Ok(()));
    assert_eq!(login_result(login_write(true)), Ok(()));
    assert_eq!(
        login_result(login_write(false)),
        Err(AppError::BadRequest("Invalid credentials".to_string()))
    );
    assert!(!asks_for_anything(" \t"));
    assert!(asks_for_anything("a"));
}

#[test]
fn queue_queries_number_their_parameters() {
    let filter = SubmissionFilter {
        user_id: Some(1),
        disc_id: None,
        public_statuses_only: false,
        hide_disabled_targets: false,
        viewer_id: 2,
        can_view_all_drafts: false,
        status: Some("Approved".to_string()),
        type_filter: None,
        system: None,
        submitter: None,
    };
    assert_eq!(filter.write_params().len(), 3);
    let sql = list_submissions_sql(&filter, &SortColumn::Title, "asc", 3, 50);
    assert!(sql.contains("$3"));
    assert!(!sql.contains("$4"));
    assert!(sql.ends_with("LIMIT 50 OFFSET 100"));
    assert!(count_submissions_sql(&filter).contains("SELECT COUNT(*)"));
    assert!(sql.contains("ORDER BY LOWER("));
    assert_eq!(sort_column(&SortColumn::Status), "ds.status");
    assert_eq!(sort_column(&SortColumn::Date), "ds.created_at");
    assert_eq!(sort_column(&SortColumn::Other("size".to_string())), "ds.created_at");
    assert_eq!(sort_column(&SortColumn::Reviewer), "LOWER(COALESCE(ur.username, ''))");
    let sql = list_submissions_sql(&filter, &SortColumn::Reviewer, "desc", 1, 50);
    assert!(sql.contains("ORDER BY LOWER(COALESCE(ur.username, '')) DESC\n"));
    let sql = list_submissions_sql(&filter, &SortColumn::DiscId, "asc", 1, 50);
    assert!(sql.contains("ORDER BY ds.target_disc_id ASC NULLS LAST\n"));

    let plain = PlainFilter { user_id: Some(1), status: Some("Pending".to_string()), type_filter: None };
    assert_eq!(
        plain.write_conditions("ds."),
        vec!["1=1", "ds.submitter_id = $1", "ds.status::text = $2"]
    );
    assert!(list_submissions_query(&plain, 1, 50).ends_with("LIMIT 50 OFFSET 0"));
    assert!(count_submissions_query(&plain).contains("status::text = $2"));
}

#[test]
fn reviews_write_what_was_decided() {
    assert!(matches!(read_decision("approve"), Ok(ReviewDecision::Approve)));
    assert!(read_decision("maybe").is_err());
    assert!(matches!(
        plan_review(&submission(SubmissionType::Disc, Some(2)), ReviewDecision::Approve),
        Ok(ReviewWrite::AddDumper(2))
    ));
    assert!(matches!(
        plan_review(&submission(SubmissionType::Disc, None), ReviewDecision::Approve),
        Ok(ReviewWrite::CreateDisc)
    ));
    assert!(matches!(
        plan_review(&submission(SubmissionType::Edit, Some(2)), ReviewDecision::Deny),
        Ok(ReviewWrite::StatusOnly)
    ));
    let done = DiscSubmission {
        status: SubmissionStatus::Rejected,
        ..submission(SubmissionType::Edit, Some(2))
    };
    assert!(plan_review(&done, ReviewDecision::Approve).is_err());
    let data = object(vec![("files_xml", Json::text("<rom sha1=\"ab\"/>\n<x sha1=\"cd\"/>"))]);
    assert_eq!(submitted_sha1s(&data), vec!["ab"]);
}

#[test]
fn disc_data_is_read() {
    let data = object(vec![
        ("system_code", Json::text("SYS")),
        ("title", Json::text("Game")),
        ("status", Json::text("Verified")),
        ("disc_key", Json::text("00ff")),
        (
            "dat",
            Json::text("<rom name=\"Game (Track 2).bin\" size=\"5\" crc=\"AA\" md5=\"BB\" sha1=\"CC\"/>"),
        ),
    ]);
    let new = read_new_disc(&data).unwrap();
    assert_eq!(new.system_code, "SYS");
    assert_eq!(new.media_type, "cd");
    assert_eq!(new.category, "Games");
    assert!(read_new_disc(&Json::object()).is_err());
    let update = read_disc_update(&data).unwrap();
    assert_eq!(update.title, "Game");
    assert_eq!(update.status, DiscStatus::Verified);
    assert_eq!(update.disc_key, Some(vec![0x00, 0xff]));
    let files = read_files("  <rom name=\"Game (Track 2).bin\" size=\"5\" crc=\"AA\" md5=\"BB\" sha1=\"CC\"/>\nother");
    assert_eq!(files.len(), 1);
    assert_eq!(files[0].track_number.as_deref(), Some("2"));
    assert_eq!(files[0].size, 5);
    let bad = object(vec![("title", Json::text("Game")), ("disc_key", Json::text("0"))]);
    assert!(matches!(read_disc_update(&bad), Err(AppError::BadRequest(_))));
}

#[test]
fn the_first_matching_disc_is_chosen() {
    let dat = "<rom name=\"Game.iso\" size=\"1\" crc=\"AA\" md5=\"BB\" sha1=\"CC\"/>";
    let file = |sha1: &str| File {
        id: 1,
        disc_id: 1,
        track_number: Some("0".to_string()),
        size: 1,
        crc32: "aa".to_string(),
        md5: "bb".to_string(),
        sha1: sha1.to_string(),
    };
    let candidates = vec![
        MatchCandidate { disc_id: 4, files: vec![file("dd")] },
        MatchCandidate { disc_id: 5, files: vec![file("cc")] },
    ];
    assert_eq!(choose_matching_disc(&parse_rom_entries(dat), &candidates), Some(5));
    assert_eq!(choose_matching_disc(&parse_rom_entries(dat), &Vec::new()), None);
}

#[test]
fn lists_grow_by_what_is_new() {
    let mut values = vec!["A".to_string()];
    append_unique(&mut values, vec!["a".to_string(), " ".to_string(), "A".to_string()]);
    assert_eq!(values, vec!["A", "a"]);
    let mut values = vec!["A".to_string()];
    append_unique_case_insensitive(&mut values, vec!["a".to_string(), "b".to_string(), "B".to_string()]);
    assert_eq!(values, vec!["A", "b"]);
}

#[test]
fn times_are_written_and_read() {
    assert_eq!(write_time(1767225600, ZONED_MINUTE), "2026-01-01 00:00 UTC");
    assert_eq!(write_time(1767225600, MINUTE), "2026-01-01 00:00");
    assert_eq!(write_time(-1, DAY), "1969-12-31");
    assert_eq!(write_time(i64::MAX, DAY), "");
    let t = read_rfc3339("2026-01-01T01:00:00.5+01:00").unwrap();
    assert_eq!(t, Moment { seconds: 1767225600, nanos: 500000000 });
    assert_eq!(read_rfc3339("yesterday"), None);
    assert_eq!(read_stamp("20260101T000000Z"), Some(Moment { seconds: 1767225600, nanos: 0 }));
    assert_eq!(read_stamp("20260101"), None);
    assert_eq!(write_moment(Moment { seconds: 0, nanos: 0 }), "1970-01-01T00:00:00+00:00");
    assert!(is_before(Moment { seconds: 1, nanos: 0 }, Moment { seconds: 1, nanos: 1 }));
    assert_eq!(read_day(Moment { seconds: -1, nanos: 0 }), -1);
    assert_eq!(read_hour(Moment { seconds: -1, nanos: 0 }), 23);
}

#[test]
fn values_are_written_as_json() {
    let v = object(vec![
        ("b", Json::Array(vec![Json::Null, Json::Bool(true), Json::number(-2)])),
        ("a", Json::text("x\"\n")),
    ]);
    assert_eq!(write_json(&v), "{\"a\":\"x\\\"\\n\",\"b\":[null,true,-2]}");
    assert_eq!(write_pretty(&object(vec![("a", Json::number(1))])), "{\n  \"a\": 1\n}");
    assert_eq!(read_json_list("[1, \"a\"]").unwrap(), vec![Json::number(1), Json::text("a")]);
    assert!(read_json_list("{}").is_none());
    assert_eq!(
        sha256_hex(b"abc"),
        "ba7816bf8f01cfea414140de5dae2223b00361a396177a9cb410ff61f20015ad"
    );
}

#[test]
fn names_tell_regions_and_tracks() {
    let base = build_rom_base_name(
        "Game",
        &vec!["Japan".to_string(), "USA".to_string()],
        &Vec::new(),
        Some("1"),
        None,
        None,
    );
    assert_eq!(base, "Game (Japan, USA) (Disc 1)");
    assert_eq!(build_rom_name("Game", Some("1"), 1, "bin"), "Game.bin");
    assert_eq!(build_rom_name("Game", Some("2"), 12, "bin"), "Game (Track 02).bin");
    assert_eq!(build_rom_name("Game", None, 12, "cue"), "Game.cue");
}

/// The value of a JSON text.
fn value_of(text: &str) -> Json {
    read_json_list(&format!("[{text}]")).unwrap().remove(0)
}

#[test]
fn numbers_keep_their_digits_in_texts() {
    for text in ["0.1", "-0.0", "1e+300", "0.30000000000000004", "18446744073709551615", "-5"] {
        assert_eq!(write_json(&value_of(text)), text);
        assert_eq!(write_pretty(&value_of(text)), text);
    }
    assert_eq!(value_of("18446744073709551615").as_u64(), Some(u64::MAX));
    assert_eq!(value_of("18446744073709551615").as_i64(), None);
    assert_eq!(value_of("-5").as_i64(), Some(-5));
    assert_eq!(value_of("-5").as_u64(), None);
    assert_eq!(value_of("5.0").as_i64(), None);
    assert_eq!(write_json(&value_of("-5").copy()), "-5");
}

#[test]
fn both_noughts_are_equal() {
    assert!(json_eq(&value_of("-0.0"), &value_of("0.0")));
    assert!(json_eq(&value_of("[{\"a\":-0.0}]"), &value_of("[{\"a\":0.0}]")));
    assert!(!json_eq(&value_of("0"), &value_of("0.0")));
    assert!(!json_eq(&value_of("0.5"), &value_of("0.0")));
    assert!(json_eq(&value_of("7"), &Json::number(7)));
}

#[test]
fn texts_have_their_keys_in_order() {
    let mut o = JsonObject::new();
    o.insert("b", Json::number(1));
    o.insert("a", Json::Array(vec![Json::Bool(false), Json::Null]));
    o.insert("b", Json::number(2));
    assert_eq!(write_json(&Json::Object(o)), "{\"a\":[false,null],\"b\":2}");
    let loose = JsonObject {
        entries: vec![("b".to_string(), Json::Null), ("a".to_string(), Json::Null)],
    };
    assert_eq!(write_json(&Json::Object(loose)), "{\"a\":null,\"b\":null}");
}
