use serde_json::Value;
use vgindex::error::AppError;
use vgindex::json::{Json, JsonObject};
use vgindex::models::{DiscStatus, DiscSubmission, File, SubmissionStatus, SubmissionType};
use vgindex::services::approval::{
    self, disabled_verification_target, normalize_submission_token, require_draft_comment,
    stale_review_approval_outcome, ApprovalOutcome, GENERATED_NAME_CONFLICT_CANDIDATES_SQL,
};
use vgindex::services::disc_match::{
    files_match_submission, parse_rom_entries, resolve_exact_disc_match,
    universal_hash_bytes_for_matching, DAT_MATCH_CANDIDATES_SQL, UNIVERSAL_HASH_MATCH_SQL,
};
use vgindex::services::queue_sql::{
    submission_display_kind_sql, submission_type_filter_condition, UNPROCESSED_SUBMISSION_SQL,
};
use vgindex::services::snapshot_hash::review_base_hash_is_stale;
use vgindex::services::{resolution, ring_history, snapshot_hash};

fn to_json(v: &Value) -> Json {
    match v {
        Value::Null => Json::Null,
        Value::Bool(b) => Json::Bool(*b),
        Value::Number(n) => Json::Number(n.clone()),
        Value::String(s) => Json::text(s),
        Value::Array(a) => Json::Array(a.iter().map(to_json).collect()),
        Value::Object(o) => {
            let mut out = JsonObject::new();
            for (k, x) in o {
                out.insert(k, to_json(x));
            }
            Json::Object(out)
        }
    }
}

fn from_json(j: &Json) -> Value {
    match j {
        Json::Null => Value::Null,
        Json::Bool(b) => Value::Bool(*b),
        Json::Number(n) => Value::Number(n.clone()),
        Json::Text(s) => Value::String(s.clone()),
        Json::Array(a) => Value::Array(a.iter().map(from_json).collect()),
        Json::Object(o) => {
            Value::Object(o.entries.iter().map(|(k, x)| (k.clone(), from_json(x))).collect())
        }
    }
}

/// The value of a JSON text.
fn json(text: &str) -> Value {
    serde_json::from_str(text).unwrap()
}

fn add(value: &str) -> Value {
    json(&format!(r#"{{"add": {{"new": "{value}"}}}}"#))
}

struct Resolution {
    changes: Value,
    effective_data: Value,
}

fn resolve_approval_from_snapshot(
    submission_type: SubmissionType,
    target_status: Option<DiscStatus>,
    snapshot: &Value,
    changes: &Value,
) -> Result<Resolution, AppError> {
    resolution::resolve_approval_from_snapshot(
        submission_type,
        target_status,
        &to_json(snapshot),
        &to_json(changes),
    )
    .map(|r| Resolution {
        changes: from_json(&r.changes),
        effective_data: from_json(&r.effective_data),
    })
}

fn preserve_submitted_status_change(
    submission_type: SubmissionType,
    submitted: &Value,
    reviewed: &Value,
) -> Result<Value, AppError> {
    resolution::preserve_submitted_status_change(
        submission_type,
        &to_json(submitted),
        &to_json(reviewed),
    )
    .map(|v| from_json(&v))
}

fn resolve_submission_snapshot(db: &Value, changes: &Value) -> Result<Value, AppError> {
    resolution::resolve_submission_snapshot(&to_json(db), &to_json(changes)).map(|v| from_json(&v))
}

fn resolve_submission_snapshot_for_submission(
    db: &Value,
    sub: &DiscSubmission,
) -> Result<Value, AppError> {
    resolution::resolve_submission_snapshot_for_submission(&to_json(db), sub).map(|v| from_json(&v))
}

fn apply_ring_codes_history(old: &Value, changes: &Value) -> Result<Value, AppError> {
    ring_history::apply_ring_codes_history(&to_json(old), &to_json(changes)).map(|v| from_json(&v))
}

fn disc_snapshot_hash(snapshot: &Value) -> String {
    snapshot_hash::disc_snapshot_hash(&to_json(snapshot))
}

fn effective_disc_is_archive_eligible(data: &Value) -> bool {
    approval::effective_disc_is_archive_eligible(&to_json(data))
}

fn effective_disc_is_active(data: &Value) -> bool {
    approval::effective_disc_is_active(&to_json(data))
}

fn dat_hash_conflict_input(changes: &Value, effective: &Value) -> Option<String> {
    approval::dat_hash_conflict_input(&to_json(changes), &to_json(effective))
}

fn universal_hash_conflict_input(changes: &Value, effective: &Value) -> Option<String> {
    approval::universal_hash_conflict_input(&to_json(changes), &to_json(effective))
}

fn file(track_number: &str, size: i64, crc32: &str, md5: &str, sha1: &str) -> File {
    File {
        id: 1,
        disc_id: 1,
        track_number: Some(track_number.to_string()),
        size,
        crc32: crc32.to_string(),
        md5: md5.to_string(),
        sha1: sha1.to_string(),
    }
}

fn rom_line(track_number: &str, size: i64, crc32: &str, md5: &str, sha1: &str) -> String {
    format!(
        r#"<rom name="Track {track_number}.bin" size="{size}" crc="{crc32}" md5="{md5}" sha1="{sha1}" />"#
    )
}

fn ring_entry(mastering_code: &str, comment: &str) -> Value {
    json(&format!(
        r#"{{"offset_value": "", "offset_extra_value": "", "sample_start": "", "comment": "{comment}",
             "layers": [{{"mastering_code": "{mastering_code}", "mastering_sid": "",
                          "toolstamps": "", "mould_sids": "", "additional_moulds": ""}}]}}"#
    ))
}

fn ring_merge_candidate(
    mastering: (&str, &str),
    numeric_fields: [&str; 3],
    comment: &str,
    mould_sids: &str,
) -> Value {
    json(&format!(
        r#"{{"id": 1, "offset_value": "{}", "offset_extra_value": "{}", "sample_start": "{}",
             "comment": "{comment}",
             "layers": [{{"mastering_code": "{}", "mastering_sid": "{}", "toolstamps": "",
                          "mould_sids": "{mould_sids}", "additional_moulds": ""}}]}}"#,
        numeric_fields[0], numeric_fields[1], numeric_fields[2], mastering.0, mastering.1
    ))
}

fn ring_merge_change(
    mastering: (&str, &str),
    numeric_fields: [&str; 3],
    comment: &str,
    mould_sids: &str,
) -> Value {
    let mut change = json(r#"{"layers": [{"index": 0}]}"#);
    for (key, value) in [
        ("offset_value", numeric_fields[0]),
        ("offset_extra_value", numeric_fields[1]),
        ("sample_data_start", numeric_fields[2]),
        ("comment", comment),
    ] {
        if !value.is_empty() {
            change[key] = add(value);
        }
    }
    for (key, value) in [
        ("mastering_code", mastering.0),
        ("mastering_sid", mastering.1),
        ("mould_sids", mould_sids),
    ] {
        if !value.is_empty() {
            change["layers"][0][key] = add(value);
        }
    }
    change
}

fn submission(
    submission_type: SubmissionType,
    target_disc_id: Option<i32>,
    changes: Value,
) -> DiscSubmission {
    DiscSubmission {
        id: 1,
        submission_type,
        submitter_id: 1,
        submission_comment: None,
        target_disc_id,
        changes: to_json(&changes),
        dump_log: None,
        extra_upload_url: None,
        submission_token: None,
        submission_fingerprint: None,
        status: SubmissionStatus::Pending,
        reviewer_id: None,
        review_comment: None,
        created_at: 0,
        reviewed_at: None,
    }
}

#[test]
fn submission_tokens_are_optional_and_strictly_validated() {
    assert_eq!(normalize_submission_token(None).unwrap(), None);
    assert_eq!(normalize_submission_token(Some("  ")).unwrap(), None);

    let uppercase = "A".repeat(64);
    assert_eq!(
        normalize_submission_token(Some(&uppercase)).unwrap(),
        Some("a".repeat(64))
    );
    assert!(matches!(
        normalize_submission_token(Some("short")),
        Err(AppError::BadRequest(_))
    ));
    assert!(matches!(
        normalize_submission_token(Some(&"z".repeat(64))),
        Err(AppError::BadRequest(_))
    ));
}

#[test]
fn exact_disc_match_requires_one_shared_target() {
    assert_eq!(resolve_exact_disc_match(None, None), None);
    assert_eq!(resolve_exact_disc_match(Some(42), None), Some(42));
    assert_eq!(resolve_exact_disc_match(None, Some(42)), Some(42));
    assert_eq!(resolve_exact_disc_match(Some(42), Some(42)), Some(42));
    assert_eq!(resolve_exact_disc_match(Some(42), Some(7)), None);
}

#[test]
fn verification_match_queries_always_exclude_disabled_discs() {
    assert!(DAT_MATCH_CANDIDATES_SQL.contains("d.status <> 'Disabled'"));
    assert!(UNIVERSAL_HASH_MATCH_SQL.contains("status <> 'Disabled'"));
}

#[test]
fn status_free_disc_approval_generates_status_changes() {
    let new_disc = resolve_approval_from_snapshot(
        SubmissionType::Disc,
        None,
        &json(r#"{}"#),
        &json(r#"{}"#),
    )
    .unwrap();
    assert_eq!(
        new_disc.changes["status"],
        json(r#"{ "add": { "new": "Unverified" } }"#)
    );
    assert_eq!(new_disc.effective_data["status"], "Unverified");

    for old_status in [DiscStatus::Unverified, DiscStatus::Questionable] {
        let snapshot = json(&format!(r#"{{"status": "{}"}}"#, old_status.as_str()));
        let verification = resolve_approval_from_snapshot(
            SubmissionType::Disc,
            Some(old_status),
            &snapshot,
            &json(r#"{}"#),
        )
        .unwrap();

        assert_eq!(
            verification.changes["status"],
            json(&format!(
                r#"{{"modify": {{"old": "{}", "new": "Verified"}}}}"#,
                old_status.as_str()
            ))
        );
        assert_eq!(verification.effective_data["status"], "Verified");
    }

    let verified = resolve_approval_from_snapshot(
        SubmissionType::Disc,
        Some(DiscStatus::Verified),
        &json(r#"{ "status": "Verified" }"#),
        &json(r#"{}"#),
    )
    .unwrap();
    assert!(verified.changes.get("status").is_none());
    assert_eq!(verified.effective_data["status"], "Verified");
}

#[test]
fn explicit_status_suppresses_disc_approval_automation() {
    let new_disc_changes = json(
        r##"{
        "status": { "add": { "new": "Verified" } }
    }"##,
    );
    let new_disc = resolve_approval_from_snapshot(
        SubmissionType::Disc,
        None,
        &json(r#"{}"#),
        &new_disc_changes,
    )
    .unwrap();
    assert_eq!(new_disc.changes, new_disc_changes);
    assert_eq!(new_disc.effective_data["status"], "Verified");

    let verification_changes = json(
        r##"{
        "status": {
            "modify": { "old": "Unverified", "new": "Questionable" }
        }
    }"##,
    );
    let verification = resolve_approval_from_snapshot(
        SubmissionType::Disc,
        Some(DiscStatus::Unverified),
        &json(r#"{ "status": "Unverified" }"#),
        &verification_changes,
    )
    .unwrap();
    assert_eq!(verification.changes, verification_changes);
    assert_eq!(verification.effective_data["status"], "Questionable");
}

#[test]
fn explicit_disc_status_survives_a_status_free_review_delta() {
    let submitted_changes = json(
        r##"{
        "status": {
            "modify": { "old": "Unverified", "new": "Questionable" }
        }
    }"##,
    );
    let reviewed_changes = json(
        r##"{
        "comments": { "add": { "new": "reviewed" } }
    }"##,
    );

    let approval_changes = preserve_submitted_status_change(
        SubmissionType::Disc,
        &submitted_changes,
        &reviewed_changes,
    )
    .unwrap();
    let resolution = resolve_approval_from_snapshot(
        SubmissionType::Disc,
        Some(DiscStatus::Unverified),
        &json(r#"{ "status": "Unverified" }"#),
        &approval_changes,
    )
    .unwrap();

    assert_eq!(resolution.changes["status"], submitted_changes["status"]);
    assert_eq!(resolution.effective_data["status"], "Questionable");
    assert_eq!(resolution.effective_data["comments"], "reviewed");
}

#[test]
fn edit_approval_never_generates_status_changes() {
    let snapshot = json(r#"{ "status": "Unverified" }"#);
    let unchanged = resolve_approval_from_snapshot(
        SubmissionType::Edit,
        Some(DiscStatus::Unverified),
        &snapshot,
        &json(r#"{}"#),
    )
    .unwrap();
    assert!(unchanged.changes.get("status").is_none());
    assert_eq!(unchanged.effective_data["status"], "Unverified");

    let explicit_changes = json(
        r##"{
        "status": {
            "modify": { "old": "Unverified", "new": "Disabled" }
        }
    }"##,
    );
    let explicit = resolve_approval_from_snapshot(
        SubmissionType::Edit,
        Some(DiscStatus::Unverified),
        &snapshot,
        &explicit_changes,
    )
    .unwrap();
    assert_eq!(explicit.changes, explicit_changes);
    assert_eq!(explicit.effective_data["status"], "Disabled");
}

#[test]
fn disabled_targets_block_only_verification_approval() {
    assert!(disabled_verification_target(
        SubmissionType::Disc,
        Some(DiscStatus::Disabled)
    ));
    assert!(!disabled_verification_target(
        SubmissionType::Edit,
        Some(DiscStatus::Disabled)
    ));
    assert!(!disabled_verification_target(
        SubmissionType::Disc,
        Some(DiscStatus::Questionable)
    ));
}

#[test]
fn disc_snapshot_hash_is_stable_for_object_key_order_and_changes_on_data_change() {
    let left = json(
        r##"{
        "title": "Game",
        "nested": {
            "z": 2,
            "a": [
                {
                    "right": true,
                    "left": false
                }
            ]
        }
    }"##,
    );
    let right = json(
        r##"{
        "nested": {
            "a": [
                {
                    "left": false,
                    "right": true
                }
            ],
            "z": 2
        },
        "title": "Game"
    }"##,
    );
    let changed = json(
        r##"{
        "nested": {
            "a": [
                {
                    "left": false,
                    "right": true
                }
            ],
            "z": 3
        },
        "title": "Game"
    }"##,
    );

    assert_eq!(disc_snapshot_hash(&left), disc_snapshot_hash(&right));
    assert_ne!(disc_snapshot_hash(&right), disc_snapshot_hash(&changed));
}

#[test]
fn review_base_hash_stale_decision_requires_current_hash_match_when_provided() {
    assert!(!review_base_hash_is_stale(None, "current"));
    assert!(!review_base_hash_is_stale(Some(" current "), "current"));
    assert!(review_base_hash_is_stale(Some("previous"), "current"));
    assert!(review_base_hash_is_stale(Some(""), "current"));
}

#[test]
fn stale_review_hash_maps_to_stale_approval_outcome() {
    assert_eq!(
        stale_review_approval_outcome(Some("previous"), "current"),
        Some(ApprovalOutcome::StaleDiscState)
    );
    assert_eq!(
        stale_review_approval_outcome(Some("current"), "current"),
        None
    );
    assert_eq!(stale_review_approval_outcome(None, "current"), None);
}

#[test]
fn generated_name_conflict_uses_archive_eligible_statuses() {
    assert!(!effective_disc_is_archive_eligible(
        &json(r#"{"status": "Disabled"}"#)
    ));
    assert!(!effective_disc_is_archive_eligible(
        &json(r#"{"status": "Questionable"}"#)
    ));
    assert!(effective_disc_is_archive_eligible(
        &json(r#"{"status": "Unverified"}"#)
    ));
    assert!(effective_disc_is_archive_eligible(
        &json(r#"{"status": "Verified"}"#)
    ));
    assert!(effective_disc_is_active(
        &json(r#"{"status": "Questionable"}"#)
    ));
}

#[test]
fn generated_name_conflict_query_excludes_archive_ineligible_statuses() {
    assert!(GENERATED_NAME_CONFLICT_CANDIDATES_SQL
        .contains("d.status NOT IN ('Disabled', 'Questionable')"));
    assert!(!GENERATED_NAME_CONFLICT_CANDIDATES_SQL.contains("d.status <> 'Disabled'"));
}

#[test]
fn submission_type_filter_conditions_use_status_and_target() {
    assert_eq!(submission_type_filter_condition(None), None);
    assert_eq!(submission_type_filter_condition(Some("")), None);
    assert_eq!(
        submission_type_filter_condition(Some("Edit")),
        Some("ds.submission_type = 'Edit'".to_string())
    );
    assert_eq!(
        submission_type_filter_condition(Some("New Disc")),
        Some(format!(
            "ds.submission_type = 'Disc' AND {UNPROCESSED_SUBMISSION_SQL} AND ds.target_disc_id IS NULL"
        ))
    );
    assert_eq!(
        submission_type_filter_condition(Some("Verification")),
        Some(format!(
            "ds.submission_type = 'Disc' AND (NOT ({UNPROCESSED_SUBMISSION_SQL}) OR ds.target_disc_id IS NOT NULL)"
        ))
    );
    assert_eq!(submission_type_filter_condition(Some("Disc")), None);
    assert_eq!(submission_type_filter_condition(Some("Unknown")), None);
}

#[test]
fn submission_display_kind_sql_uses_status_and_target() {
    let sql = submission_display_kind_sql();

    assert!(sql.contains(UNPROCESSED_SUBMISSION_SQL));
    assert!(sql.contains("ds.target_disc_id IS NULL"));
    assert!(sql.contains("THEN 'Disc'"));
    assert!(!sql.contains("ds.changes"));
}

#[test]
fn dat_match_uses_numeric_track_order() {
    let files = vec![
        file("1", 100, "11111111", &"1".repeat(32), &"1".repeat(40)),
        file("10", 1000, "aaaaaaaa", &"a".repeat(32), &"a".repeat(40)),
        file("2", 200, "22222222", &"2".repeat(32), &"2".repeat(40)),
    ];
    let dat = [
        rom_line("1", 100, "11111111", &"1".repeat(32), &"1".repeat(40)),
        rom_line("2", 200, "22222222", &"2".repeat(32), &"2".repeat(40)),
        rom_line("10", 1000, "aaaaaaaa", &"a".repeat(32), &"a".repeat(40)),
    ]
    .join("\n");
    let submitted = parse_rom_entries(&dat);

    assert!(files_match_submission(&files, &submitted));
}

#[test]
fn dat_match_ignores_hash_case() {
    let files = vec![file(
        "1",
        100,
        "deadbeef",
        "0123456789abcdef0123456789abcdef",
        "aaaaaaaaaaaaaaaaaaaaaaaaaaaaaaaaaaaaaaaa",
    )];
    let dat = rom_line(
        "1",
        100,
        "DEADBEEF",
        "0123456789ABCDEF0123456789ABCDEF",
        "AAAAAAAAAAAAAAAAAAAAAAAAAAAAAAAAAAAAAAAA",
    );
    let submitted = parse_rom_entries(&dat);

    assert!(files_match_submission(&files, &submitted));
}

#[test]
fn dat_match_accepts_single_iso_file() {
    let files = vec![file("0", 100, "11111111", &"1".repeat(32), &"1".repeat(40))];
    let dat = r#"<rom name="Game.iso" size="100" crc="11111111" md5="11111111111111111111111111111111" sha1="1111111111111111111111111111111111111111" />"#;
    let submitted = parse_rom_entries(dat);

    assert_eq!(submitted[0].track_number.as_deref(), Some("0"));
    assert!(files_match_submission(&files, &submitted));
}

#[test]
fn dat_match_rejects_wrong_track_hash() {
    let files = vec![
        file("1", 100, "11111111", &"1".repeat(32), &"1".repeat(40)),
        file("2", 200, "22222222", &"2".repeat(32), &"2".repeat(40)),
    ];
    let dat = [
        rom_line("1", 100, "11111111", &"1".repeat(32), &"1".repeat(40)),
        rom_line("2", 200, "33333333", &"3".repeat(32), &"3".repeat(40)),
    ]
    .join("\n");
    let submitted = parse_rom_entries(&dat);

    assert!(!files_match_submission(&files, &submitted));
}

#[test]
fn universal_hash_matching_normalizes_valid_sha1_hex() {
    let hash = "AABBCCDDEEFF00112233445566778899AABBCCDD";
    let bytes = universal_hash_bytes_for_matching(Some(hash)).unwrap();

    assert_eq!(
        bytes,
        vec![
            0xaa, 0xbb, 0xcc, 0xdd, 0xee, 0xff, 0x00, 0x11, 0x22, 0x33, 0x44, 0x55, 0x66, 0x77,
            0x88, 0x99, 0xaa, 0xbb, 0xcc, 0xdd
        ]
    );
    assert_eq!(
        universal_hash_bytes_for_matching(Some("  aabbccddeeff00112233445566778899aabbccdd  ")),
        Some(bytes)
    );
}

#[test]
fn universal_hash_matching_rejects_invalid_sha1_hex() {
    assert!(universal_hash_bytes_for_matching(None).is_none());
    assert!(universal_hash_bytes_for_matching(Some("")).is_none());
    assert!(universal_hash_bytes_for_matching(Some("abc123")).is_none());
    assert!(universal_hash_bytes_for_matching(Some(&"g".repeat(40))).is_none());
    assert!(universal_hash_bytes_for_matching(Some(&"a".repeat(41))).is_none());
}

#[test]
fn dat_conflict_check_runs_only_when_dat_is_in_changes() {
    let effective = json(
        r##"{
        "dat": "<rom name=\"Game.iso\" size=\"1\" crc=\"11111111\" md5=\"aaaaaaaaaaaaaaaaaaaaaaaaaaaaaaaa\" sha1=\"bbbbbbbbbbbbbbbbbbbbbbbbbbbbbbbbbbbbbbbb\" />"
    }"##,
    );

    assert_eq!(
        dat_hash_conflict_input(
            &json(r#"{"dat": {"add": {"new": "x"}}}"#),
            &effective
        ),
        effective["dat"].as_str().map(str::to_string)
    );
    assert_eq!(
        dat_hash_conflict_input(
            &json(r#"{"title": {"modify": {"old": "Old", "new": "New"}}}"#),
            &effective
        ),
        None
    );
    assert_eq!(
        dat_hash_conflict_input(
            &json(r#"{"dat": {"remove": {"old": "x"}}}"#),
            &json(r#"{"dat": null}"#)
        ),
        None
    );
}

#[test]
fn universal_hash_conflict_check_runs_only_when_hash_is_in_changes() {
    let effective = json(
        r##"{
        "universal_hash": "bbbbbbbbbbbbbbbbbbbbbbbbbbbbbbbbbbbbbbbb"
    }"##,
    );

    assert_eq!(
        universal_hash_conflict_input(
            &json(r#"{"universal_hash": {"add": {"new": "bbbbbbbbbbbbbbbbbbbbbbbbbbbbbbbbbbbbbbbb"}}}"#),
            &effective
        ),
        Some("bbbbbbbbbbbbbbbbbbbbbbbbbbbbbbbbbbbbbbbb".to_string())
    );
    assert_eq!(
        universal_hash_conflict_input(
            &json(r#"{"comments": {"add": {"new": "metadata only"}}}"#),
            &effective
        ),
        None
    );
    assert_eq!(
        universal_hash_conflict_input(
            &json(r#"{"universal_hash": {"remove": {"old": "bbbbbbbbbbbbbbbbbbbbbbbbbbbbbbbbbbbbbbbb"}}}"#),
            &json(r#"{"universal_hash": null}"#)
        ),
        None
    );
}

#[test]
fn applies_new_disc_changes_to_empty_snapshot() {
    let changes = json(
        r##"{
        "title": { "add": { "new": "New Game" } },
        "regions": { "add": ["AS", "EU"] },
        "languages": { "add": ["ja"] },
        "serial": { "add": ["ABC-001"] },
        "edition": { "add": ["Limited"] },
        "barcode": { "add": ["1234567890"] },
        "layerbreaks": { "add": { "new": [12345] } },
        "ring_codes": [{
            "offset_value": { "add": { "new": "0" } },
            "comment": { "add": { "new": "new pressing" } },
            "layers": [{
                "index": 0,
                "mastering_code": { "add": { "new": "MASTER-A" } },
                "mastering_sid": { "add": { "new": "SID-A" } },
                "toolstamps": { "add": { "new": "T1" } }
            }]
        }]
    }"##,
    );
    let sub = submission(SubmissionType::Disc, None, changes);

    let result =
        resolve_submission_snapshot_for_submission(&json(r#"{}"#), &sub).unwrap();

    assert_eq!(result["title"], "New Game");
    assert_eq!(result["regions"], json(r#"["AS", "EU"]"#));
    assert_eq!(result["languages"], json(r#"["ja"]"#));
    assert_eq!(result["serial"], json(r#"["ABC-001"]"#));
    assert_eq!(result["edition"], json(r#"["Limited"]"#));
    assert_eq!(result["barcode"], json(r#"["1234567890"]"#));
    assert_eq!(result["layerbreaks"], json(r#"[12345]"#));
    assert_eq!(result["ring_codes"].as_array().unwrap().len(), 1);
    assert_eq!(result["ring_codes"][0]["offset_value"], "0");
    assert_eq!(result["ring_codes"][0]["comment"], "new pressing");
    assert_eq!(
        result["ring_codes"][0]["layers"][0]["mastering_code"],
        "MASTER-A"
    );
    assert_eq!(result["ring_codes"][0]["layers"][0]["toolstamps"], "T1");
}

#[test]
fn resolver_canonicalizes_hex_case_without_rewriting_stored_changes() {
    let db = json(
        r##"{
        "disc_id": "aabbccdd",
        "disc_key": "aabbccdd",
        "universal_hash": "aaaaaaaaaaaaaaaaaaaaaaaaaaaaaaaaaaaaaaaa",
        "sbi": "MSF: 02:03:04 Q-Data: A1B2C3 0A:0B:0C 00 0D:0E:0F ABCD",
        "pvd": "0320 : AA BB                                           ab",
        "dat": "<rom name=\"Track.bin\" size=\"1\" crc=\"abcdef12\" md5=\"aabbccddeeff00112233445566778899\" sha1=\"abcdefabcdefabcdefabcdefabcdefabcdefabcd\" />"
    }"##,
    );
    let changes = json(
        r##"{
        "disc_id": {"modify": {"old": "aabbccdd", "new": "AABBCCDD"}},
        "disc_key": {"modify": {"old": "aabbccdd", "new": "AABBCCDD"}},
        "universal_hash": {"modify": {"old": "aaaaaaaaaaaaaaaaaaaaaaaaaaaaaaaaaaaaaaaa", "new": "AAAAAAAAAAAAAAAAAAAAAAAAAAAAAAAAAAAAAAAA"}},
        "sbi": {"modify": {"old": "MSF: 02:03:04 Q-Data: A1B2C3 0A:0B:0C 00 0D:0E:0F ABCD", "new": "MSF: 02:03:04 Q-Data: a1b2c3 0a:0b:0c 00 0d:0e:0f abcd"}},
        "pvd": {"modify": {"old": "0320 : AA BB                                           ab", "new": "0320 : aa bb                                           ab"}},
        "dat": {"modify": {"old": null, "new": "<rom name=\"Track.bin\" size=\"1\" crc=\"ABCDEF12\" md5=\"AABBCCDDEEFF00112233445566778899\" sha1=\"ABCDEFABCDEFABCDEFABCDEFABCDEFABCDEFABCD\" />"}}
    }"##,
    );
    let mut changes = changes;
    changes["dat"]["modify"]["old"] = db["dat"].clone();
    let stored_changes = changes.clone();

    let resolved = resolve_submission_snapshot(&db, &changes).unwrap();

    assert_eq!(resolved, db);
    assert_eq!(changes, stored_changes);
}

#[test]
fn applies_add_disc_verification_payload_without_duplicating_existing_values() {
    let db = json(
        r##"{
        "title": "Old Game",
        "regions": ["Europe"],
        "languages": ["en"],
        "serial": ["ABC-001"],
        "edition": ["Original"],
        "barcode": ["1234567890"],
        "dat": "<rom name=\"Existing.iso\" size=\"1\" crc=\"11111111\" md5=\"aaaaaaaaaaaaaaaaaaaaaaaaaaaaaaaa\" sha1=\"bbbbbbbbbbbbbbbbbbbbbbbbbbbbbbbbbbbbbbbb\" />",
        "ring_codes": [{
            "id": 1,
            "offset_value": "",
            "offset_extra_value": "",
            "sample_start": "",
            "comment": "",
            "layers": [{
                "mastering_code": "MASTER-A",
                "mastering_sid": "SID-A",
                "toolstamps": "T1",
                "mould_sids": "",
                "additional_moulds": ""
            }]
        }]
    }"##,
    );
    let changes = json(
        r##"{
        "title": { "modify": { "old": "Old Game", "new": "Updated Game" } },
        "regions": { "add": ["Asia", "Europe"] },
        "languages": { "add": ["ja"] },
        "serial": { "add": ["ABC-001", "DEF-002"] },
        "edition": { "add": ["Limited"] },
        "barcode": { "add": ["1234567890", "0987654321"] },
        "ring_codes": [
            {
                "layers": [{
                    "index": 0,
                    "mastering_code": { "add": { "new": "MASTER-A" } },
                    "mastering_sid": { "add": { "new": "SID-A" } },
                    "toolstamps": { "add": { "new": "T2" } }
                }]
            }
        ]
    }"##,
    );
    let sub = submission(SubmissionType::Disc, Some(1), changes);

    let result = resolve_submission_snapshot_for_submission(&db, &sub).unwrap();

    assert_eq!(result["title"], "Updated Game");
    assert_eq!(result["regions"], json(r#"["Europe", "Asia"]"#));
    assert_eq!(result["languages"], json(r#"["en", "ja"]"#));
    assert_eq!(result["serial"], json(r#"["ABC-001", "DEF-002"]"#));
    assert_eq!(
        result["edition"],
        json(r#"["Original", "Limited"]"#)
    );
    assert_eq!(
        result["barcode"],
        json(r#"["1234567890", "0987654321"]"#)
    );
    assert_eq!(
        result["dat"],
        r#"<rom name="Existing.iso" size="1" crc="11111111" md5="aaaaaaaaaaaaaaaaaaaaaaaaaaaaaaaa" sha1="bbbbbbbbbbbbbbbbbbbbbbbbbbbbbbbbbbbbbbbb" />"#
    );
    assert_eq!(result["ring_codes"].as_array().unwrap().len(), 1);
    assert_eq!(result["ring_codes"][0]["id"], 1);
    assert_eq!(result["ring_codes"][0]["layers"][0]["toolstamps"], "T1, T2");
}

#[test]
fn applies_moderator_verification_delta_with_set_adds_and_removes() {
    let db = json(
        r##"{
        "regions": ["Europe"],
        "languages": ["en"],
        "serial": ["ABC-001"],
        "edition": ["Original"],
        "barcode": ["1234567890"]
    }"##,
    );
    let changes = json(
        r##"{
        "regions": { "remove": ["Europe"], "add": ["Asia"] },
        "languages": { "remove": ["en"], "add": ["ja"] },
        "serial": { "remove": ["ABC-001"], "add": ["abc-001"] },
        "edition": { "remove": ["Original"], "add": ["original"] },
        "barcode": { "remove": ["1234567890"], "add": ["0987654321"] }
    }"##,
    );
    let sub = submission(SubmissionType::Disc, Some(1), changes);

    let result = resolve_submission_snapshot_for_submission(&db, &sub).unwrap();

    assert_eq!(result["regions"], json(r#"["Asia"]"#));
    assert_eq!(result["languages"], json(r#"["ja"]"#));
    assert_eq!(result["serial"], json(r#"["abc-001"]"#));
    assert_eq!(result["edition"], json(r#"["original"]"#));
    assert_eq!(result["barcode"], json(r#"["0987654321"]"#));
}

#[test]
fn applies_edit_changes_with_scalar_set_and_ring_operations() {
    let db = json(
        r##"{
        "title": "Old Game",
        "comments": "old comment",
        "regions": ["EU"],
        "languages": ["en"],
        "serial": ["ABC-001", "OLD-002"],
        "edition": ["Original"],
        "barcode": ["1234567890"],
        "layerbreaks": [10, 20],
        "ring_codes": [
            {
                "id": 1,
                "offset_value": "",
                "offset_extra_value": "",
                "sample_start": "",
                "comment": "old",
                "layers": [{
                    "mastering_code": "MASTER-A",
                    "mastering_sid": "SID-A",
                    "toolstamps": "T1",
                    "mould_sids": "",
                    "additional_moulds": ""
                }]
            },
            {
                "id": 2,
                "offset_value": "",
                "offset_extra_value": "",
                "sample_start": "",
                "comment": "remove me",
                "layers": [{
                    "mastering_code": "MASTER-B",
                    "mastering_sid": "SID-B",
                    "toolstamps": "T9",
                    "mould_sids": "",
                    "additional_moulds": ""
                }]
            }
        ]
    }"##,
    );
    let changes = json(
        r##"{
        "title": { "modify": { "old": "Old Game", "new": "Edited Game" } },
        "comments": { "remove": { "old": "old comment" } },
        "regions": { "remove": ["EU"], "add": ["AS"] },
        "languages": { "remove": ["en"] },
        "serial": { "remove": ["ABC-001", "OLD-002"], "add": ["XYZ-999", "NEW-003"] },
        "edition": { "remove": ["Original"], "add": ["Greatest Hits"] },
        "barcode": { "remove": ["1234567890"], "add": ["5555555555"] },
        "layerbreaks": { "modify": { "old": [10, 20], "new": [15, 30] } },
        "ring_codes": [
            {
                "id": 1,
                "comment": { "modify": { "old": "old", "new": "updated" } },
                "layers": [{
                    "index": 0,
                    "toolstamps": { "modify": { "old": "T1", "new": "T1, T2" } }
                }]
            },
            { "id": 2, "remove": true }
        ]
    }"##,
    );
    let sub = submission(SubmissionType::Edit, Some(1), changes);

    let result = resolve_submission_snapshot_for_submission(&db, &sub).unwrap();

    assert_eq!(result["title"], "Edited Game");
    assert!(result["comments"].is_null());
    assert_eq!(result["regions"], json(r#"["AS"]"#));
    assert_eq!(result["languages"], json(r#"[]"#));
    assert_eq!(result["serial"], json(r#"["XYZ-999", "NEW-003"]"#));
    assert_eq!(result["edition"], json(r#"["Greatest Hits"]"#));
    assert_eq!(result["barcode"], json(r#"["5555555555"]"#));
    assert_eq!(result["layerbreaks"], json(r#"[15, 30]"#));
    assert_eq!(result["ring_codes"].as_array().unwrap().len(), 1);
    assert_eq!(result["ring_codes"][0]["id"], 1);
    assert_eq!(result["ring_codes"][0]["comment"], "updated");
    assert_eq!(result["ring_codes"][0]["layers"][0]["toolstamps"], "T1, T2");
}

#[test]
fn scalar_remove_rejects_required_fields() {
    let db = json(
        r##"{
        "title": "Old Game"
    }"##,
    );
    let changes = json(
        r##"{
        "title": { "remove": { "old": "Old Game" } }
    }"##,
    );

    assert!(resolve_submission_snapshot(&db, &changes).is_err());
}

#[test]
fn nullable_scalar_remove_resolves_to_null() {
    let db = json(
        r##"{
        "title": "Old Game",
        "comments": "remove me",
        "layerbreaks": [10, 20]
    }"##,
    );
    let changes = json(
        r##"{
        "comments": { "remove": { "old": "remove me" } },
        "layerbreaks": { "remove": { "old": [10, 20] } }
    }"##,
    );

    let result = resolve_submission_snapshot(&db, &changes).unwrap();

    assert!(result["comments"].is_null());
    assert!(result["layerbreaks"].is_null());
    assert_eq!(result["title"], "Old Game");
}

#[test]
fn scalar_operations_reject_malformed_wrappers() {
    let db = json(r#"{ "comments": "old" }"#);
    let cases = [
        (
            json(r#"{ "comments": { "add": { "old": "old", "new": "new" } } }"#),
            "requires only new",
        ),
        (
            json(r#"{ "comments": { "modify": { "new": "new" } } }"#),
            "requires old and new",
        ),
        (
            json(r#"{ "comments": { "remove": {} } }"#),
            "requires only old",
        ),
        (
            json(r#"{ "comments": { "replace": { "new": "new" } } }"#),
            "unknown operation",
        ),
        (
            json(r#"{ "comments": { "add": { "new": "new" }, "remove": { "old": "old" } } }"#),
            "exactly one operation",
        ),
    ];

    for (changes, expected) in cases {
        let err = resolve_submission_snapshot(&db, &changes).unwrap_err();
        match err {
            AppError::BadRequest(msg) => assert!(
                msg.contains(expected),
                "expected `{msg}` to contain `{expected}`"
            ),
            other => panic!("unexpected error: {other:?}"),
        }
    }
}

#[test]
fn set_operations_are_case_sensitive_and_deduplicate_on_apply() {
    let db = json(
        r##"{
        "regions": ["Europe"],
        "serial": ["ABC-001"]
    }"##,
    );
    let changes = json(
        r##"{
        "regions": { "add": ["Europe", "europe", "Asia", "Asia"], "remove": ["Missing"] },
        "serial": { "remove": ["ABC-001"], "add": ["abc-001", "ABC-001", "abc-001"] }
    }"##,
    );

    let result = resolve_submission_snapshot(&db, &changes).unwrap();

    assert_eq!(
        result["regions"],
        json(r#"["Europe", "europe", "Asia"]"#)
    );
    assert_eq!(result["serial"], json(r#"["abc-001", "ABC-001"]"#));
}

#[test]
fn set_operations_reject_malformed_wrappers() {
    let db = json(r#"{ "regions": ["Europe"] }"#);
    let cases = [
        (
            json(r#"{ "regions": {} }"#),
            "add and/or remove arrays",
        ),
        (
            json(r#"{ "regions": { "add": "Asia" } }"#),
            "add operation must be an array",
        ),
        (
            json(r#"{ "regions": { "remove": [1] } }"#),
            "remove operation values must be strings",
        ),
        (
            json(r#"{ "regions": { "modify": ["Asia"] } }"#),
            "add and/or remove arrays",
        ),
    ];

    for (changes, expected) in cases {
        let err = resolve_submission_snapshot(&db, &changes).unwrap_err();
        match err {
            AppError::BadRequest(msg) => assert!(
                msg.contains(expected),
                "expected `{msg}` to contain `{expected}`"
            ),
            other => panic!("unexpected error: {other:?}"),
        }
    }
}

#[test]
fn resolver_preserves_unchanged_snapshot_fields() {
    let db = json(
        r##"{
        "title": "Old Game",
        "system_code": "SYS",
        "regions": ["Europe"],
        "languages": ["en"],
        "comments": "keep me",
        "ring_codes": []
    }"##,
    );
    let changes = json(
        r##"{
        "regions": { "add": ["Asia"] }
    }"##,
    );

    let result = resolve_submission_snapshot(&db, &changes).unwrap();

    assert_eq!(result["title"], "Old Game");
    assert_eq!(result["system_code"], "SYS");
    assert_eq!(result["comments"], "keep me");
    assert_eq!(result["languages"], json(r#"["en"]"#));
    assert_eq!(result["regions"], json(r#"["Europe", "Asia"]"#));
}

#[test]
fn resolver_is_submission_type_agnostic() {
    let db = json(
        r##"{
        "title": "Old Game",
        "regions": ["Europe"]
    }"##,
    );
    let changes = json(
        r##"{
        "title": { "modify": { "old": "Old Game", "new": "New Game" } },
        "regions": { "add": ["Asia"] }
    }"##,
    );
    let disc_sub = submission(SubmissionType::Disc, Some(1), changes.clone());
    let edit_sub = submission(SubmissionType::Edit, Some(1), changes);

    let disc_result = resolve_submission_snapshot_for_submission(&db, &disc_sub).unwrap();
    let edit_result = resolve_submission_snapshot_for_submission(&db, &edit_sub).unwrap();

    assert_eq!(disc_result, edit_result);
    assert_eq!(disc_result["title"], "New Game");
    assert_eq!(
        disc_result["regions"],
        json(r#"["Europe", "Asia"]"#)
    );
}

#[test]
fn new_disc_resolve_still_uses_submitted_values() {
    let changes = json(
        r##"{
        "regions": { "add": ["AS"] },
        "languages": { "add": ["ja"] },
        "serial": { "add": ["DEF"] }
    }"##,
    );
    let sub = submission(SubmissionType::Disc, None, changes);

    let result =
        resolve_submission_snapshot_for_submission(&json(r#"{}"#), &sub).unwrap();

    assert_eq!(result["regions"], json(r#"["AS"]"#));
    assert_eq!(result["languages"], json(r#"["ja"]"#));
    assert_eq!(result["serial"], json(r#"["DEF"]"#));
}

#[test]
fn ring_code_modify_can_create_missing_layer_by_index() {
    let old = json(
        r##"[{
        "id": 1,
        "offset_value": "",
        "offset_extra_value": "",
        "sample_start": "",
        "comment": "",
        "layers": [{
            "mastering_code": "L0",
            "mastering_sid": "",
            "toolstamps": "",
            "mould_sids": "",
            "additional_moulds": ""
        }]
    }]"##,
    );
    let changes = json(
        r##"[{
        "id": 1,
        "layers": [{
            "index": 1,
            "mastering_code": { "add": { "new": "L1" } },
            "mastering_sid": { "add": { "new": "SID-L1" } },
            "toolstamps": { "add": { "new": "T2, T1, T2" } }
        }]
    }]"##,
    );

    let result = apply_ring_codes_history(&old, &changes).unwrap();

    assert_eq!(result[0]["layers"].as_array().unwrap().len(), 2);
    assert_eq!(result[0]["layers"][1]["mastering_code"], "L1");
    assert_eq!(result[0]["layers"][1]["mastering_sid"], "SID-L1");
    assert_eq!(result[0]["layers"][1]["toolstamps"], "T1, T2");
}

#[test]
fn apply_ring_codes_history_uses_entry_id() {
    let old = json(
        r##"[
        {
            "id": 20,
            "offset_value": "",
            "offset_extra_value": "",
            "sample_start": "",
            "comment": "",
            "layers": [{ "mastering_code": "B", "mastering_sid": "", "toolstamps": "", "mould_sids": "", "additional_moulds": "" }]
        },
        {
            "id": 10,
            "offset_value": "",
            "offset_extra_value": "",
            "sample_start": "",
            "comment": "",
            "layers": [{ "mastering_code": "A", "mastering_sid": "", "toolstamps": "", "mould_sids": "", "additional_moulds": "" }]
        }
    ]"##,
    );
    let changes = json(
        r##"[
        {
            "id": 10,
            "comment": { "add": { "new": "updated" } }
        }
    ]"##,
    );

    let result = apply_ring_codes_history(&old, &changes).unwrap();
    let entries = result.as_array().unwrap();
    assert_eq!(entries[0]["id"], 10);
    assert_eq!(entries[0]["layers"][0]["mastering_code"], "A");
    assert_eq!(entries[0]["comment"], "updated");
}

#[test]
fn apply_ring_codes_history_rejects_missing_entry_id() {
    let old = Value::Array(vec![ring_entry("A", "")]);
    let changes = json(
        r##"[
        {
            "remove": true
        }
    ]"##,
    );

    let err = apply_ring_codes_history(&old, &changes).unwrap_err();
    match err {
        AppError::BadRequest(msg) => assert!(msg.contains("requires entry id")),
        other => panic!("unexpected error: {other:?}"),
    }
}

#[test]
fn apply_ring_codes_history_does_not_merge_addition_into_removed_entry() {
    let old = json(
        r##"[{
        "id": 3116,
        "offset_value": "",
        "offset_extra_value": "",
        "sample_start": "",
        "comment": "inherited",
        "layers": [{
            "mastering_code": "",
            "mastering_sid": "",
            "toolstamps": "",
            "mould_sids": "",
            "additional_moulds": ""
        }]
    }]"##,
    );
    let changes = json(
        r##"[
        {
            "offset_value": { "add": { "new": "2" } },
            "layers": [{
                "index": 0,
                "mould_sids": { "add": { "new": "IFPI 947R" } }
            }]
        },
        {
            "id": 3116,
            "remove": true
        }
    ]"##,
    );

    let result = apply_ring_codes_history(&old, &changes).unwrap();
    let entries = result.as_array().unwrap();

    assert_eq!(entries.len(), 1);
    assert!(entries[0].get("id").is_none());
    assert_eq!(entries[0]["offset_value"], "2");
    assert_eq!(entries[0]["comment"], "");
    assert_eq!(entries[0]["layers"][0]["mould_sids"], "IFPI 947R");
}

#[test]
fn apply_ring_codes_history_does_not_merge_multiple_additions_into_removed_entries() {
    let old = json(
        r##"[
        {
            "id": 1,
            "offset_value": "",
            "offset_extra_value": "",
            "sample_start": "",
            "comment": "first inherited",
            "layers": [{
                "mastering_code": "",
                "mastering_sid": "",
                "toolstamps": "",
                "mould_sids": "",
                "additional_moulds": ""
            }]
        },
        {
            "id": 2,
            "offset_value": "",
            "offset_extra_value": "",
            "sample_start": "",
            "comment": "second inherited",
            "layers": [{
                "mastering_code": "",
                "mastering_sid": "",
                "toolstamps": "",
                "mould_sids": "",
                "additional_moulds": ""
            }]
        }
    ]"##,
    );
    let changes = json(
        r##"[
        {
            "offset_value": { "add": { "new": "11" } },
            "layers": [{
                "index": 0,
                "mould_sids": { "add": { "new": "IFPI A111" } }
            }]
        },
        {
            "offset_value": { "add": { "new": "22" } },
            "layers": [{
                "index": 0,
                "mould_sids": { "add": { "new": "IFPI B222" } }
            }]
        },
        {
            "id": 2,
            "remove": true
        },
        {
            "id": 1,
            "remove": true
        }
    ]"##,
    );

    let result = apply_ring_codes_history(&old, &changes).unwrap();
    let entries = result.as_array().unwrap();

    assert_eq!(entries.len(), 2);
    assert!(entries.iter().all(|entry| entry.get("id").is_none()));
    assert_eq!(entries[0]["offset_value"], "11");
    assert_eq!(entries[0]["layers"][0]["mould_sids"], "IFPI A111");
    assert_eq!(entries[1]["offset_value"], "22");
    assert_eq!(entries[1]["layers"][0]["mould_sids"], "IFPI B222");
}

#[test]
fn merge_ring_entry_when_mastering_matches() {
    let old = json(
        r##"[{
        "id": 1,
        "offset_value": "",
        "offset_extra_value": "",
        "sample_start": "",
        "comment": "",
        "layers": [{
            "mastering_code": "ABCD",
            "mastering_sid": "SID-1",
            "toolstamps": "TS-A",
            "mould_sids": "MS-1",
            "additional_moulds": "AM-X"
        }]
    }]"##,
    );
    let changes = json(
        r##"[{
        "layers": [{
            "index": 0,
            "mastering_code": { "add": { "new": "ABCD" } },
            "mastering_sid": { "add": { "new": "SID-1" } },
            "toolstamps": { "add": { "new": "TS-B" } },
            "mould_sids": { "add": { "new": "MS-2" } },
            "additional_moulds": { "add": { "new": "AM-Y" } }
        }]
    }]"##,
    );

    let result = apply_ring_codes_history(&old, &changes).unwrap();
    let entries = result.as_array().unwrap();
    assert_eq!(entries.len(), 1, "should merge, not add new entry");
    let layer = &entries[0]["layers"][0];
    assert_eq!(layer["toolstamps"], "TS-A, TS-B");
    assert_eq!(layer["mould_sids"], "MS-1, MS-2");
    assert_eq!(layer["additional_moulds"], "AM-X, AM-Y");
}

#[test]
fn no_merge_when_mastering_code_differs() {
    let old = json(
        r##"[{
        "id": 1,
        "offset_value": "",
        "offset_extra_value": "",
        "sample_start": "",
        "comment": "",
        "layers": [{
            "mastering_code": "ABCD",
            "mastering_sid": "SID-1",
            "toolstamps": "TS-A",
            "mould_sids": "",
            "additional_moulds": ""
        }]
    }]"##,
    );
    let changes = json(
        r##"[{
        "layers": [{
            "index": 0,
            "mastering_code": { "add": { "new": "DIFFERENT" } },
            "mastering_sid": { "add": { "new": "SID-1" } },
            "toolstamps": { "add": { "new": "TS-B" } }
        }]
    }]"##,
    );

    let result = apply_ring_codes_history(&old, &changes).unwrap();
    let entries = result.as_array().unwrap();
    assert_eq!(
        entries.len(),
        2,
        "should add new entry when mastering_code differs"
    );
}

#[test]
fn no_merge_when_mastering_identity_differs_only_by_case() {
    for (database_mastering, change_mastering) in [
        (("MASTER", "SID-1"), ("master", "SID-1")),
        (("MASTER", "SID-1"), ("MASTER", "sid-1")),
    ] {
        let old = Value::Array(vec![ring_merge_candidate(
            database_mastering,
            ["10", "20", "30"],
            "same comment",
            "IFPI 1111",
        )]);
        let changes = Value::Array(vec![ring_merge_change(
            change_mastering,
            ["10", "20", "30"],
            "same comment",
            "IFPI 2222",
        )]);

        let result = apply_ring_codes_history(&old, &changes).unwrap();
        assert_eq!(result.as_array().unwrap().len(), 2);
    }
}

#[test]
fn no_merge_when_database_has_mastering_identity_on_omitted_change_layer() {
    let old = json(
        r##"[{
        "id": 1,
        "offset_value": "",
        "offset_extra_value": "",
        "sample_start": "",
        "comment": "",
        "layers": [
            {
                "mastering_code": "",
                "mastering_sid": "",
                "toolstamps": "",
                "mould_sids": "IFPI 1111",
                "additional_moulds": ""
            },
            {
                "mastering_code": "L1-MASTER",
                "mastering_sid": "",
                "toolstamps": "",
                "mould_sids": "",
                "additional_moulds": ""
            }
        ]
    }]"##,
    );
    let changes = json(
        r##"[{
        "layers": [{
            "index": 0,
            "mould_sids": { "add": { "new": "IFPI 2222" } }
        }]
    }]"##,
    );

    let result = apply_ring_codes_history(&old, &changes).unwrap();
    assert_eq!(result.as_array().unwrap().len(), 2);
}

#[test]
fn merge_csv_values_preserves_case_variants_and_deduplicates_exact_values() {
    let old = json(
        r##"[{
        "id": 1,
        "offset_value": "",
        "offset_extra_value": "",
        "sample_start": "",
        "comment": "",
        "layers": [{
            "mastering_code": "X",
            "mastering_sid": "",
            "toolstamps": "STAMP",
            "mould_sids": "MOULD",
            "additional_moulds": "ADDITIONAL"
        }]
    }]"##,
    );
    let changes = json(
        r##"[{
        "layers": [{
            "index": 0,
            "mastering_code": { "add": { "new": "X" } },
            "mastering_sid": { "add": { "new": "" } },
            "toolstamps": { "add": { "new": "stamp, STAMP" } },
            "mould_sids": { "add": { "new": "mould, MOULD" } },
            "additional_moulds": { "add": { "new": "additional, ADDITIONAL" } }
        }]
    }]"##,
    );

    let result = apply_ring_codes_history(&old, &changes).unwrap();
    let entries = result.as_array().unwrap();
    assert_eq!(entries.len(), 1);
    let layer = &entries[0]["layers"][0];
    assert_eq!(layer["toolstamps"], "STAMP, stamp");
    assert_eq!(layer["mould_sids"], "MOULD, mould");
    assert_eq!(layer["additional_moulds"], "ADDITIONAL, additional");
}

#[test]
fn identified_merge_allows_empty_numeric_value_on_either_side() {
    for field_index in 0..3 {
        for empty_database_value in [false, true] {
            let mut database_numbers = ["10", "20", "30"];
            let mut change_numbers = database_numbers;
            if empty_database_value {
                database_numbers[field_index] = "";
            } else {
                change_numbers[field_index] = "";
            }

            let old = Value::Array(vec![ring_merge_candidate(
                ("MASTER", "SID-1"),
                database_numbers,
                "same comment",
                "IFPI 1111",
            )]);
            let changes = Value::Array(vec![ring_merge_change(
                ("MASTER", "SID-1"),
                change_numbers,
                "same comment",
                "IFPI 2222",
            )]);

            let result = apply_ring_codes_history(&old, &changes).unwrap();
            let entries = result.as_array().unwrap();
            assert_eq!(
                entries.len(),
                1,
                "field {field_index} should allow an empty value on either side"
            );
            assert_eq!(
                entries[0]["layers"][0]["mould_sids"],
                "IFPI 1111, IFPI 2222"
            );
        }
    }
}

#[test]
fn identified_merge_rejects_different_nonempty_numeric_values() {
    for field_index in 0..3 {
        let database_numbers = ["10", "20", "30"];
        let mut change_numbers = database_numbers;
        change_numbers[field_index] = "99";

        let old = Value::Array(vec![ring_merge_candidate(
            ("MASTER", "SID-1"),
            database_numbers,
            "same comment",
            "IFPI 1111",
        )]);
        let changes = Value::Array(vec![ring_merge_change(
            ("MASTER", "SID-1"),
            change_numbers,
            "same comment",
            "IFPI 2222",
        )]);

        let result = apply_ring_codes_history(&old, &changes).unwrap();
        assert_eq!(
            result.as_array().unwrap().len(),
            2,
            "field {field_index} should reject different non-empty values"
        );
    }
}

#[test]
fn unidentified_merge_requires_exact_numeric_values() {
    let numbers = ["10", "20", "30"];
    let old = Value::Array(vec![ring_merge_candidate(
        ("", ""),
        numbers,
        "same comment",
        "IFPI 1111",
    )]);
    let changes = Value::Array(vec![ring_merge_change(
        ("", ""),
        numbers,
        "same comment",
        "IFPI 2222",
    )]);

    let result = apply_ring_codes_history(&old, &changes).unwrap();
    let entries = result.as_array().unwrap();
    assert_eq!(entries.len(), 1);
    assert_eq!(
        entries[0]["layers"][0]["mould_sids"],
        "IFPI 1111, IFPI 2222"
    );

    for field_index in 0..3 {
        for empty_database_value in [false, true] {
            let mut database_numbers = numbers;
            let mut change_numbers = numbers;
            if empty_database_value {
                database_numbers[field_index] = "";
            } else {
                change_numbers[field_index] = "";
            }

            let old = Value::Array(vec![ring_merge_candidate(
                ("", ""),
                database_numbers,
                "same comment",
                "IFPI 1111",
            )]);
            let changes = Value::Array(vec![ring_merge_change(
                ("", ""),
                change_numbers,
                "same comment",
                "IFPI 2222",
            )]);

            let result = apply_ring_codes_history(&old, &changes).unwrap();
            assert_eq!(
                result.as_array().unwrap().len(),
                2,
                "field {field_index} should require exact values without mastering identity"
            );
        }
    }
}

#[test]
fn unidentified_entries_with_unknown_offsets_do_not_merge() {
    let old = Value::Array(vec![ring_merge_candidate(
        ("", ""),
        ["", "", ""],
        "",
        "IFPI 1234",
    )]);
    let changes =
        Value::Array(vec![ring_merge_change(("", ""), ["2", "", ""], "", "IFPI 5432",)]);

    let result = apply_ring_codes_history(&old, &changes).unwrap();
    assert_eq!(result.as_array().unwrap().len(), 2);
}

#[test]
fn ring_merge_requires_exact_comments_in_both_modes() {
    for mastering in [("MASTER", "SID-1"), ("", "")] {
        for (database_comment, change_comment) in [
            ("Pressing A", "Pressing B"),
            ("", "Pressing A"),
            ("Pressing A", ""),
            ("Pressing A", "pressing A"),
            ("Pressing A", "Pressing A "),
        ] {
            let old = Value::Array(vec![ring_merge_candidate(
                mastering,
                ["10", "20", "30"],
                database_comment,
                "IFPI 1111",
            )]);
            let changes = Value::Array(vec![ring_merge_change(
                mastering,
                ["10", "20", "30"],
                change_comment,
                "IFPI 2222",
            )]);

            let result = apply_ring_codes_history(&old, &changes).unwrap();
            assert_eq!(
                result.as_array().unwrap().len(),
                2,
                "comments must match exactly for mastering {mastering:?}"
            );
        }
    }
}

#[test]
fn matching_nonempty_comments_merge_in_both_modes() {
    for mastering in [("MASTER", "SID-1"), ("", "")] {
        let old = Value::Array(vec![ring_merge_candidate(
            mastering,
            ["10", "20", "30"],
            "same comment",
            "IFPI 1111",
        )]);
        let changes = Value::Array(vec![ring_merge_change(
            mastering,
            ["10", "20", "30"],
            "same comment",
            "IFPI 2222",
        )]);

        let result = apply_ring_codes_history(&old, &changes).unwrap();
        assert_eq!(result.as_array().unwrap().len(), 1);
    }
}

#[test]
fn draft_requires_a_review_comment_before_database_access() {
    let error = require_draft_comment(" \r\n ").unwrap_err();
    assert!(matches!(error, AppError::BadRequest(_)));
    assert_eq!(require_draft_comment(" a\r\nb "), Ok("a\nb".to_string()));
}
