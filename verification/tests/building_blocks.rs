use vgindex::error::AppError;
use vgindex::hex_case::canonicalize_disc_snapshot_hex_fields;
use vgindex::json::{json_eq, Json, JsonObject};
use vgindex::models::{
    eq_ignore_case, extract_track_from_filename, is_cd_rom_extension, is_listed, Disc, DiscDetail,
    DiscRingCodeLayer, DiscStatus, DiscSubmission, File, MediaType, ProtectionRange,
    RingEntryView, SubmissionStatus, SubmissionType, System, UserRole,
};
use vgindex::naming::{build_simple_track_name, finalize_cue, simplify_cue};
use vgindex::numbers::{read_i32, read_i64, read_u64, write_i64, write_two_digits, write_u64};
use vgindex::order::{arrange, sort_positions, str_less, SortKey};
use vgindex::routes::queue::{
    build_system_name, form_status_is_active, plan_queue, proposed_is_active, queue_filter,
    DiscEditForm, QueueQuery,
};
use vgindex::routes::review_values::{
    is_empty_review_value, review_values_equal, sector_ranges_display, template_field_name,
};
use vgindex::services::approval::{
    begin_approval, normalize_comment, ApprovalConflict, ApprovalOutcome, ApprovalStart,
    ApprovalWrite,
};
use vgindex::services::approval_run::{
    advance, next_action, ApprovalAction, ApprovalEvent, ApprovalState,
};
use vgindex::services::changes::{apply_scalar_operation, apply_set_operation};
use vgindex::services::cue_rebuild::{plan_cue_entry, summarize_rebuild, CueRebuildPlan};
use vgindex::services::cue_sessions::{cuesheet_has_only_audio_tracks, cuesheet_is_enhanced_cd};
use vgindex::services::disc_match::{nonempty_input, track_number_value};
use vgindex::services::disc_service::{
    modification_date_sql, normalize_comma_separated, parse_comma_separated,
    sort_ring_entry_views, RECENT_CHANGE_PREDICATE,
};
use vgindex::services::disc_snapshot::build_snapshot_from_disc;
use vgindex::services::disc_update::{read_disc_update, SectorRangeUpdate};
use vgindex::services::dump_text::{format_hex_dump_snapshot, format_pvd_hex_snapshot, write_hex};
use vgindex::services::hex_dump::{
    parse_addressed_hex_dump, parse_hex_text_bytes, parse_raw_hex_input,
    parse_universal_hash_bytes,
};
use vgindex::services::resolution::{automatic_disc_status_change, resolve_approval};
use vgindex::services::ring_history::{
    apply_ring_codes_history, merge_csv_values, normalize_csv_ids, ring_numeric_values_match, rings_are_settable,
};
use vgindex::services::snapshot_hash::{canonical_json, disc_snapshot_hash};
use vgindex::services::validation::{
    dat_extract_attr, dat_extract_track_number, validate_sbi_line,
};
use vgindex::text::{
    chars_byte_len_is, chars_find, chars_lines, chars_of, chars_split, chars_trim, chars_words,
    join_strings, str_trim, str_unix_newlines, string_of,
};
use vgindex::transliteration::spacing::collapse_spaces;
use vgindex::transliteration::width::narrow_char;

fn object(fields: Vec<(&str, Json)>) -> Json {
    let mut out = JsonObject::new();
    for (k, v) in fields {
        out.insert(k, v);
    }
    Json::Object(out)
}

fn texts(v: &[&str]) -> Vec<String> {
    v.iter().map(|s| s.to_string()).collect()
}

fn media(code: &str, rom_extension: &str) -> MediaType {
    MediaType {
        code: code.to_string(),
        name: code.to_string(),
        layer_count: 1,
        pic: false,
        rom_extension: rom_extension.to_string(),
    }
}

fn system(media_types: &[&str]) -> System {
    System {
        code: "PSX".to_string(),
        system_type: "Console".to_string(),
        manufacturer: "Sony".to_string(),
        name: "PlayStation".to_string(),
        short_name: "PS1".to_string(),
        media_types: texts(media_types),
        has_exe_date: true,
        has_sbi: true,
        has_pvd: true,
        has_edc: true,
        has_disc_id: true,
        has_key: true,
        has_universal_hash: true,
        has_title_foreign: true,
        has_disc_title: true,
        has_disc_number: true,
        has_serial: true,
        has_barcode: true,
        has_version: true,
        has_edition: true,
        has_protection: true,
        has_sector_ranges: true,
        has_header: true,
        has_bca: true,
        has_sample_start: true,
        has_offset_extra: true,
    }
}

fn disc(cue: Option<&str>) -> Disc {
    Disc {
        id: 3,
        system_code: "PSX".to_string(),
        media_type: media("CD", "bin"),
        title: "Game".to_string(),
        title_foreign: None,
        disc_title: None,
        disc_number: None,
        serial: Vec::new(),
        category: "Games".to_string(),
        version: None,
        edition: Vec::new(),
        barcode: Vec::new(),
        comments: None,
        contents: None,
        filename_suffix: None,
        error_count: None,
        exe_date: None,
        edc: false,
        layerbreaks: None,
        protection: None,
        sbi: None,
        disc_id: None,
        disc_key: None,
        universal_hash: None,
        cue: cue.map(|c| c.to_string()),
        pvd: None,
        pic: None,
        header: None,
        bca: None,
        status: DiscStatus::Verified,
    }
}

fn submission(target_disc_id: Option<i32>) -> DiscSubmission {
    DiscSubmission {
        id: 1,
        submission_type: SubmissionType::Disc,
        submitter_id: 7,
        submission_comment: None,
        target_disc_id,
        changes: Json::object(),
        dump_log: None,
        extra_upload_url: None,
        submission_token: None,
        submission_fingerprint: None,
        status: SubmissionStatus::Pending,
        reviewer_id: None,
        review_comment: None,
        created_at: 0,
        reviewed_at: None,
    }
}

#[test]
fn numbers_are_read_and_written() {
    assert_eq!(read_i64(&chars_of("-12")), Some(-12));
    assert_eq!(read_i64(&chars_of("+12")), Some(12));
    assert_eq!(read_i64(&chars_of("9223372036854775807")), Some(i64::MAX));
    assert_eq!(read_i64(&chars_of("9223372036854775808")), None);
    assert_eq!(read_i64(&chars_of("-9223372036854775808")), Some(i64::MIN));
    assert_eq!(read_i64(&chars_of("")), None);
    assert_eq!(read_i64(&chars_of(" 1")), None);
    assert_eq!(read_i32(&chars_of("2147483648")), None);
    assert_eq!(read_u64(&chars_of("18446744073709551615")), Some(u64::MAX));
    assert_eq!(read_u64(&chars_of("-1")), None);
    assert_eq!(write_i64(i64::MIN), "-9223372036854775808");
    assert_eq!(write_u64(0), "0");
    assert_eq!(write_two_digits(7), "07");
    assert_eq!(write_two_digits(123), "123");
}

#[test]
fn texts_are_cut_and_joined() {
    assert_eq!(str_trim("\u{3000} a b \n"), "a b");
    assert_eq!(string_of(chars_trim(&chars_of("  x "))), "x");
    let parts: Vec<String> =
        chars_split(&chars_of("a,,b"), ',').iter().map(|p| string_of(p)).collect();
    assert_eq!(parts, texts(&["a", "", "b"]));
    let lines: Vec<String> =
        chars_lines(&chars_of("a\r\nb\n\nc\n")).iter().map(|p| string_of(p)).collect();
    assert_eq!(lines, texts(&["a", "b", "", "c"]));
    let words: Vec<String> =
        chars_words(&chars_of("  a\tb ")).iter().map(|p| string_of(p)).collect();
    assert_eq!(words, texts(&["a", "b"]));
    assert_eq!(join_strings(&texts(&["a", "b"]), ", "), "a, b");
    assert_eq!(chars_find(&chars_of("abcabc"), "ca"), Some(2));
    assert_eq!(chars_find(&chars_of("abc"), "d"), None);
    assert_eq!(str_unix_newlines("a\r\nb\rc\n"), "a\nb\nc\n");
    assert!(chars_byte_len_is(&chars_of("aé日"), 6));
    assert_eq!(string_of(&collapse_spaces(&chars_of("a   b  "))), "a b ");
    assert_eq!(narrow_char('Ａ'), 'A');
}

#[test]
fn orders_are_stable() {
    assert!(str_less("a", "b") && str_less("a", "aa") && !str_less("b", "a"));
    let keys = vec![
        SortKey { rank: 1, texts: texts(&["b"]), last: 0 },
        SortKey { rank: 0, texts: texts(&["z"]), last: 0 },
        SortKey { rank: 1, texts: texts(&["b"]), last: 0 },
        SortKey { rank: 1, texts: texts(&["a"]), last: 0 },
    ];
    let order = sort_positions(&keys);
    assert_eq!(order, [1, 3, 0, 2]);
    assert_eq!(arrange(vec!['p', 'q', 'r', 's'], &order), ['q', 's', 'p', 'r']);
}

#[test]
fn models_know_their_names() {
    assert!(eq_ignore_case("CD", "cd") && !eq_ignore_case("CD", "CDs"));
    assert!(is_cd_rom_extension("BIN") && !is_cd_rom_extension("iso"));
    assert!(is_listed(&texts(&["CD", "DVD"]), "dvd"));
    assert!(system(&["cd"]).has_cue_for_media_type(&media("CD", "bin")));
    assert!(!system(&["dvd"]).has_cue_for_media_type(&media("CD", "bin")));
    assert!(!system(&["dvd"]).has_cue_for_media_type(&media("DVD", "iso")));
    assert_eq!(system(&[]).system_name(), "Sony PlayStation");
    assert_eq!(build_system_name("", "PlayStation"), "PlayStation");
    assert!(UserRole::Moderator.can_moderate() && !UserRole::User.can_moderate());
    assert_eq!(extract_track_from_filename("Game (Track 02).bin").as_deref(), Some("2"));
    assert_eq!(
        dat_extract_track_number("Game (Track 02).bin"),
        extract_track_from_filename("Game (Track 02).bin")
    );
    assert_eq!(dat_extract_attr("<rom name=\"a\" size=\"1\"/>", "size").as_deref(), Some("1"));
    assert_eq!(dat_extract_attr("<rom name=\"a\"/>", "size"), None);
}

#[test]
fn cuesheets_are_renamed() {
    let cue = "FILE \"x.bin\" BINARY\n  TRACK 01 MODE2/2352\nFILE \"y.bin\" BINARY\n  TRACK 02 AUDIO";
    assert_eq!(
        simplify_cue(cue, "bin"),
        "FILE \"Track 1.bin\" BINARY\n  TRACK 01 MODE2/2352\nFILE \"Track 2.bin\" BINARY\n  TRACK 02 AUDIO"
    );
    assert_eq!(
        finalize_cue(cue, "Game (Japan)", "bin"),
        "FILE \"Game (Japan) (Track 1).bin\" BINARY\n  TRACK 01 MODE2/2352\nFILE \"Game (Japan) (Track 2).bin\" BINARY\n  TRACK 02 AUDIO"
    );
    assert_eq!(build_simple_track_name("3", 12, "bin"), "Track 03.bin");
    let regions = texts(&["Japan"]);
    assert_eq!(
        plan_cue_entry(&disc(Some("FILE \"x.bin\" BINARY\n")), &system(&["CD"]), &regions, &vec![]),
        Some("FILE \"Game (Japan).bin\" BINARY".to_string())
    );
    assert_eq!(plan_cue_entry(&disc(None), &system(&["CD"]), &regions, &vec![]), None);
    assert_eq!(plan_cue_entry(&disc(Some("")), &system(&["CD"]), &regions, &vec![]), None);
    assert_eq!(
        plan_cue_entry(&disc(Some("FILE \"x\" BINARY")), &system(&["DVD"]), &regions, &vec![]),
        None
    );
    let plan = CueRebuildPlan {
        cue_updates: Vec::new(),
        file_upserts: Vec::new(),
        cue_file_deletes: Vec::new(),
        active: 4,
        skipped: 3,
    };
    let summary = summarize_rebuild(6, &plan, 1, 2, 5);
    assert_eq!((summary.total, summary.active, summary.skipped), (6, 4, 3));
    assert_eq!(
        (summary.updated_cues, summary.upserted_file_entries, summary.deleted_file_entries),
        (1, 2, 5)
    );
}

#[test]
fn sessions_of_a_cuesheet_are_told_apart() {
    let audio = "FILE \"a\" BINARY\n  TRACK 01 AUDIO\n  TRACK 02 AUDIO\n";
    let enhanced = "REM SESSION 01\n  TRACK 01 AUDIO\nREM SESSION 02\n  TRACK 02 MODE2/2352\n";
    assert!(cuesheet_has_only_audio_tracks(audio) && !cuesheet_is_enhanced_cd(audio));
    assert!(cuesheet_is_enhanced_cd(enhanced) && !cuesheet_has_only_audio_tracks(enhanced));
    assert!(!cuesheet_has_only_audio_tracks("") && !cuesheet_is_enhanced_cd(""));
}

#[test]
fn dumps_are_written_and_read_back() {
    let data: Vec<u8> = (0x30..0x42).collect();
    let dump = format_hex_dump_snapshot(&data, 0x320);
    assert_eq!(
        dump,
        "0320 : 30 31 32 33 34 35 36 37  38 39 3A 3B 3C 3D 3E 3F   0123456789:;<=>?\n\
         0330 : 40 41                                             @A"
    );
    assert_eq!(parse_addressed_hex_dump(&dump), Ok(data.clone()));
    assert_eq!(parse_raw_hex_input("30 31\n32"), Ok(vec![0x30, 0x31, 0x32]));
    assert!(parse_raw_hex_input("3").is_err());
    assert_eq!(write_hex(&[0x0a, 0xff]), "0aff");
    assert!(format_pvd_hex_snapshot(&[0x30]).starts_with("0320 : 30"));
    assert_eq!(parse_hex_text_bytes(Some(" 0Aff ")).ok(), Some(Some(vec![0x0a, 0xff])));
    assert_eq!(parse_hex_text_bytes(Some(" ")).ok(), Some(None));
    assert!(matches!(parse_hex_text_bytes(Some("0")), Err(AppError::BadRequest(_))));
    assert!(matches!(parse_universal_hash_bytes(Some("00")), Err(AppError::BadRequest(_))));
    let hash = "00".repeat(20);
    assert_eq!(parse_universal_hash_bytes(Some(&hash)).ok(), Some(Some(vec![0; 20])));
}

#[test]
fn changes_give_new_values() {
    let named = |value: Json| object(vec![("modify", object(vec![("old", Json::Null), ("new", value)]))]);
    let new_title = apply_scalar_operation("title", &named(Json::text("New")));
    assert!(json_eq(&new_title.unwrap(), &Json::text("New")));
    let removed = object(vec![("remove", object(vec![("old", Json::text("x"))]))]);
    assert!(matches!(apply_scalar_operation("title", &removed), Err(AppError::BadRequest(_))));
    assert!(apply_scalar_operation("comments", &removed).unwrap().is_null());
    let set = object(vec![
        ("add", Json::Array(vec![Json::text("c")])),
        ("remove", Json::Array(vec![Json::text("a")])),
    ]);
    let out = apply_set_operation(&texts(&["a", "b"]), &set).unwrap();
    assert!(json_eq(&out, &Json::Array(vec![Json::text("b"), Json::text("c")])));
}

#[test]
fn lists_of_stamps_are_kept_in_order() {
    assert_eq!(parse_comma_separated(" b, a ,,B"), texts(&["a", "b"]));
    assert_eq!(normalize_comma_separated(" b, a ,"), "a, b");
    assert_eq!(normalize_csv_ids("b, a, b"), "a, b");
    assert_eq!(merge_csv_values("c, a", "b, a"), "a, b, c");
    assert_eq!(merge_csv_values("a, b, c", "b, a"), "a, b, c");
    assert_eq!(merge_csv_values("A", "a"), "A, a");
    for (a, b) in [("c, a", "b, a"), ("", "x"), ("A,,b", " b , a")] {
        assert_eq!(merge_csv_values(a, b), merge_csv_values(b, a));
        assert_eq!(merge_csv_values(a, b), normalize_csv_ids(&format!("{a},{b}")));
    }
    assert!(ring_numeric_values_match("", "12", false));
    assert!(!ring_numeric_values_match("", "12", true));
    assert_eq!(nonempty_input(Some("  ")), None);
    assert_eq!(track_number_value(Some("07")), Some(7));
    assert_eq!(
        modification_date_sql(),
        format!(
            "(SELECT MAX(ds.created_at) FROM disc_submissions ds WHERE ds.target_disc_id = d.id AND {RECENT_CHANGE_PREDICATE})"
        )
    );
}

#[test]
fn pressings_are_shown_in_order() {
    let pressing = |id: i32, code: &str| RingEntryView {
        id,
        offset_value: None,
        offset_extra_value: None,
        sample_data_start: None,
        comment: None,
        layers: vec![DiscRingCodeLayer {
            id,
            entry_id: id,
            layer: 0,
            mastering_code: Some(code.to_string()),
            mastering_sid: None,
            mould_sids: String::new(),
            toolstamps: String::new(),
            additional_moulds: String::new(),
        }],
    };
    let mut entries = vec![pressing(1, "b"), pressing(2, "A"), pressing(3, "b")];
    sort_ring_entry_views(&mut entries, 1);
    assert_eq!(entries.iter().map(|e| e.id).collect::<Vec<i32>>(), [2, 1, 3]);
    let settable = Json::Array(vec![object(vec![("layers", Json::Array(vec![Json::object()]))])]);
    assert!(rings_are_settable(&settable) && rings_are_settable(&Json::Null));
    assert!(!rings_are_settable(&Json::Array(vec![Json::text("x")])));
}

#[test]
fn changes_of_pressings_leave_the_others() {
    let ring = |id: i64, comment: &str| {
        object(vec![("id", Json::number(id)), ("comment", Json::text(comment))])
    };
    let stored = Json::Array(vec![ring(1, "a"), ring(2, "b")]);
    let removal = |id: i64| object(vec![("id", Json::number(id)), ("remove", Json::Bool(true))]);
    let left = apply_ring_codes_history(&stored, &Json::Array(vec![removal(2)])).unwrap();
    assert!(json_eq(&left, &Json::Array(vec![ring(1, "a")])));
    let unknown = apply_ring_codes_history(&stored, &Json::Array(vec![removal(3)]));
    assert!(matches!(unknown, Err(AppError::BadRequest(m)) if m == "ring_codes id 3 not found"));
    let edit = object(vec![
        ("id", Json::number(1)),
        ("comment", object(vec![("modify", object(vec![("old", Json::text("a")), ("new", Json::text("c"))]))])),
    ]);
    let edited = apply_ring_codes_history(&stored, &Json::Array(vec![edit])).unwrap();
    assert!(edited.as_array().unwrap().iter().any(|r| json_eq(r, &ring(2, "b"))));
    assert!(edited.as_array().unwrap().iter().any(|r| r.field("comment").as_str() == Some("c")));
    let odd_layer = Json::Array(vec![object(vec![
        ("id", Json::number(1)),
        ("layers", Json::Array(vec![Json::text("no layer"), Json::object()])),
    ])]);
    let second = object(vec![
        ("id", Json::number(1)),
        ("layers", Json::Array(vec![object(vec![
            ("index", Json::number(1)),
            ("mastering_sid", object(vec![("add", object(vec![("new", Json::text("S"))]))])),
        ])])),
    ]);
    let set = apply_ring_codes_history(&odd_layer, &Json::Array(vec![second])).unwrap();
    let layers = set.as_array().unwrap()[0].field("layers").as_array().unwrap();
    assert_eq!(layers[0].as_str(), Some("no layer"));
    assert_eq!(layers[1].field("mastering_sid").as_str(), Some("S"));
    let odd = Json::Array(vec![ring(1, "a"), Json::text("no record")]);
    let left = apply_ring_codes_history(&odd, &Json::Array(vec![removal(1)])).unwrap();
    assert!(json_eq(&left, &Json::Array(vec![Json::text("no record")])));
}

#[test]
fn snapshots_write_the_disc_again() {
    let mut stored = disc(None);
    stored.title_foreign = Some("ゲーム".to_string());
    stored.version = Some(String::new());
    stored.serial = texts(&[" S-1 ", ""]);
    stored.comments = Some("a\r\nb".to_string());
    stored.error_count = Some(-1);
    stored.edc = true;
    stored.layerbreaks = Some(vec![5, 9]);
    stored.pvd = Some((0..82).collect());
    stored.pic = Some((0..40).collect());
    stored.disc_key = Some(vec![0xab, 0x01]);
    stored.universal_hash = Some(vec![7; 20]);
    stored.status = DiscStatus::Questionable;
    let file = |track: Option<&str>, sha1: &str| File {
        id: 1,
        disc_id: 3,
        track_number: track.map(|t| t.to_string()),
        size: 2352,
        crc32: "00ff00ff".to_string(),
        md5: "aa".to_string(),
        sha1: sha1.to_string(),
    };
    let layer = DiscRingCodeLayer {
        id: 1,
        entry_id: 8,
        layer: 1,
        mastering_code: Some("CODE".to_string()),
        mastering_sid: None,
        mould_sids: "b, a, B".to_string(),
        toolstamps: String::new(),
        additional_moulds: String::new(),
    };
    let detail = DiscDetail {
        disc: stored,
        system: system(&["CD"]),
        regions: Vec::new(),
        languages: Vec::new(),
        ring_entries: vec![RingEntryView {
            id: 8,
            offset_value: Some(-12),
            offset_extra_value: None,
            sample_data_start: Some(0),
            comment: Some("x".to_string()),
            layers: vec![layer],
        }],
        files: vec![file(Some("1"), "a1"), file(None, "c0"), file(Some("12"), "b2")],
        dumpers: vec![],
        disc_submission_count: 0,
        sector_ranges: vec![ProtectionRange { range_start: 3, range_end: 9 }],
        added_at: None,
        modified_at: None,
    };
    let update = read_disc_update(&build_snapshot_from_disc(&detail)).unwrap();
    let disc = &detail.disc;
    assert_eq!(update.title, disc.title);
    assert_eq!(update.title_foreign, disc.title_foreign);
    assert_eq!(update.version, None);
    assert_eq!(update.serial, ["S-1"]);
    assert_eq!(update.comments.as_deref(), Some("a\nb"));
    assert_eq!((update.error_count, update.edc), (Some(-1), true));
    assert_eq!(update.layerbreaks, disc.layerbreaks);
    assert_eq!(update.pvd, disc.pvd);
    assert_eq!(update.pic, disc.pic);
    assert_eq!(update.disc_key, disc.disc_key);
    assert_eq!(update.universal_hash, disc.universal_hash);
    assert_eq!(update.status, DiscStatus::Questionable);
    assert!(
        matches!(&update.sector_ranges, SectorRangeUpdate::Replace(r) if r == "{\"[3,9)\"}")
    );
    let rings = update.ring_codes.unwrap();
    assert_eq!(rings.len(), 1);
    assert_eq!((rings[0].id, rings[0].offset_value), (Some(8), Some(-12)));
    assert_eq!((rings[0].offset_extra_value, rings[0].sample_start), (None, Some(0)));
    assert_eq!((rings[0].layers.len(), rings[0].layers[0].layer), (1, 1));
    assert_eq!(rings[0].layers[0].mould_sids, "a, b");
    let files = update.files.unwrap();
    let read: Vec<(Option<&str>, i64, &str)> =
        files.iter().map(|f| (f.track_number.as_deref(), f.size, f.sha1.as_str())).collect();
    assert_eq!(read, [(Some("1"), 2352, "a1"), (Some("12"), 2352, "b2")]);
}

#[test]
fn hashes_ignore_the_order_of_fields() {
    let a = object(vec![("a", Json::number(1)), ("b", Json::text("x"))]);
    let b = object(vec![("b", Json::text("x")), ("a", Json::number(1))]);
    assert_eq!(disc_snapshot_hash(&a), disc_snapshot_hash(&b));
    assert!(json_eq(&canonical_json(&a), &canonical_json(&b)));
    let other = object(vec![("a", Json::number(2)), ("b", Json::text("x"))]);
    assert_ne!(disc_snapshot_hash(&a), disc_snapshot_hash(&other));
    let hashed = object(vec![("universal_hash", Json::text("ABCDEF"))]);
    let canonical = canonicalize_disc_snapshot_hex_fields(&hashed);
    assert_eq!(canonical.field("universal_hash").as_str(), Some("abcdef"));
}

#[test]
fn review_values_are_compared_as_shown() {
    assert_eq!(template_field_name("dat"), "files_xml");
    assert_eq!(template_field_name("title"), "title");
    assert!(is_empty_review_value(&Json::Null) && is_empty_review_value(&Json::text("")));
    assert!(!is_empty_review_value(&Json::text("x")));
    assert!(review_values_equal(&Json::text(" a\r\nb"), &Json::text("a\nb")));
    assert!(!review_values_equal(&Json::text("a"), &Json::text("b")));
    let ranges = Json::Array(vec![
        object(vec![("start", Json::number(1)), ("end", Json::number(5))]),
        object(vec![("start", Json::number(9)), ("end", Json::number(10))]),
    ]);
    assert_eq!(sector_ranges_display(&ranges), "1-5\n9-10");
}

#[test]
fn approvals_begin_with_the_current_state() {
    let sub = submission(None);
    let changes = object(vec![(
        "title",
        object(vec![("add", object(vec![("new", Json::text("Game"))]))]),
    )]);
    let pending = Some((SubmissionStatus::Pending, None));
    let start = begin_approval(&sub, &changes, pending, None, None).unwrap();
    assert!(
        matches!(&start, ApprovalStart::Resolved(r) if r.effective_data.field("title").as_str() == Some("Game"))
    );
    for state in [
        None,
        Some((SubmissionStatus::Approved, None)),
        Some((SubmissionStatus::Pending, Some(4))),
    ] {
        let start = begin_approval(&sub, &changes, state, None, None).unwrap();
        assert!(matches!(start, ApprovalStart::Stop(ApprovalOutcome::AlreadyProcessed)));
    }
    let stored = object(vec![("title", Json::text("Old"))]);
    let start = begin_approval(
        &submission(Some(4)),
        &changes,
        Some((SubmissionStatus::Pending, Some(4))),
        Some((stored, DiscStatus::Unverified)),
        Some("not the hash"),
    );
    assert!(matches!(start, Ok(ApprovalStart::Stop(ApprovalOutcome::StaleDiscState))));
    assert_eq!(normalize_comment(Some("  a\r\nb ")).as_deref(), Some("a\nb"));
    assert_eq!(normalize_comment(Some("  ")), None);
}

fn run(sub: &DiscSubmission, events: Vec<ApprovalEvent>) -> ApprovalState {
    let mut state = ApprovalState::Begun;
    for event in events {
        state = advance(sub, &Json::object(), None, state, event);
    }
    state
}

#[test]
fn approvals_go_from_check_to_check() {
    let sub = submission(Some(4));
    let pending = || ApprovalEvent::Submission(Some((SubmissionStatus::Pending, Some(4))));
    let target = || {
        let stored = object(vec![("status", Json::text("Unverified"))]);
        ApprovalEvent::Target(Some((stored, DiscStatus::Unverified)))
    };
    let system = |code: &str| ApprovalEvent::System(Some(code.to_string()));
    assert_eq!(next_action(&sub, &ApprovalState::Begun), ApprovalAction::ReadSubmission);
    let state = run(&sub, vec![pending()]);
    assert_eq!(next_action(&sub, &state), ApprovalAction::ReadTarget(Some(4)));
    let state = run(&sub, vec![pending(), target()]);
    assert_eq!(next_action(&sub, &state), ApprovalAction::SearchConflicts);
    let state = run(&sub, vec![pending(), target(), ApprovalEvent::Conflicts(vec![])]);
    assert_eq!(next_action(&sub, &state), ApprovalAction::ReadSystem(Some(4)));
    let claimed = || {
        vec![
            pending(),
            target(),
            ApprovalEvent::Conflicts(vec![]),
            system("PSX"),
            ApprovalEvent::Claim(1),
        ]
    };
    let state = run(&sub, claimed());
    assert_eq!(
        next_action(&sub, &state),
        ApprovalAction::Write(ApprovalWrite::Update { disc_id: 4, add_dumper: true })
    );
    let mut events = claimed();
    events.push(ApprovalEvent::Written(4));
    events.push(system("SS"));
    let state = run(&sub, events);
    assert!(matches!(&state, ApprovalState::Dirty(4, v) if *v == ["PSX", "SS"]));
    let mut events = claimed();
    events.push(ApprovalEvent::Written(4));
    events.push(system("PSX"));
    events.push(ApprovalEvent::Marked);
    let state = run(&sub, events);
    assert!(matches!(&state, ApprovalState::Done(ApprovalOutcome::Approved(4))));
    assert_eq!(next_action(&sub, &state), ApprovalAction::Commit);
}

#[test]
fn approvals_end_at_a_failed_check() {
    let sub = submission(Some(4));
    let pending = || ApprovalEvent::Submission(Some((SubmissionStatus::Pending, Some(4))));
    let target = || ApprovalEvent::Target(Some((Json::object(), DiscStatus::Unverified)));
    let conflict = ApprovalConflict {
        text: "taken".to_string(),
        disc_id: 9,
        disc_title: "Game".to_string(),
    };
    for events in [
        vec![ApprovalEvent::Submission(None)],
        vec![pending(), target(), ApprovalEvent::Conflicts(vec![conflict])],
        vec![
            pending(),
            target(),
            ApprovalEvent::Conflicts(vec![]),
            ApprovalEvent::System(None),
            ApprovalEvent::Claim(0),
            ApprovalEvent::Written(4),
        ],
    ] {
        let state = run(&sub, events);
        assert!(matches!(state, ApprovalState::Done(_)));
        assert_eq!(next_action(&sub, &state), ApprovalAction::RollBack);
    }
    let state = run(&sub, vec![target()]);
    assert_eq!(next_action(&sub, &state), ApprovalAction::ReadSubmission);
}

#[test]
fn approved_discs_get_a_status() {
    let new_disc = resolve_approval(SubmissionType::Disc, None, &Json::object()).unwrap();
    assert_eq!(new_disc.effective_data.field("status").as_str(), Some("Unverified"));
    let verified = resolve_approval(
        SubmissionType::Disc,
        Some((object(vec![("status", Json::text("Unverified"))]), DiscStatus::Unverified)),
        &Json::object(),
    )
    .unwrap();
    assert_eq!(verified.effective_data.field("status").as_str(), Some("Verified"));
    assert!(automatic_disc_status_change(Some(DiscStatus::Verified)).is_none());
}

#[test]
fn queues_are_filtered_as_planned() {
    let query = QueueQuery {
        status: Some("All Statuses".to_string()),
        sub_type: None,
        system: Some("PSX".to_string()),
        submitter: None,
        disc_id: None,
        sort: None,
        order: None,
        page: Some(-3),
    };
    let plan = plan_queue(&query, true).unwrap();
    assert_eq!(plan.page, 1);
    let filter = queue_filter(&plan, false, 7, true);
    assert_eq!((filter.status, filter.system.as_deref()), (None, Some("PSX")));
    assert!(filter.hide_disabled_targets && !filter.public_statuses_only);
    assert!(matches!(plan_queue(&query, false), Err(AppError::Unauthorized)));
}

#[test]
fn proposed_discs_are_active_or_not() {
    let form = |status: Option<&str>| DiscEditForm {
        system_code: String::new(),
        media_type: String::new(),
        status: status.map(|s| s.to_string()),
        comments: None,
    };
    assert!(!form_status_is_active(&form(Some("Disabled"))));
    assert!(form_status_is_active(&form(Some("Verified"))));
    let mut edit = submission(Some(4));
    edit.submission_type = SubmissionType::Edit;
    assert!(!proposed_is_active(&edit, &form(Some("Disabled"))));
    assert!(proposed_is_active(&submission(Some(4)), &form(Some("Disabled"))));
}

#[test]
fn subchannel_lines_are_checked() {
    assert!(validate_sbi_line("nonsense").is_err());
}
