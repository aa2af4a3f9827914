use vgindex::json::{Json, JsonObject};
use vgindex::models::{
    Disc, DiscDetail, DiscRingCodeLayer, DiscStatus, MediaType, RingEntryView, System,
};
use vgindex::services::cue_rebuild::{plan_cue_rebuild, CueRebuildDisc, FinishedCue};
use vgindex::services::disc_service::{
    build_edition_suggestion_map, can_view_disc_status, ensure_disc_status_visible,
    sort_ring_codes_json, EditionUsageCount, EDITION_USAGE_COUNTS_SQL,
};
use vgindex::services::disc_snapshot::build_snapshot_from_disc;
use vgindex::services::hex_dump::{
    parse_binary_hex_input, parse_pvd_hex_dump, to_crlf_newlines, to_lf_newlines,
};

fn convert(v: &serde_json::Value) -> Json {
    match v {
        serde_json::Value::Null => Json::Null,
        serde_json::Value::Bool(b) => Json::Bool(*b),
        serde_json::Value::Number(n) => Json::Number(n.clone()),
        serde_json::Value::String(s) => Json::text(s),
        serde_json::Value::Array(a) => Json::Array(a.iter().map(convert).collect()),
        serde_json::Value::Object(o) => {
            let mut out = JsonObject::new();
            for (k, x) in o {
                out.insert(k, convert(x));
            }
            Json::Object(out)
        }
    }
}

/// The value of a JSON text.
fn json(text: &str) -> Json {
    convert(&serde_json::from_str(text).unwrap())
}

fn usage(system_code: &str, edition: &str, edition_count: i64) -> EditionUsageCount {
    EditionUsageCount {
        system_code: system_code.to_string(),
        edition: edition.to_string(),
        edition_count,
    }
}

fn cue_rebuild_disc(media_type_code: &str, rom_extension: &str) -> CueRebuildDisc {
    CueRebuildDisc {
        id: 1,
        title: "Game".to_string(),
        disc_number: None,
        disc_title: None,
        filename_suffix: None,
        cue: String::new(),
        media_type_code: media_type_code.to_string(),
        rom_extension: rom_extension.to_string(),
        system_media_types: vec!["cd".to_string(), "gdrom".to_string()],
        region_names: Vec::new(),
        language_codes: Vec::new(),
        cue_file_size: Some(10),
        cue_file_crc32: Some("aaaaaaaa".to_string()),
        cue_file_md5: Some("bbbbbbbbbbbbbbbbbbbbbbbbbbbbbbbb".to_string()),
        cue_file_sha1: Some("cccccccccccccccccccccccccccccccccccccccc".to_string()),
    }
}

#[test]
fn disabled_disc_status_requires_visibility_permission() {
    assert!(can_view_disc_status(DiscStatus::Verified, false));
    assert!(can_view_disc_status(DiscStatus::Questionable, false));
    assert!(can_view_disc_status(DiscStatus::Unverified, false));
    assert!(!can_view_disc_status(DiscStatus::Disabled, false));
    assert!(can_view_disc_status(DiscStatus::Disabled, true));
    assert!(ensure_disc_status_visible(DiscStatus::Disabled, false).is_err());
    assert!(ensure_disc_status_visible(DiscStatus::Disabled, true).is_ok());
}

#[test]
fn binary_hex_parser_accepts_addressed_spaced_and_compact_hex() {
    let addressed =
        "0320 : 20 21 22 23 24 25 26 27  28 29 2A 2B 2C 2D 2E 2F    !\"#$%&'()*+,-./\n\
                     0330 : 30 31 32 33                                      0123";
    let spaced = "20 21 22 23 24 25 26 27  28 29 2A 2B 2C 2D 2E 2F\n30 31 32 33";
    let compact = "202122232425262728292A2B2C2D2E2F\n30313233";
    let expected: Vec<u8> = (0x20..=0x33).collect();

    assert_eq!(parse_binary_hex_input(addressed).unwrap(), expected);
    assert_eq!(parse_binary_hex_input(spaced).unwrap(), expected);
    assert_eq!(parse_binary_hex_input(compact).unwrap(), expected);
}

#[test]
fn binary_hex_parser_rejects_invalid_raw_and_mixed_inputs() {
    assert!(parse_binary_hex_input("ABC").is_err());
    assert!(parse_binary_hex_input("01 02 XX").is_err());
    assert!(parse_binary_hex_input("0000 : 01 02\n03 04").is_err());
}

#[test]
fn pvd_hex_parser_keeps_existing_stored_length_limit() {
    let bytes: Vec<u8> = (0u8..96).collect();
    let compact = bytes
        .iter()
        .map(|byte| format!("{byte:02X}"))
        .collect::<Vec<_>>()
        .join("");

    let parsed = parse_pvd_hex_dump(&compact).unwrap();

    assert_eq!(parsed.len(), 82);
    assert_eq!(parsed, bytes[..82]);
}

#[test]
fn newline_helpers_normalize_lf_and_crlf() {
    let mixed = "A\r\nB\rC\nD";
    assert_eq!(to_lf_newlines(mixed), "A\nB\nC\nD");
    assert_eq!(to_crlf_newlines(mixed), "A\r\nB\r\nC\r\nD");
}

#[test]
fn edition_suggestion_query_excludes_disabled_discs() {
    assert!(EDITION_USAGE_COUNTS_SQL.contains("d.status <> 'Disabled'"));
}

#[test]
fn edition_suggestions_trim_blank_and_sort_original_first_then_alphabetic() {
    let suggestions = build_edition_suggestion_map(&vec![
        usage("SYS", "Beta", 900),
        usage("SYS", "  Original  ", 1),
        usage("SYS", "alpha", 500),
        usage("SYS", "Rare", 4),
        usage("SYS", "   ", 100),
    ]);

    assert_eq!(
        suggestions[0].editions,
        vec![
            "Original".to_string(),
            "alpha".to_string(),
            "Beta".to_string(),
            "Rare".to_string()
        ]
    );
}

#[test]
fn edition_suggestions_keep_full_alphabetic_list_for_selector() {
    let usages: Vec<EditionUsageCount> = (0..25)
        .rev()
        .map(|idx| usage("SYS", &format!("Edition {idx:02}"), 25 - idx))
        .collect();

    let suggestions = build_edition_suggestion_map(&usages);

    assert_eq!(suggestions[0].editions.len(), 25);
    assert_eq!(suggestions[0].editions.first().unwrap(), "Edition 00");
    assert_eq!(suggestions[0].editions.last().unwrap(), "Edition 24");
}

#[test]
fn bulk_cue_rebuild_uses_same_active_cue_rule() {
    assert!(cue_rebuild_disc("cd", "bin").has_active_cue());
    assert!(cue_rebuild_disc("gdrom", "BIN").has_active_cue());
    assert!(!cue_rebuild_disc("dvd5", "iso").has_active_cue());
    assert!(!cue_rebuild_disc("other", "bin").has_active_cue());
}

#[test]
fn bulk_cue_rebuild_detects_matching_file_metadata() {
    let disc = cue_rebuild_disc("cd", "bin");

    assert!(disc.cue_file_matches(
        10,
        "aaaaaaaa",
        "bbbbbbbbbbbbbbbbbbbbbbbbbbbbbbbb",
        "cccccccccccccccccccccccccccccccccccccccc"
    ));
    assert!(!disc.cue_file_matches(
        11,
        "aaaaaaaa",
        "bbbbbbbbbbbbbbbbbbbbbbbbbbbbbbbb",
        "cccccccccccccccccccccccccccccccccccccccc"
    ));
}

#[test]
fn sort_ring_codes_json_uses_id_as_last_tiebreaker() {
    let entry = |id: i64| {
        json(&format!(
            r#"{{"id": {id}, "offset_value": "", "offset_extra_value": "", "sample_start": "",
                 "comment": "", "layers": [{{"mastering_code": "AAA", "mastering_sid": "ZZZ"}}]}}"#
        ))
    };
    let mut entries = vec![entry(9), entry(3)];

    sort_ring_codes_json(&mut entries, 1);
    assert_eq!(entries[0].field("id").as_i64(), Some(3));
    assert_eq!(entries[1].field("id").as_i64(), Some(9));
}

#[test]
fn build_snapshot_from_disc_includes_label_side_layer() {
    let media_type = MediaType {
        code: "dvd9".to_string(),
        name: "DVD-9".to_string(),
        layer_count: 2,
        pic: false,
        rom_extension: "iso".to_string(),
    };
    let detail = DiscDetail {
        disc: Disc {
            id: 1,
            system_code: "SYS".to_string(),
            media_type,
            title: "Game".to_string(),
            title_foreign: None,
            disc_title: None,
            disc_number: None,
            serial: vec![],
            category: "Games".to_string(),
            version: None,
            edition: vec![],
            barcode: vec![],
            comments: None,
            contents: None,
            filename_suffix: None,
            error_count: None,
            exe_date: None,
            edc: false,
            layerbreaks: None,
            protection: None,
            sbi: None,
            disc_id: None,
            disc_key: None,
            universal_hash: Some((0u8..20).collect()),
            cue: None,
            pvd: None,
            pic: None,
            header: None,
            bca: None,
            status: DiscStatus::Verified,
        },
        system: System {
            code: "SYS".to_string(),
            system_type: "Console".to_string(),
            manufacturer: "Maker".to_string(),
            name: "System".to_string(),
            short_name: "SYS".to_string(),
            media_types: vec!["dvd9".to_string()],
            has_exe_date: false,
            has_sbi: false,
            has_pvd: false,
            has_edc: false,
            has_disc_id: false,
            has_key: false,
            has_universal_hash: false,
            has_title_foreign: false,
            has_disc_title: false,
            has_disc_number: false,
            has_serial: false,
            has_barcode: false,
            has_version: false,
            has_edition: false,
            has_protection: false,
            has_sector_ranges: false,
            has_header: false,
            has_bca: false,
            has_sample_start: false,
            has_offset_extra: false,
        },
        regions: vec![],
        languages: vec![],
        ring_entries: vec![RingEntryView {
            id: 1,
            offset_value: None,
            offset_extra_value: None,
            sample_data_start: None,
            comment: None,
            layers: vec![
                DiscRingCodeLayer {
                    id: 1,
                    entry_id: 1,
                    layer: 0,
                    mastering_code: Some("L0-MC".to_string()),
                    mastering_sid: None,
                    mould_sids: String::new(),
                    toolstamps: String::new(),
                    additional_moulds: String::new(),
                },
                DiscRingCodeLayer {
                    id: 2,
                    entry_id: 1,
                    layer: 2,
                    mastering_code: Some("LS-MC".to_string()),
                    mastering_sid: None,
                    mould_sids: String::new(),
                    toolstamps: String::new(),
                    additional_moulds: String::new(),
                },
            ],
        }],
        files: vec![],
        dumpers: vec![],
        disc_submission_count: 0,
        sector_ranges: vec![],
        added_at: None,
        modified_at: None,
    };

    let snapshot = build_snapshot_from_disc(&detail);
    let layers = snapshot.field("ring_codes").as_array().unwrap()[0].field("layers").as_array().unwrap();

    assert_eq!(layers.len(), 3);
    assert_eq!(layers[0].field("mastering_code").as_str(), Some("L0-MC"));
    assert_eq!(layers[1].field("mastering_code").as_str(), Some(""));
    assert_eq!(layers[2].field("mastering_code").as_str(), Some("LS-MC"));
    assert_eq!(
        snapshot.field("universal_hash").as_str(),
        Some("000102030405060708090a0b0c0d0e0f10111213")
    );
}

#[test]
fn cue_hashes_use_crlf_bytes() {
    let lf = "FILE \"Track 1.bin\" BINARY\n  TRACK 01 AUDIO";
    let crlf = to_crlf_newlines(lf);
    let lf_size = lf.as_bytes().len();
    let crlf_size = crlf.as_bytes().len();

    assert!(crlf.contains("\r\n"));
    assert_eq!(lf_size + 1, crlf_size);
}

#[test]
fn bulk_cue_rebuild_writes_only_what_changed() {
    let finished = || FinishedCue {
        text: String::new(),
        size: 10,
        crc32: "aaaaaaaa".to_string(),
        md5: "bbbbbbbbbbbbbbbbbbbbbbbbbbbbbbbb".to_string(),
        sha1: "cccccccccccccccccccccccccccccccccccccccc".to_string(),
    };
    let plan = plan_cue_rebuild(
        &vec![cue_rebuild_disc("cd", "bin"), cue_rebuild_disc("dvd5", "iso")],
        &vec![finished(), finished()],
    );
    assert_eq!(plan.active, 1);
    assert!(plan.cue_updates.is_empty());
    assert!(plan.file_upserts.is_empty());
    assert_eq!(plan.cue_file_deletes, vec![1]);
}
