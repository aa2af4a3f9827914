use vgindex::services::ring_offsets::{check_ring_offsets, validate_ring_code_offsets};
use vgindex::services::validation::{
    parse_sector_range_pairs, validate_cuesheet, validate_dat, validate_hex_dump,
    validate_non_negative_int, validate_sbi, validate_sector_ranges, validate_signed_int,
};
use vgindex::json::{Json, JsonObject};

#[test]
fn test_non_negative_int() {
    assert!(validate_non_negative_int("0").is_ok());
    assert!(validate_non_negative_int("42").is_ok());
    assert!(validate_non_negative_int("999999").is_ok());
    assert!(validate_non_negative_int("-1").is_err());
    assert!(validate_non_negative_int("abc").is_err());
    assert!(validate_non_negative_int("").is_err());
    assert!(validate_non_negative_int("  5  ").is_ok());
}

#[test]
fn test_signed_int() {
    assert!(validate_signed_int("0").is_ok());
    assert!(validate_signed_int("-100").is_ok());
    assert!(validate_signed_int("100").is_ok());
    assert!(validate_signed_int("abc").is_err());
    assert!(validate_signed_int("").is_err());
}

#[test]
fn test_sector_ranges_valid() {
    assert!(validate_sector_ranges("").is_ok());
    assert!(validate_sector_ranges("0-100").is_ok());
    assert!(validate_sector_ranges("0-100\n200-300").is_ok());
    assert!(validate_sector_ranges("-5-10").is_ok());
    assert!(validate_sector_ranges("-10--5").is_ok());
    assert!(validate_sector_ranges("10--5").is_ok());
}

#[test]
fn test_sector_ranges_invalid() {
    assert!(validate_sector_ranges("abc").is_err());
    assert!(validate_sector_ranges("1-2-3").is_err());
    assert!(validate_sector_ranges("hello").is_err());
}

#[test]
fn test_sbi_valid() {
    assert!(validate_sbi("").is_ok());
    assert!(validate_sbi("MSF: 02:03:04 Q-Data: 410102 03:04:05 00 06:07:08 ABCD").is_ok());
    let multi = "MSF: 02:03:04 Q-Data: 410102 03:04:05 00 06:07:08 ABCD\n\
                  MSF: 10:20:30 Q-Data: FF0A0B 0C:0D:0E 00 0F:10:11 1234";
    assert!(validate_sbi(multi).is_ok());
}

#[test]
fn test_sbi_invalid() {
    assert!(validate_sbi("not sbi data").is_err());
    assert!(validate_sbi("MSF: 0:0:0 Q-Data: 000000 00:00:00 00 00:00:00 0000").is_err());
    assert!(validate_sbi("MSF: 02:03:04 Q-Data: ZZZZZZ 00:00:00 00 00:00:00 0000").is_err());
    assert!(validate_sbi("MSF: 02:03:04 Q-Data: 41010203:04:05 00 06:07:08 ABCD").is_err());
}

#[test]
fn test_hex_dump_valid() {
    assert!(validate_hex_dump("").is_ok());
    assert!(validate_hex_dump("0000 : 01 02 03 04   ....").is_ok());
    assert!(validate_hex_dump("01 02 03 04\n05 06").is_ok());
    assert!(validate_hex_dump("01020304\n0506").is_ok());
    let multi = "0320 : 01 02 03 04 05 06 07 08  09 0A 0B 0C 0D 0E 0F 10   ................\n\
                  0330 : 11 12 13 14 15 16 17 18  19 1A 1B 1C 1D 1E 1F 20   ............... ";
    assert!(validate_hex_dump(multi).is_ok());
}

#[test]
fn test_hex_dump_invalid() {
    assert!(validate_hex_dump("no colon here").is_err());
    assert!(validate_hex_dump("GGGG : ZZ ZZ").is_err());
    assert!(validate_hex_dump("ABC").is_err());
    assert!(validate_hex_dump("01 02 XX").is_err());
    assert!(validate_hex_dump("0000 : 01 02\n03 04").is_err());
}

#[test]
fn test_cuesheet_valid() {
    assert!(validate_cuesheet("").is_ok());

    let simple = r#"FILE "Track.bin" BINARY
  TRACK 01 MODE1/2352
    INDEX 01 00:00:00"#;
    assert!(validate_cuesheet(simple).is_ok());

    let multi = r#"FILE "Track 1.bin" BINARY
  TRACK 01 AUDIO
    INDEX 01 00:00:00
FILE "Track 2.bin" BINARY
  TRACK 02 MODE1/2352
    INDEX 00 00:00:00
    INDEX 01 00:02:00"#;
    assert!(validate_cuesheet(multi).is_ok());

    let with_flags = r#"FILE "Track 1.bin" BINARY
  TRACK 01 AUDIO
    FLAGS DCP
    INDEX 01 00:00:00"#;
    assert!(validate_cuesheet(with_flags).is_ok());
}

#[test]
fn test_cuesheet_catalog() {
    let with_catalog = r#"CATALOG 0000000000000
FILE "Track 01.bin" BINARY
  TRACK 01 MODE1/2352
    INDEX 01 00:00:00"#;
    assert!(validate_cuesheet(with_catalog).is_ok());

    let catalog_after_file = r#"FILE "Track 01.bin" BINARY
CATALOG 0000000000000
  TRACK 01 MODE1/2352
    INDEX 01 00:00:00"#;
    assert!(validate_cuesheet(catalog_after_file).is_err());

    let catalog_bad_len = r#"CATALOG 123456789
FILE "Track 01.bin" BINARY
  TRACK 01 MODE1/2352
    INDEX 01 00:00:00"#;
    assert!(validate_cuesheet(catalog_bad_len).is_err());

    let catalog_non_digit = r#"CATALOG 000000000000A
FILE "Track 01.bin" BINARY
  TRACK 01 MODE1/2352
    INDEX 01 00:00:00"#;
    assert!(validate_cuesheet(catalog_non_digit).is_err());
}

#[test]
fn test_cuesheet_isrc() {
    let with_isrc = r#"FILE "Track 01.bin" BINARY
  TRACK 01 AUDIO
    ISRC ZWUFD3135734
    INDEX 01 00:00:00"#;
    assert!(validate_cuesheet(with_isrc).is_ok());

    let isrc_without_track = r#"FILE "Track 01.bin" BINARY
  ISRC ZWUFD3135734
  TRACK 01 AUDIO
    INDEX 01 00:00:00"#;
    assert!(validate_cuesheet(isrc_without_track).is_err());

    let isrc_after_index = r#"FILE "Track 01.bin" BINARY
  TRACK 01 AUDIO
    INDEX 00 00:00:00
    ISRC ZWUFD3135734
    INDEX 01 00:02:00"#;
    assert!(validate_cuesheet(isrc_after_index).is_err());

    let isrc_bad_len = r#"FILE "Track 01.bin" BINARY
  TRACK 01 AUDIO
    ISRC ZWUFD31357
    INDEX 01 00:00:00"#;
    assert!(validate_cuesheet(isrc_bad_len).is_err());

    let isrc_non_alnum = r#"FILE "Track 01.bin" BINARY
  TRACK 01 AUDIO
    ISRC ZWUFD31357-4
    INDEX 01 00:00:00"#;
    assert!(validate_cuesheet(isrc_non_alnum).is_err());
}

#[test]
fn test_cuesheet_songwriter() {
    let with_songwriter = r#"FILE "Track 01.bin" BINARY
  TRACK 01 AUDIO
    TITLE "Song Title"
    PERFORMER "Artist"
    SONGWRITER "Writer"
    INDEX 01 00:00:00"#;
    assert!(validate_cuesheet(with_songwriter).is_ok());
}

#[test]
fn test_cuesheet_index_subindexes() {
    let with_index02 = r#"FILE "Track 01.bin" BINARY
  TRACK 01 MODE1/2352
    INDEX 01 00:00:00
    INDEX 02 05:27:51"#;
    assert!(validate_cuesheet(with_index02).is_ok());

    let with_many_indexes = r#"FILE "Track 01.bin" BINARY
  TRACK 01 MODE1/2352
    INDEX 01 00:00:00
    INDEX 02 05:27:51
    INDEX 03 10:30:00
    INDEX 04 15:00:00"#;
    assert!(validate_cuesheet(with_many_indexes).is_ok());

    let indexes_then_next_file = r#"FILE "Track 01.bin" BINARY
  TRACK 01 MODE1/2352
    INDEX 01 00:00:00
    INDEX 02 05:27:51
FILE "Track 02.bin" BINARY
  TRACK 02 AUDIO
    INDEX 01 00:00:00"#;
    assert!(validate_cuesheet(indexes_then_next_file).is_ok());

    let index_skip = r#"FILE "Track 01.bin" BINARY
  TRACK 01 MODE1/2352
    INDEX 01 00:00:00
    INDEX 03 05:27:51"#;
    assert!(validate_cuesheet(index_skip).is_err());

    let index02_without_01 = r#"FILE "Track 01.bin" BINARY
  TRACK 01 MODE1/2352
    INDEX 02 05:27:51"#;
    assert!(validate_cuesheet(index02_without_01).is_err());

    let index02_bad_frames = r#"FILE "Track 01.bin" BINARY
  TRACK 01 MODE1/2352
    INDEX 01 00:00:00
    INDEX 02 05:27:75"#;
    assert!(validate_cuesheet(index02_bad_frames).is_err());

    let index02_bad_secs = r#"FILE "Track 01.bin" BINARY
  TRACK 01 MODE1/2352
    INDEX 01 00:00:00
    INDEX 02 05:60:00"#;
    assert!(validate_cuesheet(index02_bad_secs).is_err());
}

#[test]
fn test_cuesheet_full_redump() {
    let full = r#"CATALOG 5099750122020
REM SINGLE-DENSITY AREA
FILE "Track 01.bin" BINARY
  TRACK 01 AUDIO
    INDEX 01 00:00:00
FILE "Track 02.bin" BINARY
  TRACK 02 AUDIO
    ISRC GAJPN9100001
    FLAGS DCP
    INDEX 00 00:00:00
    INDEX 01 00:02:00
REM HIGH-DENSITY AREA
FILE "Track 03.bin" BINARY
  TRACK 03 MODE2/2352
    INDEX 01 00:00:00"#;
    assert!(validate_cuesheet(full).is_ok());

    let gdrom_session = r#"REM SESSION 01
FILE "Track 01.bin" BINARY
  TRACK 01 AUDIO
    INDEX 01 00:00:00
REM LEAD-OUT 01:30:00
REM SESSION 02
REM LEAD-IN 01:00:00
REM PREGAP 00:02:00
FILE "Track 02.bin" BINARY
  TRACK 02 MODE2/2352
    INDEX 01 00:00:00"#;
    assert!(validate_cuesheet(gdrom_session).is_ok());

    let cd_audio = r#"TITLE "ACR Soundtrack"
PERFORMER "Artist"
FILE "Track 01.bin" BINARY
  TRACK 01 AUDIO
    TITLE "Song 1"
    PERFORMER "Artist"
    SONGWRITER "Writer"
    INDEX 01 00:00:00
FILE "Track 02.bin" BINARY
  TRACK 02 AUDIO
    TITLE "Song 2"
    PERFORMER "Artist"
    SONGWRITER "Writer"
    INDEX 00 00:00:00
    INDEX 01 00:01:74"#;
    assert!(validate_cuesheet(cd_audio).is_ok());
}

#[test]
fn test_cuesheet_invalid() {
    assert!(validate_cuesheet("TRACK 01 AUDIO\n    INDEX 01 00:00:00").is_err());

    let bad_seq = r#"FILE "T1.bin" BINARY
  TRACK 02 AUDIO
    INDEX 01 00:00:00"#;
    assert!(validate_cuesheet(bad_seq).is_err());

    let bad_frames = r#"FILE "T.bin" BINARY
  TRACK 01 AUDIO
    INDEX 00 00:00:00
    INDEX 01 00:00:75"#;
    assert!(validate_cuesheet(bad_frames).is_err());

    let bad_secs = r#"FILE "T.bin" BINARY
  TRACK 01 AUDIO
    INDEX 00 00:00:00
    INDEX 01 00:60:00"#;
    assert!(validate_cuesheet(bad_secs).is_err());
}

#[test]
fn test_dat_valid() {
    assert!(validate_dat("").is_ok());
    let single = r#"<rom name="Track.bin" size="1185760800" crc="deadbeef" md5="dddddddddddddddddddddddddddddddd" sha1="aaaaaaaaaaaaaaaaaaaaaaaaaaaaaaaaaaaaaaaa" />"#;
    assert!(validate_dat(single).is_ok());

    let multi = r#"<rom name="Track 01.bin" size="100" crc="00000000" md5="00000000000000000000000000000000" sha1="0000000000000000000000000000000000000000" />
<rom name="Track 02.bin" size="200" crc="11111111" md5="11111111111111111111111111111111" sha1="1111111111111111111111111111111111111111" />"#;
    assert!(validate_dat(multi).is_ok());
}

#[test]
fn test_dat_invalid() {
    let bad_crc = r#"<rom name="T.bin" size="100" crc="ZZZZ" md5="00000000000000000000000000000000" sha1="0000000000000000000000000000000000000000" />"#;
    assert!(validate_dat(bad_crc).is_err());

    let missing_name = r#"<rom size="100" crc="00000000" md5="00000000000000000000000000000000" sha1="0000000000000000000000000000000000000000" />"#;
    assert!(validate_dat(missing_name).is_err());

    let multi_no_track = r#"<rom name="foo.bin" size="100" crc="00000000" md5="00000000000000000000000000000000" sha1="0000000000000000000000000000000000000000" />
<rom name="bar.bin" size="200" crc="11111111" md5="11111111111111111111111111111111" sha1="1111111111111111111111111111111111111111" />"#;
    assert!(validate_dat(multi_no_track).is_err());
}

#[test]
fn test_ring_code_offsets() {
    let good =
        r#"[{"offset_value":"+123","offset_extra_value":"1","sample_start":"-5","layers":[]}]"#;
    assert!(validate_ring_code_offsets(good).is_empty());

    let bad =
        r#"[{"offset_value":"abc","offset_extra_value":"","sample_start":"","layers":[]}]"#;
    assert!(!validate_ring_code_offsets(bad).is_empty());
}

#[test]
fn test_parse_sector_range_pairs() {
    assert_eq!(
        parse_sector_range_pairs("0-100\n200-300"),
        vec![(0, 100), (200, 300)]
    );
    assert_eq!(parse_sector_range_pairs("-5-10"), vec![(-5, 10)]);
    assert_eq!(parse_sector_range_pairs(""), Vec::<(i32, i32)>::new());
}

#[test]
fn test_sector_ranges_1_2_3_is_invalid() {
    let result = validate_sector_ranges("1-2-3");
    assert!(
        result.is_err(),
        "1-2-3 should fail: only one separator allowed"
    );
}

#[test]
fn complaints_name_the_place() {
    assert_eq!(validate_non_negative_int("  5  "), Ok(5));
    assert_eq!(validate_signed_int("-2147483648"), Ok(i32::MIN));
    assert!(validate_signed_int("2147483648").is_err());
    let bad = r#"[{"offset_value":"abc"},{"sample_start":"x"}]"#;
    assert_eq!(validate_ring_code_offsets(bad).len(), 2);
    assert!(validate_ring_code_offsets("no list").is_empty());
    let mut entry = JsonObject::new();
    entry.insert("offset_value", Json::text("1x"));
    assert_eq!(check_ring_offsets(&vec![Json::Object(entry)]).len(), 1);
}

#[test]
fn accepted_ranges_are_all_read() {
    for (text, accepted) in [
        ("\n \n0-100\r\n\n 200-300 \n", true),
        ("0-100\nabc", false),
        (" \r\n", true),
        ("1-2\n\n3-", false),
    ] {
        let filled = text.lines().filter(|l| !l.trim().is_empty()).count();
        assert_eq!(validate_sector_ranges(text).is_ok(), accepted);
        assert_eq!(parse_sector_range_pairs(text).len() == filled, accepted);
    }
}

#[test]
fn cuesheets_are_read_whatever_their_case() {
    let sheet = "\n file \"a.bin\" binary\r\n\ttrack 01 mode1/2352\n\n index 01 00:00:00\n";
    assert!(validate_cuesheet(sheet).is_ok());
    assert!(validate_cuesheet(&sheet.to_ascii_uppercase()).is_ok());
    let lines: Vec<&str> = sheet.lines().collect();
    for k in 0..=lines.len() {
        assert!(validate_cuesheet(&lines[..k].join("\n")).is_ok());
    }
    let refused = "file \"\u{e9}.bin\" binary\nflags \u{df}x";
    let message = validate_cuesheet(refused).unwrap_err();
    assert_eq!(validate_cuesheet(&refused.to_ascii_uppercase()), Err(message));
}
