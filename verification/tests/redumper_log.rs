use vgindex::services::redumper_log::{has_supported_autofill_builds, parse};

fn systems() -> Vec<String> {
    ["PSX", "PS2", "SS", "PC", "GC", "WII", "AUDIO-CD", "ENHANCED-CD"]
        .into_iter()
        .map(str::to_owned)
        .collect()
}

#[test]
fn latest_sections_supply_scalar_and_multiline_fields() {
    let log = r#"*** INFO (time check: 0s)
  version: 0.90
*** SPLIT (time check: 0s)
Universal Hash (SHA-1): aaaaaaaaaaaaaaaaaaaaaaaaaaaaaaaaaaaaaaaa
CUE [old.cue]:
FILE "old.bin" BINARY
*** HASH (time check: 0s)
dat:
<rom name="old.bin" size="1" crc="aaaaaaaa" md5="aaaaaaaaaaaaaaaaaaaaaaaaaaaaaaaa" sha1="aaaaaaaaaaaaaaaaaaaaaaaaaaaaaaaaaaaaaaaa" />
*** INFO (time check: 1s)
  version: 1.00
  EXE date: 2004-04-21
  mode2 (form 2) EDC: no
  security sector ranges:
    10-20
    30-40
  PVD:
0320 : 00 01                                             ..
  header:
0000 : 53 45                                             SE
ISO9660 [disc.bin]:
PSX [disc.bin]:
*** SPLIT (time check: 1s)
non-zero data sample range: [    +2354 .. +166271106]
Universal Hash (SHA-1): 8b7cd238b2537a235d4726e8c103a57c28a9a825
disc write offset: +2
CUE [first.cue]:
FILE "first.bin" BINARY
  TRACK 01 MODE1/2352
CUE [second.cue]:
FILE "second.bin" BINARY
*** HASH (time check: 1s)
dat:
<rom name="one.bin" size="1" crc="aaaaaaaa" md5="aaaaaaaaaaaaaaaaaaaaaaaaaaaaaaaa" sha1="aaaaaaaaaaaaaaaaaaaaaaaaaaaaaaaaaaaaaaaa" />
<rom name="two.bin" size="2" crc="bbbbbbbb" md5="bbbbbbbbbbbbbbbbbbbbbbbbbbbbbbbb" sha1="bbbbbbbbbbbbbbbbbbbbbbbbbbbbbbbbbbbbbbbb" />
*** END (time check: 0s)"#;

    let parsed = parse(log, &systems());

    assert_eq!(parsed.version.as_deref(), Some("1.00"));
    assert_eq!(parsed.exe_date.as_deref(), Some("2004-04-21"));
    assert_eq!(parsed.edc, Some(false));
    assert_eq!(
        parsed.universal_hash.as_deref(),
        Some("8b7cd238b2537a235d4726e8c103a57c28a9a825")
    );
    assert_eq!(parsed.sample_start.as_deref(), Some("+2354"));
    assert_eq!(parsed.offset_value.as_deref(), Some("+2"));
    assert_eq!(parsed.sector_ranges.as_deref(), Some("10-20\n30-40"));
    assert_eq!(
        parsed.pvd.as_deref(),
        Some("0320 : 00 01                                             ..")
    );
    assert_eq!(
        parsed.header.as_deref(),
        Some("0000 : 53 45                                             SE")
    );
    assert_eq!(parsed.system_code.as_deref(), Some("PSX"));
    assert_eq!(
        parsed.cuesheet.as_deref(),
        Some("FILE \"first.bin\" BINARY\n  TRACK 01 MODE1/2352")
    );
    assert_eq!(parsed.dat.as_deref().unwrap().lines().count(), 2);
}

#[test]
fn gc_and_wii_versions_are_revision_labels() {
    let parse_version = |system: &str, version: &str| {
        let log =
            format!("*** INFO (time check: 0s)\n{system} [disc.bin]:\nversion: {version}");
        parse(&log, &systems())
    };

    let gc_zero = parse_version("GC", "0");
    assert_eq!(gc_zero.system_code.as_deref(), Some("GC"));
    assert_eq!(gc_zero.version.as_deref(), Some(""));

    let gc_revision = parse_version("GC", "2");
    assert_eq!(gc_revision.version.as_deref(), Some("Rev 2"));

    let wii_string_revision = parse_version("WII", "B");
    assert_eq!(wii_string_revision.version.as_deref(), Some("Rev B"));

    let other_system = parse_version("PSX", "1.00");
    assert_eq!(other_system.version.as_deref(), Some("1.00"));
}

#[test]
fn autofill_requires_every_redumper_build_to_be_supported() {
    let header = |build: &str| format!("redumper (build: {build})");

    assert!(!has_supported_autofill_builds(&header("b736")));
    assert!(has_supported_autofill_builds(&header("b737")));
    assert!(has_supported_autofill_builds(&header("b1000")));
    assert!(has_supported_autofill_builds(
        "  redumper (build: b737)  \r\nredumper (build: b900)"
    ));

    for unsupported in [
        "",
        "redumper (build: LOCAL)",
        "redumper (build:)",
        "redumper (build: b)",
        "redumper (build: b7x7)",
        "redumper (build: b737",
        "redumper (build: b18446744073709551616)",
        "redumper (build: b900)\nredumper (build: b736)",
        "redumper (build: b900)\nredumper (build: LOCAL)",
    ] {
        assert!(
            !has_supported_autofill_builds(unsupported),
            "unexpectedly supported: {unsupported:?}"
        );
    }
}

#[test]
fn dat_extra_entries_are_excluded_without_a_blank_separator() {
    let log = r#"*** HASH (time check: 0s)
dat:
<rom name="xbox47.iso" size="7825162240" crc="ffaf1dcc" md5="e057504a77b4e0ad6271ea76f352a68f" sha1="4c4377a74a07ec2af8c7ef11ae30490f48d0ef13" />
dat (extra):
<rom name="xbox47.dmi" size="2048" crc="043bf884" md5="efe2e7d26f6a375ea6a5e17074bcc908" sha1="ab7246ac85974768f7f3fb79bd6f7bad33e818c8" />
<rom name="xbox47.pfi" size="2048" crc="8fc52135" md5="51badb1da2cc5fb0b272061dab9ef75b" sha1="1b1c6e61835799dd182dea5b3f3f35447216a8ac" />"#;

    assert_eq!(
        parse(log, &Vec::new()).dat.as_deref(),
        Some(
            r#"<rom name="xbox47.iso" size="7825162240" crc="ffaf1dcc" md5="e057504a77b4e0ad6271ea76f352a68f" sha1="4c4377a74a07ec2af8c7ef11ae30490f48d0ef13" />"#
        )
    );
}

#[test]
fn error_count_sums_info_lines_and_org_invalidates_the_field() {
    let valid = "*** INFO (time check: 0s)\n  REDUMP.INFO errors: 2\n  REDUMP.INFO errors: 3";
    assert_eq!(parse(valid, &Vec::new()).error_count, Some(5));

    let old = "*** INFO (time check: 0s)\n  REDUMP.INFO errors: 2\n  REDUMP.ORG errors: 3";
    assert_eq!(parse(old, &Vec::new()).error_count, None);

    let absent = "*** INFO (time check: 0s)\n  version: 1.00";
    assert_eq!(parse(absent, &Vec::new()).error_count, None);
}

#[test]
fn build_date_fills_exe_date_when_explicit_exe_date_is_absent() {
    let saturn = "*** INFO (time check: 0s)\n\
SS [disc.bin]:\n\
  build date: 1995-03-17";
    assert_eq!(
        parse(saturn, &systems()).exe_date.as_deref(),
        Some("1995-03-17")
    );

    let both = "*** INFO (time check: 0s)\n\
  build date: 1995-03-17\n\
  EXE date: 2004-04-21";
    assert_eq!(
        parse(both, &systems()).exe_date.as_deref(),
        Some("2004-04-21")
    );
}

#[test]
fn securom_info_block_maps_to_pc_system() {
    let log = "*** INFO (time check: 0s)\n\
CD-ROM [disc.bin]:\n\
SecuROM [disc.bin]:\n\
  scheme: 3\n\
PSX [disc.bin]:";
    assert_eq!(parse(log, &systems()).system_code.as_deref(), Some("PC"));

    let without_pc = vec!["PSX".to_owned()];
    assert_eq!(parse(log, &without_pc).system_code.as_deref(), Some("PSX"));
}

#[test]
fn safedisc_protection_maps_to_pc_system() {
    let plural = "*** INFO (time check: 0s)\n\
PSX [disc.bin]:\n\
*** PROTECTION (time check: 0s)\n\
protections:\n\
  SafeDisc 2.51.020\n\
*** END (time check: 0s)";
    assert_eq!(parse(plural, &systems()).system_code.as_deref(), Some("PC"));

    let singular = "*** PROTECTION (time check: 0s)\n\
protection: SafeDisc 1.50.020";
    assert_eq!(
        parse(singular, &systems()).system_code.as_deref(),
        Some("PC")
    );

    let without_pc = vec!["PSX".to_owned()];
    assert_eq!(
        parse(plural, &without_pc).system_code.as_deref(),
        Some("PSX")
    );
}

#[test]
fn ps2_datel_protection_maps_to_ps2_system() {
    let plural = "*** INFO (time check: 0s)\n\
PSX [disc.bin]:\n\
*** PROTECTION (time check: 0s)\n\
protections:\n\
  PS2/Datel BIG.DAT, C2: 4351, range: 35-4385\n\
*** END (time check: 0s)";
    assert_eq!(
        parse(plural, &systems()).system_code.as_deref(),
        Some("PS2")
    );

    let singular = "*** PROTECTION (time check: 0s)\n\
protection: PS2/Datel FakeTOC, lead-out: 305571";
    assert_eq!(
        parse(singular, &systems()).system_code.as_deref(),
        Some("PS2")
    );

    let without_ps2 = vec!["PSX".to_owned()];
    assert_eq!(
        parse(plural, &without_ps2).system_code.as_deref(),
        Some("PSX")
    );
}

#[test]
fn all_audio_cue_maps_to_audio_cd_system() {
    let audio = "*** SPLIT (time check: 0s)\n\
CUE [disc.cue]:\n\
FILE \"Track 01.bin\" BINARY\n\
  TRACK 01 AUDIO\n\
INDEX 01 00:00:00\n\
FILE \"Track 02.bin\" BINARY\n\
  TRACK 02 AUDIO\n\
INDEX 01 00:00:00\n\
*** END (time check: 0s)";
    assert_eq!(
        parse(audio, &systems()).system_code.as_deref(),
        Some("AUDIO-CD")
    );

    let mixed = audio.replacen("TRACK 01 AUDIO", "TRACK 01 MODE1/2352", 1);
    assert_eq!(parse(&mixed, &systems()).system_code, None);

    let without_audio_cd = vec!["PSX".to_owned()];
    assert_eq!(parse(audio, &without_audio_cd).system_code, None);

    let detected = format!("*** INFO (time check: 0s)\nPSX [disc.bin]:\n{audio}");
    assert_eq!(
        parse(&detected, &systems()).system_code.as_deref(),
        Some("PSX")
    );
}

#[test]
fn multisession_audio_then_data_cue_maps_to_enhanced_cd_system() {
    let enhanced = "*** SPLIT (time check: 0s)\n\
CUE [disc.cue]:\n\
REM SESSION 01\n\
FILE \"Track 01.bin\" BINARY\n\
  TRACK 01 AUDIO\n\
INDEX 01 00:00:00\n\
FILE \"Track 02.bin\" BINARY\n\
  TRACK 02 AUDIO\n\
INDEX 01 00:00:00\n\
REM SESSION 02\n\
REM LEAD-IN 01:00:00\n\
REM PREGAP 00:02:00\n\
FILE \"Track 03.bin\" BINARY\n\
  TRACK 03 MODE2/2352\n\
INDEX 01 00:00:00\n\
*** END (time check: 0s)";
    assert_eq!(
        parse(enhanced, &systems()).system_code.as_deref(),
        Some("ENHANCED-CD")
    );

    let detected = format!("*** INFO (time check: 0s)\nPSX [disc.bin]:\n{enhanced}");
    assert_eq!(
        parse(&detected, &systems()).system_code.as_deref(),
        Some("PSX")
    );

    let without_enhanced_cd = vec!["AUDIO-CD".to_owned()];
    assert_eq!(parse(enhanced, &without_enhanced_cd).system_code, None);
}

#[test]
fn sbi_includes_only_lines_accepted_by_the_shared_validator() {
    let log = "*** INFO (time check: 0s)\n\
MSF: 02:03:04 Q-Data: 410102 03:04:05 00 06:07:08 ABCD\n\
MSF: 0:0:0 Q-Data: 000000 00:00:00 00 00:00:00 0000";
    assert_eq!(
        parse(log, &Vec::new()).sbi.as_deref(),
        Some("MSF: 02:03:04 Q-Data: 410102 03:04:05 00 06:07:08 ABCD")
    );
}

#[test]
fn protection_is_cumulative_and_none_only_clears_when_alone() {
    let log = r#"*** PROTECTION (time check: 0s)
protections:
  PS2/Datel BIG.DAT, C2: 4351, range: 35-4385
  PS2/Datel FakeTOC, lead-out: 305571, ISO9660 size: 328992
protection: none
*** INFO (time check: 0s)
SecuROM [disc.bin]:
  scheme: 3
PSX [disc.bin]:
  libcrypt: yes
*** END (time check: 0s)"#;
    assert_eq!(
        parse(log, &systems()).protection.as_deref(),
        Some(
            "PS2/Datel BIG.DAT, C2: 4351, range: 35-4385\n\
PS2/Datel FakeTOC, lead-out: 305571, ISO9660 size: 328992\n\
SecuROM scheme: 3\n\
LibCrypt"
        )
    );

    let none = "*** PROTECTION (time check: 0s)\nprotection: none";
    assert_eq!(parse(none, &Vec::new()).protection, Some(String::new()));

    let absent = "*** PROTECTION (time check: 0s)\n";
    assert_eq!(parse(absent, &Vec::new()).protection, None);
}

#[test]
fn singular_protection_is_included() {
    let log = "*** PROTECTION (time check: 0s)\n\
protection: SafeDisc 00000001.TMP, C2: 589, gap range: 275-10274";
    assert_eq!(
        parse(log, &Vec::new()).protection.as_deref(),
        Some("SafeDisc 00000001.TMP, C2: 589, gap range: 275-10274")
    );
}

#[test]
fn a_log_without_sections_tells_nothing() {
    let parsed = parse("version: 1.00\nEXE date: 2004-04-21", &systems());
    assert_eq!(parsed.version, None);
    assert_eq!(parsed.exe_date, None);
    assert_eq!(parsed.dat, None);
    assert_eq!(parsed.system_code, None);
}
