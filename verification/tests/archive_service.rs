use std::io::Read;
use vgindex::error::AppError;
use vgindex::models::{File, System};
use vgindex::services::archive_service::{
    archive_subdir, archive_type_supported_by_system, dat_disc_has_active_cue, dat_file_is_active,
    dat_system_name, generate_cuesheet_archive, generate_datfile_archive, generate_key_archive,
    generate_sbi_archive, has_bin_media, has_zip_extension, html_escape, is_archive_type,
    is_replaced, newest_position, plan_archives, sort_dat_rom_entries, write_datfile, ArchiveDisc,
    ArchiveMetadata, DatfileDisc, DatfileEntry, RomEntry,
};
use vgindex::zip_file::{pack_files, ArchiveFile};

fn system(has_key: bool, has_sbi: bool) -> System {
    System {
        code: "SYS".to_string(),
        system_type: "Console".to_string(),
        manufacturer: "Example".to_string(),
        name: "System".to_string(),
        short_name: String::new(),
        media_types: vec!["cd".to_string(), "gdrom".to_string(), "dvd5".to_string()],
        has_exe_date: false,
        has_sbi,
        has_pvd: false,
        has_edc: false,
        has_disc_id: false,
        has_key,
        has_universal_hash: false,
        has_title_foreign: false,
        has_disc_title: false,
        has_disc_number: false,
        has_serial: false,
        has_barcode: false,
        has_version: false,
        has_edition: false,
        has_protection: false,
        has_sector_ranges: false,
        has_header: false,
        has_bca: false,
        has_sample_start: false,
        has_offset_extra: false,
    }
}

fn dat_disc(media_type_code: &str, rom_extension: &str) -> DatfileDisc {
    DatfileDisc {
        id: 1,
        title: "Game".to_string(),
        filename_suffix: None,
        disc_number: None,
        disc_title: None,
        category_name: "Games".to_string(),
        media_type_code: media_type_code.to_string(),
        rom_extension: rom_extension.to_string(),
    }
}

fn file(track_number: Option<&str>) -> File {
    File {
        id: 1,
        disc_id: 1,
        track_number: track_number.map(str::to_string),
        size: 0,
        crc32: String::new(),
        md5: String::new(),
        sha1: String::new(),
    }
}

fn rom_entry(name: &str, is_cue: bool) -> RomEntry {
    RomEntry {
        name: name.to_string(),
        size: 0,
        crc: String::new(),
        md5: String::new(),
        sha1: String::new(),
        is_cue,
    }
}

/// The names and contents of the files in an archive.
fn unpack(data: &[u8]) -> Vec<(String, Vec<u8>)> {
    let mut zip = zip::ZipArchive::new(std::io::Cursor::new(data.to_vec())).unwrap();
    let mut out = Vec::new();
    for i in 0..zip.len() {
        let mut file = zip.by_index(i).unwrap();
        let mut bytes = Vec::new();
        file.read_to_end(&mut bytes).unwrap();
        out.push((file.name().to_string(), bytes));
    }
    out
}

fn archive_disc(title: &str, content: &[u8]) -> ArchiveDisc {
    ArchiveDisc {
        title: title.to_string(),
        disc_number: None,
        disc_title: None,
        filename_suffix: None,
        region_names: vec!["Japan".to_string()],
        language_codes: Vec::new(),
        content: content.to_vec(),
    }
}

#[test]
fn archive_metadata_uses_site_host_and_url() {
    let metadata = ArchiveMetadata::from_site_url("https://redump.info");

    assert_eq!(metadata.author, "redump.info");
    assert_eq!(metadata.homepage, "redump.info");
    assert_eq!(metadata.url, "https://redump.info/");
}

#[test]
fn archive_metadata_strips_www_host_prefix() {
    let metadata = ArchiveMetadata::from_site_url("https://www.redump.info/");

    assert_eq!(metadata.author, "redump.info");
    assert_eq!(metadata.homepage, "redump.info");
    assert_eq!(metadata.url, "https://www.redump.info/");
}

#[test]
fn dat_rom_entries_put_cue_first_then_sort_alphabetically() {
    let mut roms = vec![
        rom_entry("Game (Track 2).bin", false),
        rom_entry("Game (Track 1).bin", false),
        rom_entry("Game.cue", true),
    ];

    sort_dat_rom_entries(&mut roms);

    let names: Vec<&str> = roms.iter().map(|rom| rom.name.as_str()).collect();
    assert_eq!(
        names,
        vec!["Game.cue", "Game (Track 1).bin", "Game (Track 2).bin"]
    );
}

#[test]
fn dat_cue_entries_are_active_only_for_supported_bin_media() {
    let sys = system(false, false);

    assert!(dat_disc_has_active_cue(&dat_disc("cd", "bin"), &sys));
    assert!(dat_disc_has_active_cue(&dat_disc("gdrom", "BIN"), &sys));
    assert!(!dat_disc_has_active_cue(&dat_disc("dvd5", "iso"), &sys));
    assert!(!dat_disc_has_active_cue(&dat_disc("other", "bin"), &sys));
}

#[test]
fn dat_file_filter_keeps_non_cue_rows_and_gates_cue_rows() {
    let cue_file = file(None);
    let track_file = file(Some("1"));

    assert!(dat_file_is_active(&track_file, false));
    assert!(!dat_file_is_active(&cue_file, false));
    assert!(dat_file_is_active(&cue_file, true));
}

#[test]
fn archive_availability_uses_system_flags_for_key_and_sbi() {
    let key_system = system(true, false);
    let sbi_system = system(false, true);
    let plain_system = system(false, false);

    assert!(archive_type_supported_by_system(&key_system, "key", false).unwrap());
    assert!(!archive_type_supported_by_system(&plain_system, "key", false).unwrap());
    assert!(archive_type_supported_by_system(&sbi_system, "sbi", false).unwrap());
    assert!(!archive_type_supported_by_system(&plain_system, "sbi", false).unwrap());
}

#[test]
fn archive_availability_uses_bin_media_for_cues() {
    let sys = system(false, false);

    assert!(archive_type_supported_by_system(&sys, "cue", true).unwrap());
    assert!(!archive_type_supported_by_system(&sys, "cue", false).unwrap());
}

#[test]
fn blank_site_is_local() {
    let metadata = ArchiveMetadata::from_site_url("  // ");
    assert_eq!(metadata.author, "localhost");
    assert_eq!(metadata.url, "http://localhost/");
}

#[test]
fn unknown_archive_types_are_not_found() {
    assert_eq!(
        archive_type_supported_by_system(&system(true, true), "iso", true),
        Err(AppError::NotFound)
    );
    assert_eq!(archive_type_supported_by_system(&system(false, false), "dat", false), Ok(true));
    assert!(is_archive_type("sbi"));
    assert!(!is_archive_type("zip"));
    assert_eq!(plan_archives(&system(true, false), true), vec!["dat", "cue", "key"]);
    assert_eq!(plan_archives(&system(false, true), false), vec!["dat", "sbi"]);
}

#[test]
fn stored_archives_are_found_by_name_and_time() {
    assert_eq!(archive_subdir("data", "PSX", "dat"), "data/archives/PSX-dat-v2");
    assert!(has_zip_extension("old.zip"));
    assert!(!has_zip_extension(".zip"));
    assert!(!has_zip_extension("zip"));
    assert!(is_replaced("old.zip", "new.zip"));
    assert!(!is_replaced("new.zip", "new.zip"));
    assert!(!is_replaced("keep.txt", "new.zip"));
    assert_eq!(newest_position(&vec![3, 9, 9, 1]), Some(2));
    assert_eq!(newest_position(&Vec::new()), None);
    assert!(has_bin_media(&vec!["iso".to_string(), "BIN".to_string()]));
    assert!(!has_bin_media(&vec!["iso".to_string()]));
}

#[test]
fn names_are_escaped() {
    assert_eq!(html_escape("a<b>&\"c'"), "a&lt;b&gt;&amp;&quot;c'");
    assert_eq!(dat_system_name(&system(false, false)), "Example - System");
}

#[test]
fn datfile_lists_discs_and_files_in_order() {
    let entry = |title: &str, tracks: Vec<Option<&str>>| DatfileEntry {
        disc: DatfileDisc { title: title.to_string(), ..dat_disc("cd", "bin") },
        files: tracks.into_iter().map(file).collect(),
        region_names: Vec::new(),
        language_codes: Vec::new(),
    };
    let entries = vec![
        entry("beta", vec![Some("1"), None]),
        entry("Alpha & Co", vec![Some("1")]),
    ];
    let metadata = ArchiveMetadata::from_site_url("https://redump.info");
    let sys = system(false, false);
    let dat = write_datfile(&metadata, &sys, &entries, 0);
    assert!(dat.starts_with("<?xml version=\"1.0\"?>\n<!DOCTYPE datafile PUBLIC"));
    assert!(dat.contains("\t\t<name>Example - System</name>\n"));
    assert!(dat.contains("<description>Example - System - Datfile (2) (1970-01-01 00-00-00)</description>"));
    assert!(dat.contains("\t\t<version>1970-01-01 00-00-00</version>\n"));
    let alpha = dat.find("<game name=\"Alpha &amp; Co\" id=\"1\">").unwrap();
    let beta = dat.find("<game name=\"beta\" id=\"1\">").unwrap();
    assert!(alpha < beta);
    let cue = dat.find("<rom name=\"beta.cue\"").unwrap();
    let bin = dat.find("<rom name=\"beta.bin\" size=\"0\" crc=\"\" md5=\"\" sha1=\"\"/>\n").unwrap();
    assert!(cue < bin);
    assert!(dat.ends_with("\t</game>\n</datafile>\n"));

    let archive = generate_datfile_archive(&metadata, &sys, &entries, 0).unwrap();
    assert_eq!(archive.filename, "Example - System - Datfile (2) (1970-01-01 00-00-00).zip");
    assert_eq!(
        unpack(&archive.data),
        vec![(
            "Example - System - Datfile (2) (1970-01-01 00-00-00).dat".to_string(),
            dat.into_bytes()
        )]
    );
}

#[test]
fn disc_archives_hold_one_file_for_each_disc() {
    let discs = vec![archive_disc("One", b"first"), archive_disc("Two", b"second")];
    let cues = generate_cuesheet_archive(&system(false, false), true, &discs, 86400).unwrap();
    assert_eq!(cues.filename, "Example - System - Cuesheets (2) (1970-01-02 00-00-00).zip");
    assert_eq!(
        unpack(&cues.data),
        vec![
            ("One (Japan).cue".to_string(), b"first".to_vec()),
            ("Two (Japan).cue".to_string(), b"second".to_vec()),
        ]
    );
    let keys = generate_key_archive(&system(true, false), &discs, 0).unwrap();
    assert_eq!(unpack(&keys.data)[1].0, "Two (Japan).key");
    let sbis = generate_sbi_archive(&system(false, true), &discs, 0).unwrap();
    assert_eq!(sbis.filename, "Example - System - SBI Subchannels (2) (1970-01-01 00-00-00).zip");
    for refused in [
        generate_cuesheet_archive(&system(true, true), false, &discs, 0),
        generate_key_archive(&system(false, true), &discs, 0),
        generate_sbi_archive(&system(true, false), &discs, 0),
    ] {
        assert!(matches!(refused, Err(AppError::NotFound)));
    }
    let twice = vec![archive_disc("One", b"a"), archive_disc("One", b"b")];
    assert!(matches!(
        generate_key_archive(&system(true, false), &twice, 0),
        Err(AppError::Internal(_))
    ));
    let long = vec![archive_disc(&"x".repeat(0xFFFF), b"a")];
    assert!(matches!(
        generate_sbi_archive(&system(false, true), &long, 0),
        Err(AppError::Internal(_))
    ));
}

#[test]
fn files_are_packed_up_to_the_longest_name() {
    let file = |name: String| ArchiveFile { name, data: vec![1, 2, 3] };
    let longest = "y".repeat(0xFFFF);
    let packed = pack_files(&vec![file(longest.clone()), file("b".to_string())]).unwrap();
    assert_eq!(
        unpack(&packed),
        vec![(longest.clone(), vec![1, 2, 3]), ("b".to_string(), vec![1, 2, 3])]
    );
    assert!(matches!(pack_files(&vec![file(longest + "y")]), Err(AppError::Internal(_))));
    let twice = vec![file("a".to_string()), file("a".to_string())];
    assert!(matches!(pack_files(&twice), Err(AppError::Internal(_))));
    assert!(unpack(&pack_files(&Vec::new()).unwrap()).is_empty());
}
