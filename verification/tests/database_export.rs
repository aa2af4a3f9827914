use vgindex::clock::{read_rfc3339, Moment};
use vgindex::services::database_export_service::{
    check_export, database_partial, export_filename, export_is_due, export_metadata,
    export_partial, is_old_export, is_stale_partial, latest_export, parse_export_filename,
    DatabaseExportInfo, ExportFile, EXPORT_PREFIX, EXPORT_SUFFIX, SQLITE_SCHEMA,
};

fn export_info(timestamp: &str) -> DatabaseExportInfo {
    let filename = format!("{EXPORT_PREFIX}{timestamp}{EXPORT_SUFFIX}");
    DatabaseExportInfo {
        created_at: parse_export_filename(&filename).unwrap(),
        filename,
        size: 1,
    }
}

fn moment(text: &str) -> Moment {
    read_rfc3339(text).unwrap()
}

#[test]
fn completed_export_filename_is_strict() {
    assert!(parse_export_filename("redump-discs-20260703T070000Z.sqlite.zst").is_some());
    assert!(
        parse_export_filename(".redump-discs-20260703T070000Z.sqlite.zst.partial").is_none()
    );
    assert!(parse_export_filename("vgindex-discs-20260703T070000Z.sqlite.zst").is_none());
    assert!(parse_export_filename("redump-discs-20260703.sqlite.zst").is_none());
}

#[test]
fn export_is_immediate_when_missing_or_forced() {
    let now = moment("2026-07-03T01:00:00Z");
    let current = export_info("20260703T000000Z");
    assert!(export_is_due(now, None, false));
    assert!(export_is_due(now, Some(&current), true));
    assert!(!export_is_due(now, Some(&current), false));
}

#[test]
fn daily_export_waits_until_seven_utc() {
    let previous = export_info("20260702T070000Z");
    let current = export_info("20260703T070000Z");
    let before = moment("2026-07-03T06:59:59Z");
    let after = moment("2026-07-03T07:00:00Z");
    assert!(!export_is_due(before, Some(&previous), false));
    assert!(export_is_due(after, Some(&previous), false));
    assert!(!export_is_due(after, Some(&current), false));
}

#[test]
fn sqlite_schema_has_only_required_explicit_index() {
    let runtime = tokio::runtime::Builder::new_current_thread().enable_all().build().unwrap();
    runtime.block_on(async {
        let mut database =
            <sqlx::SqliteConnection as sqlx::Connection>::connect("sqlite::memory:").await.unwrap();
        sqlx::raw_sql(SQLITE_SCHEMA).execute(&mut database).await.unwrap();

        let indexes: Vec<String> = sqlx::query_scalar(
            "SELECT name FROM sqlite_master
             WHERE type = 'index' AND name NOT LIKE 'sqlite_autoindex_%'
             ORDER BY name",
        )
        .fetch_all(&mut database)
        .await
        .unwrap();
        assert_eq!(indexes, ["files_disc_cue_unique"]);

        let disc_columns: Vec<String> =
            sqlx::query_scalar("SELECT name FROM pragma_table_info('discs')")
                .fetch_all(&mut database)
                .await
                .unwrap();
        let system_columns: Vec<String> =
            sqlx::query_scalar("SELECT name FROM pragma_table_info('systems')")
                .fetch_all(&mut database)
                .await
                .unwrap();
        assert!(!disc_columns.iter().any(|name| name == "search_vector"));
        assert!(!system_columns.iter().any(|name| name == "archives_dirty"));
    });
}

#[test]
fn latest_export_ignores_partial_and_old_files() {
    let listed = |name: &str, size: u64| ExportFile { filename: name.to_string(), size };
    let files = vec![
        listed("redump-discs-20260702T070000Z.sqlite.zst", 3),
        listed("redump-discs-20260703T070000Z.sqlite.zst", 3),
        listed(".redump-discs-20260704T070000Z.sqlite.zst.partial", 7),
    ];
    let latest = latest_export(&files).unwrap();
    assert_eq!(latest.filename, "redump-discs-20260703T070000Z.sqlite.zst");
    assert_eq!(latest.size, 3);
    assert!(latest_export(&Vec::new()).is_none());
}

#[test]
fn export_names_are_read_back() {
    let seconds = 1783062000;
    let name = export_filename(seconds);
    assert_eq!(name, "redump-discs-20260703T070000Z.sqlite.zst");
    assert_eq!(parse_export_filename(&name), Some(Moment { seconds, nanos: 0 }));
    assert_eq!(database_partial(seconds), ".redump-discs-20260703T070000Z.sqlite.partial");
    assert!(is_stale_partial(&database_partial(seconds)));
    assert!(is_stale_partial(&export_partial(seconds)));
    assert!(!is_stale_partial(&name));
    assert!(is_old_export(&name, "redump-discs-20260704T070000Z.sqlite.zst"));
    assert!(!is_old_export(&name, &name));
    assert!(!is_old_export("notes.txt", &name));
}

#[test]
fn exports_tell_of_themselves_and_are_checked() {
    let rows = export_metadata(Moment { seconds: 0, nanos: 0 }, "https://redump.info");
    assert_eq!(rows.len(), 7);
    assert_eq!(rows[1], ("generated_at_utc", "1970-01-01T00:00:00+00:00".to_string()));
    assert_eq!(rows[2].1, "https://redump.info");
    assert_eq!(check_export("ok", false), Ok(()));
    assert_eq!(check_export("bad", true), Err("SQLite integrity check failed: bad".to_string()));
    assert_eq!(check_export("ok", true), Err("SQLite foreign key check failed".to_string()));
}
