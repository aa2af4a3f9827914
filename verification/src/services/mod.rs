//! The rules of the database: what is accepted, how changes apply, what is published.

pub mod approval;
pub mod approval_run;
pub mod archive_service;
pub mod cache;
pub mod case_laws;
pub mod changes;
pub mod cue_laws;
pub mod cue_rebuild;
pub mod cue_sessions;
pub mod dat_laws;
pub mod database_export_service;
pub mod disc_match;
pub mod disc_service;
pub mod disc_snapshot;
pub mod disc_update;
pub mod dump_text;
pub mod field_laws;
pub mod file_laws;
pub mod hex_dump;
pub mod kept_laws;
pub mod list_laws;
pub mod log_laws;
pub mod name_laws;
pub mod news_service;
pub mod order_laws;
pub mod plan_laws;
pub mod pressing_laws;
pub mod queue_sql;
pub mod redumper_log;
pub mod resolution;
pub mod resolution_laws;
pub mod ring_history;
pub mod ring_laws;
pub mod ring_offsets;
pub mod run_laws;
pub mod search_service;
pub mod snapshot_hash;
pub mod snapshot_update;
pub mod stamp_laws;
pub mod submission_service;
pub mod user_service;
pub mod validation;
