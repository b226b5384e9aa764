//! Finding duplicate videos: the rules that decide what is a duplicate, what is
//! kept, and what happens to the files and to the index.
use vstd::prelude::*;

pub mod ai_debug;
pub mod ai_groups;
pub mod ai_index;
pub mod ai_laws;
pub mod ai_matching;
pub mod ai_report;
pub mod alignment;
pub mod batch;
pub mod batch_laws;
pub mod cancel;
pub mod database;
pub mod digest;
pub mod disk_laws;
pub mod double;
pub mod files;
pub mod findings;
pub mod group_laws;
pub mod groups;
pub mod hash_laws;
pub mod hashes;
pub mod history;
pub mod identity;
pub mod index;
pub mod index_laws;
pub mod local_preprocess;
pub mod log_lines;
pub mod matching;
pub mod matching_laws;
pub mod media;
pub mod media_laws;
pub mod merge_laws;
pub mod merging;
pub mod models;
pub mod naming;
pub mod naming_laws;
pub mod nas_preprocess;
pub mod nas_script;
pub mod operation_laws;
pub mod operations;
pub mod pairing;
pub mod paths;
pub mod ram_disk;
pub mod report_laws;
pub mod reports;
pub mod rows;
pub mod scanning;
pub mod scans;
pub mod server_laws;
pub mod settings;
pub mod settings_laws;
pub mod stretches;
pub mod temporal;
pub mod text;
pub mod text_laws;
pub mod thresholds;
pub mod titles;
pub mod union_find;
pub mod upkeep;
