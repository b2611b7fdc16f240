pub mod config;
pub mod config_laws;
pub mod course_laws;
pub mod discovery_laws;
pub mod error;
pub mod git;
pub mod git_laws;
pub mod glob;
pub mod inventory;
pub mod inventory_laws;
pub mod language;
pub mod model;
pub mod operation_laws;
pub mod outcome_laws;
pub mod output;
pub mod path;
pub mod print_laws;
pub mod provider;
pub mod prune;
pub mod prune_laws;
pub mod reconcile;
pub mod report;
pub mod report_laws;
pub mod rows;
pub mod search;
pub mod search_laws;
pub mod sort;
pub mod state;
pub mod string_set;
pub mod sync;
pub mod sync_laws;
pub mod sync_run;
pub mod text;
pub mod text_laws;
pub mod text_map;

pub use config::Config;
pub use error::{Error, Result};
pub use git::SyncAction;
pub use model::{CloneProtocol, RepoRecord, RepoStatus};
pub use state::State;
