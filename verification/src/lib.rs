//! Core logic of the Tianshu Bridge tray application: profile configuration,
//! bridge command lines, log parsing and ordering, tray icon selection and the
//! bookkeeping of running bridge processes.
pub mod activity;
pub mod clock;
pub mod logs;
pub mod paths;
pub mod profile;
pub mod registry;
pub mod text;
pub mod tray;

pub use logs::parse_log_line;
pub use paths::{config_dir, config_path, log_path, log_path_for};
pub use profile::{default_engine, default_name, default_server, default_true, gen_id, node_bin_name};
pub use tray::{icon_active, icon_for_count};
