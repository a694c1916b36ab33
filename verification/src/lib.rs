//! Mount bookkeeping, rclone command lines and tray-menu logic for MinIO Drive.
pub mod connstr;
pub mod drives;
pub mod listing;
pub mod logfile;
pub mod model;
pub mod monitor;
pub mod process_table;
pub mod rclone;
pub mod state;
pub mod text;
pub mod tray;
