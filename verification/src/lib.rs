//! Scraping of torrent listings of private trackers into a resources table.
pub mod text;
pub mod ptsite;
pub mod size;
pub mod clock;
pub mod dataitem;

pub use dataitem::DataItem;
pub mod dom;
pub mod table;
pub mod parse;
pub mod db;
pub mod upsert;
pub mod scheduler;
pub mod client;

pub use table::{process_headers, process_row_data, process_table};
