pub mod text;
pub mod paths;
pub mod store;
pub mod config;
pub mod organize;
pub mod filename;
pub mod router;
pub mod aria2;
pub mod version;
pub mod ytdlp;
pub mod api;
pub mod manager;
pub mod qbit;
pub mod rss;
