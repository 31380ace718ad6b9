//! Looking up and downloading videos, and merging their tracks.

pub mod backends;
pub mod best;
pub mod boxes;
pub mod cookies;
pub mod decimal;
pub mod fetch;
pub mod formats;
pub mod innertube;
pub mod json;
pub mod merge;
pub mod merger;
pub mod page;
pub mod plans;
pub mod player;
pub mod routes;
pub mod search;
pub mod sizes;
pub mod text;
pub mod thumbnails;
pub mod tokens;
pub mod types;
pub mod urls;
pub mod utf8;
pub mod ytdlp;
