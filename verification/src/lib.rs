pub mod time;
pub mod config;
pub mod types;
pub mod state;
pub mod text;
pub mod util;
pub mod error;
pub mod keys;
pub mod feed;
pub mod json;
pub mod html;
pub mod api;
pub mod output;
pub mod cycle;
