pub mod common;
pub mod rss;
pub mod atom;
pub mod json_feed;
pub mod order;
