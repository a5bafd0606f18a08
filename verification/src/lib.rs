//! Blog backend logic: metadata scraped from markdown posts, a post
//! repository with public and unlisted posts, and the syndication feed
//! built from the public listing.

pub mod blog_data;
pub mod calendar;
pub mod compiler;
pub mod feed;
pub mod markers;
pub mod nus3audio_converter;
pub mod render;
pub mod text;
