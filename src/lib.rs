//! Extraction of news records from a listing page, their deduplication, and the
//! bookkeeping of their delivery to webhook destinations.

pub mod text;
pub mod fields;
pub mod extract;
pub mod news_item;
pub mod listing;
pub mod html;
pub mod sync;
pub mod delivery;
pub mod lifecycle;
