//! Core logic of a terminal chat client: normalizing rich-text message
//! bodies into wrapped, aligned display lines, deriving chat display names,
//! reconciling background fetch results into view state, scroll math, and a
//! bounded image cache.

pub mod api;
pub mod app;
pub mod auth;
pub mod colwidth;
pub mod image_display;
pub mod normalize;
pub mod render;
pub mod numfmt;
pub mod textops;
pub mod timefmt;
pub mod ui;
pub mod viewport;
pub mod wrap;
