//! California School Dashboard client logic: school resolution, endpoint
//! construction, the privacy-filtered report model, and report rendering.

use vstd::prelude::*;

pub mod text;
pub mod web;
pub mod cli;
pub mod client;
pub mod database;
pub mod export;
pub mod json;
pub mod payload;
pub mod model;
pub mod order;
pub mod resolver;
pub mod statistics;
pub mod years;

verus! {

/// The version of this library.
pub const APP_VERSION: &'static str = "1.0.0";

/// The version of the reporting method every row records.
pub const METHOD_VERSION: &'static str = "2026-07-descriptive-v2";

} // verus!
