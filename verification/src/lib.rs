//! Core logic of a photo-editing application: file-format recognition,
//! capture-date parsing, filtering and tallying, display histograms,
//! percentile extraction, crop geometry, tone-curve ordering guarantees,
//! and content-addressed thumbnail keys.
//!
//! The floating-point colour arithmetic that consumes these results lives
//! in the application layer; everything here is exact integer, character
//! and sequence logic with proved contracts.

pub mod analysis;
pub mod date_tree;
pub mod dates;
pub mod formats;
pub mod histogram;
pub mod import;
pub mod pipeline;
pub mod thumbs;

use vstd::prelude::*;

verus! {

/// Identifier of a photo row in the catalog.
pub type PhotoId = i64;

} // verus!
