//! Extraction and normalisation of radio programme listings.
//!
//! Two independent pipelines turn third-party schedule pages into one
//! canonical record type, [`item::Item`]:
//! - [`state`] validates and maps an embedded application state tree;
//! - [`rns`] scrapes a tabbed HTML listing and normalises its time ranges.
//!
//! [`dom`] models a parsed HTML page and the queries made of it; [`timing`]
//! holds clock-time parsing and the calendar arithmetic of a weekly listing.

pub mod dom;
pub mod item;
pub mod rns;
pub mod state;
pub mod timing;
