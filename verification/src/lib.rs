//! Compiles a tree of football data into one compressed database document.
//!
//! The tree:
//!
//! ```text
//! continents.json
//! countries.json
//! national_competitions.json
//! domestic_cups.json                                      (optional)
//! {country_code}/names.json                               (optional)
//! {country_code}/free_agents/*.json                       (optional)
//! {country_code}/{league}/league.json
//! {country_code}/{league}/{club}/club.json
//! {country_code}/{league}/{club}/players/*.json           (optional)
//! ```
//!
//! A [`walk::Walk`] decides what to read and gathers the records,
//! [`document::build`] folds satellite clubs into their parents and makes the
//! document, [`codec::pack`] writes and compresses it. What the records of a
//! tree are as a whole is [`tree::whole_tree`]; the modules whose names end in
//! `laws` state what holds of it.

pub mod arg_laws;
pub mod args;
pub mod codec;
pub mod collected;
pub mod document;
pub mod error;
pub mod fold_laws;
pub mod json;
pub mod json_laws;
pub mod listing;
pub mod listing_laws;
pub mod order_laws;
pub mod output_laws;
pub mod questions;
pub mod record_laws;
pub mod records;
pub mod ref_laws;
pub mod refs;
pub mod satellite_laws;
pub mod satellites;
pub mod selection_laws;
pub mod text;
pub mod text_laws;
pub mod tree;
pub mod tree_laws;
pub mod visit_laws;
pub mod walk;
pub mod walk_laws;
