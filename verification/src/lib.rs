//! Planning of downloads from a scraped listing page: anchors found in the
//! table cells of an HTML document become candidate targets, titles are held
//! against a naming pattern and a list of banned words, and targets that the
//! download ledger already knows are left out.

pub mod config;
pub mod extractor;
pub mod ledger;
pub mod pipeline;
pub mod target;
pub mod validator;
