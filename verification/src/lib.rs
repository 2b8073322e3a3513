//! Record repository for an archive of interview notes: one text record per
//! company contact, named by a sortable timestamp and the company's slug.

pub mod boundary;
pub mod commands;
pub mod creator;
pub mod dates;
pub mod errors;
pub mod listing;
pub mod matcher;
pub mod notes;
pub mod ranker;
pub mod selector;
pub mod sorting;
pub mod stamp;
pub mod text;
pub mod walker;
