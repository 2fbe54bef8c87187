//! Tools for maintaining "Keep a Changelog" style changelog documents as part
//! of a buildpack release workflow: parsing changelog Markdown into a
//! structured document, promoting unreleased changes into a dated release,
//! serializing the document back to canonical text, and generating the
//! trailing block of version-comparison reference links.

pub mod actions;
pub mod canonical;
pub mod changelog;
pub mod date;
pub mod entry;
pub mod links;
pub mod matrix;
pub mod mdscan;
pub mod paths;
pub mod prep;
pub mod promote;
pub mod registry;
pub mod releases;
pub mod render;
pub mod roundtrip;
pub mod text;
pub mod version;
