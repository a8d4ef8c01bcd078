//! Verified core of a comic-library server: the folder tree built from the
//! catalogue database, the cover-extraction decisions, and the login rules.
pub mod matchlogic;
pub mod records;
pub mod paths;
pub mod graph;
pub mod tree;
pub mod tree_laws;
pub mod cover;
pub mod auth;
pub mod theme;
pub mod scan;
pub mod cover_laws;
