//! Verified core of a desktop URL launcher: URL normalisation, shortcut
//! validation, bookmark and drop parsing, favicon helpers and import planning.

pub mod commands;
pub mod dragdrop;
pub mod error;
pub mod fetch;
pub mod html;
pub mod import;
pub mod models;
pub mod normalize;
pub mod repo;
pub mod shortcut;
pub mod text;
pub mod weburl;
