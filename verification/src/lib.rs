//! Report and template names, LaTeX title escaping, template extraction and
//! command-line decisions for a LaTeX report helper.

pub mod error;
pub mod text;
pub mod names;
pub mod latex;
pub mod paths;
pub mod templates;
pub mod cli;
pub mod catalog;
