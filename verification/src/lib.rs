//! Merges several file trees into one: files that meet at one path are
//! replaced, renamed or merged as the workspace's policy says of the path, and
//! references between files follow the files that are renamed.
//!
//! `workspace::resolve` makes the plan, a [`timeline::Timeline`]. Its
//! `export_to` settles where every planned file ends up and hands the plan to an
//! [`exporter::Exporter`], which says step by step what is to be loaded and what
//! is to be written. The library itself touches no file.

/// What can stop an export.
pub mod error;
/// Carrying out a plan, step by step.
pub mod exporter;
/// File interface
pub mod file;
/// The default formatter of renamed files, and why it keeps them apart.
pub mod formatter;
/// Paths as text: parent, file name, stem, extension, joining.
pub mod fs;
/// Internal representation of a single file inside the project
pub mod index;
/// The observer of a resolution.
pub mod logger;
/// The order of a plan.
pub mod order;
/// Re-export necessary data
pub mod prelude;
/// Project interface
pub mod project;
/// Characters, decimal numbers and the order of texts.
pub mod text;
/// The plan of a merge.
pub mod timeline;
/// Workspace interface
pub mod workspace;

pub use error::Error;
