//! A package installation engine. A bundle is a metadata document, a file list and an
//! xz-compressed tar archive of content. The engine parses the two documents, extracts the
//! archive into a staging area, verifies every declared item against its declared digest,
//! plans the install against what the target holds, and carries the plan out step by step,
//! removing again what it created if a step fails.
//!
//! The engine does no input or output of its own. [`installer::Installation`] says which
//! step comes next and takes the answer of whoever does the step;
//! [`installer::install_package`] does the steps on a target kept in memory
//! ([`target::TargetFs`]), and [`laws`] states what holds of every such install.

pub mod archive;
pub mod digest;
pub mod dispatch;
pub mod error;
pub mod installer;
pub mod integrity;
pub mod laws;
pub mod machine;
pub mod number;
pub mod parser;
pub mod plan;
pub mod search;
mod table;
pub mod target;
pub mod text;
pub mod xml;
