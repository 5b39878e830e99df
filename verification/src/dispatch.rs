//! The format dispatcher's decision: which installation backend a package path belongs to.

use crate::text::{bytes_end_with, ends_with, utf8};
use vstd::prelude::*;
use vstd::string::*;

verus! {

/// The installation backends.
#[derive(Clone, Copy, Debug, PartialEq, Eq, Structural)]
pub enum Backend {
    /// A `.deb` package, which a foreign installer handles.
    Deb,
    /// An `.eopkg` bundle, which this engine installs.
    Eopkg,
    /// An `.rpm` package, which a foreign installer handles.
    Rpm,
    /// Any other path.
    Unsupported,
}

/// The backend that a package path belongs to, by its extension.
pub open spec fn backend_of(path: Seq<char>) -> Backend {
    if ends_with(utf8(path), utf8(".deb"@)) {
        Backend::Deb
    } else if ends_with(utf8(path), utf8(".eopkg"@)) {
        Backend::Eopkg
    } else if ends_with(utf8(path), utf8(".rpm"@)) {
        Backend::Rpm
    } else {
        Backend::Unsupported
    }
}

/// Selects the backend for a package path: see [`backend_of`].
pub fn select_backend(path: &str) -> (r: Backend)
    ensures
        r == backend_of(path@),
{
    let bytes = path.as_bytes();
    if bytes_end_with(bytes, ".deb".as_bytes()) {
        Backend::Deb
    } else if bytes_end_with(bytes, ".eopkg".as_bytes()) {
        Backend::Eopkg
    } else if bytes_end_with(bytes, ".rpm".as_bytes()) {
        Backend::Rpm
    } else {
        Backend::Unsupported
    }
}

} // verus!
