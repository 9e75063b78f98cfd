//! The systems that have native video support.

use vstd::prelude::*;

verus! {

#[derive(Debug, Clone, Copy, PartialEq, Eq, Structural)]
pub enum Platform {
    MacOs,
    Windows,
    Other,
}

/// A system's own way to read and write videos.
#[derive(Debug, Clone, Copy, PartialEq, Eq, Structural)]
pub enum MediaBackend {
    AvFoundation,
    MediaFoundation,
}

} // verus!
