//! What a virtual file system can do.

use vstd::prelude::*;

verus! {

/// Capability flags of a virtual file system.
#[derive(Debug, Clone, Copy, PartialEq, Eq, Structural)]
pub struct VfsCapabilities {
    pub read: bool,
    pub write: bool,
    pub delete: bool,
    pub rename: bool,
    pub create_dir: bool,
    pub set_mtime: bool,
}

impl VfsCapabilities {
    /// Full read-write capabilities (local file system).
    pub fn full() -> (res: Self)
        ensures
            res == (VfsCapabilities { read: true, write: true, delete: true, rename: true, create_dir: true, set_mtime: true }),
    {
        VfsCapabilities { read: true, write: true, delete: true, rename: true, create_dir: true, set_mtime: true }
    }

    /// Read-only capabilities.
    pub fn read_only() -> (res: Self)
        ensures
            res == (VfsCapabilities { read: true, write: false, delete: false, rename: false, create_dir: false, set_mtime: false }),
    {
        VfsCapabilities { read: true, write: false, delete: false, rename: false, create_dir: false, set_mtime: false }
    }
}

impl Default for VfsCapabilities {
    /// No capabilities.
    fn default() -> (res: Self)
        ensures
            res == (VfsCapabilities { read: false, write: false, delete: false, rename: false, create_dir: false, set_mtime: false }),
    {
        VfsCapabilities { read: false, write: false, delete: false, rename: false, create_dir: false, set_mtime: false }
    }
}

} // verus!
