//! The process storage configuration: the one active storage location that
//! every operation resolves before touching the engine.
//!
//! The configuration is an explicit value, created at process start and
//! passed to whatever opens a store. A caller that shares one configuration
//! across threads wraps it in a lock of its choosing; this layer never reads
//! the value without going through that caller-held reference.
//!
//! Creating the directory for a new location, and deleting a location's
//! directory tree, are the caller's filesystem capability: `init` records the
//! location, and `reset` decides whether a deletion may proceed.

use vstd::prelude::*;

use crate::errors::KvError;

verus! {

/// At most one active storage location.
pub struct StorageConfig {
    path: Option<String>,
}

impl View for StorageConfig {
    type V = Option<Seq<char>>;

    closed spec fn view(&self) -> Option<Seq<char>> {
        match self.path {
            Some(ref p) => Some(p@),
            None => None,
        }
    }
}

impl StorageConfig {
    /// A fresh configuration, with no active location yet.
    pub fn new() -> (c: StorageConfig)
        ensures
            c@ is None,
    {
        StorageConfig { path: None }
    }

    /// True when a location has been configured.
    pub fn is_configured(&self) -> (b: bool)
        ensures
            b == (self@ is Some),
    {
        self.path.is_some()
    }

    /// The active location, when one has been configured.
    pub fn active_path(&self) -> (r: Option<&String>)
        ensures
            match r {
                Some(p) => self@ == Some(p@),
                None => self@ is None,
            },
    {
        self.path.as_ref()
    }
}

/// Records `path_opt` as the active storage location. A second call with a
/// new path re-points every subsequent operation; no data moves. With no path
/// given, whatever was configured before stays active — operations never
/// silently default to an unconfigured location.
pub fn init(config: &mut StorageConfig, path_opt: Option<String>)
    ensures
        match path_opt {
            Some(p) => final (config)@ == Some(p@),
            None => final (config)@ == old(config)@,
        },
{
    match path_opt {
        Some(p) => {
            config.path = Some(p);
        },
        None => {},
    }
}

/// Decides a reset: wiping a storage location is allowed exactly for a given,
/// existing path, and a missing path is reported as `PathNotFound`. With no
/// path given nothing is wiped and nothing fails. The caller performs the
/// actual directory removal only on `Ok` with a given path; no other
/// operation runs a reset as a side effect, and no configuration is touched.
pub fn reset(path_opt: Option<&str>, path_exists: bool) -> (r: Result<(), KvError>)
    ensures
        match path_opt {
            Some(_) => if path_exists {
                r == Ok::<(), KvError>(())
            } else {
                r == Err::<(), KvError>(KvError::PathNotFound)
            },
            None => r == Ok::<(), KvError>(()),
        },
{
    match path_opt {
        Some(_) => {
            if path_exists {
                Ok(())
            } else {
                Err(KvError::PathNotFound)
            }
        },
        None => Ok(()),
    }
}

} // verus!
