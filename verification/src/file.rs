//! One hive file as the engine presents it.

use vstd::prelude::*;
use vstd::string::*;
use crate::error::{OpenError, RootError};
use crate::key::RegfKey;

verus! {

/// One hive file as the engine presents it: the path it was asked about,
/// its answers to the signature check, to the allocation of a handle and to
/// the open call, and the root key it hands out, if any.
#[derive(Debug)]
pub struct RegfFile {
    pub path: String,
    pub signature: bool,
    pub initialized: bool,
    pub opened: bool,
    pub root: Option<RegfKey>,
}

impl RegfFile {
    /// What opening `path` against this file gives. The signature check
    /// comes first and also fails for any other path, at which the engine
    /// found no hive; then the allocation; then the open call.
    pub open spec fn open_outcome(&self, path: Seq<char>) -> Result<(), OpenError> {
        if self.path@ != path || !self.signature {
            Err(OpenError::InvalidSignature)
        } else if !self.initialized {
            Err(OpenError::NativeInitFailure)
        } else if !self.opened {
            Err(OpenError::OpenFailure)
        } else {
            Ok(())
        }
    }

    /// Whether the file passed every step of opening.
    pub open spec fn is_open(&self) -> bool {
        self.signature && self.initialized && self.opened
    }

    /// The root key, which only an open file with a root hands out.
    pub open spec fn root_outcome(&self) -> Result<RegfKey, RootError> {
        if self.is_open() && self.root is Some {
            Ok(self.root->Some_0)
        } else {
            Err(RootError::RootUnavailable)
        }
    }

    /// Opens the hive at `path`: the file is handed back only if the
    /// engine found a hive signature at that path, allocated its handle and
    /// opened the file, in that order.
    pub fn open(path: &str, file: RegfFile) -> (r: Result<RegfFile, OpenError>)
        ensures
            match file.open_outcome(path@) {
                Ok(_) => r == Ok::<RegfFile, OpenError>(file),
                Err(e) => r == Err::<RegfFile, OpenError>(e),
            },
            r is Ok ==> r->Ok_0.is_open(),
    {
        let wanted = String::from_str(path);
        if !(file.path == wanted) || !file.signature {
            Err(OpenError::InvalidSignature)
        } else if !file.initialized {
            Err(OpenError::NativeInitFailure)
        } else if !file.opened {
            Err(OpenError::OpenFailure)
        } else {
            Ok(file)
        }
    }

    /// The root key of the hive.
    pub fn root_node(&self) -> (r: Result<&RegfKey, RootError>)
        ensures
            match self.root_outcome() {
                Ok(k) => r is Ok && *r->Ok_0 == k,
                Err(e) => r == Err::<&RegfKey, RootError>(e),
            },
    {
        if self.signature && self.initialized && self.opened {
            match &self.root {
                Some(k) => Ok(k),
                None => Err(RootError::RootUnavailable),
            }
        } else {
            Err(RootError::RootUnavailable)
        }
    }
}

} // verus!
