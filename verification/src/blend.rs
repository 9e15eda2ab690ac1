//! The lifecycle tag of a scene file: not available yet, downloaded to
//! disk, or optimized and ready for rendering.

use vstd::prelude::*;
use crate::blendfile::Blendfile;

verus! {

/// The states a scene file can be in.  Only `Optimized` scenes may drive
/// renderer dispatch.
#[derive(Debug)]
pub enum Blend {
    /// Optimized by the side-car script; ready for rendering.
    Optimized(Blendfile),
    /// On disk, not yet processed.
    Downloaded(Blendfile),
    /// Not available: the download or the directory lookup failed.
    Missing,
}

impl Blend {
    /// The record underneath, whichever present variant holds it.
    pub open spec fn spec_file(&self) -> Blendfile
        recommends
            !(self is Missing),
    {
        match self {
            Blend::Optimized(b) => *b,
            Blend::Downloaded(b) => *b,
            Blend::Missing => arbitrary(),
        }
    }

    /// The rank of the variant in the scene lifecycle; it never decreases
    /// within one lifetime of a job id.
    pub open spec fn rank(&self) -> int {
        match self {
            Blend::Missing => 0,
            Blend::Downloaded(_) => 1,
            Blend::Optimized(_) => 2,
        }
    }

    /// True when no scene file is available.
    pub fn is_none(&self) -> (r: bool)
        ensures
            r == (self is Missing),
    {
        match self {
            Blend::Missing => true,
            _ => false,
        }
    }

    /// True when a scene file is present, downloaded or optimized.
    pub fn is_some(&self) -> (r: bool)
        ensures
            r == !(self is Missing),
    {
        match self {
            Blend::Missing => false,
            _ => true,
        }
    }

    /// True for a scene that is on disk but not yet optimized.
    pub fn is_downloaded(&self) -> (r: bool)
        ensures
            r == (self is Downloaded),
    {
        match self {
            Blend::Downloaded(_) => true,
            _ => false,
        }
    }

    /// True for a scene that is ready for rendering.
    pub fn is_optimized(&self) -> (r: bool)
        ensures
            r == (self is Optimized),
    {
        match self {
            Blend::Optimized(_) => true,
            _ => false,
        }
    }

    /// Take the record out; the variant must hold one.
    pub fn unwrap(self) -> (r: Blendfile)
        requires
            !(self is Missing),
        ensures
            r == self.spec_file(),
    {
        match self {
            Blend::Downloaded(b) => b,
            Blend::Optimized(b) => b,
            Blend::Missing => unreached(),
        }
    }
}

} // verus!
