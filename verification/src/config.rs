//! The four options of a run, and the errors a run can report.

use vstd::prelude::*;

verus! {

/// Why a link or a whole run was refused.
#[derive(Clone, Copy, Debug, PartialEq, Eq, Structural)]
pub enum LinkError {
    /// `internal` and `external` were both asked for.
    ConfigError,
    /// A raw link could not be resolved against the base address.
    ResolutionError,
}

/// What a run is asked to do with the links it finds.
#[derive(Clone, Copy, Debug, PartialEq, Eq, Structural)]
pub struct PipelineConfig {
    /// Order the result ascending by the links' text.
    pub sort: bool,
    /// Reverse the result, after any sorting.
    pub reverse: bool,
    /// Keep only links of the base address's origin.
    pub internal: bool,
    /// Keep only links of another origin.
    pub external: bool,
}

impl PipelineConfig {
    /// The two origin filters exclude each other.
    pub open spec fn valid(&self) -> bool {
        !(self.internal && self.external)
    }

    /// Whether the origin filters keep a link, given whether its origin is that
    /// of the page: `internal` keeps only links of the page's origin, `external`
    /// only the others, and with neither set every link is kept.
    pub open spec fn keeps(&self, same_origin: bool) -> bool {
        &&& self.internal ==> same_origin
        &&& self.external ==> !same_origin
    }

    /// Decides whether the origin filters keep a link.
    pub fn admits(&self, same_origin: bool) -> (r: bool)
        ensures
            r == self.keeps(same_origin),
    {
        if self.internal && !same_origin {
            false
        } else if self.external && same_origin {
            false
        } else {
            true
        }
    }

    /// Accepts every combination of options but `internal` with `external`.
    pub fn validate(&self) -> (r: Result<(), LinkError>)
        ensures
            r is Ok <==> self.valid(),
            r is Err ==> r == Err::<(), LinkError>(LinkError::ConfigError),
    {
        if self.internal && self.external {
            Err(LinkError::ConfigError)
        } else {
            Ok(())
        }
    }
}

} // verus!
