//! Version details of the user-space `perf` tool.
//!
//! The version decides which event-string syntax the tool accepts.  Whether
//! the sysfs format files for offcore responses and load latency exist is
//! detected by the caller and recorded here at construction.

use vstd::prelude::*;

verus! {

/// Details of the userspace `perf` tool version.
#[derive(Debug, Clone)]
pub struct PerfVersion {
    /// Major version.
    major: i32,
    /// Minor version.
    minor: i32,
    /// Whether the sysfs format file for offcore responses is present.
    offcore_format: bool,
    /// Whether the sysfs format file for load latency is present.
    ldlat_format: bool,
}

impl PerfVersion {
    /// Create a new PerfVersion structure directly.
    ///
    /// The sysfs format-file flags start out clear; `with_format_flags`
    /// records what the caller detected on its system.
    pub fn new(major: i32, minor: i32) -> (r: Self)
        ensures
            r.spec_major() == major,
            r.spec_minor() == minor,
            !r.spec_offcore_format(),
            !r.spec_ldlat_format(),
    {
        PerfVersion { major, minor, offcore_format: false, ldlat_format: false }
    }

    /// Record whether the sysfs format files for offcore responses and load
    /// latency were found on this system.
    pub fn with_format_flags(self, offcore_format: bool, ldlat_format: bool) -> (r: Self)
        ensures
            r.spec_major() == self.spec_major(),
            r.spec_minor() == self.spec_minor(),
            r.spec_offcore_format() == offcore_format,
            r.spec_ldlat_format() == ldlat_format,
    {
        PerfVersion { offcore_format, ldlat_format, ..self }
    }

    /// The stored major version.
    pub closed spec fn spec_major(&self) -> i32 {
        self.major
    }

    /// The stored minor version.
    pub closed spec fn spec_minor(&self) -> i32 {
        self.minor
    }

    /// The stored offcore format-file flag.
    pub closed spec fn spec_offcore_format(&self) -> bool {
        self.offcore_format
    }

    /// The stored load-latency format-file flag.
    pub closed spec fn spec_ldlat_format(&self) -> bool {
        self.ldlat_format
    }

    /// Get major version.
    pub fn major(&self) -> (r: i32)
        ensures
            r == self.spec_major(),
    {
        self.major
    }

    /// Get minor version.
    pub fn minor(&self) -> (r: i32)
        ensures
            r == self.spec_minor(),
    {
        self.minor
    }

    /// Allows for direct access.
    pub fn direct(&self) -> (r: bool)
        ensures
            r == (self.spec_minor() < 4),
    {
        self.minor < 4
    }

    /// Can have name attribute in event string.
    pub fn has_name(&self) -> (r: bool)
        ensures
            r == (self.spec_minor() >= 4),
    {
        self.minor >= 4
    }

    /// Allows setting offcore response.
    pub fn offcore(&self) -> (r: bool)
        ensures
            r == (self.spec_minor() >= 4 && self.spec_offcore_format()),
    {
        self.minor >= 4 && self.offcore_format
    }

    /// Allows setting load latency.
    pub fn ldlat(&self) -> (r: bool)
        ensures
            r == (self.spec_minor() >= 4 && self.spec_ldlat_format()),
    {
        self.minor >= 4 && self.ldlat_format
    }
}

} // verus!
