//! Ranges of a download request and their resolution against the object size.
//!
//! A caller asks for one of: the complete object, a closed inclusive range,
//! everything from an offset on, or the last so-many bytes. Open forms need
//! the object size to be resolved; a closed form needs it only when the
//! configured mode asks for the upper bound to be clamped to the object's
//! true end.

use vstd::prelude::*;

use crate::errors::CondowError;

verus! {

/// An absolute, non-empty, inclusive byte range `[start, end]` of the BLOB.
#[derive(Clone, Copy, Debug, PartialEq, Eq, Structural)]
pub struct InclusiveRange(pub u64, pub u64);

impl InclusiveRange {
    /// A range is well formed when it is non-empty and its length fits in
    /// a `u64`.
    pub open spec fn wf(self) -> bool {
        self.0 <= self.1 && self.1 < u64::MAX
    }

    /// The number of bytes the range spans.
    pub open spec fn len_spec(self) -> int {
        self.1 - self.0 + 1
    }

    /// First byte of the range.
    pub fn start(&self) -> (r: u64)
        ensures
            r == self.0,
    {
        self.0
    }

    /// Last byte of the range, inclusive.
    pub fn end_incl(&self) -> (r: u64)
        ensures
            r == self.1,
    {
        self.1
    }

    /// The number of bytes the range spans.
    pub fn len(&self) -> (r: u64)
        requires
            self.wf(),
        ensures
            r == self.len_spec(),
    {
        self.1 - self.0 + 1
    }
}

/// What a caller may ask to download.
#[derive(Clone, Copy, Debug, PartialEq, Eq, Structural)]
pub enum DownloadRange {
    /// The whole object.
    Complete,
    /// The closed inclusive range `[a, b]`.
    Closed(u64, u64),
    /// Everything from offset `a` to the end of the object.
    From(u64),
    /// The last `n` bytes of the object.
    Suffix(u64),
}

/// When the download orchestrator queries the object size.
#[derive(Clone, Copy, Debug, PartialEq, Eq, Structural)]
pub enum GetSizeMode {
    /// Query the size even for closed ranges, so an over-long upper bound
    /// can be clamped to the object's true end.
    Always,
    /// Query the size only when an open or suffix range requires it.
    Required,
    /// Defer to the orchestrator's configuration.
    Default,
}

impl GetSizeMode {
    /// Whether this mode forces a size query, given the configured default.
    pub open spec fn is_load_size_enforced_spec(self, always_by_default: bool) -> bool {
        match self {
            GetSizeMode::Always => true,
            GetSizeMode::Required => false,
            GetSizeMode::Default => always_by_default,
        }
    }

    /// Returns whether a size query is forced even for closed ranges.
    pub fn is_load_size_enforced(self, always_by_default: bool) -> (r: bool)
        ensures
            r == self.is_load_size_enforced_spec(always_by_default),
    {
        match self {
            GetSizeMode::Always => true,
            GetSizeMode::Required => false,
            GetSizeMode::Default => always_by_default,
        }
    }
}

impl Default for GetSizeMode {
    /// The default mode defers to the orchestrator's configuration.
    fn default() -> (r: Self)
        ensures
            r == GetSizeMode::Default,
    {
        GetSizeMode::Default
    }
}

impl DownloadRange {
    /// A range request is valid when a closed range is non-empty and its
    /// upper bound leaves room for an inclusive length in `u64`.
    pub open spec fn valid_spec(self) -> bool {
        match self {
            DownloadRange::Closed(a, b) => a <= b && b < u64::MAX,
            _ => true,
        }
    }

    /// Rejects invalid closed ranges.
    pub fn validate(&self) -> (r: Result<(), CondowError>)
        ensures
            r is Ok <==> self.valid_spec(),
            r matches Err(e) ==> e.kind_spec() == crate::errors::CondowErrorKind::InvalidRange,
    {
        match self {
            DownloadRange::Closed(a, b) => {
                if a > b {
                    Err(CondowError::new_invalid_range("start of range is past its end"))
                } else if *b == u64::MAX {
                    Err(CondowError::new_invalid_range("upper bound of range too large"))
                } else {
                    Ok(())
                }
            },
            _ => Ok(()),
        }
    }

    /// Whether this request can only be resolved with the object size.
    pub open spec fn requires_size_spec(self) -> bool {
        !(self is Closed)
    }

    /// Whether resolving this request will query the object size under the
    /// given mode and configured default.
    pub open spec fn needs_size_spec(self, mode: GetSizeMode, always_by_default: bool) -> bool {
        self.requires_size_spec() || mode.is_load_size_enforced_spec(always_by_default)
    }

    /// Returns whether resolution must query the object size.
    pub fn needs_size(&self, mode: GetSizeMode, always_by_default: bool) -> (r: bool)
        ensures
            r == self.needs_size_spec(mode, always_by_default),
    {
        match self {
            DownloadRange::Closed(_, _) => mode.is_load_size_enforced(always_by_default),
            _ => true,
        }
    }

    /// What this request means against an object of `size` bytes:
    /// `None` for an empty effective range, otherwise the absolute range,
    /// clamped to the object's end.
    pub open spec fn resolve_with_size_spec(self, size: u64) -> Option<InclusiveRange> {
        match self {
            DownloadRange::Complete => {
                if size == 0 {
                    None
                } else {
                    Some(InclusiveRange(0, (size - 1) as u64))
                }
            },
            DownloadRange::Closed(a, b) => {
                if size == 0 || a >= size {
                    None
                } else if b >= size {
                    Some(InclusiveRange(a, (size - 1) as u64))
                } else {
                    Some(InclusiveRange(a, b))
                }
            },
            DownloadRange::From(a) => {
                if size == 0 || a >= size {
                    None
                } else {
                    Some(InclusiveRange(a, (size - 1) as u64))
                }
            },
            DownloadRange::Suffix(n) => {
                if size == 0 || n == 0 {
                    None
                } else if n >= size {
                    Some(InclusiveRange(0, (size - 1) as u64))
                } else {
                    Some(InclusiveRange((size - n) as u64, (size - 1) as u64))
                }
            },
        }
    }

    /// Resolves this request against the object size.
    pub fn resolve_with_size(&self, size: u64) -> (r: Option<InclusiveRange>)
        requires
            self.valid_spec(),
        ensures
            r == self.resolve_with_size_spec(size),
            r matches Some(rng) ==> rng.wf() && rng.1 < size,
    {
        match self {
            DownloadRange::Complete => {
                if size == 0 {
                    None
                } else {
                    Some(InclusiveRange(0, size - 1))
                }
            },
            DownloadRange::Closed(a, b) => {
                if size == 0 || *a >= size {
                    None
                } else if *b >= size {
                    Some(InclusiveRange(*a, size - 1))
                } else {
                    Some(InclusiveRange(*a, *b))
                }
            },
            DownloadRange::From(a) => {
                if size == 0 || *a >= size {
                    None
                } else {
                    Some(InclusiveRange(*a, size - 1))
                }
            },
            DownloadRange::Suffix(n) => {
                if size == 0 || *n == 0 {
                    None
                } else if *n >= size {
                    Some(InclusiveRange(0, size - 1))
                } else {
                    Some(InclusiveRange(size - *n, size - 1))
                }
            },
        }
    }

    /// What a closed request means when the size was not queried: taken
    /// as given.
    pub open spec fn resolve_unchecked_spec(self) -> Option<InclusiveRange> {
        match self {
            DownloadRange::Closed(a, b) => Some(InclusiveRange(a, b)),
            _ => None,
        }
    }

    /// Resolves a closed request without a size query.
    pub fn resolve_unchecked(&self) -> (r: Option<InclusiveRange>)
        requires
            self.valid_spec(),
            !self.requires_size_spec(),
        ensures
            r == self.resolve_unchecked_spec(),
            r matches Some(rng) ==> rng.wf(),
    {
        match self {
            DownloadRange::Closed(a, b) => Some(InclusiveRange(*a, *b)),
            _ => None,
        }
    }
}

} // verus!
