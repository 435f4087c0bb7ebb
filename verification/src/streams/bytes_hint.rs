//! A hint on the bytes remaining on a stream.

use vstd::prelude::*;

verus! {

/// Bounds on the remaining bytes of a stream: a lower bound and an
/// optional upper bound.
///
/// A `None` upper bound means the bound is unknown (or would not fit in
/// a `u64`).
#[derive(Clone, Copy, Debug, PartialEq, Eq, Structural)]
pub struct BytesHint(pub u64, pub Option<u64>);

impl BytesHint {
    /// A hint is well formed when its lower bound does not exceed its
    /// upper bound.
    pub open spec fn wf(self) -> bool {
        match self.1 {
            Some(upper) => self.0 <= upper,
            None => true,
        }
    }

    /// Builds a hint from a lower bound and an optional upper bound.
    pub fn new(lower_bound: u64, upper_bound: Option<u64>) -> (r: Self)
        ensures
            r == BytesHint(lower_bound, upper_bound),
    {
        BytesHint(lower_bound, upper_bound)
    }

    /// An exact number of bytes will be delivered.
    pub fn new_exact(bytes: u64) -> (r: Self)
        ensures
            r == BytesHint(bytes, Some(bytes)),
            r.is_exact_spec(),
    {
        BytesHint(bytes, Some(bytes))
    }

    /// At most `bytes` bytes will be delivered.
    pub fn new_at_max(bytes: u64) -> (r: Self)
        ensures
            r == BytesHint(0u64, Some(bytes)),
    {
        BytesHint(0, Some(bytes))
    }

    /// No hint at all: `(0, unknown)`.
    pub fn new_no_hint() -> (r: Self)
        ensures
            r == BytesHint(0u64, None::<u64>),
    {
        BytesHint(0, None)
    }

    /// The lower bound.
    pub fn lower_bound(&self) -> (r: u64)
        ensures
            r == self.0,
    {
        self.0
    }

    /// The upper bound; `None` means unknown.
    pub fn upper_bound(&self) -> (r: Option<u64>)
        ensures
            r == self.1,
    {
        self.1
    }

    /// Whether the hint pins the remaining bytes down exactly.
    pub open spec fn is_exact_spec(self) -> bool {
        self.1 == Some(self.0)
    }

    /// Returns whether lower and upper bound coincide.
    pub fn is_exact(&self) -> (r: bool)
        ensures
            r == self.is_exact_spec(),
    {
        match self.1 {
            Some(upper) => upper == self.0,
            None => false,
        }
    }

    /// The exact number of remaining bytes, if the hint is exact.
    pub fn exact(&self) -> (r: Option<u64>)
        ensures
            r == if self.is_exact_spec() {
                Some(self.0)
            } else {
                None::<u64>
            },
    {
        if self.is_exact() {
            self.1
        } else {
            None
        }
    }

    /// What reducing a hint by `by` delivered bytes means: each bound
    /// shrinks by `by`; a bound that would go negative degrades, the
    /// lower one to 0, the upper one to unknown.
    pub open spec fn reduce_by_spec(self, by: u64) -> BytesHint {
        if by == 0 {
            self
        } else {
            match self {
                BytesHint(min, None) => {
                    if min == 0 {
                        self
                    } else if min >= by {
                        BytesHint((min - by) as u64, None)
                    } else {
                        BytesHint(0u64, None)
                    }
                },
                BytesHint(min, Some(max)) => {
                    if min == 0 {
                        if max >= by {
                            BytesHint(0u64, Some((max - by) as u64))
                        } else {
                            BytesHint(0u64, None)
                        }
                    } else {
                        BytesHint(
                            if min >= by {
                                (min - by) as u64
                            } else {
                                0u64
                            },
                            if max >= by {
                                Some((max - by) as u64)
                            } else {
                                None
                            },
                        )
                    }
                },
            }
        }
    }

    /// `by` bytes have been delivered; shrink both bounds accordingly.
    pub fn reduce_by(&mut self, by: u64)
        ensures
            *final(self) == old(self).reduce_by_spec(by),
    {
        if by == 0 {
            return ;
        }
        match *self {
            BytesHint(min, None) => {
                if min == 0 {
                } else if min >= by {
                    *self = BytesHint(min - by, None);
                } else {
                    *self = BytesHint::new_no_hint();
                }
            },
            BytesHint(min, Some(max)) => {
                if min == 0 {
                    if max >= by {
                        *self = BytesHint(0, Some(max - by));
                    } else {
                        *self = BytesHint::new_no_hint();
                    }
                } else {
                    let new_min = if min >= by {
                        min - by
                    } else {
                        0
                    };
                    if max >= by {
                        *self = BytesHint(new_min, Some(max - by));
                    } else {
                        *self = BytesHint(new_min, None);
                    }
                }
            },
        }
    }

    /// Adds the bounds of two hints; the sum of an unknown upper bound
    /// and anything is unknown.
    pub fn combine(self, other: BytesHint) -> (r: BytesHint)
        requires
            self.0 + other.0 <= u64::MAX,
            self.1 matches Some(a) && other.1 matches Some(b) ==> a + b <= u64::MAX,
        ensures
            r.0 == self.0 + other.0,
            r.1 == match (self.1, other.1) {
                (Some(a), Some(b)) => Some((a + b) as u64),
                _ => None::<u64>,
            },
    {
        let lower_bound = self.0 + other.0;
        let upper_bound = match (self.1, other.1) {
            (Some(a), Some(b)) => Some(a + b),
            _ => None,
        };
        BytesHint(lower_bound, upper_bound)
    }

    /// Turns this hint into its two bounds.
    pub fn into_inner(self) -> (r: (u64, Option<u64>))
        ensures
            r == (self.0, self.1),
    {
        (self.0, self.1)
    }
}

} // verus!
