use vstd::prelude::*;

verus! {

/// A pair of log sinks driven as one: every record goes to both.
///
/// The pair itself is plain data; the wiring into a logging framework
/// lives with the embedding application.
pub struct CombineLoggers<T, U> {
    first: T,
    second: U,
}

impl<T, U> CombineLoggers<T, U> {
    pub closed spec fn spec_first(&self) -> T {
        self.first
    }

    pub closed spec fn spec_second(&self) -> U {
        self.second
    }

    /// Create a new `CombineLoggers`.
    pub fn new(first: T, second: U) -> (r: CombineLoggers<T, U>)
        ensures
            r.spec_first() == first,
            r.spec_second() == second,
    {
        CombineLoggers { first, second }
    }

    /// Get a reference to the first logger.
    pub fn first(&self) -> (r: &T)
        ensures
            *r == self.spec_first(),
    {
        &self.first
    }

    /// Get a reference to the second logger.
    pub fn second(&self) -> (r: &U)
        ensures
            *r == self.spec_second(),
    {
        &self.second
    }
}

} // verus!
