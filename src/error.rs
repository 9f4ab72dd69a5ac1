//! The error values of the runtime.
use vstd::prelude::*;

verus! {

/// Every failure that the runtime reports.
#[derive(Debug, Clone, Copy, PartialEq, Eq, Structural)]
pub enum AlienError {
    /// The target domain reports itself inactive.
    DomainCrash,
    /// The shared heap or the page allocator is exhausted.
    NoMemory,
    /// An alignment that is zero or not a power of two.
    InvalidLayout,
    /// A handle whose storage has been released.
    StaleHandle,
    /// A handle read with another type tag than it was allocated with.
    TypeMismatch,
    /// A handle released while direct accesses to it are still counted.
    Borrowed,
    /// An offset, length or counter outside its bounds.
    OutOfRange,
    /// A swap of the domain is already in flight on this proxy.
    SwapInProgress,
    /// The loader could not build a fresh domain instance.
    LoadFailed,
    /// The saved init resource does not fit the domain.
    InvalidResource,
    /// A kind-specific failure reported by a domain.
    Other,
}

/// The result type of the runtime.
pub type AlienResult<T> = Result<T, AlienError>;

} // verus!
