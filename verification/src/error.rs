use vstd::prelude::*;

verus! {

/// Every way a grid construction or an engine run can fail.
///
/// `ScheduleConflict` is also the internal signal that drives pruning during
/// the search; it is never surfaced by `engine_main`.
#[derive(Clone, Copy, Debug, PartialEq, Eq, Structural)]
pub enum EngineError {
    /// A populated day slot has its start after its end.
    InvalidTimeRange,
    /// A flattened 14-entry text input pairs an empty entry with a non-empty one.
    MalformedFlatInput,
    /// A non-empty text entry does not parse under the given format pattern.
    ParseError,
    /// The requested combination size exceeds the number of available pools.
    InvalidBound,
    /// Two pools share a pool id.
    DuplicatePoolId,
    /// Two seed grids overlap on some day.
    SeedConflict,
    /// A candidate grid overlaps an already accepted grid.
    ScheduleConflict,
    /// A search level offers no grid alternatives at all.
    EmptyStack,
}

} // verus!
