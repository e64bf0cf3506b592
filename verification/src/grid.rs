use vstd::prelude::*;

use chrono::Timelike;

use crate::error::EngineError;

verus! {

/// A commitment on one day: start and end of day, each in seconds since
/// midnight. Well-formed ranges satisfy start <= end.
pub type TimeRange = (u32, u32);

/// The seven weekdays. The ordinal order Monday = 0 .. Sunday = 6 is part of
/// the iteration-order contract of the engine.
#[derive(Clone, Copy, Debug, PartialEq, Eq, Structural)]
pub enum Day {
    Monday,
    Tuesday,
    Wednesday,
    Thursday,
    Friday,
    Saturday,
    Sunday,
}

/// The fixed ordinal of a weekday, Monday = 0 through Sunday = 6.
pub open spec fn day_ordinal(d: Day) -> int {
    match d {
        Day::Monday => 0,
        Day::Tuesday => 1,
        Day::Wednesday => 2,
        Day::Thursday => 3,
        Day::Friday => 4,
        Day::Saturday => 5,
        Day::Sunday => 6,
    }
}

impl Day {
    /// The fixed ordinal of this weekday, Monday = 0 through Sunday = 6.
    pub fn ordinal(&self) -> (r: usize)
        ensures
            r == day_ordinal(*self),
    {
        match self {
            Day::Monday => 0,
            Day::Tuesday => 1,
            Day::Wednesday => 2,
            Day::Thursday => 3,
            Day::Friday => 4,
            Day::Saturday => 5,
            Day::Sunday => 6,
        }
    }

    /// The weekday with the given ordinal.
    pub fn from_ordinal(d: usize) -> (r: Day)
        requires
            d < 7,
        ensures
            day_ordinal(r) == d,
    {
        if d == 0 {
            Day::Monday
        } else if d == 1 {
            Day::Tuesday
        } else if d == 2 {
            Day::Wednesday
        } else if d == 3 {
            Day::Thursday
        } else if d == 4 {
            Day::Friday
        } else if d == 5 {
            Day::Saturday
        } else {
            Day::Sunday
        }
    }
}

/// The time of day `hours:minutes`, in seconds since midnight.
pub fn hm(hours: u32, minutes: u32) -> (r: u32)
    requires
        hours < 24,
        minutes < 60,
    ensures
        r == 3600 * hours + 60 * minutes,
{
    3600 * hours + 60 * minutes
}

/// Two ranges on the same day are compatible iff one ends at or before the
/// other begins; touching endpoints count as compatible.
pub open spec fn ranges_compatible(a: TimeRange, b: TimeRange) -> bool {
    a.1 <= b.0 || a.0 >= b.1
}

/// A populated slot must not end before it starts.
pub open spec fn slot_wf(s: Option<TimeRange>) -> bool {
    s matches Some(r) ==> r.0 <= r.1
}

/// Every populated slot of a 7-day slot sequence is well-formed.
pub open spec fn slots_wf(s: Seq<Option<TimeRange>>) -> bool {
    forall|i: int| 0 <= i < s.len() ==> slot_wf(#[trigger] s[i])
}

/// One concrete weekly commitment option: an optional time range per weekday,
/// indexed by day ordinal, plus the id of the pool it belongs to and an
/// opaque payload the engine never inspects.
#[derive(Clone, Copy, Debug, PartialEq, Eq)]
pub struct Grid {
    pub time_values: [Option<TimeRange>; 7],
    /// Used for checking if a grid belongs to a pool.
    pub pool_id: u64,
    /// An opaque key under which the caller files whatever describes this
    /// grid instance (a teacher, a subject); never read by the engine.
    pub data: u64,
}

/// Every populated day slot of the grid satisfies start <= end.
pub open spec fn grid_wf(g: Grid) -> bool {
    slots_wf(g.time_values@)
}

/// The grid either has no commitment on the day with ordinal `day`, or its
/// committed range is compatible with `range`.
pub open spec fn spec_free_at(g: Grid, day: int, range: TimeRange) -> bool
    recommends
        0 <= day < 7,
{
    match g.time_values@[day] {
        Some(r) => ranges_compatible(r, range),
        None => true,
    }
}

impl Grid {
    /// Builds a grid from an already-typed slot array, rejecting any
    /// populated slot whose start lies after its end.
    pub fn new(pool_id: u64, time_values: [Option<TimeRange>; 7], data: u64) -> (r: Result<
        Grid,
        EngineError,
    >)
        ensures
            match r {
                Ok(g) => g == (Grid { time_values, pool_id, data }) && grid_wf(g),
                Err(e) => e == EngineError::InvalidTimeRange && !slots_wf(time_values@),
            },
    {
        let mut i: usize = 0;
        while i < 7
            invariant
                i <= 7,
                forall|d: int| 0 <= d < i ==> slot_wf(#[trigger] time_values@[d]),
            decreases 7 - i,
        {
            if let Some(r) = time_values[i] {
                if r.0 > r.1 {
                    assert(!slot_wf(time_values@[i as int]));
                    return Err(EngineError::InvalidTimeRange);
                }
            }
            i += 1;
        }
        Ok(Grid { pool_id, data, time_values })
    }

    /// Whether this grid is free on `day` for the whole of `time_range`:
    /// true iff the day is uncommitted or the committed range ends at or
    /// before `time_range` begins or starts at or after it ends.
    pub fn free_at(&self, day: &Day, time_range: &TimeRange) -> (r: bool)
        ensures
            r == spec_free_at(*self, day_ordinal(*day), *time_range),
    {
        match self.time_values[day.ordinal()] {
            Some((my_start, my_end)) => {
                let (start, end) = *time_range;
                my_end <= start || my_start >= end
            },
            None => true,
        }
    }
}

/// What `chrono::NaiveTime::parse_from_str` yields on the given text under
/// the given format pattern, floored to whole seconds since midnight, or
/// `None` where parsing fails. The outcome depends on the two strings alone.
pub uninterp spec fn spec_parse_time(s: Seq<char>, fmt: Seq<char>) -> Option<u32>;

/// Relies on `chrono::NaiveTime::parse_from_str`, whose result is a function
/// of the text and the format pattern alone, and on
/// `chrono::Timelike::num_seconds_from_midnight`, which maps every time of
/// day to its second within 0..86400.
#[verifier::external_body]
fn parse_time_of_day(s: &str, fmt: &str) -> (r: Option<u32>)
    ensures
        r == spec_parse_time(s@, fmt@),
        r matches Some(v) ==> v < 86400,
{
    match chrono::NaiveTime::parse_from_str(s, fmt) {
        Ok(t) => Some(t.num_seconds_from_midnight()),
        Err(_) => None,
    }
}

/// The outcome of one day's (begin, end) text pair: no commitment for a pair
/// of empty entries, `MalformedFlatInput` where exactly one entry is empty,
/// `ParseError` where an entry does not parse under `fmt`, and the parsed
/// range otherwise.
pub open spec fn spec_parse_pair(begin: Seq<char>, end: Seq<char>, fmt: Seq<char>) -> Result<
    Option<TimeRange>,
    EngineError,
> {
    if begin.len() == 0 && end.len() == 0 {
        Ok(None)
    } else if begin.len() == 0 || end.len() == 0 {
        Err(EngineError::MalformedFlatInput)
    } else {
        match spec_parse_time(begin, fmt) {
            None => Err(EngineError::ParseError),
            Some(b) => match spec_parse_time(end, fmt) {
                None => Err(EngineError::ParseError),
                Some(e) => Ok(Some((b, e))),
            },
        }
    }
}

/// The outcome of day `d`'s text pair inside a flattened 14-entry input,
/// Monday-first, two entries per day.
pub open spec fn pair_at(texts: Seq<Seq<char>>, fmt: Seq<char>, d: int) -> Result<
    Option<TimeRange>,
    EngineError,
>
    recommends
        0 <= d < 7,
        texts.len() == 14,
{
    spec_parse_pair(texts[2 * d], texts[2 * d + 1], fmt)
}

/// The first per-pair failure at or after day `d`, if any.
pub open spec fn first_pair_error(texts: Seq<Seq<char>>, fmt: Seq<char>, d: int) -> Result<
    (),
    EngineError,
>
    decreases 7 - d,
{
    if d < 0 || d >= 7 {
        Ok(())
    } else {
        match pair_at(texts, fmt, d) {
            Err(e) => Err(e),
            Ok(_) => first_pair_error(texts, fmt, d + 1),
        }
    }
}

/// Every day pair that parses yields a well-formed slot.
pub open spec fn parsed_slots_wf(texts: Seq<Seq<char>>, fmt: Seq<char>) -> bool {
    forall|d: int|
        0 <= d < 7 ==> (#[trigger] pair_at(texts, fmt, d) matches Ok(s) ==> slot_wf(s))
}

proof fn lemma_first_pair_error_skip(texts: Seq<Seq<char>>, fmt: Seq<char>, d: int, j: int)
    requires
        0 <= d <= j <= 7,
        forall|dd: int| d <= dd < j ==> (#[trigger] pair_at(texts, fmt, dd)) is Ok,
    ensures
        first_pair_error(texts, fmt, d) == first_pair_error(texts, fmt, j),
    decreases j - d,
{
    if d < j {
        lemma_first_pair_error_skip(texts, fmt, d + 1, j);
    }
}

impl Grid {
    /// Parses one day's (begin, end) text pair under the format pattern.
    fn parse_day_pair(begin: &String, end: &String, fmt: &str) -> (r: Result<
        Option<TimeRange>,
        EngineError,
    >)
        ensures
            r == spec_parse_pair(begin@, end@, fmt@),
    {
        if begin.as_str().is_empty() && end.as_str().is_empty() {
            Ok(None)
        } else if begin.as_str().is_empty() || end.as_str().is_empty() {
            Err(EngineError::MalformedFlatInput)
        } else {
            match parse_time_of_day(begin.as_str(), fmt) {
                None => Err(EngineError::ParseError),
                Some(b) => match parse_time_of_day(end.as_str(), fmt) {
                    None => Err(EngineError::ParseError),
                    Some(e) => Ok(Some((b, e))),
                },
            }
        }
    }

    /// Builds a grid from 14 text entries, two per day, Monday-first, each
    /// non-empty entry parsed as a time of day under the format pattern
    /// `fmt`. A day with two empty entries carries no commitment; a day with
    /// exactly one empty entry is malformed. Parsed slots are then validated
    /// as in [`Grid::new`].
    pub fn from_vec(id: u64, time_values_vec: [String; 14], fmt: &str, data: u64) -> (r: Result<
        Grid,
        EngineError,
    >)
        ensures
            ({
                let texts = time_values_vec.deep_view();
                match r {
                    Ok(g) => first_pair_error(texts, fmt@, 0) == Ok::<(), EngineError>(())
                        && parsed_slots_wf(texts, fmt@) && grid_wf(g) && g.pool_id == id
                        && g.data == data && forall|d: int|
                        0 <= d < 7 ==> #[trigger] pair_at(texts, fmt@, d) == Ok::<
                            Option<TimeRange>,
                            EngineError,
                        >(g.time_values@[d]),
                    Err(e) => match first_pair_error(texts, fmt@, 0) {
                        Err(e0) => e == e0,
                        Ok(_) => e == EngineError::InvalidTimeRange && !parsed_slots_wf(
                            texts,
                            fmt@,
                        ),
                    },
                }
            }),
    {
        let ghost texts = time_values_vec.deep_view();
        let mut time_values: [Option<TimeRange>; 7] = [None; 7];
        let mut j: usize = 0;
        while j < 7
            invariant
                j <= 7,
                texts == time_values_vec.deep_view(),
                forall|d: int|
                    0 <= d < j ==> #[trigger] pair_at(texts, fmt@, d) == Ok::<
                        Option<TimeRange>,
                        EngineError,
                    >(time_values@[d]),
            decreases 7 - j,
        {
            proof {
                assert(texts[2 * j] == time_values_vec@[2 * j]@);
                assert(texts[2 * j + 1] == time_values_vec@[2 * j + 1]@);
            }
            match Self::parse_day_pair(&time_values_vec[2 * j], &time_values_vec[2 * j + 1], fmt) {
                Ok(slot) => {
                    time_values[j] = slot;
                },
                Err(e) => {
                    proof {
                        lemma_first_pair_error_skip(texts, fmt@, 0, j as int);
                    }
                    return Err(e);
                },
            }
            j += 1;
        }
        proof {
            lemma_first_pair_error_skip(texts, fmt@, 0, 7);
        }
        match Self::new(id, time_values, data) {
            Ok(g) => {
                assert(parsed_slots_wf(texts, fmt@)) by {
                    assert(forall|d: int|
                        0 <= d < 7 ==> #[trigger] pair_at(texts, fmt@, d) == Ok::<
                            Option<TimeRange>,
                            EngineError,
                        >(time_values@[d]));
                }
                Ok(g)
            },
            Err(e) => {
                proof {
                    let bad = choose|i: int| 0 <= i < 7 && !slot_wf(#[trigger] time_values@[i]);
                    assert(pair_at(texts, fmt@, bad) == Ok::<Option<TimeRange>, EngineError>(
                        time_values@[bad],
                    ));
                    assert(!parsed_slots_wf(texts, fmt@));
                }
                Err(e)
            },
        }
    }
}

/// An ordered list of mutually exclusive grid alternatives.
pub type GridList = Vec<Grid>;

/// A named, ordered collection of mutually exclusive grid alternatives:
/// a search branch picks at most one of them.
#[derive(Debug)]
pub struct Pool {
    pub grid_list: GridList,
    pub pool_id: u64,
}

impl Pool {
    /// An empty pool under the given id.
    pub fn new(pool_id: u64) -> (r: Pool)
        ensures
            r.pool_id == pool_id,
            r.grid_list@ == Seq::<Grid>::empty(),
    {
        Pool { grid_list: Vec::new(), pool_id }
    }

    /// Appends one more alternative to the pool.
    pub fn push(&mut self, grid: Grid)
        ensures
            final(self).pool_id == old(self).pool_id,
            final(self).grid_list@ == old(self).grid_list@.push(grid),
    {
        self.grid_list.push(grid);
    }
}

/// A payload description that a caller may file behind `Grid::data`:
/// a subject name together with its id. The engine never reads it.
#[derive(Debug)]
pub struct Subject {
    pub name: String,
    pub subject_id: String,
}

/// Grid `a` leaves grid `b` free on the day with ordinal `d`: either `a` has
/// no commitment that day, or `b` is free for `a`'s committed range.
pub open spec fn slot_free_at(a: Grid, b: Grid, d: int) -> bool
    recommends
        0 <= d < 7,
{
    match a.time_values@[d] {
        Some(r) => spec_free_at(b, d, r),
        None => true,
    }
}

/// Grids `a` and `b` have no overlapping commitments on any day of the week.
pub open spec fn grids_compatible(a: Grid, b: Grid) -> bool {
    forall|d: int| 0 <= d < 7 ==> #[trigger] slot_free_at(a, b, d)
}

/// Grid `g` conflicts with none of the accepted grids in `grids`.
pub open spec fn can_merge(grids: Seq<Grid>, g: Grid) -> bool {
    forall|i: int| 0 <= i < grids.len() ==> grids_compatible(#[trigger] grids[i], g)
}

/// The schedule invariant: every two accepted grids are compatible.
pub open spec fn schedule_ok(grids: Seq<Grid>) -> bool {
    forall|i: int, j: int|
        0 <= i < j < grids.len() ==> grids_compatible(#[trigger] grids[i], #[trigger] grids[j])
}

/// An accumulating, conflict-checked list of accepted grids, in acceptance
/// order. Mutated only through the atomic [`Schedule::try_merge`] and the
/// single-step undo [`Schedule::remove_last_added`].
#[derive(Debug)]
pub struct Schedule {
    grids: Vec<Grid>,
}

impl View for Schedule {
    type V = Seq<Grid>;

    closed spec fn view(&self) -> Seq<Grid> {
        self.grids@
    }
}

impl Schedule {
    /// An empty schedule.
    pub fn new() -> (r: Schedule)
        ensures
            r@ == Seq::<Grid>::empty(),
    {
        Schedule { grids: Vec::new() }
    }

    /// The number of accepted grids.
    pub fn len(&self) -> (r: usize)
        ensures
            r == self@.len(),
    {
        self.grids.len()
    }

    /// The accepted grids, in acceptance order.
    pub fn grids(&self) -> (r: &Vec<Grid>)
        ensures
            r@ == self@,
    {
        &self.grids
    }

    /// An independent copy of this schedule.
    pub fn snapshot(&self) -> (r: Schedule)
        ensures
            r@ == self@,
    {
        let mut grids: Vec<Grid> = Vec::new();
        let n = self.grids.len();
        let mut i: usize = 0;
        while i < n
            invariant
                i <= n,
                n == self.grids@.len(),
                grids@ == self.grids@.take(i as int),
            decreases n - i,
        {
            grids.push(self.grids[i]);
            proof {
                assert(self.grids@.take(i + 1) =~= self.grids@.take(i as int).push(
                    self.grids@[i as int],
                ));
            }
            i += 1;
        }
        proof {
            assert(self.grids@.take(n as int) =~= self.grids@);
        }
        Schedule { grids }
    }

    /// Atomically accepts `grid` if it conflicts with no accepted grid, and
    /// otherwise fails with `ScheduleConflict`, leaving the accepted list
    /// untouched in length and order.
    pub fn try_merge(&mut self, grid: &Grid) -> (r: Result<(), EngineError>)
        ensures
            match r {
                Ok(_) => can_merge(old(self)@, *grid) && final(self)@ == old(self)@.push(*grid),
                Err(e) => e == EngineError::ScheduleConflict && !can_merge(old(self)@, *grid)
                    && final(self)@ == old(self)@,
            },
            schedule_ok(old(self)@) ==> schedule_ok(final(self)@),
    {
        let ghost gs = self.grids@;
        let mut d: usize = 0;
        while d < 7
            invariant
                d <= 7,
                self.grids@ == gs,
                forall|i: int, dd: int|
                    0 <= i < gs.len() && 0 <= dd < d ==> #[trigger] slot_free_at(
                        gs[i],
                        *grid,
                        dd,
                    ),
            decreases 7 - d,
        {
            let day = Day::from_ordinal(d);
            let mut i: usize = 0;
            let n = self.grids.len();
            while i < n
                invariant
                    i <= n,
                    d < 7,
                    day_ordinal(day) == d,
                    self.grids@ == gs,
                    n == gs.len(),
                    forall|ii: int, dd: int|
                        0 <= ii < gs.len() && 0 <= dd < d ==> #[trigger] slot_free_at(
                            gs[ii],
                            *grid,
                            dd,
                        ),
                    forall|ii: int|
                        0 <= ii < i ==> #[trigger] slot_free_at(gs[ii], *grid, d as int),
                decreases n - i,
            {
                if let Some(time_values) = self.grids[i].time_values[d] {
                    if !grid.free_at(&day, &time_values) {
                        proof {
                            assert(!slot_free_at(gs[i as int], *grid, d as int));
                            assert(!grids_compatible(gs[i as int], *grid));
                        }
                        return Err(EngineError::ScheduleConflict);
                    }
                }
                i += 1;
            }
            d += 1;
        }
        assert forall|i: int| 0 <= i < gs.len() implies grids_compatible(#[trigger] gs[i], *grid) by {
            assert(forall|dd: int| 0 <= dd < 7 ==> #[trigger] slot_free_at(gs[i], *grid, dd));
        }
        self.grids.push(*grid);
        proof {
            assert(schedule_ok(gs) ==> schedule_ok(gs.push(*grid))) by {
                if schedule_ok(gs) {
                    assert forall|i: int, j: int|
                        0 <= i < j < gs.push(*grid).len() implies grids_compatible(
                        #[trigger] gs.push(*grid)[i],
                        #[trigger] gs.push(*grid)[j],
                    ) by {
                        if j < gs.len() {
                            assert(grids_compatible(gs[i], gs[j]));
                        } else {
                            assert(grids_compatible(gs[i], *grid));
                        }
                    }
                }
            }
        }
        Ok(())
    }

    /// Pops the most recently accepted grid, if any.
    pub fn remove_last_added(&mut self) -> (r: Option<Grid>)
        ensures
            old(self)@.len() == 0 ==> r is None && final(self)@ == old(self)@,
            old(self)@.len() > 0 ==> r == Some(old(self)@.last()) && final(self)@ == old(
                self,
            )@.drop_last(),
    {
        self.grids.pop()
    }
}

/// Undoing directly after a successful merge restores the state before it:
/// if `try_merge` extended the accepted list `grids` to `grids.push(g)`, then
/// `remove_last_added` hands back exactly `g` and leaves exactly `grids`.
pub proof fn lemma_remove_last_undoes_merge(grids: Seq<Grid>, g: Grid)
    ensures
        grids.push(g).drop_last() == grids,
        grids.push(g).last() == g,
{
    assert(grids.push(g).drop_last() =~= grids);
}

} // verus!

