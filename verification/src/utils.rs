use vstd::prelude::*;

use crate::error::EngineError;
use crate::grid::{hm, Grid};

verus! {

/// A grid of pool 1, committed Monday and Friday 08:00-09:00.
pub fn instance_grid_1() -> (r: Result<Grid, EngineError>)
    ensures
        r matches Ok(g) && g.pool_id == 1 && g.data == 0 && g.time_values@ == seq![
            Some((28800u32, 32400u32)),
            None,
            None,
            None,
            Some((28800u32, 32400u32)),
            None,
            None,
        ],
{
    let r = Grid::new(
        1,
        [
            Some((hm(8, 0), hm(9, 0))),
            None,
            None,
            None,
            Some((hm(8, 0), hm(9, 0))),
            None,
            None,
        ],
        0,
    );
    proof {
        assert(r matches Ok(g) && g.time_values@ =~= seq![
            Some((28800u32, 32400u32)),
            None,
            None,
            None,
            Some((28800u32, 32400u32)),
            None,
            None,
        ]);
    }
    r
}

/// A grid of pool 2, committed Monday 09:00-10:00 and Friday 07:00-08:00.
pub fn instance_grid_2() -> (r: Result<Grid, EngineError>)
    ensures
        r matches Ok(g) && g.pool_id == 2 && g.data == 0 && g.time_values@ == seq![
            Some((32400u32, 36000u32)),
            None,
            None,
            None,
            Some((25200u32, 28800u32)),
            None,
            None,
        ],
{
    let r = Grid::new(
        2,
        [
            Some((hm(9, 0), hm(10, 0))),
            None,
            None,
            None,
            Some((hm(7, 0), hm(8, 0))),
            None,
            None,
        ],
        0,
    );
    proof {
        assert(r matches Ok(g) && g.time_values@ =~= seq![
            Some((32400u32, 36000u32)),
            None,
            None,
            None,
            Some((25200u32, 28800u32)),
            None,
            None,
        ]);
    }
    r
}

/// A grid of pool 3, committed Monday 08:30-11:00 and Wednesday 12:00-13:45.
pub fn instance_grid_3() -> (r: Result<Grid, EngineError>)
    ensures
        r matches Ok(g) && g.pool_id == 3 && g.data == 0 && g.time_values@ == seq![
            Some((30600u32, 39600u32)),
            None,
            Some((43200u32, 49500u32)),
            None,
            None,
            None,
            None,
        ],
{
    let r = Grid::new(
        3,
        [
            Some((hm(8, 30), hm(11, 0))),
            None,
            Some((hm(12, 0), hm(13, 45))),
            None,
            None,
            None,
            None,
        ],
        0,
    );
    proof {
        assert(r matches Ok(g) && g.time_values@ =~= seq![
            Some((30600u32, 39600u32)),
            None,
            Some((43200u32, 49500u32)),
            None,
            None,
            None,
            None,
        ]);
    }
    r
}

/// A grid of pool 3, committed Tuesday and Thursday 16:30-18:30.
pub fn instance_grid_4() -> (r: Result<Grid, EngineError>)
    ensures
        r matches Ok(g) && g.pool_id == 3 && g.data == 0 && g.time_values@ == seq![
            None,
            Some((59400u32, 66600u32)),
            None,
            Some((59400u32, 66600u32)),
            None,
            None,
            None,
        ],
{
    let r = Grid::new(
        3,
        [
            None,
            Some((hm(16, 30), hm(18, 30))),
            None,
            Some((hm(16, 30), hm(18, 30))),
            None,
            None,
            None,
        ],
        0,
    );
    proof {
        assert(r matches Ok(g) && g.time_values@ =~= seq![
            None,
            Some((59400u32, 66600u32)),
            None,
            Some((59400u32, 66600u32)),
            None,
            None,
            None,
        ]);
    }
    r
}

/// A grid of pool 3, committed Tuesday 18:00-21:00 and Friday 07:00-09:00.
pub fn instance_grid_5() -> (r: Result<Grid, EngineError>)
    ensures
        r matches Ok(g) && g.pool_id == 3 && g.data == 0 && g.time_values@ == seq![
            None,
            Some((64800u32, 75600u32)),
            None,
            None,
            Some((25200u32, 32400u32)),
            None,
            None,
        ],
{
    let r = Grid::new(
        3,
        [
            None,
            Some((hm(18, 0), hm(21, 0))),
            None,
            None,
            Some((hm(7, 0), hm(9, 0))),
            None,
            None,
        ],
        0,
    );
    proof {
        assert(r matches Ok(g) && g.time_values@ =~= seq![
            None,
            Some((64800u32, 75600u32)),
            None,
            None,
            Some((25200u32, 32400u32)),
            None,
            None,
        ]);
    }
    r
}

} // verus!
