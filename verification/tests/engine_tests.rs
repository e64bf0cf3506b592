use schedule_engine::engine::{engine_main, EngineParams};
use schedule_engine::error::EngineError;
use schedule_engine::grid::{hm, Grid, Pool};
use schedule_engine::utils::{instance_grid_1, instance_grid_2, instance_grid_5};

fn s(t: &str) -> String {
    t.to_string()
}

fn one_day_grid(pool_id: u64, day: usize, from: u32, to: u32, data: u64) -> Grid {
    let mut slots = [None; 7];
    slots[day] = Some((from, to));
    Grid::new(pool_id, slots, data).unwrap()
}

#[test]
fn test_engine() {
    let vec_a1 = [
        s("19:00"),
        s("20:30"),
        s(""),
        s(""),
        s("19:00"),
        s("20:30"),
        s(""),
        s(""),
        s(""),
        s(""),
        s(""),
        s(""),
        s(""),
        s(""),
    ];
    let grid_a1 = Grid::from_vec(1, vec_a1, "%H:%M", 1).unwrap();

    let vec_a2 = [
        s(""),
        s(""),
        s("10:00"),
        s("11:30"),
        s(""),
        s(""),
        s("10:00"),
        s("11:30"),
        s(""),
        s(""),
        s(""),
        s(""),
        s(""),
        s(""),
    ];
    let grid_a2 = Grid::from_vec(1, vec_a2, "%H:%M", 2).unwrap();

    let mut pool_a = Pool::new(1);
    pool_a.push(grid_a1);
    pool_a.push(grid_a2);

    let vec_b1 = [
        s("13:00"),
        s("15:00"),
        s(""),
        s(""),
        s("13:00"),
        s("15:00"),
        s(""),
        s(""),
        s(""),
        s(""),
        s(""),
        s(""),
        s(""),
        s(""),
    ];
    let grid_b1 = Grid::from_vec(2, vec_b1, "%H:%M", 1).unwrap();

    let vec_b2 = [
        s(""),
        s(""),
        s(""),
        s(""),
        s(""),
        s(""),
        s("18:00"),
        s("20:00"),
        s(""),
        s(""),
        s("9:00"),
        s("11:00"),
        s(""),
        s(""),
    ];
    let grid_b2 = Grid::from_vec(2, vec_b2, "%H:%M", 2).unwrap();

    let vec_b3 = [
        s("7:00"),
        s("9:00"),
        s(""),
        s(""),
        s("7:00"),
        s("9:00"),
        s(""),
        s(""),
        s(""),
        s(""),
        s(""),
        s(""),
        s(""),
        s(""),
    ];
    let grid_b3 = Grid::from_vec(2, vec_b3, "%H:%M", 3).unwrap();

    let mut pool_b = Pool::new(2);
    pool_b.push(grid_b1);
    pool_b.push(grid_b2);
    pool_b.push(grid_b3);

    let params = EngineParams { seeds: vec![], bound: 2, pool_list: vec![pool_a, pool_b] };

    let result = engine_main(params);

    let schedule_list = result.unwrap();

    assert_eq!(schedule_list.len(), 6);
}

#[test]
fn fixture_pairings_are_distinct() {
    // The same fixture as test_engine, with the payload identifying each grid.
    let a = [
        one_day_grid(1, 0, hm(19, 0), hm(20, 30), 1),
        one_day_grid(1, 2, hm(10, 0), hm(11, 30), 2),
    ];
    let b = [
        one_day_grid(2, 0, hm(13, 0), hm(15, 0), 1),
        one_day_grid(2, 5, hm(9, 0), hm(11, 0), 2),
        one_day_grid(2, 0, hm(7, 0), hm(9, 0), 3),
    ];
    let mut pool_a = Pool::new(1);
    for g in a {
        pool_a.push(g);
    }
    let mut pool_b = Pool::new(2);
    for g in b {
        pool_b.push(g);
    }
    let params = EngineParams { seeds: vec![], bound: 2, pool_list: vec![pool_a, pool_b] };
    let schedules = engine_main(params).unwrap();
    assert_eq!(schedules.len(), 6);

    let mut pairings: Vec<(u64, u64)> = Vec::new();
    for schedule in &schedules {
        let grids = schedule.grids();
        assert_eq!(grids.len(), 2);
        // The stack consumes a combination from its last pool first.
        assert_eq!(grids[0].pool_id, 2);
        assert_eq!(grids[1].pool_id, 1);
        let pairing = (grids[1].data, grids[0].data);
        assert!(!pairings.contains(&pairing));
        pairings.push(pairing);
    }
}

#[test]
fn results_follow_combination_and_list_order() {
    let g0 = one_day_grid(10, 0, hm(8, 0), hm(9, 0), 0);
    let g1 = one_day_grid(20, 1, hm(8, 0), hm(9, 0), 0);
    let g2 = one_day_grid(30, 2, hm(8, 0), hm(9, 0), 0);
    let mut p0 = Pool::new(10);
    p0.push(g0);
    let mut p1 = Pool::new(20);
    p1.push(g1);
    let mut p2 = Pool::new(30);
    p2.push(g2);
    let params = EngineParams { seeds: vec![], bound: 2, pool_list: vec![p0, p1, p2] };
    let schedules = engine_main(params).unwrap();

    let orders: Vec<Vec<u64>> = schedules
        .iter()
        .map(|sch| sch.grids().iter().map(|g| g.pool_id).collect())
        .collect();
    assert_eq!(orders, vec![vec![20, 10], vec![30, 10], vec![30, 20]]);
}

#[test]
fn seeds_appear_in_every_result() {
    let seed = one_day_grid(99, 6, hm(8, 0), hm(9, 0), 7);
    let mut pool = Pool::new(1);
    pool.push(one_day_grid(1, 0, hm(8, 0), hm(9, 0), 0));
    pool.push(one_day_grid(1, 1, hm(8, 0), hm(9, 0), 0));
    let params = EngineParams { seeds: vec![seed], bound: 1, pool_list: vec![pool] };
    let schedules = engine_main(params).unwrap();
    assert_eq!(schedules.len(), 2);
    for schedule in &schedules {
        assert_eq!(schedule.grids()[0], seed);
    }
}

#[test]
fn search_prunes_conflicting_alternatives() {
    let seed = one_day_grid(99, 0, hm(8, 0), hm(10, 0), 0);
    let mut pool = Pool::new(1);
    pool.push(one_day_grid(1, 0, hm(9, 0), hm(11, 0), 1));
    pool.push(one_day_grid(1, 0, hm(10, 0), hm(12, 0), 2));
    let params = EngineParams { seeds: vec![seed], bound: 1, pool_list: vec![pool] };
    let schedules = engine_main(params).unwrap();
    assert_eq!(schedules.len(), 1);
    assert_eq!(schedules[0].grids()[1].data, 2);
}

#[test]
fn bound_above_pool_count_is_invalid() {
    let mut pool = Pool::new(1);
    pool.push(one_day_grid(1, 0, hm(8, 0), hm(9, 0), 0));
    let params = EngineParams { seeds: vec![], bound: 2, pool_list: vec![pool] };
    assert_eq!(engine_main(params).unwrap_err(), EngineError::InvalidBound);
}

#[test]
fn duplicate_pool_ids_are_rejected() {
    let mut p0 = Pool::new(5);
    p0.push(one_day_grid(5, 0, hm(8, 0), hm(9, 0), 0));
    let mut p1 = Pool::new(5);
    p1.push(one_day_grid(5, 1, hm(8, 0), hm(9, 0), 0));
    let params = EngineParams { seeds: vec![], bound: 1, pool_list: vec![p0, p1] };
    assert_eq!(engine_main(params).unwrap_err(), EngineError::DuplicatePoolId);
}

#[test]
fn conflicting_seeds_abort_the_run() {
    let grid_1 = instance_grid_1().unwrap();
    let grid_5 = instance_grid_5().unwrap();
    let mut pool = Pool::new(1);
    pool.push(instance_grid_2().unwrap());
    // grid_1 and grid_5 overlap on Friday morning.
    let params = EngineParams { seeds: vec![grid_1, grid_5], bound: 1, pool_list: vec![pool] };
    assert_eq!(engine_main(params).unwrap_err(), EngineError::SeedConflict);
}

#[test]
fn empty_pool_is_a_hard_error() {
    let mut p0 = Pool::new(1);
    p0.push(one_day_grid(1, 0, hm(8, 0), hm(9, 0), 0));
    let p1 = Pool::new(2);
    let params = EngineParams { seeds: vec![], bound: 1, pool_list: vec![p0, p1] };
    assert_eq!(engine_main(params).unwrap_err(), EngineError::EmptyStack);
}

#[test]
fn zero_bound_is_an_empty_stack() {
    let mut pool = Pool::new(1);
    pool.push(one_day_grid(1, 0, hm(8, 0), hm(9, 0), 0));
    let params = EngineParams { seeds: vec![], bound: 0, pool_list: vec![pool] };
    assert_eq!(engine_main(params).unwrap_err(), EngineError::EmptyStack);
}
