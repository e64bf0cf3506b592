use schedule_engine::error::EngineError;
use schedule_engine::grid::{hm, Day, Grid, Schedule};
use schedule_engine::utils::{
    instance_grid_1, instance_grid_2, instance_grid_4, instance_grid_5,
};

fn empty14() -> [String; 14] {
    [
        String::new(),
        String::new(),
        String::new(),
        String::new(),
        String::new(),
        String::new(),
        String::new(),
        String::new(),
        String::new(),
        String::new(),
        String::new(),
        String::new(),
        String::new(),
        String::new(),
    ]
}

#[test]
fn test_try_merge() {
    let grid_4 = instance_grid_4().unwrap();
    let grid_5 = instance_grid_5().unwrap();

    let mut schedule_2 = Schedule::new();
    let _ = schedule_2.try_merge(&grid_5);
    assert!(schedule_2.try_merge(&grid_4).is_err());
}

#[test]
fn hm_gives_seconds_of_day() {
    assert_eq!(hm(0, 0), 0);
    assert_eq!(hm(8, 0), 28800);
    assert_eq!(hm(19, 0), 68400);
    assert_eq!(hm(23, 59), 86340);
}

#[test]
fn new_rejects_inverted_range() {
    let r = Grid::new(
        1,
        [Some((hm(9, 0), hm(8, 0))), None, None, None, None, None, None],
        0,
    );
    assert_eq!(r.unwrap_err(), EngineError::InvalidTimeRange);
}

#[test]
fn new_accepts_valid_slots() {
    let g = Grid::new(
        7,
        [
            Some((hm(8, 0), hm(9, 0))),
            None,
            Some((hm(10, 0), hm(10, 0))),
            None,
            None,
            None,
            None,
        ],
        42,
    )
    .unwrap();
    assert_eq!(g.pool_id, 7);
    assert_eq!(g.data, 42);
    assert_eq!(g.time_values[0], Some((28800, 32400)));
    assert_eq!(g.time_values[1], None);
    assert_eq!(g.time_values[2], Some((36000, 36000)));
}

#[test]
fn free_at_touching_endpoints_are_compatible() {
    let g = Grid::new(
        1,
        [Some((hm(7, 0), hm(8, 0))), None, None, None, None, None, None],
        0,
    )
    .unwrap();
    assert!(g.free_at(&Day::Monday, &(hm(8, 0), hm(10, 0))));
    assert!(g.free_at(&Day::Monday, &(hm(6, 0), hm(7, 0))));
    assert!(g.free_at(&Day::Tuesday, &(hm(7, 0), hm(8, 0))));
}

#[test]
fn free_at_overlap_conflicts() {
    let g = Grid::new(
        1,
        [Some((hm(7, 0), hm(9, 0))), None, None, None, None, None, None],
        0,
    )
    .unwrap();
    assert!(!g.free_at(&Day::Monday, &(hm(8, 0), hm(10, 0))));
    assert!(!g.free_at(&Day::Monday, &(hm(6, 0), hm(7, 30))));
    assert!(!g.free_at(&Day::Monday, &(hm(7, 30), hm(8, 30))));
}

#[test]
fn try_merge_failure_is_atomic() {
    let grid_1 = instance_grid_1().unwrap();
    let grid_2 = instance_grid_2().unwrap();
    let grid_5 = instance_grid_5().unwrap();

    let mut schedule = Schedule::new();
    assert!(schedule.try_merge(&grid_1).is_ok());
    assert!(schedule.try_merge(&grid_2).is_ok());
    let before = schedule.grids().clone();

    // grid_5 is busy Friday 07:00-09:00, grid_1 Friday 08:00-09:00.
    let r = schedule.try_merge(&grid_5);
    assert_eq!(r.unwrap_err(), EngineError::ScheduleConflict);
    assert_eq!(schedule.len(), before.len());
    assert_eq!(schedule.grids(), &before);
}

#[test]
fn remove_last_added_undoes_merge() {
    let grid_1 = instance_grid_1().unwrap();
    let grid_2 = instance_grid_2().unwrap();

    let mut schedule = Schedule::new();
    assert!(schedule.try_merge(&grid_1).is_ok());
    let before = schedule.grids().clone();

    assert!(schedule.try_merge(&grid_2).is_ok());
    let popped = schedule.remove_last_added();
    assert_eq!(popped, Some(grid_2));
    assert_eq!(schedule.grids(), &before);
}

#[test]
fn remove_last_added_on_empty_is_none() {
    let mut schedule = Schedule::new();
    assert_eq!(schedule.remove_last_added(), None);
    assert_eq!(schedule.len(), 0);
}

#[test]
fn from_vec_parses_times() {
    let mut v = empty14();
    v[0] = "19:00".to_string();
    v[1] = "20:30".to_string();
    let g = Grid::from_vec(3, v, "%H:%M", 9).unwrap();
    assert_eq!(g.time_values[0], Some((68400, 73800)));
    assert_eq!(g.time_values[1], None);
    assert_eq!(g.pool_id, 3);
    assert_eq!(g.data, 9);
}

#[test]
fn from_vec_rejects_mixed_pair() {
    let mut v = empty14();
    v[4] = "10:00".to_string();
    let r = Grid::from_vec(1, v, "%H:%M", 0);
    assert_eq!(r.unwrap_err(), EngineError::MalformedFlatInput);
}

#[test]
fn from_vec_rejects_unparseable_text() {
    let mut v = empty14();
    v[0] = "25:99".to_string();
    v[1] = "26:00".to_string();
    let r = Grid::from_vec(1, v, "%H:%M", 0);
    assert_eq!(r.unwrap_err(), EngineError::ParseError);
}

#[test]
fn from_vec_rejects_inverted_range() {
    let mut v = empty14();
    v[0] = "10:00".to_string();
    v[1] = "09:00".to_string();
    let r = Grid::from_vec(1, v, "%H:%M", 0);
    assert_eq!(r.unwrap_err(), EngineError::InvalidTimeRange);
}

#[test]
fn day_ordinals_run_monday_to_sunday() {
    let days = [
        Day::Monday,
        Day::Tuesday,
        Day::Wednesday,
        Day::Thursday,
        Day::Friday,
        Day::Saturday,
        Day::Sunday,
    ];
    for (i, d) in days.iter().enumerate() {
        assert_eq!(d.ordinal(), i);
        assert_eq!(Day::from_ordinal(i), *d);
    }
}
