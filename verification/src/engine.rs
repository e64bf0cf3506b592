use vstd::prelude::*;

use itertools::Itertools;

use crate::error::EngineError;
use crate::grid::{
    can_merge, grids_compatible, lemma_remove_last_undoes_merge, Grid, Pool, Schedule,
};

verus! {

/// The inputs of one engine run.
pub struct EngineParams {
    /// Grids pre-committed before the search begins; every resulting
    /// schedule contains them.
    pub seeds: Vec<Grid>,
    /// Number of pools each resulting schedule must draw one pick from.
    pub bound: usize,
    /// Pools over which the combinatorial search runs.
    pub pool_list: Vec<Pool>,
}

/// The sequence of index combinations that choosing `k` out of the positions
/// `0..n` yields, in the order of the `itertools` combination adaptor.
pub uninterp spec fn combinations_of(n: int, k: int) -> Seq<Seq<int>>;

/// Relies on `itertools::Itertools::combinations` over `0..n`: it yields the
/// `k`-length combinations of the source elements, each combination listing
/// distinct source positions in source order, the whole sequence in the
/// adaptor's reliable, input-determined order.
#[verifier::external_body]
fn index_combinations(n: usize, k: usize) -> (r: Vec<Vec<usize>>)
    requires
        1 <= k <= n,
    ensures
        r@.map_values(|c: Vec<usize>| c@.map_values(|x: usize| x as int)) == combinations_of(
            n as int,
            k as int,
        ),
        forall|i: int| 0 <= i < r@.len() ==> (#[trigger] r@[i])@.len() == k,
        forall|i: int, a: int|
            0 <= i < r@.len() && 0 <= a < r@[i]@.len() ==> #[trigger] r@[i]@[a] < n,
        forall|i: int, a: int, b: int|
            0 <= i < r@.len() && 0 <= a < b < r@[i]@.len() ==> #[trigger] r@[i]@[a]
                < #[trigger] r@[i]@[b],
{
    (0..n).combinations(k).collect()
}

/// The grid alternatives of the pool at `idx`, none for an index out of range.
pub open spec fn pool_grids(pools: Seq<Pool>, idx: int) -> Seq<Grid> {
    if 0 <= idx < pools.len() {
        pools[idx].grid_list@
    } else {
        Seq::empty()
    }
}

/// The stack of levels that one index combination selects from the pool
/// list. The combination is consumed as a stack whose top is its last pool,
/// so the levels run through the combination back to front.
pub open spec fn combo_levels(pools: Seq<Pool>, combo: Seq<int>) -> Seq<Seq<Grid>> {
    combo.reverse().map_values(|idx: int| pool_grids(pools, idx))
}

/// Every complete, conflict-free way of extending the accepted list `base`
/// by one grid per level, in depth-first pre-order: level order over the
/// levels, grid list order within a level.
pub open spec fn dfs_all(base: Seq<Grid>, levels: Seq<Seq<Grid>>) -> Seq<Seq<Grid>>
    decreases levels.len(), 0int, 0int,
{
    if levels.len() == 0 {
        seq![base]
    } else {
        dfs_level(base, levels[0], levels.drop_first())
    }
}

/// The results contributed by the alternatives `grids` of the current level,
/// in list order: each alternative compatible with everything in `base` is
/// accepted and explored against the deeper levels `rest`, and every other
/// alternative prunes its branch.
pub open spec fn dfs_level(base: Seq<Grid>, grids: Seq<Grid>, rest: Seq<Seq<Grid>>) -> Seq<
    Seq<Grid>,
>
    decreases rest.len(), 1int, grids.len(),
{
    if grids.len() == 0 {
        Seq::empty()
    } else {
        (if can_merge(base, grids[0]) {
            dfs_all(base.push(grids[0]), rest)
        } else {
            Seq::empty()
        }) + dfs_level(base, grids.drop_first(), rest)
    }
}

/// The concatenation of the per-combination result lists, in combination
/// order.
pub open spec fn combos_results(base: Seq<Grid>, pools: Seq<Pool>, combos: Seq<Seq<int>>) -> Seq<
    Seq<Grid>,
>
    decreases combos.len(),
{
    if combos.len() == 0 {
        Seq::empty()
    } else {
        dfs_all(base, combo_levels(pools, combos[0])) + combos_results(
            base,
            pools,
            combos.drop_first(),
        )
    }
}

/// No two pools of the list share a pool id.
pub open spec fn unique_pool_ids(pools: Seq<Pool>) -> bool {
    forall|i: int, j: int|
        0 <= i < j < pools.len() ==> #[trigger] pools[i].pool_id != #[trigger] pools[j].pool_id
}

/// All seeds are mutually compatible.
pub open spec fn seeds_compatible(seeds: Seq<Grid>) -> bool {
    forall|i: int, j: int|
        0 <= i < j < seeds.len() ==> grids_compatible(#[trigger] seeds[i], #[trigger] seeds[j])
}

/// Some pool of the list offers no grid alternatives at all.
pub open spec fn has_empty_pool(pools: Seq<Pool>) -> bool {
    exists|i: int| 0 <= i < pools.len() && (#[trigger] pools[i]).grid_list@.len() == 0
}

/// What one engine run returns, for every input: the precondition failures
/// in their checking order, and otherwise the full depth-first result list
/// over every size-`bound` pool combination, seeded with `seeds`.
pub open spec fn engine_spec(seeds: Seq<Grid>, bound: int, pools: Seq<Pool>) -> Result<
    Seq<Seq<Grid>>,
    EngineError,
> {
    if pools.len() < bound {
        Err(EngineError::InvalidBound)
    } else if !unique_pool_ids(pools) {
        Err(EngineError::DuplicatePoolId)
    } else if !seeds_compatible(seeds) {
        Err(EngineError::SeedConflict)
    } else if bound == 0 || has_empty_pool(pools) {
        Err(EngineError::EmptyStack)
    } else {
        Ok(combos_results(seeds, pools, combinations_of(pools.len() as int, bound)))
    }
}

/// The views of a list of schedules.
pub open spec fn views_of(schedules: Seq<Schedule>) -> Seq<Seq<Grid>> {
    schedules.map_values(|s: Schedule| s@)
}

/// The levels still to be descended when `m` levels of the combination
/// remain: the combination's first `m` pools, taken back to front.
pub open spec fn levels_from(pools: Seq<Pool>, combo: Seq<usize>, m: int) -> Seq<Seq<Grid>>
    recommends
        0 <= m <= combo.len(),
{
    combo.take(m).reverse().map_values(|idx: usize| pool_grids(pools, idx as int))
}

proof fn lemma_dfs_level_snoc(base: Seq<Grid>, grids: Seq<Grid>, g: Grid, rest: Seq<Seq<Grid>>)
    ensures
        dfs_level(base, grids.push(g), rest) == dfs_level(base, grids, rest) + (if can_merge(
            base,
            g,
        ) {
            dfs_all(base.push(g), rest)
        } else {
            Seq::<Seq<Grid>>::empty()
        }),
    decreases grids.len(),
{
    let added = if can_merge(base, g) {
        dfs_all(base.push(g), rest)
    } else {
        Seq::<Seq<Grid>>::empty()
    };
    if grids.len() == 0 {
        assert(grids.push(g).drop_first() =~= grids);
        assert(added + Seq::<Seq<Grid>>::empty() =~= added);
        assert(Seq::<Seq<Grid>>::empty() + added =~= added);
    } else {
        assert(grids.push(g)[0] == grids[0]);
        assert(grids.push(g).drop_first() =~= grids.drop_first().push(g));
        lemma_dfs_level_snoc(base, grids.drop_first(), g, rest);
        let c0 = if can_merge(base, grids[0]) {
            dfs_all(base.push(grids[0]), rest)
        } else {
            Seq::<Seq<Grid>>::empty()
        };
        assert(c0 + (dfs_level(base, grids.drop_first(), rest) + added) =~= (c0 + dfs_level(
            base,
            grids.drop_first(),
            rest,
        )) + added);
    }
}

proof fn lemma_combos_results_snoc(
    base: Seq<Grid>,
    pools: Seq<Pool>,
    combos: Seq<Seq<int>>,
    c: Seq<int>,
)
    ensures
        combos_results(base, pools, combos.push(c)) == combos_results(base, pools, combos)
            + dfs_all(base, combo_levels(pools, c)),
    decreases combos.len(),
{
    let added = dfs_all(base, combo_levels(pools, c));
    if combos.len() == 0 {
        assert(combos.push(c).drop_first() =~= combos);
        assert(added + Seq::<Seq<Grid>>::empty() =~= added);
        assert(Seq::<Seq<Grid>>::empty() + added =~= added);
    } else {
        assert(combos.push(c)[0] == combos[0]);
        assert(combos.push(c).drop_first() =~= combos.drop_first().push(c));
        lemma_combos_results_snoc(base, pools, combos.drop_first(), c);
        let c0 = dfs_all(base, combo_levels(pools, combos[0]));
        assert(c0 + (combos_results(base, pools, combos.drop_first()) + added) =~= (c0
            + combos_results(base, pools, combos.drop_first())) + added);
    }
}

/// Descends the `m` remaining levels of one combination depth-first,
/// consuming the combination back to front. Every complete, conflict-free
/// extension of the carried schedule is appended to `schedule_list`, and the
/// schedule itself is handed back exactly as it came in.
fn stack_recursive(
    pool_list: &Vec<Pool>,
    combo: &Vec<usize>,
    m: usize,
    schedule: &mut Schedule,
    schedule_list: &mut Vec<Schedule>,
)
    requires
        m <= combo@.len(),
        forall|a: int| 0 <= a < combo@.len() ==> #[trigger] combo@[a] < pool_list@.len(),
    ensures
        final(schedule)@ == old(schedule)@,
        views_of(final(schedule_list)@) == views_of(old(schedule_list)@) + dfs_all(
            old(schedule)@,
            levels_from(pool_list@, combo@, m as int),
        ),
    decreases m,
{
    let ghost base = schedule@;
    let ghost out0 = schedule_list@;
    let ghost levels = levels_from(pool_list@, combo@, m as int);
    if m == 0 {
        let snap = schedule.snapshot();
        schedule_list.push(snap);
        proof {
            assert(levels =~= Seq::<Seq<Grid>>::empty());
            assert(views_of(schedule_list@) =~= views_of(out0) + seq![base]);
        }
    } else {
        let pidx = combo[m - 1];
        let ghost grids = pool_list@[pidx as int].grid_list@;
        let ghost rest = levels_from(pool_list@, combo@, m as int - 1);
        proof {
            assert(combo@.take(m as int).reverse()[0] == combo@[m - 1]);
            assert(levels[0] == grids);
            assert(combo@.take(m as int).reverse().drop_first() =~= combo@.take(
                m as int - 1,
            ).reverse());
            assert(levels.drop_first() =~= rest);
        }
        let glen = pool_list[pidx].grid_list.len();
        let mut i: usize = 0;
        while i < glen
            invariant
                i <= glen,
                m >= 1,
                m <= combo@.len(),
                forall|a: int| 0 <= a < combo@.len() ==> #[trigger] combo@[a] < pool_list@.len(),
                pidx == combo@[m - 1],
                pidx < pool_list@.len(),
                grids == pool_list@[pidx as int].grid_list@,
                glen == grids.len(),
                rest == levels_from(pool_list@, combo@, m as int - 1),
                schedule@ == base,
                views_of(schedule_list@) == views_of(out0) + dfs_level(
                    base,
                    grids.take(i as int),
                    rest,
                ),
            decreases glen - i,
        {
            let ghost out_i = schedule_list@;
            match schedule.try_merge(&pool_list[pidx].grid_list[i]) {
                Ok(_) => {
                    stack_recursive(pool_list, combo, m - 1, schedule, schedule_list);
                    let _ = schedule.remove_last_added();
                    proof {
                        lemma_remove_last_undoes_merge(base, grids[i as int]);
                        assert(views_of(schedule_list@) == (views_of(out0) + dfs_level(
                            base,
                            grids.take(i as int),
                            rest,
                        )) + dfs_all(base.push(grids[i as int]), rest));
                    }
                },
                Err(_) => {
                    proof {
                        assert(views_of(schedule_list@) =~= views_of(out_i)
                            + Seq::<Seq<Grid>>::empty());
                    }
                },
            }
            proof {
                lemma_dfs_level_snoc(base, grids.take(i as int), grids[i as int], rest);
                assert(grids.take(i + 1) =~= grids.take(i as int).push(grids[i as int]));
                let added = if can_merge(base, grids[i as int]) {
                    dfs_all(base.push(grids[i as int]), rest)
                } else {
                    Seq::<Seq<Grid>>::empty()
                };
                assert((views_of(out0) + dfs_level(base, grids.take(i as int), rest)) + added
                    =~= views_of(out0) + dfs_level(base, grids.take(i + 1), rest));
            }
            i += 1;
        }
        proof {
            assert(grids.take(glen as int) =~= grids);
        }
    }
}

/// Runs the whole engine: validates the inputs, seeds a baseline schedule,
/// and searches every size-`bound` pool combination depth-first for
/// conflict-free schedules.
///
/// Fails with `InvalidBound` where the pool list is shorter than `bound`,
/// else with `DuplicatePoolId` where two pools share an id, else with
/// `SeedConflict` where two seeds overlap, else with `EmptyStack` where
/// `bound` is zero or some pool offers no alternatives; otherwise it returns
/// every valid schedule, in combination order and depth-first pre-order
/// within each combination.
pub fn engine_main(params: EngineParams) -> (r: Result<Vec<Schedule>, EngineError>)
    ensures
        match r {
            Ok(v) => engine_spec(params.seeds@, params.bound as int, params.pool_list@) == Ok::<
                Seq<Seq<Grid>>,
                EngineError,
            >(views_of(v@)),
            Err(e) => engine_spec(params.seeds@, params.bound as int, params.pool_list@) == Err::<
                Seq<Seq<Grid>>,
                EngineError,
            >(e),
        },
{
    let n = params.pool_list.len();
    if n < params.bound {
        return Err(EngineError::InvalidBound);
    }
    let mut i: usize = 0;
    while i < n
        invariant
            i <= n,
            n == params.pool_list@.len(),
            n >= params.bound,
            forall|a: int, b: int|
                0 <= a < b < n && a < i ==> #[trigger] params.pool_list@[a].pool_id
                    != #[trigger] params.pool_list@[b].pool_id,
        decreases n - i,
    {
        let mut j: usize = i + 1;
        while j < n
            invariant
                i < j <= n,
                n == params.pool_list@.len(),
                n >= params.bound,
                forall|b: int| i < b < j ==> #[trigger] params.pool_list@[b].pool_id
                    != params.pool_list@[i as int].pool_id,
            decreases n - j,
        {
            if params.pool_list[j].pool_id == params.pool_list[i].pool_id {
                proof {
                    assert(params.pool_list@[i as int].pool_id == params.pool_list@[
                        j as int
                    ].pool_id);
                    assert(!unique_pool_ids(params.pool_list@));
                }
                return Err(EngineError::DuplicatePoolId);
            }
            j += 1;
        }
        i += 1;
    }
    assert(unique_pool_ids(params.pool_list@));
    let mut master_schedule = Schedule::new();
    let ns = params.seeds.len();
    let mut s: usize = 0;
    while s < ns
        invariant
            s <= ns,
            ns == params.seeds@.len(),
            n == params.pool_list@.len(),
            n >= params.bound,
            unique_pool_ids(params.pool_list@),
            master_schedule@ == params.seeds@.take(s as int),
            forall|a: int, b: int|
                0 <= a < b < s ==> grids_compatible(
                    #[trigger] params.seeds@[a],
                    #[trigger] params.seeds@[b],
                ),
        decreases ns - s,
    {
        let ghost seeds = params.seeds@;
        match master_schedule.try_merge(&params.seeds[s]) {
            Ok(_) => {
                proof {
                    assert(seeds.take(s + 1) =~= seeds.take(s as int).push(seeds[s as int]));
                    assert forall|a: int| 0 <= a < s implies grids_compatible(
                        seeds[a],
                        seeds[s as int],
                    ) by {
                        assert(seeds.take(s as int)[a] == seeds[a]);
                        assert(grids_compatible(seeds.take(s as int)[a], seeds[s as int]));
                    }
                }
            },
            Err(_) => {
                proof {
                    assert(seeds.take(s as int).len() == s);
                    assert(exists|a: int|
                        0 <= a < s && !grids_compatible(
                            #[trigger] seeds.take(s as int)[a],
                            seeds[s as int],
                        ));
                    let bad = choose|a: int|
                        0 <= a < s && !grids_compatible(
                            #[trigger] seeds.take(s as int)[a],
                            seeds[s as int],
                        );
                    assert(seeds.take(s as int)[bad] == seeds[bad]);
                    assert(!grids_compatible(seeds[bad], seeds[s as int]));
                    assert(!seeds_compatible(seeds));
                }
                return Err(EngineError::SeedConflict);
            },
        }
        s += 1;
    }
    proof {
        assert(params.seeds@.take(ns as int) =~= params.seeds@);
        assert(seeds_compatible(params.seeds@));
    }
    if params.bound == 0 {
        return Err(EngineError::EmptyStack);
    }
    let mut p: usize = 0;
    while p < n
        invariant
            p <= n,
            n == params.pool_list@.len(),
            n >= params.bound,
            params.bound >= 1,
            unique_pool_ids(params.pool_list@),
            seeds_compatible(params.seeds@),
            forall|a: int| 0 <= a < p ==> (#[trigger] params.pool_list@[a]).grid_list@.len() != 0,
        decreases n - p,
    {
        if params.pool_list[p].grid_list.len() == 0 {
            proof {
                assert((params.pool_list@[p as int]).grid_list@.len() == 0);
                assert(has_empty_pool(params.pool_list@));
            }
            return Err(EngineError::EmptyStack);
        }
        p += 1;
    }
    assert(!has_empty_pool(params.pool_list@));
    let combos = index_combinations(n, params.bound);
    let ghost cspec = combinations_of(n as int, params.bound as int);
    let ghost base = params.seeds@;
    let mut valid_schedules: Vec<Schedule> = Vec::new();
    let nc = combos.len();
    let mut c: usize = 0;
    while c < nc
        invariant
            c <= nc,
            nc == combos@.len(),
            n == params.pool_list@.len(),
            n >= params.bound,
            params.bound >= 1,
            unique_pool_ids(params.pool_list@),
            seeds_compatible(params.seeds@),
            !has_empty_pool(params.pool_list@),
            base == params.seeds@,
            cspec == combinations_of(n as int, params.bound as int),
            combos@.map_values(|cv: Vec<usize>| cv@.map_values(|x: usize| x as int)) == cspec,
            forall|a: int, b: int|
                0 <= a < combos@.len() && 0 <= b < combos@[a]@.len() ==> #[trigger] combos@[a]@[b]
                    < n,
            master_schedule@ == base,
            views_of(valid_schedules@) == combos_results(
                base,
                params.pool_list@,
                cspec.take(c as int),
            ),
        decreases nc - c,
    {
        let combo = &combos[c];
        stack_recursive(
            &params.pool_list,
            combo,
            combo.len(),
            &mut master_schedule,
            &mut valid_schedules,
        );
        proof {
            lemma_combos_results_snoc(
                base,
                params.pool_list@,
                cspec.take(c as int),
                cspec[c as int],
            );
            assert(cspec.take(c + 1) =~= cspec.take(c as int).push(cspec[c as int]));
            assert(cspec[c as int] == combo@.map_values(|x: usize| x as int));
            assert(levels_from(params.pool_list@, combo@, combo@.len() as int) =~= combo_levels(
                params.pool_list@,
                cspec[c as int],
            ));
        }
        c += 1;
    }
    proof {
        assert(cspec.take(nc as int) =~= cspec);
    }
    Ok(valid_schedules)
}

} // verus!
