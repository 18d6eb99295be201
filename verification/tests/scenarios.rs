use swarmbot_pathfind::{
    BlockGoalCheck, BlockHeuristic, BlockLocation, BlockNode, BlockRecord, BlockTravelTask,
    GlobalContext, Increment, MoveState, Movements, PathConfig, PathResult, Progression,
    SearchProblem, SimpleType, WorldBlocks,
};

fn neighbors(world: &WorldBlocks, cfg: &PathConfig, at: BlockLocation) -> Vec<(BlockLocation, u64)> {
    let node = BlockNode::simple(at);
    let ctx = GlobalContext { path_config: cfg, world };
    match Movements::new(&node, ctx).obtain_all() {
        Progression::Movements(ns) => ns.into_iter().map(|n| (n.value.location, n.cost)).collect(),
        Progression::Edge => panic!("unexpected edge at {at:?}"),
    }
}

/// A column at `(1, y, 0)` holds water on solid ground; the floor is
/// otherwise far below, and South opens into a void.  The only move
/// from the start is the fall into the water column, with no fall
/// bound because the landing is water.
#[test]
fn fall_to_water_and_void_drop() {
    let mut w = WorldBlocks::new();
    for x in -6..10 {
        for z in -8..9 {
            for y in 58..71 {
                let kind = if y == 58 && x != -1 { SimpleType::Solid } else { SimpleType::WalkThrough };
                w.set_block(BlockLocation::new(x, y, z), kind);
            }
        }
    }
    // the void under the South neighbor
    for y in 0..58 {
        w.set_block(BlockLocation::new(-1, y, 0), SimpleType::WalkThrough);
    }
    // the water column at (1, y, 0)
    w.set_block(BlockLocation::new(1, 60, 0), SimpleType::Solid);
    w.set_block(BlockLocation::new(1, 61, 0), SimpleType::Water);
    w.set_block(BlockLocation::new(1, 62, 0), SimpleType::Water);

    let cfg = PathConfig::default();
    let ns = neighbors(&w, &cfg, BlockLocation::new(0, 66, 0));
    // the descend into water lands on top of it, at the cost of a fall
    assert_eq!(ns, vec![(BlockLocation::new(1, 63, 0), cfg.costs.fall)]);
    // in particular the South void drop emitted nothing
    assert!(ns.iter().all(|(l, _)| l.x != -1));
}

/// A solid step one block up: the generator emits a micro-jump onto
/// it at the cost of one ascend, and the search takes it.
#[test]
fn step_up_micro_jump() {
    let mut w = WorldBlocks::new();
    for x in -6..10 {
        for z in -8..9 {
            for y in 58..71 {
                let kind = if y == 63 { SimpleType::Solid } else { SimpleType::WalkThrough };
                w.set_block(BlockLocation::new(x, y, z), kind);
            }
        }
    }
    w.set_block(BlockLocation::new(1, 64, 0), SimpleType::Solid);

    let cfg = PathConfig::default();
    let ns = neighbors(&w, &cfg, BlockLocation::new(0, 64, 0));
    assert!(ns.contains(&(BlockLocation::new(1, 65, 0), cfg.costs.ascend)));

    let goal = BlockLocation::new(1, 65, 0);
    let mut problem = SearchProblem::new(
        BlockTravelTask,
        BlockNode::simple(BlockLocation::new(0, 64, 0)),
        BlockHeuristic { goal },
        BlockGoalCheck { goal },
    );
    problem.set_max_millis(60000);
    let ctx = GlobalContext { path_config: &cfg, world: &w };
    match problem.iterate_until(u128::MAX, ctx) {
        Increment::Finished(pr) => {
            assert!(pr.complete);
            assert_eq!(pr.path.len(), 2);
            assert_eq!(pr.path[1].state.location, goal);
        }
        Increment::InProgress => panic!("search did not finish"),
    }
}

/// An `Avoid` floor blocks both the same-level walk and the descend
/// into that column, but the parkour leap clears the gap.
#[test]
fn parkour_gap() {
    let mut w = WorldBlocks::new();
    for x in -6..10 {
        for z in -8..9 {
            for y in 58..71 {
                let kind = if y == 63 { SimpleType::Solid } else { SimpleType::WalkThrough };
                w.set_block(BlockLocation::new(x, y, z), kind);
            }
        }
    }
    w.set_block(BlockLocation::new(1, 63, 0), SimpleType::Avoid);

    let cfg = PathConfig::default();
    let ns = neighbors(&w, &cfg, BlockLocation::new(0, 64, 0));
    // no move at all enters the column over the hazard
    assert!(ns.iter().all(|(l, _)| !(l.x == 1 && l.z == 0)));
    // the leap over the gap is emitted at parkour cost
    assert!(ns.contains(&(BlockLocation::new(2, 64, 0), cfg.costs.block_parkour)));
    // the other same-level walks stay
    assert!(ns.contains(&(BlockLocation::new(-1, 64, 0), cfg.costs.block_walk)));
}

/// Two runs on identical inputs yield identical results.
#[test]
fn tie_break_stability() {
    let run = || {
        let mut w = WorldBlocks::new();
        for x in -6..10 {
            for z in -8..9 {
                for y in 58..71 {
                    let kind = if y == 63 { SimpleType::Solid } else { SimpleType::WalkThrough };
                    w.set_block(BlockLocation::new(x, y, z), kind);
                }
            }
        }
        w.set_block(BlockLocation::new(1, 63, 0), SimpleType::Avoid);
        let cfg = PathConfig::default();
        let goal = BlockLocation::new(4, 64, 0);
        let mut problem = SearchProblem::new(
            BlockTravelTask,
            BlockNode::simple(BlockLocation::new(0, 64, 0)),
            BlockHeuristic { goal },
            BlockGoalCheck { goal },
        );
        problem.set_max_millis(60000);
        let ctx = GlobalContext { path_config: &cfg, world: &w };
        match problem.iterate_until(u128::MAX, ctx) {
            Increment::Finished(pr) => (pr.complete, pr.path),
            Increment::InProgress => panic!("search did not finish"),
        }
    };
    let a = run();
    let b = run();
    assert_eq!(a.0, b.0);
    assert_eq!(a.1, b.1);
}

fn edge_cost(world: &WorldBlocks, cfg: &PathConfig, a: BlockLocation, b: BlockLocation) -> u64 {
    neighbors(world, cfg, a)
        .into_iter()
        .find(|(l, _)| *l == b)
        .map(|(_, c)| c)
        .expect("consecutive path records must be neighbors")
}

/// Heuristic admissibility smoke test: on a grid where only walking is
/// possible, the engine's path costs no more than the path a naive
/// breadth-first search finds.
#[test]
fn engine_beats_bfs_baseline() {
    let mut w = WorldBlocks::new();
    for x in -6..10 {
        for z in -8..9 {
            for y in 58..71 {
                let kind = if y == 63 || y == 66 {
                    SimpleType::Solid
                } else {
                    SimpleType::WalkThrough
                };
                w.set_block(BlockLocation::new(x, y, z), kind);
            }
        }
    }
    let cfg = PathConfig::default();
    let start = BlockLocation::new(0, 64, 0);
    let goal = BlockLocation::new(3, 64, 2);

    // the engine's path and its cost
    let mut problem = SearchProblem::new(
        BlockTravelTask,
        BlockNode::simple(start),
        BlockHeuristic { goal },
        BlockGoalCheck { goal },
    );
    problem.set_max_millis(60000);
    let ctx = GlobalContext { path_config: &cfg, world: &w };
    let engine_path = match problem.iterate_until(u128::MAX, ctx) {
        Increment::Finished(pr) => {
            assert!(pr.complete);
            pr.path
        }
        Increment::InProgress => panic!("search did not finish"),
    };
    let engine_cost: u64 = engine_path
        .windows(2)
        .map(|p| edge_cost(&w, &cfg, p[0].state.location, p[1].state.location))
        .sum();

    // a naive breadth-first baseline over the same move graph
    let mut frontier = vec![start];
    let mut seen = vec![start];
    let mut parents: Vec<(BlockLocation, BlockLocation)> = Vec::new();
    let mut found = false;
    while !frontier.is_empty() && !found {
        let mut next = Vec::new();
        for cur in frontier {
            for (l, _) in neighbors(&w, &cfg, cur) {
                if !seen.contains(&l) {
                    seen.push(l);
                    parents.push((l, cur));
                    if l == goal {
                        found = true;
                    }
                    next.push(l);
                }
            }
        }
        frontier = next;
    }
    assert!(found, "the BFS baseline must reach the goal too");
    let mut bfs_path = vec![goal];
    while *bfs_path.last().unwrap() != start {
        let cur = *bfs_path.last().unwrap();
        let p = parents.iter().find(|(l, _)| *l == cur).unwrap().1;
        bfs_path.push(p);
    }
    bfs_path.reverse();
    let bfs_cost: u64 = bfs_path
        .windows(2)
        .map(|p| edge_cost(&w, &cfg, p[0], p[1]))
        .sum();

    assert!(engine_cost <= bfs_cost);
}

/// An unloaded consulted cell turns the whole expansion into an edge.
#[test]
fn unloaded_region_is_edge() {
    let mut w = WorldBlocks::new();
    // only the immediate column is loaded; the adjacent cells are not
    w.set_block(BlockLocation::new(0, 65, 0), SimpleType::WalkThrough);
    let node = BlockNode::simple(BlockLocation::new(0, 64, 0));
    let cfg = PathConfig::default();
    let ctx = GlobalContext { path_config: &cfg, world: &w };
    assert!(matches!(
        Movements::new(&node, ctx).obtain_all(),
        Progression::Edge
    ));
}

/// The drop scan: water lands at any depth, solid ground only within
/// the survivable fall, a hazard never.
#[test]
fn drop_scan_rules() {
    let mut w = WorldBlocks::new();
    for y in 0..70 {
        let kind = match y {
            40 => SimpleType::Solid,
            41 | 42 => SimpleType::Water,
            _ => SimpleType::WalkThrough,
        };
        w.set_block(BlockLocation::new(5, y, 5), kind);
    }
    // a deep fall into water lands on the water surface
    let r = Movements::drop_y(BlockLocation::new(5, 66, 5), &w);
    assert!(matches!(r, Ok(Some(42))));

    let mut w2 = WorldBlocks::new();
    for y in 0..70 {
        let kind = if y == 60 { SimpleType::Solid } else { SimpleType::WalkThrough };
        w2.set_block(BlockLocation::new(5, y, 5), kind);
    }
    // landing three rows down on solid ground is survivable
    assert!(matches!(Movements::drop_y(BlockLocation::new(5, 64, 5), &w2), Ok(Some(60))));
    // one row deeper is not
    assert!(matches!(Movements::drop_y(BlockLocation::new(5, 65, 5), &w2), Ok(None)));
}

fn rec(x: i32, y: i16, z: i32) -> BlockRecord {
    BlockRecord { state: MoveState { location: BlockLocation { x, y, z } } }
}

/// The merge rule: a recomputed path is spliced at the follower's
/// current position, or replaces the remainder wholesale with a
/// discontinuity signal.
#[test]
fn merge_splices_at_current_position() {
    let pr = PathResult {
        complete: true,
        path: vec![rec(0, 64, 0), rec(1, 64, 0), rec(2, 64, 0), rec(3, 64, 0)],
    };
    let (suffix, discontinuity) = pr.merge_from(BlockLocation::new(2, 64, 0));
    assert!(!discontinuity);
    assert_eq!(suffix, vec![rec(2, 64, 0), rec(3, 64, 0)]);

    let (whole, discontinuity) = pr.merge_from(BlockLocation::new(9, 64, 0));
    assert!(discontinuity);
    assert_eq!(whole, pr.path);
}

/// A water head block scales every emitted cost by the no-breathe
/// multiplier and opens the vertical swim.
#[test]
fn water_head_multiplies_costs() {
    let mut w = WorldBlocks::new();
    for x in -6..10 {
        for z in -8..9 {
            for y in 58..71 {
                let kind = if y == 63 { SimpleType::Solid } else { SimpleType::WalkThrough };
                w.set_block(BlockLocation::new(x, y, z), kind);
            }
        }
    }
    w.set_block(BlockLocation::new(0, 65, 0), SimpleType::Water);

    let cfg = PathConfig::default();
    let mult = cfg.costs.no_breathe_mult;
    let ns = neighbors(&w, &cfg, BlockLocation::new(0, 64, 0));
    // the same-level walk costs a multiplied walk
    assert!(ns.contains(&(BlockLocation::new(1, 64, 0), cfg.costs.block_walk * mult)));
    // swimming up out of the water column costs a multiplied ascend
    assert!(ns.contains(&(BlockLocation::new(0, 65, 0), cfg.costs.ascend * mult)));
    // every emitted cost carries the multiplier
    assert!(ns.iter().all(|(_, c)| c % mult == 0));
}
