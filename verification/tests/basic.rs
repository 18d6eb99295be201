use swarmbot_pathfind::{
    BlockGoalCheck, BlockHeuristic, BlockLocation, BlockNode, BlockTravelTask, CardinalDirection,
    GlobalContext, Increment, Middleman, Msg, PathConfig, SearchProblem, SimpleType, WorldBlocks,
};

fn flat_world() -> WorldBlocks {
    let mut w = WorldBlocks::new();
    for x in -6..10 {
        for z in -8..9 {
            for y in 58..70 {
                let kind = if y == 63 { SimpleType::Solid } else { SimpleType::WalkThrough };
                w.set_block(BlockLocation::new(x, y, z), kind);
            }
        }
    }
    w
}

#[test]
fn unit_changes_are_fixed() {
    let n = CardinalDirection::North.unit_change();
    assert_eq!((n.dx, n.dy, n.dz), (1, 0, 0));
    let s = CardinalDirection::South.unit_change();
    assert_eq!((s.dx, s.dy, s.dz), (-1, 0, 0));
    let w = CardinalDirection::West.unit_change();
    assert_eq!((w.dx, w.dy, w.dz), (0, 0, 1));
    let e = CardinalDirection::East.unit_change();
    assert_eq!((e.dx, e.dy, e.dz), (0, 0, -1));
}

#[test]
fn default_costs() {
    let cfg = PathConfig::default();
    assert_eq!(cfg.costs.block_walk, 2);
    assert_eq!(cfg.costs.block_parkour, 3);
    assert_eq!(cfg.costs.no_breathe_mult, 3);
    assert!(cfg.parkour);
}

#[test]
fn flat_walk_prefers_parkour() {
    // On an open flat floor the three-block goal is reachable by one
    // parkour leap, which costs less than three walked blocks, so the
    // path has a single hop.
    let world = flat_world();
    let cfg = PathConfig::default();
    let start = BlockNode::simple(BlockLocation::new(0, 64, 0));
    let goal = BlockLocation::new(3, 64, 0);
    let mut problem = SearchProblem::new(
        BlockTravelTask,
        start,
        BlockHeuristic { goal },
        BlockGoalCheck { goal },
    );
    problem.set_max_millis(60000);
    let ctx = GlobalContext { path_config: &cfg, world: &world };
    match problem.iterate_until(u128::MAX, ctx) {
        Increment::Finished(pr) => {
            assert!(pr.complete);
            assert_eq!(pr.path.first().unwrap().state.location, BlockLocation::new(0, 64, 0));
            assert_eq!(pr.path.last().unwrap().state.location, goal);
            assert_eq!(pr.path.len(), 2);
        }
        Increment::InProgress => panic!("search did not finish"),
    }
}

#[test]
fn flat_walk_under_ceiling() {
    // With a solid ceiling two blocks above the head, parkour and
    // micro-jumps are impossible and the engine walks: three steps
    // along North.
    let mut world = WorldBlocks::new();
    for x in -6..10 {
        for z in -8..9 {
            for y in 58..70 {
                let kind = if y == 63 || y == 66 {
                    SimpleType::Solid
                } else {
                    SimpleType::WalkThrough
                };
                world.set_block(BlockLocation::new(x, y, z), kind);
            }
        }
    }
    let cfg = PathConfig::default();
    let start = BlockNode::simple(BlockLocation::new(0, 64, 0));
    let goal = BlockLocation::new(3, 64, 0);
    let mut problem = SearchProblem::new(
        BlockTravelTask,
        start,
        BlockHeuristic { goal },
        BlockGoalCheck { goal },
    );
    problem.set_max_millis(60000);
    let ctx = GlobalContext { path_config: &cfg, world: &world };
    match problem.iterate_until(u128::MAX, ctx) {
        Increment::Finished(pr) => {
            assert!(pr.complete);
            assert_eq!(pr.path.len(), 4);
            for (i, rec) in pr.path.iter().enumerate() {
                assert_eq!(rec.state.location, BlockLocation::new(i as i32, 64, 0));
            }
        }
        Increment::InProgress => panic!("search did not finish"),
    }
}

#[test]
fn bidirectional_meeting() {
    let a = BlockLocation::new(1, 0, 0);
    let b = BlockLocation::new(2, 0, 0);
    let c = BlockLocation::new(3, 0, 0);
    let z = BlockLocation::new(-1, 0, 0);
    let y = BlockLocation::new(-2, 0, 0);
    let mut m = Middleman::new();
    assert_eq!(m.step(Msg::Node(a)), None);
    assert_eq!(m.step(Msg::Node(z)), None);
    assert_eq!(m.step(Msg::Node(b)), None);
    assert_eq!(m.step(Msg::Node(y)), None);
    assert_eq!(m.step(Msg::Node(c)), None);
    assert_eq!(m.step(Msg::Node(c)), Some(Some(c)));
    // after the verdict every message is ignored
    assert_eq!(m.step(Msg::Node(b)), None);
}

#[test]
fn backward_finish_is_not_fatal() {
    let mut m = Middleman::new();
    assert_eq!(m.step(Msg::Finished { forward: false }), None);
    assert_eq!(m.step(Msg::Finished { forward: true }), Some(None));
}
