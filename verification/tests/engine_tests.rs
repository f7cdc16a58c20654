use snake::area::GameArea;
use snake::collision::CollisionDetector;
use snake::engine::{CellGlyph, FoodState, GameState, GameStatus, SnakeState, TerminationReason};
use snake::point::{get_next_point, Direction};
use snake::queue::LookupPointQueue;

fn running_game(
    area: GameArea,
    body: Vec<(u16, u16)>,
    food: Vec<(u16, u16)>,
    direction: Direction,
) -> GameState {
    GameState {
        area,
        snake: SnakeState {
            lq: LookupPointQueue::new(&body),
        },
        food: FoodState {
            lq: LookupPointQueue::new(&food),
        },
        direction,
        status: GameStatus::Running,
    }
}

#[test]
fn queue_keeps_sequence_and_membership_in_lockstep() {
    let mut q = LookupPointQueue::new(&vec![(1, 1), (2, 1), (3, 1)]);
    assert_eq!(q.len(), 3);
    assert_eq!(q.head(), Some((1, 1)));
    assert!(q.lookup(&(1, 1)));
    assert!(q.lookup(&(2, 1)));
    assert!(q.lookup(&(3, 1)));
    assert!(!q.lookup(&(4, 1)));

    q.push(&(0, 1));
    assert_eq!(q.len(), 4);
    assert_eq!(q.head(), Some((0, 1)));
    assert!(q.lookup(&(0, 1)));

    let tail = q.pop();
    assert_eq!(tail, Some((3, 1)));
    assert_eq!(q.len(), 3);
    assert!(!q.lookup(&(3, 1)));
    assert!(q.lookup(&(0, 1)));
    assert!(q.lookup(&(1, 1)));
    assert!(q.lookup(&(2, 1)));
}

#[test]
fn queue_pop_on_empty_returns_none() {
    let mut q = LookupPointQueue::new(&Vec::new());
    assert_eq!(q.len(), 0);
    assert_eq!(q.head(), None);
    assert_eq!(q.pop(), None);
}

#[test]
fn next_point_moves_one_cell() {
    assert_eq!(get_next_point(&(10, 10), &Direction::RIGHT), (11, 10));
    assert_eq!(get_next_point(&(10, 10), &Direction::LEFT), (9, 10));
    assert_eq!(get_next_point(&(10, 10), &Direction::DOWN), (10, 11));
    assert_eq!(get_next_point(&(10, 10), &Direction::UP), (10, 9));
}

#[test]
fn next_point_saturates_at_grid_bounds() {
    assert_eq!(get_next_point(&(0, 5), &Direction::LEFT), (0, 5));
    assert_eq!(get_next_point(&(5, 0), &Direction::UP), (5, 0));
    assert_eq!(get_next_point(&(u16::MAX, 5), &Direction::RIGHT), (u16::MAX, 5));
    assert_eq!(get_next_point(&(5, u16::MAX), &Direction::DOWN), (5, u16::MAX));
}

#[test]
fn area_boundary_is_lethal_interior_is_not() {
    let area = GameArea {
        from: (8, 8),
        to: (50, 25),
    };
    assert!(area.has_collision(&(8, 10)));
    assert!(area.has_collision(&(50, 10)));
    assert!(area.has_collision(&(10, 8)));
    assert!(area.has_collision(&(10, 25)));
    assert!(area.has_collision(&(7, 10)));
    assert!(area.has_collision(&(51, 10)));
    assert!(!area.has_collision(&(9, 9)));
    assert!(!area.has_collision(&(49, 24)));
}

#[test]
fn boundary_points_cover_the_perimeter_exactly() {
    let area = GameArea {
        from: (2, 2),
        to: (4, 4),
    };
    let walls = area.boundary_points();
    let expected = [
        (2, 2),
        (3, 2),
        (4, 2),
        (2, 3),
        (4, 3),
        (2, 4),
        (3, 4),
        (4, 4),
    ];
    for p in walls.iter() {
        assert!(expected.contains(p), "unexpected wall cell {:?}", p);
    }
    for e in expected.iter() {
        assert!(walls.contains(e), "missing wall cell {:?}", e);
    }
}

#[test]
fn spawn_lands_strictly_inside_and_off_the_body() {
    let area = GameArea {
        from: (0, 0),
        to: (4, 4),
    };
    let snake = SnakeState {
        lq: LookupPointQueue::new(&vec![(2, 2)]),
    };
    let food = FoodState {
        lq: LookupPointQueue::new(&Vec::new()),
    };
    for _ in 0..50 {
        let p = food.spawn(&area, &snake).expect("a free cell exists");
        assert!(p.0 > 0 && p.0 < 4 && p.1 > 0 && p.1 < 4, "outside interior: {:?}", p);
        assert_ne!(p, (2, 2));
    }
}

#[test]
fn spawn_finds_the_single_free_cell() {
    let area = GameArea {
        from: (0, 0),
        to: (4, 4),
    };
    // all interior cells but (3, 3) are occupied
    let body = vec![
        (1, 1),
        (2, 1),
        (3, 1),
        (1, 2),
        (2, 2),
        (3, 2),
        (1, 3),
        (2, 3),
    ];
    let snake = SnakeState {
        lq: LookupPointQueue::new(&body),
    };
    let food = FoodState {
        lq: LookupPointQueue::new(&Vec::new()),
    };
    assert_eq!(food.spawn(&area, &snake), Some((3, 3)));
}

#[test]
fn spawn_reports_a_full_board() {
    let area = GameArea {
        from: (0, 0),
        to: (4, 4),
    };
    let body = vec![
        (1, 1),
        (2, 1),
        (3, 1),
        (1, 2),
        (2, 2),
        (3, 2),
        (1, 3),
        (2, 3),
        (3, 3),
    ];
    let snake = SnakeState {
        lq: LookupPointQueue::new(&body),
    };
    let food = FoodState {
        lq: LookupPointQueue::new(&Vec::new()),
    };
    assert_eq!(food.spawn(&area, &snake), None);
}

#[test]
fn spawn_excludes_existing_food() {
    let area = GameArea {
        from: (0, 0),
        to: (4, 4),
    };
    let body = vec![
        (1, 1),
        (2, 1),
        (3, 1),
        (1, 2),
        (2, 2),
        (3, 2),
        (1, 3),
    ];
    let snake = SnakeState {
        lq: LookupPointQueue::new(&body),
    };
    let food = FoodState {
        lq: LookupPointQueue::new(&vec![(2, 3)]),
    };
    assert_eq!(food.spawn(&area, &snake), Some((3, 3)));
}

#[test]
fn straight_run_keeps_length_and_shifts_head() {
    // area from (8,8) to (50,25); body [(10,10)]; heading down, no food in path
    let area = GameArea {
        from: (8, 8),
        to: (50, 25),
    };
    let mut g = running_game(area, vec![(10, 10)], vec![(20, 20)], Direction::DOWN);
    for _ in 0..5 {
        g.tick();
    }
    assert_eq!(g.status, GameStatus::Running);
    assert_eq!(g.snake.lq.len(), 1);
    assert_eq!(g.snake.lq.head(), Some((10, 15)));
}

#[test]
fn eating_grows_by_one_and_respawns_food() {
    // head about to step onto the food cell at (10,16)
    let area = GameArea {
        from: (8, 8),
        to: (50, 25),
    };
    let mut g = running_game(area, vec![(10, 15)], vec![(10, 16)], Direction::DOWN);
    g.tick();
    assert_eq!(g.status, GameStatus::Running);
    assert_eq!(g.snake.lq.len(), 2);
    assert_eq!(g.snake.lq.head(), Some((10, 16)));
    assert!(!g.food.lq.lookup(&(10, 16)));
    // a new food cell is present, strictly interior and off the body
    assert_eq!(g.food.lq.len(), 1);
    let f = g.food.lq.get(0);
    assert!(f.0 > 8 && f.0 < 50 && f.1 > 8 && f.1 < 25);
    assert!(!g.snake.lq.lookup(&f));
}

#[test]
fn stepping_into_the_body_terminates_with_self_collision() {
    let area = GameArea {
        from: (8, 8),
        to: (50, 25),
    };
    // reversing onto the second segment
    let mut g = running_game(
        area,
        vec![(10, 10), (11, 10)],
        vec![(20, 20)],
        Direction::RIGHT,
    );
    g.tick();
    assert_eq!(
        g.status,
        GameStatus::Terminated(TerminationReason::SelfCollision)
    );
    // body and food are unchanged
    assert_eq!(g.snake.lq.len(), 2);
    assert_eq!(g.snake.lq.get(0), (10, 10));
    assert_eq!(g.snake.lq.get(1), (11, 10));
    assert_eq!(g.food.lq.len(), 1);
    assert!(g.food.lq.lookup(&(20, 20)));
}

#[test]
fn stepping_onto_the_wall_terminates_with_wall_collision() {
    // head steps onto the boundary cell where x == to.x
    let area = GameArea {
        from: (8, 8),
        to: (50, 25),
    };
    let mut g = running_game(area, vec![(49, 20)], vec![(20, 20)], Direction::RIGHT);
    g.tick();
    assert_eq!(
        g.status,
        GameStatus::Terminated(TerminationReason::WallCollision)
    );
    assert_eq!(g.snake.lq.len(), 1);
    assert_eq!(g.snake.lq.head(), Some((49, 20)));
}

#[test]
fn terminated_is_absorbing() {
    let area = GameArea {
        from: (8, 8),
        to: (50, 25),
    };
    let mut g = running_game(area, vec![(49, 20)], vec![(20, 20)], Direction::RIGHT);
    g.tick();
    assert_eq!(
        g.status,
        GameStatus::Terminated(TerminationReason::WallCollision)
    );
    g.tick();
    g.tick();
    assert_eq!(
        g.status,
        GameStatus::Terminated(TerminationReason::WallCollision)
    );
    assert_eq!(g.snake.lq.len(), 1);
    assert_eq!(g.snake.lq.head(), Some((49, 20)));
}

#[test]
fn turning_changes_the_path() {
    let area = GameArea {
        from: (0, 0),
        to: (20, 20),
    };
    let mut g = running_game(area, vec![(5, 5)], vec![(15, 15)], Direction::DOWN);
    g.tick();
    g.tick();
    g.direction = Direction::RIGHT;
    g.tick();
    assert_eq!(g.status, GameStatus::Running);
    assert_eq!(g.snake.lq.len(), 1);
    assert_eq!(g.snake.lq.head(), Some((6, 7)));
}

#[test]
fn new_session_spawns_food_off_the_seed() {
    let area = GameArea {
        from: (8, 8),
        to: (50, 25),
    };
    let g = GameState::new(area, (9, 9), Direction::DOWN);
    assert_eq!(g.status, GameStatus::Running);
    assert_eq!(g.snake.lq.len(), 1);
    assert_eq!(g.snake.lq.head(), Some((9, 9)));
    assert_eq!(g.food.lq.len(), 1);
    let f = g.food.lq.get(0);
    assert_ne!(f, (9, 9));
    assert!(f.0 > 8 && f.0 < 50 && f.1 > 8 && f.1 < 25);
}

#[test]
fn render_lists_body_walls_and_food() {
    let area = GameArea {
        from: (0, 0),
        to: (6, 6),
    };
    let g = running_game(
        area,
        vec![(3, 3), (3, 4)],
        vec![(2, 2)],
        Direction::UP,
    );
    let cells = g.render();
    assert_eq!(cells[0], ((3, 3), CellGlyph::SnakeHead));
    assert_eq!(cells[1], ((3, 4), CellGlyph::SnakeBody));
    assert_eq!(cells[cells.len() - 1], ((2, 2), CellGlyph::Food));
    let walls = &cells[2..cells.len() - 1];
    for (p, glyph) in walls.iter() {
        assert_eq!(*glyph, CellGlyph::Wall);
        assert!(
            p.0 == 0 || p.0 == 6 || p.1 == 0 || p.1 == 6,
            "not a wall cell: {:?}",
            p
        );
    }
    // every perimeter cell of the 7x7 rectangle is drawn
    for x in 0..=6u16 {
        for y in 0..=6u16 {
            if x == 0 || x == 6 || y == 0 || y == 6 {
                assert!(
                    walls.iter().any(|(p, _)| *p == (x, y)),
                    "missing wall cell {:?}",
                    (x, y)
                );
            }
        }
    }
}

#[test]
fn eating_until_the_board_fills_up() {
    // a 1-cell-wide corridor: interior is x in 1..=3, y == 1
    let area = GameArea {
        from: (0, 0),
        to: (4, 2),
    };
    let mut g = running_game(area, vec![(1, 1)], vec![(2, 1)], Direction::RIGHT);
    g.tick();
    assert_eq!(g.status, GameStatus::Running);
    assert_eq!(g.snake.lq.len(), 2);
    // the only free cell left is (3,1), so the food respawned there
    assert_eq!(g.food.lq.len(), 1);
    assert_eq!(g.food.lq.get(0), (3, 1));
    g.tick();
    assert_eq!(g.status, GameStatus::Running);
    assert_eq!(g.snake.lq.len(), 3);
    // the board is full: no food can spawn any more
    assert_eq!(g.food.lq.len(), 0);
}
