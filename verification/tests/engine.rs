use stacker_engine::next_queue::NextQueue;
use stacker_engine::{
    Action, Direction, Engine, GameConfig, HoldPiece, Input, PieceKind, PILE_HEIGHT, PILE_WIDTH,
};

fn config() -> GameConfig {
    GameConfig { das: 10, arr: 2, are: 5, gravity: 60, softdrop: 5, clear_delay: 20 }
}

fn run(engine: &mut Engine, frames: usize) {
    for _ in 0..frames {
        engine.update(&[]);
    }
}

fn all_distinct(pieces: &[PieceKind]) -> bool {
    for i in 0..pieces.len() {
        for j in 0..i {
            if pieces[i] == pieces[j] {
                return false;
            }
        }
    }
    true
}

#[test]
fn new_engine_is_empty() {
    let engine = Engine::new(7, config());
    assert!(engine.active_piece().is_none());
    assert!(engine.ghost_piece().is_none());
    assert_eq!(*engine.hold(), HoldPiece::Empty);
    assert!(!engine.game_over());
    assert_eq!(engine.next_queue().len(), 5);
    assert!(all_distinct(&engine.next_queue()));
    for row in engine.pile().iter() {
        for cell in row.iter() {
            assert!(cell.is_none());
        }
    }
}

#[test]
fn first_piece_spawns_after_sixty_frames_and_falls_a_row() {
    let mut engine = Engine::new(1, config());
    let first = engine.next_queue()[0];
    run(&mut engine, 59);
    assert!(engine.active_piece().is_none());
    run(&mut engine, 1);
    let piece = engine.active_piece().clone().unwrap();
    assert_eq!(piece.kind, first);
    assert_eq!(piece.x, 4);
    assert_eq!(piece.y, 21);
    let ghost = engine.ghost_piece().clone().unwrap();
    assert_eq!(ghost.x, 4);
    assert_eq!(ghost.kind, first);
    let lowest = ghost.blocks.iter().map(|b| b.1).min().unwrap();
    assert_eq!(lowest, 0);
}

#[test]
fn hard_drop_locks_the_ghost_into_the_pile() {
    let mut engine = Engine::new(3, config());
    run(&mut engine, 60);
    let ghost = engine.ghost_piece().clone().unwrap();
    engine.update(&[Input::Begin(Action::Harddrop)]);
    assert!(engine.active_piece().is_none());
    assert!(engine.ghost_piece().is_none());
    for (x, y) in ghost.blocks {
        assert_eq!(engine.pile()[y as usize][x as usize], Some(ghost.kind));
    }
    let mut filled = 0;
    for row in engine.pile().iter() {
        for cell in row.iter() {
            if cell.is_some() {
                filled += 1;
            }
        }
    }
    assert_eq!(filled, 4);
    // the next piece spawns after the entry delay
    run(&mut engine, 5);
    assert!(engine.active_piece().is_some());
}

#[test]
fn hold_swaps_once_per_piece() {
    let mut engine = Engine::new(11, config());
    run(&mut engine, 60);
    let first = engine.active_piece().clone().unwrap().kind;
    let next = engine.next_queue()[0];
    engine.update(&[Input::Begin(Action::Hold)]);
    assert_eq!(*engine.hold(), HoldPiece::Locked(first));
    assert_eq!(engine.active_piece().clone().unwrap().kind, next);
    let before = engine.active_piece().clone();
    engine.update(&[Input::Begin(Action::Hold)]);
    assert_eq!(*engine.hold(), HoldPiece::Locked(first));
    assert_eq!(engine.active_piece().clone().unwrap().kind, before.unwrap().kind);
    engine.update(&[Input::Begin(Action::Harddrop)]);
    assert_eq!(*engine.hold(), HoldPiece::Unlocked(first));
}

#[test]
fn move_left_then_right_returns() {
    let mut engine = Engine::new(5, config());
    run(&mut engine, 60);
    let start = engine.active_piece().clone().unwrap();
    engine.update(&[Input::Begin(Action::Move(Direction::Left)), Input::End(Action::Move(Direction::Left))]);
    let left = engine.active_piece().clone().unwrap();
    assert_eq!(left.x, start.x - 1);
    engine.update(&[Input::Begin(Action::Move(Direction::Right)), Input::End(Action::Move(Direction::Right))]);
    let back = engine.active_piece().clone().unwrap();
    assert_eq!(back.x, start.x);
    assert_eq!(back.orientation, start.orientation);
}

#[test]
fn held_move_repeats_to_the_wall_with_zero_repeat_delay() {
    let cfg = GameConfig { das: 3, arr: 0, are: 5, gravity: 600, softdrop: 5, clear_delay: 20 };
    let mut engine = Engine::new(9, cfg);
    run(&mut engine, 60);
    engine.update(&[Input::Begin(Action::Move(Direction::Left))]);
    run(&mut engine, 3);
    let piece = engine.active_piece().clone().unwrap();
    let leftmost = piece.blocks.iter().map(|b| b.0).min().unwrap();
    assert_eq!(leftmost, 0);
}

#[test]
fn stacking_without_clearing_ends_the_game_and_freezes_it() {
    let cfg = GameConfig { das: 10, arr: 2, are: 1, gravity: 60, softdrop: 5, clear_delay: 1 };
    let mut engine = Engine::new(2, cfg);
    run(&mut engine, 60);
    let mut frames = 0;
    while !engine.game_over() && frames < 10_000 {
        engine.update(&[Input::Begin(Action::Harddrop)]);
        frames += 1;
    }
    assert!(engine.game_over());
    let pile_before = *engine.pile();
    let active_before = engine.active_piece().clone();
    engine.update(&[Input::Begin(Action::Harddrop), Input::Begin(Action::Hold)]);
    run(&mut engine, 100);
    assert_eq!(*engine.pile(), pile_before);
    assert_eq!(*engine.active_piece(), active_before);
}

#[test]
fn queue_deals_whole_bags() {
    let mut queue = NextQueue::new(1234);
    let mut taken = Vec::new();
    for _ in 0..28 {
        taken.push(queue.pull());
    }
    for k in 0..4 {
        assert!(all_distinct(&taken[7 * k..7 * k + 7]));
    }
    assert!(queue.pieces().len() >= 5);
}

#[test]
fn same_seed_same_queue() {
    let a = Engine::new(42, config());
    let b = Engine::new(42, config());
    assert_eq!(a.next_queue(), b.next_queue());
}

#[test]
fn pile_dimensions() {
    let engine = Engine::new(0, config());
    assert_eq!(engine.pile().len(), PILE_HEIGHT);
    assert_eq!(engine.pile()[0].len(), PILE_WIDTH);
}

#[test]
fn soft_drop_falls_at_once() {
    let mut engine = Engine::new(4, config());
    run(&mut engine, 60);
    let y = engine.active_piece().clone().unwrap().y;
    engine.update(&[Input::Begin(Action::Softdrop)]);
    assert_eq!(engine.active_piece().clone().unwrap().y, y - 1);
    run(&mut engine, 5);
    assert_eq!(engine.active_piece().clone().unwrap().y, y - 2);
}

#[test]
fn rotate_right_turns_east() {
    let mut engine = Engine::new(6, config());
    run(&mut engine, 60);
    engine.update(&[Input::Begin(Action::Rotate(Direction::Right))]);
    let p = engine.active_piece().clone().unwrap();
    assert_eq!(p.orientation, stacker_engine::Orientation::E);
    engine.update(&[Input::Begin(Action::Flip)]);
    assert_eq!(engine.active_piece().clone().unwrap().orientation, stacker_engine::Orientation::W);
    engine.update(&[Input::Begin(Action::Rotate(Direction::Left))]);
    assert_eq!(engine.active_piece().clone().unwrap().orientation, stacker_engine::Orientation::S);
}

#[test]
fn bags_are_shuffled() {
    let declaration_order = [PieceKind::I, PieceKind::J, PieceKind::L, PieceKind::O, PieceKind::S];
    let mut shuffled = false;
    for seed in 0..20 {
        let engine = Engine::new(seed, config());
        if engine.next_queue() != declaration_order.to_vec() {
            shuffled = true;
        }
    }
    assert!(shuffled);
}

fn pile_has_full_row(engine: &Engine) -> bool {
    engine.pile().iter().any(|row| row.iter().all(|c| c.is_some()))
}

fn check_ghost(engine: &Engine) {
    if engine.game_over() {
        return;
    }
    match engine.active_piece() {
        None => assert!(engine.ghost_piece().is_none()),
        Some(p) => {
            let g = engine.ghost_piece().clone().unwrap();
            assert_eq!(g.x, p.x);
            assert_eq!(g.kind, p.kind);
            assert_eq!(g.orientation, p.orientation);
            assert!(g.y <= p.y);
            assert!(!pile_has_full_row(engine));
            let below = g.changed_by(0, -1, 0);
            let blocked = below.blocks.iter().any(|&(x, y)| {
                x < 0 || x >= PILE_WIDTH as i32 || y < 0 || y >= PILE_HEIGHT as i32
                    || engine.pile()[y as usize][x as usize].is_some()
            });
            assert!(blocked);
        }
    }
}

#[test]
fn ghost_follows_the_piece_through_a_game() {
    let mut engine = Engine::new(21, config());
    let moves = [
        Input::Begin(Action::Move(Direction::Left)),
        Input::End(Action::Move(Direction::Left)),
        Input::Begin(Action::Rotate(Direction::Right)),
        Input::Begin(Action::Move(Direction::Right)),
        Input::End(Action::Move(Direction::Right)),
        Input::Begin(Action::Harddrop),
    ];
    for frame in 0..2000usize {
        if frame % 7 == 0 {
            engine.update(&[moves[(frame / 7) % moves.len()]]);
        } else {
            engine.update(&[]);
        }
        check_ghost(&engine);
    }
}

#[test]
fn hold_press_while_locked_changes_nothing() {
    let mut a = Engine::new(13, config());
    let mut b = Engine::new(13, config());
    run(&mut a, 60);
    run(&mut b, 60);
    a.update(&[Input::Begin(Action::Hold)]);
    b.update(&[Input::Begin(Action::Hold)]);
    a.update(&[Input::Begin(Action::Hold)]);
    b.update(&[]);
    assert_eq!(a.active_piece(), b.active_piece());
    assert_eq!(a.ghost_piece(), b.ghost_piece());
    assert_eq!(a.hold(), b.hold());
    assert_eq!(a.next_queue(), b.next_queue());
}

#[test]
fn releasing_keys_changes_nothing() {
    let mut a = Engine::new(17, config());
    let mut b = Engine::new(17, config());
    run(&mut a, 61);
    run(&mut b, 61);
    a.update(&[
        Input::End(Action::Hold),
        Input::End(Action::Flip),
        Input::End(Action::Rotate(Direction::Left)),
        Input::End(Action::Harddrop),
    ]);
    b.update(&[]);
    assert_eq!(a.active_piece(), b.active_piece());
    assert_eq!(a.ghost_piece(), b.ghost_piece());
    assert_eq!(a.hold(), b.hold());
}

#[test]
fn queue_front_is_the_next_piece_spawned() {
    let mut engine = Engine::new(29, config());
    run(&mut engine, 60);
    for _ in 0..8 {
        let next = engine.next_queue()[0];
        engine.update(&[Input::Begin(Action::Harddrop)]);
        run(&mut engine, 5);
        assert_eq!(engine.active_piece().clone().unwrap().kind, next);
        assert_eq!(engine.next_queue().len(), 5);
    }
}

#[test]
fn cloned_engine_plays_the_same() {
    let mut a = Engine::new(31, config());
    run(&mut a, 60);
    let mut b = a.clone();
    for _ in 0..10 {
        a.update(&[Input::Begin(Action::Harddrop)]);
        b.update(&[Input::Begin(Action::Harddrop)]);
        run(&mut a, 5);
        run(&mut b, 5);
        assert_eq!(a.active_piece(), b.active_piece());
        assert_eq!(a.next_queue(), b.next_queue());
        assert_eq!(a.pile(), b.pile());
    }
}

#[test]
fn queue_depends_on_the_seed_alone() {
    let a = Engine::new(99, config());
    let b = Engine::new(99, GameConfig { das: 3, arr: 0, are: 1, gravity: 2, softdrop: 1, clear_delay: 1 });
    assert_eq!(a.next_queue(), b.next_queue());
}
