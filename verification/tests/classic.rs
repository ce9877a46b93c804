use stacker_engine::classic::{Engine, FRAME_TIME};
use stacker_engine::PieceKind;

#[test]
fn classic_starts_with_a_t_piece() {
    let engine = Engine::new();
    let p = engine.active_piece();
    assert_eq!(p.kind, PieceKind::T);
    assert_eq!((p.x, p.y), (4, 22));
}

#[test]
fn classic_gravity_after_sixty_frames() {
    let mut engine = Engine::new();
    for _ in 0..59 {
        engine.frame();
    }
    assert_eq!(engine.active_piece().y, 22);
    engine.frame();
    assert_eq!(engine.active_piece().y, 21);
}

#[test]
fn classic_update_counts_whole_frames() {
    let mut engine = Engine::new();
    engine.update(FRAME_TIME * 59 + FRAME_TIME / 2);
    assert_eq!(engine.active_piece().y, 22);
    assert_eq!(engine.residue_time, FRAME_TIME / 2);
    engine.update(FRAME_TIME / 2);
    assert_eq!(engine.active_piece().y, 21);
    assert_eq!(engine.residue_time, 0);
}

#[test]
fn classic_hard_drop_lands_on_the_floor() {
    let mut engine = Engine::new();
    engine.frame_actions.harddrop = true;
    engine.frame();
    assert!(!engine.frame_actions.harddrop);
    let pile = engine.pile();
    assert_eq!(pile[0][3], Some(PieceKind::T));
    assert_eq!(pile[0][4], Some(PieceKind::T));
    assert_eq!(pile[0][5], Some(PieceKind::T));
    assert_eq!(pile[1][4], Some(PieceKind::T));
    assert_eq!(engine.active_piece().y, 22);
}

#[test]
fn classic_moves_and_repeats() {
    let mut engine = Engine::new();
    engine.frame_actions.begin_move_left = true;
    engine.frame();
    assert_eq!(engine.active_piece().x, 3);
    for _ in 0..5 {
        engine.frame();
    }
    assert_eq!(engine.active_piece().x, 3);
    // the repeat counter reaches six on the seventh frame, then every frame
    engine.frame();
    assert_eq!(engine.active_piece().x, 2);
    engine.frame();
    assert_eq!(engine.active_piece().x, 1);
    engine.frame_actions.end_move_left = true;
    engine.frame();
    assert_eq!(engine.active_piece().x, 1);
    assert_eq!(engine.das_time, 0);
}

#[test]
fn classic_turns_in_place() {
    let mut engine = Engine::new();
    engine.frame_actions.rotate_right = true;
    engine.frame();
    assert_eq!(engine.active_piece().orientation, stacker_engine::Orientation::E);
    engine.frame_actions.flip = true;
    engine.frame();
    assert_eq!(engine.active_piece().orientation, stacker_engine::Orientation::W);
}

#[test]
fn classic_new_game_starts_empty_and_still() {
    let e = Engine::new();
    for row in e.pile().iter() {
        for cell in row.iter() {
            assert!(cell.is_none());
        }
    }
    assert_eq!(e.gravity_time, 0);
    assert_eq!(e.das_time, 0);
    assert!(e.das.is_none());
    assert!(!e.move_left && !e.move_right && !e.softdrop);
    assert_eq!(e.residue_time, 0);
}
