use stacker_engine::engine::Timer;
use stacker_engine::piece::{kick_offset, kick_offset_part};
use stacker_engine::pile::row_is_full;
use stacker_engine::{Direction, Orientation, Piece, PieceKind, Pile};

#[test]
fn t_blocks_in_each_orientation() {
    assert_eq!(PieceKind::T.blocks(Orientation::N), [(0, 0), (-1, 0), (0, 1), (1, 0)]);
    assert_eq!(PieceKind::T.blocks(Orientation::E), [(0, 0), (0, 1), (1, 0), (0, -1)]);
    assert_eq!(PieceKind::I.blocks(Orientation::W), [(0, 0), (0, -1), (0, 1), (0, 2)]);
    assert_eq!(PieceKind::O.blocks(Orientation::S), [(0, 0), (0, -1), (-1, -1), (-1, 0)]);
}

#[test]
fn every_shape_turns_clockwise_about_its_pivot() {
    let kinds = [PieceKind::I, PieceKind::J, PieceKind::L, PieceKind::O, PieceKind::S, PieceKind::T, PieceKind::Z];
    let orientations = [Orientation::N, Orientation::E, Orientation::S, Orientation::W];
    for k in kinds {
        for o in orientations {
            let turned = k.blocks(o.rotate_cw(1));
            for (x, y) in k.blocks(o) {
                assert!(turned.contains(&(y, -x)));
            }
        }
    }
}

#[test]
fn rotate_cw_counts_quarter_turns() {
    assert_eq!(Orientation::N.rotate_cw(1), Orientation::E);
    assert_eq!(Orientation::N.rotate_cw(3), Orientation::W);
    assert_eq!(Orientation::W.rotate_cw(2), Orientation::E);
    assert_eq!(Orientation::S.rotate_cw(4), Orientation::S);
    assert_eq!(Orientation::S.rotate_cw(0), Orientation::S);
    assert_eq!(Orientation::S.rotate_cw(-3), Orientation::S);
}

#[test]
fn kick_offsets() {
    assert_eq!(kick_offset(PieceKind::I, Orientation::N, Orientation::E, 1), (-1, 0));
    assert_eq!(kick_offset(PieceKind::T, Orientation::N, Orientation::E, 0), (0, 0));
    assert_eq!(kick_offset(PieceKind::T, Orientation::N, Orientation::E, 3), (0, -2));
    assert_eq!(kick_offset(PieceKind::O, Orientation::N, Orientation::E, 2), (0, 1));
    assert_eq!(kick_offset_part(PieceKind::J, Orientation::W, 4), (-1, 2));
}

#[test]
fn spawned_t_piece() {
    let p = Piece::spawn(PieceKind::T);
    assert_eq!(p.x, 4);
    assert_eq!(p.y, 22);
    assert_eq!(p.orientation, Orientation::N);
    assert_eq!(p.blocks, [(4, 22), (3, 22), (4, 23), (5, 22)]);
    assert_eq!(p.lowest_y(), 22);
    let q = p.changed_by(-1, -2, 1);
    assert_eq!(q.x, 3);
    assert_eq!(q.y, 20);
    assert_eq!(q.orientation, Orientation::E);
    assert_eq!(q.blocks, [(3, 20), (3, 21), (4, 20), (3, 19)]);
    assert_eq!(q.lowest_y(), 19);
}

#[test]
fn direction_offsets() {
    assert_eq!(Direction::Left.offset(), -1);
    assert_eq!(Direction::Right.offset(), 1);
}

#[test]
fn countdown_fires_once_at_zero() {
    let mut t = Timer::new();
    assert!(!t.tick());
    t.set(3);
    assert!(!t.tick());
    assert!(!t.tick());
    assert!(t.tick());
    assert!(!t.tick());
    t.set(2);
    t.stop();
    assert!(!t.tick());
}

#[test]
fn collision_with_walls_floor_and_cells() {
    let mut pile = Pile::new();
    assert!(!pile.check_collision(&[(0, 0), (9, 39)]));
    assert!(pile.check_collision(&[(-1, 0)]));
    assert!(pile.check_collision(&[(10, 0)]));
    assert!(pile.check_collision(&[(0, -1)]));
    assert!(pile.check_collision(&[(0, 40)]));
    pile.0[5][3] = Some(PieceKind::S);
    assert!(pile.check_collision(&[(0, 0), (3, 5)]));
    assert!(!pile.check_collision(&[]));
}

#[test]
fn line_clear_drops_rows_above_full_ones() {
    let mut pile = Pile::new();
    pile.0[0] = [Some(PieceKind::I); 10];
    pile.0[1][2] = Some(PieceKind::J);
    pile.0[2] = [Some(PieceKind::L); 10];
    pile.0[3][7] = Some(PieceKind::Z);
    assert!(pile.any_lines_to_clear());
    assert!(row_is_full(&pile.0[0]));
    assert!(!row_is_full(&pile.0[1]));
    pile.line_clear();
    assert!(!pile.any_lines_to_clear());
    assert_eq!(pile.0[0][2], Some(PieceKind::J));
    assert_eq!(pile.0[1][7], Some(PieceKind::Z));
    for y in 2..40 {
        for x in 0..10 {
            assert_eq!(pile.0[y][x], None);
        }
    }
    let once = pile;
    pile.line_clear();
    assert_eq!(pile, once);
}

#[test]
fn full_top_row_is_cleared() {
    let mut pile = Pile::new();
    pile.0[39] = [Some(PieceKind::O); 10];
    pile.line_clear();
    assert_eq!(pile, Pile::new());
}

#[test]
fn o_piece_turns_in_place() {
    let orientations = [Orientation::N, Orientation::E, Orientation::S, Orientation::W];
    for from in orientations {
        for n in 1..4 {
            let to = from.rotate_cw(n);
            let (kx, ky) = kick_offset(PieceKind::O, from, to, 0);
            let before = PieceKind::O.blocks(from);
            for (x, y) in PieceKind::O.blocks(to) {
                assert!(before.contains(&(x + kx, y + ky)));
            }
        }
    }
}
