use abalone::{
    is_in_bounds, Abalone, Color, Dir, Error, Move, MoveError, Pos2, SelectionError, Vec2,
    NUM_STARTING_BALLS,
};

const DIRS: [Dir; 6] = [Dir::PosX, Dir::PosY, Dir::PosZ, Dir::NegX, Dir::NegY, Dir::NegZ];

fn p(x: i8, y: i8) -> Pos2 {
    Pos2 { x, y }
}

fn empty_game(turn: Color) -> Abalone {
    let mut game = Abalone::new();
    game.balls = vec![None; 81];
    game.turn = turn;
    game
}

fn put(game: &mut Abalone, x: i8, y: i8, c: Color) {
    *game.get_mut(p(x, y)).unwrap() = Some(c);
}

fn at(game: &Abalone, x: i8, y: i8) -> Option<Color> {
    game.get(p(x, y)).unwrap()
}

fn count(game: &Abalone, c: Color) -> usize {
    game.iter().into_iter().filter(|e| e.2 == Some(c)).count()
}

fn positions(list: &abalone::StackVec<2>) -> Vec<Pos2> {
    list.to_vec()
}

fn positions3(list: &abalone::StackVec<3>) -> Vec<Pos2> {
    list.to_vec()
}

#[test]
fn bounds_admit_61_cells() {
    let mut n = 0;
    for x in -3..12 {
        for y in -3..12 {
            if is_in_bounds(p(x, y)) {
                n += 1;
            }
        }
    }
    assert_eq!(n, 61);
}

#[test]
fn bounds_are_symmetric() {
    for x in -3..12 {
        for y in -3..12 {
            assert_eq!(is_in_bounds(p(x, y)), is_in_bounds(p(y, x)));
        }
    }
}

#[test]
fn bounds_corners() {
    assert!(is_in_bounds(p(0, 0)));
    assert!(is_in_bounds(p(4, 0)));
    assert!(!is_in_bounds(p(5, 0)));
    assert!(is_in_bounds(p(8, 8)));
    assert!(!is_in_bounds(p(0, 5)));
    assert!(!is_in_bounds(p(9, 4)));
    assert!(!is_in_bounds(p(-1, 0)));
}

#[test]
fn iter_lists_every_cell_in_row_major_order() {
    let game = Abalone::new();
    let cells = game.iter();
    assert_eq!(cells.len(), 61);
    assert_eq!(cells[0], (0, 0, Some(Color::Black)));
    assert_eq!(cells[5], (0, 1, Some(Color::Black)));
    assert_eq!(cells[60], (8, 8, Some(Color::White)));
    for w in cells.windows(2) {
        assert!((w[0].1, w[0].0) < (w[1].1, w[1].0));
    }
}

#[test]
fn start_layout_has_14_of_each() {
    let game = Abalone::new();
    assert_eq!(count(&game, Color::Black), NUM_STARTING_BALLS as usize);
    assert_eq!(count(&game, Color::White), 14);
    assert_eq!(game.turn, Color::White);
    assert!(!game.can_undo());
    assert!(!game.can_redo());
}

#[test]
fn start_layout_is_symmetric_under_half_turn() {
    let game = Abalone::new();
    for (x, y, c) in game.iter() {
        let rotated = at(&game, 8 - x, 8 - y);
        assert_eq!(rotated, c.map(|c| c.opposite()));
    }
}

#[test]
fn default_is_start_layout() {
    assert_eq!(Abalone::default(), Abalone::new());
}

#[test]
fn get_off_board_is_none() {
    let game = Abalone::new();
    assert_eq!(game.get(p(8, 0)), None);
    assert_eq!(game.get(p(-1, 4)), None);
    assert_eq!(game.get(p(4, 4)), Some(None));
    assert_eq!(game.get(p(2, 2)), Some(Some(Color::Black)));
}

#[test]
fn get_mut_writes_the_cell() {
    let mut game = Abalone::new();
    assert!(game.get_mut(p(0, 8)).is_none());
    put(&mut game, 4, 4, Color::White);
    assert_eq!(at(&game, 4, 4), Some(Color::White));
}

#[test]
fn magnitude_examples() {
    assert_eq!(Vec2::new(3, 3).mag(), 3);
    assert_eq!(Vec2::new(3, -3).mag(), 6);
    assert_eq!(Vec2::new(0, -2).mag(), 2);
    assert_eq!(Vec2::new(0, 0).mag(), 0);
    assert_eq!(Vec2::new(-2, -1).mag(), 2);
}

#[test]
fn vector_helpers() {
    assert_eq!(Vec2::new(-3, 4).abs(), Vec2::new(3, 4));
    assert_eq!(Vec2::new(-3, 0).norm(), Vec2::new(-1, 0));
    assert_eq!(Vec2::new(5, 5).norm(), Vec2::new(1, 1));
    assert!(Vec2::new(2, 2).is_multiple_of_unit_vec());
    assert!(Vec2::new(0, -3).is_multiple_of_unit_vec());
    assert!(!Vec2::new(2, 1).is_multiple_of_unit_vec());
    assert!(!Vec2::new(2, -2).is_multiple_of_unit_vec());
    assert!(Vec2::new(2, 2).is_parallel(Vec2::new(-1, -1)));
    assert!(!Vec2::new(2, 2).is_parallel(Vec2::new(1, 0)));
    assert!(!Vec2::new(0, 0).is_parallel(Vec2::new(1, 0)));
    assert!(Vec2::new(0, 0).is_parallel(Vec2::new(0, 0)));
    assert_eq!(Vec2::new(1, 1).unit_vec(), Some(Dir::PosZ));
    assert_eq!(Vec2::new(0, -1).unit_vec(), Some(Dir::NegY));
    assert_eq!(Vec2::new(1, -1).unit_vec(), None);
    assert_eq!(Vec2::new(2, 0).unit_vec(), None);
    for d in DIRS {
        assert_eq!(d.vec().unit_vec(), Some(d));
    }
    assert_eq!(Dir::NegZ.vec(), Vec2::new(-1, -1));
    assert_eq!(Pos2::from((2, 3)).add(Vec2::from((1, -1))), p(3, 2));
    assert_eq!(p(5, 1).sub(p(2, 3)), Vec2::new(3, -2));
    assert_eq!(Vec2::new(1, -2).neg(), Vec2::new(-1, 2));
    assert_eq!(Vec2::new(1, -2).mul(3), Vec2::new(3, -6));
    assert_eq!(Color::Black.opposite(), Color::White);
}

#[test]
fn too_many_selected_in_every_direction() {
    let mut game = Abalone::new();
    game.turn = Color::Black;
    for d in DIRS {
        assert_eq!(
            game.check_move([p(4, 0), p(4, 3)], d),
            Err(Error::Selection(SelectionError::TooMany))
        );
    }
    assert_eq!(game.check_selection([p(4, 0), p(4, 3)]), Err(SelectionError::TooMany));
    let empty = empty_game(Color::White);
    for d in DIRS {
        assert_eq!(
            empty.check_move([p(4, 0), p(4, 3)], d),
            Err(Error::Selection(SelectionError::TooMany))
        );
    }
}

#[test]
fn off_axis_selection_is_invalid() {
    let mut game = Abalone::new();
    game.turn = Color::Black;
    for d in DIRS {
        assert_eq!(
            game.check_move([p(0, 0), p(2, 1)], d),
            Err(Error::Selection(SelectionError::InvalidSet))
        );
    }
    assert_eq!(game.check_selection([p(0, 0), p(2, 1)]), Err(SelectionError::InvalidSet));
}

#[test]
fn wrong_turn_is_reported_first() {
    let game = Abalone::new();
    assert_eq!(
        game.check_move([p(0, 0), p(2, 1)], Dir::PosY),
        Err(Error::Selection(SelectionError::WrongTurn(p(0, 0))))
    );
}

#[test]
fn push_away_scenario() {
    let mut game = empty_game(Color::Black);
    put(&mut game, 4, 0, Color::Black);
    put(&mut game, 4, 1, Color::Black);
    put(&mut game, 4, 2, Color::Black);
    put(&mut game, 4, 3, Color::White);
    put(&mut game, 4, 4, Color::White);
    let mov = game.check_move([p(4, 0), p(4, 2)], Dir::PosY).unwrap();
    assert_eq!(mov, Move::PushedAway { first: p(4, 0), last: p(4, 4) });
    game.apply_move(mov);
    assert_eq!(at(&game, 4, 0), None);
    assert_eq!(at(&game, 4, 1), Some(Color::Black));
    assert_eq!(at(&game, 4, 2), Some(Color::Black));
    assert_eq!(at(&game, 4, 3), Some(Color::Black));
    assert_eq!(at(&game, 4, 4), Some(Color::White));
    assert_eq!(at(&game, 4, 5), Some(Color::White));
    assert_eq!(count(&game, Color::Black), 3);
    assert_eq!(count(&game, Color::White), 2);
}

#[test]
fn push_single_opposing_ball_into_empty_cell() {
    let mut game = empty_game(Color::Black);
    put(&mut game, 4, 0, Color::Black);
    put(&mut game, 4, 1, Color::Black);
    put(&mut game, 4, 2, Color::Black);
    put(&mut game, 4, 3, Color::White);
    let mov = game.check_move([p(4, 0), p(4, 2)], Dir::PosY).unwrap();
    assert_eq!(mov, Move::PushedAway { first: p(4, 0), last: p(4, 3) });
    game.apply_move(mov);
    assert_eq!(at(&game, 4, 0), None);
    assert_eq!(at(&game, 4, 3), Some(Color::Black));
    assert_eq!(at(&game, 4, 4), Some(Color::White));
}

#[test]
fn push_off_scenario() {
    let mut game = empty_game(Color::Black);
    put(&mut game, 4, 6, Color::Black);
    put(&mut game, 4, 7, Color::Black);
    put(&mut game, 4, 8, Color::White);
    let mov = game.check_move([p(4, 6), p(4, 7)], Dir::PosY).unwrap();
    assert_eq!(mov, Move::PushedOff { first: p(4, 6), last: p(4, 8) });
    game.apply_move(mov);
    assert_eq!(at(&game, 4, 6), None);
    assert_eq!(at(&game, 4, 7), Some(Color::Black));
    assert_eq!(at(&game, 4, 8), Some(Color::Black));
    assert_eq!(count(&game, Color::White), 0);
    game.unapply_move(mov);
    assert_eq!(at(&game, 4, 6), Some(Color::Black));
    assert_eq!(at(&game, 4, 7), Some(Color::Black));
    assert_eq!(at(&game, 4, 8), Some(Color::White));
}

#[test]
fn selection_given_backwards_is_canonicalized() {
    let mut game = empty_game(Color::Black);
    put(&mut game, 4, 6, Color::Black);
    put(&mut game, 4, 7, Color::Black);
    put(&mut game, 4, 8, Color::White);
    assert_eq!(
        game.check_move([p(4, 7), p(4, 6)], Dir::PosY),
        Ok(Move::PushedOff { first: p(4, 6), last: p(4, 8) })
    );
    assert_eq!(
        game.check_move([p(4, 7), p(4, 6)], Dir::NegY),
        Ok(Move::Moved { dir: Dir::NegY, first: p(4, 7), last: p(4, 6) })
    );
}

#[test]
fn unresisted_inline_move() {
    let game = Abalone::new();
    let mov = game.check_move([p(4, 6), p(4, 7)], Dir::NegY).unwrap();
    assert_eq!(mov, Move::Moved { dir: Dir::NegY, first: p(4, 7), last: p(4, 6) });
    let mov = game.check_move([p(6, 6), p(6, 6)], Dir::NegY).unwrap();
    assert_eq!(mov, Move::Moved { dir: Dir::NegY, first: p(6, 6), last: p(6, 6) });
}

#[test]
fn sideward_move() {
    let game = Abalone::new();
    let mov = game.check_move([p(4, 6), p(6, 6)], Dir::NegY).unwrap();
    assert_eq!(mov, Move::Moved { dir: Dir::NegY, first: p(4, 6), last: p(6, 6) });
    let mut moved = game.clone();
    moved.apply_move(mov);
    assert_eq!(at(&moved, 4, 5), Some(Color::White));
    assert_eq!(at(&moved, 6, 5), Some(Color::White));
    assert_eq!(at(&moved, 5, 6), None);
    moved.unapply_move(mov);
    assert_eq!(moved, game);
}

#[test]
fn sideward_not_free() {
    let game = Abalone::new();
    match game.check_move([p(3, 7), p(5, 7)], Dir::NegY) {
        Err(Error::Move(MoveError::NotFree(list))) => {
            assert_eq!(positions3(&list), vec![p(4, 6), p(5, 6)]);
        }
        other => panic!("unexpected {other:?}"),
    }
}

#[test]
fn sideward_pushed_off() {
    let game = Abalone::new();
    match game.check_move([p(4, 8), p(6, 8)], Dir::NegX) {
        Err(Error::Move(MoveError::PushedOff(list))) => {
            assert_eq!(positions3(&list), vec![p(4, 8)]);
        }
        other => panic!("unexpected {other:?}"),
    }
    match game.check_move([p(4, 8), p(6, 8)], Dir::PosY) {
        Err(Error::Move(MoveError::PushedOff(list))) => {
            assert_eq!(positions3(&list), vec![p(4, 8), p(5, 8), p(6, 8)]);
        }
        other => panic!("unexpected {other:?}"),
    }
}

#[test]
fn inline_pushes_own_ball_off() {
    let game = Abalone::new();
    assert_eq!(
        game.check_move([p(4, 7), p(4, 8)], Dir::PosY).map_err(|e| match e {
            Error::Move(MoveError::PushedOff(list)) => positions3(&list),
            _ => vec![],
        }),
        Err(vec![p(4, 8)])
    );
}

#[test]
fn mixed_set_inline_and_sideward() {
    let mut game = empty_game(Color::Black);
    put(&mut game, 4, 2, Color::Black);
    put(&mut game, 4, 3, Color::White);
    put(&mut game, 4, 4, Color::Black);
    match game.check_move([p(4, 2), p(4, 4)], Dir::PosY) {
        Err(Error::Selection(SelectionError::MixedSet(list))) => {
            assert_eq!(positions(&list), vec![p(4, 3), p(4, 4)]);
        }
        other => panic!("unexpected {other:?}"),
    }
    match game.check_move([p(4, 2), p(4, 4)], Dir::PosX) {
        Err(Error::Selection(SelectionError::MixedSet(list))) => {
            assert_eq!(positions(&list), vec![p(4, 3)]);
        }
        other => panic!("unexpected {other:?}"),
    }
}

#[test]
fn not_a_ball_lists_the_gaps() {
    let mut game = empty_game(Color::Black);
    put(&mut game, 4, 3, Color::Black);
    match game.check_move([p(4, 2), p(4, 4)], Dir::PosX) {
        Err(Error::Selection(SelectionError::NotABall(list))) => {
            assert_eq!(positions3(&list), vec![p(4, 2), p(4, 4)]);
        }
        other => panic!("unexpected {other:?}"),
    }
    put(&mut game, 4, 2, Color::Black);
    match game.check_move([p(4, 2), p(4, 4)], Dir::PosX) {
        Err(Error::Selection(SelectionError::NotABall(list))) => {
            assert_eq!(positions3(&list), vec![p(4, 4)]);
        }
        other => panic!("unexpected {other:?}"),
    }
}

#[test]
fn too_many_inferred() {
    let mut game = empty_game(Color::Black);
    for y in 0..4 {
        put(&mut game, 4, y, Color::Black);
    }
    assert_eq!(
        game.check_move([p(4, 0), p(4, 1)], Dir::PosY),
        Err(Error::Move(MoveError::TooManyInferred { first: p(4, 0), last: p(4, 3) }))
    );
}

#[test]
fn too_many_opposing() {
    let mut game = empty_game(Color::Black);
    put(&mut game, 4, 0, Color::Black);
    put(&mut game, 4, 1, Color::White);
    assert_eq!(
        game.check_move([p(4, 0), p(4, 0)], Dir::PosY),
        Err(Error::Move(MoveError::TooManyOpposing { first: p(4, 1), last: p(4, 1) }))
    );
    put(&mut game, 4, 1, Color::Black);
    put(&mut game, 4, 2, Color::White);
    put(&mut game, 4, 3, Color::White);
    assert_eq!(
        game.check_move([p(4, 0), p(4, 1)], Dir::PosY),
        Err(Error::Move(MoveError::TooManyOpposing { first: p(4, 2), last: p(4, 3) }))
    );
}

#[test]
fn blocked_by_own() {
    let mut game = empty_game(Color::Black);
    put(&mut game, 4, 0, Color::Black);
    put(&mut game, 4, 1, Color::Black);
    put(&mut game, 4, 2, Color::White);
    put(&mut game, 4, 3, Color::Black);
    assert_eq!(
        game.check_move([p(4, 0), p(4, 1)], Dir::PosY),
        Err(Error::Move(MoveError::BlockedByOwn(p(4, 3))))
    );
}

#[test]
fn no_possible_move() {
    let mut game = empty_game(Color::Black);
    put(&mut game, 0, 0, Color::Black);
    put(&mut game, 1, 0, Color::White);
    put(&mut game, 0, 1, Color::White);
    put(&mut game, 1, 1, Color::White);
    assert_eq!(game.check_selection([p(0, 0), p(0, 0)]), Err(SelectionError::NoPossibleMove));
    let start = Abalone::new();
    assert_eq!(start.check_selection([p(4, 6), p(6, 6)]), Ok(()));
}

#[test]
fn error_list_accessors() {
    let mut list: abalone::StackVec<3> = abalone::StackVec::new();
    assert!(list.is_empty());
    list.push(p(1, 2));
    list.push(p(3, 4));
    assert_eq!(list.len(), 2);
    assert_eq!(list.get(1), Some(p(3, 4)));
    assert_eq!(list.get(2), None);
}

#[test]
fn apply_then_unapply_restores_every_legal_move() {
    let game = Abalone::new();
    let mut tried = 0;
    for (x, y, _) in game.iter() {
        for (x2, y2, _) in game.iter() {
            for d in DIRS {
                if let Ok(mov) = game.check_move([p(x, y), p(x2, y2)], d) {
                    let mut g = game.clone();
                    g.apply_move(mov);
                    assert_ne!(g.balls, game.balls);
                    g.unapply_move(mov);
                    assert_eq!(g, game);
                    tried += 1;
                }
            }
        }
    }
    assert!(tried > 0);
}

#[test]
fn submit_then_undo_restores_board_and_turn() {
    let mut game = Abalone::new();
    let before = game.clone();
    let mov = game.check_move([p(4, 6), p(4, 7)], Dir::NegY).unwrap();
    game.submit_move(mov);
    assert_eq!(game.turn, Color::Black);
    assert!(game.can_undo());
    assert!(!game.can_redo());
    assert_eq!(at(&game, 4, 5), Some(Color::White));
    game.undo_move();
    assert_eq!(game.balls, before.balls);
    assert_eq!(game.turn, before.turn);
    assert!(game.can_redo());
    game.redo_move();
    assert_eq!(at(&game, 4, 5), Some(Color::White));
    assert_eq!(game.turn, Color::Black);
}

#[test]
fn submit_after_undo_truncates_history() {
    let mut game = Abalone::new();
    let first = game.check_move([p(4, 6), p(4, 7)], Dir::NegY).unwrap();
    game.submit_move(first);
    game.undo_move();
    let other = game.check_move([p(6, 6), p(6, 7)], Dir::NegY).unwrap();
    game.submit_move(other);
    assert_eq!(game.moves, vec![other]);
    assert!(!game.can_redo());
    let snapshot = game.clone();
    game.redo_move();
    assert_eq!(game, snapshot);
}

#[test]
fn undo_and_redo_without_history_do_nothing() {
    let mut game = Abalone::new();
    let before = game.clone();
    game.undo_move();
    assert_eq!(game, before);
    game.redo_move();
    assert_eq!(game, before);
}

#[test]
fn color_from_code() {
    assert_eq!(Color::try_from(0u8), Ok(Color::Black));
    assert_eq!(Color::try_from(1u8), Ok(Color::White));
    assert_eq!(Color::try_from(2u8), Err(()));
}

#[test]
fn encode_layout() {
    let game = Abalone::new();
    let bytes = game.encode();
    assert_eq!(bytes.len(), 83);
    assert_eq!(bytes[0], 1);
    assert_eq!(bytes[1], 1);
    assert_eq!(bytes[1 + 8 * 9 + 8], 2);
    assert_eq!(bytes[1 + 4 * 9 + 4], 0);
    assert_eq!(bytes[82], 0);
}

#[test]
fn encode_decode_round_trip() {
    let mut game = Abalone::new();
    assert_eq!(Abalone::decode(&game.encode()), Some(game.clone()));
    let a = game.check_move([p(4, 6), p(4, 7)], Dir::NegY).unwrap();
    game.submit_move(a);
    let b = game.check_move([p(2, 2), p(4, 2)], Dir::PosY).unwrap();
    game.submit_move(b);
    game.undo_move();
    let bytes = game.encode();
    assert_eq!(bytes.len(), 82 + 6 + 1 + 6);
    assert_eq!(bytes[82], 3);
    assert_eq!(bytes[88], 0);
    let back = Abalone::decode(&bytes).unwrap();
    assert_eq!(back, game);
    assert!(back.can_redo());
}

#[test]
fn decode_rejects_malformed_bytes() {
    let good = Abalone::new().encode();
    assert_eq!(Abalone::decode(&good[..81]), None);
    let mut bad_turn = good.clone();
    bad_turn[0] = 2;
    assert_eq!(Abalone::decode(&bad_turn), None);
    let mut bad_cell = good.clone();
    bad_cell[10] = 3;
    assert_eq!(Abalone::decode(&bad_cell), None);
    let no_cursor = good[..82].to_vec();
    assert_eq!(Abalone::decode(&no_cursor), None);
    let mut two_cursors = good.clone();
    two_cursors.push(0);
    assert_eq!(Abalone::decode(&two_cursors), None);
    let mut truncated = good.clone();
    truncated.extend_from_slice(&[2, 4, 0, 4]);
    assert_eq!(Abalone::decode(&truncated), None);
    let mut off_board = good.clone();
    off_board.extend_from_slice(&[2, 8, 0, 8, 1]);
    assert_eq!(Abalone::decode(&off_board), None);
    let mut bad_dir = good.clone();
    bad_dir.extend_from_slice(&[3, 6, 4, 4, 4, 4]);
    assert_eq!(Abalone::decode(&bad_dir), None);
    let mut unknown_tag = good.clone();
    unknown_tag.extend_from_slice(&[7, 0, 0, 0, 0]);
    assert_eq!(Abalone::decode(&unknown_tag), None);
    let mut fine = good.clone();
    fine.extend_from_slice(&[3, 4, 4, 4, 4, 4]);
    let decoded = Abalone::decode(&fine).unwrap();
    assert_eq!(decoded.moves, vec![Move::Moved { dir: Dir::NegY, first: p(4, 4), last: p(4, 4) }]);
    assert_eq!(decoded.move_idx, 0);
}
