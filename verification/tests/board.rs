use ultimate_ttt::Bitboard;
use ultimate_ttt::FieldStatus;
use ultimate_ttt::Move;

/// Look the move up in the legal list (so only legal moves are ever
/// played) and apply it, returning the record needed to undo it.
fn play(b: &mut Bitboard, field: u8, cell: u8) -> Move {
    let square = 1u16 << cell;
    let mov = b
        .get_all_moves()
        .into_iter()
        .find(|m| m.pos.field == field && m.pos.square == square)
        .expect("requested move must be legal");
    b.make_move(mov.pos);
    mov
}

fn occupancies(b: &Bitboard) -> Vec<(u16, u16)> {
    (0..9u8).map(|f| b.get_fields(f)).collect()
}

fn statuses(b: &Bitboard) -> Vec<FieldStatus> {
    (0..9u8).map(|f| b.get_field_status(f)).collect()
}

fn move_list(b: &Bitboard) -> Vec<(u8, u16)> {
    b.get_all_moves().iter().map(|m| (m.pos.field, m.pos.square)).collect()
}

#[test]
fn status_methods() {
    assert!(!FieldStatus::Undecided.blocked());
    assert!(FieldStatus::Tied.blocked());
    assert!(FieldStatus::WonBy(0).blocked());
    assert!(FieldStatus::WonBy(0).won(0));
    assert!(!FieldStatus::WonBy(0).won(1));
    assert!(FieldStatus::WonBy(1).won(1));
    assert!(!FieldStatus::Tied.won(0));
    assert!(!FieldStatus::Undecided.won(1));
    assert_eq!(FieldStatus::default(), FieldStatus::Undecided);
}

#[test]
fn fresh_board_is_open_and_unconstrained() {
    let b = Bitboard::new();
    assert!(!b.game_over());
    for f in 0..9u8 {
        assert_eq!(b.get_fields(f), (0, 0));
        assert_eq!(b.get_field_status(f), FieldStatus::Undecided);
    }
    assert_eq!(b.get_all_moves().len(), 81);
}

#[test]
fn make_undo_restores_initial_state() {
    let mut b = Bitboard::new();
    let mov = play(&mut b, 4, 0);
    assert_eq!(b.get_fields(4), (1, 0));
    b.undo_move(&mov);
    assert_eq!(occupancies(&b), vec![(0, 0); 9]);
    assert_eq!(statuses(&b), vec![FieldStatus::Undecided; 9]);
    assert!(!b.game_over());
    assert_eq!(b.get_all_moves().len(), 81);
}

#[test]
fn make_undo_restores_mid_game_state() {
    let mut b = Bitboard::new();
    play(&mut b, 4, 0);
    play(&mut b, 0, 4);
    play(&mut b, 4, 8);
    let occ = occupancies(&b);
    let st = statuses(&b);
    let over = b.game_over();
    let moves = move_list(&b);
    let mov = play(&mut b, 8, 4);
    b.undo_move(&mov);
    assert_eq!(occupancies(&b), occ);
    assert_eq!(statuses(&b), st);
    assert_eq!(b.game_over(), over);
    assert_eq!(move_list(&b), moves);
}

#[test]
fn won_subboard_reports_winner_and_is_excluded() {
    let mut b = Bitboard::new();
    // Player 0 collects the 0-4-8 diagonal of sub-board 4; player 1 is
    // bounced to other sub-boards in between.
    play(&mut b, 4, 0);
    play(&mut b, 0, 4);
    play(&mut b, 4, 8);
    play(&mut b, 8, 4);
    play(&mut b, 4, 4);
    assert_eq!(b.get_field_status(4), FieldStatus::WonBy(0));
    assert!(!b.game_over());
    // The winning move's cell names the decided sub-board itself, so
    // the constraint lifts; every open sub-board is enumerated, but
    // none of sub-board 4's remaining empty cells appear.
    let moves = move_list(&b);
    assert!(moves.iter().all(|&(f, _)| f != 4));
    assert_eq!(moves.len(), 70);
}

#[test]
fn tied_subboard_reports_tied_and_is_excluded() {
    let mut b = Bitboard::new();
    // Fill sub-board 4 completely with no line for either player:
    // player 0 takes cells {0, 1, 4, 5, 6}, player 1 takes {2, 3, 7, 8}.
    for &(f, c) in [
        (4u8, 0u8),
        (0, 4),
        (4, 1),
        (1, 4),
        (4, 5),
        (5, 4),
        (4, 6),
        (6, 4),
        (4, 4),
        (4, 2),
        (2, 4),
        (4, 3),
        (3, 4),
        (4, 7),
        (7, 4),
        (4, 8),
    ]
    .iter()
    {
        play(&mut b, f, c);
    }
    assert_eq!(b.get_field_status(4), FieldStatus::Tied);
    assert!(!b.game_over());
    let moves = move_list(&b);
    assert!(moves.iter().all(|&(f, _)| f != 4));
    // The last move's cell index sends the opponent to sub-board 8,
    // which is still empty.
    assert!(moves.iter().all(|&(f, _)| f == 8));
    assert_eq!(moves.len(), 9);
}

#[test]
fn meta_line_sets_game_over_and_stops_enumeration() {
    let mut b = Bitboard::new();
    // Player 0 wins sub-boards 0, 1 and 2 (middle row, then the bottom
    // row for sub-board 2), a winning line of the macro board.
    let script = [
        (0u8, 3u8),
        (3, 0),
        (0, 4),
        (4, 0),
        (0, 5),
        (5, 1),
        (1, 3),
        (3, 1),
        (1, 4),
        (4, 1),
        (1, 5),
        (5, 2),
        (2, 6),
        (6, 2),
        (2, 7),
        (7, 2),
        (2, 8),
    ];
    let mut records = Vec::new();
    for &(f, c) in script.iter() {
        records.push(play(&mut b, f, c));
    }
    assert_eq!(b.get_field_status(0), FieldStatus::WonBy(0));
    assert_eq!(b.get_field_status(1), FieldStatus::WonBy(0));
    assert_eq!(b.get_field_status(2), FieldStatus::WonBy(0));
    assert!(b.game_over());
    assert_eq!(b.get_all_moves().len(), 0);
    // Undoing the winning move reopens the game.
    b.undo_move(&records.pop().unwrap());
    assert!(!b.game_over());
    // Sub-board 2 is the forced target again; cells 6 and 7 are taken.
    assert_eq!(b.get_all_moves().len(), 7);
}

#[test]
fn constraint_bounds_move_count() {
    let mut b = Bitboard::new();
    play(&mut b, 4, 0);
    // Forced into the still-empty sub-board 0.
    let moves = move_list(&b);
    assert!(moves.iter().all(|&(f, _)| f == 0));
    assert_eq!(moves.len(), 9);

    let mut b2 = Bitboard::new();
    play(&mut b2, 4, 4);
    // Forced back into sub-board 4, where one cell is now taken.
    let moves2 = move_list(&b2);
    assert!(moves2.iter().all(|&(f, _)| f == 4));
    assert_eq!(moves2.len(), 8);
}
