use connect_four::game::{
    BoardStatus, Column, ColumnConversionError, ConnectFourBoard, MoveError, Player, Slot,
};
use connect_four::win::has_winner;

#[test]
fn default_board() {
    let board = ConnectFourBoard::default();

    assert_eq!(0, board.player_one_bitboard());
    assert_eq!(0, board.player_two_bitboard());
    assert_eq!(Player::One, board.current_player());
    assert_eq!(BoardStatus::OnGoing, board.status());
}

#[test]
fn places_piece_in_column_one() {
    let mut board = ConnectFourBoard::default();
    let next_pos = board.try_move(Column::One).unwrap();
    assert_eq!(
        0b000000_0000000_0000000_0000000_0000000_0000000_0000001,
        next_pos
    );
}

#[test]
fn places_piece_in_column_two() {
    let mut board = ConnectFourBoard::default();
    let next_pos = board.try_move(Column::Two).unwrap();
    assert_eq!(
        0b0000000_0000000_0000000_0000000_0000000_0000001_0000000,
        next_pos
    );
}

#[test]
fn places_piece_in_column_three() {
    let mut board = ConnectFourBoard::default();
    let next_pos = board.try_move(Column::Three).unwrap();
    assert_eq!(
        0b0000000_0000000_0000000_0000000_0000001_0000000_0000000,
        next_pos
    );
}

#[test]
fn error_when_column_is_full() {
    let mut board = ConnectFourBoard::default();
    for _ in 0..6 {
        let _ = board.try_move(Column::One);
    }
    assert_eq!(Err(MoveError::FullColumn), board.try_move(Column::One));
}

#[test]
fn error_moving_on_concluded_board() {
    let mut board = ConnectFourBoard::with_bitboards(
        0b0000000_0000000_0000000_0000000_0000000_0000000_0001111,
        0,
    );
    assert_eq!(Err(MoveError::ConcludedGame), board.try_move(Column::One));
}

#[test]
fn players_alternate_between_moves() {
    let mut board = ConnectFourBoard::default();
    assert_eq!(0, board.player_one_bitboard());
    assert_eq!(0, board.player_two_bitboard());

    let _ = board.try_move(Column::One);
    assert_ne!(0, board.player_one_bitboard());
    assert_eq!(0, board.player_two_bitboard());

    let _ = board.try_move(Column::One);
    assert_ne!(0, board.player_one_bitboard());
    assert_ne!(0, board.player_two_bitboard());
}

#[test]
fn determines_when_winner_exists() {
    assert!(has_winner(
        0b1111000_0000000_0000000_0000000_0000000_0000000_0000000
    ));
    assert!(has_winner(
        0b1000000_1000000_1000000_1000000_0000000_0000000_0000000
    ));
    assert!(has_winner(
        0b1000000_0100000_0010000_0001000_0000000_0000000_0000000
    ));
    assert!(has_winner(
        0b0001000_0010000_0100000_1000000_0000000_0000000_0000000
    ));
}

#[test]
fn determines_when_no_winner_exists() {
    assert!(!has_winner(
        0b1110000_0000000_0000000_0000000_0000000_0000000_0000000
    ));
    assert!(!has_winner(
        0b1110110_1110000_0000000_0001000_0000000_1100000_1000000
    ));
}

#[test]
fn reads_board_slots() {
    let board = ConnectFourBoard::with_bitboards(
        0b0100000_0000000_0100000_0000000_0100000_0000000_0111111,
        0b0000000_0100000_0000000_0100000_0000000_0011111_0000000,
    );

    let slots: Vec<_> = board.slots().into_vec();

    let expected_slots = vec![
        Slot::Occupied(Player::One),
        Slot::Occupied(Player::One),
        Slot::Occupied(Player::One),
        Slot::Occupied(Player::One),
        Slot::Occupied(Player::One),
        Slot::Occupied(Player::One),
        Slot::Occupied(Player::Two),
        Slot::Occupied(Player::Two),
        Slot::Occupied(Player::Two),
        Slot::Occupied(Player::Two),
        Slot::Occupied(Player::Two),
        Slot::Vacant,
        Slot::Vacant,
        Slot::Vacant,
        Slot::Vacant,
        Slot::Vacant,
        Slot::Vacant,
        Slot::Occupied(Player::One),
        Slot::Vacant,
        Slot::Vacant,
        Slot::Vacant,
        Slot::Vacant,
        Slot::Vacant,
        Slot::Occupied(Player::Two),
        Slot::Vacant,
        Slot::Vacant,
        Slot::Vacant,
        Slot::Vacant,
        Slot::Vacant,
        Slot::Occupied(Player::One),
        Slot::Vacant,
        Slot::Vacant,
        Slot::Vacant,
        Slot::Vacant,
        Slot::Vacant,
        Slot::Occupied(Player::Two),
        Slot::Vacant,
        Slot::Vacant,
        Slot::Vacant,
        Slot::Vacant,
        Slot::Vacant,
        Slot::Occupied(Player::One),
    ];
    assert_eq!(expected_slots, slots);
}

fn snapshot(board: &ConnectFourBoard) -> (u64, u64, Vec<u8>, Player, BoardStatus) {
    let heights: Vec<u8> = Column::all()
        .iter()
        .map(|&c| board.column_height(c))
        .collect();
    (
        board.player_one_bitboard(),
        board.player_two_bitboard(),
        heights,
        board.current_player(),
        board.status(),
    )
}

#[test]
fn apply_then_undo_restores_board() {
    // A handful of reachable positions, every legal column from each.
    let scripts: [&[u8]; 4] = [&[], &[4, 4, 3], &[1, 1, 1, 1, 1, 1, 2], &[4, 3, 5, 3, 2, 6, 7]];
    for script in scripts {
        let mut board = ConnectFourBoard::default();
        for &col in script {
            board.try_move(Column::try_from_u8(col).unwrap()).unwrap();
        }
        for col in Column::all() {
            if !board.is_playable(col) || board.status() != BoardStatus::OnGoing {
                continue;
            }
            let before = snapshot(&board);
            board.try_move(col).unwrap();
            board.pop_move();
            assert_eq!(before, snapshot(&board));
        }
    }
}

#[test]
fn undo_on_fresh_board_does_nothing() {
    let mut board = ConnectFourBoard::default();
    board.pop_move();
    assert_eq!(0, board.player_one_bitboard());
    assert_eq!(0, board.player_two_bitboard());
    assert_eq!(Player::One, board.current_player());
}

#[test]
fn detects_wins_anywhere_inside_grid() {
    // Each of the four patterns, shifted over every placement that stays
    // fully inside the 6x7 grid of playable cells.
    let bit = |c: u64, r: u64| 1u64 << (7 * c + r);
    for c in 0..7 {
        for r in 0..3 {
            // vertical
            let b = bit(c, r) | bit(c, r + 1) | bit(c, r + 2) | bit(c, r + 3);
            assert!(has_winner(b), "vertical at {c},{r}");
            assert!(!has_winner(b & !bit(c, r + 3)), "three vertical at {c},{r}");
        }
    }
    for c in 0..4 {
        for r in 0..6 {
            // horizontal
            let b = bit(c, r) | bit(c + 1, r) | bit(c + 2, r) | bit(c + 3, r);
            assert!(has_winner(b), "horizontal at {c},{r}");
            assert!(
                !has_winner(b & !bit(c + 3, r)),
                "three horizontal at {c},{r}"
            );
        }
    }
    for c in 0..4 {
        for r in 0..3 {
            // rising diagonal
            let b = bit(c, r) | bit(c + 1, r + 1) | bit(c + 2, r + 2) | bit(c + 3, r + 3);
            assert!(has_winner(b), "rising diagonal at {c},{r}");
            assert!(
                !has_winner(b & !bit(c + 3, r + 3)),
                "three rising at {c},{r}"
            );
        }
        for r in 3..6 {
            // falling diagonal
            let b = bit(c, r) | bit(c + 1, r - 1) | bit(c + 2, r - 2) | bit(c + 3, r - 3);
            assert!(has_winner(b), "falling diagonal at {c},{r}");
            assert!(
                !has_winner(b & !bit(c + 3, r - 3)),
                "three falling at {c},{r}"
            );
        }
    }
}

#[test]
fn no_win_across_column_boundary() {
    let bit = |c: u64, r: u64| 1u64 << (7 * c + r);
    // Three cells atop column 0 and the bottom cell of column 1 would
    // connect only if runs could wrap through the guard bit.
    let wrap = bit(0, 3) | bit(0, 4) | bit(0, 5) | bit(1, 0);
    assert!(!has_winner(wrap));
    // Two and two on the two sides of a column boundary.
    let split = bit(3, 4) | bit(3, 5) | bit(4, 0) | bit(4, 1);
    assert!(!has_winner(split));
}

#[test]
fn forty_two_moves_without_four_is_draw() {
    // Fill the board so that cell (c, r) belongs to player (c + r/3) % 2:
    // rows alternate in blocks of three, columns alternate one by one.
    // No four in a row ever forms, and the 42nd move ends in a draw.
    let one_cols: [u8; 21] = [
        1, 3, 5, 7, 1, 3, 5, 7, 1, 3, 5, 7, 2, 4, 6, 2, 4, 6, 2, 4, 6,
    ];
    let two_cols: [u8; 21] = [
        2, 4, 6, 2, 4, 6, 2, 4, 6, 1, 3, 5, 7, 1, 3, 5, 7, 1, 3, 5, 7,
    ];
    let mut board = ConnectFourBoard::default();
    for k in 0..21 {
        assert_eq!(BoardStatus::OnGoing, board.status(), "before move {k}");
        board
            .try_move(Column::try_from_u8(one_cols[k]).unwrap())
            .unwrap();
        board
            .try_move(Column::try_from_u8(two_cols[k]).unwrap())
            .unwrap();
    }
    assert_eq!(BoardStatus::Draw, board.status());
    assert_eq!(Err(MoveError::ConcludedGame), board.try_move(Column::One));
}

#[test]
fn seventh_drop_into_full_column_fails() {
    let mut board = ConnectFourBoard::default();
    for k in 0..6 {
        assert!(board.is_playable(Column::Four), "before drop {k}");
        board.try_move(Column::Four).unwrap();
    }
    assert!(!board.is_playable(Column::Four));
    assert_eq!(Err(MoveError::FullColumn), board.try_move(Column::Four));
}

#[test]
fn vertical_four_completes_and_wins() {
    // Player One stacks the bottom three cells of column 1; the fourth
    // drop must conclude the game at once, not leave it ongoing.
    let mut board = ConnectFourBoard::default();
    for col in [1u8, 2, 1, 2, 1, 3] {
        board.try_move(Column::try_from_u8(col).unwrap()).unwrap();
    }
    assert_eq!(Player::One, board.current_player());
    assert_eq!(BoardStatus::OnGoing, board.status());
    board.try_move(Column::One).unwrap();
    assert_eq!(BoardStatus::Winner(Player::One), board.status());
}

#[test]
fn column_conversions() {
    assert_eq!(Err(ColumnConversionError), Column::try_from_u8(0));
    assert_eq!(Err(ColumnConversionError), Column::try_from_u8(8));
    for n in 1..=7u8 {
        let col = Column::try_from_u8(n).unwrap();
        assert_eq!(n, col.to_u8());
        assert_eq!((n - 1) as usize, col.to_index());
    }
    let all = Column::all();
    assert_eq!(7, all.len());
    for (i, col) in all.iter().enumerate() {
        assert_eq!(i, col.to_index());
    }
}

#[test]
fn column_heights_follow_drops() {
    let mut board = ConnectFourBoard::default();
    assert_eq!(0, board.column_height(Column::Three));
    board.try_move(Column::Three).unwrap();
    board.try_move(Column::Three).unwrap();
    board.try_move(Column::Five).unwrap();
    assert_eq!(2, board.column_height(Column::Three));
    assert_eq!(1, board.column_height(Column::Five));
    assert_eq!(0, board.column_height(Column::One));
    board.pop_move();
    assert_eq!(0, board.column_height(Column::Five));
}
