use connect_four::ai::next_move;
use connect_four::game::{BoardStatus, Column, ConnectFourBoard, Player};

fn board_from(script: &[u8]) -> ConnectFourBoard {
    let mut board = ConnectFourBoard::default();
    for &col in script {
        board.try_move(Column::try_from_u8(col).unwrap()).unwrap();
    }
    board
}

/// The evaluator, written independently from its table as the reference.
fn ref_eval(board: &ConnectFourBoard) -> i32 {
    const WEIGHTS: [i32; 49] = [
        3, 4, 5, 5, 4, 3, 0,
        4, 6, 8, 8, 6, 4, 0,
        5, 8, 11, 11, 8, 5, 0,
        7, 9, 13, 13, 9, 7, 0,
        5, 8, 11, 11, 8, 5, 0,
        4, 6, 8, 8, 6, 4, 0,
        3, 4, 5, 5, 4, 3, 0,
    ];
    match board.status() {
        BoardStatus::Winner(Player::One) => 100000,
        BoardStatus::Winner(Player::Two) => -100000,
        BoardStatus::Draw => 0,
        BoardStatus::OnGoing => (0..49)
            .map(|i| {
                let one = ((board.player_one_bitboard() >> i) & 1) as i32;
                let two = ((board.player_two_bitboard() >> i) & 1) as i32;
                WEIGHTS[i] * (one - two)
            })
            .sum(),
    }
}

/// Plain minimax with no pruning at all: the yardstick the alpha-beta
/// search must agree with.
fn ref_minimax(board: &mut ConnectFourBoard, depth: u8) -> i32 {
    if depth == 0 || board.status() != BoardStatus::OnGoing {
        return ref_eval(board);
    }
    let maximizing = board.current_player() == Player::One;
    let mut best: i32 = if maximizing { -1000000 } else { 1000000 };
    for col in Column::all() {
        if !board.is_playable(col) {
            continue;
        }
        board.try_move(col).unwrap();
        let score = ref_minimax(board, depth - 1);
        board.pop_move();
        if (maximizing && score > best) || (!maximizing && score < best) {
            best = score;
        }
    }
    best
}

fn ref_best_move(board: &ConnectFourBoard, depth: u8) -> Option<(Column, i32)> {
    let mut board = board.clone();
    if board.status() != BoardStatus::OnGoing {
        return None;
    }
    let maximizing = board.current_player() == Player::One;
    let mut best: Option<(Column, i32)> = None;
    for col in Column::all() {
        if !board.is_playable(col) {
            continue;
        }
        board.try_move(col).unwrap();
        let score = ref_minimax(&mut board, depth - 1);
        board.pop_move();
        let better = match best {
            None => true,
            Some((_, b)) => {
                if maximizing {
                    score > b
                } else {
                    score < b
                }
            }
        };
        if better {
            best = Some((col, score));
        }
    }
    best
}

#[test]
fn pruned_search_matches_plain_minimax() {
    let scripts: [&[u8]; 6] = [
        &[],
        &[4, 4, 3, 5, 2, 6],
        &[1, 2, 3, 4, 5, 6, 7, 1, 2, 3],
        &[4, 4, 4, 4, 3, 3, 2, 5],
        &[2, 2, 3, 3, 4, 4],
        &[7, 7, 6, 6, 5, 1],
    ];
    for script in scripts {
        let board = board_from(script);
        for depth in 1..=4u8 {
            let expected = ref_best_move(&board, depth).map(|(col, _)| col);
            assert_eq!(
                expected,
                next_move(&board, depth),
                "script {script:?} at depth {depth}"
            );
        }
    }
}

#[test]
fn search_leaves_board_untouched() {
    let board = board_from(&[4, 3, 5, 3, 2]);
    let p1 = board.player_one_bitboard();
    let p2 = board.player_two_bitboard();
    let heights: Vec<u8> = Column::all()
        .iter()
        .map(|&c| board.column_height(c))
        .collect();
    let player = board.current_player();

    let chosen = next_move(&board, 4);
    assert!(chosen.is_some());

    assert_eq!(p1, board.player_one_bitboard());
    assert_eq!(p2, board.player_two_bitboard());
    let heights_after: Vec<u8> = Column::all()
        .iter()
        .map(|&c| board.column_height(c))
        .collect();
    assert_eq!(heights, heights_after);
    assert_eq!(player, board.current_player());
    assert_eq!(BoardStatus::OnGoing, board.status());
}

#[test]
fn search_takes_immediate_win() {
    // The mover holds the bottom three cells of column 1; completing the
    // vertical four is the only immediately winning move.
    let board = board_from(&[1, 2, 1, 2, 1, 3]);
    assert_eq!(Player::One, board.current_player());
    for depth in [1u8, 3, 5] {
        assert_eq!(Some(Column::One), next_move(&board, depth), "depth {depth}");
    }
}

#[test]
fn equal_wins_fall_to_the_leftmost_column() {
    // Three in a row on the bottom with both ends open: columns 3 and 7
    // both win at once, and the left-to-right tie-break picks column 3.
    let board = board_from(&[4, 1, 5, 1, 6, 1]);
    assert_eq!(Player::One, board.current_player());
    assert_eq!(Some(Column::Three), next_move(&board, 1));
}

#[test]
fn search_blocks_immediate_loss() {
    // The opponent threatens a vertical four in column 1; at two plies
    // the search sees that any other move loses at once.
    let board = board_from(&[1, 2, 1, 2, 1]);
    assert_eq!(Player::Two, board.current_player());
    assert_eq!(Some(Column::One), next_move(&board, 2));
}

#[test]
fn no_move_on_concluded_board() {
    // Column 1 holds a finished vertical four.
    let board = board_from(&[1, 2, 1, 2, 1, 3, 1]);
    assert_eq!(BoardStatus::Winner(Player::One), board.status());
    assert_eq!(None, next_move(&board, 5));
}
