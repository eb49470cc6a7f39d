//! The adversarial search: depth-limited minimax with alpha-beta pruning
//! over a single board mutated in place.
//!
//! `minimax_value` and `best_to` define the exact, unpruned minimax value
//! of a position; the executable search is proved to agree with it, so
//! pruning can never change the chosen move or its score.

use vstd::prelude::*;

use crate::game::{BoardModel, BoardStatus, Column, ConnectFourBoard, Player};
use crate::game::{lemma_apply_then_unapply, lemma_ongoing_has_playable};
use crate::win::bit64;

verus! {

/// The weight of the cell at column `c`, row `r`: how strongly its
/// occupancy counts toward a player's positional score. Central cells,
/// crossed by more potential lines, weigh more; the table is symmetric
/// in both axes.
pub open spec fn cell_weight(c: int, r: int) -> int {
    let cc = if c <= 3 {
        c
    } else {
        6 - c
    };
    let rr = if r <= 2 {
        r
    } else {
        5 - r
    };
    if cc == 0 {
        if rr == 0 {
            3
        } else if rr == 1 {
            4
        } else {
            5
        }
    } else if cc == 1 {
        if rr == 0 {
            4
        } else if rr == 1 {
            6
        } else {
            8
        }
    } else if cc == 2 {
        if rr == 0 {
            5
        } else if rr == 1 {
            8
        } else {
            11
        }
    } else {
        if rr == 0 {
            7
        } else if rr == 1 {
            9
        } else {
            13
        }
    }
}

/// The weight of packed bit position `idx`: its cell's weight, or
/// nothing on the guard row.
pub open spec fn weight_at(idx: int) -> int {
    if idx % 7 == 6 {
        0
    } else {
        cell_weight(idx / 7, idx % 7)
    }
}

/// Bit `i` of `x` as the integer 0 or 1.
pub open spec fn bit_val(x: u64, i: u64) -> int {
    if bit64(x, i) {
        1int
    } else {
        0int
    }
}

/// The positional sum over packed positions `idx` and up: each weight
/// times +1 for a first-player piece, -1 for a second-player piece.
pub open spec fn score_from(p1: u64, p2: u64, idx: int) -> int
    decreases 49 - idx,
{
    if idx < 0 || idx >= 49 {
        0
    } else {
        weight_at(idx) * (bit_val(p1, idx as u64) - bit_val(p2, idx as u64)) + score_from(
            p1,
            p2,
            idx + 1,
        )
    }
}

/// The evaluator: +-100000 for a decided board (signed by the winner),
/// 0 for a draw, the weighted occupancy sum otherwise. Positive favours
/// `Player::One`.
pub open spec fn eval_spec(m: BoardModel) -> int {
    match m.status() {
        BoardStatus::Winner(p) => if p == Player::One {
            100000int
        } else {
            -100000int
        },
        BoardStatus::Draw => 0,
        BoardStatus::OnGoing => score_from(m.p1, m.p2, 0),
    }
}

/// +1 for the player who prefers larger scores, -1 for the other.
pub open spec fn sign_of(p: Player) -> int {
    match p {
        Player::One => 1int,
        Player::Two => -1int,
    }
}

/// Score `x` is strictly better than `y` for a player of sign `s`.
pub open spec fn beats(s: int, x: int, y: int) -> bool {
    if s == 1 {
        x > y
    } else {
        y > x
    }
}

/// The better of `x` and `y` for a player of sign `s`, `y` on a tie.
pub open spec fn opt_for(s: int, x: int, y: int) -> int {
    if beats(s, x, y) {
        x
    } else {
        y
    }
}

/// A bound no score of sign `s`'s player can fail to beat: the search
/// window's far end.
pub open spec fn worst_for(s: int) -> int {
    if s == 1 {
        -1000000int
    } else {
        1000000int
    }
}

/// The best minimax value, for the mover of `m`, among the playable
/// columns left of position `k`, children searched `cdepth` plies deep;
/// the mover's own worst bound when none is playable.
pub open spec fn best_to(m: BoardModel, cdepth: nat, k: int) -> int
    decreases cdepth, k,
{
    if k <= 0 {
        worst_for(sign_of(m.player()))
    } else {
        let rest = best_to(m, cdepth, k - 1);
        if m.playable(Column::from_idx(k - 1)) {
            opt_for(
                sign_of(m.player()),
                minimax_value(m.apply(Column::from_idx(k - 1)), cdepth),
                rest,
            )
        } else {
            rest
        }
    }
}

/// The exact depth-limited minimax value of `m`: the evaluator's score
/// at depth 0 or on a concluded board, otherwise the best child value
/// for the player to move with every playable column considered — the
/// value an unpruned search computes.
pub open spec fn minimax_value(m: BoardModel, depth: nat) -> int
    decreases depth, 0int,
{
    if depth == 0 || m.status() != BoardStatus::OnGoing {
        eval_spec(m)
    } else {
        best_to(m, (depth - 1) as nat, 7)
    }
}

/// `column` is the move a depth-`depth` search of `m` must return: a
/// playable column whose minimax value strictly beats every playable
/// column left of it and is not beaten by any one right of it — the
/// first best column, ties broken by the left-to-right trial order.
pub open spec fn is_chosen(m: BoardModel, depth: nat, column: Column) -> bool {
    let s = sign_of(m.player());
    let w = minimax_value(m.apply(column), (depth - 1) as nat);
    &&& m.playable(column)
    &&& forall|j: int|
        0 <= j < column.idx() && #[trigger] m.playable(Column::from_idx(j)) ==> beats(
            s,
            w,
            minimax_value(m.apply(Column::from_idx(j)), (depth - 1) as nat),
        )
    &&& forall|j: int|
        column.idx() < j < 7 && #[trigger] m.playable(Column::from_idx(j)) ==> !beats(
            s,
            minimax_value(m.apply(Column::from_idx(j)), (depth - 1) as nat),
            w,
        )
}

/// The positional sum from `idx` up stays within 13 per remaining cell.
proof fn lemma_score_from_bounded(p1: u64, p2: u64, idx: int)
    ensures
        0 <= idx <= 49 ==> -13 * (49 - idx) <= score_from(p1, p2, idx) <= 13 * (49 - idx),
    decreases 49 - idx,
{
    if 0 <= idx < 49 {
        lemma_score_from_bounded(p1, p2, idx + 1);
    }
}

/// The positional sum flips its sign when the players swap bit-sets.
proof fn lemma_score_from_symmetric(p1: u64, p2: u64, idx: int)
    ensures
        score_from(p2, p1, idx) == -score_from(p1, p2, idx),
    decreases 49 - idx,
{
    if 0 <= idx < 49 {
        lemma_score_from_symmetric(p1, p2, idx + 1);
    }
}

/// The evaluator is symmetric under swapping the players: exchanging
/// the two bit-sets negates the score, as long as the position does not
/// impossibly hold a line for both players at once.
pub proof fn lemma_eval_symmetric(m: BoardModel)
    requires
        !(crate::win::has_line(m.p1) && crate::win::has_line(m.p2)),
    ensures
        eval_spec((BoardModel { p1: m.p2, p2: m.p1, ..m })) == -eval_spec(m),
{
    lemma_score_from_symmetric(m.p1, m.p2, 0);
}

/// The evaluator never leaves [-100000, 100000].
proof fn lemma_eval_bounded(m: BoardModel)
    ensures
        -100000 <= eval_spec(m) <= 100000,
{
    lemma_score_from_bounded(m.p1, m.p2, 0);
}

/// On a well-formed board, minimax values keep to the evaluator's range.
proof fn lemma_minimax_bounded(m: BoardModel, depth: nat)
    requires
        m.wf(),
    ensures
        -100000 <= minimax_value(m, depth) <= 100000,
    decreases depth, 0int,
{
    if depth == 0 || m.status() != BoardStatus::OnGoing {
        lemma_eval_bounded(m);
    } else {
        lemma_ongoing_has_playable(m);
        crate::game::lemma_col_idx();
        let c = choose|c: Column| m.playable(c);
        assert(m.playable(Column::from_idx(c.idx())));
        lemma_best_to_props(m, (depth - 1) as nat, 7);
    }
}

/// What the prefix fold `best_to` guarantees: no playable column it has
/// folded in beats it; it still sits at the mover's worst bound while no
/// column was playable, and within the evaluator's range once one was.
proof fn lemma_best_to_props(m: BoardModel, cdepth: nat, k: int)
    requires
        m.wf(),
        m.status() == BoardStatus::OnGoing,
        0 <= k <= 7,
    ensures
        forall|j: int|
            0 <= j < k && #[trigger] m.playable(Column::from_idx(j)) ==> !beats(
                sign_of(m.player()),
                minimax_value(m.apply(Column::from_idx(j)), cdepth),
                best_to(m, cdepth, k),
            ),
        (forall|j: int| 0 <= j < k ==> !(#[trigger] m.playable(Column::from_idx(j)))) ==> best_to(
            m,
            cdepth,
            k,
        ) == worst_for(sign_of(m.player())),
        (exists|j: int| 0 <= j < k && #[trigger] m.playable(Column::from_idx(j))) ==> -100000
            <= best_to(m, cdepth, k) <= 100000,
        -1000000 <= best_to(m, cdepth, k) <= 1000000,
    decreases cdepth, k,
{
    if k > 0 {
        lemma_best_to_props(m, cdepth, k - 1);
        if m.playable(Column::from_idx(k - 1)) {
            lemma_apply_then_unapply(m, Column::from_idx(k - 1));
            lemma_minimax_bounded(m.apply(Column::from_idx(k - 1)), cdepth);
        }
    }
}

/// One move always hands the turn to the opponent.
proof fn lemma_player_flip(m: BoardModel, c: Column)
    ensures
        sign_of(m.apply(c).player()) == -sign_of(m.player()),
{
    let mc = m.move_count;
    assert((mc + 1) % 2 != mc % 2) by (nonlinear_arith);
}

/// The signed comparison computed by the search agrees with `beats`.
proof fn lemma_sign_cmp(s: int, x: int, y: int)
    requires
        s == 1 || s == -1,
    ensures
        (s * x > s * y) == beats(s, x, y),
{
    if s == 1 {
        assert(s * x == x);
        assert(s * y == y);
    } else {
        assert(s * x == -x);
        assert(s * y == -y);
    }
}

/// Swapping the mover mirrors the comparison.
proof fn lemma_beats_neg(s: int, x: int, y: int)
    requires
        s == 1 || s == -1,
    ensures
        beats(-s, x, y) == beats(s, y, x),
{
}

/// Only one column can satisfy `is_chosen`: the search's answer is fully
/// determined by the position, the depth and the evaluator, pruning or
/// not.
pub proof fn lemma_chosen_unique(m: BoardModel, depth: nat, c1: Column, c2: Column)
    requires
        is_chosen(m, depth, c1),
        is_chosen(m, depth, c2),
    ensures
        c1 == c2,
{
    crate::game::lemma_col_idx();
    if c1.idx() < c2.idx() {
        assert(m.playable(Column::from_idx(c1.idx())));
        assert(m.playable(Column::from_idx(c2.idx())));
    } else if c2.idx() < c1.idx() {
        assert(m.playable(Column::from_idx(c1.idx())));
        assert(m.playable(Column::from_idx(c2.idx())));
    } else {
        assert(Column::from_idx(c1.idx()) == c1 && Column::from_idx(c2.idx()) == c2);
    }
}

/// When the mover has a move that wins on the spot and no other playable
/// column does, a search of depth 1 (and so, by its contract, the
/// executable search at that depth) must pick exactly that column: the
/// winning child carries the evaluator's extreme score, which no
/// undecided or drawn position can match.
pub proof fn lemma_immediate_win_chosen(m: BoardModel, column: Column)
    requires
        m.wf(),
        m.status() == BoardStatus::OnGoing,
        m.playable(column),
        m.apply(column).status() == BoardStatus::Winner(m.player()),
        forall|j: int|
            0 <= j < 7 && j != column.idx() && #[trigger] m.playable(Column::from_idx(j))
                ==> m.apply(Column::from_idx(j)).status() != BoardStatus::Winner(m.player()),
    ensures
        is_chosen(m, 1, column),
{
    let s = sign_of(m.player());
    let w = minimax_value(m.apply(column), 0);
    assert(w == eval_spec(m.apply(column)));
    assert(w == if s == 1 {
        100000int
    } else {
        -100000int
    });
    assert forall|j: int|
        0 <= j < 7 && j != column.idx() && #[trigger] m.playable(Column::from_idx(j)) implies beats(
        s,
        w,
        minimax_value(m.apply(Column::from_idx(j)), 0),
    ) by {
        let cj = Column::from_idx(j);
        let child = m.apply(cj);
        let wj = minimax_value(child, 0);
        assert(wj == eval_spec(child));
        // The move leaves the opponent's bits alone, so it cannot have
        // handed the opponent a line.
        if m.player() == Player::One {
            assert(child.p2 == m.p2);
            assert(child.status() != BoardStatus::Winner(Player::Two));
        } else {
            assert(child.p1 == m.p1);
            assert(child.status() != BoardStatus::Winner(Player::One));
        }
        assert(child.status() != BoardStatus::Winner(m.player()));
        match child.status() {
            BoardStatus::Winner(p) => {
                assert(false);
            },
            BoardStatus::Draw => {
                assert(wj == 0);
            },
            BoardStatus::OnGoing => {
                lemma_score_from_bounded(child.p1, child.p2, 0);
                assert(-637 <= wj <= 637);
            },
        }
    }
}

/// The sign of the score a player prefers.
fn sign_by_player(player: Player) -> (s: i32)
    ensures
        s as int == sign_of(player),
{
    match player {
        Player::One => 1,
        Player::Two => -1,
    }
}

/// The weight of packed bit position `idx`, as the evaluator's table
/// has it.
fn position_weight(idx: u64) -> (w: i32)
    requires
        idx < 49,
    ensures
        w as int == weight_at(idx as int),
        0 <= w <= 13,
{
    let c = idx / 7;
    let r = idx % 7;
    if r == 6 {
        return 0;
    }
    let cc = if c <= 3 {
        c
    } else {
        6 - c
    };
    let rr = if r <= 2 {
        r
    } else {
        5 - r
    };
    if cc == 0 {
        if rr == 0 {
            3
        } else if rr == 1 {
            4
        } else {
            5
        }
    } else if cc == 1 {
        if rr == 0 {
            4
        } else if rr == 1 {
            6
        } else {
            8
        }
    } else if cc == 2 {
        if rr == 0 {
            5
        } else if rr == 1 {
            8
        } else {
            11
        }
    } else {
        if rr == 0 {
            7
        } else if rr == 1 {
            9
        } else {
            13
        }
    }
}

/// Scores a position for the evaluator: the winner's fixed extreme, zero
/// for a draw, otherwise the weighted sum over all cells of +1 per
/// first-player piece and -1 per second-player piece.
fn evalulate_board(board: &ConnectFourBoard) -> (score: i32)
    ensures
        score as int == eval_spec(board@),
{
    match board.status() {
        BoardStatus::Winner(player) => match player {
            Player::One => 100000,
            Player::Two => -100000,
        },
        BoardStatus::Draw => 0,
        BoardStatus::OnGoing => {
            let p1 = board.player_one_bitboard();
            let p2 = board.player_two_bitboard();
            let mut acc: i32 = 0;
            let mut idx: u64 = 0;
            while idx < 49
                invariant
                    idx <= 49,
                    p1 == board@.p1,
                    p2 == board@.p2,
                    acc as int + score_from(p1, p2, idx as int) == score_from(p1, p2, 0),
                    -1274 <= acc <= 1274,
                decreases 49 - idx,
            {
                let w = position_weight(idx);
                let b1 = ((p1 >> idx) & 1) as i32;
                let b2 = ((p2 >> idx) & 1) as i32;
                proof {
                    assert((p1 >> idx) & 1 == 0 || (p1 >> idx) & 1 == 1) by (bit_vector);
                    assert((p2 >> idx) & 1 == 0 || (p2 >> idx) & 1 == 1) by (bit_vector);
                    lemma_score_from_bounded(p1, p2, 0);
                    lemma_score_from_bounded(p1, p2, idx as int + 1);
                }
                acc = acc + w * (b1 - b2);
                idx = idx + 1;
            }
            acc
        },
    }
}

/// One node of the alpha-beta search. `alpha` is the bound the player to
/// move is improving, `beta` the bound its opponent has secured
/// elsewhere in the tree; a recursive call swaps the two, as the roles
/// swap. The returned score is the exact minimax value whenever that
/// value lies strictly inside the window, and otherwise lands on the
/// window's own side of it — which is why pruning cannot disturb the
/// root's choice. The board comes back exactly as it went in, whatever
/// path the search took.
fn minimax(board: &mut ConnectFourBoard, depth: u8, alpha: i32, beta: i32) -> (score: i32)
    requires
        old(board)@.wf(),
        -1000000 <= alpha <= 1000000,
        -1000000 <= beta <= 1000000,
        beats(sign_of(old(board)@.player()), beta as int, alpha as int),
    ensures
        final(board)@ == old(board)@,
        -1000000 <= score <= 1000000,
        ({
            let s = sign_of(old(board)@.player());
            let v = minimax_value(old(board)@, depth as nat);
            &&& !beats(s, v, alpha as int) ==> !beats(s, score as int, alpha as int)
            &&& beats(s, v, alpha as int) && beats(s, beta as int, v) ==> score == v
            &&& !beats(s, beta as int, v) ==> !beats(s, beta as int, score as int)
        }),
    decreases depth,
{
    let status = board.status();
    if depth == 0 || status != BoardStatus::OnGoing {
        proof {
            lemma_eval_bounded(board@);
        }
        return evalulate_board(board);
    }

    let ghost m = board@;
    let ghost cd = (depth - 1) as nat;
    let ghost s = sign_of(m.player());

    let sign = sign_by_player(board.current_player());
    let cols = Column::all();
    let mut alpha_v = alpha;
    let mut i: usize = 0;
    while i < 7 && sign * alpha_v < sign * beta
        invariant
            board@ == m,
            m.wf(),
            m.status() == BoardStatus::OnGoing,
            1 <= depth,
            cd == (depth - 1) as nat,
            s == sign_of(m.player()),
            s == 1 || s == -1,
            sign as int == s,
            sign == 1i32 || sign == -1i32,
            -1000000 <= alpha <= 1000000,
            -1000000 <= beta <= 1000000,
            beats(s, beta as int, alpha as int),
            i <= 7,
            -1000000 <= alpha_v <= 1000000,
            forall|j: int| 0 <= j < 7 ==> #[trigger] cols@[j] == Column::from_idx(j),
            !beats(s, beta as int, alpha_v as int) ==> !beats(
                s,
                beta as int,
                minimax_value(m, depth as nat),
            ),
            beats(s, beta as int, alpha_v as int) ==> alpha_v as int == opt_for(
                s,
                best_to(m, cd, i as int),
                alpha as int,
            ),
        decreases 7 - i,
    {
        proof {
            lemma_sign_cmp(s, alpha_v as int, beta as int);
            lemma_sign_cmp(s, beta as int, alpha_v as int);
            assert(beats(s, beta as int, alpha_v as int));
        }
        let column = cols[i];
        if board.is_playable(column) {
            proof {
                lemma_apply_then_unapply(m, column);
                lemma_player_flip(m, column);
                lemma_beats_neg(s, alpha_v as int, beta as int);
            }
            let _ = board.try_move(column);
            let score = minimax(board, depth - 1, beta, alpha_v);
            board.pop_move();
            let ghost a_prev = alpha_v as int;
            if sign * score > sign * alpha_v {
                alpha_v = score;
            }
            proof {
                let w = minimax_value(m.apply(column), cd);
                lemma_minimax_bounded(m.apply(column), cd);
                assert(Column::from_idx(i as int) == column);
                let b_i = best_to(m, cd, i as int);
                assert(best_to(m, cd, i as int + 1) == opt_for(s, w, b_i));
                assert(a_prev == opt_for(s, b_i, alpha as int));
                // Translate the child's guarantees to this node's sign.
                lemma_beats_neg(s, w, beta as int);
                lemma_beats_neg(s, a_prev, w);
                lemma_beats_neg(s, score as int, beta as int);
                lemma_beats_neg(s, a_prev, score as int);
                lemma_sign_cmp(s, score as int, a_prev);
                if !beats(s, w, a_prev) {
                    assert(!beats(s, score as int, a_prev));
                    assert(alpha_v as int == a_prev);
                    assert(opt_for(s, best_to(m, cd, i as int + 1), alpha as int) == a_prev);
                } else if beats(s, beta as int, w) {
                    assert(score as int == w);
                    assert(alpha_v as int == w);
                    assert(opt_for(s, best_to(m, cd, i as int + 1), alpha as int) == w);
                } else {
                    assert(!beats(s, beta as int, score as int));
                    assert(alpha_v as int == score as int);
                    lemma_best_to_props(m, cd, 7);
                    assert(!beats(s, w, best_to(m, cd, 7)));
                    assert(minimax_value(m, depth as nat) == best_to(m, cd, 7));
                    assert(!beats(s, beta as int, minimax_value(m, depth as nat)));
                }
            }
        }
        i = i + 1;
    }
    proof {
        let v = minimax_value(m, depth as nat);
        lemma_sign_cmp(s, alpha_v as int, beta as int);
        lemma_sign_cmp(s, beta as int, alpha_v as int);
        if beats(s, beta as int, alpha_v as int) {
            assert(i == 7);
            assert(v == best_to(m, cd, 7));
            assert(alpha_v as int == opt_for(s, v, alpha as int));
        }
    }
    alpha_v
}

/// The column the automated player plays on `board`, found by an
/// alpha-beta search `depth` plies deep, or `None` exactly when the game
/// is already concluded. Columns are tried left to right and the first
/// best one is kept, so the choice equals that of a full unpruned
/// minimax of the same depth and evaluator. The board itself is only
/// read: the search works on its own copy.
pub fn next_move(board: &ConnectFourBoard, depth: u8) -> (r: Option<Column>)
    requires
        board@.wf(),
        depth >= 1,
    ensures
        board@.status() != BoardStatus::OnGoing ==> r is None,
        board@.status() == BoardStatus::OnGoing ==> (r matches Some(c) && is_chosen(
            board@,
            depth as nat,
            c,
        )),
{
    let mut board = board.clone();
    if board.status() != BoardStatus::OnGoing {
        return None;
    }

    let ghost m = board@;
    let ghost cd = (depth - 1) as nat;
    let ghost s = sign_of(m.player());

    let sign = sign_by_player(board.current_player());
    let mut alpha = -sign * 1000000;
    let beta = -alpha;

    // With the window fully open and every minimax value within the
    // evaluator's range, the root bound can never reach `beta`: the
    // cutoff that guards inner nodes has nothing to cut here.
    let cols = Column::all();
    let mut best_move: Option<Column> = None;
    let mut i: usize = 0;
    while i < 7
        invariant
            board@ == m,
            m.wf(),
            m.status() == BoardStatus::OnGoing,
            1 <= depth,
            cd == (depth - 1) as nat,
            s == sign_of(m.player()),
            s == 1 || s == -1,
            sign as int == s,
            sign == 1i32 || sign == -1i32,
            alpha as int == worst_for(s) || -100000 <= alpha <= 100000,
            beta as int == -worst_for(s),
            i <= 7,
            forall|j: int| 0 <= j < 7 ==> #[trigger] cols@[j] == Column::from_idx(j),
            best_move is None ==> alpha as int == worst_for(s) && forall|j: int|
                0 <= j < i ==> !(#[trigger] m.playable(Column::from_idx(j))),
            best_move matches Some(c) ==> {
                &&& m.playable(c)
                &&& 0 <= c.idx() < i
                &&& alpha as int == minimax_value(m.apply(c), cd)
                &&& -100000 <= alpha <= 100000
                &&& forall|j: int|
                    0 <= j < c.idx() && #[trigger] m.playable(Column::from_idx(j)) ==> beats(
                        s,
                        alpha as int,
                        minimax_value(m.apply(Column::from_idx(j)), cd),
                    )
                &&& forall|j: int|
                    c.idx() < j < i && #[trigger] m.playable(Column::from_idx(j)) ==> !beats(
                        s,
                        minimax_value(m.apply(Column::from_idx(j)), cd),
                        alpha as int,
                    )
            },
        decreases 7 - i,
    {
        let column = cols[i];
        if board.is_playable(column) {
            proof {
                lemma_apply_then_unapply(m, column);
                lemma_player_flip(m, column);
                lemma_beats_neg(s, alpha as int, beta as int);
                assert(beats(s, beta as int, alpha as int));
            }
            let _ = board.try_move(column);
            let score = minimax(&mut board, depth - 1, beta, alpha);
            board.pop_move();
            let ghost a_prev = alpha as int;
            let ghost prev_best = best_move;
            if sign * score > sign * alpha {
                alpha = score;
                best_move = Some(column);
            }
            proof {
                let w = minimax_value(m.apply(column), cd);
                lemma_minimax_bounded(m.apply(column), cd);
                assert(Column::from_idx(i as int) == column);
                lemma_beats_neg(s, w, beta as int);
                lemma_beats_neg(s, a_prev, w);
                lemma_beats_neg(s, a_prev, score as int);
                lemma_sign_cmp(s, score as int, a_prev);
                if !beats(s, w, a_prev) {
                    assert(!beats(s, score as int, a_prev));
                    assert(best_move == prev_best && alpha as int == a_prev);
                } else {
                    assert(beats(s, beta as int, w));
                    assert(score as int == w);
                    assert(best_move == Some(column) && alpha as int == w);
                }
            }
        }
        i = i + 1;
    }
    proof {
        lemma_ongoing_has_playable(m);
        crate::game::lemma_col_idx();
        let c = choose|c: Column| m.playable(c);
        assert(m.playable(Column::from_idx(c.idx())));
        assert(best_move is Some);
    }
    best_move
}

} // verus!
