use vstd::prelude::*;

use crate::win::{bit64, has_line, has_winner, within_grid};

verus! {

/// Why a move was rejected.
#[derive(Debug, PartialEq, Eq, Structural)]
pub enum MoveError {
    /// The targeted column already holds six pieces.
    FullColumn,
    /// The game has concluded; no further moves are accepted.
    ConcludedGame,
}

/// The error for values that do not name one of the seven columns.
#[derive(Debug, PartialEq, Eq, Structural)]
pub struct ColumnConversionError;

/// One of the seven columns a piece may be dropped into, counted 1 to 7
/// from the left.
#[derive(Debug, Copy, Clone, PartialEq, Eq, Structural)]
pub enum Column {
    One,
    Two,
    Three,
    Four,
    Five,
    Six,
    Seven,
}

impl Column {
    /// The 0-based position of this column.
    pub open spec fn idx(self) -> int {
        match self {
            Column::One => 0,
            Column::Two => 1,
            Column::Three => 2,
            Column::Four => 3,
            Column::Five => 4,
            Column::Six => 5,
            Column::Seven => 6,
        }
    }

    /// The column standing at a 0-based position.
    pub open spec fn from_idx(i: int) -> Column {
        if i == 0 {
            Column::One
        } else if i == 1 {
            Column::Two
        } else if i == 2 {
            Column::Three
        } else if i == 3 {
            Column::Four
        } else if i == 4 {
            Column::Five
        } else if i == 5 {
            Column::Six
        } else {
            Column::Seven
        }
    }

    /// All seven columns, left to right.
    pub fn all() -> (r: [Column; 7])
        ensures
            forall|i: int| 0 <= i < 7 ==> #[trigger] r@[i] == Column::from_idx(i),
    {
        [
            Column::One,
            Column::Two,
            Column::Three,
            Column::Four,
            Column::Five,
            Column::Six,
            Column::Seven,
        ]
    }

    /// The 0-based index used to address per-column data.
    pub fn to_index(self) -> (r: usize)
        ensures
            r == self.idx(),
    {
        (self.to_u8() - 1) as usize
    }

    /// The 1-based number of the column.
    pub fn to_u8(self) -> (r: u8)
        ensures
            r == self.idx() + 1,
    {
        match self {
            Column::One => 1,
            Column::Two => 2,
            Column::Three => 3,
            Column::Four => 4,
            Column::Five => 5,
            Column::Six => 6,
            Column::Seven => 7,
        }
    }

    /// Reads a 1-based column number; values outside 1..=7 are rejected.
    pub fn try_from_u8(value: u8) -> (r: Result<Column, ColumnConversionError>)
        ensures
            1 <= value <= 7 ==> r == Ok::<Column, ColumnConversionError>(
                Column::from_idx(value - 1),
            ),
            !(1 <= value <= 7) ==> r == Err::<Column, ColumnConversionError>(
                ColumnConversionError,
            ),
    {
        match value {
            1 => Ok(Column::One),
            2 => Ok(Column::Two),
            3 => Ok(Column::Three),
            4 => Ok(Column::Four),
            5 => Ok(Column::Five),
            6 => Ok(Column::Six),
            7 => Ok(Column::Seven),
            _ => Err(ColumnConversionError),
        }
    }
}

/// The two players; `Player::One` moves first.
#[derive(Default, Debug, PartialEq, Eq, Structural, Copy, Clone)]
pub enum Player {
    #[default]
    One,
    Two,
}

/// The player to move after `count` moves have been made: even counts fall
/// to `Player::One`, odd counts to `Player::Two`.
pub open spec fn player_of(count: int) -> Player {
    if count % 2 == 0 {
        Player::One
    } else {
        Player::Two
    }
}

impl Player {
    fn from_move_count(count: u8) -> (p: Player)
        ensures
            p == player_of(count as int),
    {
        proof {
            assert(count & 1 == count % 2) by (bit_vector);
        }
        match count & 1 {
            0 => Player::One,
            _ => Player::Two,
        }
    }
}

/// The state of play: a winner, a drawn full board, or an ongoing game.
#[derive(Default, Debug, PartialEq, Eq, Structural, Copy, Clone)]
pub enum BoardStatus {
    Winner(Player),
    Draw,
    #[default]
    OnGoing,
}

/// The bit index at the bottom of column `c`.
pub open spec fn col_base(c: int) -> int {
    7 * c
}

/// The guard bit index atop column `c`; the column is full once its next
/// free index has climbed to it.
pub open spec fn col_top(c: int) -> int {
    7 * c + 6
}

/// The mathematical content of a board: the two occupancy bit-sets, each
/// column's next free bit index, the number of moves made, and the columns
/// played so far, oldest first.
#[verifier::ext_equal]
pub ghost struct BoardModel {
    pub p1: u64,
    pub p2: u64,
    pub move_count: int,
    pub heights: Seq<int>,
    pub history: Seq<Column>,
}

impl BoardModel {
    /// The board before any move.
    pub open spec fn empty() -> BoardModel {
        BoardModel {
            p1: 0,
            p2: 0,
            move_count: 0,
            heights: seq![0, 7, 14, 21, 28, 35, 42],
            history: Seq::empty(),
        }
    }

    /// Both players' pieces in one bit-set.
    pub open spec fn occupied(self) -> u64 {
        self.p1 | self.p2
    }

    /// The player to move, derived from the parity of the move counter.
    pub open spec fn player(self) -> Player {
        player_of(self.move_count)
    }

    /// A piece may drop into `column` while the column's next free index
    /// sits below its guard bit.
    pub open spec fn playable(self, column: Column) -> bool {
        self.heights[column.idx()] < col_top(column.idx())
    }

    /// The derived status. Wins are checked before the draw test, so a
    /// winning move on the last free cell counts as a win, and the first
    /// player's bits are checked first. The draw test reads the counter
    /// at or above the board's 42 cells, which keeps the operations
    /// total on every value; a well-formed board never passes 42.
    pub open spec fn status(self) -> BoardStatus {
        if has_line(self.p1) {
            BoardStatus::Winner(Player::One)
        } else if has_line(self.p2) {
            BoardStatus::Winner(Player::Two)
        } else if self.move_count >= 42 {
            BoardStatus::Draw
        } else {
            BoardStatus::OnGoing
        }
    }

    /// The board after the mover drops a piece into `column`: the bit at
    /// the column's next free index flips to the mover, the index and the
    /// move counter step up, and the column joins the history.
    pub open spec fn apply(self, column: Column) -> BoardModel {
        let i = column.idx();
        let bit = 1u64 << (self.heights[i] as u64);
        BoardModel {
            p1: if self.player() == Player::One {
                self.p1 ^ bit
            } else {
                self.p1
            },
            p2: if self.player() == Player::Two {
                self.p2 ^ bit
            } else {
                self.p2
            },
            move_count: self.move_count + 1,
            heights: self.heights.update(i, self.heights[i] + 1),
            history: self.history.push(column),
        }
    }

    /// The board with its most recent move taken back: the exact inverse
    /// of `apply` for the column at the end of the history.
    pub open spec fn unapply(self) -> BoardModel {
        let column = self.history.last();
        let i = column.idx();
        let bit = 1u64 << ((self.heights[i] - 1) as u64);
        BoardModel {
            p1: if player_of(self.move_count - 1) == Player::One {
                self.p1 ^ bit
            } else {
                self.p1
            },
            p2: if player_of(self.move_count - 1) == Player::Two {
                self.p2 ^ bit
            } else {
                self.p2
            },
            move_count: self.move_count - 1,
            heights: self.heights.update(i, self.heights[i] - 1),
            history: self.history.drop_last(),
        }
    }

    /// A board is well formed when replaying its history from the empty
    /// board rebuilds it exactly. Every board reachable through legal
    /// play is, and `lemma_wf_facts` collects what follows.
    pub open spec fn wf(self) -> bool {
        replay(self.history) == Some(self)
    }

    /// Whether either player occupies the cell at column `c`, row `r`
    /// (row 6 being the guard row, never occupied on a well-formed
    /// board).
    pub open spec fn occupied_at(self, c: int, r: int) -> bool {
        bit64(self.occupied(), (7 * c + r) as u64)
    }
}

/// The board reached by playing `h` from the empty board, or `None` if
/// some move of `h` was not legal when its turn came.
pub open spec fn replay(h: Seq<Column>) -> Option<BoardModel>
    decreases h.len(),
{
    if h.len() == 0 {
        Some(BoardModel::empty())
    } else {
        match replay(h.drop_last()) {
            Some(m) => if m.status() == BoardStatus::OnGoing && m.playable(h.last()) {
                Some(m.apply(h.last()))
            } else {
                None
            },
            None => None,
        }
    }
}

/// How many entries of `h` name `column`.
pub open spec fn count_col(h: Seq<Column>, column: Column) -> int
    decreases h.len(),
{
    if h.len() == 0 {
        0
    } else {
        count_col(h.drop_last(), column) + if h.last() == column {
            1int
        } else {
            0int
        }
    }
}

/// The number of pieces recorded by the next free indices of the first
/// `c` columns.
pub open spec fn filled(heights: Seq<int>, c: int) -> int
    decreases c,
{
    if c <= 0 {
        0
    } else {
        filled(heights, c - 1) + (heights[c - 1] - col_base(c - 1))
    }
}

proof fn lemma_bit_or(x: u64, y: u64, j: u64)
    by (bit_vector)
    requires
        j < 64,
    ensures
        bit64(x | y, j) == (bit64(x, j) || bit64(y, j)),
{
}

proof fn lemma_bit_xor(x: u64, t: u64, j: u64)
    by (bit_vector)
    requires
        t < 64,
        j < 64,
    ensures
        bit64(x ^ (1u64 << t), j) == if j == t {
            !bit64(x, j)
        } else {
            bit64(x, j)
        },
{
}

proof fn lemma_zero_bit(j: u64)
    by (bit_vector)
    ensures
        !bit64(0u64, j),
{
}

/// `from_idx` and `idx` invert each other.
pub(crate) proof fn lemma_col_idx()
    ensures
        forall|c: Column| #[trigger] Column::from_idx(c.idx()) == c,
        forall|i: int| 0 <= i < 7 ==> #[trigger] Column::from_idx(i).idx() == i,
{
}

/// Updating one next-free index moves `filled` by the difference, when
/// the index lies below `c`.
proof fn lemma_filled_update(hs: Seq<int>, i: int, v: int, c: int)
    requires
        0 <= i < hs.len(),
        c <= hs.len(),
    ensures
        filled(hs.update(i, v), c) == filled(hs, c) + if i < c {
            v - hs[i]
        } else {
            0int
        },
    decreases c,
{
    if c > 0 {
        lemma_filled_update(hs, i, v, c - 1);
    }
}

/// Replaying a history yields a board carrying that history.
proof fn lemma_replay_history(g: Seq<Column>)
    requires
        replay(g).is_some(),
    ensures
        replay(g).unwrap().history == g,
    decreases g.len(),
{
    if g.len() == 0 {
        assert(replay(g).unwrap().history =~= g);
    } else {
        lemma_replay_history(g.drop_last());
        assert(replay(g).unwrap().history =~= g);
    }
}

/// What legal play guarantees of a well-formed board: the heights stay
/// within their columns and mirror the history, the move counter agrees
/// with the history and with the total fill, the bit-sets are disjoint,
/// and a cell is occupied exactly when it lies below its column's next
/// free index.
pub proof fn lemma_wf_facts(m: BoardModel)
    requires
        m.wf(),
    ensures
        m.heights.len() == 7,
        forall|c: int| 0 <= c < 7 ==> col_base(c) <= #[trigger] m.heights[c] <= col_top(c),
        forall|c: int|
            0 <= c < 7 ==> #[trigger] m.heights[c] == col_base(c) + count_col(
                m.history,
                Column::from_idx(c),
            ),
        m.move_count == m.history.len(),
        0 <= m.move_count <= 42,
        m.move_count == filled(m.heights, 7),
        m.p1 & m.p2 == 0,
        forall|c: int, r: int|
            0 <= c < 7 && 0 <= r < 7 ==> (#[trigger] m.occupied_at(c, r) <==> 7 * c + r
                < m.heights[c]),
        forall|j: u64| 49 <= j < 64 ==> !#[trigger] bit64(m.occupied(), j),
    decreases m.history.len(),
{
    lemma_col_idx();
    let h = m.history;
    if h.len() == 0 {
        assert(m == BoardModel::empty());
        assert(m.heights == seq![0int, 7, 14, 21, 28, 35, 42]);
        assert(forall|c: int|
            0 <= c < 7 ==> col_base(c) <= #[trigger] m.heights[c] <= col_top(c));
        assert(forall|c: int| 0 <= c < 7 ==> #[trigger] m.heights[c] == col_base(c));
        assert(forall|c: int| 0 <= c < 7 ==> count_col(h, Column::from_idx(c)) == 0);
        assert(filled(m.heights, 7) == 0) by {
            reveal_with_fuel(filled, 8);
        }
        assert(0u64 & 0u64 == 0u64) by (bit_vector);
        assert(0u64 | 0u64 == 0u64) by (bit_vector);
        assert(m.p1 & m.p2 == 0);
        assert(m.occupied() == 0);
        assert forall|c: int, r: int| 0 <= c < 7 && 0 <= r < 7 implies (#[trigger] m.occupied_at(
            c,
            r,
        ) <==> 7 * c + r < m.heights[c]) by {
            lemma_zero_bit((7 * c + r) as u64);
        }
        assert forall|j: u64| 49 <= j < 64 implies !#[trigger] bit64(m.occupied(), j) by {
            lemma_zero_bit(j);
        }
    } else {
        lemma_replay_history(h.drop_last());
        let prev = replay(h.drop_last()).unwrap();
        assert(prev.wf());
        lemma_wf_facts(prev);
        let column = h.last();
        let i = column.idx();
        assert(prev.status() == BoardStatus::OnGoing && prev.playable(column));
        assert(m == prev.apply(column));
        assert(prev.history == h.drop_last());

        let j0 = prev.heights[i];
        assert(col_base(i) <= j0 < col_top(i));
        let t = j0 as u64;
        let bit = 1u64 << t;
        let r0 = j0 - 7 * i;

        // The landing cell was vacant: it sits at the column's next free
        // index.
        assert(prev.occupied_at(i, r0) <==> 7 * i + r0 < j0);
        assert(!bit64(prev.occupied(), t));
        lemma_bit_or(prev.p1, prev.p2, t);
        assert(!bit64(prev.p1, t) && !bit64(prev.p2, t));

        // The mover's flip adds exactly that bit to the union, and keeps
        // the two bit-sets disjoint.
        let pp1 = prev.p1;
        let pp2 = prev.p2;
        let np1 = m.p1;
        let np2 = m.p2;
        if prev.player() == Player::One {
            assert(np1 == pp1 ^ bit && np2 == pp2);
            assert(np1 & np2 == 0) by (bit_vector)
                requires
                    np1 == pp1 ^ (1u64 << t),
                    np2 == pp2,
                    pp1 & pp2 == 0u64,
                    (pp2 >> t) & 1 != 1,
                    t < 64u64,
            ;
            assert(np1 | np2 == (pp1 | pp2) ^ (1u64 << t)) by (bit_vector)
                requires
                    np1 == pp1 ^ (1u64 << t),
                    np2 == pp2,
                    (pp2 >> t) & 1 != 1,
                    t < 64u64,
            ;
        } else {
            assert(np2 == pp2 ^ bit && np1 == pp1);
            assert(np1 & np2 == 0) by (bit_vector)
                requires
                    np2 == pp2 ^ (1u64 << t),
                    np1 == pp1,
                    pp1 & pp2 == 0u64,
                    (pp1 >> t) & 1 != 1,
                    t < 64u64,
            ;
            assert(np1 | np2 == (pp1 | pp2) ^ (1u64 << t)) by (bit_vector)
                requires
                    np2 == pp2 ^ (1u64 << t),
                    np1 == pp1,
                    (pp1 >> t) & 1 != 1,
                    t < 64u64,
            ;
        }
        assert(m.p1 & m.p2 == 0);
        assert(m.occupied() == prev.occupied() ^ bit);

        // Heights and counts.
        assert forall|c: int|
            0 <= c < 7 implies #[trigger] m.heights[c] == col_base(c) + count_col(
            h,
            Column::from_idx(c),
        ) by {
            assert(count_col(h, Column::from_idx(c)) == count_col(prev.history, Column::from_idx(c))
                + if column == Column::from_idx(c) {
                1int
            } else {
                0int
            });
            if c == i {
                assert(column == Column::from_idx(c));
            } else {
                assert(column != Column::from_idx(c));
            }
        }
        lemma_filled_update(prev.heights, i, j0 + 1, 7);

        // Occupancy cell by cell.
        assert forall|c: int, r: int| 0 <= c < 7 && 0 <= r < 7 implies (#[trigger] m.occupied_at(
            c,
            r,
        ) <==> 7 * c + r < m.heights[c]) by {
            let j = 7 * c + r;
            assert(prev.occupied_at(c, r) <==> j < prev.heights[c]);
            lemma_bit_xor(prev.occupied(), t, j as u64);
            assert(bit64(m.occupied(), j as u64) == if j as u64 == t {
                !bit64(prev.occupied(), j as u64)
            } else {
                bit64(prev.occupied(), j as u64)
            });
            if j == j0 {
                assert(c == i && r == r0);
                assert(m.heights[c] == j0 + 1);
                assert(m.occupied_at(c, r));
            } else {
                assert(m.occupied_at(c, r) == prev.occupied_at(c, r));
                if c == i {
                    assert(m.heights[c] == j0 + 1);
                    assert(j < j0 + 1 <==> j < j0);
                } else {
                    assert(m.heights[c] == prev.heights[c]);
                }
            }
        }
        assert forall|j: u64| 49 <= j < 64 implies !#[trigger] bit64(m.occupied(), j) by {
            lemma_bit_xor(prev.occupied(), t, j);
        }
    }
}

/// A count of column occurrences is never negative.
proof fn lemma_count_col_nonneg(h: Seq<Column>, column: Column)
    ensures
        count_col(h, column) >= 0,
    decreases h.len(),
{
    if h.len() > 0 {
        lemma_count_col_nonneg(h.drop_last(), column);
    }
}

/// Applying a legal move and immediately undoing it restores the
/// bit-sets, the heights, the move counter and the history — and with
/// them every derived value — exactly.
pub proof fn lemma_apply_then_unapply(m: BoardModel, column: Column)
    requires
        m.wf(),
        m.status() == BoardStatus::OnGoing,
        m.playable(column),
    ensures
        m.apply(column).unapply() == m,
        m.apply(column).wf(),
{
    lemma_wf_facts(m);
    let n = m.apply(column);
    let i = column.idx();
    assert(n.history.drop_last() =~= m.history);
    assert(n.history.last() == column);
    assert(replay(n.history) == Some(n));
    let u = n.unapply();
    assert(n.heights[i] == m.heights[i] + 1);
    let x1 = m.p1;
    let x2 = m.p2;
    let b = 1u64 << (m.heights[i] as u64);
    assert((x1 ^ b) ^ b == x1) by (bit_vector);
    assert((x2 ^ b) ^ b == x2) by (bit_vector);
    assert(u.heights =~= m.heights);
    assert(u.history =~= m.history);
    assert(u =~= m);
}

/// On a well-formed ongoing board some column can still take a piece:
/// fewer than 42 moves have been made, so not every column is full.
pub proof fn lemma_ongoing_has_playable(m: BoardModel)
    requires
        m.wf(),
        m.status() == BoardStatus::OnGoing,
    ensures
        exists|c: Column| m.playable(c),
{
    lemma_wf_facts(m);
    lemma_col_idx();
    if !(exists|c: Column| m.playable(c)) {
        assert forall|i: int| 0 <= i < 7 implies m.heights[i] == col_top(i) by {
            assert(!m.playable(Column::from_idx(i)));
        }
        assert(filled(m.heights, 7) == 42) by {
            reveal_with_fuel(filled, 8);
        }
        assert(false);
    }
}

/// A well-formed board that has taken 42 moves without four in a row for
/// either player stands at a draw.
pub proof fn lemma_draw_at_full(m: BoardModel)
    requires
        m.wf(),
        m.history.len() == 42,
        !has_line(m.p1),
        !has_line(m.p2),
    ensures
        m.status() == BoardStatus::Draw,
{
    lemma_wf_facts(m);
}

/// On a well-formed board the status, computed by shift-runs over the
/// packed bits, is exactly the geometric status: a player has won when
/// four of its cells stand in a straight board line, the column
/// boundaries notwithstanding.
pub proof fn lemma_status_reads_geometric_fours(m: BoardModel)
    requires
        m.wf(),
    ensures
        m.status() == (if crate::win::has_four(m.p1) {
            BoardStatus::Winner(Player::One)
        } else if crate::win::has_four(m.p2) {
            BoardStatus::Winner(Player::Two)
        } else if m.move_count >= 42 {
            BoardStatus::Draw
        } else {
            BoardStatus::OnGoing
        }),
{
    lemma_wf_within_grid(m);
    crate::win::lemma_line_iff_four(m.p1);
    crate::win::lemma_line_iff_four(m.p2);
}

/// A well-formed board keeps both bit-sets to the playable cells, so the
/// shift-based win detection reads them geometrically.
pub proof fn lemma_wf_within_grid(m: BoardModel)
    requires
        m.wf(),
    ensures
        within_grid(m.p1),
        within_grid(m.p2),
{
    lemma_wf_facts(m);
    assert forall|j: u64| j < 64 && #[trigger] bit64(m.p1, j) implies bit64(
        crate::win::grid_mask(),
        j,
    ) by {
        lemma_grid_bit_of_occupied(m, j);
        lemma_bit_or(m.p1, m.p2, j);
    }
    crate::win::lemma_bits_subset_mask(m.p1, crate::win::grid_mask());
    assert forall|j: u64| j < 64 && #[trigger] bit64(m.p2, j) implies bit64(
        crate::win::grid_mask(),
        j,
    ) by {
        lemma_grid_bit_of_occupied(m, j);
        lemma_bit_or(m.p1, m.p2, j);
    }
    crate::win::lemma_bits_subset_mask(m.p2, crate::win::grid_mask());
}

/// On a well-formed board, any set bit of the union lies on a playable
/// cell of the mask.
proof fn lemma_grid_bit_of_occupied(m: BoardModel, j: u64)
    requires
        m.wf(),
        j < 64,
    ensures
        bit64(m.occupied(), j) ==> bit64(crate::win::grid_mask(), j),
{
    lemma_wf_facts(m);
    if bit64(m.occupied(), j) {
        assert(j < 49);
        vstd::arithmetic::div_mod::lemma_fundamental_div_mod(j as int, 7);
        let c = j as int / 7;
        let r = j as int % 7;
        assert(0 <= r < 7);
        assert(0 <= c < 7);
        assert(m.occupied_at(c, r));
        assert(7 * c + r < m.heights[c]);
        assert(r < 6);
        assert(j % 7 < 6);
        assert(bit64(crate::win::grid_mask(), j)) by (bit_vector)
            requires
                j < 49u64,
                j % 7 < 6,
        ;
    }
}

/// The packed board: two disjoint per-player bit-sets, each column's next
/// free bit index, the move counter, and the history of moves that
/// supports undo.
#[derive(Debug)]
pub struct ConnectFourBoard {
    player_one_bitboard: u64,
    player_two_bitboard: u64,
    move_count: u8,
    heights: [u8; 7],
    history: Vec<Column>,
}

impl View for ConnectFourBoard {
    type V = BoardModel;

    closed spec fn view(&self) -> BoardModel {
        BoardModel {
            p1: self.player_one_bitboard,
            p2: self.player_two_bitboard,
            move_count: self.move_count as int,
            heights: Seq::new(7, |i: int| self.heights@[i] as int),
            history: self.history@,
        }
    }
}

impl Default for ConnectFourBoard {
    /// The empty board, ready for `Player::One`'s first move.
    fn default() -> (r: Self)
        ensures
            r@ == BoardModel::empty(),
            r@.wf(),
    {
        let r = ConnectFourBoard {
            player_one_bitboard: 0,
            player_two_bitboard: 0,
            move_count: 0,
            heights: [0, 7, 14, 21, 28, 35, 42],
            history: Vec::new(),
        };
        proof {
            assert(r@.heights =~= BoardModel::empty().heights);
            assert(r@ =~= BoardModel::empty());
        }
        r
    }
}

impl Clone for ConnectFourBoard {
    /// An independent board with the same content.
    fn clone(&self) -> (r: Self)
        ensures
            r@ == self@,
    {
        let mut history: Vec<Column> = Vec::new();
        let mut k: usize = 0;
        while k < self.history.len()
            invariant
                k <= self.history.len(),
                history@ =~= self.history@.subrange(0, k as int),
            decreases self.history.len() - k,
        {
            history.push(self.history[k]);
            proof {
                assert(history@ =~= self.history@.subrange(0, k + 1));
            }
            k += 1;
        }
        proof {
            assert(history@ =~= self.history@);
        }
        let r = ConnectFourBoard {
            player_one_bitboard: self.player_one_bitboard,
            player_two_bitboard: self.player_two_bitboard,
            move_count: self.move_count,
            heights: self.heights,
            history,
        };
        proof {
            assert(r@ =~= self@);
        }
        r
    }
}

impl ConnectFourBoard {
    /// A board holding just the given bit-sets: no recorded moves, all
    /// next free indices at their column bottoms. It serves to inspect
    /// fixed positions; boards built this way need not be well formed.
    pub fn with_bitboards(player_one: u64, player_two: u64) -> (r: Self)
        ensures
            r@ == (BoardModel { p1: player_one, p2: player_two, ..BoardModel::empty() }),
    {
        let r = ConnectFourBoard {
            player_one_bitboard: player_one,
            player_two_bitboard: player_two,
            move_count: 0,
            heights: [0, 7, 14, 21, 28, 35, 42],
            history: Vec::new(),
        };
        proof {
            assert(r@ =~= (BoardModel { p1: player_one, p2: player_two, ..BoardModel::empty() }));
        }
        r
    }

    /// Whether `column` still has room for a piece.
    pub fn is_playable(&self, column: Column) -> (r: bool)
        ensures
            r == self@.playable(column),
    {
        let idx = column.to_index();
        self.heights[idx] < 7 * (idx as u8) + 6
    }

    /// The first player's occupancy bit-set.
    pub fn player_one_bitboard(&self) -> (r: u64)
        ensures
            r == self@.p1,
    {
        self.player_one_bitboard
    }

    /// The second player's occupancy bit-set.
    pub fn player_two_bitboard(&self) -> (r: u64)
        ensures
            r == self@.p2,
    {
        self.player_two_bitboard
    }

    /// How many pieces `column` holds, 0 to 6.
    pub fn column_height(&self, column: Column) -> (r: u8)
        ensures
            r == self@.heights[column.idx()] % 7,
            self@.wf() ==> r == self@.heights[column.idx()] - col_base(column.idx()),
    {
        let idx = column.to_index();
        proof {
            if self@.wf() {
                lemma_wf_facts(self@);
                let i = column.idx();
                let d = self@.heights[i] - col_base(i);
                vstd::arithmetic::div_mod::lemma_mod_multiples_vanish(i, d, 7);
                vstd::arithmetic::div_mod::lemma_small_mod(d as nat, 7);
            }
        }
        self.heights[idx] % 7
    }

    /// Drops the current player's piece into `column` and returns the
    /// cell bit that was set. A move on a concluded board is rejected
    /// with `ConcludedGame`, one into a full column with `FullColumn`,
    /// and either rejection leaves the board exactly as it was. Both
    /// checks run before anything is written, so no partial update ever
    /// commits.
    pub fn try_move(&mut self, column: Column) -> (r: Result<u64, MoveError>)
        ensures
            old(self)@.status() != BoardStatus::OnGoing ==> r == Err::<u64, MoveError>(
                MoveError::ConcludedGame,
            ) && final(self)@ == old(self)@,
            old(self)@.status() == BoardStatus::OnGoing && !old(self)@.playable(column) ==> r
                == Err::<u64, MoveError>(MoveError::FullColumn) && final(self)@ == old(self)@,
            old(self)@.status() == BoardStatus::OnGoing && old(self)@.playable(column) ==> r
                == Ok::<u64, MoveError>(1u64 << (old(self)@.heights[column.idx()] as u64))
                && final(self)@ == old(self)@.apply(column),
            old(self)@.wf() ==> final(self)@.wf(),
    {
        if self.status() != BoardStatus::OnGoing {
            return Err(MoveError::ConcludedGame);
        }
        if !self.is_playable(column) {
            return Err(MoveError::FullColumn);
        }

        let idx = column.to_index();
        let next_position = 1u64 << (self.heights[idx] as u64);
        match self.current_player() {
            Player::One => self.player_one_bitboard = self.player_one_bitboard ^ next_position,
            Player::Two => self.player_two_bitboard = self.player_two_bitboard ^ next_position,
        };

        self.move_count = self.move_count + 1;
        self.heights[idx] = self.heights[idx] + 1;
        self.history.push(column);

        proof {
            assert(self@.heights =~= old(self)@.heights.update(
                column.idx(),
                old(self)@.heights[column.idx()] + 1,
            ));
            assert(self@ =~= old(self)@.apply(column));
            if old(self)@.wf() {
                assert(self@.history.drop_last() =~= old(self)@.history);
                assert(replay(self@.history) == Some(self@));
            }
        }
        Ok(next_position)
    }

    /// Takes back the most recent move: the exact inverse of the
    /// `try_move` that made it. On a board with no recorded moves it
    /// does nothing.
    pub fn pop_move(&mut self)
        requires
            old(self)@.wf(),
        ensures
            old(self)@.history.len() == 0 ==> final(self)@ == old(self)@,
            old(self)@.history.len() > 0 ==> final(self)@ == old(self)@.unapply(),
            final(self)@.wf(),
    {
        proof {
            lemma_wf_facts(self@);
            lemma_col_idx();
            if self@.history.len() > 0 {
                let h = self@.history;
                let column = h.last();
                lemma_count_col_nonneg(h.drop_last(), column);
                assert(self@.heights[column.idx()] > col_base(column.idx()));
            }
        }
        if let Some(column) = self.history.pop() {
            let idx = column.to_index();
            self.move_count = self.move_count - 1;
            self.heights[idx] = self.heights[idx] - 1;

            let old_position = 1u64 << (self.heights[idx] as u64);
            match self.current_player() {
                Player::One => self.player_one_bitboard = self.player_one_bitboard ^ old_position,
                Player::Two => self.player_two_bitboard = self.player_two_bitboard ^ old_position,
            };
            proof {
                let m = old(self)@;
                assert(self@.history =~= m.history.drop_last());
                assert(self@.heights =~= m.heights.update(
                    column.idx(),
                    m.heights[column.idx()] - 1,
                ));
                assert(self@ =~= m.unapply());
                lemma_replay_history(m.history.drop_last());
                let prev = replay(m.history.drop_last()).unwrap();
                assert(m == prev.apply(column));
                lemma_apply_then_unapply(prev, column);
                assert(self@ == prev);
            }
        }
    }

    /// The player whose turn it is.
    pub fn current_player(&self) -> (r: Player)
        ensures
            r == self@.player(),
    {
        Player::from_move_count(self.move_count)
    }

    /// The derived status of the board. The win checks run before the
    /// draw check, first player first.
    pub fn status(&self) -> (r: BoardStatus)
        ensures
            r == self@.status(),
    {
        if has_winner(self.player_one_bitboard) {
            return BoardStatus::Winner(Player::One);
        }
        if has_winner(self.player_two_bitboard) {
            return BoardStatus::Winner(Player::Two);
        }
        if self.move_count >= 42 {
            return BoardStatus::Draw;
        }
        BoardStatus::OnGoing
    }

    /// The 42 cells read out in the renderer's order.
    pub fn slots(&self) -> (r: BoardSlots)
        ensures
            r@ == slots_seq(self@),
    {
        BoardSlots::new(self)
    }
}

/// One cell as a renderer sees it.
#[derive(Debug, PartialEq, Eq, Structural)]
pub enum Slot {
    Occupied(Player),
    Vacant,
}

/// The slot at position `k` of the traversal, which walks column `k / 6`
/// from the bottom: row `k % 6`.
pub open spec fn slot_at(m: BoardModel, k: int) -> Slot {
    let b = (7 * (k / 6) + k % 6) as u64;
    if bit64(m.p1, b) {
        Slot::Occupied(Player::One)
    } else if bit64(m.p2, b) {
        Slot::Occupied(Player::Two)
    } else {
        Slot::Vacant
    }
}

/// All 42 cells in traversal order: column by column from the left, each
/// column bottom to top.
pub open spec fn slots_seq(m: BoardModel) -> Seq<Slot> {
    Seq::new(42, |k: int| slot_at(m, k))
}

/// A read-out of a board's 42 cells in a fixed traversal order: column
/// by column from the left, each column bottom to top, guard bits
/// skipped.
pub struct BoardSlots {
    slots: Vec<Slot>,
}

impl View for BoardSlots {
    type V = Seq<Slot>;

    closed spec fn view(&self) -> Seq<Slot> {
        self.slots@
    }
}

impl BoardSlots {
    /// Reads the 42 slots of `board`.
    pub fn new(board: &ConnectFourBoard) -> (r: BoardSlots)
        ensures
            r@ == slots_seq(board@),
    {
        let p1 = board.player_one_bitboard();
        let p2 = board.player_two_bitboard();
        let mut slots: Vec<Slot> = Vec::new();
        let mut k: usize = 0;
        while k < 42
            invariant
                k <= 42,
                slots@.len() == k,
                p1 == board@.p1,
                p2 == board@.p2,
                forall|j: int| 0 <= j < k ==> slots@[j] == slot_at(board@, j),
            decreases 42 - k,
        {
            let b = (7 * (k / 6) + k % 6) as u64;
            let slot = if (p1 >> b) & 1 == 1 {
                Slot::Occupied(Player::One)
            } else if (p2 >> b) & 1 == 1 {
                Slot::Occupied(Player::Two)
            } else {
                Slot::Vacant
            };
            slots.push(slot);
            k = k + 1;
        }
        proof {
            assert(slots@ =~= slots_seq(board@));
        }
        BoardSlots { slots }
    }

    /// The slots as a vector, in traversal order.
    pub fn into_vec(self) -> (r: Vec<Slot>)
        ensures
            r@ == self@,
    {
        self.slots
    }
}

} // verus!
