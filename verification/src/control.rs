//! The interface's state machine: page navigation, the column cursor,
//! and the handling of decoded key presses. Everything here is pure
//! state logic; reading the terminal and drawing to it live outside the
//! library.

use vstd::prelude::*;

use crate::ai;
use crate::event::Key;
use crate::game::{BoardModel, BoardStatus, Column, ConnectFourBoard};

verus! {

/// A movement of the column cursor over the board.
#[derive(Debug)]
pub enum CursorMovement {
    Left,
    Right,
    Exact(Column),
}

/// Which page the interface shows.
#[derive(PartialEq, Eq, Structural, Clone, Copy, Debug)]
pub enum Page {
    Home,
    SinglePlayer,
    MultiPlayer,
}

/// The board after the mover drops a piece into `cur` — unchanged when
/// the game is over or the column is full.
pub open spec fn board_after_turn(m: BoardModel, cur: Column) -> BoardModel {
    if m.status() == BoardStatus::OnGoing && m.playable(cur) {
        m.apply(cur)
    } else {
        m
    }
}

/// What one single-player turn at cursor `cur` does to board `m`: the
/// human's piece drops if it legally can, and while the game is then
/// still on, the move a ten-ply search must choose follows it.
pub open spec fn singleplayer_outcome(m: BoardModel, cur: Column, result: BoardModel) -> bool {
    if m.status() == BoardStatus::OnGoing && m.playable(cur) {
        let after = m.apply(cur);
        if after.status() == BoardStatus::OnGoing {
            exists|reply: Column|
                #[trigger] ai::is_chosen(after, 10, reply) && result == after.apply(reply)
        } else {
            result == after
        }
    } else {
        result == m
    }
}

/// The interface state: whether the program keeps running, the page
/// shown, the board of the current game and the cursor over its
/// columns.
pub struct App {
    running: bool,
    current_page: Page,
    board: ConnectFourBoard,
    board_cursor: Option<Column>,
}

impl App {
    /// The whole interface state, for specification.
    pub closed spec fn spec_board(self) -> BoardModel {
        self.board@
    }

    /// See `spec_board`.
    pub closed spec fn spec_cursor(self) -> Option<Column> {
        self.board_cursor
    }

    /// See `spec_board`.
    pub closed spec fn spec_page(self) -> Page {
        self.current_page
    }

    /// See `spec_board`.
    pub closed spec fn spec_running(self) -> bool {
        self.running
    }

    /// What every handler preserves: the board is one reachable by
    /// legal play, and on a game page the cursor points at a column.
    pub closed spec fn wf(self) -> bool {
        &&& self.board@.wf()
        &&& (self.current_page == Page::SinglePlayer || self.current_page == Page::MultiPlayer)
            ==> self.board_cursor is Some
    }

    /// A fresh interface: home page, empty board, no cursor yet.
    pub fn new() -> (r: Self)
        ensures
            r.wf(),
            r.spec_running(),
            r.spec_page() == Page::Home,
            r.spec_board() == BoardModel::empty(),
            r.spec_cursor() is None,
    {
        Self {
            running: true,
            current_page: Page::Home,
            board: ConnectFourBoard::default(),
            board_cursor: None,
        }
    }

    /// Whether the main loop should keep going.
    pub fn is_running(&self) -> (r: bool)
        ensures
            r == self.spec_running(),
    {
        self.running
    }

    /// The page to draw.
    pub fn page(&self) -> (p: Page)
        ensures
            p == self.spec_page(),
    {
        self.current_page
    }

    /// The board of the current game.
    pub fn board(&self) -> (b: &ConnectFourBoard)
        ensures
            b@ == self.spec_board(),
    {
        &self.board
    }

    /// The column the cursor hovers over, if a game is showing.
    pub fn board_cursor(&self) -> (r: Option<Column>)
        ensures
            r == self.spec_cursor(),
    {
        self.board_cursor
    }

    /// Reacts to one decoded key press on whatever page is showing.
    /// Only the home page's quit key can stop the program; on the game
    /// pages only the drop key can touch the board, and what it does to
    /// it is pinned by `board_after_turn` and `singleplayer_outcome`.
    pub fn handle_key_press(&mut self, key: Key)
        requires
            old(self).wf(),
        ensures
            final(self).wf(),
            old(self).spec_page() != Page::Home ==> final(self).spec_running() == old(
                self,
            ).spec_running(),
            old(self).spec_page() != Page::Home && key != Key::Enter ==> final(self).spec_board()
                == old(self).spec_board(),
            old(self).spec_page() == Page::MultiPlayer && key == Key::Enter
                ==> final(self).spec_board() == board_after_turn(
                old(self).spec_board(),
                old(self).spec_cursor()->0,
            ),
            old(self).spec_page() == Page::SinglePlayer && key == Key::Enter
                ==> singleplayer_outcome(
                old(self).spec_board(),
                old(self).spec_cursor()->0,
                final(self).spec_board(),
            ),
            old(self).spec_page() == Page::Home ==> final(self).spec_board() == (if key
                == Key::Char('1') || key == Key::Char('2') {
                BoardModel::empty()
            } else {
                old(self).spec_board()
            }),
            old(self).spec_page() == Page::Home && key == Key::Char('q')
                ==> !final(self).spec_running(),
    {
        match self.current_page {
            Page::Home => self.handle_home_key_press(key),
            Page::SinglePlayer => self.handle_singleplayer_key_press(key),
            Page::MultiPlayer => self.handle_multiplayer_key_press(key),
        }
    }

    /// On the home page: start a game against the machine or a second
    /// player, or quit. Starting a game resets the board and puts the
    /// cursor on the middle column.
    fn handle_home_key_press(&mut self, key: Key)
        requires
            old(self).wf(),
        ensures
            final(self).wf(),
            key == Key::Char('1') ==> final(self).spec_page() == Page::SinglePlayer,
            key == Key::Char('2') ==> final(self).spec_page() == Page::MultiPlayer,
            key == Key::Char('1') || key == Key::Char('2') ==> final(self).spec_board()
                == BoardModel::empty() && final(self).spec_cursor() == Some(Column::Four)
                && final(self).spec_running() == old(self).spec_running(),
            key == Key::Char('q') ==> !final(self).spec_running(),
            !(key == Key::Char('1') || key == Key::Char('2')) ==> final(self).spec_board() == old(
                self,
            ).spec_board(),
            !(key == Key::Char('1') || key == Key::Char('2') || key == Key::Char('q'))
                ==> *final(self) == *old(self),
    {
        match key {
            Key::Char('1') => {
                self.board = ConnectFourBoard::default();
                self.board_cursor = Some(Column::Four);
                self.current_page = Page::SinglePlayer;
            },
            Key::Char('2') => {
                self.board = ConnectFourBoard::default();
                self.board_cursor = Some(Column::Four);
                self.current_page = Page::MultiPlayer;
            },
            Key::Char('q') => {
                self.running = false;
            },
            _ => {},
        }
    }

    /// The navigation both game pages share. Returns the cursor's
    /// column when the key asks to drop a piece and the game is still
    /// on; the caller makes the move.
    fn handle_game_key_press(&mut self, key: Key) -> (turn: Option<Column>)
        requires
            old(self).wf(),
            old(self).spec_cursor() is Some,
        ensures
            final(self).wf(),
            final(self).spec_board() == old(self).spec_board(),
            final(self).spec_running() == old(self).spec_running(),
            final(self).spec_cursor() is Some,
            turn == (if key == Key::Enter && old(self).spec_board().status()
                == BoardStatus::OnGoing {
                old(self).spec_cursor()
            } else {
                None::<Column>
            }),
            turn is Some ==> *final(self) == *old(self),
    {
        match key {
            Key::Char('q') => {
                self.current_page = Page::Home;
                None
            },
            Key::Left => {
                self.update_cursor(CursorMovement::Left);
                None
            },
            Key::Right => {
                self.update_cursor(CursorMovement::Right);
                None
            },
            Key::Char('1') => {
                self.update_cursor(CursorMovement::Exact(Column::One));
                None
            },
            Key::Char('2') => {
                self.update_cursor(CursorMovement::Exact(Column::Two));
                None
            },
            Key::Char('3') => {
                self.update_cursor(CursorMovement::Exact(Column::Three));
                None
            },
            Key::Char('4') => {
                self.update_cursor(CursorMovement::Exact(Column::Four));
                None
            },
            Key::Char('5') => {
                self.update_cursor(CursorMovement::Exact(Column::Five));
                None
            },
            Key::Char('6') => {
                self.update_cursor(CursorMovement::Exact(Column::Six));
                None
            },
            Key::Char('7') => {
                self.update_cursor(CursorMovement::Exact(Column::Seven));
                None
            },
            Key::Enter => {
                if self.board.status() == BoardStatus::OnGoing {
                    self.board_cursor
                } else {
                    None
                }
            },
            _ => None,
        }
    }

    /// A game against the machine: the human's move first, then — while
    /// the game is still on — the searched reply, ten plies deep.
    fn handle_singleplayer_key_press(&mut self, key: Key)
        requires
            old(self).wf(),
            old(self).spec_cursor() is Some,
        ensures
            final(self).wf(),
            final(self).spec_running() == old(self).spec_running(),
            key != Key::Enter ==> final(self).spec_board() == old(self).spec_board(),
            key == Key::Enter ==> singleplayer_outcome(
                old(self).spec_board(),
                old(self).spec_cursor()->0,
                final(self).spec_board(),
            ),
    {
        if let Some(column) = self.handle_game_key_press(key) {
            let played = self.board.try_move(column);
            if played.is_ok() {
                if let Some(reply) = ai::next_move(&self.board, 10) {
                    let _ = self.board.try_move(reply);
                }
            }
        }
    }

    /// A game between two people: dropping a piece at the cursor is the
    /// whole move.
    fn handle_multiplayer_key_press(&mut self, key: Key)
        requires
            old(self).wf(),
            old(self).spec_cursor() is Some,
        ensures
            final(self).wf(),
            final(self).spec_running() == old(self).spec_running(),
            key != Key::Enter ==> final(self).spec_board() == old(self).spec_board(),
            key == Key::Enter ==> final(self).spec_board() == board_after_turn(
                old(self).spec_board(),
                old(self).spec_cursor()->0,
            ),
    {
        if let Some(column) = self.handle_game_key_press(key) {
            let _ = self.board.try_move(column);
        }
    }

    /// Moves the column cursor. Stepping left is always allowed within
    /// the board; stepping right or jumping to a column only lands on a
    /// column that can still take a piece.
    fn update_cursor(&mut self, cursor: CursorMovement)
        requires
            old(self).wf(),
        ensures
            final(self).wf(),
            final(self).spec_board() == old(self).spec_board(),
            final(self).spec_page() == old(self).spec_page(),
            final(self).spec_running() == old(self).spec_running(),
            final(self).spec_cursor() == ({
                let cur = old(self).spec_cursor();
                match cursor {
                    CursorMovement::Left => if cur is Some && cur->0.idx() > 0 {
                        Some(Column::from_idx(cur->0.idx() - 1))
                    } else {
                        cur
                    },
                    CursorMovement::Right => if cur is Some && cur->0.idx() < 6 && old(
                        self,
                    ).spec_board().playable(Column::from_idx(cur->0.idx() + 1)) {
                        Some(Column::from_idx(cur->0.idx() + 1))
                    } else {
                        cur
                    },
                    CursorMovement::Exact(column) => if old(self).spec_board().playable(column) {
                        Some(column)
                    } else {
                        cur
                    },
                }
            }),
    {
        match cursor {
            CursorMovement::Left => {
                if let Some(current) = self.board_cursor {
                    let col = current.to_u8();
                    if let Ok(column) = Column::try_from_u8(col - 1) {
                        self.board_cursor = Some(column);
                    }
                }
            },
            CursorMovement::Right => {
                if let Some(current) = self.board_cursor {
                    let col = current.to_u8();
                    if let Ok(column) = Column::try_from_u8(col + 1) {
                        if self.board.is_playable(column) {
                            self.board_cursor = Some(column);
                        }
                    }
                }
            },
            CursorMovement::Exact(column) => {
                if self.board.is_playable(column) {
                    self.board_cursor = Some(column);
                }
            },
        }
    }
}

} // verus!
