use connect_four::control::{App, Page};
use connect_four::event::{Key, TerminalEvent};
use connect_four::game::{BoardStatus, Column, Player};

#[test]
fn app_starts_at_home() {
    let app = App::new();
    assert!(app.is_running());
    assert_eq!(Page::Home, app.page());
    assert_eq!(None, app.board_cursor());
    assert_eq!(0, app.board().player_one_bitboard());
    assert_eq!(0, app.board().player_two_bitboard());
}

#[test]
fn quit_from_home() {
    let mut app = App::new();
    app.handle_key_press(Key::Char('q'));
    assert!(!app.is_running());
}

#[test]
fn entering_a_game_sets_the_cursor() {
    let mut app = App::new();
    app.handle_key_press(Key::Char('1'));
    assert_eq!(Page::SinglePlayer, app.page());
    assert_eq!(Some(Column::Four), app.board_cursor());

    let mut app = App::new();
    app.handle_key_press(Key::Char('2'));
    assert_eq!(Page::MultiPlayer, app.page());
    assert_eq!(Some(Column::Four), app.board_cursor());
}

#[test]
fn leaving_a_game_returns_home() {
    let mut app = App::new();
    app.handle_key_press(Key::Char('2'));
    app.handle_key_press(Key::Char('q'));
    assert_eq!(Page::Home, app.page());
    assert!(app.is_running());
}

#[test]
fn cursor_steps_and_jumps() {
    let mut app = App::new();
    app.handle_key_press(Key::Char('2'));
    app.handle_key_press(Key::Left);
    assert_eq!(Some(Column::Three), app.board_cursor());
    for _ in 0..4 {
        app.handle_key_press(Key::Left);
    }
    assert_eq!(Some(Column::One), app.board_cursor());
    app.handle_key_press(Key::Right);
    assert_eq!(Some(Column::Two), app.board_cursor());
    app.handle_key_press(Key::Char('7'));
    assert_eq!(Some(Column::Seven), app.board_cursor());
    app.handle_key_press(Key::Right);
    assert_eq!(Some(Column::Seven), app.board_cursor());
}

#[test]
fn cursor_avoids_full_columns() {
    let mut app = App::new();
    app.handle_key_press(Key::Char('2'));
    // Fill column 4 with six pieces.
    for _ in 0..6 {
        app.handle_key_press(Key::Enter);
    }
    assert!(!app.board().is_playable(Column::Four));
    // Jumping onto the full column is refused; stepping left works.
    app.handle_key_press(Key::Char('3'));
    assert_eq!(Some(Column::Three), app.board_cursor());
    app.handle_key_press(Key::Char('4'));
    assert_eq!(Some(Column::Three), app.board_cursor());
    // Stepping right is blocked by the full column.
    app.handle_key_press(Key::Right);
    assert_eq!(Some(Column::Three), app.board_cursor());
}

#[test]
fn multiplayer_enter_drops_alternating_pieces() {
    let mut app = App::new();
    app.handle_key_press(Key::Char('2'));
    app.handle_key_press(Key::Enter);
    // One piece for the first player at the bottom of column 4.
    assert_eq!(1u64 << 21, app.board().player_one_bitboard());
    assert_eq!(Player::Two, app.board().current_player());
    app.handle_key_press(Key::Char('5'));
    app.handle_key_press(Key::Enter);
    assert_eq!(1u64 << 28, app.board().player_two_bitboard());
    assert_eq!(Player::One, app.board().current_player());
}

#[test]
fn singleplayer_enter_gets_a_reply() {
    let mut app = App::new();
    app.handle_key_press(Key::Char('1'));
    app.handle_key_press(Key::Enter);
    // The human's piece and the machine's answer are both on the board,
    // and it is the human's turn again.
    assert_ne!(0, app.board().player_one_bitboard());
    assert_ne!(0, app.board().player_two_bitboard());
    assert_eq!(Player::One, app.board().current_player());
    assert_eq!(BoardStatus::OnGoing, app.board().status());
}

#[test]
fn unmapped_keys_change_nothing() {
    let mut app = App::new();
    app.handle_key_press(Key::Char('x'));
    assert!(app.is_running());
    assert_eq!(Page::Home, app.page());
    app.handle_key_press(Key::Char('2'));
    app.handle_key_press(Key::Char('x'));
    app.handle_key_press(Key::F5);
    assert_eq!(Page::MultiPlayer, app.page());
    assert_eq!(Some(Column::Four), app.board_cursor());
    assert_eq!(0, app.board().player_one_bitboard());
}

#[test]
fn function_keys_by_number() {
    assert_eq!(Key::F0, Key::from_function_key(0));
    assert_eq!(Key::F5, Key::from_function_key(5));
    assert_eq!(Key::F12, Key::from_function_key(12));
}

#[test]
fn terminal_events_carry_keys() {
    let event = TerminalEvent::Input(Key::Char('3'));
    assert_eq!(TerminalEvent::Input(Key::Char('3')), event);
    assert_ne!(TerminalEvent::Tick, event);
}
