use rusted_wizard_core::player_count_input_popup;
use rusted_wizard_core::player_name_input_popup;
use rusted_wizard_core::playground::{
    column_share, gap, points_text, round_offset, rows_per_round, visible,
};
use rusted_wizard_core::{App, Key, Wizard, WizardState};

fn session(player_count: usize) -> Wizard {
    let mut wizard = Wizard::new(player_count);
    for seat in 0..player_count {
        wizard.seat(format!("Q{}", seat));
    }
    wizard
}

/// Plays one round to its end and files it: everybody bids zero, the first
/// player of the round takes all the tricks.
fn play_and_file(wizard: &mut Wizard) {
    wizard.step(0);
    let players = wizard.player_count();
    let tricks = wizard.round_index() as u8;
    for _ in 0..players {
        wizard.step(0);
    }
    wizard.step(tricks);
    for _ in 1..players {
        wizard.step(0);
    }
    wizard.step(0);
    if wizard.state() != WizardState::End {
        wizard.step(0);
        wizard.step(0);
    }
}

#[test]
fn table_is_hidden_without_a_seated_session() {
    let mut app = App::new();
    assert!(!visible(&app));
    player_count_input_popup::handle_input(&mut app, Key::Char('3'));
    player_count_input_popup::handle_input(&mut app, Key::Enter);
    assert_eq!(app.game().unwrap().state(), WizardState::Init);
    assert!(!visible(&app));
}

#[test]
fn table_is_shown_once_the_roster_is_complete() {
    let mut app = App::new();
    player_count_input_popup::handle_input(&mut app, Key::Char('3'));
    player_count_input_popup::handle_input(&mut app, Key::Enter);
    for _ in 0..3 {
        player_name_input_popup::handle_input(&mut app, Key::Char('x'));
        player_name_input_popup::handle_input(&mut app, Key::Tab { shift: false });
    }
    player_name_input_popup::handle_input(&mut app, Key::Enter);
    assert_eq!(app.game().unwrap().state(), WizardState::NextRound);
    assert!(visible(&app));
}

#[test]
fn rounds_stand_apart_where_the_screen_has_room() {
    let game = session(3);
    assert_eq!(game.round_count(), 20);
    assert_eq!(rows_per_round(&game, 44), 2);
    assert_eq!(gap(&game, 44), 0);
    assert_eq!(rows_per_round(&game, 43), 1);
    assert_eq!(gap(&game, 43), 1);
    assert_eq!(rows_per_round(&game, 0), 1);
    assert_eq!(rows_per_round(&game, u16::MAX), 2);
    let small = session(6);
    assert_eq!(rows_per_round(&small, 24), 2);
    assert_eq!(rows_per_round(&small, 23), 1);
}

#[test]
fn offsets_of_rounds_standing_apart() {
    let game = session(4);
    for round in 0..15 {
        assert_eq!(round_offset(&game, round, 100), 2 * round as u16);
    }
}

#[test]
fn offsets_of_rounds_standing_close_leave_a_gap_before_the_rounds_to_come() {
    let mut game = session(4);
    assert_eq!(round_offset(&game, 0, 10), 0);
    assert_eq!(round_offset(&game, 1, 10), 2);
    assert_eq!(round_offset(&game, 14, 10), 15);
    play_and_file(&mut game);
    play_and_file(&mut game);
    assert_eq!(game.round_index(), 2);
    assert_eq!(round_offset(&game, 0, 10), 0);
    assert_eq!(round_offset(&game, 1, 10), 1);
    assert_eq!(round_offset(&game, 2, 10), 2);
    assert_eq!(round_offset(&game, 3, 10), 4);
    assert_eq!(round_offset(&game, 14, 10), 15);
    assert_eq!(round_offset(&game, 3, 100), 6);
}

#[test]
fn column_share_is_a_whole_percentage() {
    let expected = [(1, 100), (2, 50), (3, 33), (4, 25), (5, 20), (6, 16), (7, 14), (60, 1)];
    for (players, share) in expected {
        assert_eq!(column_share(&Wizard::new(players)), share);
    }
}

#[test]
fn points_are_shown_for_rounds_on_file() {
    let mut game = session(3);
    assert_eq!(points_text(&game, 0, 0), "");
    play_and_file(&mut game);
    assert_eq!(points_text(&game, 0, 0), "-10");
    assert_eq!(points_text(&game, 0, 1), "20");
    assert_eq!(points_text(&game, 0, 2), "20");
    assert_eq!(points_text(&game, 1, 0), "");
    play_and_file(&mut game);
    // the second round was dealt to Q1, Q2, Q0, and Q1 took the tricks
    assert_eq!(points_text(&game, 1, 0), "0");
    assert_eq!(points_text(&game, 1, 1), "40");
    assert_eq!(points_text(&game, 1, 2), "10");
    assert_eq!(points_text(&game, 0, 0), "-10");
    assert_eq!(points_text(&game, 2, 0), "");
    assert_eq!(points_text(&game, 19, 2), "");
}
