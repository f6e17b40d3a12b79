use rusted_wizard_core::{Player, Round, RoundState};

fn roster(names: &[&str]) -> Vec<Player> {
    names.iter().map(|name| Player::new(String::from(*name))).collect()
}

fn points_of(round: &Round) -> Vec<i32> {
    round.players().iter().map(|player| player.points()).collect()
}

fn feed(round: &mut Round, counts: &[u8]) {
    for count in counts {
        round.step(*count);
    }
}

#[test]
fn new_round_starts_tipping_with_first_player() {
    let round = Round::new(4, roster(&["Ann", "Bob"]));
    assert_eq!(round.round_nr(), 4);
    assert_eq!(round.state(), RoundState::Tipping);
    assert_eq!(round.current_player_index(), 0);
    assert_eq!(round.current_player().name(), "Ann");
    assert_eq!(round.players().len(), 2);
    assert_eq!(round.tips().sum(), 0);
    assert_eq!(round.matches().sum(), 0);
}

#[test]
fn bids_are_recorded_in_turn_order() {
    let mut round = Round::new(5, roster(&["Ann", "Bob", "Cid"]));
    round.step(2);
    assert_eq!(round.state(), RoundState::Tipping);
    assert_eq!(round.current_player_index(), 1);
    assert_eq!(round.tips().get_tip(&round.players()[0]), 2);
    round.step(4);
    assert_eq!(round.current_player_index(), 2);
    assert_eq!(round.tips().get_tip(&round.players()[1]), 4);
    assert_eq!(round.tips().sum(), 6);
    assert_eq!(round.matches().sum(), 0);
}

#[test]
fn scenario_three_players_round_one() {
    let mut round = Round::new(1, roster(&["Ann", "Bob", "Cid"]));
    feed(&mut round, &[1, 0, 1]);
    assert_eq!(round.state(), RoundState::Playing);
    assert_eq!(round.current_player_index(), 0);
    feed(&mut round, &[1, 0, 0]);
    assert_eq!(round.state(), RoundState::Checking);
    assert_eq!(points_of(&round), vec![0, 0, 0]);
    round.step(0);
    assert_eq!(round.state(), RoundState::End);
    assert_eq!(points_of(&round), vec![30, 20, -10]);
}

#[test]
fn scenario_bids_equal_to_round_number_force_retipping() {
    let mut round = Round::new(1, roster(&["Ann", "Bob"]));
    feed(&mut round, &[1, 0]);
    assert_eq!(round.state(), RoundState::Retipping);
    assert_eq!(round.current_player_index(), 0);
    assert_eq!(round.tips().sum(), 1);

    round.step(0);
    assert_eq!(round.state(), RoundState::Retipping);
    assert_eq!(round.current_player_index(), 1);
    assert_eq!(round.tips().get_tip(&round.players()[0]), 0);
    assert_eq!(round.tips().get_tip(&round.players()[1]), 0);

    round.step(0);
    assert_eq!(round.state(), RoundState::Playing);
    assert_eq!(round.tips().sum(), 0);
}

#[test]
fn retipping_repeats_until_the_sum_differs() {
    let mut round = Round::new(3, roster(&["Ann", "Bob"]));
    feed(&mut round, &[1, 2]);
    assert_eq!(round.state(), RoundState::Retipping);
    feed(&mut round, &[3, 0]);
    assert_eq!(round.state(), RoundState::Retipping);
    feed(&mut round, &[0, 3]);
    assert_eq!(round.state(), RoundState::Retipping);
    feed(&mut round, &[2, 2]);
    assert_eq!(round.state(), RoundState::Playing);
    assert_eq!(round.tips().get_tip(&round.players()[0]), 2);
    assert_eq!(round.tips().get_tip(&round.players()[1]), 2);
}

#[test]
fn trick_counts_are_replayed_until_they_add_up() {
    let mut round = Round::new(2, roster(&["Ann", "Bob"]));
    feed(&mut round, &[0, 1]);
    assert_eq!(round.state(), RoundState::Playing);
    feed(&mut round, &[1, 0]);
    assert_eq!(round.state(), RoundState::Playing);
    assert_eq!(round.current_player_index(), 0);
    feed(&mut round, &[2, 1]);
    assert_eq!(round.state(), RoundState::Playing);
    round.step(2);
    assert_eq!(round.state(), RoundState::Playing);
    assert_eq!(round.current_player_index(), 1);
    round.step(0);
    assert_eq!(round.state(), RoundState::Checking);
    assert_eq!(round.matches().sum(), 2);
    round.step(99);
    assert_eq!(points_of(&round), vec![-20, -10]);
}

#[test]
fn exact_bid_of_zero_earns_twenty() {
    let mut round = Round::new(1, roster(&["Ann", "Bob"]));
    feed(&mut round, &[0, 0]);
    feed(&mut round, &[0, 1]);
    round.step(0);
    assert_eq!(points_of(&round), vec![20, -10]);
}

#[test]
fn scores_scale_with_bid_and_with_miss() {
    let mut round = Round::new(10, roster(&["Ann", "Bob", "Cid", "Dee"]));
    feed(&mut round, &[7, 0, 5, 1]);
    assert_eq!(round.state(), RoundState::Playing);
    feed(&mut round, &[7, 3, 0, 0]);
    assert_eq!(round.state(), RoundState::Checking);
    round.step(0);
    assert_eq!(points_of(&round), vec![90, -30, -50, -10]);
}

#[test]
fn scores_at_the_limits_of_the_input() {
    let mut round = Round::new(255, roster(&["Ann", "Bob", "Cid"]));
    feed(&mut round, &[255, 255, 0]);
    assert_eq!(round.state(), RoundState::Playing);
    feed(&mut round, &[255, 0, 0]);
    assert_eq!(round.state(), RoundState::Checking);
    round.step(0);
    assert_eq!(points_of(&round), vec![2570, -2550, 20]);
}

#[test]
fn scoring_adds_to_points_carried_in() {
    let mut first = Round::new(1, roster(&["Ann", "Bob"]));
    feed(&mut first, &[1, 1]);
    feed(&mut first, &[1, 0]);
    first.step(0);
    assert_eq!(points_of(&first), vec![30, -10]);

    let mut second = Round::new(2, first.players().clone());
    feed(&mut second, &[0, 0]);
    feed(&mut second, &[2, 0]);
    second.step(0);
    assert_eq!(points_of(&second), vec![10, 10]);
    assert_eq!(points_of(&first), vec![30, -10]);
}

#[test]
fn ended_round_ignores_further_steps() {
    let mut round = Round::new(1, roster(&["Ann", "Bob"]));
    feed(&mut round, &[1, 1]);
    feed(&mut round, &[0, 1]);
    round.step(0);
    assert_eq!(round.state(), RoundState::End);
    let text = round.to_string();
    for count in [0u8, 1, 7, 255] {
        round.step(count);
        assert_eq!(round.state(), RoundState::End);
        assert_eq!(round.current_player_index(), 0);
        assert_eq!(points_of(&round), vec![-10, 30]);
        assert_eq!(round.tips().sum(), 2);
        assert_eq!(round.matches().sum(), 1);
        assert_eq!(round.to_string(), text);
    }
}

#[test]
fn single_player_round() {
    let mut round = Round::new(1, roster(&["Solo"]));
    round.step(1);
    assert_eq!(round.state(), RoundState::Retipping);
    round.step(0);
    assert_eq!(round.state(), RoundState::Playing);
    round.step(0);
    assert_eq!(round.state(), RoundState::Playing);
    round.step(1);
    assert_eq!(round.state(), RoundState::Checking);
    round.step(0);
    assert_eq!(points_of(&round), vec![-10]);
}

#[test]
fn round_zero_retips_on_all_zero_bids() {
    let mut round = Round::new(0, roster(&["Ann", "Bob"]));
    feed(&mut round, &[0, 0]);
    assert_eq!(round.state(), RoundState::Retipping);
    feed(&mut round, &[0, 1]);
    assert_eq!(round.state(), RoundState::Playing);
}

#[test]
fn players_of_one_name_share_one_record() {
    let mut round = Round::new(5, roster(&["Ann", "Ann"]));
    feed(&mut round, &[2, 3]);
    assert_eq!(round.tips().sum(), 3);
    assert_eq!(round.state(), RoundState::Playing);
    feed(&mut round, &[1, 5]);
    assert_eq!(round.state(), RoundState::Checking);
    round.step(0);
    assert_eq!(points_of(&round), vec![-20, -20]);
}

#[test]
fn play_asks_the_callback_for_the_current_player() {
    let mut round = Round::new(1, roster(&["Ann", "Bob"]));
    round.play(|player, state| {
        assert_eq!(player.name(), "Ann");
        assert_eq!(*state, RoundState::Tipping);
        1
    });
    round.play(|player, state| {
        assert_eq!(player.name(), "Bob");
        assert_eq!(*state, RoundState::Tipping);
        0
    });
    assert_eq!(round.state(), RoundState::Retipping);
    round.play(|player, state| {
        assert_eq!(player.name(), "Ann");
        assert_eq!(*state, RoundState::Retipping);
        0
    });
    round.play(|_, _| 0);
    assert_eq!(round.state(), RoundState::Playing);
    round.play(|player, state| {
        assert_eq!(player.name(), "Ann");
        assert_eq!(*state, RoundState::Playing);
        1
    });
    round.play(|_, _| 0);
    assert_eq!(round.state(), RoundState::Checking);
}

#[test]
fn play_does_not_ask_when_checking_or_ended() {
    let mut round = Round::new(1, roster(&["Ann"]));
    round.play(|_, _| 0);
    round.play(|_, _| 1);
    assert_eq!(round.state(), RoundState::Checking);
    round.play(|_, _| panic!("no input is due while a round is checked"));
    assert_eq!(round.state(), RoundState::End);
    assert_eq!(points_of(&round), vec![-10]);
    round.play(|_, _| panic!("no input is due after a round has ended"));
    assert_eq!(round.state(), RoundState::End);
    assert_eq!(points_of(&round), vec![-10]);
}

#[test]
fn clone_of_round_is_independent() {
    let mut round = Round::new(2, roster(&["Ann", "Bob"]));
    round.step(1);
    let copy = round.clone();
    round.step(0);
    assert_eq!(copy.current_player_index(), 1);
    assert_eq!(copy.state(), RoundState::Tipping);
    assert_eq!(copy.tips().sum(), 1);
    assert_eq!(copy.round_nr(), 2);
    assert_eq!(round.state(), RoundState::Playing);
}

#[test]
fn phase_names() {
    assert_eq!(RoundState::Tipping.name(), "Tipping");
    assert_eq!(RoundState::Retipping.name(), "Retipping");
    assert_eq!(RoundState::Playing.name(), "Playing");
    assert_eq!(RoundState::Checking.name(), "Checking");
    assert_eq!(RoundState::End.name(), "End");
    assert_eq!(format!("{:?}", RoundState::Checking), RoundState::Checking.name());
}

#[test]
fn rounds_are_equal_when_all_they_hold_is() {
    let mut one = Round::new(2, roster(&["Ann", "Bob"]));
    let mut other = Round::new(2, roster(&["Ann", "Bob"]));
    assert!(one == other);
    one.step(1);
    assert!(one != other);
    other.step(1);
    assert!(one == other);
    assert!(one == one.clone());
    assert!(Round::new(2, roster(&["Ann", "Bob"])) != Round::new(3, roster(&["Ann", "Bob"])));
    assert!(Round::new(2, roster(&["Ann", "Bob"])) != Round::new(2, roster(&["Bob", "Ann"])));
}
