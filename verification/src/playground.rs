//! The score table shown while a session is played: who sees it, and where
//! its rows and columns go.
//!
//! The table has a column per player and a row per round of the session.
//! Rounds are counted from zero here, as the table's rows are.

use vstd::prelude::*;
use crate::text::{decimal, push_decimal};
use crate::ui_app::{App, AppView, Key};
use crate::wizard::{Wizard, WizardView, DECK_SIZE};

verus! {

/// Whether the table is shown: there is a session, its roster is complete
/// and it has not ended.
pub open spec fn spec_visible(app: AppView) -> bool {
    app.game matches Some(game) && !(game.state is Init) && !(game.state is End)
}

/// The number of screen rows that a round takes: two where a screen of
/// `height` rows has room for that, one otherwise.
pub open spec fn spec_rows_per_round(game: WizardView, height: u16) -> nat {
    if game.round_budget * 2 + 3 < height {
        2
    } else {
        1
    }
}

/// The number of rows left free between the rounds dealt and the rounds to
/// come: one where the rounds stand close, none where they stand apart.
pub open spec fn spec_gap(game: WizardView, height: u16) -> nat {
    if spec_rows_per_round(game, height) == 1 {
        1
    } else {
        0
    }
}

/// The distance, in screen rows, from the first round's row to the row of
/// round `round`.
pub open spec fn spec_round_offset(game: WizardView, round: nat, height: u16) -> nat {
    round * spec_rows_per_round(game, height) + if round > game.round_index {
        spec_gap(game, height)
    } else {
        0
    }
}

/// The share of the screen's width that each player's column gets, in
/// percent.
pub open spec fn spec_column_share(game: WizardView) -> nat {
    100nat / game.player_count
}

/// What the table shows for round `round` in column `column`: for a round
/// that is over, the points that the player at that place of the round's
/// turn order had after it; nothing for the other rounds.
pub open spec fn spec_points_text(game: WizardView, round: nat, column: nat) -> Seq<char> {
    if round < game.round_index {
        decimal(game.history[round as int].players[column as int].points)
    } else {
        Seq::empty()
    }
}

/// Lets the score table handle a key. The table reacts to no key: the state
/// stays exactly as it is.
pub fn handle_input(app: &mut App, key: Key)
    ensures
        *final(app) == *old(app),
{
}

/// Whether the table is shown.
pub fn visible(app: &App) -> (shown: bool)
    ensures
        shown == spec_visible(app@),
{
    match app.game() {
        Some(game) => match game.state() {
            crate::wizard::WizardState::Init | crate::wizard::WizardState::End => false,
            _ => true,
        },
        None => false,
    }
}

/// The number of screen rows that a round takes on a screen of `height`
/// rows.
pub fn rows_per_round(game: &Wizard, height: u16) -> (rows: usize)
    requires
        game.wf(),
    ensures
        rows == spec_rows_per_round(game@, height),
{
    proof {
        game.lemma_wf_view();
        lemma_budget_small(game@);
    }
    if game.round_count() * 2 + 3 < height as usize {
        2
    } else {
        1
    }
}

/// The number of rows left free between the rounds dealt and the rounds to
/// come.
pub fn gap(game: &Wizard, height: u16) -> (rows: usize)
    requires
        game.wf(),
    ensures
        rows == spec_gap(game@, height),
{
    if rows_per_round(game, height) == 1 {
        1
    } else {
        0
    }
}

/// The distance, in screen rows, from the first round's row to the row of
/// round `round`, which is one of the session's rounds.
pub fn round_offset(game: &Wizard, round: usize, height: u16) -> (rows: u16)
    requires
        game.wf(),
        round < game@.round_budget,
    ensures
        rows == spec_round_offset(game@, round as nat, height),
{
    proof {
        game.lemma_wf_view();
        lemma_budget_small(game@);
    }
    let per_round = rows_per_round(game, height);
    assert(round * per_round <= 120) by (nonlinear_arith)
        requires
            round <= 60,
            per_round <= 2,
    ;
    let rows = round * per_round + if round > game.round_index() {
        gap(game, height)
    } else {
        0
    };
    rows as u16
}

/// The share of the screen's width that each player's column gets, in
/// percent.
pub fn column_share(game: &Wizard) -> (percent: u16)
    requires
        game.wf(),
    ensures
        percent == spec_column_share(game@),
{
    proof {
        game.lemma_wf_view();
        let count = game@.player_count;
        assert(100nat / count <= 100) by (nonlinear_arith)
            requires
                count >= 1,
        ;
    }
    (100 / game.player_count()) as u16
}

/// What the table shows for round `round` in column `column`. A round that
/// is over must be on file, and the column must be one of the table's.
pub fn points_text(game: &Wizard, round: usize, column: usize) -> (text: String)
    requires
        game.wf(),
        column < game@.player_count,
        round < game@.round_index ==> round < game@.history.len(),
    ensures
        text@ == spec_points_text(game@, round as nat, column as nat),
{
    let mut text = String::new();
    if round < game.round_index() {
        proof {
            game.lemma_wf_view();
        }
        let rounds = game.rounds();
        let players = rounds[round].players();
        proof {
            assert(crate::round::round_views(rounds@)[round as int] == rounds@[round as int]@);
            assert(crate::player::player_views(players@)[column as int]
                == players@[column as int]@);
        }
        push_decimal(&mut text, players[column].points());
    }
    text
}

/// A session never has more rounds than the deck has cards.
proof fn lemma_budget_small(game: WizardView)
    requires
        game.wf(),
    ensures
        game.round_budget <= DECK_SIZE,
        game.round_index <= DECK_SIZE,
{
    let count = game.player_count;
    assert(60nat / count <= 60) by (nonlinear_arith)
        requires
            count >= 1,
    ;
}

} // verus!
