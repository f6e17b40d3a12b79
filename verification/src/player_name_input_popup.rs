//! The second setup screen: the players' names.
//!
//! The screen edits one name at a time and moves between the names with the
//! tabulator key. Once every player has a name, enter seats them all.

use vstd::prelude::*;
use crate::cursor::{column_behind_text, spec_column_behind, spec_display_width};
use crate::player::Player;
use crate::round::RoundState;
use crate::text::{pop_char, push_char};
use crate::ui_app::{texts_of, App, AppView, Key};
use crate::wizard::{lemma_advance_wf, lemma_seat_wf, WizardView};

verus! {

/// Whether none of the names is empty.
pub open spec fn all_named(names: Seq<Seq<char>>) -> bool {
    forall|i: int| 0 <= i < names.len() ==> (#[trigger] names[i]).len() > 0
}

/// The session after `steps` steps that take the name for a seat from
/// `names`, by the seat's index, and zero for every number a round asks for.
pub open spec fn played(game: WizardView, names: Seq<Seq<char>>, steps: nat) -> WizardView
    decreases steps,
{
    if steps == 0 {
        game
    } else {
        let before = played(game, names, (steps - 1) as nat);
        if before.state is Init {
            before.seat(names[before.fill_cursor as int])
        } else {
            before.advance(0)
        }
    }
}

/// The state of the screens after the second screen has handled `key`.
///
/// The screen reacts only while there is a session whose roster is being
/// filled. Then:
///
/// * the tabulator key moves on to the next name, and from the last to the
///   first; with shift it moves back by one name;
/// * a character is appended to the name that is being edited;
/// * backspace takes the last character off that name;
/// * enter, once no name is empty, lets the session take as many steps as it
///   has players, which seats them all.
pub open spec fn after_key(app: AppView, key: Key) -> AppView {
    match app.game {
        Some(game) => if game.state is Init {
            let index = app.player_name_index as int;
            match key {
                Key::Tab { shift } => AppView {
                    player_name_index: if shift {
                        ((index - 1) % (game.player_count as int)) as nat
                    } else {
                        ((index + 1) % (game.player_count as int)) as nat
                    },
                    ..app
                },
                Key::Char(c) => AppView {
                    player_names: app.player_names.update(index, app.player_names[index].push(c)),
                    ..app
                },
                Key::Backspace => AppView {
                    player_names: if app.player_names[index].len() > 0 {
                        app.player_names.update(index, app.player_names[index].drop_last())
                    } else {
                        app.player_names
                    },
                    ..app
                },
                Key::Enter => if all_named(app.player_names) {
                    AppView {
                        game: Some(played(game, app.player_names, game.player_count)),
                        ..app
                    }
                } else {
                    app
                },
                Key::Other => app,
            }
        } else {
            app
        },
        None => app,
    }
}

/// Steps keep a session well formed and leave its number of players alone.
pub proof fn lemma_played_wf(game: WizardView, names: Seq<Seq<char>>, steps: nat)
    requires
        game.wf(),
    ensures
        played(game, names, steps).wf(),
        played(game, names, steps).player_count == game.player_count,
    decreases steps,
{
    if steps > 0 {
        lemma_played_wf(game, names, (steps - 1) as nat);
        let before = played(game, names, (steps - 1) as nat);
        lemma_seat_wf(before, names[before.fill_cursor as int]);
        lemma_advance_wf(before, 0);
    }
}

/// Seating. Taken from an empty roster, as many steps as there are players
/// seat the players under the names entered, in that order and without
/// points, and leave the session ready to deal its first round.
pub proof fn lemma_played_seats_all(game: WizardView, names: Seq<Seq<char>>, steps: nat)
    requires
        game.wf(),
        game.state is Init,
        game.fill_cursor == 0,
        names.len() == game.player_count,
        steps <= game.player_count,
    ensures
        ({
            let after = played(game, names, steps);
            &&& after.players.len() == steps
            &&& forall|i: int|
                0 <= i < steps ==> (#[trigger] after.players[i]).name == names[i]
                    && after.players[i].points == 0
            &&& after.state == if steps == game.player_count {
                crate::wizard::WizardState::NextRound
            } else {
                crate::wizard::WizardState::Init
            }
            &&& after.fill_cursor == if steps == game.player_count {
                0
            } else {
                steps
            }
            &&& after.history == game.history
            &&& after.active_round is None
            &&& after.round_index == 0
        }),
    decreases steps,
{
    if steps > 0 {
        lemma_played_seats_all(game, names, (steps - 1) as nat);
        lemma_played_wf(game, names, (steps - 1) as nat);
        let before = played(game, names, (steps - 1) as nat);
        let after = played(game, names, steps);
        assert(before.state is Init);
        assert(after == before.seat(names[steps - 1]));
        assert forall|i: int| 0 <= i < steps implies (#[trigger] after.players[i]).name
            == names[i] && after.players[i].points == 0 by {
            if i < steps - 1 {
                assert(after.players[i] == before.players[i]);
            }
        }
    }
}

/// A well-formed state stays well formed under every key that the screen
/// can take.
pub proof fn lemma_after_key_wf(app: AppView, key: Key)
    requires
        app.wf(),
        app.editing_names() && key == (Key::Tab { shift: true }) ==> app.player_name_index > 0,
    ensures
        after_key(app, key).wf(),
{
    if let Some(game) = app.game {
        if game.state is Init {
            let count = game.player_count as int;
            let index = app.player_name_index as int;
            lemma_played_wf(game, app.player_names, game.player_count);
            assert(0 <= (index + 1) % count < count) by (nonlinear_arith)
                requires
                    0 <= index,
                    count > 0,
            ;
            if index > 0 {
                assert(0 <= (index - 1) % count < count) by (nonlinear_arith)
                    requires
                        0 < index,
                        count > 0,
                ;
            }
        }
    }
}

/// Lets the second setup screen handle a key.
///
/// The first name has no name before it: while the names are being edited,
/// the screen cannot take the tabulator key with shift on the first name.
pub fn handle_input(app: &mut App, key: Key)
    requires
        old(app).wf(),
        old(app)@.editing_names() && key == (Key::Tab { shift: true }) ==> old(
            app,
        )@.player_name_index > 0,
    ensures
        final(app).wf(),
        final(app)@ == after_key(old(app)@, key),
{
    proof {
        lemma_after_key_wf(app@, key);
    }
    let editing = match &app.game {
        Some(wizard) => matches!(wizard.state(), crate::wizard::WizardState::Init),
        None => false,
    };
    if !editing {
        return ;
    }
    match key {
        Key::Tab { shift } => {
            let player_count = app.player_names.len();
            let index = if shift {
                (app.player_name_index - 1) % player_count
            } else {
                (app.player_name_index + 1) % player_count
            };
            app.player_name_index = index;
        },
        Key::Char(c) => {
            push_char(&mut app.player_names[app.player_name_index], c);
            assert(texts_of(app.player_names@) =~= old(app)@.player_names.update(
                app.player_name_index as int,
                old(app)@.player_names[app.player_name_index as int].push(c),
            ));
        },
        Key::Backspace => {
            let _ = pop_char(&mut app.player_names[app.player_name_index]);
            assert(texts_of(app.player_names@) =~= after_key(old(app)@, key).player_names);
        },
        Key::Enter => {
            if names_complete(&app.player_names) {
                seat_all(app);
            }
        },
        Key::Other => {},
    }
}

/// Whether none of the names is empty.
fn names_complete(names: &Vec<String>) -> (complete: bool)
    ensures
        complete == all_named(texts_of(names@)),
{
    let mut i: usize = 0;
    while i < names.len()
        invariant
            i <= names.len(),
            forall|j: int| 0 <= j < i ==> (#[trigger] texts_of(names@)[j]).len() > 0,
        decreases names.len() - i,
    {
        if names[i].as_str().is_empty() {
            assert(texts_of(names@)[i as int].len() == 0);
            return false;
        }
        assert(texts_of(names@)[i as int] == names@[i as int]@);
        i += 1;
    }
    true
}

/// Lets the session take as many steps as it has players, with the names
/// entered and zero for every number.
fn seat_all(app: &mut App)
    requires
        old(app).wf(),
        old(app)@.game is Some,
    ensures
        final(app).wf(),
        final(app)@ == (AppView {
            game: Some(
                played(
                    old(app)@.game->0,
                    old(app)@.player_names,
                    old(app)@.game->0.player_count,
                ),
            ),
            ..old(app)@
        }),
{
    let ghost start = app@.game->0;
    let ghost entered = app@.player_names;
    proof {
        lemma_played_wf(start, entered, start.player_count);
    }
    match app.game.take() {
        Some(mut wizard) => {
            let player_count = wizard.player_count();
            let names = &app.player_names;
            let mut steps: usize = 0;
            while steps < player_count
                invariant
                    steps <= player_count,
                    player_count == start.player_count,
                    names@.len() == player_count,
                    texts_of(names@) == entered,
                    start.wf(),
                    wizard.wf(),
                    wizard@ == played(start, entered, steps as nat),
                decreases player_count - steps,
            {
                proof {
                    lemma_played_wf(start, entered, steps as nat);
                    wizard.lemma_wf_view();
                }
                let name_source = |seat: usize| -> (name: String)
                    requires
                        seat < names@.len(),
                    ensures
                        name@ == names@[seat as int]@,
                    { names[seat].clone() };
                let input_source = |player: &Player, phase: &RoundState| -> (count: u8)
                    ensures
                        count == 0,
                    { 0u8 };
                let ghost before = wizard@;
                wizard.play(name_source, input_source);
                proof {
                    if before.state is Init {
                        assert(texts_of(names@)[before.fill_cursor as int]
                            == names@[before.fill_cursor as int]@);
                    }
                }
                steps += 1;
            }
            app.game = Some(wizard);
        },
        None => {},
    }
}

/// Where the cursor stands on the second screen: in the row `y` of the name
/// that is being edited, three columns behind that name, which starts at
/// column `x`.
pub open spec fn spec_cursor(app: AppView, x: u16, y: u16) -> Option<(u16, u16)> {
    let name = app.player_names[app.player_name_index as int];
    let column = spec_column_behind(x, spec_display_width(name), 3);
    if column <= u16::MAX {
        Some((column as u16, y))
    } else {
        None
    }
}

/// Where the cursor stands on the second screen, as column and row, for a
/// name that is shown from column `x` in row `y`; `None` where that place
/// is off every terminal.
pub fn cursor(app: &App, x: u16, y: u16) -> (place: Option<(u16, u16)>)
    requires
        app.wf(),
        app@.game is Some,
    ensures
        place == spec_cursor(app@, x, y),
{
    assert(texts_of(app.player_names@)[app.player_name_index as int]
        == app.player_names@[app.player_name_index as int]@);
    match column_behind_text(x, app.player_names[app.player_name_index].as_str(), 3) {
        Some(column) => Some((column, y)),
        None => None,
    }
}

} // verus!
