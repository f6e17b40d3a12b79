//! The first setup screen: how many players?
//!
//! The screen takes a single digit from three to six. Enter starts a session
//! for that many players and opens one empty name for each of them.

use vstd::prelude::*;
use crate::cursor::{column_behind_text, spec_column_behind, spec_display_width};
use crate::text::{
    all_digits, digit_value, digits_value, is_digit, parse_unsigned, pop_char, push_char,
    unsigned_value, word_value,
};
use crate::ui_app::{texts_of, App, AppView, Key};
use crate::wizard::{Wizard, WizardView};

verus! {

/// The smallest number of players that the screen accepts.
pub const MIN_PLAYERS: usize = 3;

/// The largest number of players that the screen accepts.
pub const MAX_PLAYERS: usize = 6;

/// The hint shown while nothing is entered.
pub open spec fn hint_required() -> Seq<char> {
    "Number of players required"@
}

/// The hint shown when enter is pressed on an input that is no number.
pub open spec fn hint_invalid() -> Seq<char> {
    "No valid input!"@
}

/// The hint shown when a key would make the input a number that is too
/// small or too large.
pub open spec fn hint_range() -> Seq<char> {
    "Player count must be between (including) 3 and 6"@
}

/// The hint shown when a key would make the input something that is no
/// number.
pub open spec fn hint_not_a_number() -> Seq<char> {
    "Not a Number"@
}

/// The state of the screens after the first screen has handled `key`.
///
/// Once a session exists the screen ignores every key. Until then:
///
/// * enter starts a session for the number entered and opens an empty name
///   per player, or complains if no number is entered;
/// * a character is taken into the input if the input is then a number from
///   three to six, and refused with a hint otherwise;
/// * backspace takes the last character out of the input;
/// * every key but a refused one sets the hint by whether the input was empty
///   before the key.
pub open spec fn after_key(app: AppView, key: Key) -> AppView {
    if app.game is Some {
        app
    } else {
        let hint = if app.player_count.len() == 0 {
            hint_required()
        } else {
            Seq::empty()
        };
        match key {
            Key::Enter => match word_value(app.player_count) {
                Some(count) => AppView {
                    game: Some(WizardView::init(count as nat)),
                    player_names: app.player_names + Seq::new(
                        count as nat,
                        |i: int| Seq::<char>::empty(),
                    ),
                    hint,
                    ..app
                },
                None => AppView { hint: hint_invalid(), ..app },
            },
            Key::Char(c) => match word_value(app.player_count.push(c)) {
                Some(count) => if MIN_PLAYERS <= count <= MAX_PLAYERS {
                    AppView { player_count: app.player_count.push(c), hint: Seq::empty(), ..app }
                } else {
                    AppView { hint: hint_range(), ..app }
                },
                None => AppView { hint: hint_not_a_number(), ..app },
            },
            Key::Backspace => AppView {
                player_count: if app.player_count.len() > 0 {
                    app.player_count.drop_last()
                } else {
                    app.player_count
                },
                hint,
                ..app
            },
            _ => AppView { hint, ..app },
        }
    }
}

/// What a text of one or two characters denotes.
proof fn lemma_short_values(s: Seq<char>)
    ensures
        s.len() == 0 ==> unsigned_value(s) is None,
        s.len() == 1 ==> unsigned_value(s) == if is_digit(s[0]) {
            Some(digit_value(s[0]))
        } else {
            None
        },
        s.len() == 2 && is_digit(s[0]) ==> unsigned_value(s) == if is_digit(s[1]) {
            Some(digit_value(s[0]) * 10 + digit_value(s[1]))
        } else {
            None
        },
{
    if s.len() == 1 {
        if is_digit(s[0]) {
            assert(all_digits(s));
            assert(s.drop_last().len() == 0);
            assert(digits_value(s) == digits_value(s.drop_last()) * 10 + digit_value(s.last()));
        } else if s[0] == '+' {
            assert(s.drop_first().len() == 0);
        } else {
            assert(!is_digit(s[0]));
        }
    }
    if s.len() == 2 && is_digit(s[0]) {
        if is_digit(s[1]) {
            assert(all_digits(s));
            let front = s.drop_last();
            assert(front.len() == 1);
            assert(front.drop_last().len() == 0);
            assert(digits_value(front) == digits_value(front.drop_last()) * 10 + digit_value(
                front.last(),
            ));
            assert(digits_value(s) == digits_value(front) * 10 + digit_value(s.last()));
        } else {
            assert(!is_digit(s[1]));
        }
    }
}

/// A well-formed state stays well formed under every key.
pub proof fn lemma_after_key_wf(app: AppView, key: Key)
    requires
        app.wf(),
    ensures
        after_key(app, key).wf(),
{
    lemma_short_values(app.player_count);
    if app.game is None {
        match key {
            Key::Enter => {
                if let Some(count) = word_value(app.player_count) {
                    crate::wizard::lemma_init_wf(count as nat);
                }
            },
            Key::Char(c) => {
                lemma_short_values(app.player_count.push(c));
            },
            _ => {},
        }
    }
}

/// Appends `count` empty names to `names`.
fn push_empty_names(names: &mut Vec<String>, count: usize)
    ensures
        texts_of(final(names)@) == texts_of(old(names)@) + Seq::new(
            count as nat,
            |i: int| Seq::<char>::empty(),
        ),
{
    let mut i: usize = 0;
    while i < count
        invariant
            i <= count,
            texts_of(names@) == texts_of(old(names)@) + Seq::new(
                i as nat,
                |i: int| Seq::<char>::empty(),
            ),
        decreases count - i,
    {
        let ghost before = names@;
        names.push(String::new());
        assert(texts_of(names@) =~= texts_of(before).push(Seq::<char>::empty()));
        assert(texts_of(names@) =~= texts_of(old(names)@) + Seq::new(
            (i + 1) as nat,
            |i: int| Seq::<char>::empty(),
        ));
        i += 1;
    }
}

/// Lets the first setup screen handle a key.
pub fn handle_input(app: &mut App, key: Key)
    requires
        old(app).wf(),
    ensures
        final(app).wf(),
        final(app)@ == after_key(old(app)@, key),
{
    proof {
        lemma_after_key_wf(app@, key);
        lemma_short_values(app@.player_count);
    }
    if app.game.is_some() {
        return ;
    }
    if app.player_count.as_str().is_empty() {
        app.hint = "Number of players required".to_owned();
    } else {
        app.hint = String::new();
    }
    match key {
        Key::Enter => match parse_unsigned(app.player_count.as_str()) {
            Some(player_count) => {
                app.game = Some(Wizard::new(player_count));
                push_empty_names(&mut app.player_names, player_count);
            },
            None => {
                app.hint = "No valid input!".to_owned();
            },
        },
        Key::Char(c) => {
            let mut temp = app.player_count.clone();
            push_char(&mut temp, c);
            match parse_unsigned(temp.as_str()) {
                Some(val) => {
                    if val >= MIN_PLAYERS && val <= MAX_PLAYERS {
                        push_char(&mut app.player_count, c);
                        app.hint = String::new();
                    } else {
                        app.hint = "Player count must be between (including) 3 and 6".to_owned();
                    }
                },
                None => {
                    app.hint = "Not a Number".to_owned();
                },
            }
        },
        Key::Backspace => {
            let _ = pop_char(&mut app.player_count);
        },
        _ => {},
    }
}

/// Where the cursor stands on the first screen: one row into the input box
/// whose corner is at column `x` and row `y`, one column behind the text
/// entered.
pub open spec fn spec_cursor(app: AppView, x: u16, y: u16) -> Option<(u16, u16)> {
    let column = spec_column_behind(x, spec_display_width(app.player_count), 1);
    if column <= u16::MAX && y < u16::MAX {
        Some((column as u16, (y + 1) as u16))
    } else {
        None
    }
}

/// Where the cursor stands on the first screen, as column and row, for an
/// input box whose corner is at column `x` and row `y`; `None` where that
/// place is off every terminal.
pub fn cursor(app: &App, x: u16, y: u16) -> (place: Option<(u16, u16)>)
    ensures
        place == spec_cursor(app@, x, y),
{
    match column_behind_text(x, app.player_count.as_str(), 1) {
        Some(column) => if y < u16::MAX {
            Some((column, y + 1))
        } else {
            None
        },
        None => None,
    }
}

} // verus!
