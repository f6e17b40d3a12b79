//! The state of the setup screens: how many players, and their names.
//!
//! The screens themselves are drawn elsewhere. This module holds what they
//! show and edit, and the keys they react to.

use vstd::prelude::*;
use crate::wizard::{Wizard, WizardView};

verus! {

/// A key press, as far as the setup screens tell keys apart.
#[derive(Debug, Copy, Clone, PartialEq, Eq, Structural)]
pub enum Key {
    /// The enter key.
    Enter,
    /// A key that types a character.
    Char(char),
    /// The backspace key.
    Backspace,
    /// The tabulator key, alone or with the shift key held.
    Tab { shift: bool },
    /// Any other key.
    Other,
}

/// The mathematical model of an [`App`].
pub struct AppView {
    /// The session, once the number of players is entered.
    pub game: Option<WizardView>,
    /// The text entered for the number of players.
    pub player_count: Seq<char>,
    /// The names entered so far, one per player.
    pub player_names: Seq<Seq<char>>,
    /// The index of the name that is being edited.
    pub player_name_index: nat,
    /// The hint shown under the input.
    pub hint: Seq<char>,
}

/// The texts of a list of strings, in the same order.
pub open spec fn texts_of(strings: Seq<String>) -> Seq<Seq<char>> {
    strings.map_values(|s: String| s@)
}

/// Whether a text is a number of players that the first screen accepts, or
/// still empty: the screen takes a single digit from three to six.
pub open spec fn count_text_ok(text: Seq<char>) -> bool {
    text.len() == 0 || (text.len() == 1 && '3' <= text[0] <= '6')
}

impl AppView {
    /// Whether the names are being edited: there is a session, and its
    /// roster is still being filled.
    pub open spec fn editing_names(self) -> bool {
        self.game matches Some(game) && game.state is Init
    }

    /// What holds of the screens' state at all times.
    ///
    /// Before the number of players is entered there is no session and there
    /// are no names. After it there is one name, maybe empty, per player of
    /// the session, and one of them is being edited.
    pub open spec fn wf(self) -> bool {
        &&& count_text_ok(self.player_count)
        &&& match self.game {
            None => self.player_names.len() == 0 && self.player_name_index == 0,
            Some(game) => {
                &&& game.wf()
                &&& self.player_names.len() == game.player_count
                &&& self.player_name_index < self.player_names.len()
            },
        }
    }
}

/// The state that the setup screens show and edit.
#[derive(Debug)]
pub struct App {
    pub(crate) game: Option<Wizard>,
    pub(crate) player_count: String,
    pub(crate) player_names: Vec<String>,
    pub(crate) player_name_index: usize,
    pub(crate) hint: String,
}

impl View for App {
    type V = AppView;

    open(crate) spec fn view(&self) -> AppView {
        AppView {
            game: match self.game {
                Some(game) => Some(game@),
                None => None,
            },
            player_count: self.player_count@,
            player_names: texts_of(self.player_names@),
            player_name_index: self.player_name_index as nat,
            hint: self.hint@,
        }
    }
}

impl App {
    /// The state's internal consistency. Every state that this crate hands
    /// out is well formed, and its model is well formed with it.
    pub open(crate) spec fn wf(&self) -> bool {
        &&& self@.wf()
        &&& self.game matches Some(game) ==> game.wf()
    }

    /// A well-formed state has a well-formed model.
    pub proof fn lemma_wf_view(self)
        requires
            self.wf(),
        ensures
            self@.wf(),
    {
    }

    /// The state before any key: no session, nothing entered, no hint.
    pub fn new() -> (app: App)
        ensures
            app.wf(),
            app@ == (AppView {
                game: None,
                player_count: Seq::empty(),
                player_names: Seq::empty(),
                player_name_index: 0,
                hint: Seq::empty(),
            }),
    {
        let app = App {
            game: None,
            player_count: String::new(),
            player_names: Vec::new(),
            player_name_index: 0,
            hint: String::new(),
        };
        assert(app@.player_names =~= Seq::<Seq<char>>::empty());
        app
    }

    /// The session, once the number of players is entered.
    pub fn game(&self) -> (game: Option<&Wizard>)
        ensures
            match game {
                Some(game) => self@.game == Some(game@) && (self.wf() ==> game.wf()),
                None => self@.game is None,
            },
    {
        match &self.game {
            Some(game) => Some(game),
            None => None,
        }
    }

    /// The text entered for the number of players.
    pub fn player_count(&self) -> (text: &String)
        ensures
            text@ == self@.player_count,
    {
        &self.player_count
    }

    /// The names entered so far, one per player.
    pub fn player_names(&self) -> (names: &Vec<String>)
        ensures
            names@.len() == self@.player_names.len(),
            texts_of(names@) == self@.player_names,
    {
        &self.player_names
    }

    /// The index of the name that is being edited.
    pub fn player_name_index(&self) -> (index: usize)
        ensures
            index == self@.player_name_index,
    {
        self.player_name_index
    }

    /// The hint shown under the input.
    pub fn hint(&self) -> (hint: &String)
        ensures
            hint@ == self@.hint,
    {
        &self.hint
    }
}

} // verus!
