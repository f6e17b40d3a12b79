//! Scorekeeping for the trick-taking card game Wizard.
//!
//! A game is a fixed sequence of rounds. In every round each player first
//! bids how many tricks they expect to win, then reports how many they
//! actually won, and is scored on the difference. The crate never deals or
//! plays cards: it only sequences the input of bids and trick counts and
//! keeps the score.
//!
//! The game itself:
//!
//! * [`Player`] is a name with a running point total.
//! * [`Tips`] records one number per player name, for bids and for tricks won.
//! * [`Round`] is the bid, play and score machine of a single deal.
//! * [`Wizard`] is a whole session: the roster, the rounds and the rotation
//!   of the turn order.
//!
//! What a program around the game needs, short of reading keys and drawing:
//!
//! * [`App`] is the state of the setup screens, and the modules
//!   [`player_count_input_popup`], [`player_name_input_popup`] and
//!   [`playground`] say how each screen reacts to a key and where it puts
//!   what it shows.
//! * [`console`] has the prompts and the reading of numbers for a program
//!   that works line by line.
//! * [`text`] writes and reads numbers, and [`cursor`] finds the column
//!   behind a text.
//!
//! Every executable function is verified against a mathematical model of the
//! value it works on (its view), and the rules of the game are stated as proof
//! functions over those models.

pub mod console;
pub mod cursor;
pub mod player;
pub mod player_count_input_popup;
pub mod player_name_input_popup;
pub mod playground;
pub mod round;
pub mod text;
pub mod tips;
pub mod ui_app;
pub mod wizard;

pub use player::Player;
pub use player::PlayerView;
pub use round::Round;
pub use round::RoundState;
pub use round::RoundView;
pub use tips::Tips;
pub use ui_app::App;
pub use ui_app::AppView;
pub use ui_app::Key;
pub use wizard::Wizard;
pub use wizard::WizardState;
pub use wizard::WizardView;
