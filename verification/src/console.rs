//! What a line-by-line console needs around a session: the prompt for an
//! input, and the number that an input line stands for.

use vstd::prelude::*;
use crate::player::{Player, PlayerView};
use crate::round::RoundState;
use crate::text::{parse_trimmed, trimmed, unsigned_value};

verus! {

/// What a player is asked for in a phase, in a word; nothing in the phases
/// that take no input.
pub open spec fn spec_phase_label(state: RoundState) -> Seq<char> {
    match state {
        RoundState::Tipping => "Tipping"@,
        RoundState::Retipping => "Retipping"@,
        RoundState::Playing => "Matching"@,
        RoundState::Checking | RoundState::End => ""@,
    }
}

/// The line that asks `player` for the input of the phase `state`.
pub open spec fn spec_prompt(player: PlayerView, state: RoundState) -> Seq<char> {
    "> "@ + spec_phase_label(state) + " of "@ + player.name + ": "@
}

/// The number that an input line stands for: the number written on it,
/// white space around it aside, or zero where the line holds no number from
/// 0 to 255.
pub open spec fn spec_read_count(line: Seq<char>) -> u8 {
    match unsigned_value(trimmed(line)) {
        Some(value) => if value <= u8::MAX {
            value as u8
        } else {
            0
        },
        None => 0,
    }
}

/// What a player is asked for in a phase, in a word.
pub fn phase_label(state: RoundState) -> (label: &'static str)
    ensures
        label@ == spec_phase_label(state),
{
    match state {
        RoundState::Tipping => "Tipping",
        RoundState::Retipping => "Retipping",
        RoundState::Playing => "Matching",
        RoundState::Checking | RoundState::End => "",
    }
}

/// The line that asks `player` for the input of the phase `state`.
pub fn prompt(player: &Player, state: &RoundState) -> (line: String)
    ensures
        line@ == spec_prompt(player@, *state),
{
    let mut line = "> ".to_owned();
    line.append(phase_label(*state));
    line.append(" of ");
    line.append(player.name().as_str());
    line.append(": ");
    assert(line@ =~= spec_prompt(player@, *state));
    line
}

/// The number that an input line stands for, or zero where it stands for
/// none.
pub fn read_count(line: &str) -> (count: u8)
    ensures
        count == spec_read_count(line@),
{
    match parse_trimmed(line) {
        Some(value) => if value <= 255 {
            value as u8
        } else {
            0
        },
        None => 0,
    }
}

} // verus!
