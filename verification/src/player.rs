//! Players: a name and a running point total.

use vstd::prelude::*;
use crate::text::{decimal, push_decimal};

verus! {

/// The mathematical model of a [`Player`].
pub struct PlayerView {
    /// The player's name, as a sequence of characters.
    pub name: Seq<char>,
    /// The points collected so far; may be negative.
    pub points: int,
}

/// The most points a single round can add to a player's total: an exact bid
/// of 255 tricks.
pub const MAX_ROUND_GAIN: i32 = 2570;

/// The most points a single round can take from a player's total: a bid that
/// misses by 255 tricks.
pub const MAX_ROUND_LOSS: i32 = 2550;

/// A participant of a session.
///
/// The name identifies the player within a session; the points are changed
/// only when a round is scored.
#[derive(Debug, PartialEq, Eq, PartialOrd, Ord, Hash)]
pub struct Player {
    name: String,
    points: i32,
}

impl View for Player {
    type V = PlayerView;

    closed spec fn view(&self) -> PlayerView {
        PlayerView { name: self.name@, points: self.points as int }
    }
}

/// The models of a list of players, in the same order.
pub open spec fn player_views(players: Seq<Player>) -> Seq<PlayerView> {
    players.map_values(|p: Player| p@)
}

/// The names held by the first `n` players of a list.
pub open spec fn names_of(players: Seq<PlayerView>, n: int) -> Set<Seq<char>> {
    Set::new(|name: Seq<char>| exists|i: int| 0 <= i < n && (#[trigger] players[i]).name == name)
}

impl Clone for Player {
    fn clone(&self) -> (copy: Self)
        ensures
            copy@ == self@,
    {
        Player { name: self.name.clone(), points: self.points }
    }
}

/// A copy of a list of players, in the same order.
pub fn clone_players(players: &Vec<Player>) -> (copy: Vec<Player>)
    ensures
        copy@.len() == players@.len(),
        player_views(copy@) == player_views(players@),
{
    let mut copy: Vec<Player> = Vec::new();
    let mut i: usize = 0;
    while i < players.len()
        invariant
            i <= players.len(),
            copy@.len() == i,
            forall|j: int| 0 <= j < i ==> (#[trigger] copy@[j])@ == players@[j]@,
        decreases players.len() - i,
    {
        copy.push(players[i].clone());
        i += 1;
    }
    assert(player_views(copy@) =~= player_views(players@));
    copy
}

/// The texts of the first `n` players of a list, each followed by
/// `separator`.
pub open spec fn roster_text(players: Seq<PlayerView>, n: nat, separator: Seq<char>) -> Seq<char>
    decreases n,
{
    if n == 0 {
        Seq::empty()
    } else {
        roster_text(players, (n - 1) as nat, separator) + players[n - 1].text() + separator
    }
}

/// Appends the texts of all players of a list to `text`, each followed by
/// `separator`.
pub fn push_roster(text: &mut String, players: &Vec<Player>, separator: &str)
    ensures
        final(text)@ == old(text)@ + roster_text(
            player_views(players@),
            players@.len(),
            separator@,
        ),
{
    let mut i: usize = 0;
    while i < players.len()
        invariant
            i <= players.len(),
            text@ == old(text)@ + roster_text(player_views(players@), i as nat, separator@),
        decreases players.len() - i,
    {
        let ghost before = text@;
        let line = players[i].to_string();
        text.append(line.as_str());
        text.append(separator);
        proof {
            assert(player_views(players@)[i as int] == players@[i as int]@);
            assert(text@ =~= old(text)@ + roster_text(
                player_views(players@),
                (i + 1) as nat,
                separator@,
            ));
        }
        i += 1;
    }
}

impl PlayerView {
    /// The player as a line of text: the name, a colon, a space and the
    /// points in decimal notation.
    pub open spec fn text(self) -> Seq<char> {
        self.name + seq![':', ' '] + decimal(self.points)
    }

    /// Whether one more round can be scored without the total leaving the
    /// range of the machine integer that holds it.
    pub open spec fn can_score(self) -> bool {
        i32::MIN + MAX_ROUND_LOSS <= self.points <= i32::MAX - MAX_ROUND_GAIN
    }
}

impl Player {
    /// A new player with the given name and no points.
    pub fn new(name: String) -> (player: Self)
        ensures
            player@ == (PlayerView { name: name@, points: 0 }),
    {
        Self { name, points: 0 }
    }

    /// The player's name.
    pub fn name(&self) -> (name: &String)
        ensures
            name@ == self@.name,
    {
        &self.name
    }

    /// The points collected so far.
    pub fn points(&self) -> (points: i32)
        ensures
            points == self@.points,
    {
        self.points
    }

    /// The player as a line of text: the name, a colon, a space and the
    /// points.
    pub fn to_string(&self) -> (text: String)
        ensures
            text@ == self@.text(),
    {
        proof {
            reveal_strlit(": ");
        }
        let mut text = self.name.clone();
        text.append(": ");
        push_decimal(&mut text, self.points);
        assert(text@ =~= self@.text());
        text
    }

    /// Adds `delta` to the points; the name stays.
    pub(crate) fn add_points(&mut self, delta: i32)
        requires
            i32::MIN <= old(self)@.points + delta <= i32::MAX,
        ensures
            final(self)@ == (PlayerView { points: old(self)@.points + delta, ..old(self)@ }),
    {
        self.points = self.points + delta;
    }
}

} // verus!
