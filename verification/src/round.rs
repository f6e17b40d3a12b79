//! One deal: bidding, play and scoring.
//!
//! A round asks every player in turn for a bid, then every player in turn
//! for the number of tricks won, and scores the players once. Bids that add
//! up to the round's number are not accepted: all players bid again. Trick
//! counts are accepted only when they add up to the round's number: until
//! then all players report again.

use vstd::prelude::*;
use crate::player::{
    clone_players, names_of, player_views, push_roster, roster_text, Player, PlayerView, MAX_ROUND_GAIN,
    MAX_ROUND_LOSS,
};
use crate::tips::{tip_of, total, Tips};

verus! {

/// The phase a round is in.
#[derive(Debug, Copy, Clone, PartialEq, Eq, PartialOrd, Ord, Hash, Structural)]
pub enum RoundState {
    /// The players enter their bids for the first time.
    Tipping,
    /// The bids added up to the round's number: the players enter them again.
    Retipping,
    /// The players enter the number of tricks they won.
    Playing,
    /// All numbers are in; the next step scores the players.
    Checking,
    /// The round is scored and does not change any more.
    End,
}

impl RoundState {
    /// The name of the phase.
    pub open spec fn spec_name(self) -> Seq<char> {
        match self {
            RoundState::Tipping => "Tipping"@,
            RoundState::Retipping => "Retipping"@,
            RoundState::Playing => "Playing"@,
            RoundState::Checking => "Checking"@,
            RoundState::End => "End"@,
        }
    }

    /// The name of the phase.
    pub fn name(&self) -> (name: &'static str)
        ensures
            name@ == self.spec_name(),
    {
        match self {
            RoundState::Tipping => "Tipping",
            RoundState::Retipping => "Retipping",
            RoundState::Playing => "Playing",
            RoundState::Checking => "Checking",
            RoundState::End => "End",
        }
    }
}

/// The points a player gets for a round: twenty and ten per trick for an
/// exact bid, otherwise ten off for each trick the bid missed by.
pub open spec fn score(bid: u8, won: u8) -> int {
    if bid == won {
        20 + 10 * bid
    } else if bid > won {
        -10 * (bid - won)
    } else {
        -10 * (won - bid)
    }
}

/// The player as the round leaves them: the same name, with the points for
/// their recorded bid and trick count added.
pub open spec fn scored_player(
    player: PlayerView,
    bids: Map<Seq<char>, u8>,
    actual: Map<Seq<char>, u8>,
) -> PlayerView {
    PlayerView {
        name: player.name,
        points: player.points + score(tip_of(bids, player.name), tip_of(actual, player.name)),
    }
}

/// The mathematical model of a [`Round`].
pub struct RoundView {
    /// The number of the round, which is also the number of tricks to win.
    pub round_number: nat,
    /// The phase the round is in.
    pub state: RoundState,
    /// The bids recorded so far, by player name.
    pub bids: Map<Seq<char>, u8>,
    /// The trick counts recorded so far, by player name.
    pub actual: Map<Seq<char>, u8>,
    /// The players in turn order.
    pub players: Seq<PlayerView>,
    /// The index of the player whose input is due.
    pub cursor: nat,
}

impl RoundView {
    /// A round as it is dealt: nothing recorded, the first player to bid.
    pub open spec fn start(round_number: nat, players: Seq<PlayerView>) -> RoundView {
        RoundView {
            round_number,
            state: RoundState::Tipping,
            bids: Map::empty(),
            actual: Map::empty(),
            players,
            cursor: 0,
        }
    }

    /// Whether the next step takes a number from the player whose turn it is.
    pub open spec fn awaits_input(self) -> bool {
        self.state is Tipping || self.state is Retipping || self.state is Playing
    }

    /// The player whose input is due.
    pub open spec fn current_player(self) -> PlayerView {
        self.players[self.cursor as int]
    }

    /// Whether the player whose input is due is the last of the circuit.
    pub open spec fn last_turn(self) -> bool {
        self.cursor + 1 == self.players.len()
    }

    /// All names of the round's players.
    pub open spec fn names(self) -> Set<Seq<char>> {
        names_of(self.players, self.players.len() as int)
    }

    /// The names of the players who had their turn in the current circuit.
    pub open spec fn names_done(self) -> Set<Seq<char>> {
        names_of(self.players, self.cursor as int)
    }

    /// Which names have a bid and which a trick count, phase by phase: a
    /// number is on record for exactly the players who were asked for it.
    pub open spec fn recorded_in_step(self) -> bool {
        match self.state {
            RoundState::Tipping => {
                &&& self.bids.dom() == self.names_done()
                &&& self.actual.dom() == Set::<Seq<char>>::empty()
            },
            RoundState::Retipping => {
                &&& self.bids.dom() == self.names()
                &&& self.actual.dom() == Set::<Seq<char>>::empty()
            },
            RoundState::Playing => {
                &&& self.bids.dom() == self.names()
                &&& (self.actual.dom() == self.names_done() || self.actual.dom() == self.names())
            },
            RoundState::Checking | RoundState::End => {
                &&& self.bids.dom() == self.names()
                &&& self.actual.dom() == self.names()
            },
        }
    }

    /// What holds of every round, from the deal to the end.
    pub open spec fn wf(self) -> bool {
        &&& self.players.len() > 0
        &&& self.cursor < self.players.len()
        &&& self.bids.dom().finite()
        &&& self.actual.dom().finite()
        &&& self.recorded_in_step()
        &&& !(self.state is End) ==> forall|i: int|
            0 <= i < self.players.len() ==> (#[trigger] self.players[i]).can_score()
    }

    /// The round as text: one line per player, then the name of the phase.
    pub open spec fn text(self) -> Seq<char> {
        roster_text(self.players, self.players.len(), seq!['\n']) + self.state.spec_name()
    }

    /// The players with the round's points added, in the same order.
    pub open spec fn scored(self) -> Seq<PlayerView> {
        Seq::new(
            self.players.len(),
            |i: int| scored_player(self.players[i], self.bids, self.actual),
        )
    }

    /// The round after one step that hands it `count`.
    ///
    /// While bids or trick counts are collected, `count` is recorded for the
    /// player whose turn it is and the turn passes on; after the last player
    /// of a circuit the sum of the circuit decides how the round goes on. A
    /// round that is being checked is scored, whatever `count` is, and a
    /// round that has ended stays as it is.
    pub open spec fn step(self, count: u8) -> RoundView {
        match self.state {
            RoundState::Tipping | RoundState::Retipping => {
                let bids = self.bids.insert(self.current_player().name, count);
                if self.last_turn() {
                    RoundView {
                        bids,
                        cursor: 0,
                        state: if total(bids) == self.round_number {
                            RoundState::Retipping
                        } else {
                            RoundState::Playing
                        },
                        ..self
                    }
                } else {
                    RoundView { bids, cursor: self.cursor + 1, ..self }
                }
            },
            RoundState::Playing => {
                let actual = self.actual.insert(self.current_player().name, count);
                if self.last_turn() {
                    RoundView {
                        actual,
                        cursor: 0,
                        state: if total(actual) == self.round_number {
                            RoundState::Checking
                        } else {
                            RoundState::Playing
                        },
                        ..self
                    }
                } else {
                    RoundView { actual, cursor: self.cursor + 1, ..self }
                }
            },
            RoundState::Checking => RoundView { players: self.scored(), state: RoundState::End, ..self },
            RoundState::End => self,
        }
    }
}

/// Taking in one more player adds that player's name to the names held.
pub proof fn lemma_names_grow(players: Seq<PlayerView>, n: int)
    requires
        0 <= n < players.len(),
    ensures
        names_of(players, n + 1) == names_of(players, n).insert(players[n].name),
        names_of(players, 0) == Set::<Seq<char>>::empty(),
        names_of(players, players.len() as int).contains(players[n].name),
{
    assert forall|name: Seq<char>|
        names_of(players, n + 1).contains(name) <==> names_of(players, n).insert(
            players[n].name,
        ).contains(name) by {
        if names_of(players, n + 1).contains(name) {
            let i = choose|i: int| 0 <= i < n + 1 && (#[trigger] players[i]).name == name;
            if i < n {
                assert(players[i].name == name);
            }
        }
        if names_of(players, n).contains(name) {
            let i = choose|i: int| 0 <= i < n && (#[trigger] players[i]).name == name;
            assert(players[i].name == name);
        }
        if name == players[n].name {
            assert(players[n].name == name);
        }
    }
    assert(names_of(players, n + 1) =~= names_of(players, n).insert(players[n].name));
    assert(names_of(players, 0) =~= Set::<Seq<char>>::empty());
    assert(players[n].name == players[n].name);
}

/// A round dealt to at least one player, each of whom can still be scored,
/// is well formed.
pub proof fn lemma_start_wf(round_number: nat, players: Seq<PlayerView>)
    requires
        players.len() > 0,
        forall|i: int| 0 <= i < players.len() ==> (#[trigger] players[i]).can_score(),
    ensures
        RoundView::start(round_number, players).wf(),
{
    lemma_names_grow(players, 0);
}

/// A step keeps a round well formed.
pub proof fn lemma_step_wf(round: RoundView, count: u8)
    requires
        round.wf(),
    ensures
        round.step(count).wf(),
{
    let next = round.step(count);
    lemma_names_grow(round.players, round.cursor as int);
    let name = round.current_player().name;
    if round.names().contains(name) {
        assert(round.names().insert(name) =~= round.names());
    }
    match round.state {
        RoundState::Checking => {
            assert(next.names() =~= round.names()) by {
                assert forall|n: Seq<char>| next.names().contains(n) <==> round.names().contains(
                    n,
                ) by {
                    if next.names().contains(n) {
                        let i = choose|i: int|
                            0 <= i < next.players.len() && (#[trigger] next.players[i]).name == n;
                        assert(round.players[i].name == n);
                    }
                    if round.names().contains(n) {
                        let i = choose|i: int|
                            0 <= i < round.players.len() && (#[trigger] round.players[i]).name == n;
                        assert(next.players[i].name == n);
                    }
                }
            }
        },
        _ => {},
    }
}

/// Scoring. The step that checks a round ends it, keeps every player in
/// place and under the same name, and changes each player's points by
/// exactly the score of the bid and the trick count on record for them.
/// Nothing else about the round changes.
pub proof fn lemma_scoring(round: RoundView, count: u8)
    requires
        round.wf(),
        round.state is Checking,
    ensures
        round.step(count).state is End,
        round.step(count).players.len() == round.players.len(),
        forall|i: int|
            #![trigger round.step(count).players[i]]
            0 <= i < round.players.len() ==> {
                let before = round.players[i];
                let after = round.step(count).players[i];
                &&& after.name == before.name
                &&& round.bids.dom().contains(before.name)
                &&& round.actual.dom().contains(before.name)
                &&& after.points - before.points == score(
                    round.bids[before.name],
                    round.actual[before.name],
                )
            },
        round.step(count).bids == round.bids,
        round.step(count).actual == round.actual,
        round.step(count).round_number == round.round_number,
        round.step(count).cursor == round.cursor,
{
    assert forall|i: int| 0 <= i < round.players.len() implies round.names().contains(
        (#[trigger] round.players[i]).name,
    ) by {
        lemma_names_grow(round.players, i);
    }
}

/// The points of a list of players, added up.
pub open spec fn points_sum(players: Seq<PlayerView>) -> int
    decreases players.len(),
{
    if players.len() == 0 {
        0
    } else {
        points_sum(players.drop_last()) + players.last().points
    }
}

/// The scores that a round's records give its first `n` players, added up.
pub open spec fn scores_sum(round: RoundView, n: nat) -> int
    decreases n,
{
    if n == 0 {
        0
    } else {
        let player = round.players[n - 1];
        scores_sum(round, (n - 1) as nat) + score(
            tip_of(round.bids, player.name),
            tip_of(round.actual, player.name),
        )
    }
}

/// Scoring, added up: checking a round changes the sum of all players'
/// points by the sum of the players' scores.
pub proof fn lemma_scoring_sum(round: RoundView, count: u8)
    requires
        round.wf(),
        round.state is Checking,
    ensures
        points_sum(round.step(count).players) == points_sum(round.players) + scores_sum(
            round,
            round.players.len(),
        ),
{
    lemma_scored_prefix_sum(round, round.players.len());
    assert(round.players.subrange(0, round.players.len() as int) =~= round.players);
    assert(round.scored().subrange(0, round.players.len() as int) =~= round.scored());
}

proof fn lemma_scored_prefix_sum(round: RoundView, n: nat)
    requires
        n <= round.players.len(),
    ensures
        points_sum(round.scored().subrange(0, n as int)) == points_sum(
            round.players.subrange(0, n as int),
        ) + scores_sum(round, n),
    decreases n,
{
    if n > 0 {
        lemma_scored_prefix_sum(round, (n - 1) as nat);
        assert(round.scored().subrange(0, n as int).drop_last() =~= round.scored().subrange(
            0,
            n - 1,
        ));
        assert(round.players.subrange(0, n as int).drop_last() =~= round.players.subrange(
            0,
            n - 1,
        ));
    }
}

/// Bidding. A step of the bidding phase never leads past the start of play,
/// and it leads there only after the last player's bid and only if the bids
/// on record do not add up to the round's number. If they do, every player
/// bids again, from the first.
pub proof fn lemma_bidding(round: RoundView, count: u8)
    requires
        round.wf(),
        round.state is Tipping || round.state is Retipping,
    ensures
        ({
            let next = round.step(count);
            &&& next.bids == round.bids.insert(round.current_player().name, count)
            &&& next.actual == round.actual
            &&& next.players == round.players
            &&& !round.last_turn() ==> next.state == round.state && next.cursor == round.cursor + 1
            &&& round.last_turn() ==> next.cursor == 0
            &&& round.last_turn() && total(next.bids) == round.round_number ==> next.state
                is Retipping
            &&& round.last_turn() && total(next.bids) != round.round_number ==> next.state
                is Playing
            &&& next.state is Playing ==> total(next.bids) != round.round_number
            &&& !(next.state is Checking) && !(next.state is End)
        }),
{
}

/// Play. Only the last trick count of a circuit can take a round to its
/// check, and only if the trick counts on record add up to the round's
/// number; otherwise the round goes on collecting trick counts, after the
/// last player from the first again.
pub proof fn lemma_playing(round: RoundView, count: u8)
    requires
        round.wf(),
        round.state is Playing,
    ensures
        ({
            let next = round.step(count);
            &&& next.actual == round.actual.insert(round.current_player().name, count)
            &&& next.bids == round.bids
            &&& next.players == round.players
            &&& !round.last_turn() ==> next.state is Playing && next.cursor == round.cursor + 1
            &&& round.last_turn() ==> next.cursor == 0
            &&& next.state is Checking <==> round.last_turn() && total(next.actual)
                == round.round_number
            &&& next.state is Checking || next.state is Playing
        }),
{
}

/// A round is checked only with trick counts that add up to its number,
/// whatever state the step started from.
pub proof fn lemma_checking_needs_all_tricks(round: RoundView, count: u8)
    requires
        round.wf(),
    ensures
        round.step(count).state is Checking ==> round.state is Playing && total(
            round.step(count).actual,
        ) == round.round_number,
{
}

/// A round that has ended does not change, whatever it is handed.
pub proof fn lemma_round_end_is_final(round: RoundView, count: u8)
    requires
        round.state is End,
    ensures
        round.step(count) == round,
{
}

/// Distinct names, taken one by one, make a set of as many names.
pub proof fn lemma_names_count(players: Seq<PlayerView>, n: int)
    requires
        0 <= n <= players.len(),
        forall|i: int, j: int|
            0 <= i < j < players.len() ==> (#[trigger] players[i]).name != (
            #[trigger] players[j]).name,
    ensures
        names_of(players, n).finite(),
        names_of(players, n).len() == n,
    decreases n,
{
    if n == 0 {
        assert(names_of(players, 0) =~= Set::<Seq<char>>::empty());
    } else {
        lemma_names_count(players, n - 1);
        lemma_names_grow(players, n - 1);
        let before = names_of(players, n - 1);
        if before.contains(players[n - 1].name) {
            let i = choose|i: int| 0 <= i < n - 1 && (#[trigger] players[i]).name == players[n
                - 1].name;
            assert(players[i].name != players[n - 1].name);
        }
    }
}

/// Where no two players share a name, a completed phase has one number on
/// record for each player: a bid once bidding is over, and a trick count too
/// once the round is checked.
pub proof fn lemma_records_complete(round: RoundView)
    requires
        round.wf(),
        forall|i: int, j: int|
            0 <= i < j < round.players.len() ==> (#[trigger] round.players[i]).name != (
            #[trigger] round.players[j]).name,
    ensures
        !(round.state is Tipping) ==> round.bids.dom().len() == round.players.len(),
        round.state is Checking || round.state is End ==> round.actual.dom().len()
            == round.players.len(),
{
    lemma_names_count(round.players, round.players.len() as int);
}

/// One deal of a session.
///
/// A round owns its own copy of the players, in the turn order of the deal,
/// and hands the list back with the round's points added once it has ended.
#[derive(Debug, PartialEq, Eq)]
pub struct Round {
    round_nr: u32,
    state: RoundState,
    tips: Tips,
    matches: Tips,
    players: Vec<Player>,
    current_player_index: usize,
}

impl View for Round {
    type V = RoundView;

    closed spec fn view(&self) -> RoundView {
        RoundView {
            round_number: self.round_nr as nat,
            state: self.state,
            bids: self.tips@,
            actual: self.matches@,
            players: player_views(self.players@),
            cursor: self.current_player_index as nat,
        }
    }
}

impl Clone for Round {
    fn clone(&self) -> (copy: Self)
        ensures
            copy@ == self@,
            self.wf() ==> copy.wf(),
    {
        Round {
            round_nr: self.round_nr,
            state: self.state,
            tips: self.tips.clone(),
            matches: self.matches.clone(),
            players: clone_players(&self.players),
            current_player_index: self.current_player_index,
        }
    }
}

/// The models of a list of rounds, in the same order.
pub open spec fn round_views(rounds: Seq<Round>) -> Seq<RoundView> {
    rounds.map_values(|r: Round| r@)
}

/// The points for a bid and a trick count, as a machine integer.
fn round_points(bid: u8, won: u8) -> (points: i32)
    ensures
        points == score(bid, won),
        -MAX_ROUND_LOSS <= points <= MAX_ROUND_GAIN,
{
    if bid == won {
        20 + 10 * (bid as i32)
    } else if bid > won {
        -10 * ((bid - won) as i32)
    } else {
        -10 * ((won - bid) as i32)
    }
}

/// Whether the recorded numbers add up to exactly `target`.
fn sums_to(tips: &Tips, target: u32) -> (hit: bool)
    requires
        tips.wf(),
    ensures
        hit == (total(tips@) == target),
{
    match tips.checked_sum() {
        Some(sum) => sum == target,
        None => false,
    }
}

impl Round {
    /// The round's internal consistency. Every round that this module hands
    /// out is well formed, and its model is well formed with it.
    pub closed spec fn wf(&self) -> bool {
        &&& self.tips.wf()
        &&& self.matches.wf()
        &&& self@.wf()
    }

    /// A well-formed round has a well-formed model.
    pub proof fn lemma_wf_view(self)
        requires
            self.wf(),
        ensures
            self@.wf(),
    {
    }

    /// Deals round number `round_nr` to `players`, who take their turns in
    /// the order of the list.
    pub fn new(round_nr: u32, players: Vec<Player>) -> (round: Self)
        requires
            players@.len() > 0,
            forall|i: int| 0 <= i < players@.len() ==> (#[trigger] players@[i])@.can_score(),
        ensures
            round.wf(),
            round@ == RoundView::start(round_nr as nat, player_views(players@)),
    {
        proof {
            lemma_start_wf(round_nr as nat, player_views(players@));
        }
        Self {
            round_nr,
            state: RoundState::Tipping,
            tips: Tips::new(),
            matches: Tips::new(),
            players,
            current_player_index: 0,
        }
    }

    /// Advances the round by one step, handing it `count` as the input of
    /// the player whose turn it is.
    pub fn step(&mut self, count: u8)
        requires
            old(self).wf(),
        ensures
            final(self).wf(),
            final(self)@ == old(self)@.step(count),
    {
        proof {
            lemma_step_wf(self@, count);
            self.tips.lemma_finite();
            self.matches.lemma_finite();
        }
        assert(self.current_player_index < self.players.len());
        match self.state {
            RoundState::Tipping | RoundState::Retipping => {
                self.tips.add_tip(&self.players[self.current_player_index], count);
                if self.current_player_index + 1 == self.players.len() {
                    self.state = if sums_to(&self.tips, self.round_nr) {
                        RoundState::Retipping
                    } else {
                        RoundState::Playing
                    };
                    self.current_player_index = 0;
                } else {
                    self.current_player_index += 1;
                }
            },
            RoundState::Playing => {
                self.matches.add_tip(&self.players[self.current_player_index], count);
                if self.current_player_index + 1 == self.players.len() {
                    if sums_to(&self.matches, self.round_nr) {
                        self.state = RoundState::Checking;
                    }
                    self.current_player_index = 0;
                } else {
                    self.current_player_index += 1;
                }
            },
            RoundState::Checking => {
                let mut i: usize = 0;
                while i < self.players.len()
                    invariant
                        i <= self.players.len(),
                        self.players.len() == old(self).players.len(),
                        self.tips == old(self).tips,
                        self.matches == old(self).matches,
                        self.round_nr == old(self).round_nr,
                        self.state == old(self).state,
                        self.current_player_index == old(self).current_player_index,
                        old(self).wf(),
                        old(self).state is Checking,
                        forall|j: int|
                            0 <= j < i ==> (#[trigger] self.players[j])@ == scored_player(
                                old(self).players[j]@,
                                self.tips@,
                                self.matches@,
                            ),
                        forall|j: int|
                            i <= j < self.players.len() ==> (#[trigger] self.players[j])
                                == old(self).players[j],
                    decreases self.players.len() - i,
                {
                    let tip = self.tips.get_tip(&self.players[i]);
                    let matched = self.matches.get_tip(&self.players[i]);
                    let delta = round_points(tip, matched);
                    assert(old(self)@.players[i as int].can_score());
                    self.players[i].add_points(delta);
                    i += 1;
                }
                self.state = RoundState::End;
                assert(player_views(self.players@) =~= old(self)@.scored());
            },
            RoundState::End => {},
        }
    }

    /// Advances the round by one step. Where the step takes a number, it is
    /// asked of `input_callback`, which is told the player whose turn it is
    /// and the phase of the round; otherwise `input_callback` is not called.
    pub fn play<F: Fn(&Player, &RoundState) -> u8>(&mut self, input_callback: F)
        requires
            old(self).wf(),
            old(self)@.awaits_input() ==> forall|player: &Player, phase: &RoundState|
                player@ == old(self)@.current_player() && *phase == old(self)@.state
                    ==> call_requires(input_callback, (player, phase)),
        ensures
            final(self).wf(),
            old(self)@.awaits_input() ==> exists|player: &Player, phase: &RoundState, count: u8|
                {
                    &&& player@ == old(self)@.current_player()
                    &&& *phase == old(self)@.state
                    &&& call_ensures(input_callback, (player, phase), count)
                    &&& final(self)@ == old(self)@.step(count)
                },
            !old(self)@.awaits_input() ==> final(self)@ == old(self)@.step(0),
    {
        match self.state {
            RoundState::Tipping | RoundState::Retipping | RoundState::Playing => {
                let count = input_callback(&self.players[self.current_player_index], &self.state);
                let ghost player = &self.players[self.current_player_index as int];
                let ghost phase = &self.state;
                self.step(count);
                assert(call_ensures(input_callback, (player, phase), count));
            },
            RoundState::Checking | RoundState::End => {
                self.step(0);
            },
        }
    }

    /// The round as text: one line per player, then the name of the phase.
    pub fn to_string(&self) -> (text: String)
        ensures
            text@ == self@.text(),
    {
        proof {
            reveal_strlit("\n");
        }
        let mut text = String::new();
        push_roster(&mut text, &self.players, "\n");
        text.append(self.state.name());
        assert("\n"@ =~= seq!['\n']);
        assert(text@ =~= self@.text());
        text
    }

    /// The number of the round.
    pub fn round_nr(&self) -> (round_nr: u32)
        ensures
            round_nr == self@.round_number,
    {
        self.round_nr
    }

    /// The phase the round is in.
    pub fn state(&self) -> (state: RoundState)
        ensures
            state == self@.state,
    {
        self.state
    }

    /// The bids recorded so far.
    pub fn tips(&self) -> (tips: &Tips)
        ensures
            tips@ == self@.bids,
            self.wf() ==> tips.wf(),
    {
        &self.tips
    }

    /// The trick counts recorded so far.
    pub fn matches(&self) -> (matches: &Tips)
        ensures
            matches@ == self@.actual,
            self.wf() ==> matches.wf(),
    {
        &self.matches
    }

    /// The players in turn order, with the round's points added once the
    /// round has ended.
    pub fn players(&self) -> (players: &Vec<Player>)
        ensures
            players@.len() == self@.players.len(),
            player_views(players@) == self@.players,
    {
        &self.players
    }

    /// The index, in turn order, of the player whose input is due.
    pub fn current_player_index(&self) -> (index: usize)
        ensures
            index == self@.cursor,
    {
        self.current_player_index
    }

    /// The player whose input is due.
    pub fn current_player(&self) -> (player: &Player)
        requires
            self.wf(),
        ensures
            player@ == self@.current_player(),
    {
        &self.players[self.current_player_index]
    }
}

} // verus!
