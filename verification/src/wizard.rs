//! A session: the roster, the rounds and the rotation of the turn order.
//!
//! A session first fills its roster, one name per step. Then it deals round
//! after round: it hands each step to the round in progress until that round
//! has ended, files the round, moves the first player of the turn order to
//! its end and deals the next round. The round that uses up the budget of
//! rounds ends the session.

use vstd::prelude::*;
use crate::player::{
    clone_players, player_views, push_roster, roster_text, Player, PlayerView, MAX_ROUND_GAIN,
};
use crate::round::{
    lemma_start_wf, lemma_step_wf, round_views, score, scored_player, Round, RoundState, RoundView,
};
use crate::tips::tip_of;

verus! {

/// The number of cards in the deck. A session deals as many rounds as the
/// deck allows while every player gets a card more each round.
pub const DECK_SIZE: usize = 60;

/// What a session is doing.
#[derive(Debug, Copy, Clone, PartialEq, Eq, PartialOrd, Ord, Hash, Structural)]
pub enum WizardState {
    /// The roster is being filled, one name per step.
    Init,
    /// The next step deals a round.
    NextRound,
    /// A round is in progress.
    Playing,
    /// The round in progress has ended; the next step files it.
    EndRound,
    /// The last round has ended and the session with it.
    End,
}

/// The list with its first element moved to the end.
pub open spec fn rotate_left(players: Seq<PlayerView>) -> Seq<PlayerView> {
    if players.len() == 0 {
        players
    } else {
        players.drop_first().push(players[0])
    }
}

/// The seat that follows seat `seat` at a table of `seats` seats: the next
/// one, and the first after the last.
pub open spec fn seat_after(seat: int, seats: int) -> int {
    if seat + 1 < seats {
        seat + 1
    } else {
        0
    }
}

/// The mathematical model of a [`Wizard`].
pub struct WizardView {
    /// What the session is doing.
    pub state: WizardState,
    /// The number of rounds the session deals.
    pub round_budget: nat,
    /// The number of rounds dealt so far, which is also the number of the
    /// round dealt last.
    pub round_index: nat,
    /// The number of players, fixed for the session.
    pub player_count: nat,
    /// The seat that the next name fills.
    pub fill_cursor: nat,
    /// The players in the turn order of the next deal.
    pub players: Seq<PlayerView>,
    /// The rounds that have ended, in the order they were dealt.
    pub history: Seq<RoundView>,
    /// The round in progress, if there is one.
    pub active_round: Option<RoundView>,
}

impl WizardView {
    /// A session for `player_count` players before its first step.
    pub open spec fn init(player_count: nat) -> WizardView {
        WizardView {
            state: WizardState::Init,
            round_budget: DECK_SIZE as nat / player_count,
            round_index: 0,
            player_count,
            fill_cursor: 0,
            players: Seq::empty(),
            history: Seq::empty(),
            active_round: None,
        }
    }

    /// Whether the next step takes a number from the player whose turn it is
    /// in the round in progress.
    pub open spec fn awaits_input(self) -> bool {
        &&& self.state is Playing
        &&& self.active_round matches Some(round)
        &&& round.awaits_input()
    }

    /// The session after the step that seats a player called `name`.
    ///
    /// The player joins the end of the roster with no points. The player who
    /// fills the last seat completes the roster. A session that is not
    /// filling its roster stays as it is.
    pub open spec fn seat(self, name: Seq<char>) -> WizardView {
        if self.state is Init {
            let players = self.players.push(PlayerView { name, points: 0 });
            if self.fill_cursor + 1 == self.player_count {
                WizardView { state: WizardState::NextRound, fill_cursor: 0, players, ..self }
            } else {
                WizardView { fill_cursor: self.fill_cursor + 1, players, ..self }
            }
        } else {
            self
        }
    }

    /// The session after one step that hands `count` to the round in
    /// progress.
    ///
    /// * Between rounds, the step deals the next round to the players in
    ///   their current order.
    /// * While a round is in progress, the step is the round's. The round
    ///   that uses up the budget ends the session the moment it ends, and is
    ///   filed. Any other round that has ended gets no further step: the
    ///   session turns to filing it.
    /// * Filing a round appends it to the history and takes over its players,
    ///   the first of them moved to the end.
    /// * A session that is filling its roster, or has ended, stays as it is.
    pub open spec fn advance(self, count: u8) -> WizardView {
        match self.state {
            WizardState::Init | WizardState::End => self,
            WizardState::NextRound => WizardView {
                state: WizardState::Playing,
                round_index: self.round_index + 1,
                active_round: Some(RoundView::start(self.round_index + 1, self.players)),
                ..self
            },
            WizardState::Playing => match self.active_round {
                Some(round) => {
                    let next = round.step(count);
                    if self.round_index == self.round_budget && next.state is End {
                        WizardView {
                            state: WizardState::End,
                            history: self.history.push(next),
                            active_round: None,
                            ..self
                        }
                    } else if round.state is End {
                        WizardView { state: WizardState::EndRound, ..self }
                    } else {
                        WizardView { active_round: Some(next), ..self }
                    }
                },
                None => self,
            },
            WizardState::EndRound => match self.active_round {
                Some(round) => WizardView {
                    state: WizardState::NextRound,
                    history: self.history.push(round),
                    players: rotate_left(round.players),
                    active_round: None,
                    ..self
                },
                None => self,
            },
        }
    }

    /// The session as text: the players in their order, each followed by a
    /// space.
    pub open spec fn text(self) -> Seq<char> {
        roster_text(self.players, self.players.len(), seq![' '])
    }

    /// The round dealt last: the round in progress or, where none is, the
    /// round filed last. `None` before the first deal.
    pub open spec fn last_dealt(self) -> Option<RoundView> {
        match self.active_round {
            Some(round) => Some(round),
            None => if self.history.len() > 0 {
                Some(self.history.last())
            } else {
                None
            },
        }
    }

    /// No player's points are further from zero than `rounds` rounds can
    /// take them.
    pub open spec fn points_within(players: Seq<PlayerView>, rounds: nat) -> bool {
        forall|i: int|
            0 <= i < players.len() ==> -MAX_ROUND_GAIN * rounds <= (#[trigger] players[i]).points
                <= MAX_ROUND_GAIN * rounds
    }

    /// The points that the player on seat `seat` of the filed round `k`
    /// brought to that round: none to the first round, and to every other
    /// round what the round before left them. From round to round every
    /// player moves up one seat.
    pub open spec fn points_before(self, k: int, seat: int) -> int {
        if k == 0 {
            0
        } else {
            self.history[k - 1].players[seat_after(seat, self.player_count as int)].points
        }
    }

    /// The score sheet adds up. Every filed round shows each of its players
    /// with the points they brought to the round plus their score for the
    /// bid and the trick count that the round has on record for them, and
    /// seats the players of the round before it, each one seat earlier.
    pub open spec fn history_adds_up(self) -> bool {
        forall|k: int, seat: int|
            0 <= k < self.history.len() && 0 <= seat < self.player_count ==> {
                let round = self.history[k];
                let player = #[trigger] self.history[k].players[seat];
                &&& player.points == self.points_before(k, seat) + score(
                    tip_of(round.bids, player.name),
                    tip_of(round.actual, player.name),
                )
                &&& k > 0 ==> player.name == self.history[k - 1].players[seat_after(
                    seat,
                    self.player_count as int,
                )].name
            }
    }

    /// The number of filed rounds that the roster has taken its players
    /// from: all of them, but for the round that ended the session.
    pub open spec fn rounds_in_roster(self) -> int {
        if self.state is End {
            self.history.len() - 1
        } else {
            self.history.len() as int
        }
    }

    /// The roster follows the score sheet. Before a round is filed every
    /// player of the roster has no points; afterwards the roster holds the
    /// players of the round it last took them from, each one seat earlier.
    pub open spec fn roster_follows(self) -> bool {
        forall|seat: int|
            0 <= seat < self.players.len() ==> (#[trigger] self.players[seat]) == if
                self.rounds_in_roster() == 0 {
                PlayerView { points: 0, ..self.players[seat] }
            } else {
                self.history[self.rounds_in_roster() - 1].players[seat_after(
                    seat,
                    self.player_count as int,
                )]
            }
    }

    /// What holds of the round in progress: it is the round dealt last, to
    /// the players of the roster in their order and with their points, to
    /// which the round's scores are added once it has ended.
    pub open spec fn active_round_fits(self, round: RoundView) -> bool {
        &&& round.wf()
        &&& self.round_index >= 1
        &&& round.round_number == self.round_index
        &&& round.players.len() == self.player_count
        &&& forall|i: int|
            0 <= i < round.players.len() ==> (#[trigger] round.players[i]) == if round.state
                is End {
                scored_player(self.players[i], round.bids, round.actual)
            } else {
                self.players[i]
            }
        &&& Self::points_within(
            round.players,
            if round.state is End {
                self.round_index
            } else {
                (self.round_index - 1) as nat
            },
        )
        &&& round.state is End ==> self.round_index < self.round_budget
    }

    /// What holds of every session, from its creation to its end.
    pub open spec fn wf(self) -> bool {
        &&& 1 <= self.player_count <= DECK_SIZE
        &&& self.round_budget == DECK_SIZE as nat / self.player_count
        &&& self.round_index <= self.round_budget
        &&& self.fill_cursor == if self.state is Init {
            self.players.len()
        } else {
            0
        }
        &&& if self.state is Init {
            self.players.len() < self.player_count
        } else {
            self.players.len() == self.player_count
        }
        &&& Self::points_within(self.players, self.history.len())
        &&& self.history_adds_up()
        &&& self.roster_follows()
        &&& forall|i: int|
            0 <= i < self.history.len() ==> {
                let round = #[trigger] self.history[i];
                &&& round.wf()
                &&& round.state is End
                &&& round.round_number == i + 1
                &&& round.players.len() == self.player_count
            }
        &&& self.active_round is Some <==> self.state is Playing || self.state is EndRound
        &&& match self.state {
            WizardState::Init => self.round_index == 0 && self.history.len() == 0,
            WizardState::NextRound => {
                &&& self.round_index < self.round_budget
                &&& self.history.len() == self.round_index
            },
            WizardState::Playing => {
                &&& self.history.len() + 1 == self.round_index
                &&& self.active_round matches Some(round) ==> self.active_round_fits(round)
            },
            WizardState::EndRound => {
                &&& self.history.len() + 1 == self.round_index
                &&& self.active_round matches Some(round) ==> self.active_round_fits(round)
                    && round.state is End
            },
            WizardState::End => {
                &&& self.round_index == self.round_budget
                &&& self.history.len() == self.round_budget
            },
        }
    }
}

/// A session for one to sixty players is well formed before its first step,
/// and has a round to deal.
pub proof fn lemma_init_wf(player_count: nat)
    requires
        1 <= player_count <= DECK_SIZE,
    ensures
        WizardView::init(player_count).wf(),
        WizardView::init(player_count).round_budget >= 1,
{
    assert(60nat / player_count >= 1) by (nonlinear_arith)
        requires
            1 <= player_count <= 60,
    ;
}

/// Seating a player keeps a session well formed.
pub proof fn lemma_seat_wf(session: WizardView, name: Seq<char>)
    requires
        session.wf(),
    ensures
        session.seat(name).wf(),
{
    if session.state is Init {
        assert(60nat / session.player_count >= 1) by (nonlinear_arith)
            requires
                1 <= session.player_count <= 60,
        ;
    }
}

/// A step keeps the players of a round in place and under their names, and
/// takes no player's points further than one round's worth.
pub proof fn lemma_step_players(round: RoundView, count: u8)
    requires
        round.wf(),
    ensures
        round.step(count).players.len() == round.players.len(),
        round.step(count).round_number == round.round_number,
        forall|i: int|
            #![trigger round.step(count).players[i]]
            0 <= i < round.players.len() ==> {
                let before = round.players[i];
                let after = round.step(count).players[i];
                &&& after.name == before.name
                &&& round.state is Checking ==> before.points - MAX_ROUND_GAIN <= after.points
                    <= before.points + MAX_ROUND_GAIN
                &&& !(round.state is Checking) ==> after == before
            },
{
}

/// A step keeps a session well formed.
pub proof fn lemma_advance_wf(session: WizardView, count: u8)
    requires
        session.wf(),
    ensures
        session.advance(count).wf(),
{
    let next = session.advance(count);
    assert(60nat / session.player_count <= 60) by (nonlinear_arith)
        requires
            1 <= session.player_count <= 60,
    ;
    match session.state {
        WizardState::Init | WizardState::End => {},
        WizardState::NextRound => {
            lemma_start_wf(session.round_index + 1, session.players);
        },
        WizardState::Playing => {
            let round = session.active_round->0;
            lemma_step_wf(round, count);
            lemma_step_players(round, count);
        },
        WizardState::EndRound => {
            let round = session.active_round->0;
            assert forall|i: int| 0 <= i < next.players.len() implies -MAX_ROUND_GAIN
                * next.history.len() <= (#[trigger] next.players[i]).points <= MAX_ROUND_GAIN
                * next.history.len() by {
                if i + 1 < round.players.len() {
                    assert(next.players[i] == round.players[i + 1]);
                } else {
                    assert(next.players[i] == round.players[0]);
                }
            }
        },
    }
}

/// Rotation. Filing a round hands the turn order on by one seat: the
/// session takes over the round's players, each with the points the round
/// left them, the first of them now last. Every player of the order before
/// the round is still there, one seat earlier, and nobody else.
pub proof fn lemma_rotation(session: WizardView, count: u8)
    requires
        session.wf(),
        session.state is EndRound,
    ensures
        ({
            let next = session.advance(count);
            let round = session.active_round->0;
            let n = session.players.len() as int;
            &&& next.state is NextRound
            &&& next.players.len() == n
            &&& forall|i: int|
                0 <= i < n ==> (#[trigger] next.players[i]).name == session.players[(i + 1)
                    % n].name
            &&& forall|i: int| 0 <= i < n ==> (#[trigger] next.players[i]) == round.players[(i + 1) % n]
            &&& next.history == session.history.push(round)
            &&& next.active_round is None
            &&& next.round_index == session.round_index
        }),
{
    let next = session.advance(count);
    let round = session.active_round->0;
    let n = session.players.len() as int;
    assert forall|i: int| 0 <= i < n implies (#[trigger] next.players[i]) == round.players[(i + 1)
        % n] by {
        if i + 1 < n {
            assert((i + 1) % n == i + 1) by (nonlinear_arith)
                requires
                    0 <= i + 1 < n,
            ;
        } else {
            assert((i + 1) % n == 0) by (nonlinear_arith)
                requires
                    i + 1 == n,
                    n > 0,
            ;
        }
    }
    assert forall|i: int| 0 <= i < n implies (#[trigger] next.players[i]).name
        == session.players[(i + 1) % n].name by {
        assert(0 <= (i + 1) % n < n) by (nonlinear_arith)
            requires
                0 <= i,
                n > 0,
        ;
        assert(next.players[i] == round.players[(i + 1) % n]);
    }
}

/// The score sheet. Every round on file has ended, bears its number, and
/// has a bid and a trick count on record for each of its players; it shows
/// each player with exactly the points they brought to the round plus their
/// score for that bid and that trick count; and it seats the players of the
/// round before it, each one seat earlier.
pub proof fn lemma_filed_round_scores(session: WizardView, k: int, seat: int)
    requires
        session.wf(),
        0 <= k < session.history.len(),
        0 <= seat < session.player_count,
    ensures
        ({
            let round = session.history[k];
            let player = round.players[seat];
            &&& round.state is End
            &&& round.round_number == k + 1
            &&& round.players.len() == session.player_count
            &&& round.bids.dom().contains(player.name)
            &&& round.actual.dom().contains(player.name)
            &&& player.points - session.points_before(k, seat) == score(
                round.bids[player.name],
                round.actual[player.name],
            )
            &&& k > 0 ==> player.name == session.history[k - 1].players[seat_after(
                seat,
                session.player_count as int,
            )].name
        }),
{
    let round = session.history[k];
    crate::round::lemma_names_grow(round.players, seat);
    assert(session.history[k].players[seat].points == session.points_before(k, seat) + score(
        tip_of(round.bids, round.players[seat].name),
        tip_of(round.actual, round.players[seat].name),
    ));
}

/// The end of a session, step by step. A step ends a session exactly when
/// the round in progress is the one that uses up the budget and the step
/// ends that round. Seating a player never ends a session.
pub proof fn lemma_reaches_end(session: WizardView, name: Seq<char>, count: u8)
    requires
        session.wf(),
        !(session.state is End),
    ensures
        session.advance(count).state is End <==> {
            &&& session.state is Playing
            &&& session.round_index == session.round_budget
            &&& session.active_round->0.step(count).state is End
        },
        !(session.seat(name).state is End),
{
}

/// The end of a session, state by state. A session has ended exactly when
/// it has dealt as many rounds as its budget holds and the round dealt last
/// has ended. Its budget is the number of times the players go into the
/// deck, and an ended session has filed every round of it.
pub proof fn lemma_end_state(session: WizardView)
    requires
        session.wf(),
    ensures
        session.round_budget == DECK_SIZE as nat / session.player_count,
        session.state is End <==> {
            &&& session.round_index == session.round_budget
            &&& session.last_dealt() matches Some(round)
            &&& round.state is End
        },
        session.state is End ==> session.history.len() == session.round_budget
            && session.active_round is None,
{
    assert(60nat / session.player_count >= 1) by (nonlinear_arith)
        requires
            1 <= session.player_count <= 60,
    ;
    if session.state is End {
        assert(session.history.last().state is End);
    }
}

/// A session that has ended does not change, whatever it is handed.
pub proof fn lemma_end_is_final(session: WizardView, name: Seq<char>, count: u8)
    requires
        session.state is End,
    ensures
        session.advance(count) == session,
        session.seat(name) == session,
{
}

/// A session of the game.
#[derive(Debug, PartialEq, Eq)]
pub struct Wizard {
    state: WizardState,
    round_count: usize,
    round_index: usize,
    player_count: usize,
    player_index: usize,
    players: Vec<Player>,
    rounds: Vec<Round>,
    current_round: Option<Round>,
}

impl View for Wizard {
    type V = WizardView;

    closed spec fn view(&self) -> WizardView {
        WizardView {
            state: self.state,
            round_budget: self.round_count as nat,
            round_index: self.round_index as nat,
            player_count: self.player_count as nat,
            fill_cursor: self.player_index as nat,
            players: player_views(self.players@),
            history: round_views(self.rounds@),
            active_round: match self.current_round {
                Some(round) => Some(round@),
                None => None,
            },
        }
    }
}

impl Clone for Wizard {
    fn clone(&self) -> (copy: Self)
        ensures
            copy@ == self@,
            self.wf() ==> copy.wf(),
    {
        let mut rounds: Vec<Round> = Vec::new();
        let mut i: usize = 0;
        while i < self.rounds.len()
            invariant
                i <= self.rounds.len(),
                rounds@.len() == i,
                forall|j: int| 0 <= j < i ==> (#[trigger] rounds@[j])@ == self.rounds@[j]@,
                forall|j: int|
                    0 <= j < i ==> (self.rounds@[j].wf() ==> (#[trigger] rounds@[j]).wf()),
            decreases self.rounds.len() - i,
        {
            rounds.push(self.rounds[i].clone());
            i += 1;
        }
        let current_round = match &self.current_round {
            Some(round) => Some(round.clone()),
            None => None,
        };
        assert(round_views(rounds@) =~= round_views(self.rounds@));
        Wizard {
            state: self.state,
            round_count: self.round_count,
            round_index: self.round_index,
            player_count: self.player_count,
            player_index: self.player_index,
            players: clone_players(&self.players),
            rounds,
            current_round,
        }
    }
}

impl Wizard {
    /// The session's internal consistency. Every session that this module
    /// hands out is well formed, and its model is well formed with it.
    pub closed spec fn wf(&self) -> bool {
        &&& self@.wf()
        &&& forall|i: int| 0 <= i < self.rounds@.len() ==> (#[trigger] self.rounds@[i]).wf()
        &&& self.current_round matches Some(round) ==> round.wf()
    }

    /// A well-formed session has a well-formed model.
    pub proof fn lemma_wf_view(self)
        requires
            self.wf(),
        ensures
            self@.wf(),
    {
    }

    /// A session for `player_count` players, with an empty roster and a
    /// budget of as many rounds as the deck can deal to that many players.
    pub fn new(player_count: usize) -> (session: Self)
        requires
            1 <= player_count <= DECK_SIZE,
        ensures
            session.wf(),
            session@ == WizardView::init(player_count as nat),
    {
        proof {
            lemma_init_wf(player_count as nat);
        }
        let session = Self {
            state: WizardState::Init,
            round_count: DECK_SIZE / player_count,
            round_index: 0,
            player_index: 0,
            player_count,
            players: Vec::with_capacity(player_count),
            rounds: Vec::with_capacity(DECK_SIZE / player_count),
            current_round: None,
        };
        assert(session@.players =~= Seq::<PlayerView>::empty());
        assert(session@.history =~= Seq::<RoundView>::empty());
        session
    }

    /// Seats a player called `name` on the next free seat of the roster. A
    /// session whose roster is complete stays as it is.
    pub fn seat(&mut self, name: String)
        requires
            old(self).wf(),
        ensures
            final(self).wf(),
            final(self)@ == old(self)@.seat(name@),
    {
        proof {
            lemma_seat_wf(self@, name@);
        }
        match self.state {
            WizardState::Init => {
                let player = Player::new(name);
                self.players.push(player);
                if self.player_index + 1 == self.player_count {
                    self.state = WizardState::NextRound;
                    self.player_index = 0;
                } else {
                    self.player_index += 1;
                }
                assert(self@.players =~= old(self)@.seat(name@).players);
            },
            _ => {},
        }
    }

    /// Advances the session by one step, handing `count` to the round in
    /// progress as the input of the player whose turn it is. A session that
    /// is filling its roster stays as it is.
    pub fn step(&mut self, count: u8)
        requires
            old(self).wf(),
        ensures
            final(self).wf(),
            final(self)@ == old(self)@.advance(count),
    {
        proof {
            lemma_advance_wf(self@, count);
        }
        match self.state {
            WizardState::Init | WizardState::End => {},
            WizardState::NextRound => {
                self.round_index += 1;
                let players = clone_players(&self.players);
                proof {
                    assert forall|i: int| 0 <= i < players@.len() implies (
                    #[trigger] players@[i])@.can_score() by {
                        assert(player_views(players@)[i] == players@[i]@);
                        assert(old(self)@.players[i].points <= MAX_ROUND_GAIN * DECK_SIZE);
                        assert(old(self)@.players[i].points >= -MAX_ROUND_GAIN * DECK_SIZE);
                    }
                }
                self.current_round = Some(Round::new(self.round_index as u32, players));
                self.state = WizardState::Playing;
            },
            WizardState::Playing => {
                match self.current_round.take() {
                    Some(mut round) => {
                        let was_over = matches!(round.state(), RoundState::End);
                        round.step(count);
                        let is_over = matches!(round.state(), RoundState::End);
                        if self.round_index == self.round_count && is_over {
                            self.rounds.push(round);
                            self.state = WizardState::End;
                            assert(self@.history =~= old(self)@.advance(count).history);
                        } else if was_over {
                            self.current_round = Some(round);
                            self.state = WizardState::EndRound;
                        } else {
                            self.current_round = Some(round);
                        }
                    },
                    None => {},
                }
            },
            WizardState::EndRound => {
                match self.current_round.take() {
                    Some(round) => {
                        let mut players = clone_players(round.players());
                        let first = players.remove(0);
                        players.push(first);
                        assert(player_views(players@) =~= rotate_left(round@.players));
                        self.rounds.push(round);
                        self.players = players;
                        self.state = WizardState::NextRound;
                        assert(self@.history =~= old(self)@.advance(count).history);
                    },
                    None => {},
                }
            },
        }
    }

    /// Advances the session by one step. While the roster is being filled,
    /// the name for the next seat is asked of `player_callback`, which is
    /// told the seat's index. Where the round in progress takes a number, it
    /// is asked of `input_callback`, which is told the player whose turn it
    /// is and the phase of the round. A step calls at most one of the two,
    /// and at most once.
    pub fn play<N: Fn(usize) -> String, I: Fn(&Player, &RoundState) -> u8>(
        &mut self,
        player_callback: N,
        input_callback: I,
    )
        requires
            old(self).wf(),
            old(self)@.state is Init ==> call_requires(
                player_callback,
                (old(self)@.fill_cursor as usize,),
            ),
            old(self)@.awaits_input() ==> forall|player: &Player, phase: &RoundState|
                player@ == old(self)@.active_round->0.current_player() && *phase == old(
                    self,
                )@.active_round->0.state ==> call_requires(input_callback, (player, phase)),
        ensures
            final(self).wf(),
            old(self)@.state is Init ==> exists|name: String|
                {
                    &&& call_ensures(player_callback, (old(self)@.fill_cursor as usize,), name)
                    &&& final(self)@ == old(self)@.seat(name@)
                },
            old(self)@.awaits_input() ==> exists|player: &Player, phase: &RoundState, count: u8|
                {
                    &&& player@ == old(self)@.active_round->0.current_player()
                    &&& *phase == old(self)@.active_round->0.state
                    &&& call_ensures(input_callback, (player, phase), count)
                    &&& final(self)@ == old(self)@.advance(count)
                },
            !(old(self)@.state is Init) && !old(self)@.awaits_input() ==> final(self)@ == old(
                self,
            )@.advance(0),
    {
        match self.state {
            WizardState::Init => {
                let name = player_callback(self.player_index);
                let ghost seat = self.player_index;
                self.seat(name);
                assert(call_ensures(player_callback, (seat,), name));
            },
            WizardState::Playing => {
                let count = match &self.current_round {
                    Some(round) => match round.state() {
                        RoundState::Tipping | RoundState::Retipping | RoundState::Playing => {
                            let phase = round.state();
                            let player = round.current_player();
                            let count = input_callback(player, &phase);
                            assert(call_ensures(input_callback, (player, &phase), count));
                            count
                        },
                        RoundState::Checking | RoundState::End => 0,
                    },
                    None => 0,
                };
                self.step(count);
            },
            WizardState::NextRound | WizardState::EndRound | WizardState::End => {
                self.step(0);
            },
        }
    }

    /// The session as text: the players in their order, each followed by a
    /// space.
    pub fn to_string(&self) -> (text: String)
        ensures
            text@ == self@.text(),
    {
        proof {
            reveal_strlit(" ");
        }
        let mut text = String::new();
        push_roster(&mut text, &self.players, " ");
        assert(" "@ =~= seq![' ']);
        assert(text@ =~= self@.text());
        text
    }

    /// What the session is doing.
    pub fn state(&self) -> (state: WizardState)
        ensures
            state == self@.state,
    {
        self.state
    }

    /// The number of players of the session.
    pub fn player_count(&self) -> (player_count: usize)
        ensures
            player_count == self@.player_count,
    {
        self.player_count
    }

    /// The number of rounds the session deals.
    pub fn round_count(&self) -> (round_count: usize)
        ensures
            round_count == self@.round_budget,
    {
        self.round_count
    }

    /// The number of rounds dealt so far.
    pub fn round_index(&self) -> (round_index: usize)
        ensures
            round_index == self@.round_index,
    {
        self.round_index
    }

    /// The seat that the next name fills.
    pub fn player_index(&self) -> (player_index: usize)
        ensures
            player_index == self@.fill_cursor,
    {
        self.player_index
    }

    /// The players in the turn order of the next deal, with the points of
    /// the rounds filed so far.
    pub fn players(&self) -> (players: &Vec<Player>)
        ensures
            players@.len() == self@.players.len(),
            player_views(players@) == self@.players,
    {
        &self.players
    }

    /// The rounds that have ended, in the order they were dealt.
    pub fn rounds(&self) -> (rounds: &Vec<Round>)
        ensures
            rounds@.len() == self@.history.len(),
            round_views(rounds@) == self@.history,
            self.wf() ==> forall|i: int| 0 <= i < rounds@.len() ==> (#[trigger] rounds@[i]).wf(),
    {
        &self.rounds
    }

    /// The round in progress, if there is one.
    pub fn active_round(&self) -> (round: Option<&Round>)
        ensures
            match round {
                Some(round) => self@.active_round == Some(round@) && (self.wf() ==> round.wf()),
                None => self@.active_round is None,
            },
    {
        match &self.current_round {
            Some(round) => Some(round),
            None => None,
        }
    }

    /// The round dealt last: the round in progress or, between rounds and
    /// after the session, the round filed last. `None` before the first deal.
    pub fn current_round(&self) -> (round: Option<&Round>)
        ensures
            match round {
                Some(round) => self@.last_dealt() == Some(round@) && (self.wf() ==> round.wf()),
                None => self@.last_dealt() is None,
            },
    {
        match &self.current_round {
            Some(round) => Some(round),
            None => {
                if self.rounds.len() > 0 {
                    Some(&self.rounds[self.rounds.len() - 1])
                } else {
                    None
                }
            },
        }
    }
}

} // verus!
