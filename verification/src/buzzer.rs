//! Teams, the shared buzzer and a game that ties them together.
//!
//! The buzzer goes to the first allowed team that presses it; every later
//! press is refused until the buzzer is reset or unlocked.

use vstd::prelude::*;
use vstd::string::StringExecFns;
use crate::replies::{append_signed_decimal, signed_decimal};

verus! {

/// A team taking part in a game.
#[derive(Clone, Debug)]
pub struct Team {
    pub id: i32,
    pub name: String,
    pub score: i32,
    pub is_allowed_to_buzz: bool,
}

/// Who, if anyone, holds the buzzer.
#[derive(Clone, Copy, Debug, PartialEq, Eq, Structural)]
pub enum BuzzerState {
    Idle,
    LockedByTeam(i32),
    LockedForAll,
}

/// The buzzer shared by all teams of a game.
#[derive(Debug)]
pub struct Buzzer {
    pub state: BuzzerState,
}

/// What came of a press of the buzzer.
#[derive(Clone, Debug, PartialEq)]
pub enum BuzzOutcome {
    /// The buzzer was idle and now belongs to the team that pressed it.
    Accepted,
    /// The buzzer already belonged to the team with this id.
    AlreadyLockedBy(i32),
    /// The buzzer was locked for every team.
    LockedForAll,
    /// The team, named here, was not allowed to buzz.
    NotAllowed(String),
}

/// A game: one buzzer and the teams, in the order they joined.
#[derive(Debug)]
pub struct Game {
    pub buzzer: Buzzer,
    pub teams: Vec<Team>,
}

/// The state of the buzzer after the team `team_id` presses it.
pub open spec fn buzz_next(state: BuzzerState, team_id: i32) -> BuzzerState {
    match state {
        BuzzerState::Idle => BuzzerState::LockedByTeam(team_id),
        _ => state,
    }
}

/// What a press of the buzzer in `state` reports.
pub open spec fn buzz_report(state: BuzzerState) -> BuzzOutcome {
    match state {
        BuzzerState::Idle => BuzzOutcome::Accepted,
        BuzzerState::LockedByTeam(t) => BuzzOutcome::AlreadyLockedBy(t),
        BuzzerState::LockedForAll => BuzzOutcome::LockedForAll,
    }
}

/// The line that a press reports, if any: nothing when it was accepted.
pub open spec fn outcome_line(outcome: BuzzOutcome) -> Option<Seq<char>> {
    match outcome {
        BuzzOutcome::Accepted => None,
        BuzzOutcome::AlreadyLockedBy(t) => Some(
            "Buzzer is already locked by team n°"@ + signed_decimal(t as int) + "!"@,
        ),
        BuzzOutcome::LockedForAll => Some("Buzzer is locked for all teams!"@),
        BuzzOutcome::NotAllowed(name) => Some("Team "@ + name@ + " is not allowed to buzz!"@),
    }
}

impl BuzzOutcome {
    /// The line to show for this outcome, if any.
    pub fn message(&self) -> (line: Option<String>)
        ensures
            match line {
                Some(text) => outcome_line(*self) == Some(text@),
                None => outcome_line(*self) is None,
            },
    {
        match self {
            BuzzOutcome::Accepted => None,
            BuzzOutcome::AlreadyLockedBy(t) => {
                let mut text = String::from_str("Buzzer is already locked by team n°");
                append_signed_decimal(&mut text, *t);
                text.append("!");
                Some(text)
            },
            BuzzOutcome::LockedForAll => Some(String::from_str("Buzzer is locked for all teams!")),
            BuzzOutcome::NotAllowed(name) => {
                let mut text = String::from_str("Team ");
                text.append(name.as_str());
                text.append(" is not allowed to buzz!");
                Some(text)
            },
        }
    }
}

/// The position of the first team of `teams` with the id `id`, if there is one.
pub open spec fn first_team_with_id(teams: Seq<Team>, id: i32) -> Option<int>
    decreases teams.len(),
{
    if teams.len() == 0 {
        None
    } else if teams[0].id == id {
        Some(0)
    } else {
        match first_team_with_id(teams.drop_first(), id) {
            Some(i) => Some(i + 1),
            None => None,
        }
    }
}

/// `i` is the position of the first team of `teams` whose id is `id`.
pub open spec fn is_first_with_id(teams: Seq<Team>, id: i32, i: int) -> bool {
    &&& 0 <= i < teams.len()
    &&& teams[i].id == id
    &&& forall|j: int| 0 <= j < i ==> teams[j].id != id
}

/// `first_team_with_id` finds exactly the first team with the id, and finds
/// nothing only when no team has it.
pub proof fn lemma_first_team_with_id(teams: Seq<Team>, id: i32)
    ensures
        match first_team_with_id(teams, id) {
            Some(i) => is_first_with_id(teams, id, i),
            None => forall|j: int| 0 <= j < teams.len() ==> teams[j].id != id,
        },
    decreases teams.len(),
{
    if teams.len() > 0 && teams[0].id != id {
        let rest = teams.drop_first();
        lemma_first_team_with_id(rest, id);
        match first_team_with_id(rest, id) {
            Some(i) => {
                assert forall|j: int| 0 <= j < i + 1 implies teams[j].id != id by {
                    if j > 0 {
                        assert(teams[j] == rest[j - 1]);
                    }
                }
            },
            None => {
                assert forall|j: int| 0 <= j < teams.len() implies teams[j].id != id by {
                    if j > 0 {
                        assert(teams[j] == rest[j - 1]);
                    }
                }
            },
        }
    }
}

/// Once the buzzer is held, by a team or locked for all, a press by any team
/// leaves it as it is and is not accepted.
pub proof fn law_held_buzzer_ignores_presses(state: BuzzerState, team_id: i32)
    requires
        state != BuzzerState::Idle,
    ensures
        buzz_next(state, team_id) == state,
        buzz_report(state) != BuzzOutcome::Accepted,
{
}

/// The first press of an idle buzzer wins: it is accepted, and a second
/// press, by any team, is told that the first team holds the buzzer.
pub proof fn law_first_press_wins(first: i32, second: i32)
    ensures
        buzz_report(BuzzerState::Idle) == BuzzOutcome::Accepted,
        buzz_next(BuzzerState::Idle, first) == BuzzerState::LockedByTeam(first),
        buzz_next(buzz_next(BuzzerState::Idle, first), second) == BuzzerState::LockedByTeam(
            first,
        ),
        buzz_report(buzz_next(BuzzerState::Idle, first)) == BuzzOutcome::AlreadyLockedBy(first),
{
}

/// A team added to a game in which no team has its id is the one that a
/// lookup of that id finds.
pub proof fn law_added_team_is_found(teams: Seq<Team>, team: Team)
    requires
        forall|j: int| 0 <= j < teams.len() ==> teams[j].id != team.id,
    ensures
        first_team_with_id(teams.push(team), team.id) == Some(teams.len() as int),
{
    let all = teams.push(team);
    lemma_first_team_with_id(all, team.id);
    match first_team_with_id(all, team.id) {
        Some(i) => {
            if i < teams.len() {
                assert(all[i] == teams[i]);
            }
        },
        None => {
            assert(all[teams.len() as int] == team);
        },
    }
}

/// Adding a team never changes which team a lookup of an id already present
/// finds: the first team with an id keeps its place.
pub proof fn law_lookup_keeps_first_team(teams: Seq<Team>, team: Team, id: i32, i: int)
    requires
        first_team_with_id(teams, id) == Some(i),
    ensures
        first_team_with_id(teams.push(team), id) == Some(i),
{
    let all = teams.push(team);
    lemma_first_team_with_id(teams, id);
    lemma_first_team_with_id(all, id);
    assert(all[i] == teams[i]);
    match first_team_with_id(all, id) {
        Some(k) => {
            if k < i {
                assert(all[k] == teams[k]);
            }
        },
        None => {},
    }
}

impl Team {
    /// A new team with no points, allowed to buzz.
    pub fn new_team(id: i32, name: String) -> (team: Team)
        ensures
            team.id == id,
            team.name == name,
            team.score == 0,
            team.is_allowed_to_buzz,
    {
        Team { id, name, score: 0, is_allowed_to_buzz: true }
    }

    /// Adds `points` (which may be negative) to the score.
    pub fn update_score(&mut self, points: i32)
        requires
            i32::MIN <= old(self).score + points <= i32::MAX,
        ensures
            final(self).score == old(self).score + points,
            final(self).id == old(self).id,
            final(self).name == old(self).name,
            final(self).is_allowed_to_buzz == old(self).is_allowed_to_buzz,
    {
        self.score += points;
    }

    /// Allows or forbids the team to buzz.
    pub fn set_buzzing_permission(&mut self, permission: bool)
        ensures
            final(self).is_allowed_to_buzz == permission,
            final(self).id == old(self).id,
            final(self).name == old(self).name,
            final(self).score == old(self).score,
    {
        self.is_allowed_to_buzz = permission;
    }

    /// A team equal to this one, field by field.
    fn duplicate(&self) -> (copy: Team)
        ensures
            copy == *self,
    {
        Team {
            id: self.id,
            name: self.name.clone(),
            score: self.score,
            is_allowed_to_buzz: self.is_allowed_to_buzz,
        }
    }
}

impl Buzzer {
    /// A press of the buzzer by `team`: an idle buzzer goes to the team;
    /// a locked buzzer stays as it is and says who holds it.
    pub fn buzz(&mut self, team: Team) -> (outcome: BuzzOutcome)
        ensures
            final(self).state == buzz_next(old(self).state, team.id),
            outcome == buzz_report(old(self).state),
    {
        match self.state {
            BuzzerState::Idle => {
                self.state = BuzzerState::LockedByTeam(team.id);
                BuzzOutcome::Accepted
            },
            BuzzerState::LockedByTeam(t) => BuzzOutcome::AlreadyLockedBy(t),
            BuzzerState::LockedForAll => BuzzOutcome::LockedForAll,
        }
    }

    /// Frees the buzzer.
    pub fn reset(&mut self)
        ensures
            final(self).state == BuzzerState::Idle,
    {
        self.state = BuzzerState::Idle;
    }

    /// Locks the buzzer for every team.
    pub fn lock_for_all(&mut self)
        ensures
            final(self).state == BuzzerState::LockedForAll,
    {
        self.state = BuzzerState::LockedForAll;
    }

    /// Unlocks the buzzer for every team.
    pub fn unlock_for_all(&mut self)
        ensures
            final(self).state == BuzzerState::Idle,
    {
        self.state = BuzzerState::Idle;
    }
}

impl Game {
    /// A game with an idle buzzer and no teams.
    pub fn new_game() -> (game: Game)
        ensures
            game.buzzer.state == BuzzerState::Idle,
            game.teams@ == Seq::<Team>::empty(),
    {
        Game { buzzer: Buzzer { state: BuzzerState::Idle }, teams: Vec::new() }
    }

    /// Adds a team after the others.
    pub fn add_team(&mut self, team: Team)
        ensures
            final(self).teams@ == old(self).teams@.push(team),
            final(self).buzzer == old(self).buzzer,
    {
        self.teams.push(team);
    }

    /// The first team that joined with the id `id`, if any.
    pub fn find_team_by_id(&self, id: i32) -> (found: Option<&Team>)
        ensures
            match first_team_with_id(self.teams@, id) {
                Some(i) => found == Some(&self.teams@[i]),
                None => found is None,
            },
    {
        proof {
            lemma_first_team_with_id(self.teams@, id);
        }
        let mut i: usize = 0;
        while i < self.teams.len()
            invariant
                i <= self.teams.len(),
                forall|j: int| 0 <= j < i ==> self.teams@[j].id != id,
                match first_team_with_id(self.teams@, id) {
                    Some(k) => is_first_with_id(self.teams@, id, k),
                    None => forall|j: int| 0 <= j < self.teams.len() ==> self.teams@[j].id != id,
                },
            decreases self.teams.len() - i,
        {
            if self.teams[i].id == id {
                return Some(&self.teams[i]);
            }
            i += 1;
        }
        None
    }

    /// A press of the buzzer by `team`. A team that may not buzz leaves the
    /// buzzer as it was; any other team presses it as `Buzzer::buzz` says.
    pub fn handle_buzz(&mut self, team: Team) -> (outcome: BuzzOutcome)
        ensures
            final(self).teams == old(self).teams,
            team.is_allowed_to_buzz ==> {
                &&& final(self).buzzer.state == buzz_next(old(self).buzzer.state, team.id)
                &&& outcome == buzz_report(old(self).buzzer.state)
            },
            !team.is_allowed_to_buzz ==> {
                &&& final(self).buzzer == old(self).buzzer
                &&& outcome == BuzzOutcome::NotAllowed(team.name)
            },
    {
        if team.is_allowed_to_buzz {
            self.buzzer.buzz(team)
        } else {
            BuzzOutcome::NotAllowed(team.name)
        }
    }
}

/// Presses the buzzer of `game` as the first team with the id `id`, if the
/// game has one.
fn buzz_as(game: &mut Game, id: i32) -> (outcome: Option<BuzzOutcome>)
    ensures
        final(game).teams == old(game).teams,
        match first_team_with_id(old(game).teams@, id) {
            Some(i) => {
                let team = old(game).teams@[i];
                &&& team.is_allowed_to_buzz ==> {
                    &&& final(game).buzzer.state == buzz_next(old(game).buzzer.state, team.id)
                    &&& outcome == Some(buzz_report(old(game).buzzer.state))
                }
                &&& !team.is_allowed_to_buzz ==> {
                    &&& final(game).buzzer == old(game).buzzer
                    &&& outcome == Some(BuzzOutcome::NotAllowed(team.name))
                }
            },
            None => final(game).buzzer == old(game).buzzer && outcome is None,
        },
{
    let team = match game.find_team_by_id(id) {
        Some(team) => Some(team.duplicate()),
        None => None,
    };
    match team {
        Some(team) => Some(game.handle_buzz(team)),
        None => None,
    }
}

/// A short game: teams 1 and 2 join, team 1 takes the buzzer, team 2 is
/// refused, the buzzer is reset and team 2 takes it. Returns what each press
/// reported, in order.
pub fn test_buzzer() -> (outcomes: Vec<BuzzOutcome>)
    ensures
        outcomes@ == seq![
            BuzzOutcome::Accepted,
            BuzzOutcome::AlreadyLockedBy(1),
            BuzzOutcome::Accepted,
        ],
{
    let mut outcomes: Vec<BuzzOutcome> = Vec::new();
    let mut game = Game::new_game();
    let team1 = Team::new_team(1, "Team A".to_string());
    let team2 = Team::new_team(2, "Team B".to_string());

    game.add_team(team1);
    game.add_team(team2);
    assert(first_team_with_id(game.teams@, 1) == Some(0int));
    assert(first_team_with_id(game.teams@.drop_first(), 2) == Some(0int));
    assert(first_team_with_id(game.teams@, 2) == Some(1int));

    if let Some(outcome) = buzz_as(&mut game, 1) {
        outcomes.push(outcome);
    }
    if let Some(outcome) = buzz_as(&mut game, 2) {
        outcomes.push(outcome);
    }

    game.buzzer.reset();

    if let Some(outcome) = buzz_as(&mut game, 2) {
        outcomes.push(outcome);
    }
    outcomes
}

} // verus!
