use quiz_buzzer::buzzer::{test_buzzer, BuzzOutcome, Buzzer, BuzzerState, Game, Team};

#[test]
fn scripted_game_reports_each_press() {
    let outcomes = test_buzzer();
    assert_eq!(
        outcomes,
        vec![BuzzOutcome::Accepted, BuzzOutcome::AlreadyLockedBy(1), BuzzOutcome::Accepted]
    );
}

#[test]
fn new_team_starts_at_zero_and_may_buzz() {
    let team = Team::new_team(7, "Les Bleus".to_string());
    assert_eq!(team.id, 7);
    assert_eq!(team.name, "Les Bleus");
    assert_eq!(team.score, 0);
    assert!(team.is_allowed_to_buzz);
}

#[test]
fn score_goes_up_and_down() {
    let mut team = Team::new_team(1, "A".to_string());
    team.update_score(10);
    team.update_score(-3);
    assert_eq!(team.score, 7);
}

#[test]
fn permission_can_be_withdrawn_and_given_back() {
    let mut team = Team::new_team(1, "A".to_string());
    team.set_buzzing_permission(false);
    assert!(!team.is_allowed_to_buzz);
    team.set_buzzing_permission(true);
    assert!(team.is_allowed_to_buzz);
}

#[test]
fn first_press_wins_and_later_presses_are_refused() {
    let mut buzzer = Buzzer { state: BuzzerState::Idle };
    assert_eq!(buzzer.buzz(Team::new_team(3, "C".to_string())), BuzzOutcome::Accepted);
    assert_eq!(buzzer.state, BuzzerState::LockedByTeam(3));
    assert_eq!(buzzer.buzz(Team::new_team(4, "D".to_string())), BuzzOutcome::AlreadyLockedBy(3));
    assert_eq!(buzzer.buzz(Team::new_team(3, "C".to_string())), BuzzOutcome::AlreadyLockedBy(3));
    assert_eq!(buzzer.state, BuzzerState::LockedByTeam(3));
}

#[test]
fn locked_for_all_refuses_everyone_until_unlocked() {
    let mut buzzer = Buzzer { state: BuzzerState::Idle };
    buzzer.lock_for_all();
    assert_eq!(buzzer.state, BuzzerState::LockedForAll);
    assert_eq!(buzzer.buzz(Team::new_team(1, "A".to_string())), BuzzOutcome::LockedForAll);
    assert_eq!(buzzer.state, BuzzerState::LockedForAll);
    buzzer.unlock_for_all();
    assert_eq!(buzzer.state, BuzzerState::Idle);
    assert_eq!(buzzer.buzz(Team::new_team(1, "A".to_string())), BuzzOutcome::Accepted);
}

#[test]
fn reset_frees_a_held_buzzer() {
    let mut buzzer = Buzzer { state: BuzzerState::LockedByTeam(9) };
    buzzer.reset();
    assert_eq!(buzzer.state, BuzzerState::Idle);
}

#[test]
fn a_team_without_permission_leaves_the_buzzer_alone() {
    let mut game = Game::new_game();
    let mut team = Team::new_team(5, "E".to_string());
    team.set_buzzing_permission(false);
    let outcome = game.handle_buzz(team);
    assert_eq!(outcome, BuzzOutcome::NotAllowed("E".to_string()));
    assert_eq!(game.buzzer.state, BuzzerState::Idle);
}

#[test]
fn an_allowed_team_takes_the_idle_buzzer() {
    let mut game = Game::new_game();
    let outcome = game.handle_buzz(Team::new_team(6, "F".to_string()));
    assert_eq!(outcome, BuzzOutcome::Accepted);
    assert_eq!(game.buzzer.state, BuzzerState::LockedByTeam(6));
}

#[test]
fn lookup_finds_the_first_team_with_the_id() {
    let mut game = Game::new_game();
    assert!(game.teams.is_empty());
    game.add_team(Team::new_team(1, "first".to_string()));
    game.add_team(Team::new_team(2, "second".to_string()));
    game.add_team(Team::new_team(1, "third".to_string()));
    assert_eq!(game.teams.len(), 3);
    assert_eq!(game.find_team_by_id(1).map(|t| t.name.clone()), Some("first".to_string()));
    assert_eq!(game.find_team_by_id(2).map(|t| t.name.clone()), Some("second".to_string()));
    assert!(game.find_team_by_id(3).is_none());
}

#[test]
fn outcome_lines() {
    assert_eq!(BuzzOutcome::Accepted.message(), None);
    assert_eq!(
        BuzzOutcome::AlreadyLockedBy(1).message(),
        Some("Buzzer is already locked by team n°1!".to_string())
    );
    assert_eq!(
        BuzzOutcome::AlreadyLockedBy(-42).message(),
        Some("Buzzer is already locked by team n°-42!".to_string())
    );
    assert_eq!(
        BuzzOutcome::AlreadyLockedBy(i32::MIN).message(),
        Some(format!("Buzzer is already locked by team n°{}!", i32::MIN))
    );
    assert_eq!(
        BuzzOutcome::LockedForAll.message(),
        Some("Buzzer is locked for all teams!".to_string())
    );
    assert_eq!(
        BuzzOutcome::NotAllowed("Team B".to_string()).message(),
        Some("Team Team B is not allowed to buzz!".to_string())
    );
}

#[test]
fn scripted_game_prints_one_refusal() {
    let lines: Vec<String> = test_buzzer().iter().filter_map(|o| o.message()).collect();
    assert_eq!(lines, vec!["Buzzer is already locked by team n°1!".to_string()]);
}
