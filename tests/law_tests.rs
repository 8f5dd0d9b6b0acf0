use yasa_core::enums::{ActionType, Procedure};
use yasa_core::game::GameState;
use yasa_core::geometry::Square;
use yasa_core::model::{Action, Ball, Path, Player, Team, TurnState};
use yasa_core::heuristic::HeuristicValuePolicy;
use yasa_core::mcts::pick_outcome;
use yasa_core::pathfinding::Pathfinder;
use yasa_core::prob::Prob;
use yasa_core::registry::ActionRegistry;
use yasa_core::rollout::{block_roll_rollout, dodge_rollout, gfi_rollout};

fn two_teams(home: &[(&str, i32, i32)], away: &[(&str, i32, i32)]) -> GameState {
    let mut home_team = Team::new("home".to_string());
    for (id, x, y) in home {
        home_team.insert_player(Player {
            player_id: id.to_string(),
            position: Some(Square::new(*x, *y)),
            ma: 4,
            ag: 3,
            ..Default::default()
        });
    }
    let mut away_team = Team::new("away".to_string());
    for (id, x, y) in away {
        away_team.insert_player(Player {
            player_id: id.to_string(),
            position: Some(Square::new(*x, *y)),
            ma: 4,
            ag: 3,
            ..Default::default()
        });
    }
    GameState {
        home_team: Some(home_team),
        away_team: Some(away_team),
        current_team_id: Some("home".to_string()),
        procedure: Some(Procedure::Turn),
        turn_state: Some(TurnState::default()),
        balls: vec![Ball::new(Some(Square::new(20, 8)), false)],
        ..Default::default()
    }
}

#[test]
fn actions_equal_whatever_their_paths() {
    let mut path = Path::new(Square::new(4, 4));
    path.squares.push(Square::new(4, 4));
    path.prob = Prob::new(1, 2);
    let a = Action::with_path(ActionType::Move, Some(Square::new(4, 4)), path);
    let b = Action::new(ActionType::Move, None, Some(Square::new(4, 4)));
    assert_eq!(a, b);
    let c = Action::new(ActionType::Move, None, Some(Square::new(4, 5)));
    assert_ne!(a, c);
    let d = Action::new(ActionType::Move, Some("p".to_string()), Some(Square::new(4, 4)));
    assert_ne!(b, d);
    assert_eq!(a.success_probability(), Prob::new(1, 2));
    assert_eq!(b.success_probability(), Prob::one());
}

#[test]
fn discovery_twice_gives_the_same_actions() {
    let mut state = two_teams(&[("h1", 10, 5), ("h2", 12, 8)], &[("a1", 11, 6)]);
    let registry = ActionRegistry::new();
    registry.discover_actions(&mut state).unwrap();
    let first = state.available_actions.clone();
    registry.discover_actions(&mut state).unwrap();
    assert_eq!(first, state.available_actions);
    assert!(first.contains(&Action::new(ActionType::StartBlock, Some("h1".to_string()), None)));
    assert!(!first.contains(&Action::new(ActionType::StartBlock, Some("h2".to_string()), None)));
    assert_eq!(first.last().unwrap().action_type, ActionType::EndTurn);
    assert_eq!(first.len(), 12);
}

#[test]
fn one_player_on_the_carried_ball() {
    let mut state = two_teams(&[("h1", 5, 5)], &[("a1", 20, 10)]);
    state.balls = vec![Ball::new(Some(Square::new(6, 5)), false)];
    state.procedure = Some(Procedure::MoveAction);
    state.parent_procedure = Some(Procedure::MoveAction);
    state.active_player_id = Some("h1".to_string());
    let registry = ActionRegistry::new();
    registry
        .execute_action(&mut state, &Action::new(ActionType::Move, None, Some(Square::new(6, 5))))
        .unwrap();
    assert!(state.balls[0].is_carried);
    let on_ball = state
        .home_team
        .iter()
        .chain(state.away_team.iter())
        .flat_map(|t| t.players.iter())
        .filter(|p| p.position == state.balls[0].position)
        .count();
    assert_eq!(on_ball, 1);
}

#[test]
fn tackle_zones_are_counted_from_the_other_side() {
    let mut state = two_teams(&[("h1", 10, 5), ("h2", 11, 7)], &[("a1", 11, 6), ("a2", 9, 6)]);
    if let Some(t) = state.away_team.as_mut() {
        t.players[1].state.stunned = true;
    }
    let sq = Square::new(10, 6);
    assert_eq!(state.get_team_tackle_zones_at(&"home".to_string(), &sq), 1);
    assert_eq!(state.get_team_tackle_zones_at(&"away".to_string(), &sq), 2);
    if let Some(t) = state.home_team.as_mut() {
        t.players[0].state.up = false;
    }
    assert_eq!(state.get_team_tackle_zones_at(&"away".to_string(), &sq), 1);
}

#[test]
fn path_probabilities_are_products_of_steps() {
    let state = two_teams(&[("h1", 5, 5)], &[("a1", 5, 4)]);
    let player = state.home_team.as_ref().unwrap().players[0].clone();
    let pathfinder = Pathfinder::new(&state, &player).unwrap();
    let path = pathfinder.find_path_to(Square::new(6, 6)).unwrap();
    // Leaving the tackle zone of a1 on (5, 4): AG 3 needs 4 + 1, no tackle zone on (6, 6).
    assert_eq!(path.squares, vec![Square::new(6, 6)]);
    assert_eq!(path.prob, Prob::new(2, 6));
    for p in pathfinder.find_all_paths() {
        assert_eq!(p.squares.last(), Some(&p.target));
        assert!(state.get_player_at(&p.target).is_err());
        assert!(!p.target.is_out_of_bounds());
    }
}

#[test]
fn gfi_split_five_sixths() {
    let mut state = two_teams(&[("h1", 15, 5)], &[("a1", 25, 12)]);
    state.procedure = Some(Procedure::MoveAction);
    state.active_player_id = Some("h1".to_string());
    state.home_team.as_mut().unwrap().players[0].state.moves = 4;
    let registry = ActionRegistry::new();
    registry
        .execute_action(&mut state, &Action::new(ActionType::Move, None, Some(Square::new(16, 5))))
        .unwrap();
    assert_eq!(state.procedure, Some(Procedure::GFI));
    let outcomes = gfi_rollout(&state).unwrap();
    assert_eq!(outcomes.len(), 2);
    assert_eq!(outcomes[0].probability, Prob::new(5, 6));
    assert_eq!(outcomes[1].probability, Prob::new(1, 6));
    let s = &outcomes[0].resulting_state;
    assert_eq!(s.procedure, Some(Procedure::MoveAction));
    assert_eq!(s.get_active_player().unwrap().state.moves, 5);
    assert!(s.get_active_player().unwrap().state.up);
    let f = &outcomes[1].resulting_state;
    assert_eq!(f.procedure, Some(Procedure::Turnover));
    assert!(!f.get_active_player().unwrap().state.up);
    assert_eq!(f.get_active_player().unwrap().position, Some(Square::new(16, 5)));
}

#[test]
fn dodge_for_agility_three_is_even() {
    let mut state = two_teams(&[("h1", 15, 5)], &[("a1", 15, 4)]);
    state.procedure = Some(Procedure::MoveAction);
    state.parent_procedure = Some(Procedure::MoveAction);
    state.active_player_id = Some("h1".to_string());
    let registry = ActionRegistry::new();
    registry
        .execute_action(&mut state, &Action::new(ActionType::Move, None, Some(Square::new(16, 6))))
        .unwrap();
    assert_eq!(state.procedure, Some(Procedure::Dodge));
    let outcomes = registry.rollout_chance_outcomes(&state).unwrap();
    assert_eq!(outcomes.len(), 2);
    assert_eq!(outcomes[0].probability, Prob::new(3, 6));
    assert_eq!(outcomes[1].probability, Prob::new(3, 6));
    let direct = dodge_rollout(&state).unwrap();
    assert_eq!(direct[0].resulting_state.get_active_player().unwrap().position, Some(Square::new(16, 6)));
}

#[test]
fn block_dice_weights() {
    let state = two_teams(&[("h1", 15, 5)], &[("a1", 15, 4)]);
    let outcomes = block_roll_rollout(&state);
    let nums: Vec<u64> = outcomes.iter().map(|o| o.probability.num).collect();
    assert_eq!(nums, vec![1, 1, 2, 1, 1]);
    assert!(outcomes.iter().all(|o| o.probability.den == 6));
    assert_eq!(outcomes[2].resulting_state.rolls, vec![ActionType::SelectPush]);
    assert_eq!(outcomes[2].resulting_state.procedure, Some(Procedure::Block));
}

#[test]
fn unknown_procedure_and_action_are_errors() {
    let mut state = two_teams(&[("h1", 15, 5)], &[("a1", 15, 4)]);
    let registry = ActionRegistry::new();
    state.procedure = Some(Procedure::Kickoff);
    assert!(registry.discover_actions(&mut state).is_err());
    state.procedure = None;
    assert!(registry.discover_actions(&mut state).is_err());
    assert!(registry
        .execute_action(&mut state, &Action::new(ActionType::Heads, None, None))
        .is_err());
    state.procedure = Some(Procedure::Turn);
    assert!(registry.rollout_chance_outcomes(&state).is_err());
}

#[test]
fn ejection_offers_a_bribe_only_when_there_is_one() {
    let mut state = two_teams(&[("h1", 15, 5)], &[("a1", 15, 4)]);
    let registry = ActionRegistry::new();
    state.procedure = Some(Procedure::Ejection);
    registry.discover_actions(&mut state).unwrap();
    assert_eq!(state.available_actions.len(), 2);
    state.home_team.as_mut().unwrap().bribes = 0;
    registry.discover_actions(&mut state).unwrap();
    assert_eq!(
        state.available_actions,
        vec![Action::new(ActionType::DontUseBribe, None, None)]
    );
}

#[test]
fn start_blitz_clears_its_flag_and_end_player_turn_resets() {
    let mut state = two_teams(&[("h1", 15, 5)], &[("a1", 20, 4)]);
    let registry = ActionRegistry::new();
    registry
        .execute_action(&mut state, &Action::new(ActionType::StartBlitz, Some("h1".to_string()), None))
        .unwrap();
    assert_eq!(state.procedure, Some(Procedure::BlitzAction));
    assert_eq!(state.parent_procedure, Some(Procedure::BlitzAction));
    assert!(!state.turn_state.unwrap().blitz_available);
    registry
        .execute_action(&mut state, &Action::new(ActionType::EndPlayerTurn, None, None))
        .unwrap();
    assert_eq!(state.procedure, Some(Procedure::Turn));
    assert!(state.active_player_id.is_none());
    assert!(state.get_player(&"h1".to_string()).unwrap().state.used);
    registry.discover_actions(&mut state).unwrap();
    assert_eq!(state.available_actions, vec![Action::new(ActionType::EndTurn, None, None)]);
}

#[test]
fn touchdown_counts_for_the_scorer_only() {
    let mut state = two_teams(&[("h1", 1, 7)], &[("a1", 5, 7)]);
    state.balls = vec![Ball::new(Some(Square::new(1, 7)), true)];
    state.procedure = Some(Procedure::Touchdown);
    let policy = HeuristicValuePolicy::new().unwrap();
    assert_eq!(policy.evaluate(&state), Ok(1_000_000));
    state.current_team_id = Some("away".to_string());
    assert_eq!(policy.evaluate(&state), Ok(-1_000_000));
}

#[test]
fn draws_pick_outcomes_by_running_sums() {
    let ps = vec![Prob::new(1, 6), Prob::new(1, 6), Prob::new(2, 6), Prob::new(1, 6), Prob::new(1, 6)];
    assert_eq!(pick_outcome(&ps, 0), 0);
    assert_eq!(pick_outcome(&ps, 1), 1);
    assert_eq!(pick_outcome(&ps, 2), 2);
    assert_eq!(pick_outcome(&ps, 3), 2);
    assert_eq!(pick_outcome(&ps, 4), 3);
    assert_eq!(pick_outcome(&ps, 5), 4);
}

#[test]
fn interception_offers_standing_opponents_on_the_line() {
    let mut state = two_teams(
        &[("passer", 5, 5), ("catcher", 12, 5)],
        &[("on_line", 8, 5), ("beside", 9, 6), ("far", 8, 10), ("down", 10, 5)],
    );
    state.away_team.as_mut().unwrap().players[3].state.up = false;
    state.procedure = Some(Procedure::Interception);
    state.active_player_id = Some("passer".to_string());
    state.position = Some(Square::new(12, 5));
    let registry = ActionRegistry::new();
    registry.discover_actions(&mut state).unwrap();
    let mut ids: Vec<String> = state
        .available_actions
        .iter()
        .filter(|a| a.action_type == ActionType::SelectPlayer)
        .map(|a| a.player.clone().unwrap())
        .collect();
    ids.sort();
    // (9, 6) neighbours the line but lies outside the bounding box of a pass along y = 5.
    assert_eq!(ids, vec!["on_line".to_string()]);
    assert_eq!(state.available_actions.last().unwrap().action_type, ActionType::SelectNone);
}

#[test]
fn equally_likely_paths_leave_more_movement_first() {
    let state = two_teams(&[("h1", 10, 8)], &[("a1", 25, 2)]);
    let player = state.home_team.as_ref().unwrap().players[0].clone();
    let pathfinder = Pathfinder::new(&state, &player).unwrap();
    let paths = pathfinder.find_all_paths();
    for w in paths.windows(2) {
        let (a, b) = (&w[0], &w[1]);
        let pa = a.prob.num as u128 * b.prob.den as u128;
        let pb = b.prob.num as u128 * a.prob.den as u128;
        assert!(pa >= pb);
        if pa == pb {
            assert!(a.total_cost() <= b.total_cost());
        }
    }
}

#[test]
fn move_onto_an_occupied_square_fails() {
    let mut state = two_teams(&[("h1", 5, 5), ("h2", 6, 5)], &[("a1", 20, 10)]);
    state.balls = vec![Ball::new(Some(Square::new(6, 5)), true)];
    state.procedure = Some(Procedure::MoveAction);
    state.parent_procedure = Some(Procedure::MoveAction);
    state.active_player_id = Some("h1".to_string());
    let registry = ActionRegistry::new();
    let r = registry.execute_action(&mut state, &Action::new(ActionType::Move, None, Some(Square::new(6, 5))));
    assert!(r.is_err());
    assert_eq!(state.get_player(&"h1".to_string()).unwrap().position, Some(Square::new(5, 5)));
}
