use yasa_core::enums::{ActionType, Procedure};
use yasa_core::game::GameState;
use yasa_core::geometry::Square;
use yasa_core::heuristic::{HeuristicValuePolicy, InputBuilder};
use yasa_core::mcts::{MCTSSearch, MCTSTree, NodeType};
use yasa_core::model::{Action, Ball, Player, Team, TurnState};
use yasa_core::prob::Prob;
use yasa_core::registry::ActionRegistry;

const HOME_PLAYER_ID: &str = "home_player_id";
const HOME_TEAM_ID: &str = "home_team_id";
const AWAY_PLAYER_ID: &str = "away_player_id";
const AWAY_TEAM_ID: &str = "away_team_id";

fn game_state_setup(
    home_x: i32,
    home_y: i32,
    away_x: i32,
    away_y: i32,
    ball_x: i32,
    ball_y: i32,
) -> GameState {
    let mut home_team = Team::new(HOME_TEAM_ID.to_string());
    home_team.insert_player(Player {
        player_id: HOME_PLAYER_ID.to_string(),
        position: Some(Square { x: home_x, y: home_y }),
        ma: 4,
        ..Default::default()
    });

    let mut away_team = Team::new(AWAY_TEAM_ID.to_string());
    away_team.insert_player(Player {
        player_id: AWAY_PLAYER_ID.to_string(),
        position: Some(Square { x: away_x, y: away_y }),
        ma: 4,
        ..Default::default()
    });

    GameState {
        home_team: Some(home_team),
        away_team: Some(away_team),
        current_team_id: Some(HOME_TEAM_ID.to_string()),
        procedure: Some(Procedure::Turn),
        balls: vec![Ball::new(Some(Square { x: ball_x, y: ball_y }), false)],
        ..Default::default()
    }
}

fn home_player_mut(state: &mut GameState) -> &mut Player {
    state.home_team.as_mut().unwrap().players.iter_mut().find(|p| p.player_id == HOME_PLAYER_ID).unwrap()
}

#[test]
fn test_mcts_setup() {
    let mut state = game_state_setup(15, 5, 10, 10, 15, 6);
    state.turn_state = Some(TurnState::default());
    let tree = MCTSTree::new(state, 1400).expect("Failed to create MCTS tree.");
    assert!(
        tree.nodes[tree.root_index].state.available_actions.len() > 0,
        "No actions available."
    );
}

#[test]
fn test_mcts_gfi() {
    let mut state = game_state_setup(15, 5, 10, 10, 15, 6);
    state.procedure = Some(Procedure::MoveAction);
    state.active_player_id = Some(HOME_PLAYER_ID.to_string());

    let expected_moves_after_gfi = {
        let active_player = home_player_mut(&mut state);
        active_player.state.moves = active_player.ma;
        active_player.ma + 1
    };

    let mut tree = MCTSTree::new(state, 1400).expect("Failed to create MCTS tree.");

    assert!(
        tree.nodes[tree.root_index].state.available_actions.len() > 0,
        "No actions available."
    );
    let selected_node = tree.select(tree.root_index);
    let expanded_node_idx = tree.expand(selected_node).expect("Failed to expand node.");
    assert!(tree.nodes.len() > 1, "No child nodes created.");

    let expanded_node = &tree.nodes[expanded_node_idx];
    assert_eq!(
        expanded_node.node_type,
        NodeType::Chance,
        "Action not executed correctly. Should be chance node."
    );
    assert_eq!(
        expanded_node.state.procedure,
        Some(Procedure::GFI),
        "Action not executed correctly. Should be GFI procedure."
    );

    tree.expand(expanded_node_idx).expect("Failed to expand node.");
    assert_eq!(tree.nodes.len(), 4, "Node expansion failed.");
    assert_eq!(
        tree.nodes[expanded_node_idx].chance_children.len(),
        2,
        "Chance node expansion failed."
    );

    let chance_children = &tree.nodes[expanded_node_idx].chance_children;
    let mut success_node = None;
    let mut failure_node = None;
    for &child_idx in chance_children {
        let child = &tree.nodes[child_idx];
        if child.state.procedure == Some(Procedure::Turnover) {
            failure_node = Some(child);
        } else {
            success_node = Some(child);
        }
    }

    let success = success_node.expect("Success outcome not found");
    let failure = failure_node.expect("Failure outcome not found");

    assert_eq!(
        success.chance_probability,
        Prob::new(5, 6),
        "Success outcome probability incorrect"
    );
    assert_eq!(
        success.state.procedure,
        Some(Procedure::MoveAction),
        "Success outcome should restore parent procedure (MoveAction)"
    );
    let success_player = success
        .state
        .get_active_player()
        .expect("No active player in success outcome");
    assert_eq!(
        success_player.state.moves, expected_moves_after_gfi,
        "Success outcome should increment moves"
    );
    assert!(
        success_player.state.up,
        "Player should still be standing after successful GFI"
    );

    assert_eq!(
        failure.chance_probability,
        Prob::new(1, 6),
        "Failure outcome probability incorrect"
    );
    assert_eq!(
        failure.state.procedure,
        Some(Procedure::Turnover),
        "Failure outcome should set procedure to Turnover"
    );
    let failure_player = failure
        .state
        .get_active_player()
        .expect("No active player in failure outcome");
    assert!(
        !failure_player.state.up,
        "Player should be knocked down after failed GFI"
    );
}

#[test]
fn test_touchdown() {
    let mut state = game_state_setup(3, 5, 10, 10, 2, 5);
    state.procedure = Some(Procedure::MoveAction);
    state.parent_procedure = Some(Procedure::MoveAction);
    state.active_player_id = Some(HOME_PLAYER_ID.to_string());

    let registry = ActionRegistry::new();
    let evaluator = HeuristicValuePolicy::new().expect("Failed to create heuristic evaluator.");

    let first_score = evaluator.evaluate(&state).expect("Failed to evaluate state.");

    registry
        .discover_actions(&mut state)
        .expect("Failed to discover actions.");
    registry
        .execute_action(
            &mut state,
            &Action::new(ActionType::Move, None, Some(Square { x: 2, y: 5 })),
        )
        .expect("Failed to execute action.");

    assert!(
        state.balls.first().expect("Missing ball").is_carried,
        "Ball not carried."
    );
    let ball_picked_score = evaluator.evaluate(&state).expect("Failed to evaluate state.");
    assert!(ball_picked_score > first_score, "Ball pickup not scoring.");

    registry
        .execute_action(
            &mut state,
            &Action::new(ActionType::Move, None, Some(Square { x: 1, y: 5 })),
        )
        .expect("Failed to execute action.");
    assert_eq!(
        state.home_team.as_ref().unwrap().score,
        1,
        "Home team score not updated."
    );
    assert_eq!(
        state.procedure.unwrap(),
        Procedure::Touchdown,
        "Touchdown not executed."
    );
    let touchdown_score = evaluator.evaluate(&state).expect("Failed to evaluate state.");
    assert!(touchdown_score > ball_picked_score, "Touchdown not scoring.");
}

fn single_move_root() -> GameState {
    let mut state = game_state_setup(15, 5, 25, 12, 14, 5);
    state.turn_state = Some(TurnState {
        blitz: false,
        quick_snap: false,
        blitz_available: false,
        pass_available: false,
        foul_available: false,
        handoff_available: false,
    });
    state
}

#[test]
fn test_mcts_best_action_is_the_move() {
    let state = single_move_root();
    let mut tree = MCTSTree::new(state, 1400).unwrap();
    let root_actions: Vec<ActionType> = tree.nodes[0]
        .untried_actions
        .iter()
        .map(|a| a.action_type)
        .collect();
    assert_eq!(root_actions, vec![ActionType::StartMove, ActionType::EndTurn]);
    for _ in 0..2 {
        tree.run_iteration().unwrap();
    }
    let start_move_child = tree.nodes[0].children[0];
    let end_turn_child = tree.nodes[0].children[1];
    assert_eq!(tree.nodes[start_move_child].visits, 1);
    assert_eq!(tree.nodes[end_turn_child].visits, 1);
    assert!(tree.nodes[start_move_child].total_score >= tree.nodes[end_turn_child].total_score);
    let best = tree.get_best_action().unwrap();
    assert_eq!(best.action_type, ActionType::StartMove);
}

#[test]
fn test_mcts_search_fixed_rounds() {
    let state = single_move_root();
    let mut search = MCTSSearch::with_config(1400, 100);
    let best = search.search(state, 2).unwrap();
    assert_eq!(best.action_type, ActionType::StartMove);
    assert_eq!(search.iterations, 2);
}

#[test]
fn test_mcts_arena_parents_come_first() {
    let mut state = game_state_setup(15, 5, 10, 10, 15, 6);
    state.procedure = Some(Procedure::MoveAction);
    state.active_player_id = Some(HOME_PLAYER_ID.to_string());
    home_player_mut(&mut state).state.moves = 4;
    state.turn_state = Some(TurnState::default());
    let mut tree = MCTSTree::new(state, 1400).unwrap();
    for _ in 0..10 {
        tree.run_iteration().unwrap();
    }
    for (i, node) in tree.nodes.iter().enumerate() {
        if i == 0 {
            assert!(node.parent.is_none());
        } else {
            assert!(node.parent.unwrap() < i);
        }
        if !node.chance_children.is_empty() {
            let den = node.outcome_probs[0].den;
            let total: u64 = node
                .chance_children
                .iter()
                .map(|&c| {
                    assert_eq!(tree.nodes[c].chance_probability.den, den);
                    tree.nodes[c].chance_probability.num
                })
                .sum();
            assert_eq!(total, den);
        }
    }
}

#[test]
fn test_evaluate_stays_in_range() {
    let state = game_state_setup(15, 5, 10, 10, 15, 6);
    let evaluator = HeuristicValuePolicy::new().unwrap();
    let v = evaluator.evaluate(&state).unwrap();
    assert!((-1_000_000..=1_000_000).contains(&v));
    assert_eq!(v, 44 * 300_000 / 45);
    assert_eq!(evaluator.name(), "heuristic");
}

#[test]
fn test_neutral_evaluator() {
    let state = game_state_setup(15, 5, 10, 10, 15, 6);
    let evaluator = yasa_core::heuristic::GameEvaluator::new();
    assert_eq!(evaluator.evaluate(&state), Ok(0));
}

#[test]
fn test_values_for_the_side_on_move() {
    let mut state = game_state_setup(15, 5, 10, 10, 15, 6);
    assert_eq!(InputBuilder::get_value_for_active_team(&state, 250_000), 250_000);
    assert_eq!(InputBuilder::get_active_team_probability(&state, 7, 9), 7);
    state.current_team_id = Some(AWAY_TEAM_ID.to_string());
    assert_eq!(InputBuilder::get_value_for_active_team(&state, 250_000), -250_000);
    assert_eq!(InputBuilder::get_active_team_probability(&state, 7, 9), 9);
    state.current_team_id = Some("nobody".to_string());
    assert_eq!(InputBuilder::get_value_for_active_team(&state, 250_000), 0);
}
