use yasa_core::enums::{ActionType, Procedure};
use yasa_core::game::GameState;
use yasa_core::geometry::Square;
use yasa_core::model::{Action, Ball, Player, Team};
use yasa_core::registry::ActionRegistry;

const HOME_PLAYER_ID: &str = "home_player_id";
const HOME_TEAM_ID: &str = "home_team_id";
const AWAY_PLAYER_ID: &str = "away_player_id";
const AWAY_TEAM_ID: &str = "away_team_id";

fn game_state_setup(
    home_x: i32,
    home_y: i32,
    away_x: i32,
    away_y: i32,
    ball_x: i32,
    ball_y: i32,
) -> GameState {
    let mut home_team = Team::new(HOME_TEAM_ID.to_string());
    home_team.insert_player(Player {
        player_id: HOME_PLAYER_ID.to_string(),
        position: Some(Square { x: home_x, y: home_y }),
        ma: 4,
        ag: 3,
        ..Default::default()
    });

    let mut away_team = Team::new(AWAY_TEAM_ID.to_string());
    away_team.insert_player(Player {
        player_id: AWAY_PLAYER_ID.to_string(),
        position: Some(Square { x: away_x, y: away_y }),
        ma: 4,
        ..Default::default()
    });

    GameState {
        home_team: Some(home_team),
        away_team: Some(away_team),
        current_team_id: Some(HOME_TEAM_ID.to_string()),
        procedure: Some(Procedure::Turn),
        balls: vec![Ball::new(Some(Square { x: ball_x, y: ball_y }), false)],
        ..Default::default()
    }
}

#[test]
fn test_block_rollout() {
    let mut state = game_state_setup(10, 5, 10, 6, 2, 5);
    let registry = ActionRegistry::new();
    let action = Action::new(ActionType::StartBlock, Some(HOME_PLAYER_ID.to_string()), None);
    registry
        .execute_action(&mut state, &action)
        .expect("Block action not executed correctly.");
    assert_eq!(
        state.procedure,
        Some(Procedure::BlockAction),
        "Wrong procedure in state, after Start Block"
    );

    registry
        .discover_actions(&mut state)
        .expect("Failed to discover actions after executing StartBlock actions");
    let action = Action::new(ActionType::Block, None, Some(Square { x: 10, y: 6 }));
    assert!(state.available_actions.contains(&action));

    registry
        .execute_action(&mut state, &action)
        .expect("Failed to execute the block action");

    assert_eq!(
        state.procedure,
        Some(Procedure::BlockRoll),
        "Wrong procedure in state, after executing Block"
    );
    assert!(
        state.block_context.is_some(),
        "Block context should be initialized after Block"
    );
    let block_ctx = state.block_context.as_ref().unwrap();
    assert_eq!(
        block_ctx.attacker,
        HOME_PLAYER_ID.to_string(),
        "Wrong attacker in block context, after executing Block"
    );
    assert_eq!(
        block_ctx.defender,
        AWAY_PLAYER_ID.to_string(),
        "Wrong defender in block context, after executing Block"
    );
    assert_eq!(
        block_ctx.position,
        Square::new(10, 6),
        "Wrong position in block context, after executing Block"
    );

    let results = registry
        .rollout_chance_outcomes(&state)
        .expect("Block rollout failed.");
    assert_eq!(results.len(), 5, "Dice have 5 outcomes");
}

#[test]
fn test_block_defender_down() {
    let mut state = game_state_setup(10, 5, 10, 6, 2, 5);
    let registry = ActionRegistry::new();
    let action = Action::new(ActionType::StartBlock, Some(HOME_PLAYER_ID.to_string()), None);
    registry
        .execute_action(&mut state, &action)
        .expect("Block action not executed correctly.");

    let action = Action::new(ActionType::Block, None, Some(Square { x: 10, y: 6 }));
    registry
        .execute_action(&mut state, &action)
        .expect("Failed to execute the block action");

    let results = registry
        .rollout_chance_outcomes(&state)
        .expect("Block rollout failed.");

    let mut state = results
        .into_iter()
        .find(|outcome| {
            outcome
                .resulting_state
                .rolls
                .contains(&ActionType::SelectDefenderDown)
        })
        .expect("Missing state with Defender down outcome")
        .resulting_state;
    assert_eq!(
        state.procedure,
        Some(Procedure::Block),
        "Wrong procedure in state, after executing Block"
    );
    registry
        .discover_actions(&mut state)
        .expect("Failed to discover actions");

    registry
        .execute_action(&mut state, &Action::new(ActionType::SelectDefenderDown, None, None))
        .expect("Failed to execute action SelectDefenderDown");

    registry
        .discover_actions(&mut state)
        .expect("Failed to discover actions");

    assert_eq!(
        state.available_actions.len(),
        3,
        "Wrong number of actions after SelectDefenderDown"
    );

    registry
        .execute_action(
            &mut state,
            &Action::new(ActionType::Push, None, Some(Square { x: 11, y: 7 })),
        )
        .expect("Failed to execute action Push");

    registry
        .discover_actions(&mut state)
        .expect("Failed to discover actions");

    assert_eq!(
        state.available_actions.len(),
        2,
        "Wrong number of actions after Push"
    );
    assert_eq!(
        state.procedure,
        Some(Procedure::FollowUp),
        "Wrong procedure in state, after executing Push"
    );

    registry
        .execute_action(
            &mut state,
            &Action::new(ActionType::FollowUp, None, Some(Square { x: 10, y: 5 })),
        )
        .expect("Failed to execute action FollowUp");

    assert_eq!(
        state.procedure,
        Some(Procedure::Turn),
        "Wrong procedure in state, after executing FollowUp"
    );

    let home_player = state
        .get_player(&HOME_PLAYER_ID.to_string())
        .expect("Missing Home Player");

    assert!(home_player.state.up, "Player must be standing");
    assert!(home_player.state.has_blocked, "Player must have blocked");
    assert_eq!(
        home_player.position,
        Some(Square { x: 10, y: 5 }),
        "Home Player must be at the correct position"
    );

    let away_player = state
        .get_player(&AWAY_PLAYER_ID.to_string())
        .expect("Missing Home Player");

    assert!(away_player.state.knocked_out, "Player must be knocked out");
    assert_eq!(
        away_player.position,
        Some(Square { x: 11, y: 7 }),
        "Away Player must be at the correct position"
    );
}

#[test]
fn test_chain_push_two_players() {
    let mut state = game_state_setup(8, 6, 7, 7, 3, 3);
    let registry = ActionRegistry::new();

    if let Some(ref mut away_team) = state.away_team {
        for (id, x, y) in [("away_player_2", 6, 7), ("away_player_3", 6, 8), ("away_player_4", 7, 8)] {
            away_team.insert_player(Player {
                player_id: id.to_string(),
                position: Some(Square { x, y }),
                ..Default::default()
            });
        }
    }

    state.current_team_id = Some(HOME_TEAM_ID.to_string());
    state.active_player_id = Some(HOME_PLAYER_ID.to_string());
    state.procedure = Some(Procedure::BlockAction);

    registry
        .discover_actions(&mut state)
        .expect("Failed to discover block actions");

    let block_action = Action::new(ActionType::Block, None, Some(Square { x: 7, y: 7 }));
    assert!(state.available_actions.contains(&block_action));

    registry
        .execute_action(&mut state, &block_action)
        .expect("Failed to execute block");

    assert_eq!(state.procedure, Some(Procedure::BlockRoll));

    let outcomes = registry.rollout_chance_outcomes(&state).unwrap();
    let mut state = outcomes
        .into_iter()
        .find(|outcome| {
            outcome
                .resulting_state
                .rolls
                .contains(&ActionType::SelectDefenderDown)
        })
        .expect("Missing Defender Down outcome")
        .resulting_state;

    registry.discover_actions(&mut state).unwrap();
    let defender_down = Action::new(ActionType::SelectDefenderDown, None, None);
    registry.execute_action(&mut state, &defender_down).unwrap();

    assert_eq!(state.procedure, Some(Procedure::Push));
    assert!(state.block_context.as_ref().unwrap().knock_out);

    registry.discover_actions(&mut state).unwrap();
    let push_action = Action::new(ActionType::Push, None, Some(Square { x: 6, y: 7 }));
    assert!(
        state.available_actions.contains(&push_action),
        "Push to occupied square should be available. Available actions: {:?}",
        state.available_actions
    );
    registry.execute_action(&mut state, &push_action).unwrap();

    assert_eq!(state.procedure, Some(Procedure::Push));
    registry.discover_actions(&mut state).unwrap();

    let chain_push_action = Action::new(ActionType::Push, None, Some(Square { x: 5, y: 7 }));
    assert!(
        state.available_actions.contains(&chain_push_action),
        "Push to empty square should be available. Available actions: {:?}",
        state.available_actions
    );
    registry
        .execute_action(&mut state, &chain_push_action)
        .unwrap();
    assert_eq!(state.procedure, Some(Procedure::FollowUp));

    let follow_up_action = Action::new(ActionType::FollowUp, None, Some(Square { x: 7, y: 7 }));
    registry
        .execute_action(&mut state, &follow_up_action)
        .unwrap();
    assert_eq!(state.procedure, Some(Procedure::Turn));

    let home_player = state
        .get_player(&HOME_PLAYER_ID.to_string())
        .expect("Missing Home Player");
    assert_eq!(home_player.position, Some(Square { x: 7, y: 7 }));
    assert!(home_player.state.up);
    assert!(home_player.state.has_blocked);

    let away_player_1 = state
        .get_player(&AWAY_PLAYER_ID.to_string())
        .expect("Missing Away Player 1");
    assert_eq!(away_player_1.position, Some(Square { x: 6, y: 7 }));
    assert!(away_player_1.state.knocked_out);

    let away_player_2 = state
        .get_player(&"away_player_2".to_string())
        .expect("Missing Away Player 2");
    assert_eq!(away_player_2.position, Some(Square { x: 5, y: 7 }));
}

#[test]
fn test_push_into_touchdown() {
    let mut state = game_state_setup(2, 7, 3, 7, 2, 7);

    state.balls[0].is_carried = true;

    state.current_team_id = Some(AWAY_TEAM_ID.to_string());
    state.active_player_id = Some(AWAY_PLAYER_ID.to_string());
    state.procedure = Some(Procedure::BlockAction);

    let registry = ActionRegistry::new();

    registry.discover_actions(&mut state).unwrap();
    let block_action = Action::new(ActionType::Block, None, Some(Square { x: 2, y: 7 }));
    assert!(state.available_actions.contains(&block_action));
    registry.execute_action(&mut state, &block_action).unwrap();

    let outcomes = registry.rollout_chance_outcomes(&state).unwrap();
    let mut state = outcomes
        .into_iter()
        .find(|outcome| {
            outcome
                .resulting_state
                .rolls
                .contains(&ActionType::SelectPush)
        })
        .expect("Missing Push outcome")
        .resulting_state;

    registry.discover_actions(&mut state).unwrap();
    let push_select = Action::new(ActionType::SelectPush, None, None);
    registry.execute_action(&mut state, &push_select).unwrap();

    registry.discover_actions(&mut state).unwrap();
    let push_dir = Action::new(ActionType::Push, None, Some(Square { x: 1, y: 7 }));
    assert!(
        state.available_actions.contains(&push_dir),
        "Push to 1,7 should be available"
    );

    registry.execute_action(&mut state, &push_dir).unwrap();

    assert_eq!(state.procedure, Some(Procedure::Touchdown));
    let home_score = state.home_team.as_ref().unwrap().score;
    assert_eq!(home_score, 1);
    assert_eq!(state.balls[0].position, Some(Square { x: 1, y: 7 }));
}

#[test]
fn test_push_out_of_bounds_is_an_error() {
    let mut state = game_state_setup(2, 7, 1, 7, 20, 7);
    let registry = ActionRegistry::new();
    state.active_player_id = Some(HOME_PLAYER_ID.to_string());
    state.procedure = Some(Procedure::BlockAction);
    registry.discover_actions(&mut state).unwrap();
    registry
        .execute_action(&mut state, &Action::new(ActionType::Block, None, Some(Square::new(1, 7))))
        .unwrap();
    let outcomes = registry.rollout_chance_outcomes(&state).unwrap();
    let mut state = outcomes
        .into_iter()
        .find(|o| o.resulting_state.rolls.contains(&ActionType::SelectPush))
        .unwrap()
        .resulting_state;
    registry
        .execute_action(&mut state, &Action::new(ActionType::SelectPush, None, None))
        .unwrap();
    registry.discover_actions(&mut state).unwrap();
    assert!(state
        .available_actions
        .iter()
        .all(|a| a.position.map(|p| p.x == 0).unwrap_or(false)));
    let before_procedure = state.procedure;
    let r = registry.execute_action(&mut state, &Action::new(ActionType::Push, None, Some(Square::new(0, 7))));
    assert!(r.is_err());
    assert_eq!(state.procedure, before_procedure);
}
