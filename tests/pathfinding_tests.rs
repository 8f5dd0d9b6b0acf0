use yasa_core::enums::WeatherType;
use yasa_core::game::GameState;
use yasa_core::geometry::Square;
use yasa_core::model::{Ball, Player, PlayerState, Team};
use yasa_core::pathfinding::Pathfinder;

fn prob_value(num: u64, den: u64) -> f64 {
    num as f64 / den as f64
}

fn create_test_game_state() -> GameState {
    let mut game_state = GameState::default();

    let mut home_team = Team::new("home".to_string());
    home_team.bribes = 0;

    let player = Player {
        player_id: "player1".to_string(),
        ma: 6,
        st: 3,
        ag: 3,
        av: 8,
        position: Some(Square::new(5, 5)),
        state: PlayerState::default(),
        ..Default::default()
    };
    home_team.insert_player(player);

    let mut away_team = Team::new("away".to_string());
    away_team.bribes = 0;

    game_state.home_team = Some(home_team);
    game_state.away_team = Some(away_team);
    game_state.current_team_id = Some("home".to_string());

    game_state
}

fn add_opponent_at(game_state: &mut GameState, pos: Square, id: &str) {
    if let Some(away_team) = &mut game_state.away_team {
        let opponent = Player {
            player_id: id.to_string(),
            ma: 6,
            st: 3,
            ag: 3,
            av: 8,
            position: Some(pos),
            state: PlayerState::default(),
            ..Default::default()
        };
        away_team.insert_player(opponent);
    }
}

fn player1(game_state: &GameState) -> &Player {
    game_state
        .home_team
        .as_ref()
        .unwrap()
        .players
        .iter()
        .find(|p| p.player_id == "player1")
        .unwrap()
}

fn set_player1_moves(game_state: &mut GameState, moves: u8) {
    let team = game_state.home_team.as_mut().unwrap();
    let p = team.players.iter_mut().find(|p| p.player_id == "player1").unwrap();
    p.state.moves = moves;
}

#[test]
fn test_pathfinder_new() {
    let game_state = create_test_game_state();
    let player = player1(&game_state);

    let pathfinder = Pathfinder::new(&game_state, player);
    assert!(pathfinder.is_ok());
}

#[test]
fn test_pathfinder_no_position() {
    let mut game_state = create_test_game_state();
    if let Some(home_team) = &mut game_state.home_team {
        home_team.players[0].position = None;
    }
    let player = player1(&game_state);

    let pathfinder = Pathfinder::new(&game_state, player);
    assert!(pathfinder.is_err());
}

#[test]
fn test_find_all_paths_empty_field() {
    let game_state = create_test_game_state();
    let pathfinder = Pathfinder::new(&game_state, player1(&game_state)).unwrap();
    let paths = pathfinder.find_all_paths();

    assert!(!paths.is_empty());
    for path in &paths {
        if path.gfis_used == 0 {
            assert!(
                (prob_value(path.prob.num, path.prob.den) - 1.0).abs() < 0.001,
                "Path to {:?} should have prob 1.0, got {}",
                path.target,
                prob_value(path.prob.num, path.prob.den)
            );
        }
    }
}

#[test]
fn test_find_all_paths_max_distance() {
    let game_state = create_test_game_state();
    let pathfinder = Pathfinder::new(&game_state, player1(&game_state)).unwrap();
    let paths = pathfinder.find_all_paths();

    let max_distance = paths
        .iter()
        .map(|p| p.target.distance(&Square::new(5, 5)))
        .max()
        .unwrap_or(0);

    assert!(
        max_distance >= 6,
        "Should reach at least 6 squares away, got {}",
        max_distance
    );
}

#[test]
fn test_find_all_paths_with_gfi() {
    let game_state = create_test_game_state();
    let pathfinder = Pathfinder::new(&game_state, player1(&game_state)).unwrap();
    let paths = pathfinder.find_all_paths();

    let gfi_paths: Vec<_> = paths.iter().filter(|p| p.gfis_used > 0).collect();
    assert!(!gfi_paths.is_empty(), "Should have paths using GFI");

    for path in gfi_paths {
        let prob = prob_value(path.prob.num, path.prob.den);
        assert!(prob < 1.0, "GFI path should have prob < 1.0");
        let expected_prob = (5.0 / 6.0_f64).powi(path.gfis_used as i32);
        assert!(
            (prob - expected_prob).abs() < 0.001,
            "Path with {} GFIs should have prob {}, got {}",
            path.gfis_used,
            expected_prob,
            prob
        );
    }
}

#[test]
fn test_find_all_paths_with_dodge() {
    let mut game_state = create_test_game_state();
    add_opponent_at(&mut game_state, Square::new(5, 4), "opp1");
    let pathfinder = Pathfinder::new(&game_state, player1(&game_state)).unwrap();
    let paths = pathfinder.find_all_paths();

    let dodging_paths: Vec<_> = paths
        .iter()
        .filter(|p| prob_value(p.prob.num, p.prob.den) < 1.0 && p.gfis_used == 0)
        .collect();

    assert!(
        !dodging_paths.is_empty(),
        "Should have paths requiring dodges"
    );
}

#[test]
fn test_find_path_to_specific_target() {
    let game_state = create_test_game_state();
    let pathfinder = Pathfinder::new(&game_state, player1(&game_state)).unwrap();
    let target = Square::new(8, 5);
    let path = pathfinder.find_path_to(target);

    assert!(path.is_some(), "Should find path to {:?}", target);
    let path = path.unwrap();
    assert_eq!(path.target, target);
    assert_eq!(path.squares.len(), 3);
}

#[test]
fn test_find_path_to_unreachable() {
    let game_state = create_test_game_state();
    let pathfinder = Pathfinder::new(&game_state, player1(&game_state)).unwrap();
    let target = Square::new(20, 5);
    let path = pathfinder.find_path_to(target);

    assert!(path.is_none(), "Should not find path to unreachable target");
}

#[test]
fn test_paths_avoid_occupied_squares() {
    let mut game_state = create_test_game_state();
    add_opponent_at(&mut game_state, Square::new(6, 5), "opp1");
    let pathfinder = Pathfinder::new(&game_state, player1(&game_state)).unwrap();

    let blocked_path = pathfinder.find_path_to(Square::new(6, 5));
    assert!(blocked_path.is_none(), "Should not path through opponent");

    let around_path = pathfinder.find_path_to(Square::new(7, 5));
    assert!(around_path.is_some(), "Should find path around opponent");
}

#[test]
fn test_paths_sorted_by_probability() {
    let mut game_state = create_test_game_state();
    add_opponent_at(&mut game_state, Square::new(4, 4), "opp1");
    let pathfinder = Pathfinder::new(&game_state, player1(&game_state)).unwrap();
    let paths = pathfinder.find_all_paths();

    for window in paths.windows(2) {
        assert!(
            prob_value(window[0].prob.num, window[0].prob.den)
                >= prob_value(window[1].prob.num, window[1].prob.den),
            "Paths should be sorted by probability desc"
        );
    }
}

#[test]
fn test_ball_pickup_path() {
    let mut game_state = create_test_game_state();
    game_state.balls.push(Ball {
        position: Some(Square::new(7, 5)),
        is_carried: false,
    });
    let pathfinder = Pathfinder::new(&game_state, player1(&game_state)).unwrap();
    let path = pathfinder.find_path_to(Square::new(7, 5));

    assert!(path.is_some());
    let path = path.unwrap();
    assert!(
        path.picks_up_ball,
        "Path to ball should set picks_up_ball flag"
    );
}

#[test]
fn test_dodge_probability_calculation() {
    let mut game_state = create_test_game_state();
    add_opponent_at(&mut game_state, Square::new(5, 4), "opp1");
    let pathfinder = Pathfinder::new(&game_state, player1(&game_state)).unwrap();

    let path_to_clear = pathfinder.find_path_to(Square::new(6, 6));
    assert!(path_to_clear.is_some());
    let path = path_to_clear.unwrap();
    assert!(
        prob_value(path.prob.num, path.prob.den) < 1.0,
        "Path requiring dodge should have prob < 1.0"
    );
}

#[test]
fn test_blizzard_affects_gfi() {
    let mut game_state = create_test_game_state();
    game_state.weather = WeatherType::Blizzard;
    let pathfinder = Pathfinder::new(&game_state, player1(&game_state)).unwrap();
    let paths = pathfinder.find_all_paths();

    let gfi_path = paths.iter().find(|p| p.gfis_used == 1);
    assert!(gfi_path.is_some());

    let path = gfi_path.unwrap();
    let expected_prob = 4.0 / 6.0;
    let prob = prob_value(path.prob.num, path.prob.den);
    assert!(
        (prob - expected_prob).abs() < 0.01,
        "Blizzard GFI should be 4+, expected prob {}, got {}",
        expected_prob,
        prob
    );
}

#[test]
fn test_player_with_moves_already_used() {
    let mut game_state = create_test_game_state();
    set_player1_moves(&mut game_state, 4);
    let pathfinder = Pathfinder::new(&game_state, player1(&game_state)).unwrap();
    let paths = pathfinder.find_all_paths();

    let max_distance = paths
        .iter()
        .map(|p| p.target.distance(&Square::new(5, 5)))
        .max()
        .unwrap_or(0);

    assert!(
        max_distance <= 4,
        "With 2 MA + 2 GFI, should not exceed 4 squares, got {}",
        max_distance
    );
}

#[test]
fn test_unique_paths_per_target() {
    let game_state = create_test_game_state();
    let pathfinder = Pathfinder::new(&game_state, player1(&game_state)).unwrap();
    let paths = pathfinder.find_all_paths();

    let mut targets = std::collections::HashSet::new();
    for path in &paths {
        assert!(
            targets.insert(path.target),
            "Duplicate path to {:?}",
            path.target
        );
    }
}

#[test]
fn test_player_with_all_ma_and_one_gfi_used() {
    let mut game_state = create_test_game_state();
    set_player1_moves(&mut game_state, 7);
    let pathfinder = Pathfinder::new(&game_state, player1(&game_state)).unwrap();
    let paths = pathfinder.find_all_paths();

    let max_distance = paths
        .iter()
        .map(|p| p.target.distance(&Square::new(5, 5)))
        .max()
        .unwrap_or(0);

    assert!(
        max_distance <= 1,
        "With 7 moves used (MA=6), should only move 1 more square (last GFI), got {}",
        max_distance
    );

    for path in paths {
        if path.len() > 0 {
            assert_eq!(path.moves_used, 6, "Should report 6 MA used");
            assert_eq!(path.gfis_used, 2, "Should report 2 GFIs used");
        }
    }
}

#[test]
fn test_player_with_excessive_moves_used() {
    let mut game_state = create_test_game_state();
    set_player1_moves(&mut game_state, 10);
    let pathfinder = Pathfinder::new(&game_state, player1(&game_state)).unwrap();
    let paths = pathfinder.find_all_paths();

    let max_distance = paths
        .iter()
        .map(|p| p.target.distance(&Square::new(5, 5)))
        .max()
        .unwrap_or(0);

    assert_eq!(
        max_distance, 0,
        "Should not be able to move with excessive moves used"
    );
}
