use crate::discovery::{aimed_at, append_actions, attack_ready, key, keys, opponents_near_active, push_action, with_actions};
use crate::enums::ActionType;

use crate::game::{active_carries, active_player, filter_upto, next_to, own_team, some_off_pitch, team_players, GameState, GameStateView};
use crate::geometry::{pass_category, Square, ARENA_HEIGHT, ARENA_WIDTH, PASS_MATRIX};
use crate::model::{Action, ActionKey, Player, PlayerView};
use crate::pathfinding::{inside, Pathfinder};
use vstd::prelude::*;

verus! {

/// The actions that move discovery offers in `s` when no path is being walked: `StandUp`
/// first for a prone player, then one `Move` per path that the search for the active player
/// returns, in its order, and `EndPlayerTurn` last.
pub open spec fn move_menu(s: GameStateView, m: Seq<ActionKey>) -> bool {
    let p = active_player(s).unwrap();
    let stand = if p.state.up {
        Seq::<ActionKey>::empty()
    } else {
        seq![key(ActionType::StandUp, None, None)]
    };
    exists|pf: Pathfinder, paths: Seq<crate::model::Path>|
        crate::pathfinding::pathfinder_of(pf, s, p) && crate::pathfinding::paths_found(pf, paths)
            && m == stand + moves_along(paths) + seq![key(ActionType::EndPlayerTurn, None, None)]
}

/// One `Move` per path, onto its target, in the order of the paths.
pub open spec fn moves_along(paths: Seq<crate::model::Path>) -> Seq<ActionKey> {
    paths.map_values(|p: crate::model::Path| key(ActionType::Move, None, Some(p.target)))
}

/// The actions of move discovery while a path is being walked: its next step, or
/// `EndPlayerTurn` once it is complete.
pub open spec fn walking_menu(s: GameStateView) -> Seq<ActionKey> {
    let ap = s.active_path.unwrap();
    if ap.current_step < ap.path.squares.len() {
        seq![key(ActionType::Move, None, Some(ap.path.squares[ap.current_step as int]))]
    } else {
        seq![key(ActionType::EndPlayerTurn, None, None)]
    }
}

/// Whether move discovery can run: an active player on the pitch and a team on move.
pub open spec fn move_ready(s: GameStateView) -> bool {
    &&& active_player(s) is Some
    &&& active_player(s).unwrap().position is Some
    &&& s.current_team_id is Some
}

/// The actions of move discovery in `s`.
pub open spec fn move_discovered(s: GameStateView, m: Seq<ActionKey>) -> bool {
    if s.active_path is Some {
        m == walking_menu(s)
    } else {
        move_menu(s, m)
    }
}

/// The move actions of the active player: only the next step while a path is being walked;
/// otherwise `StandUp` for a prone player, a `Move` along the best path to each reachable
/// square, likeliest first, and `EndPlayerTurn`.
pub fn move_discovery(game_state: &mut GameState) -> (r: Result<(), String>)
    ensures
        r is Ok <==> move_ready(old(game_state)@),
        r is Ok ==> exists|m: Seq<ActionKey>|
            move_discovered(old(game_state)@, m) && final(game_state)@ == with_actions(
                old(game_state)@,
                m,
            ),
        r is Err ==> final(game_state)@ == old(game_state)@,
{
    match move_actions(game_state) {
        Ok(v) => {
            let ghost m = keys(v@);
            game_state.available_actions = v;
            proof {
                assert(move_discovered(old(game_state)@, m));
            }
            Ok(())
        },
        Err(e) => Err(e),
    }
}

/// The actions of move discovery, without storing them.
fn move_actions(game_state: &GameState) -> (r: Result<Vec<Action>, String>)
    ensures
        r is Ok <==> move_ready(game_state@),
        r matches Ok(v) ==> move_discovered(game_state@, keys(v@)),
{
    let player = match game_state.get_active_player() {
        Ok(p) => p,
        Err(e) => {
            return Err(e);
        },
    };
    if player.position.is_none() {
        return Err("Active player has no position".to_string());
    }
    let mut v: Vec<Action> = Vec::new();
    match &game_state.active_path {
        Some(ap) => {
            if game_state.current_team_id.is_none() {
                return Err("No current team id".to_string());
            }
            match ap.next_square() {
                Some(sq) => push_action(&mut v, Action::new(ActionType::Move, None, Some(sq))),
                None => push_action(&mut v, Action::new(ActionType::EndPlayerTurn, None, None)),
            }
            proof {
                assert(keys(v@) =~= walking_menu(game_state@));
            }
            return Ok(v);
        },
        None => {},
    }
    if !player.state.up {
        push_action(&mut v, Action::new(ActionType::StandUp, None, None));
    }
    let pf = match Pathfinder::new(game_state, player) {
        Ok(pf) => pf,
        Err(e) => {
            return Err(e);
        },
    };
    let paths = pf.find_all_paths();
    let ghost k0 = keys(v@);
    proof {
        if player.state.up {
            assert(k0 =~= Seq::<ActionKey>::empty());
        } else {
            assert(k0 =~= seq![key(ActionType::StandUp, None, None)]);
        }
    }
    let mut i: usize = 0;
    while i < paths.len()
        invariant
            i <= paths@.len(),
            keys(v@) == k0 + moves_along(paths@.subrange(0, i as int)),
        decreases paths@.len() - i,
    {
        let path = paths[i].clone();
        let target = path.target;
        let ghost before = keys(v@);
        push_action(&mut v, Action::with_path(ActionType::Move, Some(target), path));
        proof {
            assert(moves_along(paths@.subrange(0, i + 1)) =~= moves_along(paths@.subrange(0, i as int)).push(
                key(ActionType::Move, None, Some(paths@[i as int].target)),
            ));
            assert(keys(v@) =~= k0 + moves_along(paths@.subrange(0, i + 1)));
        }
        i = i + 1;
    }
    push_action(&mut v, Action::new(ActionType::EndPlayerTurn, None, None));
    proof {
        assert(paths@.subrange(0, paths@.len() as int) =~= paths@);
        assert(keys(v@) =~= k0 + moves_along(paths@) + seq![key(ActionType::EndPlayerTurn, None, None)]);
        assert(crate::pathfinding::pathfinder_of(pf, game_state@, player@));
    }
    Ok(v)
}

/// Every player kept by `filter_upto` satisfies the filter.
pub proof fn lemma_filter_upto_members(ps: Seq<PlayerView>, f: spec_fn(PlayerView) -> bool, n: int)
    requires
        0 <= n <= ps.len(),
    ensures
        forall|i: int|
            0 <= i < filter_upto(ps, f, n).len() ==> f(#[trigger] filter_upto(ps, f, n)[i]),
        filter_upto(ps, f, n).len() <= n,
    decreases n,
{
    if n > 0 {
        lemma_filter_upto_members(ps, f, n - 1);
    }
}

/// The players of the team on move next to the active player.
pub open spec fn teammates_near_active(s: GameStateView) -> Seq<PlayerView> {
    let id = s.current_team_id.unwrap();
    let ps = team_players(own_team(s, id));
    filter_upto(ps, next_to(active_player(s).unwrap().position.unwrap()), ps.len() as int)
}

/// The opponents of the team on move next to the active player.
pub open spec fn opponents_of_active(s: GameStateView) -> Seq<PlayerView> {
    crate::discovery::adjacent_opponents(
        s,
        s.current_team_id.unwrap(),
        active_player(s).unwrap().position.unwrap(),
    )
}

/// The hand-offs put in front of the move actions: one to each standing team-mate next to
/// the active player while it holds the ball; `None` when the team cannot be looked at.
pub open spec fn handoff_prefix(s: GameStateView) -> Option<Seq<ActionKey>> {
    if !active_carries(s) {
        Some(Seq::empty())
    } else if own_team(s, s.current_team_id.unwrap()) is None || some_off_pitch(
        team_players(own_team(s, s.current_team_id.unwrap())),
    ) {
        None
    } else {
        Some(aimed_at(teammates_near_active(s), ActionType::Handoff, true))
    }
}

/// The blocks put in front of the move actions in a blitz: one on each standing opponent
/// next to the active player while it has not blocked and has the movement for it, one
/// square or four when it must stand up first, within its allowance and two go-for-it
/// rolls; `None` when the opponents cannot be looked at.
pub open spec fn blitz_prefix(s: GameStateView) -> Option<Seq<ActionKey>> {
    let p = active_player(s).unwrap();
    let needed: int = if p.state.up {
        1
    } else {
        4
    };
    if p.state.has_blocked || p.state.moves + needed > crate::model::clamp_stat(p.ma) + 2 {
        Some(Seq::empty())
    } else if crate::discovery::adjacency_fails(s, s.current_team_id.unwrap()) {
        None
    } else {
        Some(aimed_at(opponents_of_active(s), ActionType::Block, true))
    }
}

/// Move discovery, with a `Handoff` to each standing team-mate next to the active player put
/// in front while it holds the ball.
pub fn handoff_discovery(game_state: &mut GameState) -> (r: Result<(), String>)
    ensures
        r is Ok <==> move_ready(old(game_state)@) && handoff_prefix(old(game_state)@) is Some,
        r is Ok ==> exists|m: Seq<ActionKey>|
            move_discovered(old(game_state)@, m) && final(game_state)@ == with_actions(
                old(game_state)@,
                handoff_prefix(old(game_state)@).unwrap() + m,
            ),
        r is Err ==> final(game_state)@ == old(game_state)@,
{
    let base = match move_actions(game_state) {
        Ok(v) => v,
        Err(e) => {
            return Err(e);
        },
    };
    let mut v: Vec<Action> = Vec::new();
    proof {
        assert(keys(v@) =~= Seq::<ActionKey>::empty());
    }
    if game_state.is_active_player_carrying_ball() {
        let team_id = game_state.current_team_id.as_ref().unwrap();
        let pos = game_state.get_active_player().unwrap().position.unwrap();
        let mates = match game_state.get_adjacent_teammates(team_id, &pos) {
            Ok(m) => m,
            Err(e) => {
                return Err(e);
            },
        };
        crate::discovery::push_aimed(&mut v, &mates, ActionType::Handoff, true);
        proof {
            assert(keys(v@) =~= aimed_at(teammates_near_active(old(game_state)@), ActionType::Handoff, true));
        }
    }
    let ghost m = keys(base@);
    append_actions(&mut v, base);
    game_state.available_actions = v;
    proof {
        assert(move_discovered(old(game_state)@, m));
    }
    Ok(())
}

/// Move discovery, with a `Block` on each standing opponent next to the active player put in
/// front while it has not blocked and has the movement for it.
pub fn blitz_discovery(game_state: &mut GameState) -> (r: Result<(), String>)
    ensures
        r is Ok <==> move_ready(old(game_state)@) && blitz_prefix(old(game_state)@) is Some,
        r is Ok ==> exists|m: Seq<ActionKey>|
            move_discovered(old(game_state)@, m) && final(game_state)@ == with_actions(
                old(game_state)@,
                blitz_prefix(old(game_state)@).unwrap() + m,
            ),
        r is Err ==> final(game_state)@ == old(game_state)@,
{
    let base = match move_actions(game_state) {
        Ok(v) => v,
        Err(e) => {
            return Err(e);
        },
    };
    let mut v: Vec<Action> = Vec::new();
    proof {
        assert(keys(v@) =~= Seq::<ActionKey>::empty());
    }
    let player = game_state.get_active_player().unwrap();
    if !player.state.has_blocked {
        let needed: u16 = if player.state.up {
            1
        } else {
            4
        };
        if player.state.moves as u16 + needed <= player.get_ma() as u16 + 2 {
            let team_id = game_state.current_team_id.as_ref().unwrap();
            let pos = player.position.unwrap();
            match game_state.get_adjacent_opponents(team_id, &pos) {
                Ok(adj) => {
                    crate::discovery::push_aimed(&mut v, &adj, ActionType::Block, true);
                    proof {
                        assert(keys(v@) =~= aimed_at(opponents_of_active(old(game_state)@), ActionType::Block, true));
                    }
                },
                Err(e) => {
                    return Err(e);
                },
            }
        }
    }
    let ghost m = keys(base@);
    append_actions(&mut v, base);
    game_state.available_actions = v;
    proof {
        assert(move_discovered(old(game_state)@, m));
    }
    Ok(())
}

/// Move discovery, with a `Foul` on each prone opponent next to the active player put in
/// front. A player that has blocked cannot foul.
pub fn foul_discovery(game_state: &mut GameState) -> (r: Result<(), String>)
    ensures
        r is Ok <==> move_ready(old(game_state)@) && attack_ready(old(game_state)@),
        r is Ok ==> exists|m: Seq<ActionKey>|
            move_discovered(old(game_state)@, m) && final(game_state)@ == with_actions(
                old(game_state)@,
                aimed_at(opponents_near_active(old(game_state)@), ActionType::Foul, false) + m,
            ),
        r is Err ==> final(game_state)@ == old(game_state)@,
{
    let base = match move_actions(game_state) {
        Ok(v) => v,
        Err(e) => {
            return Err(e);
        },
    };
    let adj = match crate::discovery::opponents_near_active_exec(game_state) {
        Ok(adj) => adj,
        Err(e) => {
            return Err(e);
        },
    };
    let mut v: Vec<Action> = Vec::new();
    proof {
        assert(keys(v@) =~= Seq::<ActionKey>::empty());
    }
    crate::discovery::push_aimed(&mut v, &adj, ActionType::Foul, false);
    proof {
        assert(keys(v@) =~= Seq::<ActionKey>::empty() + aimed_at(adj@.map_values(|p: Player| p@), ActionType::Foul, false));
    }
    let ghost m = keys(base@);
    append_actions(&mut v, base);
    game_state.available_actions = v;
    proof {
        assert(move_discovered(old(game_state)@, m));
    }
    Ok(())
}

/// The squares a pass from `from` may aim at: inside the border, other than `from`, and
/// at most a long bomb away.
pub open spec fn pass_target(from: Square, to: Square) -> bool {
    let dx = crate::geometry::abs(from.x - to.x);
    let dy = crate::geometry::abs(from.y - to.y);
    &&& inside(to)
    &&& to != from
    &&& dx < 14
    &&& dy < 14
    &&& 1 <= pass_category(dx, dy) <= 4
}

/// The pass distance of a table category.
pub open spec fn category_distance(c: int) -> Option<crate::enums::PassDistance> {
    if c == 1 {
        Some(crate::enums::PassDistance::QuickPass)
    } else if c == 2 {
        Some(crate::enums::PassDistance::ShortPass)
    } else if c == 3 {
        Some(crate::enums::PassDistance::LongPass)
    } else if c == 4 {
        Some(crate::enums::PassDistance::LongBomb)
    } else if c == 5 {
        Some(crate::enums::PassDistance::HailMary)
    } else {
        None
    }
}

/// The distance category of a pass from `from` to `to`, looked up by the differences of
/// the coordinates; none beyond the table.
pub fn get_pass_distance(from: &Square, to: &Square) -> (r: Option<crate::enums::PassDistance>)
    ensures
        r == ({
            let dx = crate::geometry::abs(from.x - to.x);
            let dy = crate::geometry::abs(from.y - to.y);
            if dx < 14 && dy < 14 {
                category_distance(pass_category(dx, dy))
            } else {
                None
            }
        }),
{
    let dx: i64 = if from.x as i64 >= to.x as i64 {
        from.x as i64 - to.x as i64
    } else {
        to.x as i64 - from.x as i64
    };
    let dy: i64 = if from.y as i64 >= to.y as i64 {
        from.y as i64 - to.y as i64
    } else {
        to.y as i64 - from.y as i64
    };
    if dx >= 14 || dy >= 14 {
        return None;
    }
    let c = PASS_MATRIX[dx as usize][dy as usize];
    match c {
        1 => Some(crate::enums::PassDistance::QuickPass),
        2 => Some(crate::enums::PassDistance::ShortPass),
        3 => Some(crate::enums::PassDistance::LongPass),
        4 => Some(crate::enums::PassDistance::LongBomb),
        5 => Some(crate::enums::PassDistance::HailMary),
        _ => None,
    }
}

/// The squares inside the border, row by row.
pub open spec fn inside_squares() -> Seq<Square> {
    Seq::new(26 * 15, |k: int| Square { x: (1 + k % 26) as i32, y: (1 + k / 26) as i32 })
}

/// The squares a pass from `from` may aim at, row by row.
pub open spec fn pass_targets(from: Square) -> Seq<Square> {
    crate::discovery::squares_upto(inside_squares(), |sq: Square| pass_target(from, sq), 390int)
}

/// The passes put in front of the move actions: one to each square in passing range while
/// the active player holds the ball.
pub open spec fn pass_prefix(s: GameStateView) -> Seq<ActionKey> {
    if active_carries(s) {
        pass_targets(active_player(s).unwrap().position.unwrap()).map_values(
            |sq: Square| key(ActionType::Pass, None, Some(sq)),
        )
    } else {
        Seq::empty()
    }
}

/// Move discovery, with a `Pass` to each square in passing range put in front while the
/// active player holds the ball.
pub fn pass_action_discovery(game_state: &mut GameState) -> (r: Result<(), String>)
    ensures
        r is Ok <==> move_ready(old(game_state)@),
        r is Ok ==> exists|m: Seq<ActionKey>|
            move_discovered(old(game_state)@, m) && final(game_state)@ == with_actions(
                old(game_state)@,
                pass_prefix(old(game_state)@) + m,
            ),
        r is Err ==> final(game_state)@ == old(game_state)@,
{
    let base = match move_actions(game_state) {
        Ok(v) => v,
        Err(e) => {
            return Err(e);
        },
    };
    let from = game_state.get_active_player().unwrap().position.unwrap();
    let ghost f = |sq: Square| pass_target(from, sq);
    let mut v: Vec<Action> = Vec::new();
    proof {
        assert(keys(v@) =~= Seq::<ActionKey>::empty());
    }
    if game_state.is_active_player_carrying_ball() {
        let mut y: i32 = 1;
        while y < ARENA_HEIGHT - 1
            invariant
                1 <= y <= ARENA_HEIGHT - 1,
                f == (|sq: Square| pass_target(from, sq)),
                keys(v@) == crate::discovery::squares_upto(inside_squares(), f, 26 * (y - 1) as int).map_values(
                    |sq: Square| key(ActionType::Pass, None, Some(sq)),
                ),
            decreases ARENA_HEIGHT - y,
        {
            let mut x: i32 = 1;
            while x < ARENA_WIDTH - 1
                invariant
                    1 <= y < ARENA_HEIGHT - 1,
                    1 <= x <= ARENA_WIDTH - 1,
                    f == (|sq: Square| pass_target(from, sq)),
                    keys(v@) == crate::discovery::squares_upto(inside_squares(), f, (26 * (y - 1) + (x - 1)) as int).map_values(
                        |sq: Square| key(ActionType::Pass, None, Some(sq)),
                    ),
                decreases ARENA_WIDTH - x,
            {
                let to = Square::new(x, y);
                let ghost k: int = 26 * (y - 1) + (x - 1);
                proof {
                    assert(k % 26 == x - 1 && k / 26 == y - 1) by (nonlinear_arith)
                        requires
                            k == 26 * (y - 1) + (x - 1),
                            0 <= x - 1 < 26,
                            y >= 1,
                    ;
                    assert(inside_squares()[k] == to);
                }
                let keep = to != from && match get_pass_distance(&from, &to) {
                    Some(d) => d != crate::enums::PassDistance::HailMary,
                    None => false,
                };
                let ghost before = keys(v@);
                if keep {
                    push_action(&mut v, Action::new(ActionType::Pass, None, Some(to)));
                    proof {
                        assert(f(to));
                        assert(keys(v@) =~= crate::discovery::squares_upto(inside_squares(), f, k + 1).map_values(
                            |sq: Square| key(ActionType::Pass, None, Some(sq)),
                        ));
                    }
                } else {
                    proof {
                        assert(!f(to));
                    }
                }
                x = x + 1;
            }
            y = y + 1;
        }
        proof {
            assert(keys(v@) == pass_prefix(old(game_state)@));
        }
    }
    let ghost m = keys(base@);
    append_actions(&mut v, base);
    game_state.available_actions = v;
    proof {
        assert(move_discovered(old(game_state)@, m));
    }
    Ok(())
}

} // verus!
