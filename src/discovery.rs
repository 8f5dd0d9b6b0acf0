use crate::enums::ActionType;
use crate::game::{filter_upto, next_to, opponents_of, own_team, some_off_pitch, spec_is_home_team, tackle_zones, team_players, GameState, GameStateView};
use crate::geometry::{pass_line, spec_adjacent_squares, spec_distance, spec_manhattan, spec_out_of_bounds, Square};
use crate::model::{Action, ActionKey, Player, PlayerView, TurnState};
use vstd::prelude::*;

verus! {

/// The compared part of an action.
pub open spec fn key(t: ActionType, player: Option<Seq<char>>, position: Option<Square>) -> ActionKey {
    ActionKey { action_type: t, player, position }
}

/// `s` with `acts` as the available actions.
pub open spec fn with_actions(s: GameStateView, acts: Seq<ActionKey>) -> GameStateView {
    GameStateView { available_actions: acts, ..s }
}

/// The compared parts of a list of actions.
pub open spec fn keys(v: Seq<Action>) -> Seq<ActionKey> {
    v.map_values(|a: Action| a@)
}

/// Appends `a` to `v`.
pub fn push_action(v: &mut Vec<Action>, a: Action)
    ensures
        keys(final(v)@) == keys(old(v)@).push(a@),
{
    let ghost k = a@;
    v.push(a);
    assert(keys(v@) =~= keys(old(v)@).push(k));
}

/// Replaces the available actions with `v`.
fn set_actions(game_state: &mut GameState, v: Vec<Action>)
    ensures
        final(game_state)@ == with_actions(old(game_state)@, keys(v@)),
{
    game_state.available_actions = v;
}

fn plain(t: ActionType) -> (r: Action)
    ensures
        r@ == key(t, None, None),
        r.path is None,
{
    Action::new(t, None, None)
}

/// Offers the two sides of the coin.
pub fn coin_toss_flip_action_discovery(game_state: &mut GameState) -> (r: Result<(), String>)
    ensures
        r is Ok,
        final(game_state)@ == with_actions(
            old(game_state)@,
            seq![key(ActionType::Heads, None, None), key(ActionType::Tails, None, None)],
        ),
{
    let mut v: Vec<Action> = Vec::new();
    push_action(&mut v, plain(ActionType::Heads));
    push_action(&mut v, plain(ActionType::Tails));
    set_actions(game_state, v);
    assert(keys(game_state.available_actions@) =~= seq![
        key(ActionType::Heads, None, None),
        key(ActionType::Tails, None, None),
    ]);
    Ok(())
}

/// Offers kicking or receiving.
pub fn coin_toss_kick_receive_discovery(game_state: &mut GameState) -> (r: Result<(), String>)
    ensures
        r is Ok,
        final(game_state)@ == with_actions(
            old(game_state)@,
            seq![key(ActionType::Kick, None, None), key(ActionType::Receive, None, None)],
        ),
{
    let mut v: Vec<Action> = Vec::new();
    push_action(&mut v, plain(ActionType::Kick));
    push_action(&mut v, plain(ActionType::Receive));
    set_actions(game_state, v);
    assert(keys(game_state.available_actions@) =~= seq![
        key(ActionType::Kick, None, None),
        key(ActionType::Receive, None, None),
    ]);
    Ok(())
}

/// The formations offered in set-up: zone and spread to the kicking team, wedge and line
/// to the receiving team.
pub open spec fn setup_actions(s: GameStateView) -> Seq<ActionKey> {
    if s.current_team_id == s.kicking_this_drive {
        seq![
            key(ActionType::SetupFormationZone, None, None),
            key(ActionType::SetupFormationSpread, None, None),
        ]
    } else {
        seq![
            key(ActionType::SetupFormationWedge, None, None),
            key(ActionType::SetupFormationLine, None, None),
        ]
    }
}

/// Offers the set-up formations of the team on move.
pub fn setup_discovery(game_state: &mut GameState) -> (r: Result<(), String>)
    ensures
        r is Ok <==> old(game_state).current_team_id is Some,
        r is Ok ==> final(game_state)@ == with_actions(
            old(game_state)@,
            setup_actions(old(game_state)@),
        ),
        r is Err ==> final(game_state)@ == old(game_state)@,
{
    let kicking = match (&game_state.current_team_id, &game_state.kicking_this_drive) {
        (Some(c), Some(k)) => *c == *k,
        (Some(_), None) => false,
        (None, _) => {
            return Err("Current team is required in setup".to_string());
        },
    };
    let mut v: Vec<Action> = Vec::new();
    if kicking {
        push_action(&mut v, plain(ActionType::SetupFormationZone));
        push_action(&mut v, plain(ActionType::SetupFormationSpread));
    } else {
        push_action(&mut v, plain(ActionType::SetupFormationWedge));
        push_action(&mut v, plain(ActionType::SetupFormationLine));
    }
    set_actions(game_state, v);
    assert(keys(game_state.available_actions@) =~= setup_actions(old(game_state)@));
    Ok(())
}

/// One `PlaceBall` per square of the receiving half, row by row.
pub fn place_ball_discovery(game_state: &mut GameState) -> (r: Result<(), String>)
    ensures
        r is Ok,
        final(game_state)@ == with_actions(
            old(game_state)@,
            crate::game::receiving_side(old(game_state)@).map_values(
                |sq: Square| key(ActionType::PlaceBall, None, Some(sq)),
            ),
        ),
{
    let positions = game_state.get_receiving_team_side_positions();
    let mut v: Vec<Action> = Vec::new();
    let mut i: usize = 0;
    while i < positions.len()
        invariant
            i <= positions@.len(),
            keys(v@) == positions@.subrange(0, i as int).map_values(
                |sq: Square| key(ActionType::PlaceBall, None, Some(sq)),
            ),
        decreases positions@.len() - i,
    {
        push_action(&mut v, Action::new(ActionType::PlaceBall, None, Some(positions[i])));
        proof {
            assert(positions@.subrange(0, i + 1).map_values(
                |sq: Square| key(ActionType::PlaceBall, None, Some(sq)),
            ) =~= positions@.subrange(0, i as int).map_values(
                |sq: Square| key(ActionType::PlaceBall, None, Some(sq)),
            ).push(key(ActionType::PlaceBall, None, Some(positions@[i as int]))));
        }
        i = i + 1;
    }
    proof {
        assert(positions@.subrange(0, positions@.len() as int) =~= positions@);
    }
    set_actions(game_state, v);
    Ok(())
}

/// The `SelectPlayer` actions for the players of `ps` that satisfy `f`, in order.
pub open spec fn select_each(ps: Seq<PlayerView>, f: spec_fn(PlayerView) -> bool) -> Seq<ActionKey> {
    filter_upto(ps, f, ps.len() as int).map_values(
        |p: PlayerView| key(ActionType::SelectPlayer, Some(p.player_id), None),
    )
}

/// On the pitch and standing.
pub open spec fn standing_on_pitch() -> spec_fn(PlayerView) -> bool {
    |p: PlayerView| p.state.up && p.position is Some
}

/// Appends a `SelectPlayer` for each standing player of `players` on the pitch.
fn push_standing_selects(v: &mut Vec<Action>, players: &Vec<Player>)
    ensures
        keys(final(v)@) == keys(old(v)@) + select_each(
            players@.map_values(|p: Player| p@),
            standing_on_pitch(),
        ),
{
    let ghost f = standing_on_pitch();
    let ghost ps = players@.map_values(|p: Player| p@);
    let mut i: usize = 0;
    while i < players.len()
        invariant
            ps == players@.map_values(|p: Player| p@),
            i <= ps.len(),
            f == standing_on_pitch(),
            keys(v@) == keys(old(v)@) + filter_upto(ps, f, i as int).map_values(
                |p: PlayerView| key(ActionType::SelectPlayer, Some(p.player_id), None),
            ),
        decreases ps.len() - i,
    {
        let p = &players[i];
        if p.state.up && p.position.is_some() {
            let ghost before = keys(v@);
            push_action(v, Action::new(ActionType::SelectPlayer, Some(p.player_id.clone()), None));
            proof {
                assert(filter_upto(ps, f, i + 1) == filter_upto(ps, f, i as int).push(ps[i as int]));
                assert(keys(v@) =~= keys(old(v)@) + filter_upto(ps, f, i + 1).map_values(
                    |p: PlayerView| key(ActionType::SelectPlayer, Some(p.player_id), None),
                ));
            }
        } else {
            proof {
                assert(filter_upto(ps, f, i + 1) == filter_upto(ps, f, i as int));
            }
        }
        i = i + 1;
    }
}

/// The team receiving this drive.
pub open spec fn receiving_team(s: GameStateView) -> Option<crate::model::TeamView> {
    own_team(s, s.receiving_this_drive.unwrap())
}

/// After a touchback: a `SelectPlayer` for each standing player of the receiving team on
/// the pitch. Nothing changes when no team is receiving; a missing receiving team is an
/// error.
pub fn touchback_discovery(game_state: &mut GameState) -> (r: Result<(), String>)
    ensures
        ({
            let s = old(game_state)@;
            &&& r is Err <==> s.receiving_this_drive is Some && receiving_team(s) is None
            &&& (r is Ok && s.receiving_this_drive is Some) ==> final(game_state)@ == with_actions(
                s,
                select_each(team_players(receiving_team(s)), standing_on_pitch()),
            )
            &&& (r is Err || s.receiving_this_drive is None) ==> final(game_state)@ == s
        }),
{
    let id = match &game_state.receiving_this_drive {
        Some(id) => id.clone(),
        None => {
            return Ok(());
        },
    };
    let home = game_state.is_home_team(&id);
    let team = if home {
        &game_state.home_team
    } else {
        &game_state.away_team
    };
    match team {
        Some(t) => {
            let mut v: Vec<Action> = Vec::new();
            push_standing_selects(&mut v, &t.players);
            proof {
                assert(keys(v@) =~= select_each(team_players(receiving_team(old(game_state)@)), standing_on_pitch()));
            }
            set_actions(game_state, v);
            Ok(())
        },
        None => Err("Missing receiving team in touchback discovery".to_string()),
    }
}

/// Offers to use a reroll or not.
pub fn reroll_discovery(game_state: &mut GameState) -> (r: Result<(), String>)
    ensures
        r is Ok,
        final(game_state)@ == with_actions(
            old(game_state)@,
            seq![key(ActionType::UseReroll, None, None), key(ActionType::DontUseReroll, None, None)],
        ),
{
    let mut v: Vec<Action> = Vec::new();
    push_action(&mut v, plain(ActionType::UseReroll));
    push_action(&mut v, plain(ActionType::DontUseReroll));
    set_actions(game_state, v);
    assert(keys(game_state.available_actions@) =~= seq![
        key(ActionType::UseReroll, None, None),
        key(ActionType::DontUseReroll, None, None),
    ]);
    Ok(())
}

/// Offers a bribe when the team on move has one left, and always the choice not to bribe.
pub fn ejection_discovery(game_state: &mut GameState) -> (r: Result<(), String>)
    ensures
        ({
            let s = old(game_state)@;
            let t = own_team(s, s.current_team_id.unwrap());
            &&& r is Ok <==> s.current_team_id is Some && t is Some
            &&& r is Ok ==> final(game_state)@ == with_actions(
                s,
                if t.unwrap().bribes > 0 {
                    seq![
                        key(ActionType::UseBribe, None, None),
                        key(ActionType::DontUseBribe, None, None),
                    ]
                } else {
                    seq![key(ActionType::DontUseBribe, None, None)]
                },
            )
            &&& r is Err ==> final(game_state)@ == s
        }),
{
    let id = match &game_state.current_team_id {
        Some(id) => id.clone(),
        None => {
            return Err("Ejection without current team id".to_string());
        },
    };
    let team = if game_state.is_home_team(&id) {
        &game_state.home_team
    } else {
        &game_state.away_team
    };
    let bribes = match team {
        Some(t) => t.bribes,
        None => {
            return Err("No team in ejection".to_string());
        },
    };
    let mut v: Vec<Action> = Vec::new();
    if bribes > 0 {
        push_action(&mut v, plain(ActionType::UseBribe));
    }
    push_action(&mut v, plain(ActionType::DontUseBribe));
    set_actions(game_state, v);
    proof {
        if bribes > 0 {
            assert(keys(game_state.available_actions@) =~= seq![
                key(ActionType::UseBribe, None, None),
                key(ActionType::DontUseBribe, None, None),
            ]);
        } else {
            assert(keys(game_state.available_actions@) =~= seq![key(ActionType::DontUseBribe, None, None)]);
        }
    }
    Ok(())
}

/// One action per rolled die face.
pub fn block_discovery(game_state: &mut GameState) -> (r: Result<(), String>)
    ensures
        r is Ok,
        final(game_state)@ == with_actions(
            old(game_state)@,
            old(game_state)@.rolls.map_values(|t: ActionType| key(t, None, None)),
        ),
{
    let mut v: Vec<Action> = Vec::new();
    let mut i: usize = 0;
    while i < game_state.rolls.len()
        invariant
            i <= game_state.rolls@.len(),
            keys(v@) == game_state.rolls@.subrange(0, i as int).map_values(
                |t: ActionType| key(t, None, None),
            ),
        decreases game_state.rolls@.len() - i,
    {
        push_action(&mut v, plain(game_state.rolls[i]));
        proof {
            assert(game_state.rolls@.subrange(0, i + 1).map_values(|t: ActionType| key(t, None, None))
                =~= game_state.rolls@.subrange(0, i as int).map_values(
                |t: ActionType| key(t, None, None),
            ).push(key(game_state.rolls@[i as int], None, None)));
        }
        i = i + 1;
    }
    proof {
        assert(game_state.rolls@.subrange(0, game_state.rolls@.len() as int) =~= game_state.rolls@);
    }
    set_actions(game_state, v);
    Ok(())
}

/// Standing up.
pub open spec fn standing() -> spec_fn(PlayerView) -> bool {
    |p: PlayerView| p.state.up
}

/// The opponents of `team_id` next to `sq`, in list order.
pub open spec fn adjacent_opponents(s: GameStateView, team_id: Seq<char>, sq: Square) -> Seq<
    PlayerView,
> {
    let ps = team_players(opponents_of(s, team_id));
    filter_upto(ps, next_to(sq), ps.len() as int)
}

/// Whether asking for the opponents of `team_id` next to a square fails: that team is
/// missing or one of its players is off the pitch.
pub open spec fn adjacency_fails(s: GameStateView, team_id: Seq<char>) -> bool {
    opponents_of(s, team_id) is None || some_off_pitch(team_players(opponents_of(s, team_id)))
}

/// Some standing opponent of `team_id` is next to `sq`.
pub open spec fn standing_opponent_near(s: GameStateView, team_id: Seq<char>, sq: Square) -> bool {
    exists|j: int|
        0 <= j < adjacent_opponents(s, team_id, sq).len() && (#[trigger] adjacent_opponents(
            s,
            team_id,
            sq,
        )[j]).state.up
}

/// The actions of one player at the start of its action in a turn.
pub open spec fn player_turn_actions(ts: TurnState, id: Seq<char>, can_block: bool) -> Seq<ActionKey> {
    let pid = Some(id);
    let one = |t: ActionType, on: bool| if on {
        seq![key(t, pid, None)]
    } else {
        Seq::<ActionKey>::empty()
    };
    seq![key(ActionType::StartMove, pid, None)] + one(ActionType::StartBlitz, ts.blitz_available)
        + one(ActionType::StartPass, ts.pass_available) + one(
        ActionType::StartHandoff,
        ts.handoff_available,
    ) + one(ActionType::StartFoul, ts.foul_available) + one(ActionType::StartBlock, can_block)
}

/// Whether `p` may act in this turn: on the pitch, not used, and not held in a tackle zone
/// during a blitz.
pub open spec fn takes_turn(s: GameStateView, ts: TurnState, team_id: Seq<char>, p: PlayerView) -> bool {
    !p.state.used && p.position is Some && !(ts.blitz && tackle_zones(
        s,
        team_id,
        p.position.unwrap(),
    ) > 0)
}

/// Whether a block is considered for `p`: neither a blitz nor a quick snap, and `p` up.
pub open spec fn block_considered(ts: TurnState, p: PlayerView) -> bool {
    !ts.quick_snap && !ts.blitz && p.state.up
}

/// The turn actions of the first `n` players of `ps`.
pub open spec fn turn_actions_upto(
    s: GameStateView,
    ts: TurnState,
    team_id: Seq<char>,
    ps: Seq<PlayerView>,
    n: int,
) -> Seq<ActionKey>
    decreases n,
{
    if n <= 0 {
        Seq::empty()
    } else {
        let prev = turn_actions_upto(s, ts, team_id, ps, n - 1);
        let p = ps[n - 1];
        if takes_turn(s, ts, team_id, p) {
            prev + player_turn_actions(
                ts,
                p.player_id,
                block_considered(ts, p) && standing_opponent_near(s, team_id, p.position.unwrap()),
            )
        } else {
            prev
        }
    }
}

/// Whether a block would be considered for some player of the first `n` of `ps`.
pub open spec fn some_block_considered(
    s: GameStateView,
    ts: TurnState,
    team_id: Seq<char>,
    ps: Seq<PlayerView>,
    n: int,
) -> bool {
    exists|i: int|
        0 <= i < n && takes_turn(s, ts, team_id, #[trigger] ps[i]) && block_considered(ts, ps[i])
}

/// The actions offered in a turn: for each player of the team on move, in list order, its
/// start actions, and `EndTurn` last.
pub open spec fn turn_actions(s: GameStateView) -> Seq<ActionKey> {
    let id = s.current_team_id.unwrap();
    let ps = team_players(own_team(s, id));
    turn_actions_upto(s, s.turn_state.unwrap(), id, ps, ps.len() as int).push(
        key(ActionType::EndTurn, None, None),
    )
}

/// A team is on move and listed.
pub open spec fn team_on_move(s: GameStateView) -> bool {
    s.current_team_id is Some && own_team(s, s.current_team_id.unwrap()) is Some
}

/// Whether turn discovery fails: no turn state, or a block to consider while the opponents
/// cannot be looked at.
pub open spec fn turn_fails(s: GameStateView) -> bool {
    let id = s.current_team_id.unwrap();
    let ps = team_players(own_team(s, id));
    s.turn_state is None || (some_block_considered(s, s.turn_state.unwrap(), id, ps, ps.len() as int)
        && adjacency_fails(s, id))
}

/// True when some player of `v` is up.
fn any_standing(v: &Vec<Player>) -> (r: bool)
    ensures
        r == exists|j: int| 0 <= j < v@.len() && (#[trigger] v@[j]).state.up,
{
    let mut i: usize = 0;
    while i < v.len()
        invariant
            i <= v@.len(),
            forall|j: int| 0 <= j < i ==> !(#[trigger] v@[j]).state.up,
        decreases v@.len() - i,
    {
        if v[i].state.up {
            return true;
        }
        i = i + 1;
    }
    false
}

/// Appends the actions of `w` to `v`.
pub(crate) fn append_actions(v: &mut Vec<Action>, w: Vec<Action>)
    ensures
        keys(final(v)@) == keys(old(v)@) + keys(w@),
{
    let mut w = w;
    let ghost kv = keys(v@);
    let ghost kw = keys(w@);
    v.append(&mut w);
    assert(keys(v@) =~= kv + kw);
}

/// The start actions of `p` in a turn of `team_id`, none when it does not act.
fn player_turn_discovery(game_state: &GameState, team_id: &String, ts: TurnState, p: &Player) -> (r:
    Result<Vec<Action>, String>)
    ensures
        ({
            let s = game_state@;
            let pv = p@;
            &&& r is Err <==> takes_turn(s, ts, team_id@, pv) && block_considered(ts, pv)
                && adjacency_fails(s, team_id@)
            &&& r matches Ok(w) ==> keys(w@) == if takes_turn(s, ts, team_id@, pv) {
                player_turn_actions(
                    ts,
                    pv.player_id,
                    block_considered(ts, pv) && standing_opponent_near(
                        s,
                        team_id@,
                        pv.position.unwrap(),
                    ),
                )
            } else {
                Seq::<ActionKey>::empty()
            }
        }),
{
    let ghost s = game_state@;
    let mut v: Vec<Action> = Vec::new();
    proof {
        assert(keys(v@) =~= Seq::<ActionKey>::empty());
    }
    let pos = match p.position {
        Some(pos) => pos,
        None => {
            return Ok(v);
        },
    };
    if p.state.used || (ts.blitz && game_state.get_team_tackle_zones_at(team_id, &pos) > 0) {
        return Ok(v);
    }
    let mut can_block = false;
    if !ts.quick_snap && !ts.blitz && p.state.up {
        match game_state.get_adjacent_opponents(team_id, &pos) {
            Ok(adj) => {
                can_block = any_standing(&adj);
                proof {
                    assert(adj@.map_values(|q: Player| q@) == adjacent_opponents(s, team_id@, pos));
                    if can_block {
                        let j = choose|j: int| 0 <= j < adj@.len() && (#[trigger] adj@[j]).state.up;
                        assert(adjacent_opponents(s, team_id@, pos)[j] == adj@[j]@);
                    }
                    if standing_opponent_near(s, team_id@, pos) {
                        let j = choose|j: int|
                            0 <= j < adjacent_opponents(s, team_id@, pos).len() && (#[trigger] adjacent_opponents(
                                s,
                                team_id@,
                                pos,
                            )[j]).state.up;
                        assert(adjacent_opponents(s, team_id@, pos)[j] == adj@[j]@);
                    }
                }
            },
            Err(e) => {
                return Err(e);
            },
        }
    }
    let pid = &p.player_id;
    push_action(&mut v, Action::new(ActionType::StartMove, Some(pid.clone()), None));
    if ts.blitz_available {
        push_action(&mut v, Action::new(ActionType::StartBlitz, Some(pid.clone()), None));
    }
    if ts.pass_available {
        push_action(&mut v, Action::new(ActionType::StartPass, Some(pid.clone()), None));
    }
    if ts.handoff_available {
        push_action(&mut v, Action::new(ActionType::StartHandoff, Some(pid.clone()), None));
    }
    if ts.foul_available {
        push_action(&mut v, Action::new(ActionType::StartFoul, Some(pid.clone()), None));
    }
    if can_block {
        push_action(&mut v, Action::new(ActionType::StartBlock, Some(pid.clone()), None));
    }
    proof {
        assert(keys(v@) =~= player_turn_actions(ts, pid@, can_block));
    }
    Ok(v)
}

/// The actions offered in a turn. With no team on move, or no such team, nothing is
/// offered; a missing turn state is an error.
pub fn turn_discovery(game_state: &mut GameState) -> (r: Result<(), String>)
    ensures
        !team_on_move(old(game_state)@) ==> r is Ok && final(game_state)@ == with_actions(
            old(game_state)@,
            Seq::empty(),
        ),
        team_on_move(old(game_state)@) ==> (r is Err <==> turn_fails(old(game_state)@)),
        team_on_move(old(game_state)@) && r is Ok ==> final(game_state)@ == with_actions(
            old(game_state)@,
            turn_actions(old(game_state)@),
        ),
        r is Err ==> final(game_state)@ == old(game_state)@,
{
    let ghost s = game_state@;
    let empty: Vec<Action> = Vec::new();
    proof {
        assert(keys(empty@) =~= Seq::<ActionKey>::empty());
    }
    let team_id = match &game_state.current_team_id {
        Some(t) => t.clone(),
        None => {
            set_actions(game_state, empty);
            return Ok(());
        },
    };
    let home = game_state.is_home_team(&team_id);
    let team = if home {
        &game_state.home_team
    } else {
        &game_state.away_team
    };
    let t = match team {
        Some(t) => t,
        None => {
            set_actions(game_state, empty);
            return Ok(());
        },
    };
    let ts = match game_state.turn_state {
        Some(ts) => ts,
        None => {
            return Err("Missing turn state in turn discovery".to_string());
        },
    };
    let ghost ps = t@.players;
    proof {
        assert(ps == team_players(own_team(s, team_id@)));
        assert(team_on_move(s));
    }
    let mut v: Vec<Action> = empty;
    let mut i: usize = 0;
    while i < t.players.len()
        invariant
            ps == t@.players,
            s == game_state@,
            s == old(game_state)@,
            team_on_move(s),
            ts == s.turn_state.unwrap(),
            s.turn_state is Some,
            team_id@ == s.current_team_id.unwrap(),
            ps == team_players(own_team(s, team_id@)),
            i <= ps.len(),
            keys(v@) == turn_actions_upto(s, ts, team_id@, ps, i as int),
            adjacency_fails(s, team_id@) ==> !some_block_considered(s, ts, team_id@, ps, i as int),
        decreases ps.len() - i,
    {
        proof {
            assert(t.players@[i as int]@ == ps[i as int]);
        }
        match player_turn_discovery(game_state, &team_id, ts, &t.players[i]) {
            Ok(w) => {
                append_actions(&mut v, w);
            },
            Err(e) => {
                proof {
                    assert(takes_turn(s, ts, team_id@, ps[i as int]) && block_considered(
                        ts,
                        ps[i as int],
                    ));
                    assert(some_block_considered(s, ts, team_id@, ps, ps.len() as int));
                    assert(turn_fails(s));
                    assert(own_team(s, s.current_team_id.unwrap()) is Some);
                    assert(game_state@ == s);
                }
                return Err(e);
            },
        }
        proof {
            if adjacency_fails(s, team_id@) {
                assert forall|k: int|
                    0 <= k < i + 1 && takes_turn(s, ts, team_id@, #[trigger] ps[k]) implies !block_considered(
                    ts,
                    ps[k],
                ) by {
                    if k < i {
                        assert(!some_block_considered(s, ts, team_id@, ps, i as int));
                    }
                }
            }
        }
        i = i + 1;
    }
    push_action(&mut v, Action::new(ActionType::EndTurn, None, None));
    set_actions(game_state, v);
    Ok(())
}

/// One action of type `t` aimed at each player of `adj` that is up (`want_up`) or down.
pub open spec fn aimed_at(adj: Seq<PlayerView>, t: ActionType, want_up: bool) -> Seq<ActionKey> {
    filter_upto(adj, |p: PlayerView| p.state.up == want_up, adj.len() as int).map_values(
        |p: PlayerView| key(t, None, p.position),
    )
}

/// Appends an action of type `t` aimed at each player of `adj` that is up (`want_up`) or
/// down.
pub(crate) fn push_aimed(v: &mut Vec<Action>, adj: &Vec<Player>, t: ActionType, want_up: bool)
    ensures
        keys(final(v)@) == keys(old(v)@) + aimed_at(adj@.map_values(|p: Player| p@), t, want_up),
{
    let ghost ps = adj@.map_values(|p: Player| p@);
    let ghost f = |p: PlayerView| p.state.up == want_up;
    let mut i: usize = 0;
    while i < adj.len()
        invariant
            ps == adj@.map_values(|p: Player| p@),
            f == (|p: PlayerView| p.state.up == want_up),
            i <= ps.len(),
            keys(v@) == keys(old(v)@) + filter_upto(ps, f, i as int).map_values(
                |p: PlayerView| key(t, None, p.position),
            ),
        decreases ps.len() - i,
    {
        let p = &adj[i];
        proof {
            assert(p@ == ps[i as int]);
        }
        if p.state.up == want_up {
            push_action(v, Action::new(t, None, p.position));
            proof {
                assert(filter_upto(ps, f, i + 1) == filter_upto(ps, f, i as int).push(ps[i as int]));
                assert(keys(v@) =~= keys(old(v)@) + filter_upto(ps, f, i + 1).map_values(
                    |p: PlayerView| key(t, None, p.position),
                ));
            }
        } else {
            proof {
                assert(filter_upto(ps, f, i + 1) == filter_upto(ps, f, i as int));
            }
        }
        i = i + 1;
    }
}

/// The identifier of the team listed at `loc`.
pub open spec fn team_at(s: GameStateView, loc: (bool, int)) -> Seq<char> {
    if loc.0 {
        s.home.unwrap().team_id
    } else {
        s.away.unwrap().team_id
    }
}

/// Whether the active player can be looked at for a block or foul: it exists, has not
/// blocked yet, stands on the pitch and its opponents can be looked at.
pub open spec fn attack_ready(s: GameStateView) -> bool {
    let loc = crate::execution::active_loc(s).unwrap();
    let p = crate::game::player_at_loc(s, loc);
    &&& crate::execution::active_loc(s) is Some
    &&& !p.state.has_blocked
    &&& p.position is Some
    &&& !adjacency_fails(s, team_at(s, loc))
}

/// The opponents next to the active player.
pub open spec fn opponents_near_active(s: GameStateView) -> Seq<PlayerView> {
    let loc = crate::execution::active_loc(s).unwrap();
    adjacent_opponents(s, team_at(s, loc), crate::game::player_at_loc(s, loc).position.unwrap())
}

/// The active player's opponents next to it, looked up for a block or a foul.
pub(crate) fn opponents_near_active_exec(game_state: &GameState) -> (r: Result<Vec<Player>, String>)
    ensures
        r is Ok <==> attack_ready(game_state@),
        r matches Ok(v) ==> v@.map_values(|p: Player| p@) == opponents_near_active(game_state@),
{
    let loc = match game_state.locate_active() {
        Some(l) => l,
        None => {
            return Err("Missing active player".to_string());
        },
    };
    let p = game_state.player_at(loc);
    if p.state.has_blocked {
        return Err("Player already blocked".to_string());
    }
    let pos = match p.position {
        Some(pos) => pos,
        None => {
            return Err("Missing player position".to_string());
        },
    };
    let team_id = if loc.0 {
        &game_state.home_team.as_ref().unwrap().team_id
    } else {
        &game_state.away_team.as_ref().unwrap().team_id
    };
    proof {
        assert(team_id@ == team_at(game_state@, (loc.0, loc.1 as int)));
    }
    game_state.get_adjacent_opponents(team_id, &pos)
}

/// A `Block` on each standing opponent next to the active player, then `EndPlayerTurn`.
pub fn block_action_discovery(game_state: &mut GameState) -> (r: Result<(), String>)
    ensures
        r is Ok <==> attack_ready(old(game_state)@),
        r is Ok ==> final(game_state)@ == with_actions(
            old(game_state)@,
            aimed_at(opponents_near_active(old(game_state)@), ActionType::Block, true).push(
                key(ActionType::EndPlayerTurn, None, None),
            ),
        ),
        r is Err ==> final(game_state)@ == old(game_state)@,
{
    let adj = match opponents_near_active_exec(game_state) {
        Ok(adj) => adj,
        Err(e) => {
            return Err(e);
        },
    };
    let mut v: Vec<Action> = Vec::new();
    proof {
        assert(keys(v@) =~= Seq::<ActionKey>::empty());
    }
    push_aimed(&mut v, &adj, ActionType::Block, true);
    push_action(&mut v, plain(ActionType::EndPlayerTurn));
    proof {
        assert(keys(v@) =~= aimed_at(opponents_near_active(old(game_state)@), ActionType::Block, true).push(
            key(ActionType::EndPlayerTurn, None, None),
        ));
    }
    set_actions(game_state, v);
    Ok(())
}

/// The squares of the first `n` of `sqs` that satisfy `f`, in order.
pub open spec fn squares_upto(sqs: Seq<Square>, f: spec_fn(Square) -> bool, n: int) -> Seq<Square>
    decreases n,
{
    if n <= 0 {
        Seq::empty()
    } else if f(sqs[n - 1]) {
        squares_upto(sqs, f, n - 1).push(sqs[n - 1])
    } else {
        squares_upto(sqs, f, n - 1)
    }
}

/// Whether `sq` lies behind the defender on `d` as pushed from `a`: for a push along a row
/// or column at distance two or more from the attacker, for a diagonal push at Manhattan
/// distance three or more.
pub open spec fn behind(a: Square, d: Square, sq: Square) -> bool {
    if a.x == d.x || a.y == d.y {
        spec_distance(a, sq) >= 2
    } else {
        spec_manhattan(a, sq) >= 3
    }
}

/// The squares that the defender on `d` can be pushed to by the attacker on `a`.
pub open spec fn push_candidates(a: Square, d: Square) -> Seq<Square> {
    let adj = spec_adjacent_squares(d, true);
    squares_upto(adj, |sq: Square| behind(a, d, sq), adj.len() as int)
}

/// The push squares offered: the empty ones if any, else those off the pitch if any, else
/// the occupied ones.
pub open spec fn push_choices(s: GameStateView, a: Square, d: Square) -> Seq<Square> {
    let c = push_candidates(a, d);
    let empty = squares_upto(
        c,
        |sq: Square| !spec_out_of_bounds(sq) && crate::game::player_on(s, sq) is None,
        c.len() as int,
    );
    let out = squares_upto(c, |sq: Square| spec_out_of_bounds(sq), c.len() as int);
    if empty.len() > 0 {
        empty
    } else if out.len() > 0 {
        out
    } else {
        c
    }
}

/// Where the players of the current push stand: the pusher and the pushed player of the
/// tail of the push chain.
pub open spec fn push_pair(s: GameStateView) -> (Square, Square) {
    let item = s.block_context.unwrap().push_chain.last();
    (
        crate::game::player_by_id(s, item.attacker).unwrap().position.unwrap(),
        crate::game::player_by_id(s, item.defender).unwrap().position.unwrap(),
    )
}

/// Whether the current push can be looked at.
pub open spec fn push_ready(s: GameStateView) -> bool {
    let item = s.block_context.unwrap().push_chain.last();
    &&& s.block_context is Some
    &&& s.block_context.unwrap().push_chain.len() > 0
    &&& crate::game::player_by_id(s, item.attacker) is Some
    &&& crate::game::player_by_id(s, item.attacker).unwrap().position is Some
    &&& crate::game::player_by_id(s, item.defender) is Some
    &&& crate::game::player_by_id(s, item.defender).unwrap().position is Some
}

/// A `Push` to each square offered for the current push of the chain.
pub fn push_discovery(game_state: &mut GameState) -> (r: Result<(), String>)
    ensures
        r is Ok <==> push_ready(old(game_state)@),
        r is Ok ==> final(game_state)@ == with_actions(
            old(game_state)@,
            push_choices(old(game_state)@, push_pair(old(game_state)@).0, push_pair(old(game_state)@).1).map_values(
                |sq: Square| key(ActionType::Push, None, Some(sq)),
            ),
        ),
        r is Err ==> final(game_state)@ == old(game_state)@,
{
    let (a, d) = match push_pair_exec(game_state) {
        Ok(pair) => pair,
        Err(e) => {
            return Err(e);
        },
    };
    let choices = push_choices_exec(game_state, a, d);
    let mut v: Vec<Action> = Vec::new();
    let mut i: usize = 0;
    while i < choices.len()
        invariant
            i <= choices@.len(),
            keys(v@) == choices@.subrange(0, i as int).map_values(
                |sq: Square| key(ActionType::Push, None, Some(sq)),
            ),
        decreases choices@.len() - i,
    {
        push_action(&mut v, Action::new(ActionType::Push, None, Some(choices[i])));
        proof {
            assert(choices@.subrange(0, i + 1).map_values(|sq: Square| key(ActionType::Push, None, Some(sq)))
                =~= choices@.subrange(0, i as int).map_values(
                |sq: Square| key(ActionType::Push, None, Some(sq)),
            ).push(key(ActionType::Push, None, Some(choices@[i as int]))));
        }
        i = i + 1;
    }
    proof {
        assert(choices@.subrange(0, choices@.len() as int) =~= choices@);
    }
    set_actions(game_state, v);
    Ok(())
}

fn push_pair_exec(game_state: &GameState) -> (r: Result<(Square, Square), String>)
    ensures
        r is Ok <==> push_ready(game_state@),
        r matches Ok(pair) ==> pair == push_pair(game_state@),
{
    let bc = match &game_state.block_context {
        Some(bc) => bc,
        None => {
            return Err("Missing block context in Push discovery".to_string());
        },
    };
    let n = bc.push_chain.len();
    if n == 0 {
        return Err("Empty push chain in Push discovery".to_string());
    }
    let item = &bc.push_chain[n - 1];
    proof {
        assert(item@ == game_state@.block_context.unwrap().push_chain.last());
    }
    let a = match game_state.get_player(&item.attacker) {
        Ok(p) => match p.position {
            Some(pos) => pos,
            None => {
                return Err("No attacker position in push discovery".to_string());
            },
        },
        Err(e) => {
            return Err(e);
        },
    };
    let d = match game_state.get_player(&item.defender) {
        Ok(p) => match p.position {
            Some(pos) => pos,
            None => {
                return Err("No defender position in push discovery".to_string());
            },
        },
        Err(e) => {
            return Err(e);
        },
    };
    Ok((a, d))
}

fn push_choices_exec(game_state: &GameState, a: Square, d: Square) -> (r: Vec<Square>)
    ensures
        r@ == push_choices(game_state@, a, d),
{
    let adj = d.get_adjacent_squares(true);
    let ghost s = game_state@;
    let ghost fb = |sq: Square| behind(a, d, sq);
    let ghost fe = |sq: Square| !spec_out_of_bounds(sq) && crate::game::player_on(s, sq) is None;
    let ghost fo = |sq: Square| spec_out_of_bounds(sq);
    let mut c: Vec<Square> = Vec::new();
    let mut empty: Vec<Square> = Vec::new();
    let mut out: Vec<Square> = Vec::new();
    let straight = a.x == d.x || a.y == d.y;
    let mut i: usize = 0;
    while i < adj.len()
        invariant
            i <= adj@.len(),
            s == game_state@,
            fb == (|sq: Square| behind(a, d, sq)),
            fe == (|sq: Square| !spec_out_of_bounds(sq) && crate::game::player_on(s, sq) is None),
            fo == (|sq: Square| spec_out_of_bounds(sq)),
            straight == (a.x == d.x || a.y == d.y),
            c@ == squares_upto(adj@, fb, i as int),
            empty@ == squares_upto(c@, fe, c@.len() as int),
            out@ == squares_upto(c@, fo, c@.len() as int),
        decreases adj@.len() - i,
    {
        let sq = adj[i];
        let keep = if straight {
            a.distance(&sq) >= 2
        } else {
            a.manhattan_distance(&sq) >= 3
        };
        if keep {
            let ghost c0 = c@;
            c.push(sq);
            proof {
                assert(c@.subrange(0, c0.len() as int) =~= c0);
                lemma_squares_upto_prefix(c@, fe, c0.len() as int);
                lemma_squares_upto_prefix(c@, fo, c0.len() as int);
            }
            if sq.is_out_of_bounds() {
                out.push(sq);
            } else if game_state.get_player_at(&sq).is_err() {
                empty.push(sq);
            }
        }
        i = i + 1;
    }
    proof {
        assert(adj@ == spec_adjacent_squares(d, true));
    }
    if empty.len() > 0 {
        empty
    } else if out.len() > 0 {
        out
    } else {
        c
    }
}

/// `squares_upto` over the first `n` squares reads only those squares.
proof fn lemma_squares_upto_prefix(sqs: Seq<Square>, f: spec_fn(Square) -> bool, n: int)
    requires
        0 <= n < sqs.len(),
    ensures
        squares_upto(sqs, f, n) == squares_upto(sqs.subrange(0, n), f, n),
    decreases n,
{
    if n > 0 {
        lemma_squares_upto_prefix(sqs, f, n - 1);
        lemma_squares_upto_prefix(sqs.subrange(0, n), f, n - 1);
        assert(sqs.subrange(0, n).subrange(0, n - 1) =~= sqs.subrange(0, n - 1));
    }
}

/// The two follow-up choices: onto the defender's former square, or staying put.
pub fn follow_up_discovery(game_state: &mut GameState) -> (r: Result<(), String>)
    ensures
        ({
            let s = old(game_state)@;
            let bc = s.block_context.unwrap();
            let att = crate::game::player_by_id(s, bc.attacker);
            &&& r is Ok <==> s.block_context is Some && att is Some
            &&& r is Ok ==> final(game_state)@ == with_actions(
                s,
                seq![
                    key(ActionType::FollowUp, None, Some(bc.position)),
                    key(ActionType::FollowUp, None, att.unwrap().position),
                ],
            )
            &&& r is Err ==> final(game_state)@ == s
        }),
{
    let (target, stay) = match &game_state.block_context {
        Some(bc) => match game_state.get_player(&bc.attacker) {
            Ok(p) => (bc.position, p.position),
            Err(e) => {
                return Err(e);
            },
        },
        None => {
            return Err("Missing block context in follow-up discovery".to_string());
        },
    };
    let mut v: Vec<Action> = Vec::new();
    push_action(&mut v, Action::new(ActionType::FollowUp, None, Some(target)));
    push_action(&mut v, Action::new(ActionType::FollowUp, None, stay));
    proof {
        assert(keys(v@) =~= seq![
            key(ActionType::FollowUp, None, Some(target)),
            key(ActionType::FollowUp, None, stay),
        ]);
    }
    set_actions(game_state, v);
    Ok(())
}

/// May receive a high kick: on the pitch, standing and out of opposing tackle zones.
pub open spec fn free_receiver(s: GameStateView, team_id: Seq<char>) -> spec_fn(PlayerView) -> bool {
    |p: PlayerView|
        p.position is Some && p.state.up && tackle_zones(s, team_id, p.position.unwrap()) == 0
}

/// The choices after a high kick: when the ball lands on the receiving half on an empty
/// square, a `SelectPlayer` for each free receiver and `SelectNone`; otherwise nothing.
pub open spec fn high_kick_actions(s: GameStateView) -> Seq<ActionKey> {
    let id = s.receiving_this_drive.unwrap();
    let b = crate::game::ball_position(s).unwrap();
    let on_side = if spec_is_home_team(s, id) {
        b.x >= crate::geometry::ARENA_WIDTH / 2
    } else {
        b.x < crate::geometry::ARENA_WIDTH / 2
    };
    if on_side && crate::game::player_on(s, b) is None {
        select_each(team_players(receiving_team(s)), free_receiver(s, id)).push(
            key(ActionType::SelectNone, None, None),
        )
    } else {
        Seq::empty()
    }
}

/// The choices after a high kick. With no receiving team named nothing is offered; a missing
/// receiving team or ball is an error.
pub fn high_kick_discovery(game_state: &mut GameState) -> (r: Result<(), String>)
    ensures
        ({
            let s = old(game_state)@;
            &&& s.receiving_this_drive is None ==> r is Ok && final(game_state)@ == with_actions(
                s,
                Seq::empty(),
            )
            &&& s.receiving_this_drive is Some ==> (r is Ok <==> receiving_team(s) is Some
                && crate::game::ball_position(s) is Some)
            &&& (s.receiving_this_drive is Some && r is Ok) ==> final(game_state)@ == with_actions(
                s,
                high_kick_actions(s),
            )
            &&& r is Err ==> final(game_state)@ == s
        }),
{
    let ghost s = game_state@;
    let mut v: Vec<Action> = Vec::new();
    proof {
        assert(keys(v@) =~= Seq::<ActionKey>::empty());
    }
    let id = match &game_state.receiving_this_drive {
        Some(id) => id.clone(),
        None => {
            set_actions(game_state, v);
            return Ok(());
        },
    };
    let team = if game_state.is_home_team(&id) {
        &game_state.home_team
    } else {
        &game_state.away_team
    };
    let t = match team {
        Some(t) => t,
        None => {
            return Err("Missing team in high kick discovery".to_string());
        },
    };
    let b = match game_state.get_ball_position() {
        Ok(b) => b,
        Err(e) => {
            return Err(e);
        },
    };
    let on_side = game_state.is_team_side(&b, &id);
    let empty = game_state.get_player_at(&b).is_err();
    if on_side && empty {
        let ghost ps = t@.players;
        let ghost f = free_receiver(s, id@);
        let mut i: usize = 0;
        while i < t.players.len()
            invariant
                ps == t@.players,
                s == game_state@,
                f == free_receiver(s, id@),
                i <= ps.len(),
                keys(v@) == filter_upto(ps, f, i as int).map_values(
                    |p: PlayerView| key(ActionType::SelectPlayer, Some(p.player_id), None),
                ),
            decreases ps.len() - i,
        {
            let p = &t.players[i];
            proof {
                assert(p@ == ps[i as int]);
            }
            let keep = match p.position {
                Some(pos) => p.state.up && game_state.get_team_tackle_zones_at(&id, &pos) == 0,
                None => false,
            };
            if keep {
                push_action(&mut v, Action::new(ActionType::SelectPlayer, Some(p.player_id.clone()), None));
                proof {
                    assert(filter_upto(ps, f, i + 1) == filter_upto(ps, f, i as int).push(ps[i as int]));
                    assert(keys(v@) =~= filter_upto(ps, f, i + 1).map_values(
                        |p: PlayerView| key(ActionType::SelectPlayer, Some(p.player_id), None),
                    ));
                }
            } else {
                proof {
                    assert(filter_upto(ps, f, i + 1) == filter_upto(ps, f, i as int));
                }
            }
            i = i + 1;
        }
        push_action(&mut v, Action::new(ActionType::SelectNone, None, None));
        proof {
            assert(ps == team_players(receiving_team(s)));
            assert(keys(v@) == high_kick_actions(s));
        }
    } else {
        proof {
            assert(keys(v@) =~= high_kick_actions(s));
        }
    }
    set_actions(game_state, v);
    Ok(())
}

/// Whether `p` can try an interception: standing, neither stunned nor knocked out.
pub open spec fn can_intercept(p: PlayerView) -> bool {
    p.state.up && !p.state.stunned && !p.state.knocked_out
}

/// Within the bounding box of `from` and `to`, and no further from either than they are
/// from each other.
pub open spec fn near_line(from: Square, to: Square, sq: Square) -> bool {
    let d = crate::geometry::spec_distance(from, to);
    &&& crate::geometry::spec_distance(sq, from) <= d
    &&& crate::geometry::spec_distance(sq, to) <= d
    &&& crate::geometry::max(from.x as int, to.x as int) >= sq.x >= -crate::geometry::max(
        -(from.x as int),
        -(to.x as int),
    )
    &&& crate::geometry::max(from.y as int, to.y as int) >= sq.y >= -crate::geometry::max(
        -(from.y as int),
        -(to.y as int),
    )
}

/// `sq` is the line square `l` or one of its neighbours off the border near the line.
pub open spec fn candidate(l: Square, from: Square, to: Square, sq: Square) -> bool {
    l == sq || (spec_adjacent_squares(l, false).contains(sq) && near_line(from, to, sq))
}

/// A square where a pass from `from` to `to` can be intercepted: a square of the pass line
/// or a neighbour of one near the line, other than the two ends.
pub open spec fn interception_square(from: Square, to: Square, sq: Square) -> bool {
    &&& sq != from
    &&& sq != to
    &&& exists|i: int|
        0 <= i < pass_line(from, to).len() && candidate(#[trigger] pass_line(from, to)[i], from, to, sq)
}

/// The squares where a pass from `from` to `to` can be intercepted: the line between them
/// and the neighbours of its squares, within the bounding box of the two ends and no
/// further from either end than they are from each other, without the two ends.
fn interception_squares(from: Square, to: Square) -> (r: Vec<Square>)
    requires
        crate::geometry::on_grid(from),
        crate::geometry::on_grid(to),
    ensures
        forall|sq: Square| r@.contains(sq) <==> interception_square(from, to, sq),
        forall|i: int| 0 <= i < r@.len() ==> (#[trigger] r@[i]) != from && r@[i] != to,
        forall|i: int, j: int| 0 <= i < j < r@.len() ==> (#[trigger] r@[i]) != (#[trigger] r@[j]),
{
    let line = from.create_pass_path(&to);
    let max_distance = from.distance(&to);
    let min_x = if from.x <= to.x {
        from.x
    } else {
        to.x
    };
    let max_x = if from.x <= to.x {
        to.x
    } else {
        from.x
    };
    let min_y = if from.y <= to.y {
        from.y
    } else {
        to.y
    };
    let max_y = if from.y <= to.y {
        to.y
    } else {
        from.y
    };
    let mut out: Vec<Square> = Vec::new();
    let mut i: usize = 0;
    while i < line.len()
        invariant
            i <= line@.len(),
            line@ == pass_line(from, to),
            max_distance == crate::geometry::spec_distance(from, to),
            min_x == -crate::geometry::max(-(from.x as int), -(to.x as int)),
            max_x == crate::geometry::max(from.x as int, to.x as int),
            min_y == -crate::geometry::max(-(from.y as int), -(to.y as int)),
            max_y == crate::geometry::max(from.y as int, to.y as int),
            forall|x: Square| out@.contains(x) <==> (x != from && x != to && exists|k: int|
                0 <= k < i && candidate(#[trigger] line@[k], from, to, x)),
            forall|k: int| 0 <= k < out@.len() ==> (#[trigger] out@[k]) != from && out@[k] != to,
            forall|k: int, l: int| 0 <= k < l < out@.len() ==> (#[trigger] out@[k]) != (#[trigger] out@[l]),
        decreases line@.len() - i,
    {
        let sq = line[i];
        let neighbours = sq.get_adjacent_squares(false);
        let mut j: usize = 0;
        while j < neighbours.len()
            invariant
                j <= neighbours@.len(),
                i < line@.len(),
                sq == line@[i as int],
                neighbours@ == spec_adjacent_squares(sq, false),
                max_distance == crate::geometry::spec_distance(from, to),
                min_x == -crate::geometry::max(-(from.x as int), -(to.x as int)),
                max_x == crate::geometry::max(from.x as int, to.x as int),
                min_y == -crate::geometry::max(-(from.y as int), -(to.y as int)),
                max_y == crate::geometry::max(from.y as int, to.y as int),
                forall|x: Square| out@.contains(x) <==> (x != from && x != to && ((exists|k: int|
                    0 <= k < i && candidate(#[trigger] line@[k], from, to, x)) || (exists|m: int|
                    0 <= m < j && #[trigger] neighbours@[m] == x && near_line(from, to, x)))),
                forall|k: int| 0 <= k < out@.len() ==> (#[trigger] out@[k]) != from && out@[k] != to,
                forall|k: int, l: int| 0 <= k < l < out@.len() ==> (#[trigger] out@[k]) != (#[trigger] out@[l]),
            decreases neighbours@.len() - j,
        {
            let n = neighbours[j];
            let keep = n.distance(&from) <= max_distance && n.distance(&to) <= max_distance
                && min_x <= n.x && n.x <= max_x && min_y <= n.y && n.y <= max_y;
            let ghost before = out@;
            if keep {
                add_candidate(&mut out, n, from, to);
            }
            proof {
                assert(keep == near_line(from, to, n));
                assert forall|x: Square| out@.contains(x) <==> (x != from && x != to && ((exists|k: int|
                    0 <= k < i && candidate(#[trigger] line@[k], from, to, x)) || (exists|m: int|
                    0 <= m < j + 1 && #[trigger] neighbours@[m] == x && near_line(from, to, x)))) by {
                    if x == n && near_line(from, to, x) && x != from && x != to {
                        assert(neighbours@[j as int] == x);
                    }
                    if exists|m: int| 0 <= m < j + 1 && #[trigger] neighbours@[m] == x && near_line(from, to, x) {
                        let m = choose|m: int| 0 <= m < j + 1 && #[trigger] neighbours@[m] == x && near_line(from, to, x);
                        if m < j {
                            assert(exists|m2: int| 0 <= m2 < j && #[trigger] neighbours@[m2] == x && near_line(from, to, x));
                        }
                    }
                }
            }
            j = j + 1;
        }
        let ghost before = out@;
        add_candidate(&mut out, sq, from, to);
        proof {
            assert forall|x: Square| out@.contains(x) <==> (x != from && x != to && exists|k: int|
                0 <= k < i + 1 && candidate(#[trigger] line@[k], from, to, x)) by {
                if x != from && x != to && candidate(line@[i as int], from, to, x) && x != sq {
                    assert(spec_adjacent_squares(sq, false).contains(x));
                    let m = choose|m: int| 0 <= m < neighbours@.len() && neighbours@[m] == x;
                    assert(neighbours@[m] == x);
                }
                if exists|k: int| 0 <= k < i + 1 && candidate(#[trigger] line@[k], from, to, x) {
                    let k = choose|k: int| 0 <= k < i + 1 && candidate(#[trigger] line@[k], from, to, x);
                    if k < i {
                        assert(exists|k2: int| 0 <= k2 < i && candidate(#[trigger] line@[k2], from, to, x));
                    }
                }
                if exists|m: int| 0 <= m < neighbours@.len() && #[trigger] neighbours@[m] == x && near_line(from, to, x) {
                    let m = choose|m: int| 0 <= m < neighbours@.len() && #[trigger] neighbours@[m] == x && near_line(from, to, x);
                    assert(spec_adjacent_squares(sq, false).contains(x));
                    assert(candidate(line@[i as int], from, to, x));
                }
            }
        }
        i = i + 1;
    }
    out
}

/// Appends `sq` unless it is listed already or is one of the two ends.
fn add_candidate(out: &mut Vec<Square>, sq: Square, from: Square, to: Square)
    requires
        forall|k: int| 0 <= k < old(out)@.len() ==> (#[trigger] old(out)@[k]) != from && old(out)@[k] != to,
        forall|k: int, l: int| 0 <= k < l < old(out)@.len() ==> (#[trigger] old(out)@[k]) != (#[trigger] old(out)@[l]),
    ensures
        forall|k: int| 0 <= k < final(out)@.len() ==> (#[trigger] final(out)@[k]) != from && final(out)@[k] != to,
        forall|k: int, l: int| 0 <= k < l < final(out)@.len() ==> (#[trigger] final(out)@[k]) != (#[trigger] final(out)@[l]),
        forall|x: Square| final(out)@.contains(x) <==> (old(out)@.contains(x) || (x == sq && sq != from
            && sq != to)),
{
    if sq == from || sq == to {
        return;
    }
    let mut k: usize = 0;
    let mut seen = false;
    while k < out.len() && !seen
        invariant
            k <= out@.len(),
            out@ == old(out)@,
            seen ==> out@.contains(sq),
            !seen ==> forall|t: int| 0 <= t < k ==> out@[t] != sq,
        decreases out@.len() - k,
    {
        if out[k] == sq {
            seen = true;
            proof {
                assert(out@[k as int] == sq);
            }
        }
        k = k + 1;
    }
    if !seen {
        let ghost before = out@;
        out.push(sq);
        proof {
            assert forall|x: Square| out@.contains(x) <==> (before.contains(x) || x == sq) by {
                if out@.contains(x) {
                    let t = choose|t: int| 0 <= t < out@.len() && out@[t] == x;
                    if t < before.len() {
                        assert(before[t] == x);
                    }
                }
                if before.contains(x) {
                    let t = choose|t: int| 0 <= t < before.len() && before[t] == x;
                    assert(out@[t] == x);
                }
                if x == sq {
                    assert(out@[before.len() as int] == sq);
                }
            }
        }
    }
}

/// Whether interception discovery can run: a saved target square, an active passer on the
/// pitch, a team on move and a home team.
pub open spec fn interception_ready(s: GameStateView) -> bool {
    &&& s.position is Some
    &&& crate::game::active_player(s) is Some
    &&& crate::game::active_player(s).unwrap().position is Some
    &&& s.current_team_id is Some
    &&& s.home is Some
}

/// The players that may intercept the pass from the active player to the saved square: a
/// `SelectPlayer` for each standing opponent of the passing team on an interception
/// square, each once, then `SelectNone`.
pub fn interception_discovery(game_state: &mut GameState) -> (r: Result<(), String>)
    ensures
        r is Ok <==> interception_ready(old(game_state)@),
        r is Ok ==> exists|chosen: Seq<PlayerView>, at: Seq<Square>|
            interceptors(old(game_state)@, chosen) && exactly_offered(old(game_state)@, chosen, at)
                && final(game_state)@ == with_actions(
                old(game_state)@,
                chosen.map_values(
                    |p: PlayerView| key(ActionType::SelectPlayer, Some(p.player_id), None),
                ).push(key(ActionType::SelectNone, None, None)),
            ),
        r is Err ==> final(game_state)@ == old(game_state)@,
{
    let target = match game_state.position {
        Some(t) => t,
        None => {
            return Err("Missing target position in interception discovery".to_string());
        },
    };
    let passer = match game_state.get_active_player() {
        Ok(p) => match p.position {
            Some(pos) => pos,
            None => {
                return Err("Active player has no position in interception discovery".to_string());
            },
        },
        Err(e) => {
            return Err(e);
        },
    };
    let team_id = match &game_state.current_team_id {
        Some(t) => t,
        None => {
            return Err("No current team id in interception discovery".to_string());
        },
    };
    let opposing = match &game_state.home_team {
        Some(h) => if h.team_id == *team_id {
            &game_state.away_team
        } else {
            &game_state.home_team
        },
        None => {
            return Err("Missing home team in interception discovery".to_string());
        },
    };
    proof {
        assert(crate::game::opt_team(*opposing) == passing_opponents(game_state@));
    }
    let ghost s = game_state@;
    let mut v: Vec<Action> = Vec::new();
    let ghost mut chosen: Seq<PlayerView> = Seq::empty();
    let ghost mut at: Seq<Square> = Seq::empty();
    proof {
        assert(keys(v@) =~= chosen.map_values(
            |p: PlayerView| key(ActionType::SelectPlayer, Some(p.player_id), None),
        ));
    }
    let on_grid = 0 <= passer.x && passer.x < ARENA_WIDTH_I && 0 <= passer.y && passer.y < ARENA_HEIGHT_I
        && 0 <= target.x && target.x < ARENA_WIDTH_I && 0 <= target.y && target.y < ARENA_HEIGHT_I;
    if on_grid {
        let squares = interception_squares(passer, target);
        let mut ids: Vec<String> = Vec::new();
        let mut i: usize = 0;
        while i < squares.len()
            invariant
                s == game_state@,
                crate::game::opt_team(*opposing) == passing_opponents(s),
                i <= squares@.len(),
                interceptors(s, chosen),
                passer == crate::game::active_player(s).unwrap().position.unwrap(),
                target == s.position.unwrap(),
                crate::geometry::on_grid(passer) && crate::geometry::on_grid(target),
                forall|x: Square| squares@.contains(x) <==> interception_square(passer, target, x),
                at.len() == chosen.len(),
                forall|k: int|
                    0 <= k < chosen.len() ==> interception_square(passer, target, #[trigger] at[k])
                        && crate::game::player_on(s, at[k]) == Some(chosen[k]) && eligible(s, chosen[k]),
                forall|t: int| 0 <= t < i ==> covered(s, chosen, #[trigger] squares@[t]),
                ids@.len() == chosen.len(),
                forall|k: int| 0 <= k < ids@.len() ==> (#[trigger] ids@[k])@ == chosen[k].player_id,
                keys(v@) == chosen.map_values(
                    |p: PlayerView| key(ActionType::SelectPlayer, Some(p.player_id), None),
                ),
            decreases squares@.len() - i,
        {
            proof {
                assert(squares@.contains(squares@[i as int]));
            }
            let ghost chosen0 = chosen;
            match opposing {
                Some(team) => {
                    match game_state.get_player_at(&squares[i]) {
                        Ok(p) => {
                            let elig = p.state.up && !p.state.stunned && !p.state.knocked_out && team_has(team, &p.player_id);
                            let known = contains_id(&ids, &p.player_id);
                            proof {
                                assert(elig == eligible(s, p@)) by {
                                    if in_list(team_players(passing_opponents(s)), p.player_id@) {
                                        let j = choose|j: int| 0 <= j < team_players(passing_opponents(s)).len() && (#[trigger] team_players(passing_opponents(s))[j]).player_id == p.player_id@;
                                        assert(team@.players[j].player_id == p.player_id@);
                                    }
                                }
                                if known {
                                    let k = choose|k: int| 0 <= k < ids@.len() && (#[trigger] ids@[k])@ == p.player_id@;
                                    assert(chosen[k].player_id == p.player_id@);
                                }
                            }
                            if elig && !known {
                                let ghost before = chosen;
                                let ghost at_before = at;
                                let ghost kb = keys(v@);
                                ids.push(p.player_id.clone());
                                push_action(&mut v, Action::new(ActionType::SelectPlayer, Some(p.player_id.clone()), None));
                                proof {
                                    chosen = before.push(p@);
                                    at = at_before.push(squares@[i as int]);
                                    assert(chosen[chosen.len() - 1].player_id == p.player_id@);
                                    assert(keys(v@) =~= chosen.map_values(
                                        |q: PlayerView| key(ActionType::SelectPlayer, Some(q.player_id), None),
                                    ));
                                    assert forall|k: int, l: int| 0 <= k < l < chosen.len() implies (#[trigger] chosen[k]).player_id
                                        != (#[trigger] chosen[l]).player_id by {
                                        if l == chosen.len() - 1 {
                                            assert(ids@[k]@ == chosen[k].player_id);
                                        }
                                    }
                                    assert forall|k: int| 0 <= k < chosen.len() implies can_intercept(#[trigger] chosen[k])
                                        && in_list(team_players(passing_opponents(s)), chosen[k].player_id) by {
                                        if k == chosen.len() - 1 {
                                            let j = choose|j: int| 0 <= j < team@.players.len() && (#[trigger] team@.players[j]).player_id == p.player_id@;
                                            assert(team_players(passing_opponents(s))[j].player_id == chosen[k].player_id);
                                        }
                                    }
                                }
                            }
                        },
                        Err(_) => {},
                    }
                },
                None => {},
            }
            proof {
                assert forall|t: int| 0 <= t < i + 1 implies covered(s, chosen, #[trigger] squares@[t]) by {
                    if t < i {
                        assert(covered(s, chosen0, squares@[t]));
                        if let Some(q) = crate::game::player_on(s, squares@[t]) {
                            if eligible(s, q) {
                                let k = choose|k: int| 0 <= k < chosen0.len() && (#[trigger] chosen0[k]).player_id == q.player_id;
                                assert(chosen[k] == chosen0[k]);
                            }
                        }
                    } else {
                        if let Some(q) = crate::game::player_on(s, squares@[t]) {
                            if eligible(s, q) {
                                assert(opposing is Some);
                            }
                        }
                    }
                }
            }
            i = i + 1;
        }
        proof {
            assert forall|sq: Square| #[trigger] interception_square(passer, target, sq) implies covered(s, chosen, sq) by {
                assert(squares@.contains(sq));
                let t = choose|t: int| 0 <= t < squares@.len() && squares@[t] == sq;
                assert(covered(s, chosen, squares@[t]));
            }
            assert(exactly_offered(s, chosen, at));
        }
    }
    proof {
        assert(interceptors(s, chosen) && exactly_offered(s, chosen, at));
    }
    let ghost kb = keys(v@);
    push_action(&mut v, Action::new(ActionType::SelectNone, None, None));
    set_actions(game_state, v);
    Ok(())
}

/// The team that may intercept a pass of the team on move.
pub open spec fn passing_opponents(s: GameStateView) -> Option<crate::model::TeamView> {
    if s.home.unwrap().team_id == s.current_team_id.unwrap() {
        s.away
    } else {
        s.home
    }
}

/// Some player of `ps` has identifier `id`.
pub open spec fn in_list(ps: Seq<PlayerView>, id: Seq<char>) -> bool {
    exists|j: int| 0 <= j < ps.len() && (#[trigger] ps[j]).player_id == id
}

/// May intercept: standing, neither stunned nor knocked out, and of the team that does not
/// pass.
pub open spec fn eligible(s: GameStateView, q: PlayerView) -> bool {
    can_intercept(q) && in_list(team_players(passing_opponents(s)), q.player_id)
}

/// `chosen` are exactly the players to offer: every eligible player found on an
/// interception square of the pass from the active player to the saved square is chosen,
/// and only those; none when an end of the pass lies off the grid.
pub open spec fn exactly_offered(s: GameStateView, chosen: Seq<PlayerView>, at: Seq<Square>) -> bool {
    let from = crate::game::active_player(s).unwrap().position.unwrap();
    let to = s.position.unwrap();
    let ok = crate::geometry::on_grid(from) && crate::geometry::on_grid(to);
    &&& at.len() == chosen.len()
    &&& forall|k: int|
        0 <= k < chosen.len() ==> ok && interception_square(from, to, #[trigger] at[k])
            && crate::game::player_on(s, at[k]) == Some(chosen[k]) && eligible(s, chosen[k])
    &&& forall|sq: Square| ok && #[trigger] interception_square(from, to, sq) ==> covered(s, chosen, sq)
}

/// An eligible player standing on `sq`, if any, is among `chosen`.
pub open spec fn covered(s: GameStateView, chosen: Seq<PlayerView>, sq: Square) -> bool {
    match crate::game::player_on(s, sq) {
        Some(q) => eligible(s, q) ==> exists|k: int|
            0 <= k < chosen.len() && (#[trigger] chosen[k]).player_id == q.player_id,
        None => true,
    }
}

/// `chosen` may be offered to intercept: standing opponents of the passing team, each once.
pub open spec fn interceptors(s: GameStateView, chosen: Seq<PlayerView>) -> bool {
    &&& forall|k: int|
        0 <= k < chosen.len() ==> can_intercept(#[trigger] chosen[k]) && in_list(
            team_players(passing_opponents(s)),
            chosen[k].player_id,
        )
    &&& forall|k: int, l: int|
        0 <= k < l < chosen.len() ==> (#[trigger] chosen[k]).player_id != (#[trigger] chosen[l]).player_id
}

const ARENA_WIDTH_I: i32 = 28;

const ARENA_HEIGHT_I: i32 = 17;

/// True when `team` lists a player with identifier `id`.
fn team_has(team: &crate::model::Team, id: &String) -> (r: bool)
    ensures
        r == exists|i: int| 0 <= i < team@.players.len() && (#[trigger] team@.players[i]).player_id == id@,
{
    let mut i: usize = 0;
    while i < team.players.len()
        invariant
            i <= team@.players.len(),
            forall|k: int| 0 <= k < i ==> (#[trigger] team@.players[k]).player_id != id@,
        decreases team@.players.len() - i,
    {
        if team.players[i].player_id == *id {
            assert(team@.players[i as int].player_id == id@);
            return true;
        }
        i = i + 1;
    }
    false
}

/// True when `ids` holds `id`.
fn contains_id(ids: &Vec<String>, id: &String) -> (r: bool)
    ensures
        r == exists|i: int| 0 <= i < ids@.len() && (#[trigger] ids@[i])@ == id@,
{
    let mut i: usize = 0;
    while i < ids.len()
        invariant
            i <= ids@.len(),
            forall|k: int| 0 <= k < i ==> (#[trigger] ids@[k])@ != id@,
        decreases ids@.len() - i,
    {
        if ids[i] == *id {
            return true;
        }
        i = i + 1;
    }
    false
}

} // verus!
