use crate::enums::{ActionType, Procedure, WeatherType};
use crate::execution::{
    active_loc, execute_player_movement, needs_dodge, step_possible, stepped,
};
use crate::game::{player_at_loc, tackle_zones, valid_loc, with_player, GameState, GameStateView};
use crate::geometry::Square;
use crate::model::{clamp_stat, PlayerView};
use crate::prob::{num_sum, sums_to_one, Prob};
use vstd::prelude::*;

verus! {

/// One outcome of a roll: its probability and the state it leads to.
#[derive(Debug)]
pub struct RolloutOutcome {
    pub probability: Prob,
    pub resulting_state: GameState,
}

impl RolloutOutcome {
    pub fn new(probability: Prob, resulting_state: GameState) -> (r: RolloutOutcome)
        ensures
            r.probability == probability,
            r.resulting_state == resulting_state,
    {
        RolloutOutcome { probability, resulting_state }
    }
}

/// The probabilities of a list of outcomes.
pub open spec fn probs(v: Seq<RolloutOutcome>) -> Seq<Prob> {
    v.map_values(|o: RolloutOutcome| o.probability)
}

/// The state after a failed roll for the step onto `sq`: the player falls over on `sq` and
/// the turn is lost.
pub open spec fn fallen(s: GameStateView, loc: (bool, int), sq: Square) -> GameStateView {
    let p = player_at_loc(s, loc);
    GameStateView {
        procedure: Some(Procedure::Turnover),
        parent_procedure: None,
        ..with_player(
            s,
            loc,
            PlayerView {
                state: crate::model::PlayerStateView { up: false, ..p.state },
                position: Some(sq),
                ..p
            },
        )
    }
}

/// The chance in six that a go-for-it roll succeeds: a 2+, or a 3+ in a blizzard.
pub open spec fn gfi_sixths(w: WeatherType) -> int {
    if w == WeatherType::Blizzard {
        4
    } else {
        5
    }
}

/// The die roll needed to dodge at agility `ag`: 6+ at 1, down to 1+ at 6 and above.
pub open spec fn agility_target(ag: int) -> int {
    if ag <= 1 {
        6
    } else if ag >= 6 {
        1
    } else {
        7 - ag
    }
}

/// The roll needed to dodge onto a square with `tz` opposing tackle zones, held to 2..6.
pub open spec fn dodge_roll_needed(ag: int, tz: int) -> int {
    let t = agility_target(ag) + tz;
    if t < 2 {
        2
    } else if t > 6 {
        6
    } else {
        t
    }
}

/// A roll is pending for a step: the target square is saved, a team is on move and the
/// active player is listed.
pub open spec fn roll_ready(s: GameStateView) -> bool {
    &&& s.position is Some
    &&& s.current_team_id is Some
    &&& active_loc(s) is Some
}

/// A go-for-it roll can be resolved: a roll is pending, the active player stands on the
/// pitch, and a step made at once is possible.
pub open spec fn gfi_ready(s: GameStateView) -> bool {
    roll_ready(s) && player_at_loc(s, active_loc(s).unwrap()).position is Some && (!needs_dodge(
        s,
        player_at_loc(s, active_loc(s).unwrap()),
    ) ==> step_possible(s, s.position.unwrap()))
}

/// The outcomes of a go-for-it roll: success with 5/6 (4/6 in a blizzard), which makes the
/// step or leads to a dodge first, and failure, a fall and a turnover.
pub open spec fn gfi_outcomes(s: GameStateView, v: Seq<RolloutOutcome>) -> bool {
    let loc = active_loc(s).unwrap();
    let sq = s.position.unwrap();
    &&& v.len() == 2
    &&& v[0].probability == (Prob { num: gfi_sixths(s.weather) as u64, den: 6 })
    &&& v[1].probability == (Prob { num: (6 - gfi_sixths(s.weather)) as u64, den: 6 })
    &&& sums_to_one(probs(v))
    &&& (needs_dodge(s, player_at_loc(s, loc)) ==> v[0].resulting_state@ == dodge_first(s))
    &&& (!needs_dodge(s, player_at_loc(s, loc)) ==> v[0].resulting_state@ == stepped(s, loc, sq))
    &&& v[1].resulting_state@ == fallen(s, loc, sq)
}

/// Play moves on to a dodge for the pending step.
pub open spec fn dodge_first(s: GameStateView) -> GameStateView {
    GameStateView { procedure: Some(Procedure::Dodge), ..s }
}

/// A dodge can be resolved: a roll is pending and the step is possible.
pub open spec fn dodge_ready(s: GameStateView) -> bool {
    roll_ready(s) && step_possible(s, s.position.unwrap())
}

/// The outcomes of a dodge: success with the chance of the roll needed, which makes the
/// step, and failure, a fall and a turnover.
pub open spec fn dodge_outcomes(s: GameStateView, v: Seq<RolloutOutcome>) -> bool {
    let loc = active_loc(s).unwrap();
    let sq = s.position.unwrap();
    let need = dodge_roll_needed(
        clamp_stat(player_at_loc(s, loc).ag) as int,
        tackle_zones(s, s.current_team_id.unwrap(), sq),
    );
    &&& v.len() == 2
    &&& v[0].probability == (Prob { num: (7 - need) as u64, den: 6 })
    &&& v[1].probability == (Prob { num: (need - 1) as u64, den: 6 })
    &&& sums_to_one(probs(v))
    &&& v[0].resulting_state@ == stepped(s, loc, sq)
    &&& v[1].resulting_state@ == fallen(s, loc, sq)
}

/// The five outcomes of one block die, each waiting on the choice of its face.
pub open spec fn block_outcomes(s: GameStateView, v: Seq<RolloutOutcome>) -> bool {
    &&& v.len() == 5
    &&& sums_to_one(probs(v))
    &&& forall|i: int|
        0 <= i < 5 ==> (#[trigger] v[i]).probability == (Prob {
            num: block_face(i).1 as u64,
            den: 6,
        }) && v[i].resulting_state@ == rolled(s, block_face(i).0)
}

/// A fall onto `sq` of the player listed at `loc`.
fn fall(game_state: &GameState, loc: (bool, usize), sq: Square) -> (r: GameState)
    requires
        valid_loc(game_state@, (loc.0, loc.1 as int)),
    ensures
        r@ == fallen(game_state@, (loc.0, loc.1 as int), sq),
{
    let mut state = game_state.clone();
    let mut p = state.player_at(loc).clone();
    p.state.up = false;
    p.position = Some(sq);
    state.set_player(loc, p);
    state.procedure = Some(Procedure::Turnover);
    state.parent_procedure = None;
    state
}

/// The two outcomes of a go-for-it roll for the step onto the saved square: success, with
/// 5/6 (4/6 in a blizzard), makes the step, or leads to a dodge first when the player stands
/// in an opposing tackle zone; failure, with the rest, is a fall and a turnover.
pub fn gfi_rollout(game_state: &GameState) -> (r: Result<Vec<RolloutOutcome>, String>)
    ensures
        r is Ok <==> gfi_ready(game_state@),
        r matches Ok(v) ==> gfi_outcomes(game_state@, v@),
{
    let sq = match game_state.position {
        Some(sq) => sq,
        None => {
            return Err("Missing position in GFI rollout".to_string());
        },
    };
    let team_id = match &game_state.current_team_id {
        Some(t) => t,
        None => {
            return Err("Missing current team id".to_string());
        },
    };
    let loc = match game_state.locate_active() {
        Some(l) => l,
        None => {
            return Err("Missing active player".to_string());
        },
    };
    let from = match game_state.player_at(loc).position {
        Some(p) => p,
        None => {
            return Err("Active player has no position".to_string());
        },
    };
    let n: u64 = if game_state.weather == WeatherType::Blizzard {
        4
    } else {
        5
    };
    let mut success = game_state.clone();
    if game_state.get_team_tackle_zones_at(team_id, &from) > 0 {
        success.procedure = Some(Procedure::Dodge);
    } else {
        match execute_player_movement(&mut success, sq) {
            Ok(()) => {},
            Err(e) => {
                return Err(e);
            },
        }
    }
    let failure = fall(game_state, loc, sq);
    let mut outcomes: Vec<RolloutOutcome> = Vec::new();
    outcomes.push(RolloutOutcome::new(Prob::sixths(n), success));
    outcomes.push(RolloutOutcome::new(Prob::sixths(6 - n), failure));
    proof {
        let ps = probs(outcomes@);
        assert(ps.drop_last().drop_last() =~= Seq::<Prob>::empty());
        reveal_with_fuel(num_sum, 6);
        assert(num_sum(ps) == 6);
    }
    Ok(outcomes)
}

/// The agility target of the dodge table for agility `ag`.
fn agility_target_exec(ag: u8) -> (r: u8)
    ensures
        r == agility_target(ag as int),
{
    if ag <= 1 {
        6
    } else if ag >= 6 {
        1
    } else {
        7 - ag
    }
}

/// The two outcomes of a dodge for the step onto the saved square. The roll needed is the
/// agility target plus one per opposing tackle zone on that square, held to 2..6; success
/// makes the step, failure is a fall and a turnover.
pub fn dodge_rollout(game_state: &GameState) -> (r: Result<Vec<RolloutOutcome>, String>)
    ensures
        r is Ok <==> dodge_ready(game_state@),
        r matches Ok(v) ==> dodge_outcomes(game_state@, v@),
{
    let sq = match game_state.position {
        Some(sq) => sq,
        None => {
            return Err("Missing position in dodge rollout".to_string());
        },
    };
    let team_id = match &game_state.current_team_id {
        Some(t) => t,
        None => {
            return Err("Missing current team id".to_string());
        },
    };
    let loc = match game_state.locate_active() {
        Some(l) => l,
        None => {
            return Err("Missing active player".to_string());
        },
    };
    let ag = game_state.player_at(loc).get_ag();
    let tz_all = game_state.get_team_tackle_zones_at(team_id, &sq);
    let tz: usize = if tz_all > 6 {
        6
    } else {
        tz_all
    };
    let base = agility_target_exec(ag) as usize;
    let need: u64 = if base + tz < 2 {
        2
    } else if base + tz > 6 {
        6
    } else {
        (base + tz) as u64
    };
    let mut success = game_state.clone();
    match execute_player_movement(&mut success, sq) {
        Ok(()) => {},
        Err(e) => {
            return Err(e);
        },
    }
    let failure = fall(game_state, loc, sq);
    let mut outcomes: Vec<RolloutOutcome> = Vec::new();
    outcomes.push(RolloutOutcome::new(Prob::sixths(7 - need), success));
    outcomes.push(RolloutOutcome::new(Prob::sixths(need - 1), failure));
    proof {
        let ps = probs(outcomes@);
        assert(ps.drop_last().drop_last() =~= Seq::<Prob>::empty());
        reveal_with_fuel(num_sum, 6);
        assert(num_sum(ps) == 6);
    }
    Ok(outcomes)
}

/// The faces of one block die in the order of the outcomes, with their chances in six.
pub open spec fn block_face(i: int) -> (ActionType, int) {
    if i == 0 {
        (ActionType::SelectDefenderStumbles, 1)
    } else if i == 1 {
        (ActionType::SelectDefenderDown, 1)
    } else if i == 2 {
        (ActionType::SelectPush, 2)
    } else if i == 3 {
        (ActionType::SelectBothDown, 1)
    } else {
        (ActionType::SelectAttackerDown, 1)
    }
}

/// The state awaiting the choice of the rolled face `face`.
pub open spec fn rolled(s: GameStateView, face: ActionType) -> GameStateView {
    GameStateView { procedure: Some(Procedure::Block), rolls: seq![face], ..s }
}

/// The five outcomes of one block die: defender stumbles, defender down, push (two faces),
/// both down and attacker down; each waits in `Block` for the rolled face to be chosen.
pub fn block_roll_rollout(game_state: &GameState) -> (r: Vec<RolloutOutcome>)
    ensures
        block_outcomes(game_state@, r@),
{
    let faces: [ActionType; 5] = [
        ActionType::SelectDefenderStumbles,
        ActionType::SelectDefenderDown,
        ActionType::SelectPush,
        ActionType::SelectBothDown,
        ActionType::SelectAttackerDown,
    ];
    let weights: [u64; 5] = [1, 1, 2, 1, 1];
    let mut outcomes: Vec<RolloutOutcome> = Vec::new();
    let mut i: usize = 0;
    while i < 5
        invariant
            i <= 5,
            outcomes@.len() == i,
            forall|j: int| 0 <= j < 5 ==> faces@[j] == block_face(j).0 && weights@[j] == block_face(j).1,
            forall|j: int|
                0 <= j < i ==> (#[trigger] outcomes@[j]).probability == (Prob {
                    num: block_face(j).1 as u64,
                    den: 6,
                }) && outcomes@[j].resulting_state@ == rolled(game_state@, block_face(j).0),
        decreases 5 - i,
    {
        let mut state = game_state.clone();
        state.procedure = Some(Procedure::Block);
        let mut rolls: Vec<ActionType> = Vec::new();
        rolls.push(faces[i]);
        state.rolls = rolls;
        proof {
            assert(state@.rolls =~= seq![block_face(i as int).0]);
            assert(state@ == rolled(game_state@, block_face(i as int).0));
        }
        outcomes.push(RolloutOutcome::new(Prob::sixths(weights[i]), state));
        i = i + 1;
    }
    proof {
        let ps = probs(outcomes@);
        assert(ps.drop_last().drop_last().drop_last().drop_last().drop_last() =~= Seq::<
            Prob,
        >::empty());
        reveal_with_fuel(num_sum, 6);
        assert(num_sum(ps) == 6);
    }
    outcomes
}

} // verus!
