use crate::blocking::{
    block_declared, block_execution, follow_up_done, follow_up_execution, is_push_face,
    push_execution, push_selected, select_execution,
};
use crate::discovery::{aimed_at, attack_ready, free_receiver, high_kick_actions, key, opponents_near_active, push_choices, push_pair, push_ready, receiving_team, select_each, some_block_considered, standing_on_pitch, setup_actions, team_on_move, turn_actions, turn_actions_upto, turn_fails, block_action_discovery, block_discovery, coin_toss_flip_action_discovery, coin_toss_kick_receive_discovery, ejection_discovery, follow_up_discovery, high_kick_discovery, interception_discovery, place_ball_discovery, push_discovery, reroll_discovery, setup_discovery, touchback_discovery, turn_discovery, with_actions};
use crate::enums::{ActionType, Procedure};
use crate::execution::{move_ok, move_outcome, active_loc, player_turn_ended, started, started_limited, stood_up, turn_ended, end_player_turn_execution, end_turn_execution, move_execution, stand_up_execution, start_blitz_execution, start_block_execution, start_foul_execution, start_handoff_execution, start_move_execution, start_pass_execution};
use crate::game::{own_team, team_players, GameState, GameStateView};
use crate::geometry::{spec_out_of_bounds, Square};
use crate::model::ActionKey;
use crate::model::Action;
use crate::movement_discovery::{blitz_discovery, foul_discovery, handoff_discovery, move_discovery, pass_action_discovery};
use crate::prob::sums_to_one;
use crate::rollout::{block_roll_rollout, dodge_rollout, gfi_rollout, probs, RolloutOutcome};
use vstd::prelude::*;

verus! {

/// The procedures whose discovery the registry knows.
pub open spec fn discoverable(p: Procedure) -> bool {
    match p {
        Procedure::CoinTossFlip | Procedure::CoinTossKickReceive | Procedure::Setup
        | Procedure::PlaceBall | Procedure::Touchback | Procedure::HighKick | Procedure::Turn
        | Procedure::Reroll | Procedure::Ejection | Procedure::BlockAction | Procedure::Block
        | Procedure::FollowUp | Procedure::Push | Procedure::BlitzAction | Procedure::FoulAction
        | Procedure::HandoffAction | Procedure::MoveAction | Procedure::PassAction
        | Procedure::Interception | Procedure::EndTurn | Procedure::Turnover
        | Procedure::Touchdown => true,
        _ => false,
    }
}

/// The procedures whose discovered actions are fixed exactly by the state (those of the
/// movement procedures depend on the pathfinder's search and are only described).
pub open spec fn exact_discovery(p: Procedure) -> bool {
    match p {
        Procedure::CoinTossFlip | Procedure::CoinTossKickReceive | Procedure::Setup
        | Procedure::PlaceBall | Procedure::Touchback | Procedure::HighKick | Procedure::Turn | Procedure::Reroll
        | Procedure::Ejection | Procedure::BlockAction | Procedure::Block | Procedure::FollowUp
        | Procedure::Push | Procedure::EndTurn | Procedure::Turnover | Procedure::Touchdown => true,
        _ => false,
    }
}

/// The actions that discovery writes in a procedure of `exact_discovery`, or `None` where it
/// fails.
pub open spec fn discovered(s: GameStateView) -> Option<Seq<ActionKey>> {
    match s.procedure.unwrap() {
        Procedure::CoinTossFlip => Some(
            seq![key(ActionType::Heads, None, None), key(ActionType::Tails, None, None)],
        ),
        Procedure::CoinTossKickReceive => Some(
            seq![key(ActionType::Kick, None, None), key(ActionType::Receive, None, None)],
        ),
        Procedure::Setup => if s.current_team_id is Some {
            Some(setup_actions(s))
        } else {
            None
        },
        Procedure::PlaceBall => Some(
            crate::game::receiving_side(s).map_values(
                |sq: Square| key(ActionType::PlaceBall, None, Some(sq)),
            ),
        ),
        Procedure::Touchback => if s.receiving_this_drive is None {
            Some(s.available_actions)
        } else if receiving_team(s) is None {
            None
        } else {
            Some(select_each(team_players(receiving_team(s)), standing_on_pitch()))
        },
        Procedure::HighKick => if s.receiving_this_drive is None {
            Some(Seq::empty())
        } else if receiving_team(s) is Some && crate::game::ball_position(s) is Some {
            Some(high_kick_actions(s))
        } else {
            None
        },
        Procedure::Turn => if !team_on_move(s) {
            Some(Seq::empty())
        } else if turn_fails(s) {
            None
        } else {
            Some(turn_actions(s))
        },
        Procedure::Reroll => Some(
            seq![key(ActionType::UseReroll, None, None), key(ActionType::DontUseReroll, None, None)],
        ),
        Procedure::Ejection => {
            let t = own_team(s, s.current_team_id.unwrap());
            if s.current_team_id is Some && t is Some {
                Some(
                    if t.unwrap().bribes > 0 {
                        seq![
                            key(ActionType::UseBribe, None, None),
                            key(ActionType::DontUseBribe, None, None),
                        ]
                    } else {
                        seq![key(ActionType::DontUseBribe, None, None)]
                    },
                )
            } else {
                None
            }
        },
        Procedure::BlockAction => if attack_ready(s) {
            Some(
                aimed_at(opponents_near_active(s), ActionType::Block, true).push(
                    key(ActionType::EndPlayerTurn, None, None),
                ),
            )
        } else {
            None
        },
        Procedure::Block => Some(s.rolls.map_values(|t: ActionType| key(t, None, None))),
        Procedure::FollowUp => {
            let bc = s.block_context.unwrap();
            let att = crate::game::player_by_id(s, bc.attacker);
            if s.block_context is Some && att is Some {
                Some(
                    seq![
                        key(ActionType::FollowUp, None, Some(bc.position)),
                        key(ActionType::FollowUp, None, att.unwrap().position),
                    ],
                )
            } else {
                None
            }
        },
        Procedure::Push => if push_ready(s) {
            Some(
                push_choices(s, push_pair(s).0, push_pair(s).1).map_values(
                    |sq: Square| key(ActionType::Push, None, Some(sq)),
                ),
            )
        } else {
            None
        },
        _ => Some(s.available_actions),
    }
}

/// `t` is the state after `a` is executed on `s`.
pub open spec fn executes_to(s: GameStateView, a: Action, t: GameStateView) -> bool {
    match a.action_type {
        ActionType::StartMove => a.player is Some && t == started(s, a.player.unwrap()@, Procedure::MoveAction),
        ActionType::StartBlock => a.player is Some && t == started(s, a.player.unwrap()@, Procedure::BlockAction),
        ActionType::StartBlitz => t == started_limited(s, a.player.unwrap()@, Procedure::BlitzAction),
        ActionType::StartPass => t == started_limited(s, a.player.unwrap()@, Procedure::PassAction),
        ActionType::StartHandoff => t == started_limited(s, a.player.unwrap()@, Procedure::HandoffAction),
        ActionType::StartFoul => t == started_limited(s, a.player.unwrap()@, Procedure::FoulAction),
        ActionType::EndTurn => t == turn_ended(s),
        ActionType::EndPlayerTurn => t == player_turn_ended(s, active_loc(s).unwrap()),
        ActionType::StandUp => t == stood_up(s, active_loc(s).unwrap()),
        ActionType::Block => t == block_declared(s, a.position.unwrap()),
        ActionType::Move => move_ok(s, a) && t == move_outcome(s, a),
        ActionType::Push => crate::blocking::push_ok(s, a) && t == crate::blocking::push_outcome(s, a),
        ActionType::SelectDefenderDown | ActionType::SelectDefenderStumbles | ActionType::SelectPush => t
            == push_selected(s, a.action_type),
        ActionType::SelectBothDown => t == crate::blocking::both_down(s),
        ActionType::SelectAttackerDown => t == crate::blocking::attacker_down(s),
        ActionType::FollowUp => t == follow_up_done(
            s,
            crate::game::locate(s, crate::game::has_id(s.block_context.unwrap().attacker)).unwrap(),
            a.position.unwrap(),
        ),
        _ => false,
    }
}

/// `v` are the outcomes of the roll pending in `s`.
pub open spec fn rolls_out(s: GameStateView, v: Seq<RolloutOutcome>) -> bool {
    match s.procedure {
        Some(Procedure::GFI) => crate::rollout::gfi_outcomes(s, v),
        Some(Procedure::Dodge) => crate::rollout::dodge_outcomes(s, v),
        Some(Procedure::BlockRoll) => crate::rollout::block_outcomes(s, v),
        _ => false,
    }
}

/// The procedures in which the dice decide.
pub open spec fn is_chance(p: Procedure) -> bool {
    p == Procedure::GFI || p == Procedure::Dodge || p == Procedure::BlockRoll
}

/// The procedures that end a search line: the turn is over.
pub open spec fn ends_line(p: Procedure) -> bool {
    p == Procedure::EndTurn || p == Procedure::Touchdown || p == Procedure::Turnover
}

/// The action types that the registry can execute.
pub open spec fn executable(t: ActionType) -> bool {
    match t {
        ActionType::StartMove | ActionType::StartBlock | ActionType::StartFoul
        | ActionType::StartBlitz | ActionType::StartHandoff | ActionType::StartPass
        | ActionType::EndPlayerTurn | ActionType::EndTurn | ActionType::Move
        | ActionType::StandUp | ActionType::Block | ActionType::SelectDefenderDown
        | ActionType::SelectDefenderStumbles | ActionType::SelectPush
        | ActionType::SelectBothDown | ActionType::SelectAttackerDown | ActionType::Push
        | ActionType::FollowUp => true,
        _ => false,
    }
}

/// The procedure that an executed action leaves play in, where it is fixed by the action.
pub open spec fn procedure_after(t: ActionType) -> Option<Procedure> {
    match t {
        ActionType::StartMove => Some(Procedure::MoveAction),
        ActionType::StartBlock => Some(Procedure::BlockAction),
        ActionType::StartFoul => Some(Procedure::FoulAction),
        ActionType::StartBlitz => Some(Procedure::BlitzAction),
        ActionType::StartHandoff => Some(Procedure::HandoffAction),
        ActionType::StartPass => Some(Procedure::PassAction),
        ActionType::EndPlayerTurn => Some(Procedure::Turn),
        ActionType::EndTurn => Some(Procedure::EndTurn),
        ActionType::Block => Some(Procedure::BlockRoll),
        ActionType::SelectDefenderDown => Some(Procedure::Push),
        ActionType::SelectDefenderStumbles => Some(Procedure::Push),
        ActionType::SelectPush => Some(Procedure::Push),
        ActionType::SelectBothDown => Some(Procedure::Turnover),
        ActionType::SelectAttackerDown => Some(Procedure::Turnover),
        _ => None,
    }
}

/// The dispatch tables of discovery, execution and rollouts, keyed by procedure and
/// action type.
pub struct ActionRegistry {}

impl Default for ActionRegistry {
    fn default() -> (r: ActionRegistry) {
        ActionRegistry {}
    }
}

impl ActionRegistry {
    pub fn new() -> (r: ActionRegistry) {
        ActionRegistry {}
    }

    /// Writes the legal actions of the current procedure to `available_actions`; nothing
    /// else changes. Fails on an unknown procedure or missing context, leaving the state
    /// as it was. In the terminal procedures the actions are left as they are.
    pub fn discover_actions(&self, game_state: &mut GameState) -> (r: Result<(), String>)
        ensures
            r is Err ==> final(game_state)@ == old(game_state)@,
            r is Ok ==> final(game_state)@ == with_actions(
                old(game_state)@,
                final(game_state)@.available_actions,
            ),
            (old(game_state).procedure is None || !discoverable(
                old(game_state).procedure.unwrap(),
            )) ==> r is Err,
            old(game_state).procedure matches Some(p) && ends_line(p) ==> r is Ok && final(game_state)@ == old(game_state)@,
            old(game_state).procedure == Some(Procedure::MoveAction) ==> (r is Ok <==> crate::movement_discovery::move_ready(old(game_state)@)),
            old(game_state).procedure == Some(Procedure::MoveAction) && r is Ok ==> crate::movement_discovery::move_discovered(
                old(game_state)@,
                final(game_state)@.available_actions,
            ),
            old(game_state).procedure == Some(Procedure::FoulAction) ==> (r is Ok <==> crate::movement_discovery::move_ready(old(game_state)@)
                && attack_ready(old(game_state)@)),
            old(game_state).procedure == Some(Procedure::BlitzAction) ==> (r is Ok <==> crate::movement_discovery::move_ready(old(game_state)@)
                && crate::movement_discovery::blitz_prefix(old(game_state)@) is Some),
            old(game_state).procedure == Some(Procedure::HandoffAction) ==> (r is Ok <==> crate::movement_discovery::move_ready(old(game_state)@)
                && crate::movement_discovery::handoff_prefix(old(game_state)@) is Some),
            old(game_state).procedure == Some(Procedure::PassAction) ==> (r is Ok <==> crate::movement_discovery::move_ready(old(game_state)@)),
            old(game_state).procedure == Some(Procedure::Interception) ==> (r is Ok <==> crate::discovery::interception_ready(old(game_state)@)),
            old(game_state).procedure matches Some(p) && exact_discovery(p) ==> (r is Ok
                <==> discovered(old(game_state)@) is Some),
            old(game_state).procedure matches Some(p) && exact_discovery(p) && r is Ok ==> final(game_state)@ == with_actions(old(game_state)@, discovered(old(game_state)@).unwrap()),
    {
        match game_state.procedure {
            Some(Procedure::CoinTossFlip) => coin_toss_flip_action_discovery(game_state),
            Some(Procedure::CoinTossKickReceive) => coin_toss_kick_receive_discovery(game_state),
            Some(Procedure::Setup) => setup_discovery(game_state),
            Some(Procedure::PlaceBall) => place_ball_discovery(game_state),
            Some(Procedure::Touchback) => touchback_discovery(game_state),
            Some(Procedure::HighKick) => high_kick_discovery(game_state),
            Some(Procedure::Turn) => turn_discovery(game_state),
            Some(Procedure::Reroll) => reroll_discovery(game_state),
            Some(Procedure::Ejection) => ejection_discovery(game_state),
            Some(Procedure::BlockAction) => block_action_discovery(game_state),
            Some(Procedure::Block) => block_discovery(game_state),
            Some(Procedure::FollowUp) => follow_up_discovery(game_state),
            Some(Procedure::Push) => push_discovery(game_state),
            Some(Procedure::BlitzAction) => blitz_discovery(game_state),
            Some(Procedure::FoulAction) => foul_discovery(game_state),
            Some(Procedure::HandoffAction) => handoff_discovery(game_state),
            Some(Procedure::MoveAction) => move_discovery(game_state),
            Some(Procedure::PassAction) => pass_action_discovery(game_state),
            Some(Procedure::Interception) => interception_discovery(game_state),
            Some(Procedure::EndTurn) => Ok(()),
            Some(Procedure::Turnover) => Ok(()),
            Some(Procedure::Touchdown) => Ok(()),
            Some(_) => Err("Procedure not supported in action discovery".to_string()),
            None => Err("No procedure found in action discovery".to_string()),
        }
    }

    /// Executes `action` on the state. Fails on an action type without execution or on
    /// missing context, leaving the state as it was.
    pub fn execute_action(&self, game_state: &mut GameState, action: &Action) -> (r: Result<
        (),
        String,
    >)
        ensures
            r is Err ==> final(game_state)@ == old(game_state)@,
            r is Ok ==> executes_to(old(game_state)@, *action, final(game_state)@),
            !executable(action.action_type) ==> r is Err,
            r is Ok && procedure_after(action.action_type) is Some ==> final(game_state).procedure
                == procedure_after(action.action_type),
            action.action_type == ActionType::StartMove && r is Ok ==> final(game_state)@ == started(
                old(game_state)@,
                action.player.unwrap()@,
                Procedure::MoveAction,
            ),
            action.action_type == ActionType::StartBlock && r is Ok ==> final(game_state)@ == started(
                old(game_state)@,
                action.player.unwrap()@,
                Procedure::BlockAction,
            ),
            action.action_type == ActionType::StartBlitz && r is Ok ==> final(game_state)@
                == started_limited(old(game_state)@, action.player.unwrap()@, Procedure::BlitzAction),
            action.action_type == ActionType::StartPass && r is Ok ==> final(game_state)@
                == started_limited(old(game_state)@, action.player.unwrap()@, Procedure::PassAction),
            action.action_type == ActionType::StartHandoff && r is Ok ==> final(game_state)@
                == started_limited(old(game_state)@, action.player.unwrap()@, Procedure::HandoffAction),
            action.action_type == ActionType::StartFoul && r is Ok ==> final(game_state)@
                == started_limited(old(game_state)@, action.player.unwrap()@, Procedure::FoulAction),
            action.action_type == ActionType::EndTurn ==> r is Ok && final(game_state)@ == turn_ended(
                old(game_state)@,
            ),
            action.action_type == ActionType::EndPlayerTurn && r is Ok ==> final(game_state)@
                == player_turn_ended(old(game_state)@, active_loc(old(game_state)@).unwrap()),
            action.action_type == ActionType::StandUp && r is Ok ==> final(game_state)@ == stood_up(
                old(game_state)@,
                active_loc(old(game_state)@).unwrap(),
            ),
            action.action_type == ActionType::Block && r is Ok ==> final(game_state)@
                == block_declared(old(game_state)@, action.position.unwrap()),
            action.action_type == ActionType::Move ==> (r is Ok <==> move_ok(old(game_state)@, *action)),
            action.action_type == ActionType::Push ==> (r is Ok <==> crate::blocking::push_ok(old(game_state)@, *action)),
            action.action_type == ActionType::Push && r is Ok ==> final(game_state)@ == crate::blocking::push_outcome(
                old(game_state)@,
                *action,
            ),
            action.action_type == ActionType::Move && r is Ok ==> final(game_state)@ == move_outcome(
                old(game_state)@,
                *action,
            ),
            is_push_face(action.action_type) && r is Ok ==> final(game_state)@ == push_selected(
                old(game_state)@,
                action.action_type,
            ),
            action.action_type == ActionType::FollowUp && r is Ok ==> final(game_state)@
                == follow_up_done(
                old(game_state)@,
                crate::game::locate(
                    old(game_state)@,
                    crate::game::has_id(old(game_state)@.block_context.unwrap().attacker),
                ).unwrap(),
                action.position.unwrap(),
            ),
            r is Ok && action.action_type == ActionType::FollowUp ==> (final(game_state).procedure
                == Some(Procedure::Turn) || final(game_state).procedure == Some(
                Procedure::BlitzAction,
            )),
            r is Ok && action.action_type == ActionType::Push ==> (final(game_state).procedure
                == old(game_state).procedure || final(game_state).procedure == Some(
                Procedure::FollowUp,
            ) || final(game_state).procedure == Some(Procedure::Touchdown)),
    {
        match action.action_type {
            ActionType::StartMove => start_move_execution(game_state, action),
            ActionType::StartBlock => start_block_execution(game_state, action),
            ActionType::StartFoul => start_foul_execution(game_state, action),
            ActionType::StartBlitz => start_blitz_execution(game_state, action),
            ActionType::StartHandoff => start_handoff_execution(game_state, action),
            ActionType::StartPass => start_pass_execution(game_state, action),
            ActionType::EndPlayerTurn => end_player_turn_execution(game_state),
            ActionType::EndTurn => end_turn_execution(game_state),
            ActionType::Move => move_execution(game_state, action),
            ActionType::StandUp => stand_up_execution(game_state),
            ActionType::Block => block_execution(game_state, action),
            ActionType::SelectDefenderDown => select_execution(game_state, action.action_type),
            ActionType::SelectDefenderStumbles => select_execution(game_state, action.action_type),
            ActionType::SelectPush => select_execution(game_state, action.action_type),
            ActionType::SelectBothDown => select_execution(game_state, action.action_type),
            ActionType::SelectAttackerDown => select_execution(game_state, action.action_type),
            ActionType::Push => push_execution(game_state, action),
            ActionType::FollowUp => follow_up_execution(game_state, action),
            _ => Err("Action has no execution in the registry".to_string()),
        }
    }

    /// The outcomes of the roll of the current chance procedure, whose probabilities sum to
    /// one. Fails on a procedure without rollout or on missing context.
    pub fn rollout_chance_outcomes(&self, game_state: &GameState) -> (r: Result<
        Vec<RolloutOutcome>,
        String,
    >)
        ensures
            r matches Ok(v) ==> sums_to_one(probs(v@)) && v@.len() <= 5 && rolls_out(game_state@, v@),
            r matches Ok(v) ==> forall|k: int| 0 <= k < v@.len() ==> (#[trigger] v@[k]).probability.num > 0,
            (game_state.procedure is None || !is_chance(game_state.procedure.unwrap())) ==> r is Err,
            game_state.procedure == Some(Procedure::BlockRoll) ==> r is Ok && crate::rollout::block_outcomes(game_state@, r.unwrap()@),
            game_state.procedure == Some(Procedure::GFI) ==> (r is Ok <==> crate::rollout::gfi_ready(game_state@)),
            game_state.procedure == Some(Procedure::GFI) && r is Ok ==> crate::rollout::gfi_outcomes(game_state@, r.unwrap()@),
            game_state.procedure == Some(Procedure::Dodge) ==> (r is Ok <==> crate::rollout::dodge_ready(game_state@)),
            game_state.procedure == Some(Procedure::Dodge) && r is Ok ==> crate::rollout::dodge_outcomes(game_state@, r.unwrap()@),
    {
        match game_state.procedure {
            Some(Procedure::GFI) => gfi_rollout(game_state),
            Some(Procedure::Dodge) => dodge_rollout(game_state),
            Some(Procedure::BlockRoll) => Ok(block_roll_rollout(game_state)),
            _ => Err("Procedure has no rollout".to_string()),
        }
    }
}

/// The turn actions do not read the actions stored before.
proof fn lemma_turn_actions_ignore_stored(
    s: GameStateView,
    x: Seq<ActionKey>,
    ts: crate::model::TurnState,
    id: Seq<char>,
    ps: Seq<crate::model::PlayerView>,
    n: int,
)
    ensures
        turn_actions_upto(with_actions(s, x), ts, id, ps, n) == turn_actions_upto(s, ts, id, ps, n),
    decreases n,
{
    if n > 0 {
        lemma_turn_actions_ignore_stored(s, x, ts, id, ps, n - 1);
    }
}

/// What discovery writes does not depend on the actions stored before.
pub proof fn lemma_discovered_ignores_stored(s: GameStateView, x: Seq<ActionKey>)
    requires
        s.procedure matches Some(p) && exact_discovery(p) && !ends_line(p) && p
            != Procedure::Touchback,
    ensures
        discovered(with_actions(s, x)) == discovered(s),
{
    let t = with_actions(s, x);
    let id = s.current_team_id.unwrap();
    let ps = team_players(own_team(s, id));
    lemma_turn_actions_ignore_stored(s, x, s.turn_state.unwrap(), id, ps, ps.len() as int);
    assert(some_block_considered(t, s.turn_state.unwrap(), id, ps, ps.len() as int)
        == some_block_considered(s, s.turn_state.unwrap(), id, ps, ps.len() as int));
    if s.receiving_this_drive is Some {
        let rid = s.receiving_this_drive.unwrap();
        assert(free_receiver(t, rid) =~= free_receiver(s, rid));
    }
    if push_ready(s) {
        let (a, d) = push_pair(s);
        let fe = |sq: Square| !spec_out_of_bounds(sq) && crate::game::player_on(s, sq) is None;
        let fe2 = |sq: Square| !spec_out_of_bounds(sq) && crate::game::player_on(t, sq) is None;
        assert(fe =~= fe2);
    }
}

/// Discovery is idempotent: run again on the state it produced, it writes the same actions.
pub proof fn lemma_discovery_idempotent(s: GameStateView)
    requires
        s.procedure matches Some(p) && exact_discovery(p),
        discovered(s) is Some,
    ensures
        discovered(with_actions(s, discovered(s).unwrap())) == discovered(s),
{
    let p = s.procedure.unwrap();
    if ends_line(p) || (p == Procedure::Touchback && s.receiving_this_drive is None) {
        assert(with_actions(s, discovered(s).unwrap()) == s);
    } else if p == Procedure::Touchback {
    } else {
        lemma_discovered_ignores_stored(s, discovered(s).unwrap());
    }
}

} // verus!
