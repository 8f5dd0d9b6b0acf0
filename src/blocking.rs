use crate::enums::{ActionType, Procedure};

use crate::game::{ball_position, spec_ball_carried, has_id, locate, player_at_loc, player_on, valid_loc, with_player, GameState, GameStateView};
use crate::geometry::{spec_out_of_bounds, Square, ARENA_WIDTH};
use crate::model::{Action, BlockContext, BlockContextView, PlayerView, PushChainItem, PushChainItemView};
use vstd::prelude::*;

verus! {

/// A block of the defender on `target` has been declared: the dice are to be rolled.
pub open spec fn block_declared(s: GameStateView, target: Square) -> GameStateView {
    GameStateView {
        procedure: Some(Procedure::BlockRoll),
        block_context: Some(
            BlockContextView {
                attacker: s.active_player_id.unwrap(),
                defender: player_on(s, target).unwrap().player_id,
                position: target,
                knock_out: false,
                push_chain: Seq::empty(),
            },
        ),
        ..s
    }
}

/// Executes a `Block` on the player standing on the action's square: the active player
/// attacks, and play moves to the roll of the block dice.
pub fn block_execution(game_state: &mut GameState, action: &Action) -> (r: Result<(), String>)
    ensures
        r is Ok <==> action.position is Some && old(game_state).active_player_id is Some
            && player_on(old(game_state)@, action.position.unwrap()) is Some,
        r is Ok ==> final(game_state)@ == block_declared(
            old(game_state)@,
            action.position.unwrap(),
        ),
        r is Err ==> final(game_state)@ == old(game_state)@,
{
    let target = match action.position {
        Some(sq) => sq,
        None => {
            return Err("Position missing in Block action".to_string());
        },
    };
    let attacker = match &game_state.active_player_id {
        Some(id) => id.clone(),
        None => {
            return Err("Missing active player in Block action".to_string());
        },
    };
    let defender = match game_state.get_player_at(&target) {
        Ok(p) => p.player_id.clone(),
        Err(e) => {
            return Err(e);
        },
    };
    let bc = BlockContext::new(attacker, defender, target);
    proof {
        assert(bc@.push_chain =~= Seq::<PushChainItemView>::empty());
    }
    game_state.procedure = Some(Procedure::BlockRoll);
    game_state.block_context = Some(bc);
    Ok(())
}

/// The dice faces that lead to a push.
pub open spec fn is_push_face(t: ActionType) -> bool {
    t == ActionType::SelectDefenderDown || t == ActionType::SelectDefenderStumbles || t
        == ActionType::SelectPush
}

/// The dice faces that can be selected in the `Block` procedure.
pub open spec fn is_block_face(t: ActionType) -> bool {
    is_push_face(t) || t == ActionType::SelectBothDown || t == ActionType::SelectAttackerDown
}

/// The block context after a face that pushes: the attacker pushes the defender, and
/// the defender is to be knocked out on `DefenderDown` and `DefenderStumbles`.
pub open spec fn push_started(bc: BlockContextView, t: ActionType) -> BlockContextView {
    BlockContextView {
        knock_out: bc.knock_out || t != ActionType::SelectPush,
        push_chain: bc.push_chain.push(
            PushChainItemView { attacker: bc.attacker, defender: bc.defender, position: None },
        ),
        ..bc
    }
}

/// Play moves on to the push chosen with `face`.
pub open spec fn push_selected(s: GameStateView, face: ActionType) -> GameStateView {
    GameStateView {
        procedure: Some(Procedure::Push),
        block_context: Some(push_started(s.block_context.unwrap(), face)),
        ..s
    }
}

/// The attacker knocked out, and the turn lost.
pub open spec fn attacker_down(s: GameStateView) -> GameStateView {
    GameStateView {
        procedure: Some(Procedure::Turnover),
        ..knocked_out(s, locate(s, has_id(s.block_context.unwrap().attacker)).unwrap())
    }
}

/// Both players knocked out, and the turn lost.
pub open spec fn both_down(s: GameStateView) -> GameStateView {
    let bc = s.block_context.unwrap();
    let s1 = knocked_out(s, locate(s, has_id(bc.attacker)).unwrap());
    GameStateView {
        procedure: Some(Procedure::Turnover),
        ..knocked_out(s1, locate(s1, has_id(bc.defender)).unwrap())
    }
}

/// The player at `loc` knocked out.
pub open spec fn knocked_out(s: GameStateView, loc: (bool, int)) -> GameStateView {
    let p = player_at_loc(s, loc);
    with_player(
        s,
        loc,
        PlayerView { state: crate::model::PlayerStateView { knocked_out: true, ..p.state }, ..p },
    )
}

/// Knocking a player out leaves every identifier where it was.
proof fn lemma_knock_out_keeps_ids(s: GameStateView, loc: (bool, int), id: Seq<char>)
    requires
        valid_loc(s, loc),
    ensures
        locate(knocked_out(s, loc), has_id(id)) == locate(s, has_id(id)),
{
    let t = knocked_out(s, loc);
    crate::game::lemma_first_from_same(
        crate::game::team_players(s.home),
        crate::game::team_players(t.home),
        has_id(id),
        0,
    );
    crate::game::lemma_first_from_same(
        crate::game::team_players(s.away),
        crate::game::team_players(t.away),
        has_id(id),
        0,
    );
}

impl GameState {
    /// Knocks out the player listed at `loc`.
    fn knock_out_at(&mut self, loc: (bool, usize))
        requires
            valid_loc(old(self)@, (loc.0, loc.1 as int)),
        ensures
            final(self)@ == knocked_out(old(self)@, (loc.0, loc.1 as int)),
    {
        let mut p = self.player_at(loc).clone();
        p.state.knocked_out = true;
        self.set_player(loc, p);
    }
}

/// Executes the selection of a block die face. A face that pushes moves play to `Push`
/// with the attacker pushing the defender; `BothDown` knocks out both players and
/// `AttackerDown` the attacker, and each ends the turn.
pub fn select_execution(game_state: &mut GameState, face: ActionType) -> (r: Result<(), String>)
    requires
        is_block_face(face),
    ensures
        ({
            let s = old(game_state)@;
            r is Ok <==> s.block_context is Some && (face == ActionType::SelectBothDown
                || face == ActionType::SelectAttackerDown ==> locate(
                s,
                has_id(s.block_context.unwrap().attacker),
            ) is Some) && (face == ActionType::SelectBothDown ==> locate(
                s,
                has_id(s.block_context.unwrap().defender),
            ) is Some)
        }),
        r is Ok && is_push_face(face) ==> final(game_state)@ == push_selected(
            old(game_state)@,
            face,
        ),
        r is Ok && face == ActionType::SelectBothDown ==> final(game_state)@ == both_down(
            old(game_state)@,
        ),
        r is Ok && !is_push_face(face) ==> final(game_state)@.procedure == Some(
            Procedure::Turnover,
        ),
        r is Ok && face == ActionType::SelectAttackerDown ==> final(game_state)@ == attacker_down(
            old(game_state)@,
        ),
        r is Err ==> final(game_state)@ == old(game_state)@,
{
    let bc = match &game_state.block_context {
        Some(bc) => bc.clone(),
        None => {
            return Err("Missing block context".to_string());
        },
    };
    if face == ActionType::SelectDefenderDown || face == ActionType::SelectDefenderStumbles || face
        == ActionType::SelectPush {
        let mut bc = bc;
        let ghost old_bc = bc@;
        if face != ActionType::SelectPush {
            bc.knock_out = true;
        }
        let item = PushChainItem::new(bc.attacker.clone(), bc.defender.clone(), None);
        bc.push_chain.push(item);
        proof {
            assert(bc@.push_chain =~= old_bc.push_chain.push(item@));
        }
        game_state.block_context = Some(bc);
        game_state.procedure = Some(Procedure::Push);
        proof {
            assert(game_state@.available_actions =~= old(game_state)@.available_actions);
        }
        return Ok(());
    }
    let a = match game_state.locate_player(&bc.attacker) {
        Some(l) => l,
        None => {
            return Err("Missing attacker".to_string());
        },
    };
    proof {
        game_state.lemma_locate_valid(has_id(bc.attacker@));
    }
    if face == ActionType::SelectBothDown {
        if game_state.locate_player(&bc.defender).is_none() {
            return Err("Missing defender".to_string());
        }
        game_state.knock_out_at(a);
        proof {
            lemma_knock_out_keeps_ids(old(game_state)@, (a.0, a.1 as int), bc.defender@);
            game_state.lemma_locate_valid(has_id(bc.defender@));
        }
        let d = game_state.locate_player(&bc.defender).unwrap();
        game_state.knock_out_at(d);
    } else {
        game_state.knock_out_at(a);
    }
    game_state.procedure = Some(Procedure::Turnover);
    Ok(())
}

/// The block context with the tail push aimed at `target`.
pub open spec fn aimed(bc: BlockContextView, target: Square) -> BlockContextView {
    let last = bc.push_chain.len() - 1;
    BlockContextView {
        push_chain: bc.push_chain.update(
            last,
            PushChainItemView { position: Some(target), ..bc.push_chain[last] },
        ),
        ..bc
    }
}

/// The block context with the push chain carried on: the player standing on the tail's
/// target is pushed next, by the player pushed before.
pub open spec fn chained(bc: BlockContextView, target: Square, next: Seq<char>) -> BlockContextView {
    let a = aimed(bc, target);
    BlockContextView {
        push_chain: a.push_chain.push(
            PushChainItemView {
                attacker: bc.push_chain.last().defender,
                defender: next,
                position: None,
            },
        ),
        ..a
    }
}

/// Whether a `Push` onto the action's square can be executed: a square on the pitch, a
/// block with a push under way, and, onto an empty square, a chain that resolves.
pub open spec fn push_ok(s: GameStateView, a: Action) -> bool {
    let t = a.position.unwrap();
    &&& a.position is Some
    &&& !spec_out_of_bounds(t)
    &&& s.block_context is Some
    &&& s.block_context.unwrap().push_chain.len() > 0
    &&& player_on(s, t) is None ==> resolution(s, aimed(s.block_context.unwrap(), t)) is Some
}

/// The state after a `Push` that can be executed: onto an occupied square the chain goes on
/// to the player standing there; onto an empty square it is resolved.
pub open spec fn push_outcome(s: GameStateView, a: Action) -> GameStateView {
    let t = a.position.unwrap();
    match player_on(s, t) {
        Some(q) => GameStateView {
            block_context: Some(chained(s.block_context.unwrap(), t, q.player_id)),
            ..s
        },
        None => resolution(s, aimed(s.block_context.unwrap(), t)).unwrap(),
    }
}

/// Executes a `Push` onto the action's square. A push onto an occupied square carries the
/// chain on to the player standing there. A push onto an empty square resolves the chain:
/// the pushed players move from the tail backwards, so that each square is vacated before it
/// is filled; a carried ball moves with its carrier; the original defender is knocked out if
/// the dice said so; a carrier left standing on the endzone it attacks scores. Without a
/// touchdown play moves to the follow-up. A push off the pitch is refused.
pub fn push_execution(game_state: &mut GameState, action: &Action) -> (r: Result<(), String>)
    ensures
        r is Ok <==> push_ok(old(game_state)@, *action),
        r is Ok ==> final(game_state)@ == push_outcome(old(game_state)@, *action),
        r is Err ==> final(game_state)@ == old(game_state)@,
{
    let target = match action.position {
        Some(sq) => sq,
        None => {
            return Err("Position missing in Push action".to_string());
        },
    };
    let mut bc = match &game_state.block_context {
        Some(bc) => bc.clone(),
        None => {
            return Err("Missing block context in Push".to_string());
        },
    };
    let n = bc.push_chain.len();
    if n == 0 {
        return Err("Empty push chain".to_string());
    }
    if target.is_out_of_bounds() {
        return Err("Push out of bounds".to_string());
    }
    let ghost old_bc = bc@;
    let mut tail = bc.push_chain[n - 1].clone();
    tail.position = Some(target);
    let tail_defender = tail.defender.clone();
    bc.push_chain.set(n - 1, tail);
    proof {
        assert(bc@.push_chain =~= aimed(old_bc, target).push_chain);
    }
    match game_state.get_player_at(&target) {
        Ok(q) => {
            let ghost aimed_chain = bc@.push_chain;
            let item = PushChainItem::new(tail_defender, q.player_id.clone(), None);
            bc.push_chain.push(item);
            proof {
                assert(bc@.push_chain =~= aimed_chain.push(item@));
                assert(bc@ == chained(old_bc, target, q.player_id@));
            }
            game_state.block_context = Some(bc);
            proof {
                assert(game_state@.available_actions =~= old(game_state)@.available_actions);
            }
            Ok(())
        },
        Err(_) => {
            let mut trial = game_state.clone();
            let r = resolve_push_chain(&mut trial, &bc);
            match r {
                Ok(()) => {
                    *game_state = trial;
                    Ok(())
                },
                Err(e) => Err(e),
            }
        },
    }
}

/// The state after the player pushed by `item` moved onto its target, taking a ball it
/// carries along; `None` without a target or without that player.
pub open spec fn move_pushed(s: GameStateView, item: PushChainItemView) -> Option<GameStateView> {
    match (item.position, locate(s, has_id(item.defender))) {
        (Some(dest), Some(loc)) => {
            let p = player_at_loc(s, loc);
            let s1 = with_player(s, loc, PlayerView { position: Some(dest), ..p });
            if s.balls.len() > 0 && s.balls[0].is_carried && s.balls[0].position is Some
                && s.balls[0].position == p.position {
                Some(
                    GameStateView {
                        balls: s.balls.update(
                            0,
                            crate::model::Ball { position: Some(dest), ..s.balls[0] },
                        ),
                        ..s1
                    },
                )
            } else {
                Some(s1)
            }
        },
        _ => None,
    }
}

/// The pushes `hi - 1` down to `0` of `items` made in turn, the last of the chain first, so
/// that each square is vacated before it is filled.
pub open spec fn push_run(s: GameStateView, items: Seq<PushChainItemView>, hi: int) -> Option<
    GameStateView,
>
    decreases hi,
{
    if hi <= 0 {
        Some(s)
    } else {
        match move_pushed(s, items[hi - 1]) {
            Some(s1) => push_run(s1, items, hi - 1),
            None => None,
        }
    }
}

/// The player on a carried ball's square scores: standing, neither stunned nor knocked out,
/// on the endzone its team attacks.
pub open spec fn carrier_scores(s: GameStateView) -> Option<(bool, int)> {
    let b = ball_position(s).unwrap();
    let l = locate(s, crate::game::stands_on(b));
    if spec_ball_carried(s) && ball_position(s) is Some && l is Some {
        let loc = l.unwrap();
        let c = player_at_loc(s, loc);
        if c.state.up && !c.state.stunned && !c.state.knocked_out && b.x == (if loc.0 {
            1
        } else {
            ARENA_WIDTH - 1
        }) {
            Some(loc)
        } else {
            None
        }
    } else {
        None
    }
}

/// The block settled once the pushes are made: the defender knocked out when the dice said
/// so, a touchdown with one more point when the carrier scores, else the follow-up on the
/// defender's former square; `None` without the defender or on a full score.
pub open spec fn settle(s: GameStateView, bc: BlockContextView) -> Option<GameStateView> {
    let l = locate(s, has_id(bc.defender));
    if bc.knock_out && l is None {
        None
    } else {
        let s1 = if bc.knock_out {
            knocked_out(s, l.unwrap())
        } else {
            s
        };
        let s2 = GameStateView { block_context: Some(bc), ..s1 };
        match carrier_scores(s2) {
            Some(loc) => {
                let t = if loc.0 {
                    s2.home.unwrap()
                } else {
                    s2.away.unwrap()
                };
                if t.score == u8::MAX {
                    None
                } else {
                    Some(
                        GameStateView {
                            procedure: Some(Procedure::Touchdown),
                            ..crate::execution::scored(s2, loc.0)
                        },
                    )
                }
            },
            None => Some(
                GameStateView {
                    procedure: Some(Procedure::FollowUp),
                    position: Some(bc.position),
                    ..s2
                },
            ),
        }
    }
}

/// The push chain of `bc` resolved: every push made, the last first, and the block settled.
pub open spec fn resolution(s: GameStateView, bc: BlockContextView) -> Option<GameStateView> {
    match push_run(s, bc.push_chain, bc.push_chain.len() as int) {
        Some(s1) => settle(s1, bc),
        None => None,
    }
}

/// Moves the player pushed by `item` onto its target.
fn move_pushed_exec(game_state: &mut GameState, item: &PushChainItem) -> (r: Result<(), String>)
    ensures
        r is Ok <==> move_pushed(old(game_state)@, item@) is Some,
        r is Ok ==> final(game_state)@ == move_pushed(old(game_state)@, item@).unwrap(),
        r is Err ==> final(game_state)@ == old(game_state)@,
{
    let dest = match item.position {
        Some(d) => d,
        None => {
            return Err("Push without a target".to_string());
        },
    };
    let loc = match game_state.locate_player(&item.defender) {
        Some(l) => l,
        None => {
            return Err("Missing pushed player".to_string());
        },
    };
    proof {
        game_state.lemma_locate_valid(has_id(item.defender@));
    }
    let mut p = game_state.player_at(loc).clone();
    let from = p.position;
    p.position = Some(dest);
    game_state.set_player(loc, p);
    if game_state.balls.len() > 0 {
        let mut b = game_state.balls[0];
        if b.is_carried && b.position.is_some() && b.position == from {
            b.position = Some(dest);
            let ghost mid = game_state@;
            game_state.balls.set(0, b);
            proof {
                assert(game_state@.available_actions =~= mid.available_actions);
                assert(game_state@.balls =~= mid.balls.update(0, b));
            }
        }
    }
    Ok(())
}

/// Settles the block once the pushes are made.
fn settle_exec(game_state: &mut GameState, bc: &BlockContext) -> (r: Result<(), String>)
    ensures
        r is Ok <==> settle(old(game_state)@, bc@) is Some,
        r is Ok ==> final(game_state)@ == settle(old(game_state)@, bc@).unwrap(),
{
    if bc.knock_out {
        let loc = match game_state.locate_player(&bc.defender) {
            Some(l) => l,
            None => {
                return Err("Missing defender".to_string());
            },
        };
        proof {
            game_state.lemma_locate_valid(has_id(bc.defender@));
        }
        game_state.knock_out_at(loc);
    }
    game_state.block_context = Some(bc.clone());
    let ghost s2 = game_state@;
    let mut scorer: Option<(bool, usize)> = None;
    if game_state.is_ball_carried() {
        match game_state.get_ball_position() {
            Ok(b) => {
                match game_state.locate_player_at(&b) {
                    Some(loc) => {
                        proof {
                            game_state.lemma_locate_valid(crate::game::stands_on(b));
                        }
                        let c = game_state.player_at(loc);
                        let column = if loc.0 {
                            1
                        } else {
                            ARENA_WIDTH - 1
                        };
                        if c.state.up && !c.state.stunned && !c.state.knocked_out && b.x == column {
                            scorer = Some(loc);
                        }
                    },
                    None => {},
                }
            },
            Err(_) => {},
        }
    }
    proof {
        assert(game_state@ == s2);
        assert(match scorer {
            Some(l) => carrier_scores(s2) == Some((l.0, l.1 as int)),
            None => carrier_scores(s2) is None,
        });
    }
    match scorer {
        Some(loc) => {
            let score = if loc.0 {
                game_state.home_team.as_ref().unwrap().score
            } else {
                game_state.away_team.as_ref().unwrap().score
            };
            if score == u8::MAX {
                return Err("Score overflow".to_string());
            }
            game_state.add_score(loc.0);
            game_state.procedure = Some(Procedure::Touchdown);
        },
        None => {
            game_state.procedure = Some(Procedure::FollowUp);
            game_state.position = Some(bc.position);
        },
    }
    Ok(())
}

/// Moves the pushed players of `bc` to their targets, from the tail backwards, and settles
/// the block: knock-out, touchdown or follow-up.
fn resolve_push_chain(game_state: &mut GameState, bc: &BlockContext) -> (r: Result<(), String>)
    ensures
        r is Ok <==> resolution(old(game_state)@, bc@) is Some,
        r is Ok ==> final(game_state)@ == resolution(old(game_state)@, bc@).unwrap(),
{
    let ghost s0 = game_state@;
    let ghost items = bc@.push_chain;
    let mut i: usize = bc.push_chain.len();
    while i > 0
        invariant
            i <= bc.push_chain@.len(),
            items == bc@.push_chain,
            s0 == old(game_state)@,
            items.len() == bc.push_chain@.len(),
            push_run(s0, items, items.len() as int) == push_run(game_state@, items, i as int),
        decreases i,
    {
        proof {
            assert(items[i - 1] == bc.push_chain@[i - 1]@);
        }
        match move_pushed_exec(game_state, &bc.push_chain[i - 1]) {
            Ok(()) => {},
            Err(e) => {
                proof {
                    assert(push_run(game_state@, items, i as int) is None);
                    assert(resolution(s0, bc@) is None);
                }
                return Err(e);
            },
        }
        i = i - 1;
    }
    settle_exec(game_state, bc)
}


/// The attacker at `loc` after following up onto `sq`.
pub open spec fn followed_up(p: PlayerView, sq: Square, blitz: bool) -> PlayerView {
    PlayerView {
        state: crate::model::PlayerStateView {
            has_blocked: true,
            used: p.state.used || !blitz,
            ..p.state
        },
        position: Some(sq),
        ..p
    }
}

/// The state after the attacker followed up onto `sq`: the blitz goes on, or the turn
/// resumes with the attacker used; the block is over.
pub open spec fn follow_up_done(s: GameStateView, loc: (bool, int), sq: Square) -> GameStateView {
    let blitz = s.parent_procedure == Some(Procedure::BlitzAction);
    GameStateView {
        procedure: Some(
            if blitz {
                Procedure::BlitzAction
            } else {
                Procedure::Turn
            },
        ),
        block_context: None,
        ..with_player(s, loc, followed_up(player_at_loc(s, loc), sq, blitz))
    }
}

/// Executes a `FollowUp` onto the action's square: the attacker has blocked and stands
/// there. A blitz goes on; otherwise the attacker is used and the turn resumes.
pub fn follow_up_execution(game_state: &mut GameState, action: &Action) -> (r: Result<(), String>)
    ensures
        ({
            let s = old(game_state)@;
            r is Ok <==> action.position is Some && s.block_context is Some && locate(
                s,
                has_id(s.block_context.unwrap().attacker),
            ) is Some
        }),
        r is Ok ==> final(game_state)@ == follow_up_done(
            old(game_state)@,
            locate(old(game_state)@, has_id(old(game_state)@.block_context.unwrap().attacker)).unwrap(),
            action.position.unwrap(),
        ),
        r is Err ==> final(game_state)@ == old(game_state)@,
{
    let target = match action.position {
        Some(sq) => sq,
        None => {
            return Err("Position missing in FollowUp action".to_string());
        },
    };
    let loc = match &game_state.block_context {
        Some(bc) => {
            proof {
                game_state.lemma_locate_valid(has_id(bc.attacker@));
            }
            match game_state.locate_player(&bc.attacker) {
                Some(l) => l,
                None => {
                    return Err("Missing attacker".to_string());
                },
            }
        },
        None => {
            return Err("Missing block context in FollowUp".to_string());
        },
    };
    let blitz = game_state.parent_procedure == Some(Procedure::BlitzAction);
    let mut p = game_state.player_at(loc).clone();
    p.state.has_blocked = true;
    if !blitz {
        p.state.used = true;
    }
    p.position = Some(target);
    game_state.set_player(loc, p);
    game_state.procedure = Some(
        if blitz {
            Procedure::BlitzAction
        } else {
            Procedure::Turn
        },
    );
    game_state.block_context = None;
    Ok(())
}

} // verus!
