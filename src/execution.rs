use crate::enums::Procedure;
use crate::game::{active_carries, ball_position, has_id, locate, loc_view, player_at_loc, spec_is_home_team, valid_loc, with_player, GameState, GameStateView};
use crate::geometry::{Square, ARENA_WIDTH};
use crate::model::{Action, ActivePath, PlayerView, TurnState};
use vstd::prelude::*;

verus! {

/// Where the active player is listed.
pub open spec fn active_loc(s: GameStateView) -> Option<(bool, int)> {
    match s.active_player_id {
        Some(id) => locate(s, has_id(id)),
        None => None,
    }
}

/// The endzone column that the team `team_id` scores in: the home team attacks `x = 1`,
/// the away team `x = ARENA_WIDTH - 1`.
pub open spec fn scoring_column(s: GameStateView, team_id: Seq<char>) -> int {
    if spec_is_home_team(s, team_id) {
        1
    } else {
        ARENA_WIDTH - 1
    }
}

impl GameState {
    /// Where the active player is listed.
    pub fn locate_active(&self) -> (r: Option<(bool, usize)>)
        ensures
            loc_view(r) == active_loc(self@),
            r matches Some(l) ==> valid_loc(self@, (l.0, l.1 as int)) && player_at_loc(
                self@,
                (l.0, l.1 as int),
            ).player_id == self@.active_player_id.unwrap(),
    {
        match &self.active_player_id {
            Some(id) => {
                proof {
                    self.lemma_locate_valid(has_id(id@));
                }
                self.locate_player(id)
            },
            None => None,
        }
    }
}

/// The active player becomes `id` and play moves to `procedure`, which is also saved as the
/// procedure to return to.
pub open spec fn started(s: GameStateView, id: Seq<char>, procedure: Procedure) -> GameStateView {
    GameStateView {
        active_player_id: Some(id),
        procedure: Some(procedure),
        parent_procedure: Some(procedure),
        ..s
    }
}

fn start_action(game_state: &mut GameState, action: &Action, procedure: Procedure) -> (r: Result<
    (),
    String,
>)
    ensures
        r is Ok <==> action.player is Some,
        r is Ok ==> final(game_state)@ == started(
            old(game_state)@,
            action.player.unwrap()@,
            procedure,
        ),
        r is Err ==> final(game_state)@ == old(game_state)@,
{
    match &action.player {
        Some(p) => {
            game_state.active_player_id = Some(p.clone());
            game_state.procedure = Some(procedure);
            game_state.parent_procedure = Some(procedure);
            Ok(())
        },
        None => Err("No player in start action".to_string()),
    }
}

/// Starts a move action for the action's player.
pub fn start_move_execution(game_state: &mut GameState, action: &Action) -> (r: Result<(), String>)
    ensures
        r is Ok <==> action.player is Some,
        r is Ok ==> final(game_state)@ == started(
            old(game_state)@,
            action.player.unwrap()@,
            Procedure::MoveAction,
        ),
        r is Err ==> final(game_state)@ == old(game_state)@,
{
    start_action(game_state, action, Procedure::MoveAction)
}

/// Starts a block action for the action's player.
pub fn start_block_execution(game_state: &mut GameState, action: &Action) -> (r: Result<
    (),
    String,
>)
    ensures
        r is Ok <==> action.player is Some,
        r is Ok ==> final(game_state)@ == started(
            old(game_state)@,
            action.player.unwrap()@,
            Procedure::BlockAction,
        ),
        r is Err ==> final(game_state)@ == old(game_state)@,
{
    start_action(game_state, action, Procedure::BlockAction)
}

/// The turn state with the availability flag of `procedure` cleared.
pub open spec fn consume(ts: TurnState, procedure: Procedure) -> TurnState {
    match procedure {
        Procedure::BlitzAction => TurnState { blitz_available: false, ..ts },
        Procedure::PassAction => TurnState { pass_available: false, ..ts },
        Procedure::HandoffAction => TurnState { handoff_available: false, ..ts },
        _ => TurnState { foul_available: false, ..ts },
    }
}

/// As `started`, with the availability flag of `procedure` cleared.
pub open spec fn started_limited(s: GameStateView, id: Seq<char>, procedure: Procedure) -> GameStateView {
    GameStateView {
        turn_state: Some(consume(s.turn_state.unwrap(), procedure)),
        ..started(s, id, procedure)
    }
}

/// Starts an action that may be taken once per turn, and clears its availability flag.
fn start_limited(game_state: &mut GameState, action: &Action, procedure: Procedure) -> (r: Result<
    (),
    String,
>)
    ensures
        r is Ok <==> action.player is Some && old(game_state).turn_state is Some,
        r is Ok ==> final(game_state)@ == started_limited(
            old(game_state)@,
            action.player.unwrap()@,
            procedure,
        ),
        r is Err ==> final(game_state)@ == old(game_state)@,
{
    let ts = match game_state.turn_state {
        Some(ts) => ts,
        None => {
            return Err("No turn state in start action".to_string());
        },
    };
    let r = start_action(game_state, action, procedure);
    if r.is_ok() {
        let mut ts = ts;
        match procedure {
            Procedure::BlitzAction => {
                ts.blitz_available = false;
            },
            Procedure::PassAction => {
                ts.pass_available = false;
            },
            Procedure::HandoffAction => {
                ts.handoff_available = false;
            },
            _ => {
                ts.foul_available = false;
            },
        }
        game_state.turn_state = Some(ts);
    }
    r
}

/// Starts a blitz for the action's player; the blitz is no longer available this turn.
pub fn start_blitz_execution(game_state: &mut GameState, action: &Action) -> (r: Result<
    (),
    String,
>)
    ensures
        r is Ok <==> action.player is Some && old(game_state).turn_state is Some,
        r is Ok ==> final(game_state)@ == started_limited(
            old(game_state)@,
            action.player.unwrap()@,
            Procedure::BlitzAction,
        ),
        r is Err ==> final(game_state)@ == old(game_state)@,
{
    start_limited(game_state, action, Procedure::BlitzAction)
}

/// Starts a pass action for the action's player; passing is no longer available this turn.
pub fn start_pass_execution(game_state: &mut GameState, action: &Action) -> (r: Result<
    (),
    String,
>)
    ensures
        r is Ok <==> action.player is Some && old(game_state).turn_state is Some,
        r is Ok ==> final(game_state)@ == started_limited(
            old(game_state)@,
            action.player.unwrap()@,
            Procedure::PassAction,
        ),
        r is Err ==> final(game_state)@ == old(game_state)@,
{
    start_limited(game_state, action, Procedure::PassAction)
}

/// Starts a hand-off action for the action's player; handing off is no longer available
/// this turn.
pub fn start_handoff_execution(game_state: &mut GameState, action: &Action) -> (r: Result<
    (),
    String,
>)
    ensures
        r is Ok <==> action.player is Some && old(game_state).turn_state is Some,
        r is Ok ==> final(game_state)@ == started_limited(
            old(game_state)@,
            action.player.unwrap()@,
            Procedure::HandoffAction,
        ),
        r is Err ==> final(game_state)@ == old(game_state)@,
{
    start_limited(game_state, action, Procedure::HandoffAction)
}

/// Starts a foul action for the action's player; fouling is no longer available this turn.
pub fn start_foul_execution(game_state: &mut GameState, action: &Action) -> (r: Result<
    (),
    String,
>)
    ensures
        r is Ok <==> action.player is Some && old(game_state).turn_state is Some,
        r is Ok ==> final(game_state)@ == started_limited(
            old(game_state)@,
            action.player.unwrap()@,
            Procedure::FoulAction,
        ),
        r is Err ==> final(game_state)@ == old(game_state)@,
{
    start_limited(game_state, action, Procedure::FoulAction)
}

/// No active player and the turn over.
pub open spec fn turn_ended(s: GameStateView) -> GameStateView {
    GameStateView {
        active_player_id: None,
        procedure: Some(Procedure::EndTurn),
        parent_procedure: None,
        ..s
    }
}

/// Ends the team's turn.
pub fn end_turn_execution(game_state: &mut GameState) -> (r: Result<(), String>)
    ensures
        r is Ok,
        final(game_state)@ == turn_ended(old(game_state)@),
{
    game_state.active_player_id = None;
    game_state.procedure = Some(Procedure::EndTurn);
    game_state.parent_procedure = None;
    Ok(())
}

/// The active player as left at the end of its action: used, with its per-turn state reset.
pub open spec fn retired(p: PlayerView) -> PlayerView {
    PlayerView {
        state: crate::model::PlayerStateView {
            used: true,
            moves: 0,
            squares_moved: Seq::empty(),
            has_blocked: false,
            ..p.state
        },
        ..p
    }
}

/// The player at `loc` retired, no active player, and play back to the turn.
pub open spec fn player_turn_ended(s: GameStateView, loc: (bool, int)) -> GameStateView {
    GameStateView {
        active_player_id: None,
        procedure: Some(Procedure::Turn),
        parent_procedure: None,
        ..with_player(s, loc, retired(player_at_loc(s, loc)))
    }
}

/// Ends the active player's action and returns to the turn.
pub fn end_player_turn_execution(game_state: &mut GameState) -> (r: Result<(), String>)
    ensures
        r is Ok <==> active_loc(old(game_state)@) is Some,
        r is Ok ==> final(game_state)@ == player_turn_ended(
            old(game_state)@,
            active_loc(old(game_state)@).unwrap(),
        ),
        r is Err ==> final(game_state)@ == old(game_state)@,
{
    let loc = match game_state.locate_active() {
        Some(l) => l,
        None => {
            return Err("Missing active player".to_string());
        },
    };
    let mut p = game_state.player_at(loc).clone();
    p.state.used = true;
    p.state.moves = 0;
    p.state.squares_moved = Vec::new();
    p.state.has_blocked = false;
    proof {
        assert(p@.state.squares_moved =~= Seq::<Square>::empty());
    }
    game_state.set_player(loc, p);
    game_state.active_player_id = None;
    game_state.procedure = Some(Procedure::Turn);
    game_state.parent_procedure = None;
    Ok(())
}

/// The player at `loc` up, with three more movement points spent.
pub open spec fn stood_up(s: GameStateView, loc: (bool, int)) -> GameStateView {
    let p = player_at_loc(s, loc);
    with_player(
        s,
        loc,
        PlayerView {
            state: crate::model::PlayerStateView {
                up: true,
                moves: (p.state.moves + 3) as u8,
                ..p.state
            },
            ..p
        },
    )
}

/// The active player stands up, which costs three movement points.
pub fn stand_up_execution(game_state: &mut GameState) -> (r: Result<(), String>)
    ensures
        r is Ok <==> active_loc(old(game_state)@) is Some && player_at_loc(
            old(game_state)@,
            active_loc(old(game_state)@).unwrap(),
        ).state.moves + 3 <= u8::MAX,
        r is Ok ==> final(game_state)@ == stood_up(
            old(game_state)@,
            active_loc(old(game_state)@).unwrap(),
        ),
        r is Err ==> final(game_state)@ == old(game_state)@,
{
    let loc = match game_state.locate_active() {
        Some(l) => l,
        None => {
            return Err("Missing active player".to_string());
        },
    };
    let mut p = game_state.player_at(loc).clone();
    if p.state.moves > 252 {
        return Err("Move counter overflow".to_string());
    }
    p.state.up = true;
    p.state.moves = p.state.moves + 3;
    game_state.set_player(loc, p);
    Ok(())
}

/// Whether the active player holds the ball once it has stepped onto `sq`.
pub open spec fn carries_after(s: GameStateView, sq: Square) -> bool {
    active_carries(s) || ball_position(s) == Some(sq)
}

/// Whether the step onto `sq` scores: the active player then holds the ball on the
/// endzone column of the team on move.
pub open spec fn step_scores(s: GameStateView, sq: Square) -> bool {
    carries_after(s, sq) && sq.x == scoring_column(s, s.current_team_id.unwrap())
}

/// The player after a step onto `sq`.
pub open spec fn stepped_player(p: PlayerView, sq: Square) -> PlayerView {
    PlayerView {
        state: crate::model::PlayerStateView { moves: (p.state.moves + 1) as u8, ..p.state },
        position: Some(sq),
        ..p
    }
}

/// The balls after a step onto `sq`: the first one picked up when it lay there, and on
/// `sq` while carried.
pub open spec fn balls_after(balls: Seq<crate::model::Ball>, picked: bool, carrying: bool, sq: Square) -> Seq<
    crate::model::Ball,
> {
    if balls.len() > 0 {
        let b = balls[0];
        balls.update(
            0,
            crate::model::Ball {
                position: if carrying {
                    Some(sq)
                } else {
                    b.position
                },
                is_carried: b.is_carried || picked,
            },
        )
    } else {
        balls
    }
}

/// The path being walked after one more step; dropped once the ball is picked up at its end.
pub open spec fn path_after(ap: Option<crate::model::ActivePathView>, picked: bool) -> Option<
    crate::model::ActivePathView,
> {
    match ap {
        Some(a) => {
            let n = if a.current_step >= a.path.squares.len() {
                a.current_step
            } else {
                (a.current_step + 1) as usize
            };
            let adv = crate::model::ActivePathView { current_step: n, ..a };
            if picked && n >= a.path.squares.len() {
                None
            } else {
                Some(adv)
            }
        },
        None => None,
    }
}

/// `s` with one more point on the score of the home team, or of the away team.
pub open spec fn scored(s: GameStateView, home: bool) -> GameStateView {
    if home {
        GameStateView {
            home: Some(crate::model::TeamView { score: (s.home.unwrap().score + 1) as u8, ..s.home.unwrap() }),
            ..s
        }
    } else {
        GameStateView {
            away: Some(crate::model::TeamView { score: (s.away.unwrap().score + 1) as u8, ..s.away.unwrap() }),
            ..s
        }
    }
}

/// The state after the active player, listed at `loc`, stepped onto `sq`.
pub open spec fn stepped(s: GameStateView, loc: (bool, int), sq: Square) -> GameStateView {
    let picked = ball_position(s) == Some(sq);
    let s1 = with_player(s, loc, stepped_player(player_at_loc(s, loc), sq));
    let s2 = GameStateView {
        balls: balls_after(s.balls, picked, carries_after(s, sq), sq),
        active_path: path_after(s.active_path, picked),
        procedure: if step_scores(s, sq) {
            Some(Procedure::Touchdown)
        } else {
            s.parent_procedure
        },
        ..s1
    };
    if step_scores(s, sq) {
        scored(s2, spec_is_home_team(s, s.current_team_id.unwrap()))
    } else {
        s2
    }
}

/// Whether a step of the active player onto `sq` can be made: a procedure to return to, a
/// free square, an active player with movement left, and a team to credit with a
/// touchdown.
pub open spec fn step_possible(s: GameStateView, sq: Square) -> bool {
    &&& s.parent_procedure is Some
    &&& crate::game::player_on(s, sq) is None
    &&& active_loc(s) is Some
    &&& player_at_loc(s, active_loc(s).unwrap()).state.moves < crate::model::clamp_stat(
        player_at_loc(s, active_loc(s).unwrap()).ma,
    ) + 2
    &&& carries_after(s, sq) ==> s.current_team_id is Some
    &&& step_scores(s, sq) ==> {
        let t = if spec_is_home_team(s, s.current_team_id.unwrap()) {
            s.home
        } else {
            s.away
        };
        t is Some && t.unwrap().score < u8::MAX
    }
}

/// What a step onto a square decides before anything changes.
struct StepPlan {
    loc: (bool, usize),
    picked: bool,
    carrying: bool,
    touchdown: bool,
    home_scores: bool,
}

impl GameState {
    fn plan_step(&self, position: Square) -> (r: Result<StepPlan, String>)
        ensures
            r is Ok <==> step_possible(self@, position),
            r matches Ok(plan) ==> {
                &&& loc_view(Some(plan.loc)) == active_loc(self@)
                &&& valid_loc(self@, (plan.loc.0, plan.loc.1 as int))
                &&& plan.picked == (ball_position(self@) == Some(position))
                &&& plan.carrying == carries_after(self@, position)
                &&& plan.touchdown == step_scores(self@, position)
                &&& plan.touchdown ==> plan.home_scores == spec_is_home_team(
                    self@,
                    self@.current_team_id.unwrap(),
                )
            },
    {
        if self.parent_procedure.is_none() {
            return Err("Movement without a procedure to return to".to_string());
        }
        if self.get_player_at(&position).is_ok() {
            return Err("Movement onto an occupied square".to_string());
        }
        let loc = match self.locate_active() {
            Some(l) => l,
            None => {
                return Err("Missing active player".to_string());
            },
        };
        let p = self.player_at(loc);
        let ma = p.get_ma();
        if p.state.moves >= ma + 2 {
            return Err("Movement with no movement left".to_string());
        }
        let was_carrying = self.is_active_player_carrying_ball();
        let picked = match self.get_ball_position() {
            Ok(b) => b == position,
            Err(_) => false,
        };
        let carrying = was_carrying || picked;
        let mut touchdown = false;
        let mut home_scores = false;
        if carrying {
            let team_id = match &self.current_team_id {
                Some(t) => t,
                None => {
                    return Err("Missing current team id".to_string());
                },
            };
            home_scores = self.is_home_team(team_id);
            touchdown = if home_scores {
                position.x == 1
            } else {
                position.x == ARENA_WIDTH - 1
            };
            if touchdown {
                let team = if home_scores {
                    &self.home_team
                } else {
                    &self.away_team
                };
                match team {
                    Some(t) => {
                        if t.score == u8::MAX {
                            return Err("Score overflow".to_string());
                        }
                    },
                    None => {
                        return Err("Missing team for touchdown".to_string());
                    },
                }
            }
        }
        Ok(StepPlan { loc, picked, carrying, touchdown, home_scores })
    }

    fn step_balls(&mut self, picked: bool, carrying: bool, position: Square)
        ensures
            final(self)@ == (GameStateView {
                balls: balls_after(old(self)@.balls, picked, carrying, position),
                ..old(self)@
            }),
    {
        if self.balls.len() > 0 {
            let mut b = self.balls[0];
            if picked {
                b.is_carried = true;
            }
            if carrying {
                b.position = Some(position);
            }
            self.balls.set(0, b);
        }
        assert(self@.balls =~= balls_after(old(self)@.balls, picked, carrying, position));
        assert(self@.available_actions =~= old(self)@.available_actions);
    }

    fn step_path(&mut self, picked: bool)
        ensures
            final(self)@ == (GameStateView {
                active_path: path_after(old(self)@.active_path, picked),
                ..old(self)@
            }),
    {
        let ap = self.active_path.take();
        match ap {
            Some(mut a) => {
                a.advance();
                if !(picked && a.is_complete()) {
                    self.active_path = Some(a);
                }
            },
            None => {},
        }
        assert(self@.available_actions =~= old(self)@.available_actions);
    }

    pub(crate) fn add_score(&mut self, home: bool)
        requires
            home ==> old(self).home_team is Some && old(self).home_team.unwrap().score < u8::MAX,
            !home ==> old(self).away_team is Some && old(self).away_team.unwrap().score < u8::MAX,
        ensures
            final(self)@ == scored(old(self)@, home),
    {
        if home {
            let mut t = self.home_team.take().unwrap();
            t.score = t.score + 1;
            self.home_team = Some(t);
        } else {
            let mut t = self.away_team.take().unwrap();
            t.score = t.score + 1;
            self.away_team = Some(t);
        }
        assert(self@.available_actions =~= old(self)@.available_actions);
    }
}

/// No player stands on `sq` when `player_on` finds none.
proof fn lemma_square_free(s: GameStateView, sq: Square)
    requires
        crate::game::player_on(s, sq) is None,
    ensures
        forall|a: (bool, int)| valid_loc(s, a) ==> (#[trigger] player_at_loc(s, a)).position != Some(sq),
{
    crate::game::lemma_first_from_found(crate::game::team_players(s.home), crate::game::stands_on(sq), 0);
    crate::game::lemma_first_from_found(crate::game::team_players(s.away), crate::game::stands_on(sq), 0);
    crate::game::lemma_first_from_none(crate::game::team_players(s.home), crate::game::stands_on(sq), 0);
    crate::game::lemma_first_from_none(crate::game::team_players(s.away), crate::game::stands_on(sq), 0);
    assert forall|a: (bool, int)| valid_loc(s, a) implies (#[trigger] player_at_loc(s, a)).position != Some(sq) by {
        if a.0 {
            assert(!crate::game::stands_on(sq)(crate::game::team_players(s.home)[a.1]));
        } else {
            assert(!crate::game::stands_on(sq)(crate::game::team_players(s.away)[a.1]));
        }
    }
}

/// After a step of the active player onto a free square, from a position where no two
/// players share a square, at most one player stands on the square of a carried ball.
pub proof fn lemma_step_keeps_ball_unique(s: GameStateView, sq: Square)
    requires
        step_possible(s, sq),
        crate::game::positions_unique(s),
        active_loc(s) matches Some(l) && valid_loc(s, l),
    ensures
        crate::game::ball_unique(stepped(s, active_loc(s).unwrap(), sq)),
{
    let loc = active_loc(s).unwrap();
    let t = stepped(s, loc, sq);
    lemma_square_free(s, sq);
    if crate::game::spec_ball_carried(t) && ball_position(t) is Some {
        let bp = ball_position(t).unwrap();
        assert(crate::game::at_most_one_on(s, bp));
        assert forall|a: (bool, int), b: (bool, int)|
            valid_loc(t, a) && valid_loc(t, b) && (#[trigger] player_at_loc(t, a)).position == Some(bp)
                && (#[trigger] player_at_loc(t, b)).position == Some(bp) implies a == b by {
            assert(valid_loc(s, a) && valid_loc(s, b));
            if a != loc {
                assert(player_at_loc(t, a) == player_at_loc(s, a));
            }
            if b != loc {
                assert(player_at_loc(t, b) == player_at_loc(s, b));
            }
        }
    }
}

/// Moves the active player onto `position`: one more movement point spent, the ball picked
/// up when it lies there and carried along, and a touchdown scored when the carrier reaches
/// the endzone of its team. Without a touchdown play returns to the parent procedure.
pub fn execute_player_movement(game_state: &mut GameState, position: Square) -> (r: Result<
    (),
    String,
>)
    ensures
        r is Ok <==> step_possible(old(game_state)@, position),
        r is Ok ==> final(game_state)@ == stepped(
            old(game_state)@,
            active_loc(old(game_state)@).unwrap(),
            position,
        ),
        r is Err ==> final(game_state)@ == old(game_state)@,
{
    let plan = match game_state.plan_step(position) {
        Ok(plan) => plan,
        Err(e) => {
            return Err(e);
        },
    };
    let ghost s = game_state@;
    let mut p = game_state.player_at(plan.loc).clone();
    p.state.moves = p.state.moves + 1;
    p.position = Some(position);
    game_state.set_player(plan.loc, p);
    game_state.step_balls(plan.picked, plan.carrying, position);
    game_state.step_path(plan.picked);
    if plan.touchdown {
        game_state.procedure = Some(Procedure::Touchdown);
        game_state.add_score(plan.home_scores);
    } else {
        game_state.procedure = game_state.parent_procedure;
    }
    Ok(())
}

/// The square that a `Move` action steps onto: the next square of the path being walked,
/// else the first square of the path the action carries, else the action's square.
pub open spec fn move_target(s: GameStateView, a: Action) -> Option<Square> {
    match s.active_path {
        Some(ap) => if ap.current_step < ap.path.squares.len() {
            Some(ap.path.squares[ap.current_step as int])
        } else {
            None
        },
        None => match a.path {
            Some(p) => if p.squares@.len() > 0 {
                Some(p.squares@[0])
            } else {
                a.position
            },
            None => a.position,
        },
    }
}

/// `s` with the path the action carries attached, when no path is being walked yet; the
/// procedure being left is saved as the one to return to.
pub open spec fn prepared_move(s: GameStateView, a: Action) -> GameStateView {
    let s1 = GameStateView { parent_procedure: s.procedure, ..s };
    if s.active_path is None && a.path is Some && a.path.unwrap().squares@.len() > 0 {
        GameStateView {
            active_path: Some(crate::model::ActivePathView { path: a.path.unwrap()@, current_step: 0 }),
            ..s1
        }
    } else {
        s1
    }
}

/// Whether the next step needs a go-for-it roll: no movement allowance is left.
pub open spec fn needs_gfi(p: PlayerView) -> bool {
    p.state.moves + 1 > crate::model::clamp_stat(p.ma)
}

/// Whether the next step needs a dodge roll: the mover stands in an opposing tackle zone.
pub open spec fn needs_dodge(s: GameStateView, p: PlayerView) -> bool {
    crate::game::tackle_zones(s, s.current_team_id.unwrap(), p.position.unwrap()) > 0
}

/// Play waits on a roll of `procedure` for the step onto `sq`.
pub open spec fn awaiting_roll(s: GameStateView, procedure: Procedure, sq: Square) -> GameStateView {
    GameStateView { procedure: Some(procedure), position: Some(sq), ..s }
}

/// Whether a `Move` can be executed: a square to step onto, a team on move and an active
/// player; one that needs no go-for-it roll must stand on the pitch, and a step made at
/// once must be possible.
pub open spec fn move_ok(s: GameStateView, a: Action) -> bool {
    let t = move_target(s, a);
    let prep = prepared_move(s, a);
    let p = player_at_loc(s, active_loc(s).unwrap());
    &&& t is Some
    &&& s.current_team_id is Some
    &&& active_loc(s) is Some
    &&& (!needs_gfi(p) ==> p.position is Some)
    &&& (!needs_gfi(p) && !needs_dodge(s, p)) ==> step_possible(prep, t.unwrap())
}

/// The state after a `Move` that can be executed.
pub open spec fn move_outcome(s: GameStateView, a: Action) -> GameStateView {
    let t = move_target(s, a).unwrap();
    let prep = prepared_move(s, a);
    let p = player_at_loc(s, active_loc(s).unwrap());
    if needs_gfi(p) {
        awaiting_roll(prep, Procedure::GFI, t)
    } else if needs_dodge(s, p) {
        awaiting_roll(prep, Procedure::Dodge, t)
    } else {
        stepped(prep, active_loc(s).unwrap(), t)
    }
}

/// After a `Move` executed from a position where no two players share a square, at most one
/// player stands on the square of a carried ball.
pub proof fn lemma_move_keeps_ball_unique(s: GameStateView, a: Action)
    requires
        move_ok(s, a),
        crate::game::positions_unique(s),
    ensures
        crate::game::ball_unique(move_outcome(s, a)),
{
    let prep = prepared_move(s, a);
    let loc = active_loc(s).unwrap();
    assert(crate::game::positions_unique(prep)) by {
        assert forall|sq: Square| #[trigger] crate::game::at_most_one_on(prep, sq) by {
            assert(crate::game::at_most_one_on(s, sq));
            assert(prep.home == s.home && prep.away == s.away);
            assert forall|x: (bool, int), y: (bool, int)|
                valid_loc(prep, x) && valid_loc(prep, y) && (#[trigger] player_at_loc(prep, x)).position == Some(sq)
                    && (#[trigger] player_at_loc(prep, y)).position == Some(sq) implies x == y by {
                assert(player_at_loc(prep, x) == player_at_loc(s, x));
                assert(player_at_loc(prep, y) == player_at_loc(s, y));
            }
        }
    }
    assert(active_loc(prep) == active_loc(s));
    let p = player_at_loc(s, loc);
    if !needs_gfi(p) && !needs_dodge(s, p) {
        assert(crate::game::valid_loc(s, loc)) by {
            let id = s.active_player_id.unwrap();
            crate::game::lemma_first_from_found(crate::game::team_players(s.home), crate::game::has_id(id), 0);
            crate::game::lemma_first_from_found(crate::game::team_players(s.away), crate::game::has_id(id), 0);
        }
        lemma_step_keeps_ball_unique(prep, move_target(s, a).unwrap());
    } else {
        let t = move_outcome(s, a);
        assert(crate::game::at_most_one_on(s, ball_position(s).unwrap()));
        assert forall|x: (bool, int), y: (bool, int)|
            valid_loc(t, x) && valid_loc(t, y) && (#[trigger] player_at_loc(t, x)).position == Some(ball_position(t).unwrap())
                && (#[trigger] player_at_loc(t, y)).position == Some(ball_position(t).unwrap()) implies x == y by {
            assert(player_at_loc(t, x) == player_at_loc(s, x));
            assert(player_at_loc(t, y) == player_at_loc(s, y));
        }
    }
}

/// Executes a `Move`: a step that needs a go-for-it roll moves play to `GFI`, one out of an
/// opposing tackle zone to `Dodge`, with the target square saved; any other step is made
/// at once.
pub fn move_execution(game_state: &mut GameState, action: &Action) -> (r: Result<(), String>)
    ensures
        r is Ok <==> move_ok(old(game_state)@, *action),
        r is Ok ==> final(game_state)@ == move_outcome(old(game_state)@, *action),
        r is Err ==> final(game_state)@ == old(game_state)@,
{
    let ghost s = game_state@;
    let (target, attach) = match &game_state.active_path {
        Some(ap) => match ap.next_square() {
            Some(sq) => (sq, false),
            None => {
                return Err("The path being walked is complete".to_string());
            },
        },
        None => match &action.path {
            Some(p) => {
                if p.squares.len() > 0 {
                    (p.squares[0], true)
                } else {
                    match action.position {
                        Some(sq) => (sq, false),
                        None => {
                            return Err("Position missing in Move action".to_string());
                        },
                    }
                }
            },
            None => match action.position {
                Some(sq) => (sq, false),
                None => {
                    return Err("Position missing in Move action".to_string());
                },
            },
        },
    };
    let team_id = match &game_state.current_team_id {
        Some(t) => t.clone(),
        None => {
            return Err("Missing current team id".to_string());
        },
    };
    let loc = match game_state.locate_active() {
        Some(l) => l,
        None => {
            return Err("Missing active player".to_string());
        },
    };
    let p = game_state.player_at(loc);
    let gfi = p.state.moves >= p.get_ma();
    let dodge = if gfi {
        false
    } else {
        match p.position {
            Some(from) => game_state.get_team_tackle_zones_at(&team_id, &from) > 0,
            None => {
                return Err("Active player has no position".to_string());
            },
        }
    };
    if !gfi && !dodge {
        let mut trial = game_state.clone();
        prepare_move(&mut trial, action, attach);
        proof {
            assert(trial@ == prepared_move(s, *action));
        }
        let r = execute_player_movement(&mut trial, target);
        if r.is_err() {
            return r;
        }
        *game_state = trial;
        return Ok(());
    }
    prepare_move(game_state, action, attach);
    game_state.procedure = Some(
        if gfi {
            Procedure::GFI
        } else {
            Procedure::Dodge
        },
    );
    game_state.position = Some(target);
    Ok(())
}

/// Saves the procedure to return to and attaches the action's path when `attach` is set.
fn prepare_move(game_state: &mut GameState, action: &Action, attach: bool)
    requires
        attach ==> old(game_state).active_path is None && action.path is Some
            && action.path.unwrap().squares@.len() > 0,
        !attach ==> !(old(game_state).active_path is None && action.path is Some
            && action.path.unwrap().squares@.len() > 0),
    ensures
        final(game_state)@ == prepared_move(old(game_state)@, *action),
{
    game_state.parent_procedure = game_state.procedure;
    if attach {
        match &action.path {
            Some(p) => {
                game_state.active_path = Some(ActivePath::new(p.clone()));
            },
            None => {},
        }
    }
}

} // verus!
