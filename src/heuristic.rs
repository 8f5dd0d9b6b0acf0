use crate::enums::Procedure;
use crate::game::{ball_carrier, ball_position, filter_upto, locate, stands_on, GameState, GameStateView};
use crate::geometry::{abs, spec_distance, Square, ARENA_WIDTH};
use crate::model::{Player, PlayerView, TeamView};
use vstd::prelude::*;

verus! {

/// Scores are fixed-point numbers: this stands for 1.0.
pub const SCALE: i64 = 1000000;

/// The distance beyond which closeness counts for nothing: the width plus the height.
pub const FIELD_SPAN: i64 = 45;

/// Distance held to the field span.
pub open spec fn span_distance(a: Square, b: Square) -> int {
    if spec_distance(a, b) > FIELD_SPAN {
        FIELD_SPAN as int
    } else {
        spec_distance(a, b)
    }
}

/// The sum of `FIELD_SPAN - distance to sq` over the first `n` players.
pub open spec fn closeness(ps: Seq<PlayerView>, sq: Square, n: int) -> int
    decreases n,
{
    if n <= 0 {
        0
    } else {
        closeness(ps, sq, n - 1) + (FIELD_SPAN - span_distance(ps[n - 1].position.unwrap(), sq))
    }
}

/// How well a player at distance `d` supports the carrier: in millionths, 0.1 scaled down
/// to nothing at five squares, and 0.05 scaled down to nothing at the field span further out.
pub open spec fn support(d: int) -> int {
    if d <= 5 {
        20000 * (5 - d)
    } else {
        50000 * (FIELD_SPAN - d) / (FIELD_SPAN as int)
    }
}

/// The support of the first `n` players for a carrier with identifier `id` on `c`.
pub open spec fn support_sum(ps: Seq<PlayerView>, id: Seq<char>, c: Square, n: int) -> int
    decreases n,
{
    if n <= 0 {
        0
    } else {
        let p = ps[n - 1];
        support_sum(ps, id, c, n - 1) + if p.player_id == id {
            0
        } else {
            support(span_distance(p.position.unwrap(), c))
        }
    }
}

pub open spec fn clamp_score(v: int) -> int {
    if v < -SCALE {
        -SCALE as int
    } else if v > SCALE {
        SCALE as int
    } else {
        v
    }
}

/// The team on move, found by its identifier.
pub open spec fn current_team(s: GameStateView) -> Option<(bool, TeamView)> {
    let id = s.current_team_id.unwrap();
    if s.current_team_id is None {
        None
    } else if s.home is Some && s.home.unwrap().team_id == id {
        Some((true, s.home.unwrap()))
    } else if s.away is Some && s.away.unwrap().team_id == id {
        Some((false, s.away.unwrap()))
    } else {
        None
    }
}

pub open spec fn on_pitch() -> spec_fn(PlayerView) -> bool {
    |p: PlayerView| p.position is Some
}

/// The heuristic value of `s` for the team on move, in millionths within `[-1, 1]`; `None`
/// when there is no ball, no team on move or no player of it on the pitch. A touchdown is
/// worth 1 to the side that scored and -1 to the other. While its own player carries the ball the team scores the carrier's closeness to
/// the endzone it attacks, plus a small bonus for support; while an opponent carries it, the
/// carrier's distance from the team's own endzone less a penalty, plus a small bonus for
/// closing in; with the ball loose, the closeness of its players to the ball.
pub open spec fn heuristic_value(s: GameStateView) -> Option<int> {
    if s.procedure == Some(Procedure::Touchdown) {
        Some(touchdown_value(s))
    } else if ball_position(s) is None || current_team(s) is None {
        None
    } else {
        let (home, team) = current_team(s).unwrap();
        let ps = filter_upto(team.players, on_pitch(), team.players.len() as int);
        let n = ps.len();
        let target_x: int = if home {
            1
        } else {
            ARENA_WIDTH - 1
        };
        let own_x: int = if home {
            ARENA_WIDTH - 1
        } else {
            1
        };
        if n == 0 {
            None
        } else {
            let raw = match ball_carrier(s) {
                Some(c) => {
                    let cpos = c.position.unwrap();
                    let ours = locate(s, stands_on(cpos)).unwrap().0 == home;
                    if ours {
                        let sup = if n > 1 {
                            support_sum(ps, c.player_id, cpos, n as int) / (100 * (n - 1))
                        } else {
                            0
                        };
                        985000 - 30000 * abs(cpos.x - target_x) + sup
                    } else {
                        -(990000 - 30000 * abs(cpos.x - own_x)) + closeness(ps, cpos, n as int)
                            * 40000 / ((FIELD_SPAN as int) * n)
                    }
                },
                None => closeness(ps, ball_position(s).unwrap(), n as int) * 300000 / ((FIELD_SPAN as int) * n),
            };
            Some(clamp_score(raw))
        }
    }
}

/// A touchdown is worth 1 to the side that scored, the side of the player holding the ball,
/// and -1 to the other; 1 when the carrier or the side asked cannot be told.
pub open spec fn touchdown_value(s: GameStateView) -> int {
    match (ball_carrier(s), current_team(s)) {
        (Some(c), Some((home, _))) => if locate(s, stands_on(c.position.unwrap())).unwrap().0 == home {
            SCALE as int
        } else {
            -SCALE as int
        },
        _ => SCALE as int,
    }
}

/// The value of a touchdown for the side asked.
fn touchdown_value_exec(state: &GameState) -> (r: i64)
    ensures
        r == touchdown_value(state@),
{
    let side = match current_team_exec(state) {
        Some((home, _)) => home,
        None => {
            return SCALE;
        },
    };
    if !state.is_ball_carried() {
        return SCALE;
    }
    let b = match state.get_ball_position() {
        Ok(b) => b,
        Err(_) => {
            return SCALE;
        },
    };
    match state.get_player_at(&b) {
        Ok(_) => {},
        Err(_) => {
            return SCALE;
        },
    }
    let loc = state.locate_player_at(&b).unwrap();
    if loc.0 == side {
        SCALE
    } else {
        -SCALE
    }
}

/// A neutral evaluator: every position is even.
pub struct GameEvaluator {}

impl GameEvaluator {
    pub fn new() -> (r: GameEvaluator) {
        GameEvaluator {}
    }

    /// The value of any state: zero, neither side ahead.
    pub fn evaluate(&self, state: &GameState) -> (r: Result<i64, String>)
        ensures
            r == Ok::<i64, String>(0),
    {
        Ok(0)
    }
}

/// The side on move, as seen from the teams of `s`: `Some(true)` for the home team,
/// `Some(false)` for the away team, `None` for neither.
pub open spec fn side_on_move(s: GameStateView) -> Option<bool> {
    match s.current_team_id {
        Some(id) => if s.home is Some && s.home.unwrap().team_id == id {
            Some(true)
        } else if s.away is Some && s.away.unwrap().team_id == id {
            Some(false)
        } else {
            None
        },
        None => None,
    }
}

/// Turns values given per team into values for the side on move.
pub struct InputBuilder {}

impl InputBuilder {
    /// The side on move.
    fn side(state: &GameState) -> (r: Option<bool>)
        ensures
            r == side_on_move(state@),
    {
        match current_team_exec(state) {
            Some((home, _)) => Some(home),
            None => None,
        }
    }

    /// Of a home and an away value, the one of the side on move; zero for neither.
    pub fn get_active_team_probability(state: &GameState, home_value: i64, away_value: i64) -> (r: i64)
        ensures
            r == match side_on_move(state@) {
                Some(true) => home_value,
                Some(false) => away_value,
                None => 0,
            },
    {
        match InputBuilder::side(state) {
            Some(true) => home_value,
            Some(false) => away_value,
            None => 0,
        }
    }

    /// A value from the home team's point of view, turned to the side on move: kept for the
    /// home team, negated for the away team, zero for neither.
    pub fn get_value_for_active_team(state: &GameState, value: i64) -> (r: i64)
        requires
            value > i64::MIN,
        ensures
            r == match side_on_move(state@) {
                Some(true) => value as int,
                Some(false) => -value,
                None => 0,
            },
    {
        match InputBuilder::side(state) {
            Some(true) => value,
            Some(false) => -value,
            None => 0,
        }
    }
}

/// The reference value policy: a heuristic evaluation of the position.
pub struct HeuristicValuePolicy {}

impl HeuristicValuePolicy {
    pub fn new() -> (r: Result<HeuristicValuePolicy, String>)
        ensures
            r is Ok,
    {
        Ok(HeuristicValuePolicy {})
    }

    /// The name of the policy.
    pub fn name(&self) -> (r: String) {
        "heuristic".to_string()
    }

    /// The value of the state for the team on move, in millionths within `[-1, 1]`.
    pub fn evaluate(&self, state: &GameState) -> (r: Result<i64, String>)
        ensures
            r is Ok <==> heuristic_value(state@) is Some,
            r matches Ok(v) ==> v == heuristic_value(state@).unwrap() && -SCALE <= v <= SCALE,
    {
        if state.procedure == Some(Procedure::Touchdown) {
            return Ok(touchdown_value_exec(state));
        }
        let ball = match state.get_ball_position() {
            Ok(b) => b,
            Err(e) => {
                return Err(e);
            },
        };
        let (home, team) = match current_team_exec(state) {
            Some(t) => t,
            None => {
                return Err("Evaluation: no current team".to_string());
            },
        };
        let ps = on_pitch_players(&team.players);
        let n = ps.len();
        if n == 0 {
            return Err("Evaluation: no players on pitch for current team".to_string());
        }
        let target_x: i64 = if home {
            1
        } else {
            ARENA_WIDTH as i64 - 1
        };
        let own_x: i64 = if home {
            ARENA_WIDTH as i64 - 1
        } else {
            1
        };
        let ghost pv = ps@.map_values(|p: Player| p@);
        let carrier = if state.is_ball_carried() {
            match state.get_player_at(&ball) {
                Ok(c) => Some(c),
                Err(_) => None,
            }
        } else {
            None
        };
        let raw: i128 = match carrier {
            Some(c) => {
                let cpos = ball;
                let loc = match state.locate_player_at(&cpos) {
                    Some(l) => l,
                    None => {
                        return Err("Evaluation: carrier not found".to_string());
                    },
                };
                if loc.0 == home {
                    let sup: i128 = if n > 1 {
                        support_total(&ps, &c.player_id, cpos) / (100 * (n as i128 - 1))
                    } else {
                        0
                    };
                    985000 - 30000 * abs_i64(cpos.x as i64 - target_x) as i128 + sup
                } else {
                    -(990000 - 30000 * abs_i64(cpos.x as i64 - own_x) as i128) + closeness_total(
                        &ps,
                        cpos,
                    ) * 40000 / (FIELD_SPAN as i128 * n as i128)
                }
            },
            None => closeness_total(&ps, ball) * 300000 / (FIELD_SPAN as i128 * n as i128),
        };
        let v = if raw < -(SCALE as i128) {
            -SCALE
        } else if raw > SCALE as i128 {
            SCALE
        } else {
            raw as i64
        };
        Ok(v)
    }
}

/// The team on move, found by its identifier.
fn current_team_exec(state: &GameState) -> (r: Option<(bool, &crate::model::Team)>)
    ensures
        match r {
            Some((home, t)) => current_team(state@) == Some((home, t@)),
            None => current_team(state@) is None,
        },
{
    let id = match &state.current_team_id {
        Some(id) => id,
        None => {
            return None;
        },
    };
    match &state.home_team {
        Some(h) => {
            if h.team_id == *id {
                return Some((true, h));
            }
        },
        None => {},
    }
    match &state.away_team {
        Some(a) => {
            if a.team_id == *id {
                return Some((false, a));
            }
        },
        None => {},
    }
    None
}

fn span_distance_exec(a: Square, b: Square) -> (r: i128)
    ensures
        r == span_distance(a, b),
        0 <= r <= FIELD_SPAN,
{
    let d = a.distance(&b);
    if d > 45 {
        45
    } else {
        d as i128
    }
}

/// The sum of `FIELD_SPAN - distance to sq` over the players, all on the pitch.
fn closeness_total(ps: &Vec<Player>, sq: Square) -> (r: i128)
    requires
        forall|i: int| 0 <= i < ps@.len() ==> (#[trigger] ps@[i]).position is Some,
    ensures
        r == closeness(ps@.map_values(|p: Player| p@), sq, ps@.len() as int),
        0 <= r <= FIELD_SPAN * ps@.len(),
{
    let ghost pv = ps@.map_values(|p: Player| p@);
    let mut total: i128 = 0;
    let mut i: usize = 0;
    while i < ps.len()
        invariant
            i <= ps@.len(),
            pv == ps@.map_values(|p: Player| p@),
            forall|k: int| 0 <= k < ps@.len() ==> (#[trigger] ps@[k]).position is Some,
            total == closeness(pv, sq, i as int),
            0 <= total <= FIELD_SPAN * i,
        decreases ps@.len() - i,
    {
        assert(pv[i as int] == ps@[i as int]@);
        total = total + (45 - span_distance_exec(ps[i].position.unwrap(), sq));
        i = i + 1;
    }
    total
}

/// The support of the players for the carrier `id` on `c`, all on the pitch.
fn support_total(ps: &Vec<Player>, id: &String, c: Square) -> (r: i128)
    requires
        forall|i: int| 0 <= i < ps@.len() ==> (#[trigger] ps@[i]).position is Some,
    ensures
        r == support_sum(ps@.map_values(|p: Player| p@), id@, c, ps@.len() as int),
        0 <= r <= 100000 * ps@.len(),
{
    let ghost pv = ps@.map_values(|p: Player| p@);
    let mut total: i128 = 0;
    let mut i: usize = 0;
    while i < ps.len()
        invariant
            i <= ps@.len(),
            pv == ps@.map_values(|p: Player| p@),
            forall|k: int| 0 <= k < ps@.len() ==> (#[trigger] ps@[k]).position is Some,
            total == support_sum(pv, id@, c, i as int),
            0 <= total <= 100000 * i,
        decreases ps@.len() - i,
    {
        assert(pv[i as int] == ps@[i as int]@);
        if ps[i].player_id != *id {
            let d = span_distance_exec(ps[i].position.unwrap(), c);
            let t: i128 = if d <= 5 {
                20000 * (5 - d)
            } else {
                50000 * (45 - d) / 45
            };
            total = total + t;
        }
        i = i + 1;
    }
    total
}

fn abs_i64(v: i64) -> (r: i64)
    requires
        v > i64::MIN,
    ensures
        r == abs(v as int),
{
    if v < 0 {
        -v
    } else {
        v
    }
}

/// The players of `ps` on the pitch, in order.
fn on_pitch_players(ps: &Vec<Player>) -> (r: Vec<Player>)
    ensures
        r@.map_values(|p: Player| p@) == filter_upto(
            ps@.map_values(|p: Player| p@),
            on_pitch(),
            ps@.len() as int,
        ),
        forall|i: int| 0 <= i < r@.len() ==> (#[trigger] r@[i]).position is Some,
{
    let ghost pv = ps@.map_values(|p: Player| p@);
    let mut out: Vec<Player> = Vec::new();
    let mut i: usize = 0;
    while i < ps.len()
        invariant
            i <= ps@.len(),
            pv == ps@.map_values(|p: Player| p@),
            out@.map_values(|p: Player| p@) == filter_upto(pv, on_pitch(), i as int),
            forall|k: int| 0 <= k < out@.len() ==> (#[trigger] out@[k]).position is Some,
        decreases ps@.len() - i,
    {
        if ps[i].position.is_some() {
            let ghost before = out@.map_values(|p: Player| p@);
            out.push(ps[i].clone());
            proof {
                assert(out@.map_values(|p: Player| p@) =~= before.push(pv[i as int]));
            }
        }
        i = i + 1;
    }
    out
}

} // verus!
