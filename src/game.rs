use crate::enums::{ActionType, Procedure, WeatherType};
use crate::geometry::{spec_distance, Square, ARENA_HEIGHT, ARENA_WIDTH};
use crate::model::{
    opt_str, Action, ActionKey, ActivePath, ActivePathView, Ball, BlockContext, BlockContextView,
    Player, PlayerView, Team, TeamView, TurnState,
};
use vstd::prelude::*;

verus! {

/// The whole game as the engine sees it for one query.
#[derive(Debug)]
pub struct GameState {
    pub half: u8,
    pub round: u8,
    pub game_over: bool,
    pub weather: WeatherType,
    pub balls: Vec<Ball>,
    pub home_team: Option<Team>,
    pub away_team: Option<Team>,
    pub kicking_first_half: Option<String>,
    pub receiving_first_half: Option<String>,
    pub kicking_this_drive: Option<String>,
    pub receiving_this_drive: Option<String>,
    pub coin_toss_winner: Option<String>,
    pub turn_state: Option<TurnState>,
    pub procedure: Option<Procedure>,
    pub parent_procedure: Option<Procedure>,
    pub current_team_id: Option<String>,
    pub active_player_id: Option<String>,
    pub rolls: Vec<ActionType>,
    pub block_context: Option<BlockContext>,
    pub position: Option<Square>,
    pub available_actions: Vec<Action>,
    pub active_path: Option<ActivePath>,
}

pub struct GameStateView {
    pub half: u8,
    pub round: u8,
    pub game_over: bool,
    pub weather: WeatherType,
    pub balls: Seq<Ball>,
    pub home: Option<TeamView>,
    pub away: Option<TeamView>,
    pub kicking_first_half: Option<Seq<char>>,
    pub receiving_first_half: Option<Seq<char>>,
    pub kicking_this_drive: Option<Seq<char>>,
    pub receiving_this_drive: Option<Seq<char>>,
    pub coin_toss_winner: Option<Seq<char>>,
    pub turn_state: Option<TurnState>,
    pub procedure: Option<Procedure>,
    pub parent_procedure: Option<Procedure>,
    pub current_team_id: Option<Seq<char>>,
    pub active_player_id: Option<Seq<char>>,
    pub rolls: Seq<ActionType>,
    pub block_context: Option<BlockContextView>,
    pub position: Option<Square>,
    pub available_actions: Seq<ActionKey>,
    pub active_path: Option<ActivePathView>,
}

pub open spec fn opt_team(t: Option<Team>) -> Option<TeamView> {
    match t {
        Some(t) => Some(t@),
        None => None,
    }
}

impl View for GameState {
    type V = GameStateView;

    open spec fn view(&self) -> GameStateView {
        GameStateView {
            half: self.half,
            round: self.round,
            game_over: self.game_over,
            weather: self.weather,
            balls: self.balls@,
            home: opt_team(self.home_team),
            away: opt_team(self.away_team),
            kicking_first_half: opt_str(self.kicking_first_half),
            receiving_first_half: opt_str(self.receiving_first_half),
            kicking_this_drive: opt_str(self.kicking_this_drive),
            receiving_this_drive: opt_str(self.receiving_this_drive),
            coin_toss_winner: opt_str(self.coin_toss_winner),
            turn_state: self.turn_state,
            procedure: self.procedure,
            parent_procedure: self.parent_procedure,
            current_team_id: opt_str(self.current_team_id),
            active_player_id: opt_str(self.active_player_id),
            rolls: self.rolls@,
            block_context: match self.block_context {
                Some(b) => Some(b@),
                None => None,
            },
            position: self.position,
            available_actions: self.available_actions@.map_values(|a: Action| a@),
            active_path: match self.active_path {
                Some(p) => Some(p@),
                None => None,
            },
        }
    }
}

fn clone_opt_string(o: &Option<String>) -> (r: Option<String>)
    ensures
        r == *o,
{
    match o {
        Some(s) => Some(s.clone()),
        None => None,
    }
}

impl Clone for GameState {
    fn clone(&self) -> (r: Self)
        ensures
            r@ == self@,
    {
        let balls = self.balls.clone();
        assert(balls@ =~= self.balls@);
        let rolls = self.rolls.clone();
        assert(rolls@ =~= self.rolls@);
        let actions = self.available_actions.clone();
        assert(actions@.map_values(|a: Action| a@) =~= self.available_actions@.map_values(
            |a: Action| a@,
        ));
        GameState {
            half: self.half,
            round: self.round,
            game_over: self.game_over,
            weather: self.weather,
            balls,
            home_team: match &self.home_team {
                Some(t) => Some(t.clone()),
                None => None,
            },
            away_team: match &self.away_team {
                Some(t) => Some(t.clone()),
                None => None,
            },
            kicking_first_half: clone_opt_string(&self.kicking_first_half),
            receiving_first_half: clone_opt_string(&self.receiving_first_half),
            kicking_this_drive: clone_opt_string(&self.kicking_this_drive),
            receiving_this_drive: clone_opt_string(&self.receiving_this_drive),
            coin_toss_winner: clone_opt_string(&self.coin_toss_winner),
            turn_state: self.turn_state,
            procedure: self.procedure,
            parent_procedure: self.parent_procedure,
            current_team_id: clone_opt_string(&self.current_team_id),
            active_player_id: clone_opt_string(&self.active_player_id),
            rolls,
            block_context: match &self.block_context {
                Some(b) => Some(b.clone()),
                None => None,
            },
            position: self.position,
            available_actions: actions,
            active_path: match &self.active_path {
                Some(p) => Some(p.clone()),
                None => None,
            },
        }
    }
}

impl Default for GameState {
    fn default() -> (r: GameState)
        ensures
            r.half == 1,
            r.round == 0,
            !r.game_over,
            r.weather == WeatherType::Nice,
            r@.balls.len() == 0,
            r.home_team is None,
            r.away_team is None,
            r.turn_state is None,
            r.procedure is None,
            r.parent_procedure is None,
            r.current_team_id is None,
            r.active_player_id is None,
            r@.rolls.len() == 0,
            r.block_context is None,
            r.position is None,
            r@.available_actions.len() == 0,
            r.active_path is None,
    {
        GameState {
            half: 1,
            round: 0,
            game_over: false,
            weather: WeatherType::Nice,
            balls: Vec::new(),
            home_team: None,
            away_team: None,
            kicking_first_half: None,
            receiving_first_half: None,
            kicking_this_drive: None,
            receiving_this_drive: None,
            coin_toss_winner: None,
            turn_state: None,
            procedure: None,
            parent_procedure: None,
            current_team_id: None,
            active_player_id: None,
            rolls: Vec::new(),
            block_context: None,
            position: None,
            available_actions: Vec::new(),
            active_path: None,
        }
    }
}

pub open spec fn min_int(a: int, b: int) -> int {
    if a <= b {
        a
    } else {
        b
    }
}

/// The players of a team, none for a missing team.
pub open spec fn team_players(t: Option<TeamView>) -> Seq<PlayerView> {
    match t {
        Some(t) => t.players,
        None => Seq::empty(),
    }
}

/// The index of the first player at or after `i` that satisfies `f`, or -1.
pub open spec fn first_from(ps: Seq<PlayerView>, f: spec_fn(PlayerView) -> bool, i: int) -> int
    decreases ps.len() - i,
{
    if i < 0 || i >= ps.len() {
        -1
    } else if f(ps[i]) {
        i
    } else {
        first_from(ps, f, i + 1)
    }
}

/// The first `n` players that satisfy `f`, in order.
pub open spec fn filter_upto(ps: Seq<PlayerView>, f: spec_fn(PlayerView) -> bool, n: int) -> Seq<
    PlayerView,
>
    decreases n,
{
    if n <= 0 {
        Seq::empty()
    } else {
        let prev = filter_upto(ps, f, n - 1);
        if f(ps[n - 1]) {
            prev.push(ps[n - 1])
        } else {
            prev
        }
    }
}

pub proof fn lemma_first_from_found(ps: Seq<PlayerView>, f: spec_fn(PlayerView) -> bool, i: int)
    requires
        0 <= i,
    ensures
        first_from(ps, f, i) == -1 || (i <= first_from(ps, f, i) < ps.len() && f(
            ps[first_from(ps, f, i)],
        )),
    decreases ps.len() - i,
{
    if i < ps.len() && !f(ps[i]) {
        lemma_first_from_found(ps, f, i + 1);
    }
}

/// Two lists whose players agree on `f` give the same first match.
pub proof fn lemma_first_from_same(
    ps: Seq<PlayerView>,
    qs: Seq<PlayerView>,
    f: spec_fn(PlayerView) -> bool,
    i: int,
)
    requires
        ps.len() == qs.len(),
        forall|j: int| 0 <= j < ps.len() ==> f(#[trigger] ps[j]) == f(qs[j]),
    ensures
        first_from(ps, f, i) == first_from(qs, f, i),
    decreases ps.len() - i,
{
    if 0 <= i < ps.len() {
        lemma_first_from_same(ps, qs, f, i + 1);
    }
}

/// Replacing a player by one with the same identifier leaves every identifier where it was.
pub proof fn lemma_with_player_keeps_ids(s: GameStateView, loc: (bool, int), p: PlayerView)
    requires
        valid_loc(s, loc),
        p.player_id == player_at_loc(s, loc).player_id,
    ensures
        forall|id: Seq<char>| #[trigger] locate(with_player(s, loc, p), has_id(id)) == locate(s, has_id(id)),
{
    let t = with_player(s, loc, p);
    assert forall|id: Seq<char>| #[trigger] locate(t, has_id(id)) == locate(s, has_id(id)) by {
        lemma_first_from_same(team_players(s.home), team_players(t.home), has_id(id), 0);
        lemma_first_from_same(team_players(s.away), team_players(t.away), has_id(id), 0);
    }
}

/// When no player from `i` on satisfies `f`, none does.
pub proof fn lemma_first_from_none(ps: Seq<PlayerView>, f: spec_fn(PlayerView) -> bool, i: int)
    requires
        0 <= i,
        first_from(ps, f, i) == -1,
    ensures
        forall|j: int| i <= j < ps.len() ==> !f(#[trigger] ps[j]),
    decreases ps.len() - i,
{
    if i < ps.len() {
        lemma_first_from_none(ps, f, i + 1);
    }
}

pub open spec fn has_id(id: Seq<char>) -> spec_fn(PlayerView) -> bool {
    |p: PlayerView| p.player_id == id
}

pub open spec fn stands_on(sq: Square) -> spec_fn(PlayerView) -> bool {
    |p: PlayerView| p.position == Some(sq)
}

/// Where the first player that satisfies `f` stands in the lists: `(true, i)` for the home
/// team's `i`-th player, `(false, i)` for the away team's; the home team is searched first.
pub open spec fn locate(s: GameStateView, f: spec_fn(PlayerView) -> bool) -> Option<(bool, int)> {
    let h = first_from(team_players(s.home), f, 0);
    if h >= 0 {
        Some((true, h))
    } else {
        let a = first_from(team_players(s.away), f, 0);
        if a >= 0 {
            Some((false, a))
        } else {
            None
        }
    }
}

pub open spec fn player_at_loc(s: GameStateView, loc: (bool, int)) -> PlayerView {
    if loc.0 {
        team_players(s.home)[loc.1]
    } else {
        team_players(s.away)[loc.1]
    }
}

/// The player with identifier `id`.
pub open spec fn player_by_id(s: GameStateView, id: Seq<char>) -> Option<PlayerView> {
    match locate(s, has_id(id)) {
        Some(loc) => Some(player_at_loc(s, loc)),
        None => None,
    }
}

/// The player standing on `sq`.
pub open spec fn player_on(s: GameStateView, sq: Square) -> Option<PlayerView> {
    match locate(s, stands_on(sq)) {
        Some(loc) => Some(player_at_loc(s, loc)),
        None => None,
    }
}

/// The active player.
pub open spec fn active_player(s: GameStateView) -> Option<PlayerView> {
    match s.active_player_id {
        Some(id) => player_by_id(s, id),
        None => None,
    }
}

pub open spec fn spec_is_home_team(s: GameStateView, team_id: Seq<char>) -> bool {
    s.home is Some && s.home.unwrap().team_id == team_id
}

/// The team that plays against `team_id`: the away team for the home team, else the home
/// team.
pub open spec fn opponents_of(s: GameStateView, team_id: Seq<char>) -> Option<TeamView> {
    if spec_is_home_team(s, team_id) {
        s.away
    } else {
        s.home
    }
}

/// The team `team_id` itself, found the same way.
pub open spec fn own_team(s: GameStateView, team_id: Seq<char>) -> Option<TeamView> {
    if spec_is_home_team(s, team_id) {
        s.home
    } else {
        s.away
    }
}

/// Standing within distance one of `sq`.
pub open spec fn next_to(sq: Square) -> spec_fn(PlayerView) -> bool {
    |p: PlayerView| p.position is Some && spec_distance(p.position.unwrap(), sq) == 1
}

/// Next to `sq`, up and not stunned: exerting a tackle zone on `sq`.
pub open spec fn marks(sq: Square) -> spec_fn(PlayerView) -> bool {
    |p: PlayerView|
        p.position is Some && spec_distance(p.position.unwrap(), sq) == 1 && p.state.up
            && !p.state.stunned
}

/// Some player of the list has no position.
pub open spec fn some_off_pitch(ps: Seq<PlayerView>) -> bool {
    exists|i: int| 0 <= i < ps.len() && (#[trigger] ps[i]).position is None
}

/// The number of tackle zones that the opponents of `team_id` exert on `sq`.
pub open spec fn tackle_zones(s: GameStateView, team_id: Seq<char>, sq: Square) -> int {
    let ps = team_players(opponents_of(s, team_id));
    filter_upto(ps, marks(sq), ps.len() as int).len() as int
}

pub open spec fn ball_position(s: GameStateView) -> Option<Square> {
    if s.balls.len() > 0 {
        s.balls[0].position
    } else {
        None
    }
}

pub open spec fn spec_ball_carried(s: GameStateView) -> bool {
    s.balls.len() > 0 && s.balls[0].is_carried
}

/// The player on the ball's square while the ball is carried.
pub open spec fn ball_carrier(s: GameStateView) -> Option<PlayerView> {
    if spec_ball_carried(s) && ball_position(s) is Some {
        player_on(s, ball_position(s).unwrap())
    } else {
        None
    }
}

/// The active player carries the ball.
pub open spec fn active_carries(s: GameStateView) -> bool {
    spec_ball_carried(s) && ball_position(s) is Some && active_player(s) is Some
        && active_player(s).unwrap().position == ball_position(s)
}

/// Tackle zones are counted from the other side: the home team is exposed on `sq` to the
/// away players next to it that are up and not stunned, and the away team to the home
/// players of that kind.
pub proof fn lemma_tackle_zone_symmetry(s: GameStateView, sq: Square)
    requires
        s.home is Some,
        s.away is Some,
        s.home.unwrap().team_id != s.away.unwrap().team_id,
    ensures
        tackle_zones(s, s.home.unwrap().team_id, sq) == filter_upto(
            s.away.unwrap().players,
            marks(sq),
            s.away.unwrap().players.len() as int,
        ).len(),
        tackle_zones(s, s.away.unwrap().team_id, sq) == filter_upto(
            s.home.unwrap().players,
            marks(sq),
            s.home.unwrap().players.len() as int,
        ).len(),
{
}

/// At most one player stands on `sq`.
pub open spec fn at_most_one_on(s: GameStateView, sq: Square) -> bool {
    forall|a: (bool, int), b: (bool, int)|
        valid_loc(s, a) && valid_loc(s, b) && (#[trigger] player_at_loc(s, a)).position == Some(sq)
            && (#[trigger] player_at_loc(s, b)).position == Some(sq) ==> a == b
}

/// No two players share a square.
pub open spec fn positions_unique(s: GameStateView) -> bool {
    forall|sq: Square| #[trigger] at_most_one_on(s, sq)
}

/// While the ball is carried, at most one player stands on its square.
pub open spec fn ball_unique(s: GameStateView) -> bool {
    spec_ball_carried(s) && ball_position(s) is Some ==> at_most_one_on(s, ball_position(s).unwrap())
}

/// `s` with the player at `loc` replaced by `p`.
pub open spec fn with_player(s: GameStateView, loc: (bool, int), p: PlayerView) -> GameStateView {
    if loc.0 {
        GameStateView {
            home: Some(TeamView { players: s.home.unwrap().players.update(loc.1, p), ..s.home.unwrap() }),
            ..s
        }
    } else {
        GameStateView {
            away: Some(TeamView { players: s.away.unwrap().players.update(loc.1, p), ..s.away.unwrap() }),
            ..s
        }
    }
}

pub open spec fn valid_loc(s: GameStateView, loc: (bool, int)) -> bool {
    0 <= loc.1 < team_players(if loc.0 {
        s.home
    } else {
        s.away
    }).len() && (if loc.0 {
        s.home is Some
    } else {
        s.away is Some
    })
}

pub open spec fn loc_view(l: Option<(bool, usize)>) -> Option<(bool, int)> {
    match l {
        Some((h, i)) => Some((h, i as int)),
        None => None,
    }
}

fn first_in_team_by_id(t: &Option<Team>, id: &String) -> (r: Option<usize>)
    ensures
        match r {
            Some(i) => first_from(team_players(opt_team(*t)), has_id(id@), 0) == i,
            None => first_from(team_players(opt_team(*t)), has_id(id@), 0) == -1,
        },
{
    match t {
        Some(team) => {
            let ghost ps = team@.players;
            let mut i: usize = 0;
            while i < team.players.len()
                invariant
                    ps == team@.players,
                    team_players(opt_team(*t)) == ps,
                    i <= ps.len(),
                    first_from(ps, has_id(id@), 0) == first_from(ps, has_id(id@), i as int),
                decreases ps.len() - i,
            {
                if team.players[i].player_id == *id {
                    proof {
                        assert(ps[i as int] == team.players@[i as int]@);
                        assert(has_id(id@)(ps[i as int]));
                        assert(first_from(ps, has_id(id@), i as int) == i);
                        assert(team_players(opt_team(*t)) == ps);
                    }
                    return Some(i);
                }
                i = i + 1;
            }
            None
        },
        None => None,
    }
}

fn first_in_team_at(t: &Option<Team>, sq: &Square) -> (r: Option<usize>)
    ensures
        match r {
            Some(i) => first_from(team_players(opt_team(*t)), stands_on(*sq), 0) == i,
            None => first_from(team_players(opt_team(*t)), stands_on(*sq), 0) == -1,
        },
{
    match t {
        Some(team) => {
            let ghost ps = team@.players;
            let mut i: usize = 0;
            while i < team.players.len()
                invariant
                    ps == team@.players,
                    team_players(opt_team(*t)) == ps,
                    i <= ps.len(),
                    first_from(ps, stands_on(*sq), 0) == first_from(ps, stands_on(*sq), i as int),
                decreases ps.len() - i,
            {
                if team.players[i].position == Some(*sq) {
                    proof {
                        assert(ps[i as int] == team.players@[i as int]@);
                        assert(stands_on(*sq)(ps[i as int]));
                        assert(first_from(ps, stands_on(*sq), i as int) == i);
                        assert(team_players(opt_team(*t)) == ps);
                    }
                    return Some(i);
                }
                i = i + 1;
            }
            None
        },
        None => None,
    }
}

impl GameState {
    /// Where the player with identifier `id` is listed.
    pub fn locate_player(&self, id: &String) -> (r: Option<(bool, usize)>)
        ensures
            loc_view(r) == locate(self@, has_id(id@)),
    {
        match first_in_team_by_id(&self.home_team, id) {
            Some(i) => Some((true, i)),
            None => match first_in_team_by_id(&self.away_team, id) {
                Some(i) => Some((false, i)),
                None => None,
            },
        }
    }

    /// Where the player standing on `sq` is listed.
    pub fn locate_player_at(&self, sq: &Square) -> (r: Option<(bool, usize)>)
        ensures
            loc_view(r) == locate(self@, stands_on(*sq)),
    {
        match first_in_team_at(&self.home_team, sq) {
            Some(i) => Some((true, i)),
            None => match first_in_team_at(&self.away_team, sq) {
                Some(i) => Some((false, i)),
                None => None,
            },
        }
    }

    pub proof fn lemma_locate_valid(&self, f: spec_fn(PlayerView) -> bool)
        ensures
            locate(self@, f) matches Some(loc) ==> valid_loc(self@, loc) && f(
                player_at_loc(self@, loc),
            ),
    {
        lemma_first_from_found(team_players(self@.home), f, 0);
        lemma_first_from_found(team_players(self@.away), f, 0);
    }

    /// The player listed at `loc`.
    pub fn player_at(&self, loc: (bool, usize)) -> (r: &Player)
        requires
            valid_loc(self@, (loc.0, loc.1 as int)),
        ensures
            r@ == player_at_loc(self@, (loc.0, loc.1 as int)),
    {
        if loc.0 {
            let t = self.home_team.as_ref().unwrap();
            &t.players[loc.1]
        } else {
            let t = self.away_team.as_ref().unwrap();
            &t.players[loc.1]
        }
    }

    /// Replaces the player listed at `loc` by `p`.
    pub fn set_player(&mut self, loc: (bool, usize), p: Player)
        requires
            valid_loc(old(self)@, (loc.0, loc.1 as int)),
        ensures
            final(self)@ == with_player(old(self)@, (loc.0, loc.1 as int), p@),
    {
        let ghost pv = p@;
        if loc.0 {
            let mut t = self.home_team.take().unwrap();
            t.players.set(loc.1, p);
            self.home_team = Some(t);
            proof {
                assert(t@.players =~= old(self)@.home.unwrap().players.update(loc.1 as int, pv));
            }
        } else {
            let mut t = self.away_team.take().unwrap();
            t.players.set(loc.1, p);
            self.away_team = Some(t);
            proof {
                assert(t@.players =~= old(self)@.away.unwrap().players.update(loc.1 as int, pv));
            }
        }
        proof {
            assert(self@.available_actions =~= old(self)@.available_actions);
        }
    }

    /// True when `team_id` names the home team.
    pub fn is_home_team(&self, team_id: &String) -> (r: bool)
        ensures
            r == spec_is_home_team(self@, team_id@),
    {
        match &self.home_team {
            Some(t) => t.team_id == *team_id,
            None => false,
        }
    }

    /// True when `position` lies on the half of the pitch of `team_id`: the right half for
    /// the home team, the left half otherwise.
    pub fn is_team_side(&self, position: &Square, team_id: &String) -> (r: bool)
        ensures
            r == if spec_is_home_team(self@, team_id@) {
                position.x >= ARENA_WIDTH / 2
            } else {
                position.x < ARENA_WIDTH / 2
            },
    {
        if self.is_home_team(team_id) {
            position.x >= ARENA_WIDTH / 2
        } else {
            position.x < ARENA_WIDTH / 2
        }
    }

    /// The player with identifier `player_id`.
    pub fn get_player(&self, player_id: &String) -> (r: Result<&Player, String>)
        ensures
            match r {
                Ok(p) => player_by_id(self@, player_id@) == Some(p@) && p.player_id@ == player_id@,
                Err(_) => player_by_id(self@, player_id@) is None,
            },
    {
        proof {
            self.lemma_locate_valid(has_id(player_id@));
        }
        match self.locate_player(player_id) {
            Some(loc) => Ok(self.player_at(loc)),
            None => Err(no_player_with_id()),
        }
    }

    /// The player standing on `position`.
    pub fn get_player_at(&self, position: &Square) -> (r: Result<&Player, String>)
        ensures
            match r {
                Ok(p) => player_on(self@, *position) == Some(p@) && p.position == Some(*position),
                Err(_) => player_on(self@, *position) is None,
            },
    {
        proof {
            self.lemma_locate_valid(stands_on(*position));
        }
        match self.locate_player_at(position) {
            Some(loc) => Ok(self.player_at(loc)),
            None => Err(no_player_on_square()),
        }
    }

    /// The active player.
    pub fn get_active_player(&self) -> (r: Result<&Player, String>)
        ensures
            match r {
                Ok(p) => active_player(self@) == Some(p@),
                Err(_) => active_player(self@) is None,
            },
    {
        match &self.active_player_id {
            Some(id) => self.get_player(id),
            None => Err(missing_active_player()),
        }
    }

    /// The identifier of the team of player `player_id`.
    pub fn get_player_team_id(&self, player_id: &String) -> (r: Result<&String, String>)
        ensures
            match r {
                Ok(t) => match locate(self@, has_id(player_id@)) {
                    Some(loc) => t@ == (if loc.0 {
                        self@.home.unwrap().team_id
                    } else {
                        self@.away.unwrap().team_id
                    }),
                    None => false,
                },
                Err(_) => locate(self@, has_id(player_id@)) is None,
            },
    {
        match self.locate_player(player_id) {
            Some(loc) => {
                if loc.0 {
                    Ok(&self.home_team.as_ref().unwrap().team_id)
                } else {
                    Ok(&self.away_team.as_ref().unwrap().team_id)
                }
            },
            None => Err(no_player_with_id()),
        }
    }

    /// The opponents of `team_id` within distance one of `position`, in list order. Fails
    /// when that team is missing or one of its players has no position.
    pub fn get_adjacent_opponents(&self, team_id: &String, position: &Square) -> (r: Result<
        Vec<Player>,
        String,
    >)
        ensures
            match r {
                Ok(v) => {
                    let ps = team_players(opponents_of(self@, team_id@));
                    &&& opponents_of(self@, team_id@) is Some
                    &&& !some_off_pitch(ps)
                    &&& v@.map_values(|p: Player| p@) == filter_upto(
                        ps,
                        next_to(*position),
                        ps.len() as int,
                    )
                },
                Err(_) => opponents_of(self@, team_id@) is None || some_off_pitch(
                    team_players(opponents_of(self@, team_id@)),
                ),
            },
    {
        let team = if self.is_home_team(team_id) {
            &self.away_team
        } else {
            &self.home_team
        };
        players_next_to(team, position)
    }

    /// The team-mates of `team_id` within distance one of `position`, in list order. Fails
    /// when that team is missing or one of its players has no position.
    pub fn get_adjacent_teammates(&self, team_id: &String, position: &Square) -> (r: Result<
        Vec<Player>,
        String,
    >)
        ensures
            match r {
                Ok(v) => {
                    let ps = team_players(own_team(self@, team_id@));
                    &&& own_team(self@, team_id@) is Some
                    &&& !some_off_pitch(ps)
                    &&& v@.map_values(|p: Player| p@) == filter_upto(
                        ps,
                        next_to(*position),
                        ps.len() as int,
                    )
                },
                Err(_) => own_team(self@, team_id@) is None || some_off_pitch(
                    team_players(own_team(self@, team_id@)),
                ),
            },
    {
        let team = if self.is_home_team(team_id) {
            &self.home_team
        } else {
            &self.away_team
        };
        players_next_to(team, position)
    }

    /// The number of opponents of `team_id` that stand next to `position`, up and not
    /// stunned: the tackle zones that `team_id` is exposed to there.
    pub fn get_team_tackle_zones_at(&self, team_id: &String, position: &Square) -> (r: usize)
        ensures
            r == tackle_zones(self@, team_id@, *position),
    {
        let team = if self.is_home_team(team_id) {
            &self.away_team
        } else {
            &self.home_team
        };
        match team {
            Some(t) => {
                let ghost ps = t@.players;
                let mut n: usize = 0;
                let mut i: usize = 0;
                while i < t.players.len()
                    invariant
                        ps == t@.players,
                        i <= ps.len(),
                        n == filter_upto(ps, marks(*position), i as int).len(),
                        n <= i,
                    decreases ps.len() - i,
                {
                    let p = &t.players[i];
                    match p.position {
                        Some(pp) => {
                            if position.distance(&pp) == 1 && p.state.up && !p.state.stunned {
                                n = n + 1;
                            }
                        },
                        None => {},
                    }
                    i = i + 1;
                }
                n
            },
            None => 0,
        }
    }

    /// The square of the first ball.
    pub fn get_ball_position(&self) -> (r: Result<Square, String>)
        ensures
            match r {
                Ok(sq) => ball_position(self@) == Some(sq),
                Err(_) => ball_position(self@) is None,
            },
    {
        if self.balls.len() > 0 {
            match self.balls[0].position {
                Some(p) => Ok(p),
                None => Err(missing_ball()),
            }
        } else {
            Err(missing_ball())
        }
    }

    /// True when the first ball is carried.
    pub fn is_ball_carried(&self) -> (r: bool)
        ensures
            r == spec_ball_carried(self@),
    {
        self.balls.len() > 0 && self.balls[0].is_carried
    }

    /// The player holding the ball.
    pub fn get_ball_carrier(&self) -> (r: Result<&Player, String>)
        ensures
            match r {
                Ok(p) => ball_carrier(self@) == Some(p@),
                Err(_) => ball_carrier(self@) is None,
            },
    {
        if !self.is_ball_carried() {
            return Err(missing_ball());
        }
        match self.get_ball_position() {
            Ok(sq) => self.get_player_at(&sq),
            Err(e) => Err(e),
        }
    }

    /// True when the active player holds the ball.
    pub fn is_active_player_carrying_ball(&self) -> (r: bool)
        ensures
            r == active_carries(self@),
    {
        if !self.is_ball_carried() {
            return false;
        }
        match (self.get_ball_position(), self.get_active_player()) {
            (Ok(b), Ok(p)) => p.position == Some(b),
            _ => false,
        }
    }

    /// The squares inside the border on the half of the team receiving this drive, row by
    /// row; none when no team is receiving.
    pub fn get_receiving_team_side_positions(&self) -> (r: Vec<Square>)
        ensures
            r@ == receiving_side(self@),
            self@.receiving_this_drive is None ==> r@.len() == 0,
            self@.receiving_this_drive matches Some(id) ==> {
                let home = spec_is_home_team(self@, id);
                let (x0, x1) = if home {
                    ((ARENA_WIDTH / 2) as int, (ARENA_WIDTH - 2) as int)
                } else {
                    (1int, (ARENA_WIDTH / 2 - 1) as int)
                };
                let w: int = x1 - x0 + 1;
                &&& r@.len() == w * (ARENA_HEIGHT - 2)
                &&& forall|k: int|
                    0 <= k < r@.len() ==> #[trigger] r@[k] == (Square {
                        x: (x0 + k % w) as i32,
                        y: (1 + k / w) as i32,
                    })
            },
    {
        let mut positions: Vec<Square> = Vec::new();
        match &self.receiving_this_drive {
            Some(id) => {
                let (x0, x1): (i32, i32) = if self.is_home_team(id) {
                    (ARENA_WIDTH / 2, ARENA_WIDTH - 2)
                } else {
                    (1, ARENA_WIDTH / 2 - 1)
                };
                let w: i32 = x1 - x0 + 1;
                let mut y: i32 = 1;
                while y < ARENA_HEIGHT - 1
                    invariant
                        1 <= y <= ARENA_HEIGHT - 1,
                        w == 14 || w == 13,
                        x1 == x0 + w - 1,
                        1 <= x0 <= 14,
                        positions@.len() == w * (y - 1),
                        forall|k: int|
                            0 <= k < positions@.len() ==> #[trigger] positions@[k] == (Square {
                                x: (x0 + k % (w as int)) as i32,
                                y: (1 + k / (w as int)) as i32,
                            }),
                    decreases ARENA_HEIGHT - y,
                {
                    let mut x: i32 = x0;
                    while x <= x1
                        invariant
                            1 <= y < ARENA_HEIGHT - 1,
                            w == 14 || w == 13,
                            x1 == x0 + w - 1,
                            1 <= x0 <= 14,
                            x0 <= x <= x1 + 1,
                            positions@.len() == w * (y - 1) + (x - x0),
                            forall|k: int|
                                0 <= k < positions@.len() ==> #[trigger] positions@[k] == (Square {
                                    x: (x0 + k % (w as int)) as i32,
                                    y: (1 + k / (w as int)) as i32,
                                }),
                        decreases x1 + 1 - x,
                    {
                        proof {
                            let k: int = w * (y - 1) + (x - x0);
                            let wi: int = w as int;
                            assert(k % wi == x - x0 && k / wi == y - 1) by (nonlinear_arith)
                                requires
                                    k == wi * (y - 1) + (x - x0),
                                    wi == w,
                                    0 <= x - x0 < w,
                                    y >= 1,
                                    w > 0,
                            ;
                        }
                        positions.push(Square::new(x, y));
                        x = x + 1;
                    }
                    proof {
                        assert(w * (y - 1) + w == w * y) by (nonlinear_arith);
                    }
                    y = y + 1;
                }
            },
            None => {},
        }
        proof {
            assert(positions@ =~= receiving_side(self@));
        }
        positions
    }
}

/// The squares inside the border on the half of the team receiving this drive, row by row.
pub open spec fn receiving_side(s: GameStateView) -> Seq<Square> {
    match s.receiving_this_drive {
        None => Seq::empty(),
        Some(id) => {
            let home = spec_is_home_team(s, id);
            let x0: int = if home {
                (ARENA_WIDTH / 2) as int
            } else {
                1
            };
            let w: int = if home {
                (ARENA_WIDTH - 2 - ARENA_WIDTH / 2 + 1) as int
            } else {
                (ARENA_WIDTH / 2 - 1) as int
            };
            Seq::new(
                (w * (ARENA_HEIGHT - 2)) as nat,
                |k: int| Square { x: (x0 + k % w) as i32, y: (1 + k / w) as i32 },
            )
        },
    }
}

/// The players of `team` within distance one of `position`, in list order; fails when the
/// team is missing or one of its players has no position.
fn players_next_to(team: &Option<Team>, position: &Square) -> (r: Result<Vec<Player>, String>)
    ensures
        match r {
            Ok(v) => {
                let ps = team_players(opt_team(*team));
                &&& team is Some
                &&& !some_off_pitch(ps)
                &&& v@.map_values(|p: Player| p@) == filter_upto(
                    ps,
                    next_to(*position),
                    ps.len() as int,
                )
            },
            Err(_) => team is None || some_off_pitch(team_players(opt_team(*team))),
        },
{
    match team {
        Some(t) => {
            let ghost ps = t@.players;
            let mut out: Vec<Player> = Vec::new();
            let mut i: usize = 0;
            while i < t.players.len()
                invariant
                    ps == t@.players,
                    team_players(opt_team(*team)) == ps,
                    i <= ps.len(),
                    out@.map_values(|p: Player| p@) == filter_upto(ps, next_to(*position), i as int),
                    forall|j: int| 0 <= j < i ==> (#[trigger] ps[j]).position is Some,
                decreases ps.len() - i,
            {
                let p = &t.players[i];
                match p.position {
                    Some(pp) => {
                        if position.distance(&pp) == 1 {
                            let ghost before = out@.map_values(|p: Player| p@);
                            out.push(p.clone());
                            proof {
                                assert(out@.map_values(|p: Player| p@) =~= before.push(ps[i as int]));
                            }
                        }
                    },
                    None => {
                        proof {
                            assert(ps[i as int] == t.players@[i as int]@);
                            assert(ps[i as int].position is None);
                            assert(team_players(opt_team(*team)) == ps);
                            assert(some_off_pitch(ps));
                        }
                        return Err(missing_player_position());
                    },
                }
                i = i + 1;
            }
            Ok(out)
        },
        None => Err(missing_team()),
    }
}

fn no_player_with_id() -> String {
    "No player with this id".to_string()
}

fn no_player_on_square() -> String {
    "No player at this position".to_string()
}

fn missing_active_player() -> String {
    "Missing active player".to_string()
}

fn missing_ball() -> String {
    "Missing ball on field".to_string()
}

fn missing_player_position() -> String {
    "Missing player position".to_string()
}

fn missing_team() -> String {
    "Missing team".to_string()
}

} // verus!
