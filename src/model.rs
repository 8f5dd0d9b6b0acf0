use crate::enums::{ActionType, PlayerRole, Skill};
use crate::geometry::Square;
use crate::prob::Prob;
use vstd::std_specs::cmp::PartialEqSpec;
use vstd::prelude::*;

verus! {

/// The contents of an optional string.
pub open spec fn opt_str(o: Option<String>) -> Option<Seq<char>> {
    match o {
        Some(s) => Some(s@),
        None => None,
    }
}

fn clone_opt_string(o: &Option<String>) -> (r: Option<String>)
    ensures
        r == *o,
{
    match o {
        Some(s) => Some(s.clone()),
        None => None,
    }
}

fn clone_squares(v: &Vec<Square>) -> (r: Vec<Square>)
    ensures
        r@ == v@,
{
    let r = v.clone();
    assert(r@ =~= v@);
    r
}

/// A route for a moving player, from the square after its start up to `target`.
#[derive(Debug, PartialEq)]
pub struct Path {
    pub squares: Vec<Square>,
    pub target: Square,
    pub prob: Prob,
    pub moves_used: u8,
    pub gfis_used: u8,
    pub picks_up_ball: bool,
}

pub struct PathView {
    pub squares: Seq<Square>,
    pub target: Square,
    pub prob: Prob,
    pub moves_used: u8,
    pub gfis_used: u8,
    pub picks_up_ball: bool,
}

impl View for Path {
    type V = PathView;

    open spec fn view(&self) -> PathView {
        PathView {
            squares: self.squares@,
            target: self.target,
            prob: self.prob,
            moves_used: self.moves_used,
            gfis_used: self.gfis_used,
            picks_up_ball: self.picks_up_ball,
        }
    }
}

impl Clone for Path {
    fn clone(&self) -> (r: Self)
        ensures
            r@ == self@,
    {
        Path {
            squares: clone_squares(&self.squares),
            target: self.target,
            prob: self.prob,
            moves_used: self.moves_used,
            gfis_used: self.gfis_used,
            picks_up_ball: self.picks_up_ball,
        }
    }
}

impl Path {
    /// An empty path to `target` that is certain to succeed.
    pub fn new(target: Square) -> (r: Path)
        ensures
            r@.squares.len() == 0,
            r.target == target,
            r.prob == (Prob { num: 1, den: 1 }),
            r.moves_used == 0,
            r.gfis_used == 0,
            !r.picks_up_ball,
    {
        Path {
            squares: Vec::new(),
            target,
            prob: Prob::one(),
            moves_used: 0,
            gfis_used: 0,
            picks_up_ball: false,
        }
    }

    /// The number of steps.
    pub fn len(&self) -> (r: usize)
        ensures
            r == self.squares@.len(),
    {
        self.squares.len()
    }

    pub fn is_empty(&self) -> (r: bool)
        ensures
            r == (self.squares@.len() == 0),
    {
        self.squares.len() == 0
    }

    /// Movement points and go-for-it rolls spent.
    pub fn total_cost(&self) -> (r: u16)
        ensures
            r == self.moves_used + self.gfis_used,
    {
        self.moves_used as u16 + self.gfis_used as u16
    }
}

/// A path being walked one step at a time; `current_step` steps are done.
#[derive(Debug)]
pub struct ActivePath {
    pub path: Path,
    pub current_step: usize,
}

pub struct ActivePathView {
    pub path: PathView,
    pub current_step: usize,
}

impl View for ActivePath {
    type V = ActivePathView;

    open spec fn view(&self) -> ActivePathView {
        ActivePathView { path: self.path@, current_step: self.current_step }
    }
}

impl Clone for ActivePath {
    fn clone(&self) -> (r: Self)
        ensures
            r@ == self@,
    {
        ActivePath { path: self.path.clone(), current_step: self.current_step }
    }
}

impl ActivePath {
    pub open spec fn spec_is_complete(&self) -> bool {
        self.current_step >= self.path.squares@.len()
    }

    pub fn new(path: Path) -> (r: ActivePath)
        ensures
            r.path == path,
            r.current_step == 0,
    {
        ActivePath { path, current_step: 0 }
    }

    /// True once every step has been taken.
    pub fn is_complete(&self) -> (r: bool)
        ensures
            r == self.spec_is_complete(),
    {
        self.current_step >= self.path.squares.len()
    }

    /// The square of the next step, if any is left.
    pub fn next_square(&self) -> (r: Option<Square>)
        ensures
            self.spec_is_complete() ==> r is None,
            !self.spec_is_complete() ==> r == Some(self.path.squares@[self.current_step as int]),
    {
        if self.current_step < self.path.squares.len() {
            Some(self.path.squares[self.current_step])
        } else {
            None
        }
    }

    /// Counts one more step as done, up to the path's length.
    pub fn advance(&mut self)
        ensures
            final(self).path == old(self).path,
            final(self).current_step == if old(self).spec_is_complete() {
                old(self).current_step as int
            } else {
                old(self).current_step + 1
            },
    {
        if self.current_step < self.path.squares.len() {
            self.current_step = self.current_step + 1;
        }
    }
}

/// What two actions are compared by: the attached path is left out.
pub struct ActionKey {
    pub action_type: ActionType,
    pub player: Option<Seq<char>>,
    pub position: Option<Square>,
}

/// A move of the side that is to act.
#[derive(Debug)]
pub struct Action {
    pub action_type: ActionType,
    pub player: Option<String>,
    pub position: Option<Square>,
    pub path: Option<Path>,
}

impl View for Action {
    type V = ActionKey;

    open spec fn view(&self) -> ActionKey {
        ActionKey {
            action_type: self.action_type,
            player: opt_str(self.player),
            position: self.position,
        }
    }
}

impl PartialEq for Action {
    fn eq(&self, o: &Action) -> (r: bool) {
        let same_player = match (&self.player, &o.player) {
            (Some(a), Some(b)) => *a == *b,
            (None, None) => true,
            _ => false,
        };
        self.action_type == o.action_type && same_player && self.position == o.position
    }
}

impl vstd::std_specs::cmp::PartialEqSpecImpl for Action {
    open spec fn obeys_eq_spec() -> bool {
        true
    }

    open spec fn eq_spec(&self, o: &Action) -> bool {
        self@ == o@
    }
}

impl Clone for Action {
    fn clone(&self) -> (r: Self)
        ensures
            r@ == self@,
            r.player == self.player,
            r.path matches Some(p) ==> self.path matches Some(q) && p@ == q@,
            r.path is None <==> self.path is None,
    {
        Action {
            action_type: self.action_type,
            player: clone_opt_string(&self.player),
            position: self.position,
            path: match &self.path {
                Some(p) => Some(p.clone()),
                None => None,
            },
        }
    }
}

impl Action {
    pub fn new(action_type: ActionType, player: Option<String>, position: Option<Square>) -> (r:
        Action)
        ensures
            r.action_type == action_type,
            r.player == player,
            r.position == position,
            r.path is None,
    {
        Action { action_type, player, position, path: None }
    }

    /// An action that carries the path it will follow.
    pub fn with_path(action_type: ActionType, position: Option<Square>, path: Path) -> (r: Action)
        ensures
            r.action_type == action_type,
            r.player is None,
            r.position == position,
            r.path == Some(path),
    {
        Action { action_type, player: None, position, path: Some(path) }
    }

    pub fn action_type(&self) -> (r: ActionType)
        ensures
            r == self.action_type,
    {
        self.action_type
    }

    pub fn player(&self) -> (r: &Option<String>)
        ensures
            *r == self.player,
    {
        &self.player
    }

    pub fn position(&self) -> (r: &Option<Square>)
        ensures
            *r == self.position,
    {
        &self.position
    }

    /// The chance that the action succeeds: that of its path, or certainty without one.
    pub fn success_probability(&self) -> (r: Prob)
        ensures
            r == match self.path {
                Some(p) => p.prob,
                None => Prob { num: 1, den: 1 },
            },
    {
        match &self.path {
            Some(p) => p.prob,
            None => Prob::one(),
        }
    }
}

/// Actions that match in type, player and position are equal, whatever paths they carry.
pub proof fn lemma_action_equality(a: Action, b: Action)
    requires
        a.action_type == b.action_type,
        opt_str(a.player) == opt_str(b.player),
        a.position == b.position,
    ensures
        a.eq_spec(&b),
        a@ == b@,
{
}

#[derive(Debug, PartialEq, Eq, Structural, Clone, Copy)]
pub struct Ball {
    pub position: Option<Square>,
    pub is_carried: bool,
}

impl Ball {
    pub fn new(position: Option<Square>, is_carried: bool) -> (r: Ball)
        ensures
            r == (Ball { position, is_carried }),
    {
        Ball { position, is_carried }
    }
}

#[derive(Debug)]
pub struct PlayerState {
    pub up: bool,
    pub used: bool,
    pub moves: u8,
    pub stunned: bool,
    pub knocked_out: bool,
    pub squares_moved: Vec<Square>,
    pub has_blocked: bool,
}

pub struct PlayerStateView {
    pub up: bool,
    pub used: bool,
    pub moves: u8,
    pub stunned: bool,
    pub knocked_out: bool,
    pub squares_moved: Seq<Square>,
    pub has_blocked: bool,
}

impl View for PlayerState {
    type V = PlayerStateView;

    open spec fn view(&self) -> PlayerStateView {
        PlayerStateView {
            up: self.up,
            used: self.used,
            moves: self.moves,
            stunned: self.stunned,
            knocked_out: self.knocked_out,
            squares_moved: self.squares_moved@,
            has_blocked: self.has_blocked,
        }
    }
}

impl Clone for PlayerState {
    fn clone(&self) -> (r: Self)
        ensures
            r@ == self@,
    {
        PlayerState {
            up: self.up,
            used: self.used,
            moves: self.moves,
            stunned: self.stunned,
            knocked_out: self.knocked_out,
            squares_moved: clone_squares(&self.squares_moved),
            has_blocked: self.has_blocked,
        }
    }
}

impl Default for PlayerState {
    fn default() -> (r: PlayerState)
        ensures
            r.up,
            !r.used,
            r.moves == 0,
            !r.stunned,
            !r.knocked_out,
            r.squares_moved@.len() == 0,
            !r.has_blocked,
    {
        PlayerState {
            up: true,
            used: false,
            moves: 0,
            stunned: false,
            knocked_out: false,
            squares_moved: Vec::new(),
            has_blocked: false,
        }
    }
}

#[derive(Debug)]
pub struct Player {
    pub player_id: String,
    pub role: PlayerRole,
    pub skills: Vec<Skill>,
    pub ma: u8,
    pub st: u8,
    pub ag: u8,
    pub av: u8,
    pub state: PlayerState,
    pub position: Option<Square>,
}

pub struct PlayerView {
    pub player_id: Seq<char>,
    pub role: PlayerRole,
    pub skills: Seq<Skill>,
    pub ma: u8,
    pub st: u8,
    pub ag: u8,
    pub av: u8,
    pub state: PlayerStateView,
    pub position: Option<Square>,
}

impl View for Player {
    type V = PlayerView;

    open spec fn view(&self) -> PlayerView {
        PlayerView {
            player_id: self.player_id@,
            role: self.role,
            skills: self.skills@,
            ma: self.ma,
            st: self.st,
            ag: self.ag,
            av: self.av,
            state: self.state@,
            position: self.position,
        }
    }
}

impl Clone for Player {
    fn clone(&self) -> (r: Self)
        ensures
            r@ == self@,
            r.player_id == self.player_id,
    {
        let skills = self.skills.clone();
        assert(skills@ =~= self.skills@);
        Player {
            player_id: self.player_id.clone(),
            role: self.role,
            skills,
            ma: self.ma,
            st: self.st,
            ag: self.ag,
            av: self.av,
            state: self.state.clone(),
            position: self.position,
        }
    }
}

/// A fresh random identifier for a player.
///
/// Relies on uuid's `Uuid::new_v4` and its hyphenated text form.
#[verifier::external_body]
fn fresh_player_id() -> (r: String) {
    uuid::Uuid::new_v4().to_string()
}

impl Default for Player {
    fn default() -> (r: Player)
        ensures
            r.role == PlayerRole::Blitzer,
            r.skills@ == seq![Skill::Block],
            r.ma == 7,
            r.st == 3,
            r.ag == 3,
            r.av == 8,
            r.position is None,
            r.state.up,
            !r.state.used,
            r.state.moves == 0,
            !r.state.stunned,
            !r.state.knocked_out,
            r.state.squares_moved@.len() == 0,
            !r.state.has_blocked,
    {
        let mut skills: Vec<Skill> = Vec::new();
        skills.push(Skill::Block);
        assert(skills@ =~= seq![Skill::Block]);
        Player {
            player_id: fresh_player_id(),
            role: PlayerRole::Blitzer,
            skills,
            ma: 7,
            st: 3,
            ag: 3,
            av: 8,
            position: None,
            state: PlayerState::default(),
        }
    }
}

/// A statistic held to the range `[1, 10]`.
pub open spec fn clamp_stat(v: u8) -> u8 {
    if v < 1 {
        1
    } else if v > 10 {
        10
    } else {
        v
    }
}

fn clamp_stat_exec(v: u8) -> (r: u8)
    ensures
        r == clamp_stat(v),
{
    if v < 1 {
        1
    } else if v > 10 {
        10
    } else {
        v
    }
}

impl Player {
    /// Movement allowance, held to `[1, 10]`.
    pub fn get_ma(&self) -> (r: u8)
        ensures
            r == clamp_stat(self.ma),
    {
        clamp_stat_exec(self.ma)
    }

    /// Strength, held to `[1, 10]`.
    pub fn get_st(&self) -> (r: u8)
        ensures
            r == clamp_stat(self.st),
    {
        clamp_stat_exec(self.st)
    }

    /// Agility, held to `[1, 10]`.
    pub fn get_ag(&self) -> (r: u8)
        ensures
            r == clamp_stat(self.ag),
    {
        clamp_stat_exec(self.ag)
    }

    /// Armour value, held to `[1, 10]`.
    pub fn get_av(&self) -> (r: u8)
        ensures
            r == clamp_stat(self.av),
    {
        clamp_stat_exec(self.av)
    }
}

#[derive(Debug)]
pub struct Team {
    pub bribes: u8,
    pub players: Vec<Player>,
    pub rerolls: u8,
    pub score: u8,
    pub team_id: String,
}

pub struct TeamView {
    pub bribes: u8,
    pub players: Seq<PlayerView>,
    pub rerolls: u8,
    pub score: u8,
    pub team_id: Seq<char>,
}

impl View for Team {
    type V = TeamView;

    open spec fn view(&self) -> TeamView {
        TeamView {
            bribes: self.bribes,
            players: self.players@.map_values(|p: Player| p@),
            rerolls: self.rerolls,
            score: self.score,
            team_id: self.team_id@,
        }
    }
}

impl Clone for Team {
    fn clone(&self) -> (r: Self)
        ensures
            r@ == self@,
    {
        let players = self.players.clone();
        assert(players@.map_values(|p: Player| p@) =~= self.players@.map_values(|p: Player| p@));
        Team {
            bribes: self.bribes,
            players,
            rerolls: self.rerolls,
            score: self.score,
            team_id: self.team_id.clone(),
        }
    }
}

impl Team {
    /// No two players of the team share an identifier.
    pub open spec fn wf(&self) -> bool {
        forall|i: int, j: int|
            0 <= i < j < self@.players.len() ==> (#[trigger] self@.players[i]).player_id
                != (#[trigger] self@.players[j]).player_id
    }

    /// A team without players, one bribe and three rerolls.
    pub fn new(team_id: String) -> (r: Team)
        ensures
            r@.team_id == team_id@,
            r@.players.len() == 0,
            r.wf(),
            r.bribes == 1,
            r.rerolls == 3,
            r.score == 0,
    {
        Team { team_id, bribes: 1, rerolls: 3, players: Vec::new(), score: 0 }
    }

    /// Adds `player`, replacing the player with the same identifier if there is one.
    pub fn insert_player(&mut self, player: Player)
        ensures
            final(self).team_id == old(self).team_id,
            final(self).score == old(self).score,
            final(self).bribes == old(self).bribes,
            final(self).rerolls == old(self).rerolls,
            (exists|i: int|
                0 <= i < old(self)@.players.len() && old(self)@.players[i].player_id
                    == player@.player_id) ==> final(self)@.players.len() == old(self)@.players.len(),
            (forall|i: int|
                0 <= i < old(self)@.players.len() ==> old(self)@.players[i].player_id
                    != player@.player_id) ==> final(self)@.players == old(self)@.players.push(player@),
            exists|i: int|
                0 <= i < final(self)@.players.len() && final(self)@.players[i] == player@,
            old(self).wf() ==> final(self).wf(),
    {
        let mut i: usize = 0;
        while i < self.players.len()
            invariant
                i <= self.players@.len(),
                *self == *old(self),
                forall|j: int|
                    0 <= j < i ==> (#[trigger] self@.players[j]).player_id != player@.player_id,
            decreases self.players@.len() - i,
        {
            if self.players[i].player_id == player.player_id {
                let ghost pv = player@;
                assert(old(self)@.players[i as int].player_id == pv.player_id);
                self.players.set(i, player);
                proof {
                    assert(self@.players =~= old(self)@.players.update(i as int, pv));
                    assert(self@.players[i as int] == pv);
                    if old(self).wf() {
                        assert forall|a: int, b: int|
                            0 <= a < b < self@.players.len() implies (#[trigger] self@.players[a]).player_id
                                != (#[trigger] self@.players[b]).player_id by {
                            assert(self@.players[a].player_id == old(self)@.players[a].player_id);
                            assert(self@.players[b].player_id == old(self)@.players[b].player_id);
                            assert(old(self)@.players[a].player_id != old(self)@.players[b].player_id);
                        }
                    }
                }
                return;
            }
            i = i + 1;
        }
        let ghost pv = player@;
        self.players.push(player);
        assert(self@.players =~= old(self)@.players.push(pv));
        assert(self@.players[old(self)@.players.len() as int] == pv);
        proof {
            if old(self).wf() {
                assert forall|a: int, b: int|
                    0 <= a < b < self@.players.len() implies (#[trigger] self@.players[a]).player_id
                        != (#[trigger] self@.players[b]).player_id by {
                    if b < old(self)@.players.len() {
                        assert(old(self)@.players[a].player_id != old(self)@.players[b].player_id);
                    } else {
                        assert(old(self)@.players[a].player_id != pv.player_id);
                    }
                }
            }
        }
    }
}

#[derive(Debug, PartialEq, Eq, Structural, Clone, Copy)]
pub struct TurnState {
    pub blitz: bool,
    pub quick_snap: bool,
    pub blitz_available: bool,
    pub pass_available: bool,
    pub foul_available: bool,
    pub handoff_available: bool,
}

impl Default for TurnState {
    fn default() -> (r: TurnState)
        ensures
            r == (TurnState {
                blitz: false,
                quick_snap: false,
                blitz_available: true,
                pass_available: true,
                foul_available: true,
                handoff_available: true,
            }),
    {
        TurnState {
            blitz: false,
            quick_snap: false,
            blitz_available: true,
            pass_available: true,
            foul_available: true,
            handoff_available: true,
        }
    }
}

/// One push of a push chain: `attacker` pushes `defender` to `position`.
#[derive(Debug)]
pub struct PushChainItem {
    pub attacker: String,
    pub defender: String,
    pub position: Option<Square>,
}

pub struct PushChainItemView {
    pub attacker: Seq<char>,
    pub defender: Seq<char>,
    pub position: Option<Square>,
}

impl View for PushChainItem {
    type V = PushChainItemView;

    open spec fn view(&self) -> PushChainItemView {
        PushChainItemView {
            attacker: self.attacker@,
            defender: self.defender@,
            position: self.position,
        }
    }
}

impl Clone for PushChainItem {
    fn clone(&self) -> (r: Self)
        ensures
            r == *self,
    {
        PushChainItem {
            attacker: self.attacker.clone(),
            defender: self.defender.clone(),
            position: self.position,
        }
    }
}

impl PushChainItem {
    pub fn new(attacker: String, defender: String, position: Option<Square>) -> (r: PushChainItem)
        ensures
            r == (PushChainItem { attacker, defender, position }),
    {
        PushChainItem { attacker, defender, position }
    }
}

/// The state of a block in progress.
#[derive(Debug)]
pub struct BlockContext {
    pub attacker: String,
    pub defender: String,
    pub position: Square,
    pub knock_out: bool,
    pub push_chain: Vec<PushChainItem>,
}

pub struct BlockContextView {
    pub attacker: Seq<char>,
    pub defender: Seq<char>,
    pub position: Square,
    pub knock_out: bool,
    pub push_chain: Seq<PushChainItemView>,
}

impl View for BlockContext {
    type V = BlockContextView;

    open spec fn view(&self) -> BlockContextView {
        BlockContextView {
            attacker: self.attacker@,
            defender: self.defender@,
            position: self.position,
            knock_out: self.knock_out,
            push_chain: self.push_chain@.map_values(|i: PushChainItem| i@),
        }
    }
}

impl Clone for BlockContext {
    fn clone(&self) -> (r: Self)
        ensures
            r@ == self@,
    {
        let push_chain = self.push_chain.clone();
        assert(push_chain@.map_values(|i: PushChainItem| i@) =~= self.push_chain@.map_values(
            |i: PushChainItem| i@,
        ));
        BlockContext {
            attacker: self.attacker.clone(),
            defender: self.defender.clone(),
            position: self.position,
            knock_out: self.knock_out,
            push_chain,
        }
    }
}

impl BlockContext {
    pub fn new(attacker: String, defender: String, position: Square) -> (r: BlockContext)
        ensures
            r.attacker == attacker,
            r.defender == defender,
            r.position == position,
            !r.knock_out,
            r.push_chain@.len() == 0,
    {
        BlockContext { attacker, defender, position, knock_out: false, push_chain: Vec::new() }
    }
}

} // verus!
