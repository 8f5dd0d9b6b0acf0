use crate::enums::WeatherType;
use crate::game::{ball_position, player_on, spec_ball_carried, tackle_zones, GameState, GameStateView};
use crate::geometry::{spec_distance, Square, ARENA_HEIGHT, ARENA_WIDTH};
use crate::model::{clamp_stat, Path, Player};
use crate::prob::Prob;
use crate::rollout::agility_target;
use vstd::prelude::*;

verus! {

/// Go-for-it rolls a player may take in one action.
pub const MAX_GFI: u8 = 2;

/// Number of squares of the grid.
pub const GRID_SIZE: usize = 476;

/// The index of an on-grid square in row-major order.
pub open spec fn cell(sq: Square) -> int {
    sq.y * ARENA_WIDTH + sq.x
}

/// The square of a grid index.
pub open spec fn cell_square(i: int) -> Square {
    Square { x: (i % ARENA_WIDTH as int) as i32, y: (i / ARENA_WIDTH as int) as i32 }
}

/// Inside the border: the squares a player may move onto.
pub open spec fn inside(sq: Square) -> bool {
    1 <= sq.x < ARENA_WIDTH - 1 && 1 <= sq.y < ARENA_HEIGHT - 1
}

/// A node of the search: a square reached with some movement left.
#[derive(Debug, Clone, Copy)]
pub struct PathNode {
    pub position: Square,
    pub parent: Option<usize>,
    pub moves_left: u8,
    pub gfis_left: u8,
    pub prob: Prob,
    pub picked_up_ball: bool,
}

impl PathNode {
    /// A start node, certain to be reached.
    pub fn new(position: Square, moves_left: u8, gfis_left: u8) -> (r: PathNode)
        ensures
            r.position == position,
            r.parent is None,
            r.moves_left == moves_left,
            r.gfis_left == gfis_left,
            r.prob == (Prob { num: 1, den: 1 }),
            !r.picked_up_ball,
    {
        PathNode {
            position,
            parent: None,
            moves_left,
            gfis_left,
            prob: Prob::one(),
            picked_up_ball: false,
        }
    }

    /// The node reached from `parent`, listed at `parent_index`, by a step onto `position`
    /// that succeeds with `move_prob`: a go-for-it roll is spent when `uses_gfi`, a movement
    /// point otherwise, neither below zero. `None` when the exact probability does not fit.
    pub fn from_parent(
        parent_index: usize,
        parent: &PathNode,
        position: Square,
        move_prob: Prob,
        uses_gfi: bool,
    ) -> (r: Option<PathNode>)
        requires
            parent.prob.wf(),
            move_prob.wf(),
        ensures
            r is Some <==> parent.prob.num * move_prob.num <= u64::MAX && parent.prob.den
                * move_prob.den <= u64::MAX,
            r matches Some(n) ==> {
                &&& n.position == position
                &&& n.parent == Some(parent_index)
                &&& n.moves_left == if uses_gfi || parent.moves_left == 0 {
                    parent.moves_left as int
                } else {
                    parent.moves_left - 1
                }
                &&& n.gfis_left == if !uses_gfi || parent.gfis_left == 0 {
                    parent.gfis_left as int
                } else {
                    parent.gfis_left - 1
                }
                &&& n.prob == parent.prob.spec_mul(move_prob)
                &&& n.picked_up_ball == parent.picked_up_ball
            },
    {
        let prob = match parent.prob.mul(&move_prob) {
            Some(p) => p,
            None => {
                return None;
            },
        };
        let moves_left = if uses_gfi || parent.moves_left == 0 {
            parent.moves_left
        } else {
            parent.moves_left - 1
        };
        let gfis_left = if !uses_gfi || parent.gfis_left == 0 {
            parent.gfis_left
        } else {
            parent.gfis_left - 1
        };
        Some(
            PathNode {
                position,
                parent: Some(parent_index),
                moves_left,
                gfis_left,
                prob,
                picked_up_ball: parent.picked_up_ball,
            },
        )
    }

    /// Movement points and go-for-it rolls left.
    pub fn total_moves_left(&self) -> (r: u16)
        ensures
            r == self.moves_left + self.gfis_left,
    {
        self.moves_left as u16 + self.gfis_left as u16
    }
}

/// What the search knows of the pitch for one moving player.
pub struct Pathfinder {
    pub current_position: Square,
    pub ball_position: Option<Square>,
    pub is_blizzard: bool,
    pub is_quick_snap: bool,
    pub ma: u8,
    pub ag: u8,
    pub moves_used: u8,
    /// Opposing tackle zones on each square, by grid index.
    pub tzones: Vec<u8>,
    /// Whether a player stands on each square, by grid index.
    pub occupied: Vec<bool>,
}

/// The pathfinder is built from `s` for a player on `start`.
pub open spec fn pathfinder_of(pf: Pathfinder, s: GameStateView, p: crate::model::PlayerView) -> bool {
    &&& p.position == Some(pf.current_position)
    &&& pf.ma == clamp_stat(p.ma)
    &&& pf.ag == clamp_stat(p.ag)
    &&& pf.moves_used == p.state.moves
    &&& pf.is_blizzard == (s.weather == WeatherType::Blizzard)
    &&& pf.is_quick_snap == (s.turn_state is Some && s.turn_state.unwrap().quick_snap)
    &&& pf.ball_position == (if spec_ball_carried(s) {
        None
    } else {
        ball_position(s)
    })
    &&& pf.wf()
    &&& forall|i: int|
        0 <= i < GRID_SIZE ==> #[trigger] pf.occupied@[i] == (player_on(s, cell_square(i)) is Some)
    &&& forall|i: int|
        0 <= i < GRID_SIZE ==> #[trigger] pf.tzones@[i] == crate::game::min_int(
            tackle_zones(s, s.current_team_id.unwrap(), cell_square(i)),
            255,
        )
}

impl Pathfinder {
    pub open spec fn wf(&self) -> bool {
        &&& self.tzones@.len() == GRID_SIZE
        &&& self.occupied@.len() == GRID_SIZE
        &&& 1 <= self.ma <= 10
        &&& 1 <= self.ag <= 10
    }

    /// Tackle zones on an inside square.
    pub open spec fn tz(&self, sq: Square) -> int {
        self.tzones@[cell(sq)] as int
    }

    /// The chance in six of the go-for-it roll.
    pub open spec fn gfi_sixths(&self) -> int {
        if self.is_blizzard {
            4
        } else {
            5
        }
    }

    /// The roll needed to dodge onto `to`: the agility target, plus one, plus one per
    /// tackle zone there, held to 2..6.
    pub open spec fn dodge_target(&self, to: Square) -> int {
        let t = agility_target(self.ag as int) + 1 + self.tz(to);
        if t < 2 {
            2
        } else if t > 6 {
            6
        } else {
            t
        }
    }

    /// The chance of the step from `from` to `to`, as a fraction over 1, 6 or 36: a
    /// go-for-it roll when `gfi`, a dodge when `from` is in a tackle zone (not in a quick
    /// snap).
    pub open spec fn step_prob(&self, from: Square, to: Square, gfi: bool) -> Prob {
        let g = if gfi {
            self.gfi_sixths()
        } else {
            1
        };
        let dodge = !self.is_quick_snap && self.tz(from) > 0;
        let d = if dodge {
            7 - self.dodge_target(to)
        } else {
            1
        };
        let den = (if gfi {
            6int
        } else {
            1
        }) * (if dodge {
            6int
        } else {
            1
        });
        Prob { num: (g * d) as u64, den: den as u64 }
    }

    /// A legal step of the search: onto an adjacent free square inside the border, using a
    /// movement point, or a go-for-it roll once they are spent.
    pub open spec fn step_ok(&self, a: PathNode, b: PathNode) -> bool {
        let gfi = a.moves_left == 0;
        &&& spec_distance(a.position, b.position) == 1
        &&& inside(b.position)
        &&& !self.occupied@[cell(b.position)]
        &&& (gfi ==> a.gfis_left > 0 && b.gfis_left == a.gfis_left - 1 && b.moves_left == 0)
        &&& (!gfi ==> b.moves_left == a.moves_left - 1 && b.gfis_left == a.gfis_left)
        &&& b.prob == a.prob.spec_mul(self.step_prob(a.position, b.position, gfi))
        &&& b.picked_up_ball == (a.picked_up_ball || self.ball_position == Some(b.position))
    }

    /// Every node of `nodes` but the start follows from an earlier one by a legal step.
    pub open spec fn sound_arena(&self, nodes: Seq<PathNode>) -> bool {
        &&& nodes.len() > 0
        &&& nodes[0].parent is None
        &&& nodes[0].position == self.current_position
        &&& nodes[0].prob == Prob { num: 1, den: 1 }
        &&& forall|i: int|
            0 < i < nodes.len() ==> {
                let n = #[trigger] nodes[i];
                &&& n.parent is Some
                &&& n.parent.unwrap() < i
                &&& self.step_ok(nodes[n.parent.unwrap() as int], n)
            }
        &&& forall|i: int| 0 <= i < nodes.len() ==> (#[trigger] nodes[i]).prob.wf()
        &&& forall|i: int|
            0 < i < nodes.len() ==> !(#[trigger] nodes[i]).prob.spec_lt(Prob { num: 1, den: 100 })
    }

    /// Builds the search for `player`, who must stand on the pitch.
    pub fn new(game_state: &GameState, player: &Player) -> (r: Result<Pathfinder, String>)
        ensures
            r is Ok <==> player.position is Some && game_state.current_team_id is Some,
            r matches Ok(pf) ==> pathfinder_of(pf, game_state@, player@),
    {
        let current_position = match player.position {
            Some(p) => p,
            None => {
                return Err("Player must have a position for pathfinding".to_string());
            },
        };
        let team_id = match &game_state.current_team_id {
            Some(t) => t,
            None => {
                return Err("No current team id".to_string());
            },
        };
        let ball_position = if game_state.is_ball_carried() {
            None
        } else {
            match game_state.get_ball_position() {
                Ok(b) => Some(b),
                Err(_) => None,
            }
        };
        let is_quick_snap = match game_state.turn_state {
            Some(ts) => ts.quick_snap,
            None => false,
        };
        let mut tzones: Vec<u8> = Vec::new();
        let mut occupied: Vec<bool> = Vec::new();
        let mut i: usize = 0;
        while i < GRID_SIZE
            invariant
                i <= GRID_SIZE,
                tzones@.len() == i,
                occupied@.len() == i,
                forall|j: int|
                    0 <= j < i ==> #[trigger] occupied@[j] == (player_on(game_state@, cell_square(j)) is Some),
                forall|j: int|
                    0 <= j < i ==> #[trigger] tzones@[j] == crate::game::min_int(
                        tackle_zones(game_state@, team_id@, cell_square(j)),
                        255,
                    ),
            decreases GRID_SIZE - i,
        {
            let sq = Square::new((i % 28) as i32, (i / 28) as i32);
            let n = game_state.get_team_tackle_zones_at(team_id, &sq);
            tzones.push(
                if n > 255 {
                    255
                } else {
                    n as u8
                },
            );
            occupied.push(game_state.get_player_at(&sq).is_ok());
            i = i + 1;
        }
        Ok(
            Pathfinder {
                current_position,
                ball_position,
                is_blizzard: game_state.weather == WeatherType::Blizzard,
                is_quick_snap,
                ma: player.get_ma(),
                ag: player.get_ag(),
                moves_used: player.state.moves,
                tzones,
                occupied,
            },
        )
    }
}

/// The node reached from `a` by a step onto `to`; its parent is left unset.
pub open spec fn next_node(pf: Pathfinder, a: PathNode, to: Square) -> PathNode {
    let gfi = a.moves_left == 0;
    PathNode {
        position: to,
        parent: None,
        moves_left: if gfi {
            0
        } else {
            (a.moves_left - 1) as u8
        },
        gfis_left: if gfi {
            (a.gfis_left - 1) as u8
        } else {
            a.gfis_left
        },
        prob: a.prob.spec_mul(pf.step_prob(a.position, to, gfi)),
        picked_up_ball: a.picked_up_ball || pf.ball_position == Some(to),
    }
}

/// A step from `a` onto `to` is allowed: an adjacent free square inside the border, with
/// a movement point or a go-for-it roll left.
pub open spec fn step_allowed(pf: Pathfinder, a: PathNode, to: Square) -> bool {
    &&& spec_distance(a.position, to) == 1
    &&& inside(to)
    &&& !pf.occupied@[cell(to)]
    &&& (a.moves_left == 0 ==> a.gfis_left > 0)
}

/// Walking `squares` from the node `start`: the node reached, or `None` when some step is
/// not allowed.
pub open spec fn walk(pf: Pathfinder, start: PathNode, squares: Seq<Square>) -> Option<PathNode>
    decreases squares.len(),
{
    if squares.len() == 0 {
        Some(start)
    } else {
        match walk(pf, start, squares.drop_last()) {
            Some(a) => if step_allowed(pf, a, squares.last()) {
                Some(next_node(pf, a, squares.last()))
            } else {
                None
            },
            None => None,
        }
    }
}

/// The node without its parent link.
pub open spec fn unlinked(n: PathNode) -> PathNode {
    PathNode { parent: None, ..n }
}

/// The squares of the parent chain that ends at node `i`, the start's left out.
pub open spec fn chain(nodes: Seq<PathNode>, i: int) -> Seq<Square>
    decreases i,
{
    if i <= 0 || i >= nodes.len() {
        Seq::empty()
    } else {
        match nodes[i].parent {
            Some(p) => if p < i {
                chain(nodes, p as int).push(nodes[i].position)
            } else {
                Seq::empty()
            },
            None => Seq::empty(),
        }
    }
}

/// The start node of the search, as `start_node` builds it.
pub open spec fn start_of(pf: Pathfinder) -> PathNode {
    PathNode {
        position: pf.current_position,
        parent: None,
        moves_left: if pf.is_quick_snap {
            1
        } else if pf.moves_used >= pf.ma {
            0
        } else {
            (pf.ma - pf.moves_used) as u8
        },
        gfis_left: if pf.is_quick_snap {
            0
        } else {
            crate::game::min_int(
                MAX_GFI as int,
                if pf.moves_used >= pf.ma + MAX_GFI {
                    0
                } else {
                    pf.ma + MAX_GFI - pf.moves_used
                },
            ) as u8
        },
        prob: Prob { num: 1, den: 1 },
        picked_up_ball: false,
    }
}

/// Along a sound arena, the parent chain of every node walks from the start to that node.
pub proof fn lemma_chain_walks(pf: Pathfinder, nodes: Seq<PathNode>, i: int)
    requires
        pf.sound_arena(nodes),
        unlinked(nodes[0]) == start_of(pf),
        0 <= i < nodes.len(),
    ensures
        walk(pf, start_of(pf), chain(nodes, i)) == Some(unlinked(nodes[i])),
    decreases i,
{
    if i > 0 {
        let p = nodes[i].parent.unwrap() as int;
        lemma_chain_walks(pf, nodes, p);
        assert(chain(nodes, i).drop_last() =~= chain(nodes, p));
        assert(pf.step_ok(nodes[p], nodes[i]));
    }
}

/// Number of search states: a grid square, movement left up to ten, go-for-it rolls left
/// up to two.
pub const STATE_COUNT: usize = 15708;

/// The search state index of a node.
pub open spec fn state_index(n: PathNode) -> int {
    (cell(n.position) * 11 + n.moves_left) * 3 + n.gfis_left
}

/// Movement left of a node stays within the allowance of at most ten, go-for-it rolls within two.
pub open spec fn small(n: PathNode) -> bool {
    n.moves_left <= 10 && n.gfis_left <= 2
}

/// Nodes inside the border with bounded movement have distinct state indices for distinct
/// states, all below `STATE_COUNT`.
proof fn lemma_state_index(a: PathNode, b: PathNode)
    requires
        inside(a.position),
        inside(b.position),
        small(a),
        small(b),
    ensures
        0 <= state_index(a) < STATE_COUNT,
        state_index(a) == state_index(b) ==> a.position == b.position && a.moves_left
            == b.moves_left && a.gfis_left == b.gfis_left,
{
    let (ax, ay, bx, by) = (a.position.x as int, a.position.y as int, b.position.x as int, b.position.y as int);
    assert(0 <= state_index(a) < STATE_COUNT) by (nonlinear_arith)
        requires
            1 <= ax < 27,
            1 <= ay < 16,
            0 <= a.moves_left <= 10,
            0 <= a.gfis_left <= 2,
            state_index(a) == ((ay * 28 + ax) * 11 + a.moves_left) * 3 + a.gfis_left,
            STATE_COUNT == 15708,
    ;
    if state_index(a) == state_index(b) {
        assert(ax == bx && ay == by && a.moves_left == b.moves_left && a.gfis_left == b.gfis_left)
            by (nonlinear_arith)
            requires
                1 <= ax < 27,
                1 <= ay < 16,
                1 <= bx < 27,
                1 <= by < 16,
                0 <= a.moves_left <= 10,
                0 <= a.gfis_left <= 2,
                0 <= b.moves_left <= 10,
                0 <= b.gfis_left <= 2,
                ((ay * 28 + ax) * 11 + a.moves_left) * 3 + a.gfis_left == ((by * 28 + bx) * 11
                    + b.moves_left) * 3 + b.gfis_left,
        ;
    }
}

/// The nodes of a layer have distinct states, so a layer holds at most `STATE_COUNT` nodes.
proof fn lemma_layer_size(nodes: Seq<PathNode>, next: Seq<usize>)
    requires
        forall|j: int| 0 <= j < next.len() ==> 0 <= #[trigger] next[j] < nodes.len(),
        forall|j: int|
            0 <= j < next.len() ==> inside((#[trigger] nodes[next[j] as int]).position) && small(
                nodes[next[j] as int],
            ),
        forall|a: int, b: int|
            0 <= a < b < next.len() ==> state_index(nodes[next[a] as int]) != state_index(
                nodes[next[b] as int],
            ),
    ensures
        next.len() <= STATE_COUNT,
{
    let ks = next.map(|_j: int, x: usize| state_index(nodes[x as int]));
    assert(ks.no_duplicates()) by {
        assert forall|a: int, b: int| 0 <= a < ks.len() && 0 <= b < ks.len() && a != b implies ks[a] != ks[b] by {
            if a < b {
            } else {
            }
        }
    }
    ks.unique_seq_to_set();
    vstd::set_lib::lemma_int_range(0, STATE_COUNT as int);
    assert forall|x: int| ks.to_set().contains(x) implies vstd::set_lib::set_int_range(0, STATE_COUNT as int).contains(x) by {
        let j = choose|j: int| 0 <= j < ks.len() && ks[j] == x;
        lemma_state_index(nodes[next[j] as int], nodes[next[j] as int]);
    }
    vstd::set_lib::lemma_len_subset(ks.to_set(), vstd::set_lib::set_int_range(0, STATE_COUNT as int));
}

/// Path `a` comes no later than path `b`: at least as likely, and when equally likely it
/// spends no more movement, so leaves at least as much.
pub open spec fn ranks_before(a: Path, b: Path) -> bool {
    !a.prob.spec_lt(b.prob) && (a.prob.spec_same(b.prob) ==> a.moves_used + a.gfis_used
        <= b.moves_used + b.gfis_used)
}

/// Each path comes no later than the next one.
pub open spec fn ranked(paths: Seq<Path>) -> bool {
    forall|i: int| 0 <= i < paths.len() - 1 ==> ranks_before(#[trigger] paths[i], paths[i + 1])
}

impl Pathfinder {
    /// The start node: movement left is the allowance less what was spent, go-for-it rolls
    /// left are at most two and no more than the allowance plus two less what was spent; a
    /// quick snap allows one square and no roll.
    pub fn start_node(&self) -> (r: PathNode)
        requires
            self.wf(),
        ensures
            r == start_of(*self),
            r.position == self.current_position,
            r.parent is None,
            r.prob == (Prob { num: 1, den: 1 }),
            !r.picked_up_ball,
            self.is_quick_snap ==> r.moves_left == 1 && r.gfis_left == 0,
            !self.is_quick_snap ==> r.moves_left == (if self.moves_used >= self.ma {
                0
            } else {
                self.ma - self.moves_used
            }) && r.gfis_left == crate::game::min_int(
                MAX_GFI as int,
                if self.moves_used >= self.ma + MAX_GFI {
                    0
                } else {
                    self.ma + MAX_GFI - self.moves_used
                },
            ),
    {
        if self.is_quick_snap {
            return PathNode::new(self.current_position, 1, 0);
        }
        let moves_left = if self.moves_used >= self.ma {
            0
        } else {
            self.ma - self.moves_used
        };
        let total: u8 = self.ma + MAX_GFI;
        let spare = if self.moves_used >= total {
            0
        } else {
            total - self.moves_used
        };
        let gfis_left = if spare < MAX_GFI {
            spare
        } else {
            MAX_GFI
        };
        PathNode::new(self.current_position, moves_left, gfis_left)
    }

    fn tz_at(&self, sq: Square) -> (r: u8)
        requires
            self.wf(),
            inside(sq),
        ensures
            r == self.tz(sq),
    {
        self.tzones[(sq.y * 28 + sq.x) as usize]
    }

    /// The chance of the step from `from` to `to`.
    fn step_probability(&self, from: Square, to: Square, gfi: bool) -> (r: Prob)
        requires
            self.wf(),
            inside(from),
            inside(to),
        ensures
            r == self.step_prob(from, to, gfi),
            r.wf(),
    {
        let g: u64 = if !gfi {
            1
        } else if self.is_blizzard {
            4
        } else {
            5
        };
        let dodge = !self.is_quick_snap && self.tz_at(from) > 0;
        let d: u64 = if dodge {
            let base: u16 = if self.ag <= 1 {
                6
            } else if self.ag >= 6 {
                1
            } else {
                7 - self.ag as u16
            };
            let t: u16 = base + 1 + self.tz_at(to) as u16;
            let t = if t < 2 {
                2
            } else if t > 6 {
                6
            } else {
                t
            };
            (7 - t) as u64
        } else {
            1
        };
        let den: u64 = (if gfi {
            6
        } else {
            1
        }) * (if dodge {
            6
        } else {
            1
        });
        Prob { num: g * d, den }
    }

    /// The node reached by a step from `a` onto `to`, if the step is allowed and its chance
    /// is at least one in a hundred.
    fn step_from(&self, a: &PathNode, a_index: usize, to: Square) -> (r: Option<PathNode>)
        requires
            self.wf(),
            inside(a.position),
            a.prob.wf(),
        ensures
            r matches Some(b) ==> self.step_ok(*a, b) && b.parent == Some(a_index) && b.prob.wf()
                && !b.prob.spec_lt(Prob { num: 1, den: 100 }),
    {
        if !(1 <= to.x && to.x < ARENA_WIDTH - 1 && 1 <= to.y && to.y < ARENA_HEIGHT - 1) {
            return None;
        }
        if a.position.distance(&to) != 1 {
            return None;
        }
        if self.occupied[(to.y * 28 + to.x) as usize] {
            return None;
        }
        let gfi = a.moves_left == 0;
        if gfi && a.gfis_left == 0 {
            return None;
        }
        let step = self.step_probability(a.position, to, gfi);
        let prob = match a.prob.mul(&step) {
            Some(p) => p,
            None => {
                return None;
            },
        };
        if prob.below_one_percent() {
            return None;
        }
        Some(
            PathNode {
                position: to,
                parent: Some(a_index),
                moves_left: if gfi {
                    0
                } else {
                    a.moves_left - 1
                },
                gfis_left: if gfi {
                    a.gfis_left - 1
                } else {
                    a.gfis_left
                },
                prob,
                picked_up_ball: a.picked_up_ball || self.ball_position == Some(to),
            },
        )
    }
}

/// What a search of `pf` returns: ranked paths to distinct free squares inside the border,
/// other than the start, each walked by legal steps from the start with the probability
/// the path states, at least one in a hundred, and together the best the search found.
pub open spec fn paths_found(pf: Pathfinder, r: Seq<Path>) -> bool {
    &&& ranked(r)
    &&& forall|i: int|
        0 <= i < r.len() ==> {
            let p = #[trigger] r[i];
            &&& p.squares@.len() > 0
            &&& p.squares@.last() == p.target
            &&& inside(p.target)
            &&& !pf.occupied@[cell(p.target)]
            &&& p.target != pf.current_position
            &&& p.prob.wf()
            &&& walk(pf, start_of(pf), p.squares@) matches Some(n) && n.prob == p.prob && n.position
                == p.target
            &&& !p.prob.spec_lt(Prob { num: 1, den: 100 })
        }
    &&& forall|i: int, j: int| 0 <= i < j < r.len() ==> (#[trigger] r[i]).target != (#[trigger] r[j]).target
    &&& exists|nodes: Seq<PathNode>|
        pf.sound_arena(nodes) && unlinked(nodes[0]) == start_of(pf) && found_best(pf, nodes, r)
}

/// The paths hold the best the search found: every square that a node of the arena reached,
/// other than the start, is the target of a path, and no node on a path's target beats the
/// node that the path walks to.
pub open spec fn found_best(pf: Pathfinder, nodes: Seq<PathNode>, paths: Seq<Path>) -> bool {
    &&& forall|i: int|
        0 < i < nodes.len() && (#[trigger] nodes[i]).position != pf.current_position ==> exists|k: int|
            0 <= k < paths.len() && (#[trigger] paths[k]).target == nodes[i].position
    &&& forall|k: int, i: int|
        0 <= k < paths.len() && 0 < i < nodes.len() && (#[trigger] nodes[i]).position == (#[trigger] paths[k]).target
            ==> !beats(nodes[i], walk(pf, start_of(pf), paths[k].squares@).unwrap())
}

/// A path of the search to a cell below `c`.
pub open spec fn path_ok(pf: Pathfinder, p: Path, c: int) -> bool {
    &&& p.squares@.len() > 0
    &&& p.squares@.last() == p.target
    &&& inside(p.target)
    &&& !pf.occupied@[cell(p.target)]
    &&& p.target != pf.current_position
    &&& p.prob.wf()
    &&& cell(p.target) < c
    &&& 0 <= cell(p.target)
    &&& walk(pf, start_of(pf), p.squares@) matches Some(n) && n.prob == p.prob && n.position == p.target
}

/// Path `p` walks to the best node of its target's cell, at least one in a hundred likely.
pub open spec fn path_of_best(pf: Pathfinder, nodes: Seq<PathNode>, best: Seq<usize>, p: Path) -> bool {
    best[cell(p.target)] != 0 && walk(pf, start_of(pf), p.squares@) == Some(
        unlinked(nodes[best[cell(p.target)] as int]),
    ) && !p.prob.spec_lt(Prob { num: 1, den: 100 })
}

/// The paths built from the best nodes of the grid cells below `c`, ranked.
pub open spec fn extracting(pf: Pathfinder, nodes: Seq<PathNode>, best: Seq<usize>, paths: Seq<Path>, c: int) -> bool {
    &&& ranked(paths)
    &&& forall|k: int| 0 <= k < paths.len() ==> path_ok(pf, #[trigger] paths[k], c)
    &&& forall|k: int, l: int| 0 <= k < l < paths.len() ==> (#[trigger] paths[k]).target != (#[trigger] paths[l]).target
    &&& forall|k: int| 0 <= k < paths.len() ==> path_of_best(pf, nodes, best, #[trigger] paths[k])
    &&& forall|t: int|
        0 <= t < c && #[trigger] best[t] != 0 ==> exists|k: int|
            0 <= k < paths.len() && (#[trigger] paths[k]).target == nodes[best[t] as int].position
}

/// Every cell's best node: it stands on the cell, and no node on that cell beats it.
pub open spec fn best_cells(pf: Pathfinder, nodes: Seq<PathNode>, best: Seq<usize>) -> bool {
    &&& best.len() == GRID_SIZE
    &&& forall|t: int|
        0 <= t < GRID_SIZE && #[trigger] best[t] != 0 ==> 0 < best[t] < nodes.len() && cell(
            nodes[best[t] as int].position,
        ) == t && nodes[best[t] as int].position != pf.current_position
    &&& forall|j: int|
        0 < j < nodes.len() && (#[trigger] nodes[j]).position != pf.current_position ==> best[cell(
            nodes[j].position,
        )] != 0 && !beats(nodes[j], nodes[best[cell(nodes[j].position)] as int])
}

/// Two squares inside the border with the same grid index are the same square.
proof fn lemma_cell_injective(a: Square, b: Square)
    requires
        inside(a),
        inside(b),
        cell(a) == cell(b),
    ensures
        a == b,
{
    assert(a.x == b.x && a.y == b.y) by (nonlinear_arith)
        requires
            a.y * 28 + a.x == b.y * 28 + b.x,
            1 <= a.x < 27,
            1 <= b.x < 27,
    ;
}

/// Beating is lexicographic on probability then movement left, hence transitive in the
/// form used by the extraction: a node no better than `b` is no better than one that beats `b`.
proof fn lemma_beats_trans(x: PathNode, b: PathNode, c: PathNode)
    requires
        x.prob.wf(),
        b.prob.wf(),
        c.prob.wf(),
        !beats(x, b),
        beats(c, b),
    ensures
        !beats(x, c),
{
    let (xn, xd, bn, bd, cn, cd) = (
        x.prob.num as int,
        x.prob.den as int,
        b.prob.num as int,
        b.prob.den as int,
        c.prob.num as int,
        c.prob.den as int,
    );
    assert(xn * bd <= bn * xd);
    if b.prob.spec_lt(c.prob) {
        assert(xn * cd < cn * xd) by (nonlinear_arith)
            requires
                xn * bd <= bn * xd,
                bn * cd < cn * bd,
                xd > 0,
                bd > 0,
                cd > 0,
        ;
    } else {
        assert(bn * cd == cn * bd);
        if x.prob.spec_same(b.prob) {
            assert(xn * cd == cn * xd) by (nonlinear_arith)
                requires
                    xn * bd == bn * xd,
                    bn * cd == cn * bd,
                    xd > 0,
                    bd > 0,
                    cd > 0,
            ;
        } else {
            assert(xn * cd < cn * xd) by (nonlinear_arith)
                requires
                    xn * bd < bn * xd,
                    bn * cd == cn * bd,
                    xd > 0,
                    bd > 0,
                    cd > 0,
            ;
        }
    }
}

/// Whether node `a` beats node `b` for the same target: a higher chance, or the same chance
/// with more movement left.
pub open spec fn beats(a: PathNode, b: PathNode) -> bool {
    b.prob.spec_lt(a.prob) || (a.prob.spec_same(b.prob) && a.moves_left + a.gfis_left > b.moves_left
        + b.gfis_left)
}

impl Pathfinder {
    /// Adds the steps out of node `idx` to the layer `next`: a new search state is appended,
    /// a state already in the layer keeps the likelier node.
    fn expand_node(&self, nodes: &mut Vec<PathNode>, next: &mut Vec<usize>, idx: usize, round_start: usize)
        requires
            self.wf(),
            self.sound_arena(old(nodes)@),
            idx < round_start <= old(nodes)@.len(),
            inside(old(nodes)@[idx as int].position),
            forall|i: int| round_start <= i < old(nodes)@.len() ==> (#[trigger] old(nodes)@[i]).parent.unwrap() < round_start,
            forall|j: int| 0 <= j < old(next)@.len() ==> round_start <= #[trigger] old(next)@[j] < old(nodes)@.len(),
            forall|i: int| 0 < i < old(nodes)@.len() ==> inside((#[trigger] old(nodes)@[i]).position),
            old(nodes)@.len() + 8 < usize::MAX,
            old(nodes)@.len() == round_start + old(next)@.len(),
            forall|i: int| 0 <= i < old(nodes)@.len() ==> small(#[trigger] old(nodes)@[i]),
            forall|a: int, b: int|
                0 <= a < b < old(next)@.len() ==> state_index(old(nodes)@[old(next)@[a] as int]) != state_index(
                    old(nodes)@[old(next)@[b] as int],
                ),
        ensures
            final(nodes)@.len() == round_start + final(next)@.len(),
            forall|i: int| 0 <= i < final(nodes)@.len() ==> small(#[trigger] final(nodes)@[i]),
            forall|a: int, b: int|
                0 <= a < b < final(next)@.len() ==> state_index(final(nodes)@[final(next)@[a] as int]) != state_index(
                    final(nodes)@[final(next)@[b] as int],
                ),
            self.sound_arena(final(nodes)@),
            final(nodes)@.len() >= old(nodes)@.len(),
            final(nodes)@.len() <= old(nodes)@.len() + 8,
            forall|i: int| 0 <= i < round_start ==> #[trigger] final(nodes)@[i] == old(nodes)@[i],
            forall|i: int| round_start <= i < final(nodes)@.len() ==> (#[trigger] final(nodes)@[i]).parent.unwrap() < round_start,
            forall|j: int| 0 <= j < final(next)@.len() ==> round_start <= #[trigger] final(next)@[j] < final(nodes)@.len(),
            forall|i: int| 0 < i < final(nodes)@.len() ==> inside((#[trigger] final(nodes)@[i]).position),
    {
        let a = nodes[idx];
        proof {
            assert(a.prob.wf());
        }
        let dxs: [i32; 8] = [-1, -1, -1, 0, 0, 1, 1, 1];
        let dys: [i32; 8] = [-1, 0, 1, -1, 1, -1, 0, 1];
        let mut k: usize = 0;
        while k < 8
            invariant
                self.wf(),
                self.sound_arena(nodes@),
                a == old(nodes)@[idx as int],
                inside(a.position),
                a.prob.wf(),
                idx < round_start <= old(nodes)@.len() <= nodes@.len(),
                nodes@.len() <= old(nodes)@.len() + k,
                k <= 8,
                old(nodes)@.len() + 8 < usize::MAX,
                forall|t: int| 0 <= t < 8 ==> -1 <= #[trigger] dxs@[t] <= 1 && -1 <= dys@[t] <= 1,
                forall|i: int| 0 <= i < round_start ==> #[trigger] nodes@[i] == old(nodes)@[i],
                forall|i: int| round_start <= i < nodes@.len() ==> (#[trigger] nodes@[i]).parent.unwrap() < round_start,
                forall|j: int| 0 <= j < next@.len() ==> round_start <= #[trigger] next@[j] < nodes@.len(),
                forall|i: int| 0 < i < nodes@.len() ==> inside((#[trigger] nodes@[i]).position),
                nodes@.len() == round_start + next@.len(),
                forall|i: int| 0 <= i < nodes@.len() ==> small(#[trigger] nodes@[i]),
                forall|a: int, b: int|
                0 <= a < b < next@.len() ==> state_index(nodes@[next@[a] as int]) != state_index(
                    nodes@[next@[b] as int],
                ),
            decreases 8 - k,
        {
            let to = Square::new(a.position.x + dxs[k], a.position.y + dys[k]);
            match self.step_from(&a, idx, to) {
                Some(b) => {
                    let mut j: usize = 0;
                    let mut found: Option<usize> = None;
                    while j < next.len() && found.is_none()
                        invariant
                            j <= next@.len(),
                            found matches Some(slot) ==> round_start <= slot < nodes@.len() && nodes@[slot as int].position
                                == b.position && nodes@[slot as int].moves_left == b.moves_left
                                && nodes@[slot as int].gfis_left == b.gfis_left && exists|t: int| 0 <= t < next@.len() && next@[t] == slot,
                            found is None ==> forall|t: int|
                                0 <= t < j ==> !(nodes@[#[trigger] next@[t] as int].position == b.position
                                    && nodes@[next@[t] as int].moves_left == b.moves_left && nodes@[next@[t] as int].gfis_left
                                    == b.gfis_left),
                            forall|t: int| 0 <= t < next@.len() ==> round_start <= #[trigger] next@[t] < nodes@.len(),
                        decreases next@.len() - j,
                    {
                        let slot = next[j];
                        let c = nodes[slot];
                        if c.position == b.position && c.moves_left == b.moves_left && c.gfis_left
                            == b.gfis_left {
                            found = Some(slot);
                        }
                        j = j + 1;
                    }
                    match found {
                        Some(slot) => {
                            if nodes[slot].prob.lt(&b.prob) {
                                let ghost before = nodes@;
                                nodes.set(slot, b);
                                proof {
                                    assert(state_index(b) == state_index(before[slot as int]));
                                    assert forall|i: int| 0 <= i < nodes@.len() implies small(#[trigger] nodes@[i]) by {
                                        if i != slot {
                                            assert(nodes@[i] == before[i]);
                                        }
                                    }
                                    assert forall|x: int, y: int|
                                        0 <= x < y < next@.len() implies state_index(nodes@[next@[x] as int]) != state_index(
                                            nodes@[next@[y] as int],
                                        ) by {
                                        assert(state_index(nodes@[next@[x] as int]) == state_index(before[next@[x] as int]));
                                        assert(state_index(nodes@[next@[y] as int]) == state_index(before[next@[y] as int]));
                                    }
                                }
                                proof {
                                    assert forall|i: int| 0 < i < nodes@.len() implies {
                                        let n = #[trigger] nodes@[i];
                                        &&& n.parent is Some
                                        &&& n.parent.unwrap() < i
                                        &&& self.step_ok(nodes@[n.parent.unwrap() as int], n)
                                    } by {
                                        if i != slot {
                                            assert(nodes@[i] == before[i]);
                                            let pi = before[i].parent.unwrap() as int;
                                            if i >= round_start {
                                                assert(pi < round_start);
                                            }
                                            assert(pi != slot);
                                            assert(nodes@[pi] == before[pi]);
                                        } else {
                                            assert(nodes@[idx as int] == a);
                                        }
                                    }
                                    assert forall|i: int| 0 <= i < nodes@.len() implies (#[trigger] nodes@[i]).prob.wf() by {
                                        if i != slot {
                                            assert(nodes@[i] == before[i]);
                                        }
                                    }
                                }
                            }
                        },
                        None => {
                            let n = nodes.len();
                            let ghost before = nodes@;
                            let ghost next_before = next@;
                            nodes.push(b);
                            next.push(n);
                            proof {
                                assert(small(b));
                                assert forall|i: int| 0 <= i < nodes@.len() implies small(#[trigger] nodes@[i]) by {
                                    if i < n {
                                        assert(nodes@[i] == before[i]);
                                    }
                                }
                                assert forall|x: int, y: int|
                                    0 <= x < y < next@.len() implies state_index(nodes@[next@[x] as int]) != state_index(
                                        nodes@[next@[y] as int],
                                    ) by {
                                    assert(nodes@[next@[x] as int] == before[next_before[x] as int]);
                                    if y < next_before.len() {
                                        assert(nodes@[next@[y] as int] == before[next_before[y] as int]);
                                    } else {
                                        assert(next@[y] == n);
                                        assert(nodes@[n as int] == b);
                                        let o = before[next_before[x] as int];
                                        assert(!(o.position == b.position && o.moves_left == b.moves_left && o.gfis_left == b.gfis_left));
                                        lemma_state_index(o, b);
                                    }
                                }
                            }
                            proof {
                                assert forall|i: int| 0 < i < nodes@.len() implies {
                                    let nd = #[trigger] nodes@[i];
                                    &&& nd.parent is Some
                                    &&& nd.parent.unwrap() < i
                                    &&& self.step_ok(nodes@[nd.parent.unwrap() as int], nd)
                                } by {
                                    if i < n {
                                        assert(nodes@[i] == before[i]);
                                        assert(nodes@[before[i].parent.unwrap() as int] == before[before[i].parent.unwrap() as int]);
                                    } else {
                                        assert(nodes@[idx as int] == a);
                                    }
                                }
                                assert forall|i: int| 0 <= i < nodes@.len() implies (#[trigger] nodes@[i]).prob.wf() by {
                                    if i < n {
                                        assert(nodes@[i] == before[i]);
                                    }
                                }
                            }
                        },
                    }
                },
                None => {},
            }
            k = k + 1;
        }
    }

    /// For each square that the player can reach, the best path there: the likeliest, and
    /// of those the one leaving the most movement. The paths are ranked by probability,
    /// highest first.
    pub fn find_all_paths(&self) -> (r: Vec<Path>)
        requires
            self.wf(),
        ensures
            ranked(r@),
            forall|i: int|
                0 <= i < r@.len() ==> {
                    let p = #[trigger] r@[i];
                    &&& p.squares@.len() > 0
                    &&& p.squares@.last() == p.target
                    &&& inside(p.target)
                    &&& !self.occupied@[cell(p.target)]
                    &&& p.target != self.current_position
                    &&& p.prob.wf()
                    &&& walk(*self, start_of(*self), p.squares@) matches Some(n) && n.prob == p.prob
                        && n.position == p.target
                    &&& !p.prob.spec_lt(Prob { num: 1, den: 100 })
                },
            forall|i: int, j: int| 0 <= i < j < r@.len() ==> (#[trigger] r@[i]).target != (#[trigger] r@[j]).target,
            exists|nodes: Seq<PathNode>|
                self.sound_arena(nodes) && unlinked(nodes[0]) == start_of(*self) && found_best(
                    *self,
                    nodes,
                    r@,
                ),
            paths_found(*self, r@),
    {
        let start = self.start_node();
        let mut nodes: Vec<PathNode> = Vec::new();
        nodes.push(start);
        if !(1 <= start.position.x && start.position.x < ARENA_WIDTH - 1 && 1 <= start.position.y
            && start.position.y < ARENA_HEIGHT - 1) {
            let r: Vec<Path> = Vec::new();
            proof {
                assert(self.sound_arena(nodes@) && unlinked(nodes@[0]) == start_of(*self) && found_best(*self, nodes@, r@));
            }
            return r;
        }
        let mut frontier: Vec<usize> = Vec::new();
        frontier.push(0);
        let mut layer: u16 = start.total_moves_left();
        proof {
            assert(layer <= 12);
            assert(small(nodes@[0]));
        }
        while frontier.len() > 0 && layer > 0
            invariant
                self.wf(),
                layer <= 12,
                nodes@.len() <= 1 + (12 - layer) * STATE_COUNT,
                forall|i: int| 0 <= i < nodes@.len() ==> small(#[trigger] nodes@[i]),
                self.sound_arena(nodes@),
                inside(nodes@[0].position),
                unlinked(nodes@[0]) == start_of(*self),
                forall|j: int| 0 <= j < frontier@.len() ==> #[trigger] frontier@[j] < nodes@.len(),
                forall|i: int| 0 < i < nodes@.len() ==> inside((#[trigger] nodes@[i]).position),
            decreases layer,
        {
            let round_start = nodes.len();
            let mut next: Vec<usize> = Vec::new();
            let mut j: usize = 0;
            while j < frontier.len()
                invariant
                    self.wf(),
                    self.sound_arena(nodes@),
                    inside(nodes@[0].position),
                    unlinked(nodes@[0]) == start_of(*self),
                    1 <= round_start <= nodes@.len(),
                    1 <= layer <= 12,
                    round_start <= 1 + (12 - layer) * STATE_COUNT,
                    nodes@.len() == round_start + next@.len(),
                    forall|i: int| 0 <= i < nodes@.len() ==> small(#[trigger] nodes@[i]),
                    forall|a: int, b: int|
                        0 <= a < b < next@.len() ==> state_index(nodes@[next@[a] as int]) != state_index(
                            nodes@[next@[b] as int],
                        ),
                    j <= frontier@.len(),
                    forall|t: int| 0 <= t < frontier@.len() ==> #[trigger] frontier@[t] < round_start,
                    forall|i: int| round_start <= i < nodes@.len() ==> (#[trigger] nodes@[i]).parent.unwrap() < round_start,
                    forall|t: int| 0 <= t < next@.len() ==> round_start <= #[trigger] next@[t] < nodes@.len(),
                    forall|i: int| 0 < i < nodes@.len() ==> inside((#[trigger] nodes@[i]).position),
                decreases frontier@.len() - j,
            {
                proof {
                    lemma_layer_size(nodes@, next@);
                    assert(nodes@.len() + 8 < usize::MAX) by (nonlinear_arith)
                        requires
                            nodes@.len() == round_start + next@.len(),
                            next@.len() <= STATE_COUNT,
                            round_start <= 1 + (12 - layer) * STATE_COUNT,
                            1 <= layer <= 12,
                            STATE_COUNT == 15708,
                            usize::MAX >= 4294967295,
                    ;
                }
                let idx = frontier[j];
                self.expand_node(&mut nodes, &mut next, idx, round_start);
                j = j + 1;
            }
            proof {
                lemma_layer_size(nodes@, next@);
                assert(nodes@.len() <= 1 + (12 - (layer - 1)) * STATE_COUNT) by (nonlinear_arith)
                    requires
                        nodes@.len() == round_start + next@.len(),
                        next@.len() <= STATE_COUNT,
                        round_start <= 1 + (12 - layer) * STATE_COUNT,
                ;
            }
            frontier = next;
            layer = layer - 1;
        }
        let r = self.extract_paths(&nodes);
        proof {
            assert(self.sound_arena(nodes@) && unlinked(nodes@[0]) == start_of(*self) && found_best(*self, nodes@, r@));
        }
        r
    }
}

impl Pathfinder {
    /// The squares of the path that ends at node `i`, found by following the parents back
    /// to the start.
    fn path_squares(&self, nodes: &Vec<PathNode>, i: usize) -> (r: Vec<Square>)
        requires
            self.sound_arena(nodes@),
            0 < i < nodes@.len(),
        ensures
            r@ == chain(nodes@, i as int),
            r@.len() > 0,
            r@.last() == nodes@[i as int].position,
    {
        let mut out: Vec<Square> = Vec::new();
        let mut cur: usize = i;
        while cur > 0
            invariant
                self.sound_arena(nodes@),
                cur < nodes@.len(),
                0 < i < nodes@.len(),
                cur <= i,
                chain(nodes@, i as int) == chain(nodes@, cur as int) + out@,
                cur < i ==> out@.len() > 0 && out@.last() == nodes@[i as int].position,
                cur == i ==> out@.len() == 0,
            decreases cur,
        {
            let ghost before = out@;
            let pos = nodes[cur].position;
            let p = nodes[cur].parent.unwrap();
            out.insert(0, pos);
            proof {
                assert(chain(nodes@, cur as int) == chain(nodes@, p as int).push(pos));
                assert(out@ =~= seq![pos] + before);
                assert(chain(nodes@, i as int) =~= chain(nodes@, p as int) + out@);
                if cur == i {
                    assert(out@.last() == pos);
                } else {
                    assert(out@.last() == before.last());
                }
            }
            cur = p;
        }
        proof {
            assert(chain(nodes@, i as int) =~= out@);
        }
        out
    }

    /// The best path to `target`, if it can be reached.
    pub fn find_path_to(&self, target: Square) -> (r: Option<Path>)
        requires
            self.wf(),
        ensures
            r matches Some(p) ==> p.target == target && p.squares@.len() > 0 && inside(target),
            exists|nodes: Seq<PathNode>, paths: Seq<Path>|
                self.sound_arena(nodes) && unlinked(nodes[0]) == start_of(*self) && found_best(
                    *self,
                    nodes,
                    paths,
                ) && (r is Some <==> exists|k: int| 0 <= k < paths.len() && (#[trigger] paths[k]).target == target)
                    && (r matches Some(p) ==> exists|k: int| 0 <= k < paths.len() && p@ == (#[trigger] paths[k])@),
    {
        let paths = self.find_all_paths();
        let ghost nodes = choose|nodes: Seq<PathNode>|
            self.sound_arena(nodes) && unlinked(nodes[0]) == start_of(*self) && found_best(*self, nodes, paths@);
        proof {
            assert(self.sound_arena(nodes) && unlinked(nodes[0]) == start_of(*self) && found_best(*self, nodes, paths@));
        }
        let mut i: usize = 0;
        while i < paths.len()
            invariant
                i <= paths@.len(),
                forall|k: int| 0 <= k < i ==> (#[trigger] paths@[k]).target != target,
                self.sound_arena(nodes) && unlinked(nodes[0]) == start_of(*self) && found_best(*self, nodes, paths@),
                forall|k: int|
                    0 <= k < paths@.len() ==> (#[trigger] paths@[k]).squares@.len() > 0 && inside(
                        paths@[k].target,
                    ),
            decreases paths@.len() - i,
        {
            if paths[i].target == target {
                let p = paths[i].clone();
                proof {
                    assert(p@ == paths@[i as int]@);
                    assert(self.sound_arena(nodes) && unlinked(nodes[0]) == start_of(*self) && found_best(*self, nodes, paths@));
                }
                return Some(p);
            }
            i = i + 1;
        }
        proof {
            assert(self.sound_arena(nodes) && unlinked(nodes[0]) == start_of(*self) && found_best(*self, nodes, paths@));
        }
        None
    }

    /// The path that ends at node `i`.
    fn make_path(&self, nodes: &Vec<PathNode>, i: usize) -> (r: Path)
        requires
            self.wf(),
            self.sound_arena(nodes@),
            0 < i < nodes@.len(),
        ensures
            r.squares@.len() > 0,
            r.squares@.last() == r.target,
            r.target == nodes@[i as int].position,
            r.prob == nodes@[i as int].prob,
            r.prob.wf(),
            inside(r.target),
            !self.occupied@[cell(r.target)],
            unlinked(nodes@[0]) == start_of(*self) ==> walk(*self, start_of(*self), r.squares@)
                == Some(unlinked(nodes@[i as int])),
    {
        proof {
            if unlinked(nodes@[0]) == start_of(*self) {
                lemma_chain_walks(*self, nodes@, i as int);
            }
        }
        let n = nodes[i];
        let squares = self.path_squares(nodes, i);
        let moves_used = if n.moves_left <= self.ma {
            self.ma - n.moves_left
        } else {
            0
        };
        let gfis_used = if n.gfis_left <= MAX_GFI {
            MAX_GFI - n.gfis_left
        } else {
            0
        };
        Path {
            squares,
            target: n.position,
            prob: n.prob,
            moves_used,
            gfis_used,
            picks_up_ball: n.picked_up_ball,
        }
    }

    /// The best node for each reachable square, turned into paths and ranked.
    /// Adds the path to the best node of cell `c`, if the search reached it.
    #[verifier::rlimit(100)]
    #[verifier::spinoff_prover]
    fn add_cell_path(&self, nodes: &Vec<PathNode>, best: &Vec<usize>, paths: &mut Vec<Path>, c: usize, path: Option<Path>)
        requires
            c < GRID_SIZE,
            best@.len() == GRID_SIZE,
            extracting(*self, nodes@, best@, old(paths)@, c as int),
            best@[c as int] == 0 <==> path is None,
            path matches Some(p) ==> path_ok(*self, p, c + 1) && path_of_best(*self, nodes@, best@, p)
                && cell(p.target) == c && p.target == nodes@[best@[c as int] as int].position,
        ensures
            extracting(*self, nodes@, best@, final(paths)@, c + 1),
    {
        let ghost before = paths@;
        proof {
            assert forall|k: int| 0 <= k < before.len() implies path_ok(*self, #[trigger] before[k], c + 1) by {
                assert(path_ok(*self, before[k], c as int));
            }
        }
        if let Some(path) = path {
            proof {
                assert forall|x: int| 0 <= x < before.len() implies (#[trigger] before[x]).target != path.target by {
                    assert(path_ok(*self, before[x], c as int));
                }
            }
            let k = insert_ranked(paths, path);
            proof {
                let ps = paths@;
                assert forall|x: int| 0 <= x < ps.len() implies path_ok(*self, #[trigger] ps[x], c + 1)
                    && path_of_best(*self, nodes@, best@, ps[x]) by {
                    if x < k {
                        assert(ps[x] == before[x]);
                    } else if x > k {
                        assert(ps[x] == before[x - 1]);
                    }
                }
                assert forall|x: int, y: int| 0 <= x < y < ps.len() implies (#[trigger] ps[x]).target
                    != (#[trigger] ps[y]).target by {
                    if x < k && y < k {
                        assert(ps[x] == before[x] && ps[y] == before[y]);
                    } else if x < k && y == k {
                        assert(ps[x] == before[x]);
                    } else if x < k && y > k {
                        assert(ps[x] == before[x] && ps[y] == before[y - 1]);
                    } else if x == k {
                        assert(ps[y] == before[y - 1]);
                    } else {
                        assert(ps[x] == before[x - 1] && ps[y] == before[y - 1]);
                    }
                }
                assert forall|t: int|
                    0 <= t < c + 1 && #[trigger] best@[t] != 0 implies exists|k2: int|
                        0 <= k2 < ps.len() && (#[trigger] ps[k2]).target == nodes@[best@[t] as int].position by {
                    if t == c {
                        assert(ps[k as int].target == nodes@[best@[t] as int].position);
                    } else {
                        let k1 = choose|k1: int| 0 <= k1 < before.len() && (#[trigger] before[k1]).target == nodes@[best@[t] as int].position;
                        if k1 < k {
                            assert(ps[k1] == before[k1]);
                        } else {
                            assert(ps[k1 + 1] == before[k1]);
                        }
                    }
                }
            }
        }
    }


    #[verifier::rlimit(100)]
    #[verifier::spinoff_prover]
    fn extract_paths(&self, nodes: &Vec<PathNode>) -> (r: Vec<Path>)
        requires
            self.wf(),
            self.sound_arena(nodes@),
            unlinked(nodes@[0]) == start_of(*self),
        ensures
            ranked(r@),
            forall|i: int|
                0 <= i < r@.len() ==> {
                    let p = #[trigger] r@[i];
                    &&& p.squares@.len() > 0
                    &&& p.squares@.last() == p.target
                    &&& inside(p.target)
                    &&& !self.occupied@[cell(p.target)]
                    &&& p.target != self.current_position
                    &&& p.prob.wf()
                    &&& walk(*self, start_of(*self), p.squares@) matches Some(n) && n.prob == p.prob
                        && n.position == p.target
                    &&& !p.prob.spec_lt(Prob { num: 1, den: 100 })
                },
            forall|i: int, j: int| 0 <= i < j < r@.len() ==> (#[trigger] r@[i]).target != (#[trigger] r@[j]).target,
            found_best(*self, nodes@, r@),
    {
        let mut best: Vec<usize> = Vec::new();
        let mut c: usize = 0;
        while c < GRID_SIZE
            invariant
                c <= GRID_SIZE,
                best@.len() == c,
                forall|t: int| 0 <= t < c ==> #[trigger] best@[t] == 0,
            decreases GRID_SIZE - c,
        {
            best.push(0);
            c = c + 1;
        }
        let mut i: usize = 1;
        while i < nodes.len()
            invariant
                self.wf(),
                self.sound_arena(nodes@),
                unlinked(nodes@[0]) == start_of(*self),
                1 <= i <= nodes@.len(),
                best@.len() == GRID_SIZE,
                forall|t: int|
                    0 <= t < GRID_SIZE && #[trigger] best@[t] != 0 ==> 0 < best@[t] < nodes@.len()
                        && cell(nodes@[best@[t] as int].position) == t && nodes@[best@[t] as int].position
                        != self.current_position,
                forall|j: int|
                    0 < j < i && (#[trigger] nodes@[j]).position != self.current_position ==> best@[cell(
                        nodes@[j].position,
                    )] != 0 && !beats(nodes@[j], nodes@[best@[cell(nodes@[j].position)] as int]),
            decreases nodes@.len() - i,
        {
            let n = nodes[i];
            if n.position != self.current_position {
                let cidx = (n.position.y * 28 + n.position.x) as usize;
                let b = best[cidx];
                let better = if b == 0 {
                    true
                } else {
                    let o = nodes[b];
                    o.prob.lt(&n.prob) || (o.prob.same(&n.prob) && n.total_moves_left()
                        > o.total_moves_left())
                };
                let ghost old_best = best@;
                proof {
                    assert(inside(n.position));
                    assert(cidx == cell(n.position));
                    if b != 0 {
                        assert(better == beats(n, nodes@[b as int]));
                    }
                }
                if better {
                    best.set(cidx, i);
                    proof {
                        assert forall|j: int|
                            0 < j < i + 1 && (#[trigger] nodes@[j]).position != self.current_position implies best@[cell(
                                nodes@[j].position,
                            )] != 0 && !beats(nodes@[j], nodes@[best@[cell(nodes@[j].position)] as int]) by {
                            if j < i && cell(nodes@[j].position) == cidx {
                                lemma_beats_trans(nodes@[j], nodes@[old_best[cidx as int] as int], n);
                            }
                        }
                    }
                }
            }
            i = i + 1;
        }
        let mut paths: Vec<Path> = Vec::new();
        let mut c: usize = 0;
        proof {
            assert(best_cells(*self, nodes@, best@));
            assert(extracting(*self, nodes@, best@, paths@, 0));
        }
        while c < GRID_SIZE
            invariant
                self.wf(),
                self.sound_arena(nodes@),
                unlinked(nodes@[0]) == start_of(*self),
                c <= GRID_SIZE,
                best_cells(*self, nodes@, best@),
                extracting(*self, nodes@, best@, paths@, c as int),
            decreases GRID_SIZE - c,
        {
            let b = best[c];
            let path = if b != 0 {
                let p = self.make_path(nodes, b);
                proof {
                    assert(cell(p.target) == c);
                }
                Some(p)
            } else {
                None
            };
            self.add_cell_path(nodes, &best, &mut paths, c, path);
            c = c + 1;
        }
        proof {
            assert forall|i: int|
                0 < i < nodes@.len() && (#[trigger] nodes@[i]).position != self.current_position implies exists|k: int|
                    0 <= k < paths@.len() && (#[trigger] paths@[k]).target == nodes@[i].position by {
                let t = cell(nodes@[i].position);
                let b = best@[t] as int;
                lemma_cell_injective(nodes@[i].position, nodes@[b].position);
            }
            assert forall|k: int, i: int|
                0 <= k < paths@.len() && 0 < i < nodes@.len() && (#[trigger] nodes@[i]).position == (#[trigger] paths@[k]).target
                    implies !beats(nodes@[i], walk(*self, start_of(*self), paths@[k].squares@).unwrap()) by {
                let b = best@[cell(paths@[k].target)] as int;
                assert(nodes@[i].position != self.current_position);
            }
        }
        paths
    }
}

/// Inserts `p` after every path at least as likely, keeping the ranking; returns where.
fn insert_ranked(paths: &mut Vec<Path>, p: Path) -> (k: usize)
    requires
        ranked(old(paths)@),
    ensures
        ranked(final(paths)@),
        k <= old(paths)@.len(),
        final(paths)@ == old(paths)@.insert(k as int, p),
{
    let mut k: usize = 0;
    while k < paths.len() && ranks_before_exec(&paths[k], &p)
        invariant
            k <= paths@.len(),
            paths@ == old(paths)@,
            forall|t: int| 0 <= t < k ==> ranks_before(#[trigger] paths@[t], p),
        decreases paths@.len() - k,
    {
        k = k + 1;
    }
    let ghost before = paths@;
    proof {
        if k < before.len() {
            assert(!ranks_before(before[k as int], p));
            assert(ranks_before(p, before[k as int]));
        }
    }
    paths.insert(k, p);
    proof {
        assert(paths@ =~= before.insert(k as int, p));
        assert forall|i: int| 0 <= i < paths@.len() - 1 implies ranks_before(#[trigger] paths@[i], paths@[i + 1]) by {
            if i + 1 < k {
                assert(paths@[i] == before[i] && paths@[i + 1] == before[i + 1]);
            } else if i + 1 == k {
                assert(paths@[i] == before[i]);
            } else if i == k {
                assert(paths@[i + 1] == before[i]);
            } else {
                assert(paths@[i] == before[i - 1] && paths@[i + 1] == before[i]);
            }
        }
    }
    k
}

/// Whether `a` comes no later than `b`.
fn ranks_before_exec(a: &Path, b: &Path) -> (r: bool)
    ensures
        r == ranks_before(*a, *b),
{
    !a.prob.lt(&b.prob) && (!a.prob.same(&b.prob) || a.total_cost() <= b.total_cost())
}

} // verus!
