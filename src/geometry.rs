use vstd::prelude::*;

verus! {

/// Width of the pitch, border columns included.
pub const ARENA_WIDTH: i32 = 28;

/// Height of the pitch, border rows included.
pub const ARENA_HEIGHT: i32 = 17;

/// A square of the pitch.
#[derive(Debug, PartialEq, Eq, Structural, Clone, Copy, Hash)]
pub struct Square {
    pub x: i32,
    pub y: i32,
}

pub open spec fn abs(v: int) -> int {
    if v < 0 {
        -v
    } else {
        v
    }
}

pub open spec fn max(a: int, b: int) -> int {
    if a >= b {
        a
    } else {
        b
    }
}

/// Chebyshev distance.
pub open spec fn spec_distance(a: Square, b: Square) -> int {
    max(abs(a.x - b.x), abs(a.y - b.y))
}

/// Manhattan distance.
pub open spec fn spec_manhattan(a: Square, b: Square) -> int {
    abs(a.x - b.x) + abs(a.y - b.y)
}

/// On or outside the border columns and rows.
pub open spec fn spec_out_of_bounds(s: Square) -> bool {
    s.x <= 0 || s.x >= ARENA_WIDTH - 1 || s.y <= 0 || s.y >= ARENA_HEIGHT - 1
}

/// Inside the grid, border included.
pub open spec fn on_grid(s: Square) -> bool {
    0 <= s.x < ARENA_WIDTH && 0 <= s.y < ARENA_HEIGHT
}

/// The eight neighbour offsets, in the order in which neighbours are listed.
pub open spec fn offset(k: int) -> (int, int) {
    if k == 0 {
        (-1, -1)
    } else if k == 1 {
        (-1, 0)
    } else if k == 2 {
        (-1, 1)
    } else if k == 3 {
        (0, -1)
    } else if k == 4 {
        (0, 1)
    } else if k == 5 {
        (1, -1)
    } else if k == 6 {
        (1, 0)
    } else {
        (1, 1)
    }
}

pub open spec fn neighbour(p: Square, k: int) -> Square {
    Square { x: (p.x + offset(k).0) as i32, y: (p.y + offset(k).1) as i32 }
}

pub open spec fn keep_neighbour(p: Square, k: int, include_out_of_bounds: bool) -> bool {
    let (nx, ny) = (p.x + offset(k).0, p.y + offset(k).1);
    &&& 0 <= nx < ARENA_WIDTH
    &&& 0 <= ny < ARENA_HEIGHT
    &&& (include_out_of_bounds || !spec_out_of_bounds(neighbour(p, k)))
}

/// The first `n` candidate neighbours of `p` that are kept, in offset order.
pub open spec fn adjacent_prefix(p: Square, include_out_of_bounds: bool, n: int) -> Seq<Square>
    decreases n,
{
    if n <= 0 {
        Seq::empty()
    } else {
        let prev = adjacent_prefix(p, include_out_of_bounds, n - 1);
        if keep_neighbour(p, n - 1, include_out_of_bounds) {
            prev.push(neighbour(p, n - 1))
        } else {
            prev
        }
    }
}

/// The neighbours of `p` on the grid, and off the border unless asked for.
pub open spec fn spec_adjacent_squares(p: Square, include_out_of_bounds: bool) -> Seq<Square> {
    adjacent_prefix(p, include_out_of_bounds, 8)
}

/// Distance category of a pass, indexed by the absolute differences of the coordinates.
pub open spec fn pass_category(dx: int, dy: int) -> int
    recommends
        0 <= dx < 14,
        0 <= dy < 14,
{
    PASS_MATRIX@[dx]@[dy] as int
}

/// Pass distance categories: 0 is a hand-off range, 1 quick, 2 short, 3 long, 4 long bomb,
/// 5 hail mary.
pub const PASS_MATRIX: [[u8; 14]; 14] = [
    [0, 1, 1, 1, 2, 2, 2, 3, 3, 3, 3, 4, 4, 4],
    [1, 1, 1, 1, 2, 2, 2, 3, 3, 3, 3, 4, 4, 4],
    [1, 1, 1, 2, 2, 2, 2, 3, 3, 3, 3, 4, 4, 5],
    [1, 1, 2, 2, 2, 2, 2, 3, 3, 3, 4, 4, 4, 5],
    [2, 2, 2, 2, 2, 2, 3, 3, 3, 3, 4, 4, 4, 5],
    [2, 2, 2, 2, 2, 3, 3, 3, 3, 4, 4, 4, 5, 5],
    [2, 2, 2, 2, 3, 3, 3, 3, 3, 4, 4, 4, 5, 5],
    [3, 3, 3, 3, 3, 3, 3, 3, 4, 4, 4, 5, 5, 5],
    [3, 3, 3, 3, 3, 3, 3, 4, 4, 4, 4, 5, 5, 5],
    [3, 3, 3, 3, 3, 4, 4, 4, 4, 4, 5, 5, 5, 5],
    [3, 3, 3, 4, 4, 4, 4, 4, 4, 5, 5, 5, 5, 5],
    [4, 4, 4, 4, 4, 4, 4, 5, 5, 5, 5, 5, 5, 5],
    [4, 4, 4, 4, 4, 5, 5, 5, 5, 5, 5, 5, 5, 5],
    [4, 4, 5, 5, 5, 5, 5, 5, 5, 5, 5, 5, 5, 5],
];

fn abs_diff(a: i32, b: i32) -> (r: u32)
    ensures
        r == abs(a - b),
{
    let d: i64 = a as i64 - b as i64;
    if d < 0 {
        (-d) as u32
    } else {
        d as u32
    }
}

impl Square {
    pub fn new(x: i32, y: i32) -> (r: Square)
        ensures
            r == (Square { x, y }),
    {
        Square { x, y }
    }

    /// Chebyshev distance: the larger of the two coordinate differences.
    pub fn distance(&self, other: &Square) -> (r: u32)
        ensures
            r == spec_distance(*self, *other),
    {
        let dx = abs_diff(self.x, other.x);
        let dy = abs_diff(self.y, other.y);
        if dx >= dy {
            dx
        } else {
            dy
        }
    }

    /// Manhattan distance: the sum of the two coordinate differences.
    pub fn manhattan_distance(&self, other: &Square) -> (r: u64)
        ensures
            r == spec_manhattan(*self, *other),
    {
        abs_diff(self.x, other.x) as u64 + abs_diff(self.y, other.y) as u64
    }

    /// True when the squares are at distance one.
    pub fn is_adjacent(&self, other: &Square) -> (r: bool)
        ensures
            r == (spec_distance(*self, *other) == 1),
    {
        self.distance(other) == 1
    }

    /// True on or outside the border columns and rows.
    pub fn is_out_of_bounds(&self) -> (r: bool)
        ensures
            r == spec_out_of_bounds(*self),
    {
        self.x <= 0 || self.x >= ARENA_WIDTH - 1 || self.y <= 0 || self.y >= ARENA_HEIGHT - 1
    }

    /// The neighbours of this square that lie on the grid; border squares only when
    /// `include_out_of_bounds` is set.
    pub fn get_adjacent_squares(&self, include_out_of_bounds: bool) -> (r: Vec<Square>)
        ensures
            r@ == spec_adjacent_squares(*self, include_out_of_bounds),
    {
        let dxs: [i32; 8] = [-1, -1, -1, 0, 0, 1, 1, 1];
        let dys: [i32; 8] = [-1, 0, 1, -1, 1, -1, 0, 1];
        let mut out: Vec<Square> = Vec::new();
        let mut k: usize = 0;
        while k < 8
            invariant
                0 <= k <= 8,
                out@ == adjacent_prefix(*self, include_out_of_bounds, k as int),
                forall|j: int| 0 <= j < 8 ==> dxs@[j] == offset(j).0 && dys@[j] == offset(j).1,
            decreases 8 - k,
        {
            let nx: i64 = self.x as i64 + dxs[k] as i64;
            let ny: i64 = self.y as i64 + dys[k] as i64;
            if 0 <= nx && nx < ARENA_WIDTH as i64 && 0 <= ny && ny < ARENA_HEIGHT as i64 {
                let s = Square::new(nx as i32, ny as i32);
                if include_out_of_bounds || !s.is_out_of_bounds() {
                    out.push(s);
                }
            }
            k = k + 1;
        }
        out
    }

    /// The Bresenham rasterisation of the segment from this square to `to`, both ends
    /// included, ordered from this square to `to`.
    pub fn create_pass_path(&self, to: &Square) -> (r: Vec<Square>)
        requires
            within_reach(*self),
            within_reach(*to),
        ensures
            r@ == pass_line(*self, *to),
            r@.len() == spec_distance(*self, *to) + 1,
            r@[0] == *self,
            r@.last() == *to,
            forall|i: int|
                0 <= i < r@.len() - 1 ==> spec_distance(#[trigger] r@[i], r@[i + 1]) == 1,
    {
        let steep = abs_diff(to.y, self.y) > abs_diff(to.x, self.x);
        // `a` runs along the major axis, `b` across it.
        let (a1, b1, a2, b2) = if steep {
            (self.y, self.x, to.y, to.x)
        } else {
            (self.x, self.y, to.x, to.y)
        };
        let forward = a1 <= a2;
        let (sa, sb, ea, eb) = if forward {
            (a1, b1, a2, b2)
        } else {
            (a2, b2, a1, b1)
        };
        let line = rasterise(steep, sa, sb, ea, eb);
        if forward {
            proof {
                assert(line@ =~= pass_line(*self, *to));
            }
            line
        } else {
            let mut rev: Vec<Square> = Vec::new();
            let mut i: usize = line.len();
            while i > 0
                invariant
                    i <= line@.len(),
                    rev@.len() == line@.len() - i,
                    forall|j: int| 0 <= j < rev@.len() ==> rev@[j] == line@[line@.len() - 1 - j],
                decreases i,
            {
                i = i - 1;
                rev.push(line[i]);
            }
            proof {
                assert(rev@ =~= pass_line(*self, *to));
                assert forall|j: int| 0 <= j < rev@.len() - 1 implies spec_distance(
                    #[trigger] rev@[j],
                    rev@[j + 1],
                ) == 1 by {
                    let k = line@.len() - 2 - j;
                    assert(spec_distance(line@[k], line@[k + 1]) == 1);
                }
            }
            rev
        }
    }
}

/// `from` moved `c` units in the direction of `step`.
pub open spec fn moved(from: int, step: int, c: int) -> int {
    if step == 1 {
        from + c
    } else {
        from - c
    }
}

/// The largest coordinate magnitude a pass line is drawn for; it keeps the arithmetic of
/// the walk within 32 bits.
pub const COORD_LIMIT: i32 = 1000000;

/// Both coordinates of `s` lie within `COORD_LIMIT` of zero.
pub open spec fn within_reach(s: Square) -> bool {
    -COORD_LIMIT <= s.x <= COORD_LIMIT && -COORD_LIMIT <= s.y <= COORD_LIMIT
}

/// The square at major coordinate `a` and minor coordinate `b`.
pub open spec fn oriented(steep: bool, a: int, b: int) -> Square {
    if steep {
        Square { x: b as i32, y: a as i32 }
    } else {
        Square { x: a as i32, y: b as i32 }
    }
}

/// The `i`-th square of Bresenham's walk from `(sa, sb)` to `(ea, eb)` along the major
/// axis: the minor coordinate has moved once for every `da` units that `i * db` passes
/// `da / 2`.
pub open spec fn bres_point(steep: bool, sa: int, sb: int, ea: int, eb: int, i: int) -> Square {
    let da = ea - sa;
    let db = abs(eb - sb);
    let step: int = if sb < eb {
        1
    } else {
        -1
    };
    let c = if da == 0 {
        0
    } else {
        (i * db + da - da / 2 - 1) / da
    };
    oriented(steep, sa + i, moved(sb, step, c))
}

/// The Bresenham rasterisation of the segment from `f` to `t`, ordered from `f`.
pub open spec fn pass_line(f: Square, t: Square) -> Seq<Square> {
    let steep = abs(t.y - f.y) > abs(t.x - f.x);
    let (a1, b1, a2, b2) = if steep {
        (f.y as int, f.x as int, t.y as int, t.x as int)
    } else {
        (f.x as int, f.y as int, t.x as int, t.y as int)
    };
    let forward = a1 <= a2;
    let (sa, sb, ea, eb) = if forward {
        (a1, b1, a2, b2)
    } else {
        (a2, b2, a1, b1)
    };
    let n = ea - sa + 1;
    Seq::new(
        n as nat,
        |j: int|
            if forward {
                bres_point(steep, sa, sb, ea, eb, j)
            } else {
                bres_point(steep, sa, sb, ea, eb, n - 1 - j)
            },
    )
}

/// Bresenham's walk from `(sa, sb)` to `(ea, eb)` along the major axis.
#[verifier::rlimit(100)]
#[verifier::spinoff_prover]
fn rasterise(steep: bool, sa: i32, sb: i32, ea: i32, eb: i32) -> (line: Vec<Square>)
    requires
        -COORD_LIMIT <= sa <= ea <= COORD_LIMIT,
        -COORD_LIMIT <= sb <= COORD_LIMIT,
        -COORD_LIMIT <= eb <= COORD_LIMIT,
        abs(eb - sb) <= ea - sa,
    ensures
        line@.len() == ea - sa + 1,
        line@[0] == oriented(steep, sa as int, sb as int),
        line@.last() == oriented(steep, ea as int, eb as int),
        forall|i: int|
            0 <= i < line@.len() - 1 ==> spec_distance(#[trigger] line@[i], line@[i + 1]) == 1,
        forall|i: int|
            0 <= i < line@.len() ==> #[trigger] line@[i] == bres_point(
                steep,
                sa as int,
                sb as int,
                ea as int,
                eb as int,
                i,
            ),
{
    let da: i32 = ea - sa;
    let db: i32 = if eb >= sb {
        eb - sb
    } else {
        sb - eb
    };
    let bstep: i32 = if sb < eb {
        1
    } else {
        -1
    };
    let mut error: i32 = da / 2;
    let mut b: i32 = sb;
    let mut a: i32 = sa;
    let mut line: Vec<Square> = Vec::new();
    let ghost mut c: int = 0;
    let ghost mut clast: int = 0;
    let ghost mut elast: int = 0;
    while a <= ea
        invariant
            0 <= da <= 2 * COORD_LIMIT,
            0 <= db <= da,
            db == abs(eb - sb),
            sa + da == ea,
            a == sa + line@.len(),
            sa <= a <= ea + 1,
            0 <= c <= line@.len(),
            b == moved(sb as int, bstep as int, c),
            bstep == 1 || bstep == -1,
            eb == moved(sb as int, bstep as int, db as int),
            ea <= COORD_LIMIT,
            -COORD_LIMIT <= sa,
            error == da / 2 - (a - sa) * db + c * da,
            0 <= error,
            da > 0 ==> error < da,
            da == 0 ==> error == 0 && c == 0,
            line@.len() > 0 ==> {
                &&& line@.last() == oriented(steep, a - 1, moved(sb as int, bstep as int, clast))
                &&& elast == da / 2 - (a - 1 - sa) * db + clast * da
                &&& 0 <= elast
                &&& (da > 0 ==> elast < da)
                &&& (da == 0 ==> clast == 0)
                &&& (c == clast || c == clast + 1)
            },
            line@.len() > 0 ==> line@[0] == oriented(steep, sa as int, sb as int),
            forall|i: int|
                0 <= i < line@.len() - 1 ==> spec_distance(#[trigger] line@[i], line@[i + 1]) == 1,
            forall|i: int|
                0 <= i < line@.len() ==> #[trigger] line@[i] == bres_point(
                    steep,
                    sa as int,
                    sb as int,
                    ea as int,
                    eb as int,
                    i,
                ),
            -COORD_LIMIT <= sb <= COORD_LIMIT,
        decreases ea + 1 - a,
    {
        proof {
            assert(c <= db) by (nonlinear_arith)
                requires
                    error == da / 2 - (a - sa) * db + c * da,
                    0 <= error,
                    da > 0 ==> error < da,
                    da == 0 ==> c == 0,
                    a <= ea,
                    sa + da == ea,
                    0 <= db <= da,
                    0 <= da / 2 < da || da == 0,
            ;
        }
        proof {
            if da > 0 {
                let i = a - sa;
                assert(c == (i * db + da - da / 2 - 1) / (da as int)) by (nonlinear_arith)
                    requires
                        error == da / 2 - i * db + c * da,
                        0 <= error < da,
                        da > 0,
                ;
            }
        }
        let s = if steep {
            Square::new(b, a)
        } else {
            Square::new(a, b)
        };
        let ghost prev = line@;
        line.push(s);
        proof {
            if prev.len() > 0 {
                assert(line@[prev.len() - 1] == prev.last());
                assert(spec_distance(line@[prev.len() - 1], line@[prev.len() as int]) == 1);
            }
            assert forall|i: int| 0 <= i < line@.len() - 1 implies spec_distance(
                #[trigger] line@[i],
                line@[i + 1],
            ) == 1 by {
                if i < prev.len() - 1 {
                    assert(line@[i] == prev[i] && line@[i + 1] == prev[i + 1]);
                }
            }
            assert(line@[prev.len() as int] == bres_point(steep, sa as int, sb as int, ea as int, eb as int, prev.len() as int));
            clast = c;
            elast = error as int;
        }
        proof {
            assert((a + 1 - sa) * db == (a - sa) * db + db) by (nonlinear_arith);
            assert((c + 1) * da == c * da + da) by (nonlinear_arith);
        }
        error = error - db;
        if error < 0 {
            b = b + bstep;
            error = error + da;
            proof {
                c = c + 1;
            }
        }
        a = a + 1;
    }
    proof {
        assert(clast == db) by (nonlinear_arith)
            requires
                elast == da / 2 - da * db + clast * da,
                0 <= elast,
                da > 0 ==> elast < da,
                da == 0 ==> clast == 0 && db == 0,
                0 <= db <= da,
                da / 2 <= da,
                da > 0 ==> da / 2 < da,
                da >= 0,
        ;
    }
    line
}

} // verus!
