use vstd::prelude::*;

verus! {

/// The state of a line walk: the current pixel and the accumulated error.
pub struct LineWalk {
    pub x: int,
    pub y: int,
    pub err: int,
}

/// One step of the all-octant line walk from `(x0, y0)` with `dx = |x1 - x0|`,
/// `dy = -|y1 - y0|` and step signs `sx`, `sy`.
pub open spec fn walk_step(w: LineWalk, dx: int, dy: int, sx: int, sy: int) -> LineWalk {
    let e2 = 2 * w.err;
    let (err1, x1) = if e2 >= dy { (w.err + dy, w.x + sx) } else { (w.err, w.x) };
    let (err2, y1) = if e2 <= dx { (err1 + dx, w.y + sy) } else { (err1, w.y) };
    LineWalk { x: x1, y: y1, err: err2 }
}

/// The pixels a walk visits until it reaches `(x1, y1)` (or runs out of `fuel` steps).
pub open spec fn walk_trace(w: LineWalk, x1: int, y1: int, dx: int, dy: int, sx: int, sy: int, fuel: nat) -> Seq<(int, int)>
    decreases fuel,
{
    if (w.x == x1 && w.y == y1) || fuel == 0 {
        seq![(w.x, w.y)]
    } else {
        seq![(w.x, w.y)] + walk_trace(walk_step(w, dx, dy, sx, sy), x1, y1, dx, dy, sx, sy, (fuel - 1) as nat)
    }
}

pub open spec fn abs(v: int) -> int {
    if v < 0 { -v } else { v }
}

pub open spec fn sign_towards(from: int, to: int) -> int {
    if from < to { 1 } else { -1 }
}

/// The pixels of the line from `(x0, y0)` to `(x1, y1)`, both ends included.
pub open spec fn line_trace(x0: int, y0: int, x1: int, y1: int) -> Seq<(int, int)> {
    let dx = abs(x1 - x0);
    let dy = -abs(y1 - y0);
    walk_trace(
        LineWalk { x: x0, y: y0, err: dx + dy },
        x1,
        y1,
        dx,
        dy,
        sign_towards(x0, x1),
        sign_towards(y0, y1),
        (dx - dy) as nat,
    )
}

/// The pixels of a trace that lie at non-negative coordinates, in order.
pub open spec fn drawable(trace: Seq<(int, int)>) -> Seq<(u32, u32)>
    decreases trace.len(),
{
    if trace.len() == 0 {
        Seq::empty()
    } else {
        let rest = drawable(trace.drop_first());
        if trace[0].0 >= 0 && trace[0].1 >= 0 {
            seq![(trace[0].0 as u32, trace[0].1 as u32)] + rest
        } else {
            rest
        }
    }
}

/// The walk invariant after `i` horizontal and `j` vertical moves.
pub open spec fn walk_inv(w: LineWalk, x0: int, y0: int, x1: int, y1: int, i: int, j: int) -> bool {
    let dx = abs(x1 - x0);
    let dy = -abs(y1 - y0);
    &&& 0 <= i <= dx && 0 <= j <= -dy
    &&& w.x == x0 + sign_towards(x0, x1) * i
    &&& w.y == y0 + sign_towards(y0, y1) * j
    &&& w.err == dx + dy + i * dy + j * dx
    &&& 2 * dy <= w.err <= 2 * dx
}

proof fn lemma_walk_step(w: LineWalk, x0: int, y0: int, x1: int, y1: int, i: int, j: int)
    requires
        walk_inv(w, x0, y0, x1, y1, i, j),
        !(w.x == x1 && w.y == y1),
    ensures
        ({
            let dx = abs(x1 - x0);
            let dy = -abs(y1 - y0);
            let n = walk_step(w, dx, dy, sign_towards(x0, x1), sign_towards(y0, y1));
            let e2 = 2 * w.err;
            let i2 = if e2 >= dy { i + 1 } else { i };
            let j2 = if e2 <= dx { j + 1 } else { j };
            &&& walk_inv(n, x0, y0, x1, y1, i2, j2)
            &&& i2 + j2 >= i + j + 1
        }),
{
    let dx = abs(x1 - x0);
    let dy = -abs(y1 - y0);
    let sx = sign_towards(x0, x1);
    let sy = sign_towards(y0, y1);
    let e2 = 2 * w.err;
    if i == dx && j < -dy {
        assert(w.err == dx + dy + dx * dy + j * dx);
        assert(dx * (1 + j + dy) <= 0) by (nonlinear_arith)
            requires
                dx >= 0,
                1 + j + dy <= 0,
        ;
        assert(w.err == dx * (1 + j + dy) + dy) by (nonlinear_arith)
            requires
                w.err == dx + dy + dx * dy + j * dx,
        ;
        assert(e2 < dy);
    }
    if j == -dy && i < dx {
        assert(dy * (1 + i - dx) >= 0) by (nonlinear_arith)
            requires
                dy <= 0,
                1 + i - dx <= 0,
        ;
        assert(w.err == dx + dy * (1 + i - dx)) by (nonlinear_arith)
            requires
                w.err == dx + dy + i * dy + j * dx,
                j == -dy,
        ;
        assert(e2 > dx);
    }
    if i == dx && j == -dy {
        assert(w.x == x1) by (nonlinear_arith)
            requires
                w.x == x0 + sx * i,
                i == dx,
                dx == abs(x1 - x0),
                sx == sign_towards(x0, x1),
        ;
        assert(w.y == y1) by (nonlinear_arith)
            requires
                w.y == y0 + sy * j,
                j == -dy,
                dy == -abs(y1 - y0),
                sy == sign_towards(y0, y1),
        ;
    }
    let i2 = if e2 >= dy { i + 1 } else { i };
    let j2 = if e2 <= dx { j + 1 } else { j };
    assert(x0 + sx * i2 == if e2 >= dy { w.x + sx } else { w.x }) by (nonlinear_arith)
        requires
            w.x == x0 + sx * i,
            i2 == if e2 >= dy { i + 1 } else { i },
    ;
    assert(y0 + sy * j2 == if e2 <= dx { w.y + sy } else { w.y }) by (nonlinear_arith)
        requires
            w.y == y0 + sy * j,
            j2 == if e2 <= dx { j + 1 } else { j },
    ;
    assert(dx + dy + i2 * dy + j2 * dx == walk_step(w, dx, dy, sx, sy).err) by (nonlinear_arith)
        requires
            w.err == dx + dy + i * dy + j * dx,
            i2 == if e2 >= dy { i + 1 } else { i },
            j2 == if e2 <= dx { j + 1 } else { j },
            e2 == 2 * w.err,
            walk_step(w, dx, dy, sx, sy).err == (if e2 >= dy { w.err + dy } else { w.err }) + (if e2 <= dx { dx } else { 0 }),
    ;
}

/// The pixels a one-pixel line from `(x0, y0)` to `(x1, y1)` sets, in drawing order; pixels
/// at negative coordinates are skipped.
pub fn line_pixels(x0: i32, y0: i32, x1: i32, y1: i32) -> (pixels: Vec<(u32, u32)>)
    requires
        -0x1fff_ffff <= x1 - x0 <= 0x1fff_ffff,
        -0x1fff_ffff <= y1 - y0 <= 0x1fff_ffff,
    ensures
        pixels@ == drawable(line_trace(x0 as int, y0 as int, x1 as int, y1 as int)),
{
    let ddx = x1 - x0;
    let ddy = y1 - y0;
    let dx: i32 = if ddx < 0 { -ddx } else { ddx };
    let dy: i32 = -(if ddy < 0 { -ddy } else { ddy });
    let sx: i32 = if x0 < x1 { 1 } else { -1 };
    let sy: i32 = if y0 < y1 { 1 } else { -1 };
    let mut err: i32 = dx + dy;
    let mut cx = x0;
    let mut cy = y0;
    let mut pixels: Vec<(u32, u32)> = Vec::new();
    let ghost mut i: int = 0;
    let ghost mut j: int = 0;
    let ghost mut fuel: nat = (dx - dy) as nat;
    let ghost total = line_trace(x0 as int, y0 as int, x1 as int, y1 as int);
    loop
        invariant_except_break
            pixels@ + drawable(walk_trace(LineWalk { x: cx as int, y: cy as int, err: err as int }, x1 as int, y1 as int, dx as int, dy as int, sx as int, sy as int, fuel)) == drawable(total),
        invariant
            dx == abs(x1 - x0),
            dy == -abs(y1 - y0),
            sx == sign_towards(x0 as int, x1 as int),
            sy == sign_towards(y0 as int, y1 as int),
            dx <= 0x1fff_ffff,
            dy >= -0x1fff_ffff,
            walk_inv(LineWalk { x: cx as int, y: cy as int, err: err as int }, x0 as int, y0 as int, x1 as int, y1 as int, i, j),
            (dx - i) + (-dy - j) <= fuel,
        ensures
            pixels@ == drawable(total),
        decreases (dx - i) + (-dy - j),
    {
        let ghost w = LineWalk { x: cx as int, y: cy as int, err: err as int };
        let ghost tail = walk_trace(w, x1 as int, y1 as int, dx as int, dy as int, sx as int, sy as int, fuel);
        proof {
            assert(tail.drop_first() == (if (cx == x1 && cy == y1) || fuel == 0 { Seq::<(int, int)>::empty() } else {
                walk_trace(walk_step(w, dx as int, dy as int, sx as int, sy as int), x1 as int, y1 as int, dx as int, dy as int, sx as int, sy as int, (fuel - 1) as nat)
            }));
            assert(tail[0] == (cx as int, cy as int));
        }
        let ghost before = pixels@;
        if cx >= 0 && cy >= 0 {
            pixels.push((cx as u32, cy as u32));
        }
        proof {
            assert(pixels@ + drawable(tail.drop_first()) =~= before + drawable(tail));
        }
        if cx == x1 && cy == y1 {
            proof {
                assert(drawable(tail.drop_first()) =~= Seq::<(u32, u32)>::empty());
                assert(pixels@ =~= drawable(total));
            }
            break;
        }
        proof {
            lemma_walk_step(w, x0 as int, y0 as int, x1 as int, y1 as int, i, j);
            if fuel == 0 {
                assert(false);
            }
        }
        let e2 = 2 * err;
        if e2 >= dy {
            err += dy;
            cx += sx;
            proof {
                i = i + 1;
            }
        }
        if e2 <= dx {
            err += dx;
            cy += sy;
            proof {
                j = j + 1;
            }
        }
        proof {
            fuel = (fuel - 1) as nat;
        }
    }
    pixels
}

/// A line starts at its first end point, ends at its second, and each pixel neighbours the
/// next one.
pub proof fn law_line_connects_its_ends(x0: int, y0: int, x1: int, y1: int)
    ensures
        line_trace(x0, y0, x1, y1)[0] == (x0, y0),
        line_trace(x0, y0, x1, y1).last() == (x1, y1),
        forall|k: int| 0 <= k < line_trace(x0, y0, x1, y1).len() - 1 ==> abs(
            #[trigger] line_trace(x0, y0, x1, y1)[k].0 - line_trace(x0, y0, x1, y1)[k + 1].0,
        ) <= 1 && abs(line_trace(x0, y0, x1, y1)[k].1 - line_trace(x0, y0, x1, y1)[k + 1].1) <= 1,
{
    let dx = abs(x1 - x0);
    let dy = -abs(y1 - y0);
    lemma_trace_connects(LineWalk { x: x0, y: y0, err: dx + dy }, x0, y0, x1, y1, 0, 0, (dx - dy) as nat);
}

proof fn lemma_trace_connects(w: LineWalk, x0: int, y0: int, x1: int, y1: int, i: int, j: int, fuel: nat)
    requires
        walk_inv(w, x0, y0, x1, y1, i, j),
        (abs(x1 - x0) - i) + (abs(y1 - y0) - j) <= fuel,
    ensures
        ({
            let t = walk_trace(w, x1, y1, abs(x1 - x0), -abs(y1 - y0), sign_towards(x0, x1), sign_towards(y0, y1), fuel);
            &&& t[0] == (w.x, w.y)
            &&& t.last() == (x1, y1)
            &&& forall|k: int| 0 <= k < t.len() - 1 ==> abs(#[trigger] t[k].0 - t[k + 1].0) <= 1 && abs(t[k].1 - t[k + 1].1) <= 1
        }),
    decreases fuel,
{
    let dx = abs(x1 - x0);
    let dy = -abs(y1 - y0);
    let sx = sign_towards(x0, x1);
    let sy = sign_towards(y0, y1);
    let t = walk_trace(w, x1, y1, dx, dy, sx, sy, fuel);
    if w.x == x1 && w.y == y1 {
    } else {
        if fuel == 0 {
            assert(i == dx && j == -dy);
            assert(w.x == x1) by (nonlinear_arith)
                requires
                    w.x == x0 + sx * i,
                    i == dx,
                    dx == abs(x1 - x0),
                    sx == sign_towards(x0, x1),
            ;
            assert(w.y == y1) by (nonlinear_arith)
                requires
                    w.y == y0 + sy * j,
                    j == -dy,
                    dy == -abs(y1 - y0),
                    sy == sign_towards(y0, y1),
            ;
        }
        lemma_walk_step(w, x0, y0, x1, y1, i, j);
        let n = walk_step(w, dx, dy, sx, sy);
        let e2 = 2 * w.err;
        let i2 = if e2 >= dy { i + 1 } else { i };
        let j2 = if e2 <= dx { j + 1 } else { j };
        lemma_trace_connects(n, x0, y0, x1, y1, i2, j2, (fuel - 1) as nat);
        let rest = walk_trace(n, x1, y1, dx, dy, sx, sy, (fuel - 1) as nat);
        assert(t == seq![(w.x, w.y)] + rest);
        assert forall|k: int| 0 <= k < t.len() - 1 implies abs(#[trigger] t[k].0 - t[k + 1].0) <= 1 && abs(t[k].1 - t[k + 1].1) <= 1 by {
            if k > 0 {
                assert(t[k] == rest[k - 1] && t[k + 1] == rest[k]);
            } else {
                assert(t[1] == rest[0]);
                assert(rest[0] == (n.x, n.y));
            }
        }
    }
}

} // verus!
