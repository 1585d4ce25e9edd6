use vstd::prelude::*;

verus! {

/// Decoded RGBA pixels of an image, row-major, four bytes per texel.
pub struct ImageData {
    pub width: u32,
    pub height: u32,
    pub pixels: Vec<u8>,
    pub white_alpha_mask: bool,
}

/// The alpha byte of texel `(x, y)`, where its index lies inside the pixel buffer.
pub open spec fn alpha_at(image: &ImageData, x: int, y: int) -> Option<u8> {
    let index = (y * image.width + x) * 4 + 3;
    if 0 <= index < image.pixels@.len() {
        Some(image.pixels@[index])
    } else {
        None
    }
}

/// The texel at `(x, y)` of the region starting at `(sx, sy)` is fully opaque.
pub open spec fn opaque(image: &ImageData, sx: int, sy: int, x: int, y: int) -> bool {
    alpha_at(image, sx + x, sy + y) == Some(255u8)
}

/// An alpha value that is either fully transparent or fully opaque.
pub open spec fn is_binary_alpha(alpha: Option<u8>) -> bool {
    alpha == Some(0u8) || alpha == Some(255u8)
}

/// Number of consecutive opaque texels of column `x` ending at row `y` (region-local).
pub open spec fn run(image: &ImageData, sx: int, sy: int, x: int, y: int) -> nat
    decreases y + 1,
{
    if y < 0 {
        0
    } else if opaque(image, sx, sy, x, y) {
        run(image, sx, sy, x, y - 1) + 1
    } else {
        0
    }
}


/// Every texel of the region-local rectangle `[x0, x1) x [y0, y1)` is opaque.
pub open spec fn rect_opaque(
    image: &ImageData,
    sx: int,
    sy: int,
    x0: int,
    y0: int,
    x1: int,
    y1: int,
) -> bool {
    forall|x: int, y: int| x0 <= x < x1 && y0 <= y < y1 ==> #[trigger] opaque(image, sx, sy, x, y)
}

/// `r` is a nonempty rectangle `[x0, y0, x1, y1]` inside a `w` by `h` region.
pub open spec fn rect_inside(r: [u32; 4], w: int, h: int) -> bool {
    r[0] < r[2] <= w && r[1] < r[3] <= h
}

pub open spec fn rect_area(r: [u32; 4]) -> int {
    (r[2] - r[0]) * (r[3] - r[1])
}

/// `r` is an all-opaque rectangle of the region that no other all-opaque rectangle of the
/// region exceeds in area.
pub open spec fn largest_opaque_rect(
    image: &ImageData,
    region: [u32; 4],
    r: [u32; 4],
) -> bool {
    &&& rect_inside(r, region[2] as int, region[3] as int)
    &&& rect_opaque(image, region[0] as int, region[1] as int, r[0] as int, r[1] as int, r[2] as int, r[3] as int)
    &&& forall|x0: int, y0: int, x1: int, y1: int|
        0 <= x0 < x1 <= region[2] && 0 <= y0 < y1 <= region[3]
            && #[trigger] rect_opaque(image, region[0] as int, region[1] as int, x0, y0, x1, y1)
            ==> (x1 - x0) * (y1 - y0) <= rect_area(r)
}

/// Some texel of the region is opaque.
pub open spec fn has_opaque_texel(image: &ImageData, region: [u32; 4]) -> bool {
    exists|x: int, y: int|
        0 <= x < region[2] && 0 <= y < region[3] && #[trigger] opaque(image, region[0] as int, region[1] as int, x, y)
}

/// Every texel of the region has a binary alpha.
pub open spec fn region_binary(image: &ImageData, region: [u32; 4]) -> bool {
    forall|x: int, y: int|
        0 <= x < region[2] && 0 <= y < region[3] ==> is_binary_alpha(
            #[trigger] alpha_at(image, region[0] + x, region[1] + y),
        )
}

/// A texel just past the region that sampling may reach; it counts as binary when it lies
/// outside the image.
pub open spec fn edge_binary(image: &ImageData, x: int, y: int) -> bool {
    x >= image.width || y >= image.height || is_binary_alpha(alpha_at(image, x, y))
}

/// The region is binary, and so are the column just right of it and the row just below it.
pub open spec fn pair_binary_spec(image: &ImageData, region: [u32; 4]) -> bool {
    &&& region_binary(image, region)
    &&& forall|y: int| region[1] <= y <= region[1] + region[3] ==> #[trigger] edge_binary(image, region[0] + region[2], y)
    &&& forall|x: int| region[0] <= x < region[0] + region[2] ==> #[trigger] edge_binary(image, x, region[1] + region[3])
}

proof fn lemma_run_opaque(image: &ImageData, sx: int, sy: int, x: int, y: int, yy: int)
    requires
        y - run(image, sx, sy, x, y) < yy <= y,
    ensures
        opaque(image, sx, sy, x, yy),
    decreases y + 1,
{
    if y >= 0 && opaque(image, sx, sy, x, y) && yy < y {
        lemma_run_opaque(image, sx, sy, x, y - 1, yy);
    }
}

proof fn lemma_opaque_run(image: &ImageData, sx: int, sy: int, x: int, c: int, y: int)
    requires
        0 <= c <= y,
        forall|yy: int| c <= yy <= y ==> #[trigger] opaque(image, sx, sy, x, yy),
    ensures
        run(image, sx, sy, x, y) >= y + 1 - c,
    decreases y - c,
{
    if c < y {
        lemma_opaque_run(image, sx, sy, x, c, y - 1);
    }
}

/// `i` is the leftmost position of the smallest height in `[a, b)`.
pub open spec fn leftmost_min(hs: Seq<u32>, a: int, b: int, i: int) -> bool {
    &&& a <= i < b
    &&& forall|j: int| a <= j < b ==> hs[i] <= #[trigger] hs[j]
    &&& forall|j: int| a <= j < i ==> hs[i] < #[trigger] hs[j]
}

spec fn argmin(hs: Seq<u32>, a: int, b: int) -> int
    decreases b - a,
{
    if b - a <= 1 {
        a
    } else {
        let m = argmin(hs, a + 1, b);
        if hs[a] <= hs[m] {
            a
        } else {
            m
        }
    }
}

proof fn lemma_argmin(hs: Seq<u32>, a: int, b: int)
    requires
        a < b,
    ensures
        leftmost_min(hs, a, b, argmin(hs, a, b)),
    decreases b - a,
{
    if b - a > 1 {
        lemma_argmin(hs, a + 1, b);
    }
}

spec fn gap_start(s: Seq<usize>, k: int) -> int {
    if k == 0 {
        0
    } else {
        s[k - 1] + 1
    }
}

/// The histogram stack: strictly increasing positions below `xi` with non-decreasing heights,
/// where every position skipped between two stacked positions is at least as high as the
/// later one, and every position after the top is at least as high as the top.
spec fn stack_ok(hs: Seq<u32>, s: Seq<usize>, xi: int) -> bool {
    &&& forall|k1: int, k2: int| #![trigger s[k1], s[k2]] 0 <= k1 < k2 < s.len() ==> s[k1] < s[k2]
    &&& forall|k: int| 0 <= k < s.len() ==> #[trigger] s[k] < xi
    &&& forall|k1: int, k2: int| #![trigger s[k1], s[k2]] 0 <= k1 < k2 < s.len() ==> hs[s[k1] as int] <= hs[s[k2] as int]
    &&& forall|k: int, j: int| #![trigger s[k], hs[j]] 0 <= k < s.len() && gap_start(s, k) <= j < s[k] ==> hs[s[k] as int] <= hs[j]
    &&& s.len() > 0 ==> forall|j: int| s.last() < j < xi ==> hs[s.last() as int] <= #[trigger] hs[j]
}

spec fn on_stack(s: Seq<usize>, i: int) -> bool {
    exists|k: int| 0 <= k < s.len() && s[k] == i
}

/// Every interval whose leftmost minimum has already left the stack is no wider than what
/// `area` accounts for at that minimum's height.
spec fn popped_covered(hs: Seq<u32>, s: Seq<usize>, xi: int, w: int, area: int) -> bool {
    forall|a: int, b: int, i: int|
        0 <= a && b <= w && #[trigger] leftmost_min(hs, a, b, i) && i < xi && !on_stack(s, i)
            ==> (b - a) * hs[i] <= area
}


proof fn lemma_run_bound(image: &ImageData, sx: int, sy: int, x: int, y: int)
    ensures
        run(image, sx, sy, x, y) <= if y < 0 { 0 } else { y + 1 },
    decreases y + 1,
{
    if y >= 0 {
        lemma_run_bound(image, sx, sy, x, y - 1);
    }
}

proof fn lemma_stack_in_range(hs: Seq<u32>, s: Seq<usize>, xi: int, j: int)
    requires
        stack_ok(hs, s, xi),
        s.len() > 0,
        gap_start(s, s.len() - 1) <= j < xi,
    ensures
        hs[s.last() as int] <= hs[j],
{
    let t = s.last() as int;
    let last = s.len() - 1;
    if j < t {
        assert(s[last] == t);
    } else if j > t {
    }
}

proof fn lemma_pop(hs: Seq<u32>, s: Seq<usize>, xi: int, w: int, area: int, new_area: int)
    requires
        s.len() > 0,
        stack_ok(hs, s, xi),
        0 <= xi < hs.len(),
        hs[s.last() as int] > hs[xi],
        forall|j: int| gap_start(s, s.len() as int) <= j < xi ==> hs[xi] < #[trigger] hs[j],
        popped_covered(hs, s, xi, w, area),
        new_area >= area,
        new_area >= (xi - gap_start(s, s.len() - 1)) * hs[s.last() as int],
    ensures
        stack_ok(hs, s.drop_last(), xi),
        popped_covered(hs, s.drop_last(), xi, w, new_area),
        forall|j: int| gap_start(s.drop_last(), s.drop_last().len() as int) <= j < xi ==> hs[xi] < #[trigger] hs[j],
{
    let n = s.len() - 1;
    let t = s[n] as int;
    let d = s.drop_last();
    let gs = gap_start(s, n);
    assert(gap_start(d, d.len() as int) == gs);
    assert forall|j: int| gs <= j < xi implies hs[xi] < #[trigger] hs[j] by {
        if j < t {
            assert(s[n] == t);
        } else if j > t {
            assert(gap_start(s, s.len() as int) == t + 1);
        }
    }
    if d.len() > 0 {
        let p = d.last() as int;
        assert(s[n - 1] == p);
        assert forall|j: int| d.last() < j < xi implies hs[d.last() as int] <= #[trigger] hs[j] by {
            assert(s[n - 1] == p && s[n] == t);
            assert(hs[p] <= hs[t]);
            lemma_stack_in_range(hs, s, xi, j);
        }
    }
    assert(stack_ok(hs, d, xi)) by {
        assert forall|k: int, j: int| #![trigger d[k], hs[j]] 0 <= k < d.len() && gap_start(d, k) <= j < d[k] implies hs[d[k] as int] <= hs[j] by {
            assert(d[k] == s[k]);
            assert(gap_start(d, k) == gap_start(s, k));
        }
    }
    assert forall|a: int, b: int, i: int|
        0 <= a && b <= w && #[trigger] leftmost_min(hs, a, b, i) && i < xi && !on_stack(d, i)
        implies (b - a) * hs[i] <= new_area by {
        if on_stack(s, i) {
            let k = choose|k: int| 0 <= k < s.len() && s[k] == i;
            if k < n {
                assert(d[k] == i);
            }
            assert(i == t);
            if b > xi {
                assert(hs[i] <= hs[xi]);
            }
            if n > 0 {
                let p = s[n - 1] as int;
                assert(s[n - 1] < s[n]);
                assert(hs[p] <= hs[t]);
                if p >= a {
                    assert(hs[i] < hs[p]);
                }
            }
            assert(b - a <= xi - gs);
            assert((b - a) * hs[i] <= (xi - gs) * hs[i]) by (nonlinear_arith)
                requires
                    b - a <= xi - gs,
                    hs[i] >= 0,
            ;
        } else {
        }
    }
}

proof fn lemma_push(hs: Seq<u32>, s: Seq<usize>, xi: int, w: int, area: int)
    requires
        stack_ok(hs, s, xi),
        0 <= xi <= usize::MAX,
        s.len() == 0 || hs[s.last() as int] <= hs[xi],
        forall|j: int| gap_start(s, s.len() as int) <= j < xi ==> hs[xi] < #[trigger] hs[j],
        popped_covered(hs, s, xi, w, area),
    ensures
        stack_ok(hs, s.push(xi as usize), xi + 1),
        popped_covered(hs, s.push(xi as usize), xi + 1, w, area),
{
    let p = s.push(xi as usize);
    let n = s.len() as int;
    assert(p[n] == xi);
    assert(gap_start(p, n) == gap_start(s, n));
    assert forall|k: int, j: int| #![trigger p[k], hs[j]] 0 <= k < p.len() && gap_start(p, k) <= j < p[k] implies hs[p[k] as int] <= hs[j] by {
        if k < n {
            assert(p[k] == s[k]);
            assert(gap_start(p, k) == gap_start(s, k));
        }
    }
    assert forall|k1: int, k2: int| #![trigger p[k1], p[k2]] 0 <= k1 < k2 < p.len() implies hs[p[k1] as int] <= hs[p[k2] as int] by {
        if k2 == n && k1 < n {
            assert(s[k1] == p[k1]);
            if k1 < n - 1 {
                assert(s[k1] == p[k1] && s[n - 1] == s.last());
            }
        }
    }
    assert forall|a: int, b: int, i: int|
        0 <= a && b <= w && #[trigger] leftmost_min(hs, a, b, i) && i < xi + 1 && !on_stack(p, i)
        implies (b - a) * hs[i] <= area by {
        if i == xi {
            assert(p[n] == i);
        }
        if on_stack(s, i) {
            let k = choose|k: int| 0 <= k < s.len() && s[k] == i;
            assert(p[k] == i);
        }
    }
}

proof fn lemma_row_end(hs: Seq<u32>, s: Seq<usize>, w: int, area: int)
    requires
        stack_ok(hs, s, w + 1),
        s.len() > 0,
        s.last() == w,
        0 <= w < hs.len(),
        hs[w] == 0,
        popped_covered(hs, s, w + 1, w, area),
        area >= 0,
    ensures
        forall|a: int, b: int, i: int| 0 <= a && b <= w && #[trigger] leftmost_min(hs, a, b, i) ==> (b - a) * hs[i] <= area,
{
    let n = s.len() - 1;
    assert forall|a: int, b: int, i: int| 0 <= a && b <= w && #[trigger] leftmost_min(hs, a, b, i) implies (b - a) * hs[i] <= area by {
        if on_stack(s, i) {
            let k = choose|k: int| 0 <= k < s.len() && s[k] == i;
            if k < n {
                assert(s[n] == w);
                assert(hs[s[k] as int] <= hs[s[n] as int]);
            }
            assert(hs[i] == 0);
        }
    }
}

proof fn lemma_row_rects(image: &ImageData, sx: int, sy: int, hs: Seq<u32>, w: int, y: int, area: int)
    requires
        0 <= y,
        w <= hs.len(),
        forall|a: int, b: int, i: int| 0 <= a && b <= w && #[trigger] leftmost_min(hs, a, b, i) ==> (b - a) * hs[i] <= area,
        forall|j: int| 0 <= j < w ==> hs[j] == #[trigger] run(image, sx, sy, j, y),
    ensures
        forall|x0: int, y0: int, x1: int|
            0 <= x0 < x1 <= w && 0 <= y0 < y + 1 && #[trigger] rect_opaque(image, sx, sy, x0, y0, x1, y + 1)
                ==> (x1 - x0) * (y + 1 - y0) <= area,
{
    assert forall|x0: int, y0: int, x1: int|
        0 <= x0 < x1 <= w && 0 <= y0 < y + 1 && #[trigger] rect_opaque(image, sx, sy, x0, y0, x1, y + 1)
        implies (x1 - x0) * (y + 1 - y0) <= area by {
        let i = argmin(hs, x0, x1);
        lemma_argmin(hs, x0, x1);
        assert forall|yy: int| y0 <= yy <= y implies #[trigger] opaque(image, sx, sy, i, yy) by {
            assert(x0 <= i < x1);
        }
        lemma_opaque_run(image, sx, sy, i, y0, y);
        assert(hs[i] >= y + 1 - y0);
        assert((x1 - x0) * (y + 1 - y0) <= (x1 - x0) * hs[i]) by (nonlinear_arith)
            requires
                hs[i] >= y + 1 - y0,
                x1 - x0 >= 0,
        ;
    }
}


/// What the scan of an atlas region found: its largest all-opaque rectangle (region-local
/// `[x0, y0, x1, y1]`), whether every texel's alpha is 0 or 255, and whether that also holds
/// one texel beyond the region's right and bottom edges.
#[derive(Clone, Copy)]
pub struct AlphaShape {
    pub opaque: Option<[u32; 4]>,
    pub binary: bool,
    pub pair_binary: bool,
}

/// Texels of rows `[0, rows)` and of row `rows` before column `cols` have binary alpha.
spec fn scanned_binary(image: &ImageData, sx: int, sy: int, w: int, rows: int, cols: int) -> bool {
    &&& forall|x: int, y: int| 0 <= x < w && 0 <= y < rows ==> is_binary_alpha(
        #[trigger] alpha_at(image, sx + x, sy + y),
    )
    &&& forall|x: int| 0 <= x < cols ==> is_binary_alpha(#[trigger] alpha_at(image, sx + x, sy + rows))
}

/// Every all-opaque rectangle ending by row `rows` fits in `area`.
spec fn rows_covered(image: &ImageData, sx: int, sy: int, w: int, rows: int, area: int) -> bool {
    forall|x0: int, y0: int, x1: int, y1: int|
        0 <= x0 < x1 <= w && 0 <= y0 < y1 <= rows && #[trigger] rect_opaque(image, sx, sy, x0, y0, x1, y1)
            ==> (x1 - x0) * (y1 - y0) <= area
}

spec fn best_ok(image: &ImageData, sx: int, sy: int, w: int, h: int, best: Option<[u32; 4]>, area: int) -> bool {
    match best {
        None => area == 0,
        Some(r) => {
            &&& rect_inside(r, w, h)
            &&& rect_opaque(image, sx, sy, r[0] as int, r[1] as int, r[2] as int, r[3] as int)
            &&& rect_area(r) == area
            &&& area > 0
        },
    }
}

fn binary_alpha(alpha: Option<u8>) -> (b: bool)
    ensures
        b == is_binary_alpha(alpha),
{
    match alpha {
        Some(v) => v == 0 || v == 255,
        None => false,
    }
}

fn edge_texel_binary(image: &ImageData, x: u32, y: u32) -> (b: bool)
    ensures
        b == edge_binary(image, x as int, y as int),
{
    if x >= image.width || y >= image.height {
        return true;
    }
    binary_alpha(texel_alpha(image, x, y))
}

fn pair_edges_binary(image: &ImageData, region: [u32; 4]) -> (b: bool)
    requires
        region[0] + region[2] <= u32::MAX,
        region[1] + region[3] <= u32::MAX,
    ensures
        b == ((forall|y: int| region[1] <= y <= region[1] + region[3] ==> #[trigger] edge_binary(image, region[0] + region[2], y))
            && (forall|x: int| region[0] <= x < region[0] + region[2] ==> #[trigger] edge_binary(image, x, region[1] + region[3]))),
{
    let sx = region[0];
    let sy = region[1];
    let w = region[2];
    let h = region[3];
    let right = sx + w;
    let bottom = sy + h;
    let mut y: u64 = sy as u64;
    while y <= bottom as u64
        invariant
            sy <= y,
            y <= bottom + 1,
            bottom == sy + h && right == sx + w,
            sx == region[0] && sy == region[1] && w == region[2] && h == region[3],
            forall|yy: int| sy <= yy < y ==> #[trigger] edge_binary(image, right as int, yy),
        decreases bottom + 1 - y,
    {
        if !edge_texel_binary(image, right, y as u32) {
            return false;
        }
        y += 1;
    }
    let mut x = sx;
    while x < right
        invariant
            sx <= x <= right,
            bottom == sy + h && right == sx + w,
            sx == region[0] && sy == region[1] && w == region[2] && h == region[3],
            forall|yy: int| sy <= yy <= bottom ==> #[trigger] edge_binary(image, right as int, yy),
            forall|xx: int| sx <= xx < x ==> #[trigger] edge_binary(image, xx, bottom as int),
        decreases right - x,
    {
        if !edge_texel_binary(image, x, bottom) {
            return false;
        }
        x += 1;
    }
    true
}

/// Adds row `y` of the region to the column heights and to the binary-alpha flag.
fn add_row(image: &ImageData, region: [u32; 4], y: u32, heights: &mut Vec<u32>, binary: bool) -> (row_binary: bool)
    requires
        region[2] <= 256,
        y < region[3],
        region[0] + region[2] <= u32::MAX,
        region[1] + region[3] <= u32::MAX,
        old(heights)@.len() == 257,
        forall|j: int| 0 <= j < region[2] ==> old(heights)@[j] == #[trigger] run(image, region[0] as int, region[1] as int, j, y - 1),
        forall|j: int| region[2] <= j < 257 ==> #[trigger] old(heights)@[j] == 0,
        binary == scanned_binary(image, region[0] as int, region[1] as int, region[2] as int, y as int, 0),
    ensures
        final(heights)@.len() == 257,
        forall|j: int| 0 <= j < region[2] ==> final(heights)@[j] == #[trigger] run(image, region[0] as int, region[1] as int, j, y as int),
        forall|j: int| region[2] <= j < 257 ==> #[trigger] final(heights)@[j] == 0,
        row_binary == scanned_binary(image, region[0] as int, region[1] as int, region[2] as int, y + 1, 0),
{
    let sx = region[0];
    let sy = region[1];
    let w = region[2];
    let h = region[3];
    let ghost gsx = sx as int;
    let ghost gsy = sy as int;
    let mut binary = binary;
    let mut x: u32 = 0;
    while x < w
        invariant
            sx == region[0] && sy == region[1] && w == region[2] && h == region[3],
            gsx == sx && gsy == sy,
            w <= 256,
            sy + h <= u32::MAX,
            sx + w <= u32::MAX,
            y < h,
            x <= w,
            heights@.len() == 257,
            forall|j: int| 0 <= j < x ==> heights@[j] == #[trigger] run(image, gsx, gsy, j, y as int),
            forall|j: int| x <= j < w ==> heights@[j] == #[trigger] run(image, gsx, gsy, j, y - 1),
            forall|j: int| w <= j < 257 ==> #[trigger] heights@[j] == 0,
            binary == scanned_binary(image, gsx, gsy, w as int, y as int, x as int),
        decreases w - x,
    {
        let alpha = texel_alpha(image, sx + x, sy + y);
        let ghost before = binary;
        binary = binary && binary_alpha(alpha);
        proof {
            assert(alpha == alpha_at(image, gsx + x, gsy + y));
            assert(binary == scanned_binary(image, gsx, gsy, w as int, y as int, x + 1)) by {
                if before && is_binary_alpha(alpha) {
                    assert forall|xx: int| 0 <= xx < x + 1 implies is_binary_alpha(#[trigger] alpha_at(image, gsx + xx, gsy + y)) by {
                        if xx < x {
                            assert(is_binary_alpha(alpha_at(image, gsx + xx, gsy + y)));
                        }
                    }
                }
                if !before {
                    if scanned_binary(image, gsx, gsy, w as int, y as int, x + 1) {
                        assert forall|xx: int| 0 <= xx < x implies is_binary_alpha(#[trigger] alpha_at(image, gsx + xx, gsy + y)) by {
                            assert(0 <= xx < x + 1);
                        }
                    }
                }
            }
            lemma_run_bound(image, gsx, gsy, x as int, y - 1);
        }
        let old_height = heights[x as usize];
        let new_height = if alpha == Some(255u8) {
            old_height + 1
        } else {
            0
        };
        heights[x as usize] = new_height;
        proof {
            assert(run(image, gsx, gsy, x as int, y as int) == new_height);
        }
        x += 1;
    }
    proof {
        assert(binary == scanned_binary(image, gsx, gsy, w as int, y + 1, 0)) by {
            if binary {
                assert forall|xx: int, yy: int| 0 <= xx < w && 0 <= yy < y + 1 implies is_binary_alpha(
                    #[trigger] alpha_at(image, gsx + xx, gsy + yy),
                ) by {
                    if yy == y {
                        assert(is_binary_alpha(alpha_at(image, gsx + xx, gsy + y)));
                    }
                }
            } else {
                if scanned_binary(image, gsx, gsy, w as int, y + 1, 0) {
                    assert forall|xx: int| 0 <= xx < w implies is_binary_alpha(#[trigger] alpha_at(image, gsx + xx, gsy + y)) by {
                        assert(is_binary_alpha(alpha_at(image, gsx + xx, gsy + y)));
                    }
                    assert forall|xx: int, yy: int| 0 <= xx < w && 0 <= yy < y implies is_binary_alpha(
                        #[trigger] alpha_at(image, gsx + xx, gsy + yy),
                    ) by {
                        assert(is_binary_alpha(alpha_at(image, gsx + xx, gsy + yy)));
                    }
                }
            }
        }
    }
    binary
}

/// Every interval of `[0, w)` is no wider than `area` allows at its smallest height.
spec fn intervals_covered(hs: Seq<u32>, w: int, area: int) -> bool {
    forall|a: int, b: int, i: int| 0 <= a && b <= w && #[trigger] leftmost_min(hs, a, b, i) ==> (b - a) * hs[i] <= area
}

/// A rectangle `r` ending at row `y + 1` whose columns all reach at least its height.
spec fn row_candidate(hs: Seq<u32>, w: int, y: int, r: [u32; 4]) -> bool {
    &&& r[0] < r[2] <= w
    &&& r[1] < r[3] == y + 1
    &&& forall|j: int| r[0] <= j < r[2] ==> r[3] - r[1] <= #[trigger] hs[j]
}

/// Pops every stacked column taller than column `xi`, raising the best rectangle with the
/// rectangle each popped column spans.
#[verifier::rlimit(40)]
fn pop_taller(
    heights: &Vec<u32>,
    stack: &Vec<usize>,
    count: usize,
    xi: usize,
    w: u32,
    y: u32,
    h: u32,
    best: Option<[u32; 4]>,
    area: u32,
    Ghost(area_before): Ghost<u32>,
    Ghost(best_before): Ghost<Option<[u32; 4]>>,
) -> (result: (usize, Option<[u32; 4]>, u32))
    requires
        w <= 256,
        w * h <= u32::MAX,
        y < h,
        heights@.len() == 257,
        stack@.len() == 257,
        forall|j: int| 0 <= j < w ==> #[trigger] heights@[j] <= y + 1,
        forall|j: int| w <= j < 257 ==> #[trigger] heights@[j] == 0,
        xi <= w,
        count <= xi,
        forall|k: int| 0 <= k < count ==> #[trigger] stack@[k] < xi,
        stack_ok(heights@, stack@.subrange(0, count as int), xi as int),
        forall|j: int| gap_start(stack@.subrange(0, count as int), count as int) <= j < xi ==> heights@[xi as int] < #[trigger] heights@[j],
        popped_covered(heights@, stack@.subrange(0, count as int), xi as int, w as int, area as int),
        area >= area_before,
        (best == best_before && area == area_before) || (best matches Some(r) && row_candidate(heights@, w as int, y as int, r)
            && rect_area(r) == area && area > 0),
    ensures
        result.0 <= count,
        result.0 == 0 || heights@[stack@[result.0 - 1] as int] <= heights@[xi as int],
        stack_ok(heights@, stack@.subrange(0, result.0 as int), xi as int),
        forall|j: int| gap_start(stack@.subrange(0, result.0 as int), result.0 as int) <= j < xi ==> heights@[xi as int] < #[trigger] heights@[j],
        popped_covered(heights@, stack@.subrange(0, result.0 as int), xi as int, w as int, result.2 as int),
        result.2 >= area_before,
        (result.1 == best_before && result.2 == area_before) || (result.1 matches Some(r) && row_candidate(heights@, w as int, y as int, r)
            && rect_area(r) == result.2 && result.2 > 0),
{
    let ghost hs = heights@;
    let mut count = count;
    let mut best = best;
    let mut area = area;
    while count > 0 && heights[stack[count - 1]] > heights[xi]
        invariant
            w <= 256,
            w * h <= u32::MAX,
            y < h,
            heights@ == hs,
            hs.len() == 257,
            stack@.len() == 257,
            forall|j: int| 0 <= j < w ==> #[trigger] hs[j] <= y + 1,
            forall|j: int| w <= j < 257 ==> #[trigger] hs[j] == 0,
            xi <= w,
            count <= xi,
            forall|k: int| 0 <= k < count ==> #[trigger] stack@[k] < xi,
            stack_ok(hs, stack@.subrange(0, count as int), xi as int),
            forall|j: int| gap_start(stack@.subrange(0, count as int), count as int) <= j < xi ==> hs[xi as int] < #[trigger] hs[j],
            popped_covered(hs, stack@.subrange(0, count as int), xi as int, w as int, area as int),
            area >= area_before,
            (best == best_before && area == area_before) || (best matches Some(r) && row_candidate(hs, w as int, y as int, r)
                && rect_area(r) == area && area > 0),
        decreases count,
    {
        let ghost st = stack@.subrange(0, count as int);
        let ghost old_area = area;
        proof {
            assert(st[count - 1] == stack@[count - 1]);
        }
        count -= 1;
        let top = stack[count];
        let height = heights[top];
        let left = if count == 0 {
            0
        } else {
            stack[count - 1] + 1
        };
        proof {
            assert(st.last() == top);
            if count > 0 {
                assert(st[count - 1] == stack@[count - 1]);
                assert(st[count - 1] < st[count as int]);
            }
            assert(left == gap_start(st, st.len() - 1));
            assert(top < w);
            assert((xi - left) * (height as int) <= w * h) by (nonlinear_arith)
                requires
                    0 <= xi - left <= w,
                    0 <= height <= h,
            ;
        }
        let width = (xi - left) as u32;
        if width * height > area {
            area = width * height;
            best = Some([left as u32, y + 1 - height, xi as u32, y + 1]);
            proof {
                let r = [left as u32, (y + 1 - height) as u32, xi as u32, (y + 1) as u32];
                assert(best == Some(r));
                assert forall|j: int| r[0] <= j < r[2] implies r[3] - r[1] <= #[trigger] hs[j] by {
                    lemma_stack_in_range(hs, st, xi as int, j);
                }
                assert(rect_area(r) == width * height);
            }
        }
        proof {
            lemma_pop(hs, st, xi as int, w as int, old_area as int, area as int);
            assert(st.drop_last() =~= stack@.subrange(0, count as int));
        }
    }
    (count, best, area)
}

/// Pushes column `xi` onto the stack of open columns, above the `count` still open.
fn push_index(
    stack: &mut Vec<usize>,
    count: usize,
    xi: usize,
    Ghost(hs): Ghost<Seq<u32>>,
    Ghost(w): Ghost<int>,
    Ghost(area): Ghost<int>,
)
    requires
        old(stack)@.len() == 257,
        count <= xi < 257,
        forall|k: int| 0 <= k < count ==> #[trigger] old(stack)@[k] < xi,
        stack_ok(hs, old(stack)@.subrange(0, count as int), xi as int),
        count == 0 || hs[old(stack)@[count - 1] as int] <= hs[xi as int],
        forall|j: int|
            gap_start(old(stack)@.subrange(0, count as int), count as int) <= j < xi ==> hs[xi as int] < #[trigger] hs[j],
        popped_covered(hs, old(stack)@.subrange(0, count as int), xi as int, w, area),
    ensures
        final(stack)@.len() == 257,
        final(stack)@[count as int] == xi,
        forall|k: int| 0 <= k <= count ==> #[trigger] final(stack)@[k] < xi + 1,
        stack_ok(hs, final(stack)@.subrange(0, count + 1), xi + 1),
        popped_covered(hs, final(stack)@.subrange(0, count + 1), xi + 1, w, area),
{
    let ghost before_push = stack@;
    proof {
        let st = stack@.subrange(0, count as int);
        assert(st.len() == count);
        lemma_push(hs, st, xi as int, w, area);
    }
    stack.set(count, xi);
    proof {
        assert(stack@.subrange(0, count + 1) =~= before_push.subrange(0, count as int).push(xi));
    }
}

/// Runs the histogram stack over one row of column heights, raising the best rectangle.
#[verifier::rlimit(100)]
fn scan_row(
    heights: &Vec<u32>,
    stack: &mut Vec<usize>,
    w: u32,
    y: u32,
    h: u32,
    best: Option<[u32; 4]>,
    area: u32,
) -> (result: (Option<[u32; 4]>, u32))
    requires
        w <= 256,
        y < h,
        w * h <= u32::MAX,
        heights@.len() == 257,
        old(stack)@.len() == 257,
        forall|j: int| 0 <= j < w ==> #[trigger] heights@[j] <= y + 1,
        forall|j: int| w <= j < 257 ==> #[trigger] heights@[j] == 0,
    ensures
        final(stack)@.len() == 257,
        result.1 >= area,
        (result.0 == best && result.1 == area) || (result.0 matches Some(r) && row_candidate(heights@, w as int, y as int, r)
            && rect_area(r) == result.1 && result.1 > 0),
        intervals_covered(heights@, w as int, result.1 as int),
{
    let ghost hs = heights@;
    let mut best = best;
    let mut area = area;
    let ghost area_before = area;
    let ghost best_before = best;
    let mut count: usize = 0;
    let mut xi: usize = 0;
    while xi <= w as usize
        invariant
            w <= 256,
            w * h <= u32::MAX,
            y < h,
            heights@ == hs,
            hs.len() == 257,
            stack@.len() == 257,
            forall|j: int| 0 <= j < w ==> #[trigger] hs[j] <= y + 1,
            forall|j: int| w <= j < 257 ==> #[trigger] hs[j] == 0,
            xi <= w + 1,
            count <= xi,
            count == 0 ==> xi == 0,
            count > 0 ==> stack@[count - 1] == xi - 1,
            forall|k: int| 0 <= k < count ==> #[trigger] stack@[k] < xi,
            stack_ok(hs, stack@.subrange(0, count as int), xi as int),
            popped_covered(hs, stack@.subrange(0, count as int), xi as int, w as int, area as int),
            area >= area_before,
            (best == best_before && area == area_before) || (best matches Some(r) && row_candidate(hs, w as int, y as int, r)
                && rect_area(r) == area && area > 0),
        decreases w + 1 - xi,
    {
        proof {
            let st = stack@.subrange(0, count as int);
            assert(gap_start(st, st.len() as int) == xi);
        }
        let (c, b2, a2) = pop_taller(heights, stack, count, xi, w, y, h, best, area, Ghost(area_before), Ghost(best_before));
        count = c;
        best = b2;
        area = a2;
        push_index(stack, count, xi, Ghost(hs), Ghost(w as int), Ghost(area as int));
        count += 1;
        xi += 1;
    }
    proof {
        let st = stack@.subrange(0, count as int);
        assert(st.last() == w);
        lemma_row_end(hs, st, w as int, area as int);
    }
    (best, area)
}

/// What a scan of `region` may report: binary alpha exactly when every texel's alpha is 0 or
/// 255, the same with the texels one beyond the right and bottom edges, and a largest
/// all-opaque rectangle exactly when the region has an opaque texel.
pub open spec fn shape_of(image: &ImageData, region: [u32; 4], shape: AlphaShape) -> bool {
    &&& shape.binary == region_binary(image, region)
    &&& shape.pair_binary == pair_binary_spec(image, region)
    &&& (shape.opaque is None <==> !has_opaque_texel(image, region))
    &&& (shape.opaque matches Some(r) ==> largest_opaque_rect(image, region, r))
}

/// Scans an atlas region for its largest all-opaque rectangle and for binary alpha.
pub fn alpha_shape(image: &ImageData, region: [u32; 4]) -> (shape: AlphaShape)
    requires
        region[2] <= 256,
        region[2] * region[3] <= u32::MAX,
        region[0] + region[2] <= u32::MAX,
        region[1] + region[3] <= u32::MAX,
    ensures
        shape.binary == region_binary(image, region),
        shape.pair_binary == pair_binary_spec(image, region),
        shape.opaque is None <==> !has_opaque_texel(image, region),
        shape.opaque matches Some(r) ==> largest_opaque_rect(image, region, r),
        shape_of(image, region, shape),
{
    let w = region[2];
    let h = region[3];
    let ghost gsx = region[0] as int;
    let ghost gsy = region[1] as int;
    let mut heights: Vec<u32> = vec![0u32; 257];
    let mut stack: Vec<usize> = vec![0usize; 257];
    let mut best: Option<[u32; 4]> = None;
    let mut area: u32 = 0;
    let mut binary = true;
    let mut y: u32 = 0;
    assert forall|j: int| 0 <= j < 257 implies heights@[j] == 0 by {
        assert(cloned(0u32, heights@[j]));
    }
    while y < h
        invariant
            w == region[2] && h == region[3],
            gsx == region[0] && gsy == region[1],
            w <= 256,
            w * h <= u32::MAX,
            region[0] + region[2] <= u32::MAX,
            region[1] + region[3] <= u32::MAX,
            y <= h,
            heights@.len() == 257,
            stack@.len() == 257,
            forall|j: int| 0 <= j < w ==> heights@[j] == #[trigger] run(image, gsx, gsy, j, y - 1),
            forall|j: int| w <= j < 257 ==> #[trigger] heights@[j] == 0,
            binary == scanned_binary(image, gsx, gsy, w as int, y as int, 0),
            best_ok(image, gsx, gsy, w as int, h as int, best, area as int),
            rows_covered(image, gsx, gsy, w as int, y as int, area as int),
        decreases h - y,
    {
        binary = add_row(image, region, y, &mut heights, binary);
        let ghost hs = heights@;
        let ghost area_before = area;
        let ghost best_before = best;
        proof {
            assert forall|j: int| 0 <= j < w implies #[trigger] hs[j] <= y + 1 by {
                lemma_run_bound(image, gsx, gsy, j, y as int);
            }
        }
        let (new_best, new_area) = scan_row(&heights, &mut stack, w, y, h, best, area);
        best = new_best;
        area = new_area;
        proof {
            if !(best == best_before && area == area_before) {
                let r = best->Some_0;
                assert forall|xx: int, yy: int| r[0] <= xx < r[2] && r[1] <= yy < r[3] implies #[trigger] opaque(image, gsx, gsy, xx, yy) by {
                    assert(hs[xx] == run(image, gsx, gsy, xx, y as int));
                    lemma_run_opaque(image, gsx, gsy, xx, y as int, yy);
                }
            }
            lemma_row_rects(image, gsx, gsy, hs, w as int, y as int, area as int);
            assert(rows_covered(image, gsx, gsy, w as int, y + 1, area as int)) by {
                assert forall|x0: int, y0: int, x1: int, y1: int|
                    0 <= x0 < x1 <= w && 0 <= y0 < y1 <= y + 1 && #[trigger] rect_opaque(image, gsx, gsy, x0, y0, x1, y1)
                    implies (x1 - x0) * (y1 - y0) <= area by {
                    if y1 <= y {
                        assert((x1 - x0) * (y1 - y0) <= area_before);
                    }
                }
            }
        }
        y += 1;
    }
    let pair_binary = binary && pair_edges_binary(image, region);
    proof {
        assert(binary == region_binary(image, region)) by {
            if binary {
                assert forall|xx: int, yy: int| 0 <= xx < region[2] && 0 <= yy < region[3] implies is_binary_alpha(
                    #[trigger] alpha_at(image, region[0] + xx, region[1] + yy),
                ) by {
                    assert(is_binary_alpha(alpha_at(image, gsx + xx, gsy + yy)));
                }
            } else if region_binary(image, region) {
                assert forall|xx: int, yy: int| 0 <= xx < w && 0 <= yy < h implies is_binary_alpha(
                    #[trigger] alpha_at(image, gsx + xx, gsy + yy),
                ) by {
                    assert(is_binary_alpha(alpha_at(image, region[0] + xx, region[1] + yy)));
                }
            }
        }
        if has_opaque_texel(image, region) {
            let (xx, yy) = choose|xx: int, yy: int|
                0 <= xx < region[2] && 0 <= yy < region[3] && #[trigger] opaque(image, region[0] as int, region[1] as int, xx, yy);
            assert(rect_opaque(image, gsx, gsy, xx, yy, xx + 1, yy + 1));
            assert((xx + 1 - xx) * (yy + 1 - yy) <= area);
            assert((xx + 1 - xx) * (yy + 1 - yy) == 1) by (nonlinear_arith);
            assert(best is Some);
        }
        if let Some(r) = best {
            assert(opaque(image, gsx, gsy, r[0] as int, r[1] as int));
            assert(0 <= r[0] < region[2] && 0 <= r[1] < region[3]);
            assert(opaque(image, region[0] as int, region[1] as int, r[0] as int, r[1] as int));
            assert(has_opaque_texel(image, region));
        }
    }
    AlphaShape { opaque: best, binary, pair_binary }
}

/// The alpha byte of texel `(x, y)`; its index is computed wide, so no coordinate overflows it.
fn texel_alpha(image: &ImageData, x: u32, y: u32) -> (alpha: Option<u8>)
    ensures
        alpha == alpha_at(image, x as int, y as int),
{
    assert((y as u64) * (image.width as u64) <= 0xffff_ffffu64 * 0xffff_ffffu64) by (nonlinear_arith)
        requires
            y <= 0xffff_ffffu64,
            image.width <= 0xffff_ffffu64,
    ;
    let len = image.pixels.len();
    let texel: u64 = (y as u64) * (image.width as u64) + x as u64;
    if texel > (u64::MAX - 3) / 4 {
        assert(texel * 4 + 3 > u64::MAX);
        return None;
    }
    let index: u64 = texel * 4 + 3;
    if index < len as u64 {
        read_alpha(image, index as usize)
    } else {
        None
    }
}

fn read_alpha(image: &ImageData, index: usize) -> (alpha: Option<u8>)
    ensures
        alpha == (if index < image.pixels@.len() { Some(image.pixels@[index as int]) } else { None::<u8> }),
{
    if index < image.pixels.len() {
        Some(image.pixels[index])
    } else {
        None
    }
}

} // verus!
