use vstd::prelude::*;
use crate::position::{Position, pos, fits};

verus! {

/// Whether the offset `(a, b, c)` lies in the closed ball of radius `r`.
pub open spec fn in_ball(a: int, b: int, c: int, r: int) -> bool {
    a * a + b * b + c * c <= r * r
}

/// Whether `(a, b, c)` is a surface cell of the ball: in it, with a face neighbour outside it.
pub open spec fn on_shell(a: int, b: int, c: int, r: int) -> bool {
    &&& in_ball(a, b, c, r)
    &&& {
        ||| !in_ball(a + 1, b, c, r)
        ||| !in_ball(a - 1, b, c, r)
        ||| !in_ball(a, b + 1, c, r)
        ||| !in_ball(a, b - 1, c, r)
        ||| !in_ball(a, b, c + 1, r)
        ||| !in_ball(a, b, c - 1, r)
    }
}

/// Whether a sphere of radius `r` holds the offset `(a, b, c)`: the whole ball when
/// `filled`, else its surface cells.
pub open spec fn sphere_keeps(filled: bool, a: int, b: int, c: int, r: int) -> bool {
    if filled { in_ball(a, b, c, r) } else { on_shell(a, b, c, r) }
}

/// The kept cells of the column at offsets `(dx, dy)`, for `dz` from `-r` through `-r + n - 1`.
pub open spec fn sphere_column(o: Position, r: int, filled: bool, dy: int, dx: int, n: int) -> Seq<Position>
    decreases n,
{
    if n <= 0 {
        seq![]
    } else {
        let dz = -r + n - 1;
        sphere_column(o, r, filled, dy, dx, n - 1) + if sphere_keeps(filled, dx, dy, dz, r) {
            seq![pos(o.x + dx, o.y + dy, o.z + dz)]
        } else {
            seq![]
        }
    }
}

/// The kept cells of layer `dy`, for `dx` from `-r` through `-r + m - 1`.
pub open spec fn sphere_layer(o: Position, r: int, filled: bool, dy: int, m: int) -> Seq<Position>
    decreases m,
{
    if m <= 0 {
        seq![]
    } else {
        sphere_layer(o, r, filled, dy, m - 1) + sphere_column(o, r, filled, dy, -r + m - 1, 2 * r + 1)
    }
}

/// The kept cells of the layers `dy` from `-r` through `-r + k - 1`.
pub open spec fn sphere_layers(o: Position, r: int, filled: bool, k: int) -> Seq<Position>
    decreases k,
{
    if k <= 0 {
        seq![]
    } else {
        sphere_layers(o, r, filled, k - 1) + sphere_layer(o, r, filled, -r + k - 1, 2 * r + 1)
    }
}

/// The cells of the sphere of radius `r` around `o`, layer by layer from the bottom.
pub open spec fn sphere_cells(r: int, filled: bool, o: Position) -> Seq<Position> {
    sphere_layers(o, r, filled, 2 * r + 1)
}

/// Whether the bounding cube of a sphere of `radius` around `o` fits in `i32`.
pub open spec fn sphere_fits(radius: int, o: Position) -> bool {
    &&& fits(o.x - radius) &&& fits(o.x + radius)
    &&& fits(o.y - radius) &&& fits(o.y + radius)
    &&& fits(o.z - radius) &&& fits(o.z + radius)
}

proof fn lemma_square_bound(a: int)
    requires
        -0x2_0000_0000 <= a <= 0x2_0000_0000,
    ensures
        0 <= a * a <= 0x4_0000_0000_0000_0000,
{
    assert(0 <= a * a <= 0x2_0000_0000 * 0x2_0000_0000) by (nonlinear_arith)
        requires -0x2_0000_0000 <= a <= 0x2_0000_0000;
}

fn ball_contains(a: i64, b: i64, c: i64, r: i64) -> (res: bool)
    requires
        -0x2_0000_0000 <= a <= 0x2_0000_0000,
        -0x2_0000_0000 <= b <= 0x2_0000_0000,
        -0x2_0000_0000 <= c <= 0x2_0000_0000,
        0 <= r <= 0x2_0000_0000,
    ensures
        res == in_ball(a as int, b as int, c as int, r as int),
{
    proof {
        lemma_square_bound(a as int);
        lemma_square_bound(b as int);
        lemma_square_bound(c as int);
        lemma_square_bound(r as int);
    }
    let (a, b, c, r) = (a as i128, b as i128, c as i128, r as i128);
    a * a + b * b + c * c <= r * r
}

fn keeps(filled: bool, a: i64, b: i64, c: i64, r: i64) -> (res: bool)
    requires
        -0x1_0000_0000 <= a <= 0x1_0000_0000,
        -0x1_0000_0000 <= b <= 0x1_0000_0000,
        -0x1_0000_0000 <= c <= 0x1_0000_0000,
        0 <= r <= 0x1_0000_0000,
    ensures
        res == sphere_keeps(filled, a as int, b as int, c as int, r as int),
{
    let inside = ball_contains(a, b, c, r);
    if filled || !inside {
        inside
    } else {
        !ball_contains(a + 1, b, c, r) || !ball_contains(a - 1, b, c, r)
            || !ball_contains(a, b + 1, c, r) || !ball_contains(a, b - 1, c, r)
            || !ball_contains(a, b, c + 1, r) || !ball_contains(a, b, c - 1, r)
    }
}

/// The cells of a sphere of `radius` around `origin`: with `filled` every cell whose offset
/// `(dx, dy, dz)` has `dx² + dy² + dz² <= radius²`, else those of them with a face neighbour
/// outside that ball. Layers go from `dy = -radius` up, and within one, `dx` then `dz` ascend.
pub fn sphere(radius: u32, filled: bool, origin: &Position) -> (r: Vec<Position>)
    requires
        sphere_fits(radius as int, *origin),
    ensures
        r@ == sphere_cells(radius as int, filled, *origin),
{
    let mut vecs: Vec<Position> = Vec::new();
    let rr: i64 = radius as i64;
    let n: i64 = 2 * rr + 1;
    let (ox, oy, oz) = (origin.x as i64, origin.y as i64, origin.z as i64);
    let mut k: i64 = 0;
    while k < n
        invariant
            0 <= k <= n, n == 2 * rr + 1, rr == radius,
            ox == origin.x, oy == origin.y, oz == origin.z,
            sphere_fits(radius as int, *origin),
            vecs@ == sphere_layers(*origin, rr as int, filled, k as int),
        decreases n - k,
    {
        let dy: i64 = k - rr;
        let ghost layer_start = vecs@;
        let mut m: i64 = 0;
        while m < n
            invariant
                0 <= k < n, 0 <= m <= n, n == 2 * rr + 1, rr == radius, dy == k - rr,
                ox == origin.x, oy == origin.y, oz == origin.z,
                sphere_fits(radius as int, *origin),
                vecs@ == layer_start + sphere_layer(*origin, rr as int, filled, dy as int, m as int),
            decreases n - m,
        {
            let dx: i64 = m - rr;
            let ghost col_start = vecs@;
            let mut j: i64 = 0;
            while j < n
                invariant
                    0 <= k < n, 0 <= m < n, 0 <= j <= n, n == 2 * rr + 1, rr == radius,
                    dy == k - rr, dx == m - rr,
                    ox == origin.x, oy == origin.y, oz == origin.z,
                    sphere_fits(radius as int, *origin),
                    vecs@ == col_start + sphere_column(*origin, rr as int, filled, dy as int, dx as int, j as int),
                decreases n - j,
            {
                let dz: i64 = j - rr;
                if keeps(filled, dx, dy, dz, rr) {
                    vecs.push(Position {
                        x: (ox + dx) as i32,
                        y: (oy + dy) as i32,
                        z: (oz + dz) as i32,
                    });
                }
                j = j + 1;
            }
            m = m + 1;
        }
        k = k + 1;
    }
    vecs
}

/// Spheres are functions of their arguments: equal arguments give equal cells.
pub proof fn lemma_sphere_deterministic(radius: u32, filled: bool, o1: Position, o2: Position)
    requires
        o1 == o2,
    ensures
        sphere_cells(radius as int, filled, o1) == sphere_cells(radius as int, filled, o2),
{
}

} // verus!
