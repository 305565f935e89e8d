use vstd::prelude::*;
use crate::position::{Position, pos, fits};

verus! {

/// The eight cells `(±a, ±b)` and `(±b, ±a)` around `o`, in the order they are emitted.
pub open spec fn ring(o: Position, a: int, b: int) -> Seq<Position> {
    seq![
        pos(o.x + a, o.y as int, o.z + b), pos(o.x + a, o.y as int, o.z - b),
        pos(o.x + b, o.y as int, o.z + a), pos(o.x + b, o.y as int, o.z - a),
        pos(o.x - b, o.y as int, o.z + a), pos(o.x - b, o.y as int, o.z - a),
        pos(o.x - a, o.y as int, o.z + b), pos(o.x - a, o.y as int, o.z - b),
    ]
}

/// The fill pairs `(o.x + a, o.z + b - i)`, `(o.x - a, o.z + b - i)` for `i` in `1..n`.
pub open spec fn fill_run(o: Position, a: int, b: int, n: int) -> Seq<Position>
    decreases n,
{
    if n <= 1 {
        seq![]
    } else {
        fill_run(o, a, b, n - 1) + seq![
            pos(o.x + a, o.y as int, o.z + b - (n - 1)),
            pos(o.x - a, o.y as int, o.z + b - (n - 1)),
        ]
    }
}

/// What one step of the midpoint algorithm at offsets `(x, z)` emits.
pub open spec fn step_cells(o: Position, filled: bool, x: int, z: int) -> Seq<Position> {
    if filled {
        ring(o, x, z) + fill_run(o, x, z, 2 * z - 1) + fill_run(o, z, x, 2 * x - 1)
    } else {
        ring(o, x, z)
    }
}

/// The cells emitted from state `(x, z, d)` of the midpoint algorithm onwards.
pub open spec fn circle_from(o: Position, filled: bool, x: int, z: int, d: int) -> Seq<Position>
    decreases z - x + 2,
{
    if z < x {
        seq![]
    } else if d > 0 {
        step_cells(o, filled, x, z) + circle_from(
            o, filled, x + 1, z - 1, d + 4 * ((x + 1) - (z - 1)) + 10)
    } else {
        step_cells(o, filled, x, z) + circle_from(o, filled, x + 1, z, d + 4 * (x + 1) + 6)
    }
}

/// The cells of the midpoint circle of `radius` around `o`, in the plane `y == o.y`.
pub open spec fn circle_cells(radius: int, filled: bool, o: Position) -> Seq<Position> {
    circle_from(o, filled, 0, radius, 3 - 2 * radius)
}

/// Whether every cell of a circle of `radius` around `o` has coordinates that fit in `i32`.
pub open spec fn circle_fits(radius: int, o: Position) -> bool {
    &&& fits(o.x - radius)
    &&& fits(o.x + radius)
    &&& fits(o.z - radius)
    &&& fits(o.z + radius)
}

/// The midpoint decision value as a function of the state.
pub open spec fn decision_of(r: int, x: int, z: int) -> int {
    2 * (x * x) + 2 * (z * z) + 8 * x - 6 * z - 2 * (r * r) + 4 * r + 3
}

proof fn lemma_decision_step(r: int, x: int, z: int, down: bool)
    ensures
        down ==> decision_of(r, x, z) + 4 * ((x + 1) - (z - 1)) + 10 == decision_of(r, x + 1, z - 1),
        !down ==> decision_of(r, x, z) + 4 * (x + 1) + 6 == decision_of(r, x + 1, z),
{
    assert((x + 1) * (x + 1) == x * x + 2 * x + 1) by (nonlinear_arith);
    assert((z - 1) * (z - 1) == z * z - 2 * z + 1) by (nonlinear_arith);
}

proof fn lemma_decision_bounded(r: int, x: int, z: int)
    requires
        0 <= x <= r + 1,
        -1 <= z <= r,
        0 <= r <= 0x1_0000_0000,
    ensures
        -0x1_0000_0000_0000_0000_0000 <= decision_of(r, x, z) <= 0x1_0000_0000_0000_0000_0000,
{
    let xx = x * x;
    let zz = z * z;
    let rsq = r * r;
    assert(0 <= xx <= 0x1_0000_0001 * 0x1_0000_0001) by (nonlinear_arith)
        requires xx == x * x, 0 <= x <= r + 1, r <= 0x1_0000_0000;
    assert(0 <= zz <= 0x1_0000_0001 * 0x1_0000_0001) by (nonlinear_arith)
        requires zz == z * z, -1 <= z <= r, r <= 0x1_0000_0000;
    assert(0 <= rsq <= 0x1_0000_0001 * 0x1_0000_0001) by (nonlinear_arith)
        requires rsq == r * r, 0 <= r <= 0x1_0000_0000;
    assert(decision_of(r, x, z) == 2 * xx + 2 * zz + 8 * x - 6 * z - 2 * rsq + 4 * r + 3);
}

fn push_ring(v: &mut Vec<Position>, o: &Position, a: i32, b: i32)
    requires
        0 <= a,
        0 <= b,
        fits(o.x - a),
        fits(o.x + a),
        fits(o.z - a),
        fits(o.z + a),
        fits(o.x - b),
        fits(o.x + b),
        fits(o.z - b),
        fits(o.z + b),
    ensures
        final(v)@ == old(v)@ + ring(*o, a as int, b as int),
{
    v.push(Position { x: o.x + a, y: o.y, z: o.z + b });
    v.push(Position { x: o.x + a, y: o.y, z: o.z - b });
    v.push(Position { x: o.x + b, y: o.y, z: o.z + a });
    v.push(Position { x: o.x + b, y: o.y, z: o.z - a });
    v.push(Position { x: o.x - b, y: o.y, z: o.z + a });
    v.push(Position { x: o.x - b, y: o.y, z: o.z - a });
    v.push(Position { x: o.x - a, y: o.y, z: o.z + b });
    v.push(Position { x: o.x - a, y: o.y, z: o.z - b });
}

fn push_fill_run(v: &mut Vec<Position>, o: &Position, a: i32, b: i32)
    requires
        0 <= a,
        0 <= b,
        fits(o.x - a),
        fits(o.x + a),
        fits(o.z - b),
        fits(o.z + b),
    ensures
        final(v)@ == old(v)@ + fill_run(*o, a as int, b as int, 2 * b - 1),
{
    let n: i64 = 2 * (b as i64) - 1;
    let mut i: i64 = 1;
    while i < n
        invariant
            1 <= i,
            n == 2 * b - 1,
            i <= n || n < 1,
            n < 1 ==> i == 1,
            0 <= a,
            0 <= b,
            fits(o.x - a),
            fits(o.x + a),
            fits(o.z - b),
            fits(o.z + b),
            v@ == old(v)@ + fill_run(*o, a as int, b as int, i as int),
        decreases n - i,
    {
        let zc: i32 = (o.z as i64 + b as i64 - i) as i32;
        v.push(Position { x: o.x + a, y: o.y, z: zc });
        v.push(Position { x: o.x - a, y: o.y, z: zc });
        i = i + 1;
        assert(fill_run(*o, a as int, b as int, i as int) == fill_run(*o, a as int, b as int, i - 1)
            + seq![pos(o.x + a, o.y as int, o.z + b - (i - 1)), pos(o.x - a, o.y as int, o.z + b - (i - 1))]);
        assert(v@ == old(v)@ + fill_run(*o, a as int, b as int, i as int));
    }
    assert(fill_run(*o, a as int, b as int, i as int) == fill_run(*o, a as int, b as int, 2 * b - 1));
}

/// The cells of a circle of `radius` around `origin` in the plane `y == origin.y`, drawn with
/// the midpoint algorithm: the ring alone, or with `filled` the whole disk.
pub fn circle(radius: u32, filled: bool, origin: &Position) -> (r: Vec<Position>)
    requires
        circle_fits(radius as int, *origin),
    ensures
        r@ == circle_cells(radius as int, filled, *origin),
{
    let ghost rr: int = radius as int;
    let mut vecs: Vec<Position> = Vec::new();
    let mut x_diff: i64 = 0;
    let mut z_diff: i64 = radius as i64;
    let mut decision: i128 = 3 - 2 * (radius as i128);
    while z_diff >= x_diff
        invariant
            circle_fits(rr, *origin),
            rr == radius,
            0 <= x_diff <= rr + 1,
            -1 <= z_diff <= rr,
            z_diff >= x_diff - 2,
            decision == decision_of(rr, x_diff as int, z_diff as int),
            vecs@ + circle_from(*origin, filled, x_diff as int, z_diff as int, decision as int)
                == circle_cells(rr, filled, *origin),
        decreases z_diff - x_diff + 2,
    {
        let ghost before = vecs@;
        let ghost (x0, z0, d0) = (x_diff as int, z_diff as int, decision as int);
        let xs: i32 = x_diff as i32;
        let zs: i32 = z_diff as i32;
        push_ring(&mut vecs, origin, xs, zs);
        if filled {
            push_fill_run(&mut vecs, origin, xs, zs);
            push_fill_run(&mut vecs, origin, zs, xs);
        }
        assert(vecs@ == before + step_cells(*origin, filled, x0, z0));
        x_diff = x_diff + 1;
        let xi = x_diff as i128;
        if decision > 0 {
            z_diff = z_diff - 1;
            proof {
                lemma_decision_step(rr, x0, z0, true);
                lemma_decision_bounded(rr, x_diff as int, z_diff as int);
            }
            decision = decision + 4 * (xi - z_diff as i128) + 10;
        } else {
            proof {
                lemma_decision_step(rr, x0, z0, false);
                lemma_decision_bounded(rr, x_diff as int, z_diff as int);
            }
            decision = decision + 4 * xi + 6;
        }
    }
    assert(circle_from(*origin, filled, x_diff as int, z_diff as int, decision as int) == Seq::<Position>::empty());
    assert(vecs@ == vecs@ + Seq::<Position>::empty());
    vecs
}

} // verus!

verus! {

/// The layers `circle(radius, filled, o + (0, i, 0))` for `i` in `0..h`, concatenated.
pub open spec fn cyl_cells(radius: int, filled: bool, o: Position, h: int) -> Seq<Position>
    decreases h,
{
    if h <= 0 {
        seq![]
    } else {
        cyl_cells(radius, filled, o, h - 1) + circle_cells(
            radius, filled, pos(o.x as int, o.y + h - 1, o.z as int))
    }
}

/// A cylinder of `height` layers: the circle of `radius` around `origin` moved up by each
/// `i` in `0..height`, one layer after another.
pub fn cyl(radius: u32, height: u32, filled: bool, origin: &Position) -> (r: Vec<Position>)
    requires
        circle_fits(radius as int, *origin),
        height > 0 ==> fits(origin.y + height - 1),
    ensures
        r@ == cyl_cells(radius as int, filled, *origin, height as int),
{
    let mut vecs: Vec<Position> = Vec::new();
    let mut i: u32 = 0;
    while i < height
        invariant
            i <= height,
            circle_fits(radius as int, *origin),
            height > 0 ==> fits(origin.y + height - 1),
            vecs@ == cyl_cells(radius as int, filled, *origin, i as int),
        decreases height - i,
    {
        let layer = Position { x: origin.x, y: (origin.y as i64 + i as i64) as i32, z: origin.z };
        let mut c = circle(radius, filled, &layer);
        vecs.append(&mut c);
        i = i + 1;
    }
    vecs
}

} // verus!

verus! {

/// Whether `p` lies in the plane of `o`, within `r` of it along x and along z.
pub open spec fn within_square(p: Position, o: Position, r: int) -> bool {
    &&& p.y == o.y
    &&& o.x - r <= p.x <= o.x + r
    &&& o.z - r <= p.z <= o.z + r
}

proof fn lemma_fill_run_within(o: Position, a: int, b: int, n: int, r: int)
    requires
        0 <= a <= r,
        0 <= b <= r,
        n <= 2 * b - 1,
        circle_fits(r, o),
    ensures
        forall|i: int| 0 <= i < fill_run(o, a, b, n).len() ==> within_square(#[trigger] fill_run(o, a, b, n)[i], o, r),
    decreases n,
{
    if n > 1 {
        lemma_fill_run_within(o, a, b, n - 1, r);
        let prev = fill_run(o, a, b, n - 1);
        let s = fill_run(o, a, b, n);
        assert forall|i: int| 0 <= i < s.len() implies within_square(s[i], o, r) by {
            if i < prev.len() {
                assert(s[i] == prev[i]);
            }
        }
    }
}

proof fn lemma_circle_from_within(o: Position, filled: bool, x: int, z: int, d: int, r: int)
    requires
        0 <= x,
        z <= r,
        circle_fits(r, o),
    ensures
        forall|i: int| 0 <= i < circle_from(o, filled, x, z, d).len()
            ==> within_square(#[trigger] circle_from(o, filled, x, z, d)[i], o, r),
    decreases z - x + 2,
{
    if z >= x {
        lemma_fill_run_within(o, x, z, 2 * z - 1, r);
        lemma_fill_run_within(o, z, x, 2 * x - 1, r);
        let s = step_cells(o, filled, x, z);
        assert forall|i: int| 0 <= i < s.len() implies within_square(s[i], o, r) by {
            if filled {
                let f1 = fill_run(o, x, z, 2 * z - 1);
                let f2 = fill_run(o, z, x, 2 * x - 1);
                if i >= 8 + f1.len() {
                    assert(s[i] == f2[i - 8 - f1.len()]);
                } else if i >= 8 {
                    assert(s[i] == f1[i - 8]);
                }
            }
        }
        let (z1, d1) = if d > 0 {
            (z - 1, d + 4 * ((x + 1) - (z - 1)) + 10)
        } else {
            (z, d + 4 * (x + 1) + 6)
        };
        lemma_circle_from_within(o, filled, x + 1, z1, d1, r);
        let rest = circle_from(o, filled, x + 1, z1, d1);
        let all = circle_from(o, filled, x, z, d);
        assert(all == s + rest);
        assert forall|i: int| 0 <= i < all.len() implies within_square(all[i], o, r) by {
            if i >= s.len() {
                assert(all[i] == rest[i - s.len()]);
            } else {
                assert(all[i] == s[i]);
            }
        }
    }
}

/// Every cell of a circle, filled or not, lies in the plane of its center and within `radius`
/// of the center along x and along z.
pub proof fn lemma_circle_within_radius(radius: u32, filled: bool, o: Position)
    requires
        circle_fits(radius as int, o),
    ensures
        forall|i: int| 0 <= i < circle_cells(radius as int, filled, o).len()
            ==> within_square(#[trigger] circle_cells(radius as int, filled, o)[i], o, radius as int),
{
    lemma_circle_from_within(o, filled, 0, radius as int, 3 - 2 * radius, radius as int);
}

/// Whether the `k`-th group of eight cells of `s` is the symmetric ring at some offsets
/// `0 <= a <= b <= r`.
pub open spec fn symmetric_group(s: Seq<Position>, o: Position, r: int, k: int) -> bool {
    exists|a: int, b: int| 0 <= a <= b <= r && #[trigger] ring(o, a, b) == s.subrange(8 * k, 8 * k + 8)
}

proof fn lemma_circle_from_groups(o: Position, x: int, z: int, d: int, r: int)
    requires
        0 <= x,
        z <= r,
    ensures
        circle_from(o, false, x, z, d).len() % 8 == 0,
        forall|k: int| 0 <= k < circle_from(o, false, x, z, d).len() / 8
            ==> #[trigger] symmetric_group(circle_from(o, false, x, z, d), o, r, k),
    decreases z - x + 2,
{
    if z >= x {
        let (z1, d1) = if d > 0 {
            (z - 1, d + 4 * ((x + 1) - (z - 1)) + 10)
        } else {
            (z, d + 4 * (x + 1) + 6)
        };
        lemma_circle_from_groups(o, x + 1, z1, d1, r);
        let rest = circle_from(o, false, x + 1, z1, d1);
        let all = circle_from(o, false, x, z, d);
        assert(all == ring(o, x, z) + rest);
        assert forall|k: int| 0 <= k < all.len() / 8 implies #[trigger] symmetric_group(all, o, r, k) by {
            if k == 0 {
                assert(ring(o, x, z) =~= all.subrange(0, 8));
            } else {
                assert(symmetric_group(rest, o, r, k - 1));
                let (a, b) = choose|a: int, b: int| 0 <= a <= b <= r
                    && #[trigger] ring(o, a, b) == rest.subrange(8 * (k - 1), 8 * (k - 1) + 8);
                assert(rest.subrange(8 * (k - 1), 8 * (k - 1) + 8) =~= all.subrange(8 * k, 8 * k + 8));
            }
        }
    }
}

/// An unfilled circle is a run of groups of eight cells, each the eight mirror images
/// `(±a, ±b)`, `(±b, ±a)` of one offset with `0 <= a <= b <= radius`.
pub proof fn lemma_circle_ring_symmetric(radius: u32, o: Position)
    ensures
        circle_cells(radius as int, false, o).len() % 8 == 0,
        forall|k: int| 0 <= k < circle_cells(radius as int, false, o).len() / 8
            ==> #[trigger] symmetric_group(circle_cells(radius as int, false, o), o, radius as int, k),
{
    lemma_circle_from_groups(o, 0, radius as int, 3 - 2 * radius, radius as int);
}

/// A circle of radius zero is not empty, and each of its cells is the center.
pub proof fn lemma_circle_radius_zero(filled: bool, o: Position)
    ensures
        circle_cells(0, filled, o).len() > 0,
        forall|i: int| 0 <= i < circle_cells(0, filled, o).len() ==> #[trigger] circle_cells(0, filled, o)[i] == o,
{
    assert(circle_from(o, filled, 1, -1, 21int) =~= seq![]);
    assert(fill_run(o, 0, 0, -1) =~= seq![]);
    assert(pos(o.x as int, o.y as int, o.z as int) == o);
    assert(circle_cells(0, filled, o) =~= ring(o, 0, 0));
}

/// A cylinder of height zero is empty, and one of height `h + 1` is the cylinder of height `h`
/// followed by the circle moved up by `h`.
pub proof fn lemma_cyl_layers(radius: u32, h: u32, filled: bool, o: Position)
    ensures
        cyl_cells(radius as int, filled, o, 0) == Seq::<Position>::empty(),
        cyl_cells(radius as int, filled, o, h + 1) == cyl_cells(radius as int, filled, o, h as int)
            + circle_cells(radius as int, filled, pos(o.x as int, o.y + h, o.z as int)),
{
}

/// Circles and cylinders are functions of their arguments: equal arguments give equal cells.
pub proof fn lemma_circle_cyl_deterministic(radius: u32, height: u32, filled: bool, o1: Position, o2: Position)
    requires
        o1 == o2,
    ensures
        circle_cells(radius as int, filled, o1) == circle_cells(radius as int, filled, o2),
        cyl_cells(radius as int, filled, o1, height as int) == cyl_cells(radius as int, filled, o2, height as int),
{
}

} // verus!
