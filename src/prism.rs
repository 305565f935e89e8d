use vstd::prelude::*;
use crate::position::{Position, pos, fits};

verus! {

/// The column `(o.x + a, o.y + c, o.z + b)` for `c` in `0..n`.
pub open spec fn column(o: Position, a: int, b: int, n: int) -> Seq<Position>
    decreases n,
{
    if n <= 0 {
        seq![]
    } else {
        column(o, a, b, n - 1) + seq![pos(o.x + a, o.y + n - 1, o.z + b)]
    }
}

/// The columns at `a` for `b` in `0..m`, each `yn` cells high.
pub open spec fn slab(o: Position, a: int, m: int, yn: int) -> Seq<Position>
    decreases m,
{
    if m <= 0 {
        seq![]
    } else {
        slab(o, a, m - 1, yn) + column(o, a, m - 1, yn)
    }
}

/// The slabs for `a` in `0..k`.
pub open spec fn block(o: Position, k: int, m: int, yn: int) -> Seq<Position>
    decreases k,
{
    if k <= 0 {
        seq![]
    } else {
        block(o, k - 1, m, yn) + slab(o, k - 1, m, yn)
    }
}

/// The cells of the solid box: `a` in `0..=x`, then `b` in `0..=z`, then `c` in `0..y`.
pub open spec fn rec_prism_cells(x: int, y: int, z: int, o: Position) -> Seq<Position> {
    block(o, x + 1, z + 1, y)
}

/// Whether the far corner of a non-empty box fits in `i32`.
pub open spec fn rec_prism_fits(x: int, y: int, z: int, o: Position) -> bool {
    (x >= 0 && y > 0 && z >= 0) ==> (fits(o.x + x) && fits(o.y + y - 1) && fits(o.z + z))
}

/// A solid box from `origin`: `x + 1` cells along x, `z + 1` along z and `y` layers high.
pub fn rec_prism(x: i32, y: i32, z: i32, origin: &Position) -> (r: Vec<Position>)
    requires
        rec_prism_fits(x as int, y as int, z as int, *origin),
    ensures
        r@ == rec_prism_cells(x as int, y as int, z as int, *origin),
{
    let mut vecs: Vec<Position> = Vec::new();
    let xn: i64 = x as i64 + 1;
    let zn: i64 = z as i64 + 1;
    let yn: i64 = y as i64;
    let mut a: i64 = 0;
    while a < xn
        invariant
            0 <= a <= xn || xn <= 0,
            xn <= 0 ==> a == 0,
            xn == x + 1,
            zn == z + 1,
            yn == y,
            rec_prism_fits(x as int, y as int, z as int, *origin),
            vecs@ == block(*origin, a as int, zn as int, yn as int),
        decreases xn - a,
    {
        let ghost before = vecs@;
        let mut b: i64 = 0;
        while b < zn
            invariant
                0 <= a < xn,
                0 <= b <= zn || zn <= 0,
                zn <= 0 ==> b == 0,
                xn == x + 1,
                zn == z + 1,
                yn == y,
                rec_prism_fits(x as int, y as int, z as int, *origin),
                vecs@ == before + slab(*origin, a as int, b as int, yn as int),
            decreases zn - b,
        {
            let ghost before_col = vecs@;
            let mut c: i64 = 0;
            while c < yn
                invariant
                    0 <= a < xn,
                    0 <= b < zn,
                    0 <= c <= yn || yn <= 0,
                    yn <= 0 ==> c == 0,
                    xn == x + 1,
                    zn == z + 1,
                    yn == y,
                    rec_prism_fits(x as int, y as int, z as int, *origin),
                    vecs@ == before_col + column(*origin, a as int, b as int, c as int),
                decreases yn - c,
            {
                vecs.push(Position {
                    x: (a + origin.x as i64) as i32,
                    y: (c + origin.y as i64) as i32,
                    z: (b + origin.z as i64) as i32,
                });
                c = c + 1;
            }
            b = b + 1;
        }
        a = a + 1;
    }
    vecs
}

} // verus!

verus! {

/// The two z-faces of wall layer `yi`: `(o.x + i, o.z)` and `(o.x + i, o.z + z)` for `i` in `0..n`.
pub open spec fn x_faces(o: Position, yi: int, z: int, n: int) -> Seq<Position>
    decreases n,
{
    if n <= 0 {
        seq![]
    } else {
        x_faces(o, yi, z, n - 1) + seq![
            pos(o.x + n - 1, o.y + yi, o.z as int),
            pos(o.x + n - 1, o.y + yi, o.z + z),
        ]
    }
}

/// The two x-faces of wall layer `yi`: `(o.x, o.z + i)` and `(o.x + x, o.z + i)` for `i` in `0..n`.
pub open spec fn z_faces(o: Position, yi: int, x: int, n: int) -> Seq<Position>
    decreases n,
{
    if n <= 0 {
        seq![]
    } else {
        z_faces(o, yi, x, n - 1) + seq![
            pos(o.x as int, o.y + yi, o.z + n - 1),
            pos(o.x + x, o.y + yi, o.z + n - 1),
        ]
    }
}

/// The wall layers `0..n` of a hollow box.
pub open spec fn walls(o: Position, x: int, z: int, n: int) -> Seq<Position>
    decreases n,
{
    if n <= 0 {
        seq![]
    } else {
        walls(o, x, z, n - 1) + x_faces(o, n - 1, z, x + 1) + z_faces(o, n - 1, x, z + 1)
    }
}

/// The floor and ceiling cells of row `a` for `b` in `0..n`.
pub open spec fn cap_row(o: Position, y: int, a: int, floor: bool, ceiling: bool, n: int) -> Seq<Position>
    decreases n,
{
    if n <= 0 {
        seq![]
    } else {
        cap_row(o, y, a, floor, ceiling, n - 1)
            + (if floor { seq![pos(o.x + n - 1, o.y as int, o.z + a)] } else { seq![] })
            + (if ceiling { seq![pos(o.x + n - 1, o.y + y - 1, o.z + a)] } else { seq![] })
    }
}

/// The cap rows `0..m`, each `x + 1` cells long.
pub open spec fn caps(o: Position, x: int, y: int, floor: bool, ceiling: bool, m: int) -> Seq<Position>
    decreases m,
{
    if m <= 0 {
        seq![]
    } else {
        caps(o, x, y, floor, ceiling, m - 1) + cap_row(o, y, m - 1, floor, ceiling, x + 1)
    }
}

/// The cells of the hollow box: its walls, then the requested floor and ceiling plates.
pub open spec fn hrec_prism_cells(x: int, y: int, z: int, floor: bool, ceiling: bool, o: Position) -> Seq<Position> {
    walls(o, x, z, y) + caps(o, x, y, floor, ceiling, z + 1)
}

/// Whether every cell that a hollow box emits fits in `i32`.
pub open spec fn hrec_prism_fits(x: int, y: int, z: int, floor: bool, ceiling: bool, o: Position) -> bool {
    let plates = (floor || ceiling) && x >= 0 && z >= 0;
    &&& (y > 0 || plates) ==> fits(o.x + x) && fits(o.z + z)
    &&& (y > 0 || (ceiling && x >= 0 && z >= 0)) ==> fits(o.y + y - 1)
}

fn push_cell(v: &mut Vec<Position>, x: i64, y: i64, z: i64)
    requires
        fits(x as int),
        fits(y as int),
        fits(z as int),
    ensures
        final(v)@ == old(v)@.push(pos(x as int, y as int, z as int)),
{
    v.push(Position { x: x as i32, y: y as i32, z: z as i32 });
}

/// A hollow box from `origin`: the walls of the `(x + 1) × (z + 1)` footprint on each of `y`
/// layers, then on request the floor plate at `origin.y` and the ceiling plate at `origin.y + y - 1`.
pub fn hrec_prism(x: i32, y: i32, z: i32, floor: bool, ceiling: bool, origin: &Position) -> (r: Vec<Position>)
    requires
        hrec_prism_fits(x as int, y as int, z as int, floor, ceiling, *origin),
    ensures
        r@ == hrec_prism_cells(x as int, y as int, z as int, floor, ceiling, *origin),
{
    let mut vecs: Vec<Position> = Vec::new();
    let (ox, oy, oz) = (origin.x as i64, origin.y as i64, origin.z as i64);
    let (xl, yl, zl) = (x as i64, y as i64, z as i64);
    let mut y_inc: i64 = 0;
    while y_inc < yl
        invariant
            0 <= y_inc <= yl || yl <= 0,
            yl <= 0 ==> y_inc == 0,
            ox == origin.x, oy == origin.y, oz == origin.z, xl == x, yl == y, zl == z,
            hrec_prism_fits(x as int, y as int, z as int, floor, ceiling, *origin),
            vecs@ == walls(*origin, x as int, z as int, y_inc as int),
        decreases yl - y_inc,
    {
        let ghost before = vecs@;
        let mut i: i64 = 0;
        while i < xl + 1
            invariant
                0 <= y_inc < yl,
                0 <= i <= xl + 1 || xl < 0,
                xl < 0 ==> i == 0,
                ox == origin.x, oy == origin.y, oz == origin.z, xl == x, yl == y, zl == z,
                hrec_prism_fits(x as int, y as int, z as int, floor, ceiling, *origin),
                vecs@ == before + x_faces(*origin, y_inc as int, z as int, i as int),
            decreases xl + 1 - i,
        {
            push_cell(&mut vecs, i + ox, y_inc + oy, oz);
            push_cell(&mut vecs, i + ox, y_inc + oy, zl + oz);
            i = i + 1;
        }
        let ghost mid = vecs@;
        let mut i: i64 = 0;
        while i < zl + 1
            invariant
                0 <= y_inc < yl,
                0 <= i <= zl + 1 || zl < 0,
                zl < 0 ==> i == 0,
                ox == origin.x, oy == origin.y, oz == origin.z, xl == x, yl == y, zl == z,
                hrec_prism_fits(x as int, y as int, z as int, floor, ceiling, *origin),
                vecs@ == mid + z_faces(*origin, y_inc as int, x as int, i as int),
            decreases zl + 1 - i,
        {
            push_cell(&mut vecs, ox, y_inc + oy, i + oz);
            push_cell(&mut vecs, xl + ox, y_inc + oy, i + oz);
            i = i + 1;
        }
        y_inc = y_inc + 1;
    }
    let ghost wall_cells = vecs@;
    if floor || ceiling {
        let mut a: i64 = 0;
        while a < zl + 1
            invariant
                0 <= a <= zl + 1 || zl < 0,
                zl < 0 ==> a == 0,
                floor || ceiling,
                ox == origin.x, oy == origin.y, oz == origin.z, xl == x, yl == y, zl == z,
                hrec_prism_fits(x as int, y as int, z as int, floor, ceiling, *origin),
                vecs@ == wall_cells + caps(*origin, x as int, y as int, floor, ceiling, a as int),
            decreases zl + 1 - a,
        {
            let ghost row_start = vecs@;
            let mut b: i64 = 0;
            while b < xl + 1
                invariant
                    0 <= a < zl + 1,
                    0 <= b <= xl + 1 || xl < 0,
                    xl < 0 ==> b == 0,
                    floor || ceiling,
                    ox == origin.x, oy == origin.y, oz == origin.z, xl == x, yl == y, zl == z,
                    hrec_prism_fits(x as int, y as int, z as int, floor, ceiling, *origin),
                    vecs@ == row_start + cap_row(*origin, y as int, a as int, floor, ceiling, b as int),
                decreases xl + 1 - b,
            {
                let ghost cell_start = vecs@;
                if floor {
                    push_cell(&mut vecs, b + ox, oy, a + oz);
                }
                if ceiling {
                    push_cell(&mut vecs, b + ox, yl + oy - 1, a + oz);
                }
                b = b + 1;
                assert(vecs@ == row_start + cap_row(*origin, y as int, a as int, floor, ceiling, b as int));
            }
            a = a + 1;
        }
    } else {
        assert(caps(*origin, x as int, y as int, false, false, z + 1) =~= seq![]) by {
            lemma_no_caps(*origin, x as int, y as int, z + 1);
        }
    }
    vecs
}

proof fn lemma_no_caps(o: Position, x: int, y: int, m: int)
    ensures
        caps(o, x, y, false, false, m) =~= seq![],
    decreases m,
{
    if m > 0 {
        lemma_no_caps(o, x, y, m - 1);
        lemma_no_cap_row(o, y, m - 1, x + 1);
    }
}

proof fn lemma_no_cap_row(o: Position, y: int, a: int, n: int)
    ensures
        cap_row(o, y, a, false, false, n) =~= seq![],
    decreases n,
{
    if n > 0 {
        lemma_no_cap_row(o, y, a, n - 1);
    }
}

} // verus!

verus! {

/// `n` when positive, else zero.
pub open spec fn clamp(n: int) -> int {
    if n > 0 { n } else { 0 }
}

proof fn lemma_column_len(o: Position, a: int, b: int, n: int)
    ensures
        column(o, a, b, n).len() == clamp(n),
    decreases n,
{
    if n > 0 {
        lemma_column_len(o, a, b, n - 1);
    }
}

proof fn lemma_slab_len(o: Position, a: int, m: int, yn: int)
    ensures
        slab(o, a, m, yn).len() == clamp(m) * clamp(yn),
    decreases m,
{
    if m > 0 {
        lemma_slab_len(o, a, m - 1, yn);
        lemma_column_len(o, a, m - 1, yn);
        assert(clamp(m - 1) * clamp(yn) + clamp(yn) == clamp(m) * clamp(yn)) by (nonlinear_arith)
            requires m > 0, clamp(m) == m, clamp(m - 1) == m - 1;
    }
}

proof fn lemma_block_len(o: Position, k: int, m: int, yn: int)
    ensures
        block(o, k, m, yn).len() == clamp(k) * (clamp(m) * clamp(yn)),
    decreases k,
{
    if k > 0 {
        lemma_block_len(o, k - 1, m, yn);
        lemma_slab_len(o, k - 1, m, yn);
        let s = clamp(m) * clamp(yn);
        assert(clamp(k - 1) * s + s == clamp(k) * s) by (nonlinear_arith)
            requires k > 0, clamp(k) == k, clamp(k - 1) == k - 1;
    }
}

/// A solid box holds `(x + 1) * (z + 1) * y` cells when `x >= 0`, `z >= 0` and `y > 0`, and
/// none when `y <= 0`.
pub proof fn lemma_rec_prism_count(x: i32, y: i32, z: i32, o: Position)
    ensures
        (x >= 0 && z >= 0 && y > 0) ==> rec_prism_cells(x as int, y as int, z as int, o).len()
            == (x + 1) * (z + 1) * y,
        y <= 0 ==> rec_prism_cells(x as int, y as int, z as int, o).len() == 0,
{
    lemma_block_len(o, x + 1, z + 1, y as int);
    assert(clamp(x + 1) * (clamp(z + 1) * clamp(y as int)) == if x >= 0 && z >= 0 && y > 0 {
        (x + 1) * (z + 1) * y
    } else if y <= 0 {
        0
    } else {
        clamp(x + 1) * (clamp(z + 1) * clamp(y as int))
    }) by (nonlinear_arith);
}

proof fn lemma_faces_layer(o: Position, yi: int, x: int, z: int, n: int)
    requires
        fits(o.y + yi),
    ensures
        forall|i: int| 0 <= i < x_faces(o, yi, z, n).len() ==> #[trigger] x_faces(o, yi, z, n)[i].y == o.y + yi,
        forall|i: int| 0 <= i < z_faces(o, yi, x, n).len() ==> #[trigger] z_faces(o, yi, x, n)[i].y == o.y + yi,
    decreases n,
{
    if n > 0 {
        lemma_faces_layer(o, yi, x, z, n - 1);
        let (px, sx) = (x_faces(o, yi, z, n - 1), x_faces(o, yi, z, n));
        assert forall|i: int| 0 <= i < sx.len() implies sx[i].y == o.y + yi by {
            if i < px.len() {
                assert(sx[i] == px[i]);
            }
        }
        let (pz, sz) = (z_faces(o, yi, x, n - 1), z_faces(o, yi, x, n));
        assert forall|i: int| 0 <= i < sz.len() implies sz[i].y == o.y + yi by {
            if i < pz.len() {
                assert(sz[i] == pz[i]);
            }
        }
    }
}

proof fn lemma_walls_layers(o: Position, x: int, z: int, n: int, top: int)
    requires
        n <= top,
        top > 0 ==> fits(o.y + top - 1),
    ensures
        forall|i: int| 0 <= i < walls(o, x, z, n).len() ==> o.y <= #[trigger] walls(o, x, z, n)[i].y < o.y + n,
    decreases n,
{
    if n > 0 {
        lemma_walls_layers(o, x, z, n - 1, top);
        lemma_faces_layer(o, n - 1, x, z, x + 1);
        lemma_faces_layer(o, n - 1, x, z, z + 1);
        let prev = walls(o, x, z, n - 1);
        let xf = x_faces(o, n - 1, z, x + 1);
        let zf = z_faces(o, n - 1, x, z + 1);
        let s = walls(o, x, z, n);
        assert(s == prev + xf + zf);
        assert forall|i: int| 0 <= i < s.len() implies o.y <= #[trigger] s[i].y < o.y + n by {
            if i < prev.len() {
                assert(s[i] == prev[i]);
            } else if i < prev.len() + xf.len() {
                assert(s[i] == xf[i - prev.len()]);
            } else {
                assert(s[i] == zf[i - prev.len() - xf.len()]);
            }
        }
    }
}

/// Without floor or ceiling, every cell of a hollow box lies in one of its wall layers,
/// `origin.y` through `origin.y + y - 1`.
pub proof fn lemma_hrec_prism_walls_only(x: i32, y: i32, z: i32, o: Position)
    requires
        hrec_prism_fits(x as int, y as int, z as int, false, false, o),
    ensures
        forall|i: int| 0 <= i < hrec_prism_cells(x as int, y as int, z as int, false, false, o).len()
            ==> o.y <= #[trigger] hrec_prism_cells(x as int, y as int, z as int, false, false, o)[i].y < o.y + y,
{
    lemma_no_caps(o, x as int, y as int, z + 1);
    lemma_walls_layers(o, x as int, z as int, y as int, y as int);
    assert(hrec_prism_cells(x as int, y as int, z as int, false, false, o) =~= walls(o, x as int, z as int, y as int));
}

/// Whether `s` alternates between the floor layer and the ceiling layer, starting with the floor.
pub open spec fn alternates(s: Seq<Position>, o: Position, y: int) -> bool {
    forall|j: int| 0 <= j < s.len() ==> (#[trigger] s[j]).y == if j % 2 == 0 { o.y as int } else { o.y + y - 1 }
}

proof fn lemma_cap_row_plates(o: Position, y: int, a: int, n: int)
    requires
        fits(o.y + y - 1),
    ensures
        cap_row(o, y, a, true, true, n).len() == 2 * clamp(n),
        alternates(cap_row(o, y, a, true, true, n), o, y),
    decreases n,
{
    if n > 0 {
        lemma_cap_row_plates(o, y, a, n - 1);
        let prev = cap_row(o, y, a, true, true, n - 1);
        let s = cap_row(o, y, a, true, true, n);
        assert forall|j: int| 0 <= j < s.len() implies (#[trigger] s[j]).y == if j % 2 == 0 { o.y as int } else { o.y + y - 1 } by {
            if j < prev.len() {
                assert(s[j] == prev[j]);
            }
        }
    }
}

proof fn lemma_caps_plates(o: Position, x: int, y: int, m: int)
    requires
        fits(o.y + y - 1),
    ensures
        caps(o, x, y, true, true, m).len() == 2 * (clamp(m) * clamp(x + 1)),
        alternates(caps(o, x, y, true, true, m), o, y),
    decreases m,
{
    if m > 0 {
        lemma_caps_plates(o, x, y, m - 1);
        lemma_cap_row_plates(o, y, m - 1, x + 1);
        let prev = caps(o, x, y, true, true, m - 1);
        let row = cap_row(o, y, m - 1, true, true, x + 1);
        let s = caps(o, x, y, true, true, m);
        let q = clamp(m - 1) * clamp(x + 1);
        assert(q + clamp(x + 1) == clamp(m) * clamp(x + 1)) by (nonlinear_arith)
            requires q == clamp(m - 1) * clamp(x + 1), m > 0, clamp(m) == m, clamp(m - 1) == m - 1;
        assert forall|j: int| 0 <= j < s.len() implies (#[trigger] s[j]).y == if j % 2 == 0 { o.y as int } else { o.y + y - 1 } by {
            if j < prev.len() {
                assert(s[j] == prev[j]);
            } else {
                assert(s[j] == row[j - 2 * q]);
                assert((j - 2 * q) % 2 == j % 2);
            }
        }
    }
}

/// With floor and ceiling, a hollow box is its walls followed by `2 * (x + 1) * (z + 1)` plate
/// cells, which alternate between the floor layer `origin.y` and the ceiling layer
/// `origin.y + y - 1`: `(x + 1) * (z + 1)` in each. The two layers differ unless `y == 1`.
pub proof fn lemma_hrec_prism_plates(x: i32, y: i32, z: i32, o: Position)
    requires
        hrec_prism_fits(x as int, y as int, z as int, true, true, o),
        x >= 0,
        z >= 0,
    ensures
        hrec_prism_cells(x as int, y as int, z as int, true, true, o)
            == walls(o, x as int, z as int, y as int) + caps(o, x as int, y as int, true, true, z + 1),
        caps(o, x as int, y as int, true, true, z + 1).len() == 2 * ((x + 1) * (z + 1)),
        alternates(caps(o, x as int, y as int, true, true, z + 1), o, y as int),
        y != 1 ==> o.y != o.y + y - 1,
{
    lemma_caps_plates(o, x as int, y as int, z + 1);
    assert((z + 1) * (x + 1) == (x + 1) * (z + 1)) by (nonlinear_arith);
}

/// Boxes are functions of their arguments: equal arguments give equal cells.
pub proof fn lemma_prisms_deterministic(x: i32, y: i32, z: i32, floor: bool, ceiling: bool, o1: Position, o2: Position)
    requires
        o1 == o2,
    ensures
        rec_prism_cells(x as int, y as int, z as int, o1) == rec_prism_cells(x as int, y as int, z as int, o2),
        hrec_prism_cells(x as int, y as int, z as int, floor, ceiling, o1)
            == hrec_prism_cells(x as int, y as int, z as int, floor, ceiling, o2),
{
}

} // verus!
