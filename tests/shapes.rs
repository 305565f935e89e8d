use block_shapes::{circle, cyl, hrec_prism, rec_prism, sphere, Position};

fn p(x: i32, y: i32, z: i32) -> Position {
    Position::new(x, y, z)
}

#[test]
fn circle_radius_three_ring() {
    let cells = circle(3, false, &p(0, 0, 0));
    for c in [p(0, 0, 3), p(3, 0, 0), p(0, 0, -3), p(-3, 0, 0)] {
        assert!(cells.contains(&c));
    }
    // The midpoint steps for radius 3 are (0, 3), (1, 3) and (2, 2): the diagonal cell is drawn.
    assert!(cells.contains(&p(2, 0, 2)));
    assert!(!cells.contains(&p(3, 0, 3)));
    assert_eq!(cells.len(), 24);
    for c in &cells {
        assert_eq!(c.y, 0);
        assert!(c.x.abs() <= 3 && c.z.abs() <= 3);
    }
}

#[test]
fn circle_radius_zero_is_origin() {
    let o = p(5, -2, 7);
    for filled in [false, true] {
        let cells = circle(0, filled, &o);
        assert!(!cells.is_empty());
        assert!(cells.iter().all(|c| *c == o));
    }
}

#[test]
fn circle_filled_adds_spans() {
    let o = p(10, 4, -10);
    let ring = circle(2, false, &o);
    let disk = circle(2, true, &o);
    // Steps (0, 2) and (1, 2): each adds its ring and the spans at dz = 1 and dz = 0.
    assert_eq!(ring.len(), 16);
    assert_eq!(disk.len(), 24);
    assert_eq!(disk[8..12], [p(10, 4, -9), p(10, 4, -9), p(10, 4, -10), p(10, 4, -10)]);
    assert!(ring.iter().all(|c| disk.contains(c)));
    assert!(disk.contains(&p(11, 4, -9)) && disk.contains(&p(9, 4, -10)));
    assert!(disk.iter().all(|c| c.y == 4 && (c.x - 10).abs() <= 2 && (c.z + 10).abs() <= 2));
    assert_eq!(circle(1, true, &o).len(), 8);
}

#[test]
fn cyl_stacks_circles() {
    let o = p(1, 2, 3);
    let cells = cyl(2, 3, true, &o);
    let mut expected = Vec::new();
    for i in 0..3 {
        expected.extend(circle(2, true, &p(1, 2 + i, 3)));
    }
    assert_eq!(cells, expected);
    assert!(cyl(2, 0, false, &o).is_empty());
    assert_eq!(cyl(0, 3, false, &o).len(), 24);
}

#[test]
fn rec_prism_unit() {
    let cells = rec_prism(1, 1, 1, &p(0, 0, 0));
    assert_eq!(cells, vec![p(0, 0, 0), p(0, 0, 1), p(1, 0, 0), p(1, 0, 1)]);
}

#[test]
fn rec_prism_counts() {
    assert_eq!(rec_prism(2, 3, 4, &p(-5, 6, 7)).len(), 3 * 5 * 3);
    assert!(rec_prism(2, 0, 4, &p(0, 0, 0)).is_empty());
    assert!(rec_prism(2, -1, 4, &p(0, 0, 0)).is_empty());
    assert!(rec_prism(-1, 3, 4, &p(0, 0, 0)).is_empty());
    assert_eq!(rec_prism(0, 1, 0, &p(9, 9, 9)), vec![p(9, 9, 9)]);
}

#[test]
fn hrec_prism_walls_only() {
    let cells = hrec_prism(1, 2, 1, false, false, &p(0, 10, 0));
    assert_eq!(cells.len(), 16);
    assert!(cells.iter().all(|c| c.y == 10 || c.y == 11));
}

#[test]
fn hrec_prism_with_caps() {
    let o = p(0, 10, 0);
    let walls = hrec_prism(2, 3, 1, false, false, &o);
    let cells = hrec_prism(2, 3, 1, true, true, &o);
    assert_eq!(cells.len(), walls.len() + 2 * 3 * 2);
    assert_eq!(cells[..walls.len()], walls[..]);
    let plates = &cells[walls.len()..];
    assert_eq!(plates.iter().filter(|c| c.y == 10).count(), 6);
    assert_eq!(plates.iter().filter(|c| c.y == 12).count(), 6);
    let floor_only = hrec_prism(2, 3, 1, true, false, &o);
    assert_eq!(floor_only.len(), walls.len() + 6);
    assert_eq!(floor_only[walls.len()], p(0, 10, 0));
}

#[test]
fn sphere_small() {
    let o = p(0, 0, 0);
    assert_eq!(sphere(0, false, &o), vec![o]);
    assert_eq!(sphere(0, true, &o), vec![o]);
    assert_eq!(sphere(1, true, &o).len(), 7);
    let shell = sphere(1, false, &o);
    assert_eq!(shell.len(), 6);
    assert!(!shell.contains(&o));
}

#[test]
fn sphere_membership() {
    let o = p(3, -4, 5);
    let r = 4i32;
    let ball = sphere(4, true, &o);
    let shell = sphere(4, false, &o);
    for dx in -r..=r {
        for dy in -r..=r {
            for dz in -r..=r {
                let c = p(3 + dx, -4 + dy, 5 + dz);
                let inside = |a: i32, b: i32, d: i32| a * a + b * b + d * d <= r * r;
                assert_eq!(ball.contains(&c), inside(dx, dy, dz));
                let surface = inside(dx, dy, dz)
                    && !(inside(dx + 1, dy, dz) && inside(dx - 1, dy, dz) && inside(dx, dy + 1, dz)
                        && inside(dx, dy - 1, dz) && inside(dx, dy, dz + 1) && inside(dx, dy, dz - 1));
                assert_eq!(shell.contains(&c), surface);
            }
        }
    }
}

#[test]
fn generators_are_deterministic() {
    let o = p(1, 1, 1);
    assert_eq!(circle(5, true, &o), circle(5, true, &o));
    assert_eq!(cyl(3, 2, false, &o), cyl(3, 2, false, &o));
    assert_eq!(rec_prism(2, 2, 2, &o), rec_prism(2, 2, 2, &o));
    assert_eq!(hrec_prism(2, 2, 2, true, true, &o), hrec_prism(2, 2, 2, true, true, &o));
    assert_eq!(sphere(3, false, &o), sphere(3, false, &o));
}
