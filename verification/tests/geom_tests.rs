use levelmap::geom::{generate_wall_primitives, isqrt, yaw_millidegrees, Point2};
use levelmap::level::{LevelMap, MapError};

fn bytes(s: &str) -> Vec<u8> {
    s.as_bytes().to_vec()
}

fn parse(s: &str) -> LevelMap {
    LevelMap::new(String::from("test.map"), &bytes(s)).unwrap()
}

/// A unit-square room: four walls wound so that interior points sit on the
/// non-positive side of every wall.
const SQUARE: &str = "\
[SECTORS]
0 0 4 0 3 -1 0
[WALLS]
0 4 0 0 0 -1 a.png
1 4 4 4 0 -1 b.png
2 0 4 4 4 -1 c.png
3 0 0 0 4 -1 d.png
";

#[test]
fn concrete_wall_primitive() {
    let src = "[SECTORS]\n0 0 1 0 3 -1 0\n[WALLS]\n0 0 0 4 0 -1 tex.png\n";
    let mut m = parse(src);
    m.gen_wallmods().unwrap();
    assert_eq!(m.wallmodels.len(), 1);
    let p = &m.wallmodels[0];
    assert_eq!(p.center_x, 2000);
    assert_eq!(p.center_y, 1500);
    assert_eq!(p.center_z, 0);
    assert_eq!(p.height, 3000);
    assert_eq!(p.length, 4000);
    assert_eq!(p.yaw, 0);
    assert_eq!(p.tex, b"tex.png".to_vec());
}

#[test]
fn vertical_wall_yaw_is_ninety_degrees() {
    let src = "[SECTORS]\n0 0 2 0 3 -1 0\n[WALLS]\n0 2 0 2 5 -1 t\n1 2 5 2 0 -1 t\n";
    let mut m = parse(src);
    m.gen_wallmods().unwrap();
    assert_eq!(m.wallmodels.len(), 2);
    assert_eq!(m.wallmodels[0].yaw, 90000);
    assert_eq!(m.wallmodels[1].yaw, -90000);
    assert_eq!(m.wallmodels[0].length, 5000);
    assert_eq!(m.wallmodels[0].center_x, 2000);
    assert_eq!(m.wallmodels[0].center_z, 2500);
}

#[test]
fn diagonal_wall_yaw_is_forty_five_degrees() {
    assert_eq!(yaw_millidegrees(1000, 1000), 45000);
    assert_eq!(yaw_millidegrees(-1000, -1000), 45000);
    assert_eq!(yaw_millidegrees(1000, -1000), -45000);
    assert_eq!(yaw_millidegrees(-1000, 1000), -45000);
    assert_eq!(yaw_millidegrees(4000, 0), 0);
    assert_eq!(yaw_millidegrees(-4000, 0), 0);
}

#[test]
fn yaw_stays_within_ninety_degrees() {
    let mut dx = -5000i64;
    while dx <= 5000 {
        let mut dz = -5000i64;
        while dz <= 5000 {
            if dx != 0 || dz != 0 {
                let y = yaw_millidegrees(dx, dz);
                assert!(-90000 <= y && y <= 90000);
            }
            dz += 1250;
        }
        dx += 1250;
    }
}

#[test]
fn portal_walls_are_excluded() {
    let src = "[SECTORS]\n0 0 3 0 3 -1 0\n[WALLS]\n0 4 0 0 0 -1 a\n1 4 4 4 0 2 b\n2 0 4 4 4 -1 c\n";
    let mut m = parse(src);
    m.gen_wallmods().unwrap();
    assert_eq!(m.wallmodels.len(), 2);
    // The portal wall's midpoint (4, 2) appears in no primitive.
    for p in &m.wallmodels {
        assert!(!(p.center_x == 4000 && p.center_z == 2000));
    }
    assert_eq!(m.wallmodels[0].tex, b"a".to_vec());
    assert_eq!(m.wallmodels[1].tex, b"c".to_vec());
}

#[test]
fn point_in_square_centroid_and_far_point() {
    let m = parse(SQUARE);
    assert!(m.p_is_in_sector(&Point2 { x: 2000, z: 2000 }));
    assert!(!m.p_is_in_sector(&Point2 { x: 10000, z: 10000 }));
    assert_eq!(m.sector_contains_point(0, &Point2 { x: 2000, z: 2000 }), Some(true));
    assert_eq!(m.sector_contains_point(0, &Point2 { x: 10000, z: 10000 }), Some(false));
    assert_eq!(m.sector_contains_point(1, &Point2 { x: 2000, z: 2000 }), None);
}

#[test]
fn generation_is_idempotent() {
    let mut m = parse(SQUARE);
    m.gen_wallmods().unwrap();
    let first = m.wallmodels.clone();
    m.gen_wallmods().unwrap();
    assert_eq!(m.wallmodels, first);
    let a = generate_wall_primitives(&m.sectors, &m.walls).unwrap();
    let b = generate_wall_primitives(&m.sectors, &m.walls).unwrap();
    assert_eq!(a, b);
    assert_eq!(a, first);
}

#[test]
fn wall_range_out_of_bounds_aborts_generation() {
    let src = "[SECTORS]\n0 0 5 0 3 -1 0\n[WALLS]\n0 4 0 0 0 -1 a\n1 4 4 4 0 -1 b\n";
    let mut m = parse(src);
    let e = m.gen_wallmods().unwrap_err();
    assert_eq!(
        e,
        MapError::SectorWallRangeOutOfBounds { sector: 0, firstwall: 0, nwalls: 5, wall_total: 2 }
    );
    assert_eq!(m.wallmodels.len(), 0);
    // The parsed data survives the failed pass untouched.
    assert_eq!(m.sectors.len(), 1);
    assert_eq!(m.walls.len(), 2);
}

#[test]
fn degenerate_solid_wall_aborts_generation() {
    let src = "[SECTORS]\n0 0 2 0 3 -1 0\n[WALLS]\n0 4 0 0 0 -1 a\n7 1 1 1 1 -1 b\n";
    let mut m = parse(src);
    let e = m.gen_wallmods().unwrap_err();
    assert_eq!(e, MapError::DegenerateWall { wall: 1, id: 7 });
    assert_eq!(m.wallmodels.len(), 0);
}

#[test]
fn degenerate_portal_wall_is_skipped_not_an_error() {
    let src = "[SECTORS]\n0 0 2 0 3 -1 0\n[WALLS]\n0 4 0 0 0 -1 a\n7 1 1 1 1 3 b\n";
    let mut m = parse(src);
    m.gen_wallmods().unwrap();
    assert_eq!(m.wallmodels.len(), 1);
}

#[test]
fn midpoints_round_toward_negative_infinity() {
    let src = "[SECTORS]\n0 0 1 0 0.001 -1 0\n[WALLS]\n0 0 0 0.001 0.002 -1 t\n";
    let mut m = parse(src);
    m.gen_wallmods().unwrap();
    let p = &m.wallmodels[0];
    assert_eq!(p.center_x, 0); // (0 + 1) / 2 thousandths, floored
    assert_eq!(p.center_z, 1);
    assert_eq!(p.center_y, 0);
    assert_eq!(p.height, 1);
}

#[test]
fn length_is_floor_of_euclidean_distance() {
    let src = "[SECTORS]\n0 0 2 0 3 -1 0\n[WALLS]\n0 0 0 3 4 -1 t\n1 0 0 1 1 -1 t\n";
    let mut m = parse(src);
    m.gen_wallmods().unwrap();
    assert_eq!(m.wallmodels[0].length, 5000);
    assert_eq!(m.wallmodels[1].length, 1414); // floor(1000 * sqrt(2))
}

#[test]
fn integer_square_root_windows() {
    assert_eq!(isqrt(0), 0);
    assert_eq!(isqrt(1), 1);
    assert_eq!(isqrt(15), 3);
    assert_eq!(isqrt(16), 4);
    assert_eq!(isqrt(2_000_000), 1414);
    assert_eq!(isqrt(u64::MAX), 4_294_967_295);
}

#[test]
fn empty_map_generates_no_primitives() {
    let mut m = parse("[SECTORS]\n[WALLS]\n");
    m.gen_wallmods().unwrap();
    assert_eq!(m.wallmodels.len(), 0);
}
