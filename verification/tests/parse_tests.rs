use levelmap::level::{LevelMap, MapError, ReaderMode};
use levelmap::num::{parse_fixed, parse_i32_token, parse_usize_token};

fn bytes(s: &str) -> Vec<u8> {
    s.as_bytes().to_vec()
}

fn parse(s: &str) -> Result<LevelMap, MapError> {
    LevelMap::new(String::from("test.map"), &bytes(s))
}

#[test]
fn round_trip_well_formed() {
    let src = "\
// a square room
[SECTORS]
0 0 4 0 3 -1 0
[WALLS]
0 4 0 0 0 -1 wall.png
1 4 4 4 0 -1 wall.png
2 0 4 4 4 -1 wall.png
3 0 0 0 4 -1 wall.png
";
    let m = parse(src).unwrap();
    assert_eq!(m.sectors.len(), 1);
    assert_eq!(m.walls.len(), 4);
    assert_eq!(m.wallmodels.len(), 0);
    let s = &m.sectors[0];
    assert_eq!(s.id, 0);
    assert_eq!(s.firstwall, 0);
    assert_eq!(s.nwalls, 4);
    assert_eq!(s.floor_height, 0);
    assert_eq!(s.ceil_height, 3000);
    assert_eq!(s.rot_wall_id, -1);
    assert_eq!(s.rot_wall_ang, 0);
    let w = &m.walls[0];
    assert_eq!(w.id, 0);
    assert_eq!(w.xstart, 4000);
    assert_eq!(w.zstart, 0);
    assert_eq!(w.xend, 0);
    assert_eq!(w.zend, 0);
    assert_eq!(w.portalid, -1);
    assert_eq!(w.tex, b"wall.png".to_vec());
    assert_eq!(m.walls[3].zend, 4000);
}

#[test]
fn fractional_fields_parse_exactly() {
    let src = "[SECTORS]\n7 2 3 -1.25 2.5 0 0.125\n";
    let m = parse(src).unwrap();
    let s = &m.sectors[0];
    assert_eq!(s.id, 7);
    assert_eq!(s.firstwall, 2);
    assert_eq!(s.nwalls, 3);
    assert_eq!(s.floor_height, -1250);
    assert_eq!(s.ceil_height, 2500);
    assert_eq!(s.rot_wall_ang, 125);
}

#[test]
fn comments_and_blanks_parse_empty() {
    let src = "// only comments here\n\n// and a blank line\n\n";
    let m = parse(src).unwrap();
    assert_eq!(m.sectors.len(), 0);
    assert_eq!(m.walls.len(), 0);
}

#[test]
fn empty_input_parses_empty() {
    let m = parse("").unwrap();
    assert_eq!(m.sectors.len(), 0);
    assert_eq!(m.walls.len(), 0);
}

#[test]
fn records_before_any_header_are_dropped() {
    let src = "0 0 4 0 3 -1 0\n9 9 9 9 9 9 9\n[SECTORS]\n1 0 4 0 3 -1 0\n";
    let m = parse(src).unwrap();
    assert_eq!(m.sectors.len(), 1);
    assert_eq!(m.sectors[0].id, 1);
    assert_eq!(m.walls.len(), 0);
}

#[test]
fn header_marker_anywhere_in_line_switches_section() {
    let src = "xx[WALLS]yy\n0 0 0 4 0 -1\n";
    let m = parse(src).unwrap();
    assert_eq!(m.walls.len(), 1);
    assert_eq!(m.walls[0].tex, Vec::<u8>::new());
}

#[test]
fn sectors_marker_wins_over_walls_marker() {
    let src = "[SECTORS][WALLS]\n0 0 0 0 0 0 0\n";
    let m = parse(src).unwrap();
    assert_eq!(m.sectors.len(), 1);
    assert_eq!(m.walls.len(), 0);
}

#[test]
fn crlf_line_endings_are_handled() {
    let src = "[SECTORS]\r\n0 0 4 0.5 3 -1 0\r\n";
    let m = parse(src).unwrap();
    assert_eq!(m.sectors.len(), 1);
    assert_eq!(m.sectors[0].floor_height, 500);
}

#[test]
fn malformed_sector_record_reports_line_and_counts() {
    let src = "// header comes next\n[SECTORS]\n0 0 4 0 3\n";
    let e = parse(src).unwrap_err();
    assert_eq!(
        e,
        MapError::MalformedRecord {
            line: 3,
            section: ReaderMode::SECTORS,
            expected: 7,
            actual: 5
        }
    );
}

#[test]
fn malformed_wall_record_reports_line_and_counts() {
    let src = "[WALLS]\n0 1 2\n";
    let e = parse(src).unwrap_err();
    assert_eq!(
        e,
        MapError::MalformedRecord {
            line: 2,
            section: ReaderMode::WALLS,
            expected: 6,
            actual: 3
        }
    );
}

#[test]
fn invalid_field_value_reports_position_and_raw_text() {
    let src = "[WALLS]\n0 abc 0 4 0 -1\n";
    let e = parse(src).unwrap_err();
    assert_eq!(
        e,
        MapError::InvalidFieldValue {
            line: 2,
            section: ReaderMode::WALLS,
            field: 1,
            raw: b"abc".to_vec()
        }
    );
}

#[test]
fn ceiling_below_floor_is_rejected() {
    let src = "[SECTORS]\n0 0 4 3 0 -1 0\n";
    let e = parse(src).unwrap_err();
    assert_eq!(
        e,
        MapError::InvalidSectorHeights { line: 2, floor_height: 3000, ceil_height: 0 }
    );
}

#[test]
fn whitespace_only_line_in_section_is_a_malformed_record() {
    let src = "[SECTORS]\n   \n";
    let e = parse(src).unwrap_err();
    assert_eq!(
        e,
        MapError::MalformedRecord {
            line: 2,
            section: ReaderMode::SECTORS,
            expected: 7,
            actual: 0
        }
    );
}

#[test]
fn extra_fields_are_ignored() {
    let src = "[SECTORS]\n0 0 4 0 3 -1 0 extra stuff\n";
    let m = parse(src).unwrap();
    assert_eq!(m.sectors.len(), 1);
    assert_eq!(m.sectors[0].ceil_height, 3000);
}

#[test]
fn wall_texture_field_is_optional() {
    let src = "[WALLS]\n0 0 0 4 0 -1\n1 0 0 4 4 -1 brick.png\n";
    let m = parse(src).unwrap();
    assert_eq!(m.walls[0].tex, Vec::<u8>::new());
    assert_eq!(m.walls[1].tex, b"brick.png".to_vec());
}

#[test]
fn parsing_stops_at_first_error() {
    let src = "[SECTORS]\n0 0 4 0 3 -1 0\nbad\n1 0 4 0 3 -1 0\n";
    let e = parse(src).unwrap_err();
    assert!(matches!(e, MapError::MalformedRecord { line: 3, .. }));
}

#[test]
fn fixed_point_token_grammar() {
    assert_eq!(parse_fixed(&b"1.5".to_vec()), Some(1500));
    assert_eq!(parse_fixed(&b"-0.125".to_vec()), Some(-125));
    assert_eq!(parse_fixed(&b"2".to_vec()), Some(2000));
    assert_eq!(parse_fixed(&b"0.05".to_vec()), Some(50));
    assert_eq!(parse_fixed(&b"1000000".to_vec()), Some(1_000_000_000));
    assert_eq!(parse_fixed(&b"-1000000".to_vec()), Some(-1_000_000_000));
    assert_eq!(parse_fixed(&b"1000001".to_vec()), None);
    assert_eq!(parse_fixed(&b"1.2345".to_vec()), None);
    assert_eq!(parse_fixed(&b"1.".to_vec()), None);
    assert_eq!(parse_fixed(&b".5".to_vec()), None);
    assert_eq!(parse_fixed(&b"".to_vec()), None);
    assert_eq!(parse_fixed(&b"-".to_vec()), None);
    assert_eq!(parse_fixed(&b"1.2.3".to_vec()), None);
}

#[test]
fn unsigned_token_bounds() {
    assert_eq!(parse_usize_token(&b"0".to_vec()), Some(0));
    assert_eq!(parse_usize_token(&b"18446744073709551615".to_vec()), Some(usize::MAX));
    assert_eq!(parse_usize_token(&b"18446744073709551616".to_vec()), None);
    assert_eq!(parse_usize_token(&b"-1".to_vec()), None);
    assert_eq!(parse_usize_token(&b"".to_vec()), None);
}

#[test]
fn signed_token_bounds() {
    assert_eq!(parse_i32_token(&b"-2147483648".to_vec()), Some(i32::MIN));
    assert_eq!(parse_i32_token(&b"2147483647".to_vec()), Some(i32::MAX));
    assert_eq!(parse_i32_token(&b"2147483648".to_vec()), None);
    assert_eq!(parse_i32_token(&b"-2147483649".to_vec()), None);
    assert_eq!(parse_i32_token(&b"--1".to_vec()), None);
}
