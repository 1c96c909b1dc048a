use grbl_driver::gcode::{parse, GCodeParser};
use grbl_driver::geometry::{
    blend, floor_div, integer_sqrt, point_distance, radii_within_tolerance, swizzle, unswizzle,
    MotionPlane, Vec2, Vec3,
};
use grbl_driver::simulation::{
    gcode_to_path_segments, ArcMove, GcodeProgram, LoadErrorKind, Motion, MotionPoint, MotionType,
};
use grbl_driver::toolpath::{time_path, trace};

fn point(m: &Motion) -> MotionPoint {
    match m {
        Motion::Point(p) => *p,
        Motion::Arc(_) => panic!("expected a point"),
    }
}

fn v(x: i64, y: i64, z: i64) -> Vec3 {
    Vec3 { x, y, z }
}

fn arcs_of(steps: &[Motion]) -> Vec<ArcMove> {
    steps
        .iter()
        .filter_map(|m| match m {
            Motion::Arc(a) => Some(*a),
            Motion::Point(_) => None,
        })
        .collect()
}

/// Cuts an arc into segments of no more than a tenth of a unit, and gives
/// the points between them in the plane of the arc.
fn cut(arc: &ArcMove) -> Vec<Vec2> {
    let unit = |c: i64| c as f64 / 1e6;
    let s = swizzle(arc.start, arc.plane);
    let o = swizzle(arc.offset, arc.plane);
    let e = swizzle(arc.end, arc.plane);
    let (cx, cy) = (unit(s.x) + unit(o.x), unit(s.y) + unit(o.y));
    let (ax, ay) = (-unit(o.x), -unit(o.y));
    let (bx, by) = (unit(e.x) - cx, unit(e.y) - cy);
    let dir = if arc.clockwise { -1.0 } else { 1.0 };
    let mut angle = dir * (ax * by - ay * bx).atan2(ax * bx + ay * by);
    if angle < 0.0 {
        angle += 2.0 * std::f64::consts::PI;
    }
    let total = 2.0 * std::f64::consts::PI * (unit(arc.turns) - 1.0) + angle;
    let n = ((ax * ax + ay * ay).sqrt() * total / 0.1).ceil();
    assert!(n >= 1.0 && n < 1e6);
    (1..n as usize)
        .map(|k| {
            let (sin, cos) = (dir * total / n * k as f64).sin_cos();
            Vec2 {
                x: ((cx + cos * ax - sin * ay) * 1e6).round() as i64,
                y: ((cy + sin * ax + cos * ay) * 1e6).round() as i64,
            }
        })
        .collect()
}

#[test]
fn word_with_fraction() {
    let words = GCodeParser::line(b"G92.1").unwrap();
    assert_eq!(words.len(), 1);
    assert_eq!(words[0].letter, 'G');
    assert_eq!(words[0].major, 92);
    assert_eq!(words[0].minor, 1);
    assert_eq!(words[0].value, 92_100_000);
}

#[test]
fn word_without_fraction_has_minor_zero() {
    let words = GCodeParser::line(b"x-10 y+2.50").unwrap();
    assert_eq!(words.len(), 2);
    assert_eq!(words[0].letter, 'X');
    assert_eq!(words[0].minor, 0);
    assert_eq!(words[0].frac_digits, 0);
    assert_eq!(words[0].value, -10_000_000);
    assert!(words[0].negative);
    assert_eq!(words[1].letter, 'Y');
    assert_eq!(words[1].major, 2);
    assert_eq!(words[1].minor, 50);
    assert_eq!(words[1].frac_digits, 2);
    assert_eq!(words[1].value, 2_500_000);
}

#[test]
fn malformed_line_is_named() {
    assert_eq!(parse("G1 X1\nG1 X\nG1 Y2\n").err(), Some(1));
    assert!(GCodeParser::line(b"G1 X1.").is_none());
    assert!(GCodeParser::line(b"G1 (comment)").is_none());
    assert!(GCodeParser::line(b"G99999999999").is_none());
}

#[test]
fn lines_and_lookups() {
    let lines = parse("G90\nG1 X10 Y0 F100\n").unwrap();
    assert_eq!(lines.len(), 2);
    assert_eq!(lines[1].line, b"G1 X10 Y0 F100".to_vec());
    assert_eq!(lines[1].mnemonic(), 'G');
    assert_eq!(lines[1].major(), 1);
    assert_eq!(lines[1].minor(), 0);
    assert_eq!(lines[1].value_for('F'), Some(100_000_000));
    assert_eq!(lines[1].value_for('Z'), None);
}

#[test]
fn linear_move_ends_at_its_target() {
    let path = gcode_to_path_segments("G90\nG1 X10 Y0 F100\n").unwrap();
    assert_eq!(point(&path[0]).pos, v(0, 0, 0));
    assert_eq!(point(&path[path.len() - 1]).pos, v(10_000_000, 0, 0));
    assert_eq!(path.len(), 7);
    assert_eq!(point(&path[4]).pos, v(250_000, 0, 0));
    assert_eq!(point(&path[5]).pos, v(9_750_000, 0, 0));
    assert_eq!(point(&path[6]).ty, MotionType::Linear);
    assert_eq!(point(&path[1]).ty, MotionType::Rapid);
}

#[test]
fn relative_moves_add_up() {
    let path = gcode_to_path_segments("G91 G1 X1.5 Y-2\nX1.5 Z3\n").unwrap();
    assert_eq!(point(&path[3]).pos, v(1_500_000, -2_000_000, 0));
    assert_eq!(point(&path[6]).pos, v(3_000_000, -2_000_000, 3_000_000));
}

#[test]
fn homing_raises_then_travels() {
    let path = gcode_to_path_segments("G28\n").unwrap();
    assert_eq!(point(&path[1]).pos, v(0, 0, 100_000_000));
    assert_eq!(point(&path[1]).ty, MotionType::Rapid);
    assert_eq!(point(&path[2]).pos, v(100_000_000, 100_000_000, 100_000_000));
    assert_eq!(point(&path[5]).pos, v(100_000_000, 100_000_000, 100_000_000));
}

#[test]
fn unimplemented_codes_fail() {
    for text in ["G20\n", "G41\n", "G42 D1\n", "G1 X1\nG28.1\n", "G38.2\n", "G49\n", "G53\n", "G80\n", "G91.1\n", "G43.1\n", "G30.1\n"] {
        let e = gcode_to_path_segments(text).err().unwrap();
        assert_eq!(e.kind, LoadErrorKind::Unimplemented);
    }
    assert_eq!(gcode_to_path_segments("G1 X1\nG28.1\n").err().unwrap().line, 1);
    assert!(gcode_to_path_segments("G21\nG40\nG54\nG41.1\nM3 S1000\n").is_ok());
}

#[test]
fn arc_is_kept_exact() {
    let path = gcode_to_path_segments("G90\nG17\nG2 X10 Y0 I5 J0\n").unwrap();
    let arc = match path[path.len() - 1] {
        Motion::Arc(a) => a,
        Motion::Point(_) => panic!("expected an arc"),
    };
    assert_eq!(arc.line, 2);
    assert_eq!(arc.plane, MotionPlane::XY);
    assert!(arc.clockwise);
    assert_eq!(arc.start, v(0, 0, 0));
    assert_eq!(arc.end, v(10_000_000, 0, 0));
    assert_eq!(arc.offset, v(5_000_000, 0, 0));
    assert_eq!(arc.turns, 1_000_000);
}

#[test]
fn arc_radius_mismatch_fails() {
    let e = gcode_to_path_segments("G2 X10 Y0 I4 J0\n").err().unwrap();
    assert_eq!(e.kind, LoadErrorKind::ArcRadius);
    assert_eq!(e.line, 0);
    assert!(gcode_to_path_segments("G3 X10 Y0 I5.004 J0\n").is_ok());
    assert!(gcode_to_path_segments("G3 X10 Y0 I5.006 J0\n").is_err());
}

#[test]
fn semicircle_is_traced_and_timed() {
    let text = "G90\nG17\nG2 X10 Y0 I5 J0\n";
    let steps = gcode_to_path_segments(text).unwrap();
    let inside: Vec<Vec<Vec2>> = arcs_of(&steps).iter().map(cut).collect();
    assert_eq!(inside.len(), 1);
    assert_eq!(inside[0].len(), 157);
    let program = GcodeProgram::load(String::from("part.nc"), String::from(text), &inside).unwrap();
    let path = &program.motionpath;
    assert_eq!(path.len(), 7 + 158);
    assert_eq!(path[0].pos, v(0, 0, 0));
    assert_eq!(path[0].time, 0);
    assert_eq!(path[path.len() - 1].pos, v(10_000_000, 0, 0));
    for w in path[6..].windows(2) {
        let (a, b) = (w[0].pos, w[1].pos);
        assert!(b.x >= a.x && b.y >= 0 && b.z == 0);
        let radius = (((b.x - 5_000_000) as f64).powi(2) + (b.y as f64).powi(2)).sqrt();
        assert!((radius - 5_000_000.0).abs() < 10_000.0);
        let chord = (((b.x - a.x) as f64).powi(2) + ((b.y - a.y) as f64).powi(2)).sqrt();
        assert!(chord <= 100_001.0);
        assert_eq!(w[1].ty, MotionType::Linear);
    }
    assert_eq!(path[6 + 79].pos, v(5_000_000, 5_000_000, 0));
    for w in path.windows(2) {
        assert!(w[0].time <= w[1].time);
    }
    let whole = path[path.len() - 1].time - path[6].time;
    assert!((39_250..=39_280).contains(&whole));
}

#[test]
fn times_divide_the_way_by_the_speed() {
    let program =
        GcodeProgram::load(String::from("a"), String::from("G1 X3 Y4\n"), &Vec::new()).unwrap();
    let path = &program.motionpath;
    assert_eq!(path[0].time, 0);
    assert_eq!(path[3].pos, v(3_000_000, 4_000_000, 0));
    assert_eq!(path[3].time, 12_500);
    assert_eq!(program.program, "G1 X3 Y4\n");
    assert_eq!(program.filepath, "a");
}

#[test]
fn arc_without_inside_points_is_one_segment() {
    let steps = gcode_to_path_segments("G3 X0 Y0.1 I0 J0.05\n").unwrap();
    let path = trace(&steps, &Vec::new()).unwrap();
    assert_eq!(path.len(), 2);
    assert_eq!(path[1].pos, v(0, 100_000, 0));
    assert_eq!(path[1].ty, MotionType::Linear);
    let steps = gcode_to_path_segments("G3 X0 Y10 I0 J5\n").unwrap();
    assert_eq!(trace(&steps, &Vec::new()).err().unwrap().kind, LoadErrorKind::LongSegment);
}

#[test]
fn helix_is_spread_over_the_segments_and_taken_out_of_the_plane() {
    let steps = gcode_to_path_segments("G18\nG2 X10 Y3 Z0 I5 K0\n").unwrap();
    let arc = arcs_of(&steps)[0];
    assert_eq!(arc.plane, MotionPlane::XZ);
    let inside = vec![cut(&arc)];
    let n = inside[0].len() as i64 + 1;
    assert_eq!(n, 158);
    let path = trace(&steps, &inside).unwrap();
    assert_eq!(path.len(), 4 + 158);
    for k in 0..157 {
        let p = path[4 + k].pos;
        assert_eq!(p.y, 3_000_000 * (k as i64 + 1) / n);
        assert_eq!(p.x, inside[0][k].y);
        assert_eq!(p.z, inside[0][k].x);
    }
    assert_eq!(path[4].pos.y, 18_987);
    assert_eq!(path[4 + 78].pos, v(5_000_000, 1_500_000, -5_000_000));
    assert_eq!(path[4 + 157].pos, v(10_000_000, 3_000_000, 0));
}

#[test]
fn arcs_of_too_many_segments_or_beyond_the_limit_fail() {
    let steps = gcode_to_path_segments("G1 X1\nG2 X1.1 Y0 I0.05 J0\n").unwrap();
    let many = vec![vec![Vec2 { x: 1_000_000, y: 0 }; 999_999]];
    let e = trace(&steps, &many).err().unwrap();
    assert_eq!(e.kind, LoadErrorKind::ArcSegments);
    assert_eq!(e.line, 1);
    let most = vec![vec![Vec2 { x: 1_000_000, y: 0 }; 999_998]];
    assert_eq!(trace(&steps, &most).unwrap().len(), 4 + 999_999);
    let far = vec![vec![Vec2 { x: 1_000_000_000_000_000_001, y: 0 }]];
    assert_eq!(trace(&steps, &far).err().unwrap().kind, LoadErrorKind::OutOfRange);
}

#[test]
fn points_off_the_circle_or_too_far_apart_fail() {
    let steps = gcode_to_path_segments("G2 X0.1 Y0 I0.05 J0\n").unwrap();
    let on = vec![vec![Vec2 { x: 50_000, y: 59_999 }]];
    assert_eq!(trace(&steps, &on).unwrap().len(), 3);
    let off = vec![vec![Vec2 { x: 50_000, y: 50_000 }, Vec2 { x: 50_000, y: 60_000 }]];
    let e = trace(&steps, &off).err().unwrap();
    assert_eq!(e.kind, LoadErrorKind::OffArc);
    assert_eq!(e.line, 0);
    let steps = gcode_to_path_segments("G2 X10 Y0 I5 J0\n").unwrap();
    let apart = vec![vec![Vec2 { x: 5_000_000, y: 5_000_000 }]];
    assert_eq!(trace(&steps, &apart).err().unwrap().kind, LoadErrorKind::LongSegment);
    let mut gap = cut(&arcs_of(&steps)[0]);
    assert!(trace(&steps, &vec![gap.clone()]).is_ok());
    gap.remove(100);
    assert_eq!(trace(&steps, &vec![gap]).err().unwrap().kind, LoadErrorKind::LongSegment);
}

#[test]
fn moves_beyond_the_limit_fail() {
    let mut text = String::from("G91\n");
    for _ in 0..300 {
        text.push_str("G1 X4000000000\n");
    }
    let e = gcode_to_path_segments(&text).err().unwrap();
    assert_eq!(e.kind, LoadErrorKind::OutOfRange);
    assert_eq!(e.line, 251);
}

#[test]
fn planes_swap_axes_and_back() {
    let p = v(1, 2, 3);
    assert_eq!(swizzle(p, MotionPlane::XY), v(1, 2, 3));
    assert_eq!(swizzle(p, MotionPlane::XZ), v(3, 1, 2));
    assert_eq!(swizzle(p, MotionPlane::YZ), v(2, 3, 1));
    for plane in [MotionPlane::XY, MotionPlane::XZ, MotionPlane::YZ] {
        assert_eq!(unswizzle(swizzle(p, plane), plane), p);
        assert_eq!(swizzle(unswizzle(p, plane), plane), p);
    }
}

#[test]
fn integer_arithmetic() {
    assert_eq!(integer_sqrt(0), 0);
    assert_eq!(integer_sqrt(24), 4);
    assert_eq!(integer_sqrt(25), 5);
    assert_eq!(integer_sqrt(u128::MAX), u64::MAX as u128);
    assert_eq!(point_distance(v(0, 0, 0), v(2_000_000, 3_000_000, 6_000_000)), 7_000_000);
    assert_eq!(floor_div(7, 2), 3);
    assert_eq!(floor_div(-7, 2), -4);
    assert_eq!(floor_div(-8, 2), -4);
    assert_eq!(blend(0, 1000), 25);
    assert_eq!(blend(1000, 0), 975);
    assert_eq!(blend(0, -1), -1);
    assert_eq!(blend(-1000, 0), -975);
}

#[test]
fn radius_test_is_exact_at_the_tolerance() {
    let r: u128 = 5_000_000;
    assert!(radii_within_tolerance(r * r, (r + 9_999) * (r + 9_999)));
    assert!(!radii_within_tolerance(r * r, (r + 10_000) * (r + 10_000)));
    assert!(radii_within_tolerance((r + 9_999) * (r + 9_999), r * r));
    assert!(!radii_within_tolerance((r + 10_000) * (r + 10_000), r * r));
    assert!(radii_within_tolerance(0, 9_999 * 9_999));
    assert!(!radii_within_tolerance(0, 10_000 * 10_000));
}

#[test]
fn times_never_decrease() {
    let points: Vec<MotionPoint> = [v(0, 0, 0), v(400, 0, 0), v(400, 0, 0), v(0, 0, -300)]
        .iter()
        .map(|p| MotionPoint { ty: MotionType::Rapid, pos: *p, time: 99 })
        .collect();
    let timed = time_path(&points);
    let times: Vec<u128> = timed.iter().map(|p| p.time).collect();
    assert_eq!(times, vec![0, 1, 1, 2]);
    assert_eq!(timed[3].ty, MotionType::Rapid);
    assert_eq!(MotionPoint::default().pos, v(0, 0, 0));
    assert_eq!(MotionPoint::default().ty, MotionType::Linear);
}

#[test]
fn value_is_cut_off_below_a_millionth() {
    let words = GCodeParser::line(b"X1.2345678 Y-0.0000019 Z00.50").unwrap();
    assert_eq!(words[0].value, 1_234_567);
    assert_eq!(words[0].minor, 2_345_678);
    assert_eq!(words[0].frac_digits, 7);
    assert_eq!(words[1].value, -1);
    assert_eq!(words[1].minor, 19);
    assert!(words[1].negative);
    assert_eq!(words[2].value, 500_000);
    assert_eq!(words[2].major, 0);
    assert_eq!(words[2].minor, 50);
    let tiny = GCodeParser::line(b"X0.000000000000000000000001").unwrap();
    assert_eq!(tiny[0].value, 0);
    assert_eq!(tiny[0].frac_digits, 24);
    assert_eq!(tiny[0].minor, 1);
}

#[test]
fn word_value_is_major_plus_minor_over_power_of_ten() {
    for text in ["G92.1", "X10", "Y-3.25", "Z+0.125", "F1500.000001", "S4294967295.999999"] {
        let w = GCodeParser::word(text.as_bytes(), 0).unwrap().0;
        let scale = 10i128.pow(w.frac_digits as u32);
        let digits = (w.major as i128 * scale + w.minor as i128) * 1_000_000;
        assert_eq!((w.value as i128).abs() * scale, digits);
        assert_eq!(w.value < 0, w.negative);
    }
}

#[test]
fn blanks_case_and_line_ends() {
    let lines = parse("g1x1y2\r\n\r\n  G0\tZ5  \nM3S1000").unwrap();
    assert_eq!(lines.len(), 4);
    assert_eq!(lines[0].words.len(), 3);
    assert_eq!(lines[0].words[0].letter, 'G');
    assert_eq!(lines[0].value_for('Y'), Some(2_000_000));
    assert_eq!(lines[0].line, b"g1x1y2\r".to_vec());
    assert!(lines[1].words.is_empty());
    assert_eq!(lines[2].words.len(), 2);
    assert_eq!(lines[3].words.len(), 2);
    assert_eq!(lines[3].value_for('S'), Some(1_000_000_000));
    assert_eq!(parse("").unwrap().len(), 0);
    assert_eq!(parse("\n").unwrap().len(), 1);
    assert_eq!(parse("G0").unwrap().len(), 1);
    assert_eq!(parse("G0\n").unwrap().len(), 1);
    assert_eq!(parse("G0\n\n").unwrap().len(), 2);
}

#[test]
fn first_word_with_a_letter_wins() {
    let lines = parse("G1 X1 X2 G90").unwrap();
    assert_eq!(lines[0].value_for('X'), Some(1_000_000));
    assert_eq!(lines[0].value_for('G'), Some(1_000_000));
}

#[test]
fn malformed_numbers_are_refused() {
    for text in ["X", "X.5", "X1.", "X-", "X--1", "1", "XY1", "X4294967296", "X0.4294967296", "X 1", "#1"] {
        assert!(GCodeParser::line(text.as_bytes()).is_none(), "{}", text);
    }
    assert!(GCodeParser::line(b"X4294967295.4294967295").is_some());
    assert_eq!(parse("G1 X1\nG1 \u{e9}\n").err(), Some(1));
}

#[test]
fn empty_program_is_the_origin_alone() {
    let path = gcode_to_path_segments("").unwrap();
    assert_eq!(path.len(), 1);
    assert_eq!(point(&path[0]), MotionPoint { ty: MotionType::Linear, pos: v(0, 0, 0), time: 0 });
    let path = gcode_to_path_segments("\n").unwrap();
    assert_eq!(path.len(), 4);
    assert_eq!(point(&path[3]).ty, MotionType::Rapid);
}

#[test]
fn modal_state_lasts_across_lines() {
    let path = gcode_to_path_segments("G1 X1\nY1\nG91\nX1\nG90 G0\nX0").unwrap();
    assert_eq!(path.len(), 19);
    assert_eq!(point(&path[6]).pos, v(1_000_000, 1_000_000, 0));
    assert_eq!(point(&path[6]).ty, MotionType::Linear);
    assert_eq!(point(&path[12]).pos, v(2_000_000, 1_000_000, 0));
    assert_eq!(point(&path[15]).ty, MotionType::Rapid);
    assert_eq!(point(&path[18]).pos, v(0, 1_000_000, 0));
    assert_eq!(point(&path[18]).ty, MotionType::Rapid);
}

#[test]
fn words_of_a_line_apply_before_its_move() {
    let path = gcode_to_path_segments("X5 G91 G1\nX5 G90\n").unwrap();
    assert_eq!(point(&path[3]).pos, v(5_000_000, 0, 0));
    assert_eq!(point(&path[3]).ty, MotionType::Linear);
    assert_eq!(point(&path[6]).pos, v(5_000_000, 0, 0));
}

#[test]
fn arcs_in_every_plane() {
    for (text, plane) in [
        ("G17 G3 X0 Y10 I0 J5", MotionPlane::XY),
        ("G18 G3 X0 Z10 I0 K5", MotionPlane::XZ),
        ("G19 G3 Y0 Z10 J0 K5", MotionPlane::YZ),
    ] {
        let path = gcode_to_path_segments(text).unwrap();
        match path[path.len() - 1] {
            Motion::Arc(a) => {
                assert_eq!(a.plane, plane);
                assert!(!a.clockwise);
            }
            Motion::Point(_) => panic!("expected an arc"),
        }
    }
    assert!(gcode_to_path_segments("G19 G3 X0 Y10 I5 J0").is_err());
    let turns = gcode_to_path_segments("G2 X0 Y0 I5 P3").unwrap();
    match turns[1] {
        Motion::Arc(a) => assert_eq!(a.turns, 3_000_000),
        Motion::Point(_) => panic!("expected an arc"),
    }
}

#[test]
fn same_text_gives_the_same_path() {
    let text = "G90\nG17\nG2 X10 Y0 I5 J0\nG1 Z-1\n";
    assert_eq!(gcode_to_path_segments(text), gcode_to_path_segments(text));
}

#[test]
fn segments_against_the_arc_fail() {
    let steps = gcode_to_path_segments("G2 X10 Y0 I5 J0\n").unwrap();
    let arc = arcs_of(&steps)[0];
    let with = cut(&arc);
    assert_eq!(trace(&steps, &vec![with.clone()]).unwrap().len(), 1 + 158);
    let against: Vec<Vec2> = with.iter().map(|p| Vec2 { x: p.x, y: -p.y }).collect();
    assert_eq!(trace(&steps, &vec![against]).err().unwrap().kind, LoadErrorKind::WrongWay);
    let mut back = with.clone();
    back.insert(80, with[78]);
    assert_eq!(trace(&steps, &vec![back]).err().unwrap().kind, LoadErrorKind::WrongWay);
    let other = gcode_to_path_segments("G3 X10 Y0 I5 J0\n").unwrap();
    let mirrored: Vec<Vec2> = with.iter().map(|p| Vec2 { x: p.x, y: -p.y }).collect();
    assert_eq!(cut(&arcs_of(&other)[0]), mirrored);
    assert!(trace(&other, &vec![mirrored]).is_ok());
    assert_eq!(trace(&other, &vec![with]).err().unwrap().kind, LoadErrorKind::WrongWay);
}

#[test]
fn full_turns_are_traced() {
    let steps = gcode_to_path_segments("G1 X5\nG3 X5 Y0 I-5 J0 P2\n").unwrap();
    let arc = arcs_of(&steps)[0];
    let inside = cut(&arc);
    assert_eq!(inside.len(), 314);
    let path = trace(&steps, &vec![inside]).unwrap();
    assert_eq!(path.len(), 4 + 315);
    assert_eq!(path[path.len() - 1].pos, v(5_000_000, 0, 0));
    assert!(path.iter().any(|p| p.pos.x < -4_999_000));
    assert!(path.iter().any(|p| p.pos.y > 4_999_000));
    assert!(path.iter().any(|p| p.pos.y < -4_999_000));
}

#[test]
fn malformed_program_has_no_path() {
    let e = gcode_to_path_segments("G1 X1\nG20\nG1 X=2\n").err().unwrap();
    assert_eq!(e.kind, LoadErrorKind::Malformed);
    assert_eq!(e.line, 2);
    let e = GcodeProgram::load(String::from("a"), String::from("G1 (fast)\n"), &Vec::new());
    assert_eq!(e.err().unwrap().kind, LoadErrorKind::Malformed);
}
