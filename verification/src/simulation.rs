//! The toolpath interpreter: lines of words to a sequence of motions.
//!
//! The interpreter keeps the modal state of the machine (motion mode,
//! distance mode, plane, position). For each line it first applies every
//! word that changes the modal state, in the order written, and then once
//! the line's move in the motion mode that is current by then.

use crate::gcode::{line_words, parse, program_lines, value_from, GCodeLine, Word};
use crate::geometry::{
    blend_point, blend_points, coord_in_range, radii_agree, radii_within_tolerance, square, swizzle,
    swizzle_spec, MotionPlane, Vec2, Vec3, COORD_LIMIT,
};
use crate::toolpath::{arc_views, time_path, timed, trace, traced};
use vstd::prelude::*;
use vstd::string::StringSliceAdditionalSpecFns;

verus! {

/// Where a homing move ends on every axis, in millionths.
pub const HOME: i64 = 100_000_000;

/// How a point is reached.
#[derive(Clone, Copy, Debug, PartialEq, Eq, Structural)]
pub enum MotionType {
    Rapid,
    Linear,
}

/// One point of a toolpath.
#[derive(Clone, Copy, Debug, PartialEq, Eq, Structural)]
pub struct MotionPoint {
    /// How the point is reached from the one before it.
    pub ty: MotionType,
    /// Where the point lies.
    pub pos: Vec3,
    /// When the point is reached, in millionths of a unit of time.
    pub time: u128,
}

impl MotionPoint {
    /// The point at `pos`, reached by a move of kind `ty`, not yet timed.
    pub open spec fn at(ty: MotionType, pos: Vec3) -> MotionPoint {
        MotionPoint { ty, pos, time: 0 }
    }
}

impl Default for MotionPoint {
    fn default() -> (r: MotionPoint)
        ensures
            r == MotionPoint::at(MotionType::Linear, Vec3 { x: 0, y: 0, z: 0 }),
    {
        MotionPoint { ty: MotionType::Linear, pos: Vec3 { x: 0, y: 0, z: 0 }, time: 0 }
    }
}

/// The motion mode that is in force.
#[derive(Clone, Copy, Debug, PartialEq, Eq, Structural)]
pub enum MotionMode {
    G0,
    G1,
    G2,
    G3,
}

/// Whether axis words give positions or displacements.
#[derive(Clone, Copy, Debug, PartialEq, Eq, Structural)]
pub enum DistanceMode {
    Absolute,
    Relative,
}

/// The modal state of the machine between two lines.
#[derive(Clone, Copy, Debug, PartialEq, Eq, Structural)]
pub struct SimulationState {
    pub spindle_speed: i64,
    pub feed_rate: i64,
    pub rapid_rate: i64,
    pub motion_mode: MotionMode,
    pub distance_mode: DistanceMode,
    pub motion_plane: MotionPlane,
    pub position: Vec3,
    pub coord_system: Vec3,
    pub coord_offset: Vec3,
}

/// An arc as the program gives it: exact, and not yet cut into segments.
#[derive(Clone, Copy, Debug, PartialEq, Eq, Structural)]
pub struct ArcMove {
    /// The line of the program that asked for the arc, counting from zero.
    pub line: usize,
    /// The plane in which the arc turns.
    pub plane: MotionPlane,
    /// Whether the arc turns clockwise, seen from the positive side of the
    /// axis normal to the plane.
    pub clockwise: bool,
    /// Where the arc starts.
    pub start: Vec3,
    /// Where the arc ends.
    pub end: Vec3,
    /// From the start to the centre, by machine axis (the I, J and K words).
    pub offset: Vec3,
    /// How many turns the arc makes, counting the last, partial one (the P
    /// word; one where the line has none), in millionths.
    pub turns: i64,
}

/// One step of a toolpath: a point to go to, or an arc to follow.
#[derive(Clone, Copy, Debug, PartialEq, Eq, Structural)]
pub enum Motion {
    Point(MotionPoint),
    Arc(ArcMove),
}

/// Why a program cannot be loaded.
#[derive(Clone, Copy, Debug, PartialEq, Eq, Structural)]
pub enum LoadErrorKind {
    /// The line is not a sequence of words.
    Malformed,
    /// The line holds a code that the interpreter knows and does not carry
    /// out.
    Unimplemented,
    /// The start and the end of an arc are not equally far from its centre.
    ArcRadius,
    /// An arc is cut into a million segments or more.
    ArcSegments,
    /// A point given for the inside of an arc is not on the arc's circle.
    OffArc,
    /// A segment of an arc is longer than a segment may be.
    LongSegment,
    /// A segment of an arc turns against the arc.
    WrongWay,
    /// A coordinate is beyond the coordinate limit.
    OutOfRange,
}

/// Why a program cannot be loaded, and the line at fault.
#[derive(Clone, Copy, Debug, PartialEq, Eq, Structural)]
pub struct LoadError {
    /// The line at fault, counting from zero.
    pub line: usize,
    pub kind: LoadErrorKind,
}

/// What a word does to the modal state.
#[derive(Clone, Copy, Debug, PartialEq, Eq, Structural)]
pub enum Modal {
    Motion(MotionMode),
    Plane(MotionPlane),
    Distance(DistanceMode),
    Home,
    Unimplemented,
    Inert,
}

/// Whether `G<major>.<minor>`, with a minor other than zero, is a code that
/// is known and not carried out.
pub open spec fn unimplemented_fraction(major: u32, minor: u32) -> bool {
    ||| major == 28 && minor == 1
    ||| major == 30 && minor == 1
    ||| major == 38 && 2 <= minor <= 5
    ||| major == 43 && minor == 1
    ||| major == 91 && minor == 1
}

/// What the word `w` does to the modal state.
pub open spec fn modal_of(w: Word) -> Modal {
    if w.letter != 'G' {
        Modal::Inert
    } else if w.minor != 0 {
        if unimplemented_fraction(w.major, w.minor) {
            Modal::Unimplemented
        } else {
            Modal::Inert
        }
    } else if w.major == 0 {
        Modal::Motion(MotionMode::G0)
    } else if w.major == 1 {
        Modal::Motion(MotionMode::G1)
    } else if w.major == 2 {
        Modal::Motion(MotionMode::G2)
    } else if w.major == 3 {
        Modal::Motion(MotionMode::G3)
    } else if w.major == 17 {
        Modal::Plane(MotionPlane::XY)
    } else if w.major == 18 {
        Modal::Plane(MotionPlane::XZ)
    } else if w.major == 19 {
        Modal::Plane(MotionPlane::YZ)
    } else if w.major == 28 {
        Modal::Home
    } else if w.major == 90 {
        Modal::Distance(DistanceMode::Absolute)
    } else if w.major == 91 {
        Modal::Distance(DistanceMode::Relative)
    } else if w.major == 20 || w.major == 41 || w.major == 42 || w.major == 49 || w.major == 53
        || w.major == 80 {
        Modal::Unimplemented
    } else {
        Modal::Inert
    }
}

/// What the word `w` does to the modal state.
pub fn classify(w: &Word) -> (m: Modal)
    ensures
        m == modal_of(*w),
{
    if w.letter != 'G' {
        return Modal::Inert;
    }
    if w.minor != 0 {
        let known = (w.major == 28 && w.minor == 1) || (w.major == 30 && w.minor == 1) || (w.major
            == 38 && 2 <= w.minor && w.minor <= 5) || (w.major == 43 && w.minor == 1) || (w.major
            == 91 && w.minor == 1);
        return if known {
            Modal::Unimplemented
        } else {
            Modal::Inert
        };
    }
    match w.major {
        0 => Modal::Motion(MotionMode::G0),
        1 => Modal::Motion(MotionMode::G1),
        2 => Modal::Motion(MotionMode::G2),
        3 => Modal::Motion(MotionMode::G3),
        17 => Modal::Plane(MotionPlane::XY),
        18 => Modal::Plane(MotionPlane::XZ),
        19 => Modal::Plane(MotionPlane::YZ),
        28 => Modal::Home,
        90 => Modal::Distance(DistanceMode::Absolute),
        91 => Modal::Distance(DistanceMode::Relative),
        20 | 41 | 42 | 49 | 53 | 80 => Modal::Unimplemented,
        _ => Modal::Inert,
    }
}

/// The home position.
pub open spec fn home() -> Vec3 {
    Vec3 { x: HOME, y: HOME, z: HOME }
}

/// The state after the word `w`, which is not an unimplemented one, and the
/// motions that the word gives rise to.
pub open spec fn after_word(st: SimulationState, w: Word) -> (SimulationState, Seq<Motion>) {
    match modal_of(w) {
        Modal::Motion(m) => (SimulationState { motion_mode: m, ..st }, Seq::empty()),
        Modal::Plane(p) => (SimulationState { motion_plane: p, ..st }, Seq::empty()),
        Modal::Distance(d) => (SimulationState { distance_mode: d, ..st }, Seq::empty()),
        Modal::Home => {
            let raised = Vec3 { z: HOME, ..st.position };
            (
                SimulationState { position: home(), ..st },
                seq![
                    Motion::Point(MotionPoint::at(MotionType::Rapid, raised)),
                    Motion::Point(MotionPoint::at(MotionType::Rapid, home())),
                ],
            )
        },
        _ => (st, Seq::empty()),
    }
}

/// The state after the first `n` words of a line and the motions that they
/// give rise to, or the error at the first unimplemented word among them.
pub open spec fn after_words(st: SimulationState, words: Seq<Word>, n: int) -> Result<
    (SimulationState, Seq<Motion>),
    LoadErrorKind,
>
    decreases n,
{
    if n <= 0 {
        Ok((st, Seq::empty()))
    } else {
        match after_words(st, words, n - 1) {
            Err(e) => Err(e),
            Ok((s, out)) => if modal_of(words[n - 1]) is Unimplemented {
                Err(LoadErrorKind::Unimplemented)
            } else {
                Ok((after_word(s, words[n - 1]).0, out + after_word(s, words[n - 1]).1))
            },
        }
    }
}

/// Where an axis stands after a line: the word's value in absolute mode,
/// the old coordinate plus the word's value in relative mode, and the old
/// coordinate where the line has no word for the axis.
pub open spec fn axis_target(mode: DistanceMode, current: i64, word: Option<i64>) -> int {
    match word {
        Some(v) => match mode {
            DistanceMode::Absolute => v as int,
            DistanceMode::Relative => current + v,
        },
        None => current as int,
    }
}

/// Whether the position after a line with these words is within the
/// coordinate limit on every axis.
pub open spec fn target_in_range(st: SimulationState, words: Seq<Word>) -> bool {
    &&& coord_in_range(axis_target(st.distance_mode, st.position.x, value_from(words, 'X', 0)))
    &&& coord_in_range(axis_target(st.distance_mode, st.position.y, value_from(words, 'Y', 0)))
    &&& coord_in_range(axis_target(st.distance_mode, st.position.z, value_from(words, 'Z', 0)))
}

/// The position after a line with these words.
pub open spec fn target(st: SimulationState, words: Seq<Word>) -> Vec3 {
    Vec3 {
        x: axis_target(st.distance_mode, st.position.x, value_from(words, 'X', 0)) as i64,
        y: axis_target(st.distance_mode, st.position.y, value_from(words, 'Y', 0)) as i64,
        z: axis_target(st.distance_mode, st.position.z, value_from(words, 'Z', 0)) as i64,
    }
}

/// The value of an optional word, or `default` where the word is absent.
pub open spec fn value_or(word: Option<i64>, default: i64) -> i64 {
    match word {
        Some(v) => v,
        None => default,
    }
}

/// The arc that a line with these words asks for, from the state `st` in an
/// arc mode.
pub open spec fn arc_of(st: SimulationState, words: Seq<Word>, line: usize) -> ArcMove {
    ArcMove {
        line,
        plane: st.motion_plane,
        clockwise: st.motion_mode is G2,
        start: st.position,
        end: target(st, words),
        offset: Vec3 {
            x: value_or(value_from(words, 'I', 0), 0),
            y: value_or(value_from(words, 'J', 0), 0),
            z: value_or(value_from(words, 'K', 0), 0),
        },
        turns: value_or(value_from(words, 'P', 0), 1_000_000),
    }
}

impl ArcMove {
    /// The square of the distance from the start to the centre, measured in
    /// the plane of the arc.
    pub open spec fn start_radius_sq(self) -> nat {
        let o = swizzle_spec(self.offset, self.plane);
        (o.x * o.x + o.y * o.y) as nat
    }

    /// The square of the distance from the centre to the end, measured in
    /// the plane of the arc.
    pub open spec fn end_radius_sq(self) -> nat {
        let o = swizzle_spec(self.offset, self.plane);
        let s = swizzle_spec(self.start, self.plane);
        let e = swizzle_spec(self.end, self.plane);
        let u = e.x - (s.x + o.x);
        let v = e.y - (s.y + o.y);
        (u * u + v * v) as nat
    }

    /// Whether the start and the end are equally far from the centre, within
    /// the arc tolerance.
    pub open spec fn radii_match(self) -> bool {
        radii_agree(self.start_radius_sq(), self.end_radius_sq())
    }

    /// Whether the arc lies within the coordinate limit and its radii match.
    pub open spec fn well_formed(self) -> bool {
        &&& self.start.in_range()
        &&& self.end.in_range()
        &&& self.offset.in_range()
        &&& self.radii_match()
    }

    /// Executable test for `radii_match`.
    pub fn check_radii(&self) -> (r: bool)
        requires
            self.start.in_range(),
            self.end.in_range(),
            self.offset.in_range(),
        ensures
            r == self.radii_match(),
    {
        let o = swizzle(self.offset, self.plane);
        let s = swizzle(self.start, self.plane);
        let e = swizzle(self.end, self.plane);
        let u: i128 = e.x as i128 - (s.x as i128 + o.x as i128);
        let v: i128 = e.y as i128 - (s.y as i128 + o.y as i128);
        let a: u128 = square(o.x as i128) + square(o.y as i128);
        let b: u128 = square(u) + square(v);
        proof {
            crate::geometry::lemma_square_bound(o.x as int, 1_000_000_000_000_000_000);
            crate::geometry::lemma_square_bound(o.y as int, 1_000_000_000_000_000_000);
            crate::geometry::lemma_square_bound(u as int, 3_000_000_000_000_000_000);
            crate::geometry::lemma_square_bound(v as int, 3_000_000_000_000_000_000);
        }
        radii_within_tolerance(a, b)
    }
}

/// The state after the move of a line and the motions of that move: three
/// points for a straight move (near its start, near its end, and its exact
/// end), and one arc for an arc move.
pub open spec fn after_motion(st: SimulationState, words: Seq<Word>, line: usize) -> Result<
    (SimulationState, Seq<Motion>),
    LoadErrorKind,
> {
    let end = target(st, words);
    let moved = SimulationState { position: end, ..st };
    if !target_in_range(st, words) {
        Err(LoadErrorKind::OutOfRange)
    } else if st.motion_mode is G0 || st.motion_mode is G1 {
        let ty = if st.motion_mode is G0 {
            MotionType::Rapid
        } else {
            MotionType::Linear
        };
        Ok(
            (
                moved,
                seq![
                    Motion::Point(MotionPoint::at(ty, blend_point(st.position, end))),
                    Motion::Point(MotionPoint::at(ty, blend_point(end, st.position))),
                    Motion::Point(MotionPoint::at(ty, end)),
                ],
            ),
        )
    } else if !arc_of(st, words, line).offset.in_range() {
        Err(LoadErrorKind::OutOfRange)
    } else if !arc_of(st, words, line).radii_match() {
        Err(LoadErrorKind::ArcRadius)
    } else {
        Ok((moved, seq![Motion::Arc(arc_of(st, words, line))]))
    }
}

/// The state after a whole line and the motions of the line.
pub open spec fn after_line(st: SimulationState, words: Seq<Word>, line: usize) -> Result<
    (SimulationState, Seq<Motion>),
    LoadErrorKind,
> {
    match after_words(st, words, words.len() as int) {
        Err(e) => Err(e),
        Ok((s, out)) => match after_motion(s, words, line) {
            Err(e) => Err(e),
            Ok((s2, out2)) => Ok((s2, out + out2)),
        },
    }
}

impl SimulationState {
    /// The state in which every program starts: at the origin, in rapid
    /// mode, with absolute distances, in the XY plane.
    pub open spec fn initial() -> SimulationState {
        SimulationState {
            spindle_speed: 0,
            feed_rate: 0,
            rapid_rate: 400_000_000,
            motion_mode: MotionMode::G0,
            distance_mode: DistanceMode::Absolute,
            motion_plane: MotionPlane::XY,
            position: Vec3 { x: 0, y: 0, z: 0 },
            coord_system: Vec3 { x: 0, y: 0, z: 0 },
            coord_offset: Vec3 { x: 0, y: 0, z: 0 },
        }
    }

    /// The state in which every program starts.
    pub fn new() -> (st: SimulationState)
        ensures
            st == SimulationState::initial(),
    {
        SimulationState {
            spindle_speed: 0,
            feed_rate: 0,
            rapid_rate: 400_000_000,
            motion_mode: MotionMode::G0,
            distance_mode: DistanceMode::Absolute,
            motion_plane: MotionPlane::XY,
            position: Vec3 { x: 0, y: 0, z: 0 },
            coord_system: Vec3 { x: 0, y: 0, z: 0 },
            coord_offset: Vec3 { x: 0, y: 0, z: 0 },
        }
    }

    /// Applies the words of a line that change the modal state, in order,
    /// and appends the motions of those that move the machine.
    pub fn apply_words(&mut self, words: &Vec<Word>, path: &mut Vec<Motion>) -> (r: Result<
        (),
        LoadErrorKind,
    >)
        requires
            old(self).position.in_range(),
        ensures
            match after_words(*old(self), words@, words@.len() as int) {
                Ok((st, out)) => {
                    &&& r is Ok
                    &&& *final(self) == st
                    &&& final(path)@ == old(path)@ + out
                    &&& st.position.in_range()
                    &&& steps_in_range(out)
                },
                Err(e) => r == Err::<(), LoadErrorKind>(e),
            },
    {
        let mut i: usize = 0;
        while i < words.len()
            invariant
                i <= words@.len(),
                self.position.in_range(),
                after_words(*old(self), words@, i as int) matches Ok((st, out)) && st == *self
                    && path@ == old(path)@ + out && steps_in_range(out),
            decreases words@.len() - i,
        {
            let ghost before = after_words(*old(self), words@, i as int).unwrap().1;
            match classify(&words[i]) {
                Modal::Unimplemented => {
                    proof {
                        lemma_words_error_stays(*old(self), words@, i + 1, words@.len() as int);
                    }
                    return Err(LoadErrorKind::Unimplemented);
                },
                Modal::Motion(m) => {
                    self.motion_mode = m;
                },
                Modal::Plane(p) => {
                    self.motion_plane = p;
                },
                Modal::Distance(d) => {
                    self.distance_mode = d;
                },
                Modal::Home => {
                    self.position.z = HOME;
                    path.push(Motion::Point(MotionPoint { ty: MotionType::Rapid, pos: self.position, time: 0 }));
                    self.position.x = HOME;
                    self.position.y = HOME;
                    path.push(Motion::Point(MotionPoint { ty: MotionType::Rapid, pos: self.position, time: 0 }));
                },
                Modal::Inert => {},
            }
            proof {
                let now = after_words(*old(self), words@, i + 1).unwrap().1;
                assert(path@ =~= old(path)@ + now);
            }
            i = i + 1;
        }
        Ok(())
    }

    /// Applies one line: its modal words, then its move.
    pub fn apply_line(&mut self, line: &GCodeLine, index: usize, path: &mut Vec<Motion>) -> (r:
        Result<(), LoadErrorKind>)
        requires
            old(self).position.in_range(),
        ensures
            match after_line(*old(self), line.words@, index) {
                Ok((st, out)) => {
                    &&& r is Ok
                    &&& *final(self) == st
                    &&& final(path)@ == old(path)@ + out
                    &&& st.position.in_range()
                    &&& steps_in_range(out)
                },
                Err(e) => r == Err::<(), LoadErrorKind>(e),
            },
    {
        match self.apply_words(&line.words, path) {
            Err(e) => {
                return Err(e);
            },
            Ok(()) => {},
        }
        let ghost mid = *self;
        let ghost mid_path = path@;
        let start = self.position;
        let x = move_axis(self.distance_mode, start.x, line.value_for('X'));
        let y = move_axis(self.distance_mode, start.y, line.value_for('Y'));
        let z = move_axis(self.distance_mode, start.z, line.value_for('Z'));
        let end = match (x, y, z) {
            (Some(x), Some(y), Some(z)) => Vec3 { x, y, z },
            _ => {
                return Err(LoadErrorKind::OutOfRange);
            },
        };
        assert(end == target(mid, line.words@));
        match self.motion_mode {
            MotionMode::G0 | MotionMode::G1 => {
                let ty = match self.motion_mode {
                    MotionMode::G0 => MotionType::Rapid,
                    _ => MotionType::Linear,
                };
                path.push(Motion::Point(MotionPoint { ty, pos: blend_points(start, end), time: 0 }));
                path.push(Motion::Point(MotionPoint { ty, pos: blend_points(end, start), time: 0 }));
                path.push(Motion::Point(MotionPoint { ty, pos: end, time: 0 }));
            },
            MotionMode::G2 | MotionMode::G3 => {
                let offset = Vec3 {
                    x: or_value(line.value_for('I'), 0),
                    y: or_value(line.value_for('J'), 0),
                    z: or_value(line.value_for('K'), 0),
                };
                let arc = ArcMove {
                    line: index,
                    plane: self.motion_plane,
                    clockwise: matches!(self.motion_mode, MotionMode::G2),
                    start,
                    end,
                    offset,
                    turns: or_value(line.value_for('P'), 1_000_000),
                };
                assert(arc == arc_of(mid, line.words@, index));
                if !offset.is_in_range() {
                    return Err(LoadErrorKind::OutOfRange);
                }
                if !arc.check_radii() {
                    return Err(LoadErrorKind::ArcRadius);
                }
                path.push(Motion::Arc(arc));
            },
        }
        self.position = end;
        proof {
            let out2 = after_motion(mid, line.words@, index).unwrap().1;
            let out = after_words(*old(self), line.words@, line.words@.len() as int).unwrap().1;
            assert(path@ =~= mid_path + out2);
            assert(path@ =~= old(path)@ + (out + out2));
            assert(steps_in_range(out + out2));
        }
        Ok(())
    }
}

/// The value of an optional word, or `default` where the word is absent.
pub fn or_value(word: Option<i64>, default: i64) -> (r: i64)
    ensures
        r == value_or(word, default),
{
    match word {
        Some(v) => v,
        None => default,
    }
}

/// Where an axis stands after a line, if that is within the coordinate
/// limit.
pub fn move_axis(mode: DistanceMode, current: i64, word: Option<i64>) -> (r: Option<i64>)
    ensures
        match r {
            Some(v) => v == axis_target(mode, current, word) && coord_in_range(v as int),
            None => !coord_in_range(axis_target(mode, current, word)),
        },
{
    let t: i128 = match word {
        Some(v) => match mode {
            DistanceMode::Absolute => v as i128,
            DistanceMode::Relative => current as i128 + v as i128,
        },
        None => current as i128,
    };
    if -(COORD_LIMIT as i128) <= t && t <= COORD_LIMIT as i128 {
        Some(t as i64)
    } else {
        None
    }
}

/// Whether a motion lies within the coordinate limit: a point by its
/// position, an arc by being well formed.
pub open spec fn step_in_range(m: Motion) -> bool {
    match m {
        Motion::Point(p) => p.pos.in_range(),
        Motion::Arc(a) => a.well_formed(),
    }
}

/// Whether every motion of `steps` lies within the coordinate limit.
pub open spec fn steps_in_range(steps: Seq<Motion>) -> bool {
    forall|i: int| 0 <= i < steps.len() ==> step_in_range(#[trigger] steps[i])
}

/// Once a word has failed, the line has failed.
pub proof fn lemma_words_error_stays(st: SimulationState, words: Seq<Word>, m: int, n: int)
    requires
        m <= n,
        after_words(st, words, m) is Err,
    ensures
        after_words(st, words, n) == after_words(st, words, m),
    decreases n - m,
{
    if m < n {
        lemma_words_error_stays(st, words, m, n - 1);
    }
}

/// The point with which every toolpath starts: the origin, at time zero.
pub open spec fn start_point() -> MotionPoint {
    MotionPoint::at(MotionType::Linear, Vec3 { x: 0, y: 0, z: 0 })
}

/// The state and the path after the first `n` lines of a program, given by
/// the words of each line, or the error of the first line that fails.
///
/// Every path starts with the point at the origin.
pub open spec fn after_lines(lines: Seq<Seq<Word>>, n: int) -> Result<
    (SimulationState, Seq<Motion>),
    LoadError,
>
    decreases n,
{
    if n <= 0 {
        Ok(
            (
                SimulationState::initial(),
                seq![Motion::Point(start_point())],
            ),
        )
    } else {
        match after_lines(lines, n - 1) {
            Err(e) => Err(e),
            Ok((st, path)) => match after_line(st, lines[n - 1], (n - 1) as usize) {
                Err(kind) => Err(LoadError { line: (n - 1) as usize, kind }),
                Ok((st2, out)) => Ok((st2, path + out)),
            },
        }
    }
}

/// The first malformed line among the first `n` lines.
pub open spec fn first_malformed(lines: Seq<Seq<u8>>, n: int) -> Option<int>
    decreases n,
{
    if n <= 0 {
        None
    } else {
        match first_malformed(lines, n - 1) {
            Some(k) => Some(k),
            None => if line_words(lines[n - 1]).is_none() {
                Some(n - 1)
            } else {
                None
            },
        }
    }
}

/// The words of each line.
pub open spec fn words_of(lines: Seq<Seq<u8>>) -> Seq<Seq<Word>> {
    Seq::new(lines.len(), |k: int| line_words(lines[k]).unwrap())
}

/// The toolpath of a program text: the error of the first malformed line if
/// there is one, else the error of the first line that cannot be carried
/// out, else the motions of all lines after the point at the origin.
pub open spec fn interpret(text: Seq<u8>) -> Result<Seq<Motion>, LoadError> {
    let lines = program_lines(text);
    match first_malformed(lines, lines.len() as int) {
        Some(k) => Err(LoadError { line: k as usize, kind: LoadErrorKind::Malformed }),
        None => match after_lines(words_of(lines), lines.len() as int) {
            Ok((_, path)) => Ok(path),
            Err(e) => Err(e),
        },
    }
}

/// Once a line has failed, the program has failed.
pub proof fn lemma_lines_error_stays(lines: Seq<Seq<Word>>, m: int, n: int)
    requires
        m <= n,
        after_lines(lines, m) is Err,
    ensures
        after_lines(lines, n) == after_lines(lines, m),
    decreases n - m,
{
    if m < n {
        lemma_lines_error_stays(lines, m, n - 1);
    }
}

/// Where every line before `n` is well formed, none of them is the first
/// malformed one.
pub proof fn lemma_none_malformed(lines: Seq<Seq<u8>>, n: int)
    requires
        forall|j: int| 0 <= j < n ==> line_words(#[trigger] lines[j]).is_some(),
    ensures
        first_malformed(lines, n).is_none(),
    decreases n,
{
    if n > 0 {
        lemma_none_malformed(lines, n - 1);
    }
}

/// Where line `k` is malformed and every line before it is well formed,
/// line `k` is the first malformed one.
pub proof fn lemma_first_malformed(lines: Seq<Seq<u8>>, k: int, n: int)
    requires
        0 <= k < n,
        line_words(lines[k]).is_none(),
        forall|j: int| 0 <= j < k ==> line_words(#[trigger] lines[j]).is_some(),
    ensures
        first_malformed(lines, n) == Some(k),
    decreases n,
{
    if n == k + 1 {
        lemma_none_malformed(lines, k);
    } else {
        lemma_first_malformed(lines, k, n - 1);
    }
}

/// Interprets a program text.
///
/// Returns the toolpath: the point at the origin, then for every line the
/// motions of its homing words and of its move. A program with a malformed
/// line, an unimplemented code, an arc whose radii differ or a coordinate
/// beyond the limit has no toolpath: the error names the first such line.
pub fn gcode_to_path_segments(nc: &str) -> (r: Result<Vec<Motion>, LoadError>)
    ensures
        match r {
            Ok(path) => {
                &&& interpret(nc.spec_bytes()) == Ok::<Seq<Motion>, LoadError>(path@)
                &&& steps_in_range(path@)
                &&& path@.len() > 0
                &&& path@[0] == Motion::Point(start_point())
            },
            Err(e) => interpret(nc.spec_bytes()) == Err::<Seq<Motion>, LoadError>(e),
        },
{
    let ghost texts = program_lines(nc.spec_bytes());
    let lines = match parse(nc) {
        Ok(lines) => lines,
        Err(k) => {
            proof {
                lemma_first_malformed(texts, k as int, texts.len() as int);
            }
            return Err(LoadError { line: k, kind: LoadErrorKind::Malformed });
        },
    };
    let ghost words = words_of(texts);
    proof {
        assert forall|j: int| 0 <= j < texts.len() implies line_words(#[trigger] texts[j]).is_some() by {
            assert(lines@[j].parsed());
        }
        lemma_none_malformed(texts, texts.len() as int);
    }
    let mut st = SimulationState::new();
    let mut path: Vec<Motion> = Vec::new();
    path.push(Motion::Point(MotionPoint { ty: MotionType::Linear, pos: Vec3::zero(), time: 0 }));
    let mut i: usize = 0;
    while i < lines.len()
        invariant
            i <= lines@.len(),
            lines@.len() == texts.len(),
            texts == program_lines(nc.spec_bytes()),
            first_malformed(texts, texts.len() as int).is_none(),
            words == words_of(texts),
            forall|k: int|
                0 <= k < lines@.len() ==> (#[trigger] lines@[k]).line@ == texts[k] && lines@[k].parsed(),
            st.position.in_range(),
            steps_in_range(path@),
            path@.len() > 0,
            path@[0] == Motion::Point(start_point()),
            after_lines(words, i as int) == Ok::<(SimulationState, Seq<Motion>), LoadError>(
                (st, path@),
            ),
        decreases lines@.len() - i,
    {
        let ghost st0 = st;
        let ghost path0 = path@;
        proof {
            assert(lines@[i as int].parsed());
            assert(words[i as int] == lines@[i as int].words@);
        }
        match st.apply_line(&lines[i], i, &mut path) {
            Err(kind) => {
                proof {
                    assert(after_lines(words, i as int) == Ok::<
                        (SimulationState, Seq<Motion>),
                        LoadError,
                    >((st0, path0)));
                    assert(after_line(st0, words[i as int], i) == Err::<
                        (SimulationState, Seq<Motion>),
                        LoadErrorKind,
                    >(kind));
                    assert(after_lines(words, i + 1) == Err::<
                        (SimulationState, Seq<Motion>),
                        LoadError,
                    >(LoadError { line: i, kind }));
                    lemma_lines_error_stays(words, i + 1, texts.len() as int);
                }
                return Err(LoadError { line: i, kind });
            },
            Ok(()) => {},
        }
        i = i + 1;
    }
    Ok(path)
}

/// A loaded program: where it came from, its text and its toolpath.
#[derive(Debug)]
pub struct GcodeProgram {
    pub filepath: String,
    pub program: String,
    pub motionpath: Vec<MotionPoint>,
}

/// The timed toolpath of a program text, where the arcs take the points for
/// their inside from `arcs`.
pub open spec fn loaded_path(text: Seq<u8>, arcs: Seq<Seq<Vec2>>) -> Result<
    Seq<MotionPoint>,
    LoadError,
> {
    match interpret(text) {
        Err(e) => Err(e),
        Ok(steps) => match traced(steps, arcs, steps.len() as int) {
            Err(e) => Err(e),
            Ok(path) => Ok(timed(path)),
        },
    }
}

impl GcodeProgram {
    /// Loads a program: interprets its text, lays the toolpath out as
    /// points and fills in their times.
    ///
    /// `arcs` holds the points inside each arc of the program, in the order
    /// of the arcs (see `trace`).
    pub fn load(filepath: String, program: String, arcs: &Vec<Vec<Vec2>>) -> (r: Result<
        GcodeProgram,
        LoadError,
    >)
        ensures
            match r {
                Ok(p) => {
                    &&& p.filepath == filepath
                    &&& p.program == program
                    &&& loaded_path(vstd::utf8::encode_utf8(program@), arc_views(arcs@)) == Ok::<
                        Seq<MotionPoint>,
                        LoadError,
                    >(p.motionpath@)
                    &&& forall|i: int, j: int|
                        0 <= i <= j < p.motionpath@.len() ==> p.motionpath@[i].time
                            <= p.motionpath@[j].time
                    &&& p.motionpath@.len() > 0
                    &&& p.motionpath@[0] == start_point()
                },
                Err(e) => loaded_path(vstd::utf8::encode_utf8(program@), arc_views(arcs@)) == Err::<
                    Seq<MotionPoint>,
                    LoadError,
                >(e),
            },
    {
        let steps = match gcode_to_path_segments(program.as_str()) {
            Ok(steps) => steps,
            Err(e) => {
                return Err(e);
            },
        };
        let path = match trace(&steps, arcs) {
            Ok(path) => path,
            Err(e) => {
                return Err(e);
            },
        };
        let motionpath = time_path(&path);
        proof {
            crate::toolpath::lemma_start_time(path@);
        }
        Ok(GcodeProgram { filepath, program, motionpath })
    }
}

/// A straight move ends where its line says: on each axis at the word's
/// value in absolute mode, at the old coordinate plus the word's value in
/// relative mode, and at the old coordinate where the line has no word for
/// the axis. The last of its three points is that end.
pub proof fn lemma_straight_move(st: SimulationState, words: Seq<Word>, line: usize)
    requires
        st.motion_mode is G0 || st.motion_mode is G1,
        after_motion(st, words, line) is Ok,
    ensures
        ({
            let (moved, out) = after_motion(st, words, line).unwrap();
            &&& out.len() == 3
            &&& out[2] matches Motion::Point(p) && p.pos == moved.position && (p.ty
                is Rapid <==> st.motion_mode is G0)
            &&& moved.position.x == axis_target(
                st.distance_mode,
                st.position.x,
                value_from(words, 'X', 0),
            )
            &&& moved.position.y == axis_target(
                st.distance_mode,
                st.position.y,
                value_from(words, 'Y', 0),
            )
            &&& moved.position.z == axis_target(
                st.distance_mode,
                st.position.z,
                value_from(words, 'Z', 0),
            )
        }),
{
}

/// An arc move gives one arc, from the old position to the end that the
/// line says, whose start and end are equally far from its centre within
/// the tolerance.
pub proof fn lemma_arc_move(st: SimulationState, words: Seq<Word>, line: usize)
    requires
        st.motion_mode is G2 || st.motion_mode is G3,
        after_motion(st, words, line) is Ok,
    ensures
        ({
            let (moved, out) = after_motion(st, words, line).unwrap();
            &&& out.len() == 1
            &&& out[0] matches Motion::Arc(arc) && arc.radii_match() && arc.start == st.position
                && arc.end == moved.position && (arc.clockwise <==> st.motion_mode is G2)
            &&& moved.position == target(st, words)
        }),
{
}

} // verus!
