//! The firmware message grammar: commands to wire bytes, and lines of
//! firmware output to messages.

use crate::decimal::{
    decimal_digits, fixed_text, is_digit, lemma_unsigned_at_whole, number_at, push_decimal,
    push_fixed, readable, scan_number, scan_unsigned, unsigned_at,
};
use crate::gcode::{
    code_word, is_letter, lemma_code_word, lemma_value_word, line_words, value_word, Word,
};
use crate::geometry::Vec3;
use crate::grbl::state::GRBLState;
use crate::text::{
    append, break_run, find_byte, has_prefix, is_break, is_text, lemma_span_until_run, skip_breaks,
    span_until, starts_with, BAR, BRACKET_CLOSE, BRACKET_OPEN, COMMA, CR, DOLLAR, EQUALS, GREATER,
    LESS, LF,
};
use vstd::prelude::*;
use vstd::slice::slice_subrange;
use vstd::string::StringSliceAdditionalSpecFns;

verus! {

/// A command of one byte that the firmware takes at any time, outside the
/// stream of lines.
#[derive(Debug, Clone, Copy, PartialEq, Eq, Structural)]
pub enum GRBLRealtimeCommand {
    SoftReset,
    StatusQuery,
    CycleStartOrResume,
    FeedHold,
    SafetyDoor,
    JogCancel,
    FeedOverrideReset,
    FeedOverrideInc10,
    FeedOverrideDec10,
    FeedOverrideInc01,
    FeedOverrideDec01,
    RapidOverrideFull,
    RapidOverrideHalf,
    RapidOverrideQuarter,
    SpindleOverrideReset,
    SpindleOverrideInc10,
    SpindleOverrideDec10,
    SpindleOverrideInc01,
    SpindleOverrideDec01,
    SpindleToggle,
    FloodToggle,
    MistToggle,
}

impl GRBLRealtimeCommand {
    /// The byte that stands for the command on the wire.
    pub open spec fn byte(self) -> u8 {
        match self {
            GRBLRealtimeCommand::SoftReset => 0x18,
            GRBLRealtimeCommand::StatusQuery => 0x3f,
            GRBLRealtimeCommand::CycleStartOrResume => 0x7e,
            GRBLRealtimeCommand::FeedHold => 0x21,
            GRBLRealtimeCommand::SafetyDoor => 0x84,
            GRBLRealtimeCommand::JogCancel => 0x85,
            GRBLRealtimeCommand::FeedOverrideReset => 0x90,
            GRBLRealtimeCommand::FeedOverrideInc10 => 0x91,
            GRBLRealtimeCommand::FeedOverrideDec10 => 0x92,
            GRBLRealtimeCommand::FeedOverrideInc01 => 0x93,
            GRBLRealtimeCommand::FeedOverrideDec01 => 0x94,
            GRBLRealtimeCommand::RapidOverrideFull => 0x95,
            GRBLRealtimeCommand::RapidOverrideHalf => 0x96,
            GRBLRealtimeCommand::RapidOverrideQuarter => 0x97,
            GRBLRealtimeCommand::SpindleOverrideReset => 0x99,
            GRBLRealtimeCommand::SpindleOverrideInc10 => 0x9a,
            GRBLRealtimeCommand::SpindleOverrideDec10 => 0x9b,
            GRBLRealtimeCommand::SpindleOverrideInc01 => 0x9c,
            GRBLRealtimeCommand::SpindleOverrideDec01 => 0x9d,
            GRBLRealtimeCommand::SpindleToggle => 0x9e,
            GRBLRealtimeCommand::FloodToggle => 0xa0,
            GRBLRealtimeCommand::MistToggle => 0xa1,
        }
    }

    /// The byte that stands for the command on the wire.
    pub fn to_byte(self) -> (b: u8)
        ensures
            b == self.byte(),
    {
        match self {
            GRBLRealtimeCommand::SoftReset => 0x18,
            GRBLRealtimeCommand::StatusQuery => 0x3f,
            GRBLRealtimeCommand::CycleStartOrResume => 0x7e,
            GRBLRealtimeCommand::FeedHold => 0x21,
            GRBLRealtimeCommand::SafetyDoor => 0x84,
            GRBLRealtimeCommand::JogCancel => 0x85,
            GRBLRealtimeCommand::FeedOverrideReset => 0x90,
            GRBLRealtimeCommand::FeedOverrideInc10 => 0x91,
            GRBLRealtimeCommand::FeedOverrideDec10 => 0x92,
            GRBLRealtimeCommand::FeedOverrideInc01 => 0x93,
            GRBLRealtimeCommand::FeedOverrideDec01 => 0x94,
            GRBLRealtimeCommand::RapidOverrideFull => 0x95,
            GRBLRealtimeCommand::RapidOverrideHalf => 0x96,
            GRBLRealtimeCommand::RapidOverrideQuarter => 0x97,
            GRBLRealtimeCommand::SpindleOverrideReset => 0x99,
            GRBLRealtimeCommand::SpindleOverrideInc10 => 0x9a,
            GRBLRealtimeCommand::SpindleOverrideDec10 => 0x9b,
            GRBLRealtimeCommand::SpindleOverrideInc01 => 0x9c,
            GRBLRealtimeCommand::SpindleOverrideDec01 => 0x9d,
            GRBLRealtimeCommand::SpindleToggle => 0x9e,
            GRBLRealtimeCommand::FloodToggle => 0xa0,
            GRBLRealtimeCommand::MistToggle => 0xa1,
        }
    }
}

/// A command that goes to the firmware as one line.
#[derive(Debug, Clone)]
pub enum GRBLCommand {
    /// `$$`
    QuerySettings,
    /// `$#`
    QueryGCodeParameters,
    /// `$G`
    QueryParserState,
    /// `$I`
    QueryBuildInfo,
    /// `$N`
    QueryStartupBlcoks,
    /// `$N<index>=<line>`
    SetStartupBlock { index: u16, line: Vec<u8> },
    /// `$C`
    CheckGCodeMode,
    /// `$<setting>=<value>`
    Setting { setting: u32, value: Vec<u8> },
    /// `$X`
    KillAlarmLock,
    /// `$H`
    RunHomingCycle,
    /// `$J=<words>`
    Jog {
        x: Option<i64>,
        y: Option<i64>,
        z: Option<i64>,
        feed: i64,
        incremental: bool,
        machine_coords: bool,
    },
    /// `$RST=$`
    ResetSettings,
    /// `$RST=#`
    ResetGCodeParameter,
    /// `$RST=*`
    ResetGRBL,
    /// `$SLP`
    Sleep,
}

/// The word for an axis of a jog: the letter and the value with six decimal
/// places, or nothing where the axis is not to move.
pub open spec fn axis_text(letter: Seq<u8>, value: Option<i64>) -> Seq<u8> {
    match value {
        Some(v) => letter + fixed_text(v as int),
        None => Seq::empty(),
    }
}

/// The feed word of a jog.
pub open spec fn feed_text(feed: i64) -> Seq<u8> {
    "F".spec_bytes() + fixed_text(feed as int)
}

/// The axis words of a jog and its feed word.
pub open spec fn jog_moves(x: Option<i64>, y: Option<i64>, z: Option<i64>, feed: i64) -> Seq<u8> {
    axis_text("X".spec_bytes(), x) + (axis_text("Y".spec_bytes(), y) + (axis_text(
        "Z".spec_bytes(),
        z,
    ) + feed_text(feed)))
}

/// The words of a jog, as they stand between `$J=` and the line feed:
/// `G53` where the jog is in machine coordinates, `G91` for a jog by a
/// distance and `G90` for a jog to a position, a word for each axis that
/// moves, and the feed.
pub open spec fn jog_words(
    x: Option<i64>,
    y: Option<i64>,
    z: Option<i64>,
    feed: i64,
    incremental: bool,
    machine_coords: bool,
) -> Seq<u8> {
    (if machine_coords {
        "G53".spec_bytes()
    } else {
        Seq::empty()
    }) + ((if incremental {
        "G91".spec_bytes()
    } else {
        "G90".spec_bytes()
    }) + jog_moves(x, y, z, feed))
}

/// The line by which the firmware reports, and is told, the value of a
/// setting, without its line break.
pub open spec fn setting_line(number: nat, value: Seq<u8>) -> Seq<u8> {
    "$".spec_bytes() + decimal_digits(number) + "=".spec_bytes() + value
}

impl GRBLCommand {
    /// The line that stands for the command on the wire, line feed
    /// included.
    pub open spec fn wire(&self) -> Seq<u8> {
        match self {
            GRBLCommand::QuerySettings => "$$\n".spec_bytes(),
            GRBLCommand::QueryGCodeParameters => "$#\n".spec_bytes(),
            GRBLCommand::QueryParserState => "$G\n".spec_bytes(),
            GRBLCommand::QueryBuildInfo => "$I\n".spec_bytes(),
            GRBLCommand::QueryStartupBlcoks => "$N\n".spec_bytes(),
            GRBLCommand::SetStartupBlock { index, line } => "$N".spec_bytes() + decimal_digits(
                *index as nat,
            ) + "=".spec_bytes() + line@ + "\n".spec_bytes(),
            GRBLCommand::CheckGCodeMode => "$C\n".spec_bytes(),
            GRBLCommand::Setting { setting, value } => setting_line(*setting as nat, value@)
                + "\n".spec_bytes(),
            GRBLCommand::KillAlarmLock => "$X\n".spec_bytes(),
            GRBLCommand::RunHomingCycle => "$H\n".spec_bytes(),
            GRBLCommand::Jog { x, y, z, feed, incremental, machine_coords } => "$J=".spec_bytes()
                + jog_words(*x, *y, *z, *feed, *incremental, *machine_coords) + "\n".spec_bytes(),
            GRBLCommand::ResetSettings => "$RST=$\n".spec_bytes(),
            GRBLCommand::ResetGCodeParameter => "$RST=#\n".spec_bytes(),
            GRBLCommand::ResetGRBL => "$RST=*\n".spec_bytes(),
            GRBLCommand::Sleep => "$SLP\n".spec_bytes(),
        }
    }

    /// The line that stands for the command on the wire, line feed
    /// included.
    pub fn to_bytes(self) -> (bytes: Vec<u8>)
        ensures
            bytes@ == self.wire(),
    {
        match self {
            GRBLCommand::QuerySettings => line_of("$$\n"),
            GRBLCommand::QueryGCodeParameters => line_of("$#\n"),
            GRBLCommand::QueryParserState => line_of("$G\n"),
            GRBLCommand::QueryBuildInfo => line_of("$I\n"),
            GRBLCommand::QueryStartupBlcoks => line_of("$N\n"),
            GRBLCommand::SetStartupBlock { index, line } => assignment(
                "$N",
                index as u64,
                line.as_slice(),
            ),
            GRBLCommand::CheckGCodeMode => line_of("$C\n"),
            GRBLCommand::Setting { setting, value } => assignment(
                "$",
                setting as u64,
                value.as_slice(),
            ),
            GRBLCommand::KillAlarmLock => line_of("$X\n"),
            GRBLCommand::RunHomingCycle => line_of("$H\n"),
            GRBLCommand::Jog { x, y, z, feed, incremental, machine_coords } => jog_line(
                x,
                y,
                z,
                feed,
                incremental,
                machine_coords,
            ),
            GRBLCommand::ResetSettings => line_of("$RST=$\n"),
            GRBLCommand::ResetGCodeParameter => line_of("$RST=#\n"),
            GRBLCommand::ResetGRBL => line_of("$RST=*\n"),
            GRBLCommand::Sleep => line_of("$SLP\n"),
        }
    }
}

/// The bytes of a fixed line.
fn line_of(text: &str) -> (out: Vec<u8>)
    ensures
        out@ == text.spec_bytes(),
{
    let mut out: Vec<u8> = Vec::new();
    out.extend_from_slice(text.as_bytes());
    assert(out@ =~= text.spec_bytes());
    out
}

/// The line that gives `text` to what `prefix` and `number` name.
fn assignment(prefix: &str, number: u64, text: &[u8]) -> (out: Vec<u8>)
    ensures
        out@ == prefix.spec_bytes() + decimal_digits(number as nat) + "=".spec_bytes() + text@
            + "\n".spec_bytes(),
{
    let mut out: Vec<u8> = Vec::new();
    out.extend_from_slice(prefix.as_bytes());
    push_decimal(&mut out, number);
    out.extend_from_slice("=".as_bytes());
    out.extend_from_slice(text);
    out.extend_from_slice("\n".as_bytes());
    assert(out@ =~= prefix.spec_bytes() + decimal_digits(number as nat) + "=".spec_bytes() + text@
        + "\n".spec_bytes());
    out
}

/// Joining texts one after the other gives the same whichever are joined
/// first.
proof fn lemma_join(
    a: Seq<u8>,
    b: Seq<u8>,
    c: Seq<u8>,
    d: Seq<u8>,
    e: Seq<u8>,
    f: Seq<u8>,
    g: Seq<u8>,
)
    ensures
        Seq::<u8>::empty() + a + b + c + d + e + f + g == a + (b + (c + (d + (e + (f + g))))),
{
    assert(Seq::<u8>::empty() + a + b + c + d + e + f + g =~= a + (b + (c + (d + (e + (f
        + g))))));
}

/// The line of a jog.
fn jog_line(
    x: Option<i64>,
    y: Option<i64>,
    z: Option<i64>,
    feed: i64,
    incremental: bool,
    machine_coords: bool,
) -> (out: Vec<u8>)
    ensures
        out@ == "$J=".spec_bytes() + jog_words(x, y, z, feed, incremental, machine_coords)
            + "\n".spec_bytes(),
{
    let mut out: Vec<u8> = Vec::new();
    if machine_coords {
        append(&mut out, "G53".as_bytes());
    }
    let ghost a = if machine_coords {
        "G53".spec_bytes()
    } else {
        Seq::<u8>::empty()
    };
    assert(out@ =~= Seq::<u8>::empty() + a);
    if incremental {
        append(&mut out, "G91".as_bytes());
    } else {
        append(&mut out, "G90".as_bytes());
    }
    push_axis(&mut out, "X".as_bytes(), x);
    push_axis(&mut out, "Y".as_bytes(), y);
    push_axis(&mut out, "Z".as_bytes(), z);
    append(&mut out, "F".as_bytes());
    push_fixed(&mut out, feed);
    proof {
        lemma_join(
            a,
            if incremental {
                "G91".spec_bytes()
            } else {
                "G90".spec_bytes()
            },
            axis_text("X".spec_bytes(), x),
            axis_text("Y".spec_bytes(), y),
            axis_text("Z".spec_bytes(), z),
            "F".spec_bytes(),
            fixed_text(feed as int),
        );
    }
    let mut line: Vec<u8> = Vec::new();
    append(&mut line, "$J=".as_bytes());
    append(&mut line, out.as_slice());
    append(&mut line, "\n".as_bytes());
    line
}

/// Appends the word for an axis of a jog.
fn push_axis(out: &mut Vec<u8>, letter: &[u8], value: Option<i64>)
    ensures
        final(out)@ == old(out)@ + axis_text(letter@, value),
{
    match value {
        Some(v) => {
            out.extend_from_slice(letter);
            push_fixed(out, v);
            assert(out@ =~= old(out)@ + axis_text(letter@, value));
        },
        None => {
            assert(out@ =~= old(out)@ + axis_text(letter@, value));
        },
    }
}

/// One field of a status report.
#[derive(Debug, Clone, Copy, PartialEq, Eq, Structural)]
pub enum StatusField {
    /// The run state.
    State(GRBLState),
    /// `MPos:`, the position in machine coordinates.
    MachinePosition(Vec3),
    /// `WPos:`, the position in work coordinates.
    WorkPosition(Vec3),
    /// `WCO:`, the offset of the work coordinates.
    WorkOffset(Vec3),
    /// `Bf:`, the free blocks and bytes of the firmware's buffers.
    Buffer { blocks: u32, bytes: u32 },
    /// `Ln:`, the number of the line being carried out.
    LineNumber(u32),
    /// `F:`, the feed rate.
    Feed(i64),
    /// `FS:`, the feed rate and the spindle speed.
    FeedAndSpeed { feed: i64, speed: i64 },
    /// `Pn:`, the input pins that are set.
    Inputs,
    /// `Ov:`, the overrides of feed, rapids and spindle, in percent.
    Overrides { feed_percent: u32, rapid_percent: u32, spindle_percent: u32 },
    /// `A:`, the accessories that are on.
    Accessories,
}

/// One line of firmware output.
#[derive(Debug)]
pub enum GRBLMessage {
    /// `ok`: the line that was outstanding has been taken.
    OkResponse,
    /// `error:<reason>`: the line that was outstanding has been refused. The
    /// code is there where the reason is a number up to 255.
    ErrorResponse(Option<u8>),
    /// `<...>`: a status report, with its fields in the order written.
    StatusMessage(Vec<StatusField>),
    /// `[...]`: a message for the operator.
    FeedbackMessage,
    /// `ALARM:<code>`
    AlarmMessage(u8),
    /// `>...`: a startup line has been carried out.
    StartupLine,
    /// `Grbl ...`: the firmware has started.
    WelcomeMessage,
    /// `$<number>=<value>`: the value of a setting.
    SettingsMessage { number: u8, value: Vec<u8> },
}

/// One line of firmware output, as a mathematical value.
pub enum Message {
    OkResponse,
    ErrorResponse(Option<u8>),
    Status(Seq<StatusField>),
    Feedback,
    Alarm(u8),
    StartupLine,
    Welcome,
    Setting { number: u8, value: Seq<u8> },
}

impl View for GRBLMessage {
    type V = Message;

    open spec fn view(&self) -> Message {
        match self {
            GRBLMessage::OkResponse => Message::OkResponse,
            GRBLMessage::ErrorResponse(code) => Message::ErrorResponse(*code),
            GRBLMessage::StatusMessage(fields) => Message::Status(fields@),
            GRBLMessage::FeedbackMessage => Message::Feedback,
            GRBLMessage::AlarmMessage(code) => Message::Alarm(*code),
            GRBLMessage::StartupLine => Message::StartupLine,
            GRBLMessage::WelcomeMessage => Message::Welcome,
            GRBLMessage::SettingsMessage { number, value } => Message::Setting {
                number: *number,
                value: value@,
            },
        }
    }
}

impl Message {
    /// Whether the message answers the line that was outstanding.
    pub open spec fn is_response(self) -> bool {
        self is OkResponse || self is ErrorResponse
    }
}

/// What follows `lit` in `t`, where `t` starts with `lit`.
pub open spec fn rest_after(t: Seq<u8>, lit: Seq<u8>) -> Option<Seq<u8>> {
    if starts_with(t, 0, lit) {
        Some(t.subrange(lit.len() as int, t.len() as int))
    } else {
        None
    }
}

/// The number up to 255 that `t` as a whole writes.
pub open spec fn code_of(t: Seq<u8>) -> Option<u8> {
    match unsigned_at(t, 0) {
        Some((v, end)) => if end == t.len() && v <= 0xff {
            Some(v as u8)
        } else {
            None
        },
        None => None,
    }
}

/// The `count` decimal numbers, separated by commas, that `t` writes from
/// position `i` to its end.
pub open spec fn numbers_from(t: Seq<u8>, i: int, count: nat) -> Option<Seq<i64>>
    decreases count,
{
    if count == 0 {
        None
    } else {
        match number_at(t, i) {
            None => None,
            Some((n, e)) => if count == 1 {
                if e == t.len() {
                    Some(seq![n.fixed() as i64])
                } else {
                    None
                }
            } else if 0 <= e < t.len() && t[e] == COMMA {
                match numbers_from(t, e + 1, (count - 1) as nat) {
                    Some(rest) => Some(seq![n.fixed() as i64] + rest),
                    None => None,
                }
            } else {
                None
            },
        }
    }
}

/// The `count` whole numbers, separated by commas, that `t` writes from
/// position `i` to its end.
pub open spec fn unsigneds_from(t: Seq<u8>, i: int, count: nat) -> Option<Seq<u32>>
    decreases count,
{
    if count == 0 {
        None
    } else {
        match unsigned_at(t, i) {
            None => None,
            Some((v, e)) => if count == 1 {
                if e == t.len() {
                    Some(seq![v])
                } else {
                    None
                }
            } else if 0 <= e < t.len() && t[e] == COMMA {
                match unsigneds_from(t, e + 1, (count - 1) as nat) {
                    Some(rest) => Some(seq![v] + rest),
                    None => None,
                }
            } else {
                None
            },
        }
    }
}

/// The point that `t` writes as three numbers.
pub open spec fn point_of(t: Seq<u8>) -> Option<Vec3> {
    match numbers_from(t, 0, 3) {
        Some(v) => Some(Vec3 { x: v[0], y: v[1], z: v[2] }),
        None => None,
    }
}

/// The run state that the token `t` names.
pub open spec fn state_of(t: Seq<u8>) -> Option<GRBLState> {
    if t == "Idle".spec_bytes() {
        Some(GRBLState::Idle)
    } else if t == "Run".spec_bytes() {
        Some(GRBLState::Run)
    } else if t == "Jog".spec_bytes() {
        Some(GRBLState::Jog)
    } else if t == "Alarm".spec_bytes() {
        Some(GRBLState::Alarm)
    } else if t == "Check".spec_bytes() {
        Some(GRBLState::Check)
    } else if t == "Home".spec_bytes() {
        Some(GRBLState::Home)
    } else if t == "Sleep".spec_bytes() {
        Some(GRBLState::Sleep)
    } else if t == "Hold:0".spec_bytes() {
        Some(GRBLState::Hold(false))
    } else if t == "Hold:1".spec_bytes() {
        Some(GRBLState::Hold(true))
    } else {
        match rest_after(t, "Door:".spec_bytes()) {
            Some(rest) => if rest.len() == 1 && is_digit(rest[0]) {
                Some(GRBLState::Door((rest[0] - 0x30) as u8))
            } else {
                None
            },
            None => None,
        }
    }
}

/// The field that the token `t` writes, where it is a field of numbers.
pub open spec fn data_field_of(t: Seq<u8>) -> Option<StatusField> {
    if let Some(rest) = rest_after(t, "MPos:".spec_bytes()) {
        match point_of(rest) {
            Some(p) => Some(StatusField::MachinePosition(p)),
            None => None,
        }
    } else if let Some(rest) = rest_after(t, "WPos:".spec_bytes()) {
        match point_of(rest) {
            Some(p) => Some(StatusField::WorkPosition(p)),
            None => None,
        }
    } else if let Some(rest) = rest_after(t, "WCO:".spec_bytes()) {
        match point_of(rest) {
            Some(p) => Some(StatusField::WorkOffset(p)),
            None => None,
        }
    } else if let Some(rest) = rest_after(t, "Bf:".spec_bytes()) {
        match unsigneds_from(rest, 0, 2) {
            Some(v) => Some(StatusField::Buffer { blocks: v[0], bytes: v[1] }),
            None => None,
        }
    } else if let Some(rest) = rest_after(t, "Ln:".spec_bytes()) {
        match unsigneds_from(rest, 0, 1) {
            Some(v) => Some(StatusField::LineNumber(v[0])),
            None => None,
        }
    } else if let Some(rest) = rest_after(t, "FS:".spec_bytes()) {
        match numbers_from(rest, 0, 2) {
            Some(v) => Some(StatusField::FeedAndSpeed { feed: v[0], speed: v[1] }),
            None => None,
        }
    } else if let Some(rest) = rest_after(t, "F:".spec_bytes()) {
        match numbers_from(rest, 0, 1) {
            Some(v) => Some(StatusField::Feed(v[0])),
            None => None,
        }
    } else if let Some(rest) = rest_after(t, "Ov:".spec_bytes()) {
        match unsigneds_from(rest, 0, 3) {
            Some(v) => Some(StatusField::Overrides {
                feed_percent: v[0],
                rapid_percent: v[1],
                spindle_percent: v[2],
            }),
            None => None,
        }
    } else if rest_after(t, "Pn:".spec_bytes()).is_some() {
        Some(StatusField::Inputs)
    } else if rest_after(t, "A:".spec_bytes()).is_some() {
        Some(StatusField::Accessories)
    } else {
        None
    }
}

/// The field that the token `t` writes.
pub open spec fn field_of(t: Seq<u8>) -> Option<StatusField> {
    match state_of(t) {
        Some(state) => Some(StatusField::State(state)),
        None => data_field_of(t),
    }
}

/// The fields, separated by bars, that `body` writes from position `i` to
/// its end: at least one.
///
/// A status report holds any of the fields, in any order; between its angle
/// brackets stands either nothing or what this reads.
pub open spec fn fields_from(body: Seq<u8>, i: int) -> Option<Seq<StatusField>>
    decreases body.len() - i,
{
    let e = i + span_until(body, i, BAR);
    match field_of(body.subrange(i, e)) {
        None => None,
        Some(f) => if e >= body.len() {
            Some(seq![f])
        } else {
            match fields_from(body, e + 1) {
                Some(rest) => Some(seq![f] + rest),
                None => None,
            }
        },
    }
}

/// The setting that the line `c`, which starts with a dollar sign, reports.
pub open spec fn setting_of(c: Seq<u8>) -> Option<Message> {
    match unsigned_at(c, 1) {
        Some((n, e)) => if n <= 0xff && 0 <= e < c.len() && c[e] == EQUALS {
            Some(Message::Setting { number: n as u8, value: c.subrange(e + 1, c.len() as int) })
        } else {
            None
        },
        None => None,
    }
}

/// The message that the line `c` writes, where `c` is a line without its
/// line break.
pub open spec fn message_of(c: Seq<u8>) -> Option<Message> {
    if c == "ok".spec_bytes() {
        Some(Message::OkResponse)
    } else if let Some(rest) = rest_after(c, "error:".spec_bytes()) {
        Some(Message::ErrorResponse(code_of(rest)))
    } else if let Some(rest) = rest_after(c, "ALARM:".spec_bytes()) {
        match code_of(rest) {
            Some(code) => Some(Message::Alarm(code)),
            None => None,
        }
    } else if starts_with(c, 0, "Grbl ".spec_bytes()) {
        Some(Message::Welcome)
    } else if c.len() >= 2 && c[0] == LESS && c[c.len() - 1] == GREATER {
        if c.len() == 2 {
            Some(Message::Status(Seq::empty()))
        } else {
            match fields_from(c.subrange(1, c.len() - 1), 0) {
                Some(fields) => Some(Message::Status(fields)),
                None => None,
            }
        }
    } else if c.len() >= 2 && c[0] == BRACKET_OPEN && c[c.len() - 1] == BRACKET_CLOSE {
        Some(Message::Feedback)
    } else if c.len() >= 1 && c[0] == GREATER {
        Some(Message::StartupLine)
    } else if c.len() >= 1 && c[0] == DOLLAR {
        setting_of(c)
    } else {
        None
    }
}

/// Where the first line of `buf` starts, where its text ends and where the
/// next line starts, or `None` where `buf` holds no whole line yet.
///
/// Line breaks before the line are passed over. The line ends at the first
/// line feed; a carriage return just before it is no part of the text.
pub open spec fn first_line(buf: Seq<u8>) -> Option<(int, int, int)> {
    let start = break_run(buf, 0) as int;
    let stop = start + span_until(buf, start, LF);
    if stop >= buf.len() {
        None
    } else if stop > start && buf[stop - 1] == CR {
        Some((start, stop - 1, stop + 1))
    } else {
        Some((start, stop, stop + 1))
    }
}

/// The message that the first line of `buf` writes and the number of bytes
/// that it takes up, or `None` where `buf` holds no whole line or the line
/// is no message.
pub open spec fn parsed_line(buf: Seq<u8>) -> Option<(Message, int)> {
    match first_line(buf) {
        Some((a, b, n)) => match message_of(buf.subrange(a, b)) {
            Some(m) => Some((m, n)),
            None => None,
        },
        None => None,
    }
}

/// The parser for lines of firmware output.
pub struct GRBLParser;

/// What follows `lit` in `t`, where `t` starts with `lit`.
fn strip_prefix<'a>(t: &'a [u8], lit: &str) -> (r: Option<&'a [u8]>)
    ensures
        match r {
            Some(rest) => rest_after(t@, lit.spec_bytes()) == Some(rest@),
            None => rest_after(t@, lit.spec_bytes()).is_none(),
        },
{
    let l = lit.as_bytes();
    if has_prefix(t, 0, l) {
        Some(slice_subrange(t, l.len(), t.len()))
    } else {
        None
    }
}

/// Whether `t` is exactly the text `lit`.
fn is_word(t: &[u8], lit: &str) -> (r: bool)
    ensures
        r == (t@ == lit.spec_bytes()),
{
    is_text(t, lit.as_bytes())
}

/// Reads the number up to 255 that `t` as a whole writes.
fn read_code(t: &[u8]) -> (r: Option<u8>)
    ensures
        r == code_of(t@),
{
    match scan_unsigned(t, 0) {
        Some((v, end)) => if end == t.len() && v <= 0xff {
            Some(v as u8)
        } else {
            None
        },
        None => None,
    }
}

/// Reads `count` decimal numbers separated by commas.
fn read_numbers(t: &[u8], count: usize) -> (r: Option<Vec<i64>>)
    ensures
        match r {
            Some(v) => numbers_from(t@, 0, count as nat) == Some(v@) && v@.len() == count,
            None => numbers_from(t@, 0, count as nat).is_none(),
        },
{
    if count == 0 {
        return None;
    }
    let mut out: Vec<i64> = Vec::new();
    let mut i: usize = 0;
    loop
        invariant
            i <= t.len(),
            out@.len() < count,
            numbers_from(t@, 0, count as nat) == match numbers_from(
                t@,
                i as int,
                (count - out@.len()) as nat,
            ) {
                Some(rest) => Some(out@ + rest),
                None => None,
            },
        decreases count - out@.len(),
    {
        let (n, e) = match scan_number(t, i) {
            Some(found) => found,
            None => {
                return None;
            },
        };
        proof {
            crate::decimal::lemma_number_at_bounds(t@, i as int);
        }
        let value = n.to_fixed();
        if out.len() + 1 == count {
            if e == t.len() {
                out.push(value);
                return Some(out);
            }
            return None;
        }
        if e >= t.len() || t[e] != COMMA {
            return None;
        }
        proof {
            let rest = numbers_from(t@, e + 1, (count - out@.len() - 1) as nat);
            if rest.is_some() {
                assert(out@.push(value) + rest.unwrap() =~= out@ + (seq![value] + rest.unwrap()));
            }
        }
        out.push(value);
        i = e + 1;
    }
}

/// Reads `count` whole numbers separated by commas.
fn read_unsigneds(t: &[u8], count: usize) -> (r: Option<Vec<u32>>)
    ensures
        match r {
            Some(v) => unsigneds_from(t@, 0, count as nat) == Some(v@) && v@.len() == count,
            None => unsigneds_from(t@, 0, count as nat).is_none(),
        },
{
    if count == 0 {
        return None;
    }
    let mut out: Vec<u32> = Vec::new();
    let mut i: usize = 0;
    loop
        invariant
            i <= t.len(),
            out@.len() < count,
            unsigneds_from(t@, 0, count as nat) == match unsigneds_from(
                t@,
                i as int,
                (count - out@.len()) as nat,
            ) {
                Some(rest) => Some(out@ + rest),
                None => None,
            },
        decreases count - out@.len(),
    {
        let (value, e) = match scan_unsigned(t, i) {
            Some(found) => found,
            None => {
                return None;
            },
        };
        proof {
            crate::decimal::lemma_digits_end_bounds(t@, i as int);
        }
        if out.len() + 1 == count {
            if e == t.len() {
                out.push(value);
                return Some(out);
            }
            return None;
        }
        if e >= t.len() || t[e] != COMMA {
            return None;
        }
        proof {
            let rest = unsigneds_from(t@, e + 1, (count - out@.len() - 1) as nat);
            if rest.is_some() {
                assert(out@.push(value) + rest.unwrap() =~= out@ + (seq![value] + rest.unwrap()));
            }
        }
        out.push(value);
        i = e + 1;
    }
}

/// Reads the point that `t` writes as three numbers.
fn read_point(t: &[u8]) -> (r: Option<Vec3>)
    ensures
        r == point_of(t@),
{
    match read_numbers(t, 3) {
        Some(v) => Some(Vec3 { x: v[0], y: v[1], z: v[2] }),
        None => None,
    }
}

impl GRBLParser {
    /// Reads the run state that a token names.
    pub fn state(t: &[u8]) -> (r: Option<GRBLState>)
        ensures
            r == state_of(t@),
    {
        if is_word(t, "Idle") {
            Some(GRBLState::Idle)
        } else if is_word(t, "Run") {
            Some(GRBLState::Run)
        } else if is_word(t, "Jog") {
            Some(GRBLState::Jog)
        } else if is_word(t, "Alarm") {
            Some(GRBLState::Alarm)
        } else if is_word(t, "Check") {
            Some(GRBLState::Check)
        } else if is_word(t, "Home") {
            Some(GRBLState::Home)
        } else if is_word(t, "Sleep") {
            Some(GRBLState::Sleep)
        } else if is_word(t, "Hold:0") {
            Some(GRBLState::Hold(false))
        } else if is_word(t, "Hold:1") {
            Some(GRBLState::Hold(true))
        } else {
            match strip_prefix(t, "Door:") {
                Some(rest) => if rest.len() == 1 && 0x30 <= rest[0] && rest[0] <= 0x39 {
                    Some(GRBLState::Door(rest[0] - 0x30))
                } else {
                    None
                },
                None => None,
            }
        }
    }

    /// Reads a field of numbers of a status report.
    fn data_field(t: &[u8]) -> (r: Option<StatusField>)
        ensures
            r == data_field_of(t@),
    {
        if let Some(rest) = strip_prefix(t, "MPos:") {
            match read_point(rest) {
                Some(p) => Some(StatusField::MachinePosition(p)),
                None => None,
            }
        } else if let Some(rest) = strip_prefix(t, "WPos:") {
            match read_point(rest) {
                Some(p) => Some(StatusField::WorkPosition(p)),
                None => None,
            }
        } else if let Some(rest) = strip_prefix(t, "WCO:") {
            match read_point(rest) {
                Some(p) => Some(StatusField::WorkOffset(p)),
                None => None,
            }
        } else if let Some(rest) = strip_prefix(t, "Bf:") {
            match read_unsigneds(rest, 2) {
                Some(v) => Some(StatusField::Buffer { blocks: v[0], bytes: v[1] }),
                None => None,
            }
        } else if let Some(rest) = strip_prefix(t, "Ln:") {
            match read_unsigneds(rest, 1) {
                Some(v) => Some(StatusField::LineNumber(v[0])),
                None => None,
            }
        } else if let Some(rest) = strip_prefix(t, "FS:") {
            match read_numbers(rest, 2) {
                Some(v) => Some(StatusField::FeedAndSpeed { feed: v[0], speed: v[1] }),
                None => None,
            }
        } else if let Some(rest) = strip_prefix(t, "F:") {
            match read_numbers(rest, 1) {
                Some(v) => Some(StatusField::Feed(v[0])),
                None => None,
            }
        } else if let Some(rest) = strip_prefix(t, "Ov:") {
            match read_unsigneds(rest, 3) {
                Some(v) => Some(StatusField::Overrides {
                feed_percent: v[0],
                rapid_percent: v[1],
                spindle_percent: v[2],
            }),
                None => None,
            }
        } else if strip_prefix(t, "Pn:").is_some() {
            Some(StatusField::Inputs)
        } else if strip_prefix(t, "A:").is_some() {
            Some(StatusField::Accessories)
        } else {
            None
        }
    }

    /// Reads one field of a status report.
    pub fn field(t: &[u8]) -> (r: Option<StatusField>)
        ensures
            r == field_of(t@),
    {
        match Self::state(t) {
            Some(state) => Some(StatusField::State(state)),
            None => Self::data_field(t),
        }
    }

    /// Reads the fields of a status report, given what stands between its
    /// angle brackets.
    pub fn fields(body: &[u8]) -> (r: Option<Vec<StatusField>>)
        ensures
            match r {
                Some(fields) => fields_from(body@, 0) == Some(fields@),
                None => fields_from(body@, 0).is_none(),
            },
    {
        let mut out: Vec<StatusField> = Vec::new();
        let mut i: usize = 0;
        loop
            invariant
                i <= body.len(),
                fields_from(body@, 0) == match fields_from(body@, i as int) {
                    Some(rest) => Some(out@ + rest),
                    None => None,
                },
            decreases body.len() - i,
        {
            let e = find_byte(body, i, BAR);
            let f = match Self::field(slice_subrange(body, i, e)) {
                Some(f) => f,
                None => {
                    return None;
                },
            };
            if e >= body.len() {
                out.push(f);
                return Some(out);
            }
            proof {
                let rest = fields_from(body@, e + 1);
                if rest.is_some() {
                    assert(out@.push(f) + rest.unwrap() =~= out@ + (seq![f] + rest.unwrap()));
                }
            }
            out.push(f);
            i = e + 1;
        }
    }

    /// Reads the message that one line writes, given the line without its
    /// line break.
    pub fn message(c: &[u8]) -> (r: Option<GRBLMessage>)
        ensures
            match r {
                Some(m) => message_of(c@) == Some(m@),
                None => message_of(c@).is_none(),
            },
    {
        if is_word(c, "ok") {
            return Some(GRBLMessage::OkResponse);
        }
        if let Some(rest) = strip_prefix(c, "error:") {
            return Some(GRBLMessage::ErrorResponse(read_code(rest)));
        }
        if let Some(rest) = strip_prefix(c, "ALARM:") {
            return match read_code(rest) {
                Some(code) => Some(GRBLMessage::AlarmMessage(code)),
                None => None,
            };
        }
        if strip_prefix(c, "Grbl ").is_some() {
            return Some(GRBLMessage::WelcomeMessage);
        }
        if c.len() >= 2 && c[0] == LESS && c[c.len() - 1] == GREATER {
            if c.len() == 2 {
                return Some(GRBLMessage::StatusMessage(Vec::new()));
            }
            return match Self::fields(slice_subrange(c, 1, c.len() - 1)) {
                Some(fields) => Some(GRBLMessage::StatusMessage(fields)),
                None => None,
            };
        }
        if c.len() >= 2 && c[0] == BRACKET_OPEN && c[c.len() - 1] == BRACKET_CLOSE {
            return Some(GRBLMessage::FeedbackMessage);
        }
        if c.len() >= 1 && c[0] == GREATER {
            return Some(GRBLMessage::StartupLine);
        }
        if c.len() >= 1 && c[0] == DOLLAR {
            return match scan_unsigned(c, 1) {
                Some((n, e)) => if n <= 0xff && e < c.len() && c[e] == EQUALS {
                    let mut value: Vec<u8> = Vec::new();
                    value.extend_from_slice(slice_subrange(c, e + 1, c.len()));
                    assert(value@ =~= c@.subrange(e + 1, c@.len() as int));
                    Some(GRBLMessage::SettingsMessage { number: n as u8, value })
                } else {
                    None
                },
                None => None,
            };
        }
        None
    }

    /// Reads the first line of `buf` as a message.
    ///
    /// Returns the message and the number of bytes that the line takes up,
    /// line breaks included. Returns `None` where `buf` holds no whole line
    /// yet, and where its first line is no message.
    pub fn parse(buf: &[u8]) -> (r: Option<(GRBLMessage, usize)>)
        ensures
            match r {
                Some((m, n)) => parsed_line(buf@) == Some((m@, n as int)) && 0 < n <= buf.len(),
                None => parsed_line(buf@).is_none(),
            },
    {
        let start = skip_breaks(buf, 0);
        let stop = find_byte(buf, start, LF);
        if stop >= buf.len() {
            return None;
        }
        let end: usize = if stop > start && buf[stop - 1] == CR {
            stop - 1
        } else {
            stop
        };
        match Self::message(slice_subrange(buf, start, end)) {
            Some(m) => Some((m, stop + 1)),
            None => None,
        }
    }
}

/// The word that a jog has for an axis, if it has one.
pub open spec fn axis_words(letter: u8, value: Option<i64>) -> Seq<Word> {
    match value {
        Some(v) => seq![value_word(letter, v as int)],
        None => Seq::empty(),
    }
}

/// The words that the axes and the feed of a jog are made of.
pub open spec fn jog_move_list(x: Option<i64>, y: Option<i64>, z: Option<i64>, feed: i64) -> Seq<
    Word,
> {
    axis_words(0x58, x) + (axis_words(0x59, y) + (axis_words(0x5a, z) + seq![
        value_word(0x46, feed as int),
    ]))
}

/// The words that a jog is made of: `G53` where it is in machine
/// coordinates, `G91` or `G90`, a word for each axis that moves, and the
/// feed.
pub open spec fn jog_word_list(
    x: Option<i64>,
    y: Option<i64>,
    z: Option<i64>,
    feed: i64,
    incremental: bool,
    machine_coords: bool,
) -> Seq<Word> {
    (if machine_coords {
        seq![code_word(0x47, 53)]
    } else {
        Seq::empty()
    }) + (seq![
        code_word(
            0x47,
            if incremental {
                91
            } else {
                90
            },
        ),
    ] + jog_move_list(x, y, z, feed))
}

/// Whether the value, if there is one, can be read back from its writing.
pub open spec fn readable_if_given(value: Option<i64>) -> bool {
    match value {
        Some(v) => readable(v as int),
        None => true,
    }
}

/// The bytes of the texts that a jog is put together from.
proof fn lemma_jog_texts()
    ensures
        "X".spec_bytes() == seq![0x58u8],
        "Y".spec_bytes() == seq![0x59u8],
        "Z".spec_bytes() == seq![0x5au8],
        "F".spec_bytes() == seq![0x46u8],
        "G53".spec_bytes() == seq![0x47u8] + decimal_digits(53),
        "G90".spec_bytes() == seq![0x47u8] + decimal_digits(90),
        "G91".spec_bytes() == seq![0x47u8] + decimal_digits(91),
{
    reveal_strlit("X");
    reveal_strlit("Y");
    reveal_strlit("Z");
    reveal_strlit("F");
    reveal_strlit("G53");
    reveal_strlit("G90");
    reveal_strlit("G91");
    vstd::utf8::is_ascii_chars_encode_utf8("X"@);
    vstd::utf8::is_ascii_chars_encode_utf8("Y"@);
    vstd::utf8::is_ascii_chars_encode_utf8("Z"@);
    vstd::utf8::is_ascii_chars_encode_utf8("F"@);
    vstd::utf8::is_ascii_chars_encode_utf8("G53"@);
    vstd::utf8::is_ascii_chars_encode_utf8("G90"@);
    vstd::utf8::is_ascii_chars_encode_utf8("G91"@);
    reveal_with_fuel(decimal_digits, 3);
    assert("X".spec_bytes() =~= seq![0x58u8]);
    assert("Y".spec_bytes() =~= seq![0x59u8]);
    assert("Z".spec_bytes() =~= seq![0x5au8]);
    assert("F".spec_bytes() =~= seq![0x46u8]);
    assert("G53".spec_bytes() =~= seq![0x47u8] + decimal_digits(53));
    assert("G90".spec_bytes() =~= seq![0x47u8] + decimal_digits(90));
    assert("G91".spec_bytes() =~= seq![0x47u8] + decimal_digits(91));
}

/// The word of an axis, where there is one, reads back in front of what
/// follows it.
proof fn lemma_axis_words(letter: u8, value: Option<i64>, rest: Seq<u8>, words: Seq<Word>)
    requires
        is_letter(letter),
        readable_if_given(value),
        rest.len() > 0,
        is_letter(rest[0]),
        line_words(rest) == Some(words),
    ensures
        line_words(axis_text(seq![letter], value) + rest) == Some(axis_words(letter, value) + words),
        (axis_text(seq![letter], value) + rest).len() > 0,
        is_letter((axis_text(seq![letter], value) + rest)[0]),
{
    match value {
        Some(v) => {
            lemma_value_word(letter, v as int, rest);
            assert(axis_text(seq![letter], value) + rest =~= seq![letter] + fixed_text(v as int)
                + rest);
        },
        None => {
            assert(axis_text(seq![letter], value) + rest =~= rest);
            assert(axis_words(letter, value) + words =~= words);
        },
    }
}

/// The axis words and the feed word of a jog read back as the words that
/// they were made of.
proof fn lemma_jog_moves(x: Option<i64>, y: Option<i64>, z: Option<i64>, feed: i64)
    requires
        readable_if_given(x),
        readable_if_given(y),
        readable_if_given(z),
        readable(feed as int),
    ensures
        line_words(jog_moves(x, y, z, feed)) == Some(jog_move_list(x, y, z, feed)),
        jog_moves(x, y, z, feed).len() > 0,
        is_letter(jog_moves(x, y, z, feed)[0]),
{
    lemma_jog_texts();
    let none = Seq::<u8>::empty();
    assert(line_words(none) == Some(Seq::<Word>::empty()));
    let t5 = feed_text(feed);
    let w5 = seq![value_word(0x46, feed as int)];
    lemma_value_word(0x46, feed as int, none);
    assert(seq![0x46u8] + fixed_text(feed as int) + none =~= t5);
    assert(seq![value_word(0x46, feed as int)] + Seq::<Word>::empty() =~= w5);
    assert(t5[0] == 0x46);
    let t4 = axis_text(seq![0x5au8], z) + t5;
    let w4 = axis_words(0x5a, z) + w5;
    lemma_axis_words(0x5a, z, t5, w5);
    let t3 = axis_text(seq![0x59u8], y) + t4;
    let w3 = axis_words(0x59, y) + w4;
    lemma_axis_words(0x59, y, t4, w4);
    lemma_axis_words(0x58, x, t3, w3);
}

/// The words of a jog command read back through the G-code tokenizer as the
/// words that the command was made of, each with the value that was given.
pub proof fn lemma_jog_round_trip(
    x: Option<i64>,
    y: Option<i64>,
    z: Option<i64>,
    feed: i64,
    incremental: bool,
    machine_coords: bool,
)
    requires
        readable_if_given(x),
        readable_if_given(y),
        readable_if_given(z),
        readable(feed as int),
    ensures
        line_words(jog_words(x, y, z, feed, incremental, machine_coords)) == Some(
            jog_word_list(x, y, z, feed, incremental, machine_coords),
        ),
{
    lemma_jog_texts();
    lemma_jog_moves(x, y, z, feed);
    let t2 = jog_moves(x, y, z, feed);
    let code: nat = if incremental {
        91
    } else {
        90
    };
    let t1 = seq![0x47u8] + decimal_digits(code) + t2;
    lemma_code_word(0x47, code, t2);
    assert(t1[0] == 0x47);
    if machine_coords {
        lemma_code_word(0x47, 53, t1);
    } else {
        assert(Seq::<u8>::empty() + t1 =~= t1);
        let w1 = seq![code_word(0x47, code)] + jog_move_list(x, y, z, feed);
        assert(Seq::<Word>::empty() + w1 =~= w1);
    }
}

/// The bytes of the texts by which lines of firmware output are told apart.
proof fn lemma_marker_texts()
    ensures
        "ok".spec_bytes() == seq![0x6fu8, 0x6b],
        "error:".spec_bytes().len() == 6,
        "error:".spec_bytes()[0] == 0x65,
        "ALARM:".spec_bytes().len() == 6,
        "ALARM:".spec_bytes()[0] == 0x41,
        "Grbl ".spec_bytes().len() == 5,
        "Grbl ".spec_bytes()[0] == 0x47,
        "$".spec_bytes() == seq![0x24u8],
        "=".spec_bytes() == seq![0x3du8],
        "\n".spec_bytes() == seq![0x0au8],
{
    reveal_strlit("ok");
    reveal_strlit("error:");
    reveal_strlit("ALARM:");
    reveal_strlit("Grbl ");
    reveal_strlit("$");
    reveal_strlit("=");
    reveal_strlit("\n");
    vstd::utf8::is_ascii_chars_encode_utf8("ok"@);
    vstd::utf8::is_ascii_chars_encode_utf8("error:"@);
    vstd::utf8::is_ascii_chars_encode_utf8("ALARM:"@);
    vstd::utf8::is_ascii_chars_encode_utf8("Grbl "@);
    vstd::utf8::is_ascii_chars_encode_utf8("$"@);
    vstd::utf8::is_ascii_chars_encode_utf8("="@);
    vstd::utf8::is_ascii_chars_encode_utf8("\n"@);
    assert("ok".spec_bytes() =~= seq![0x6fu8, 0x6b]);
    assert("$".spec_bytes() =~= seq![0x24u8]);
    assert("=".spec_bytes() =~= seq![0x3du8]);
    assert("\n".spec_bytes() =~= seq![0x0au8]);
}

/// A text that starts with another starts with the other's first byte.
proof fn lemma_starts_with_first(s: Seq<u8>, lit: Seq<u8>)
    requires
        lit.len() > 0,
        starts_with(s, 0, lit),
    ensures
        s.len() > 0,
        s[0] == lit[0],
{
    assert(s.subrange(0, lit.len() as int)[0] == s[0]);
}

/// The line of a setting reads as the message that reports the setting,
/// with the number and the value that the line was made of.
pub proof fn lemma_setting_line(number: u8, value: Seq<u8>)
    ensures
        message_of(setting_line(number as nat, value)) == Some(
            Message::Setting { number, value },
        ),
{
    lemma_marker_texts();
    let c = setting_line(number as nat, value);
    let digits = decimal_digits(number as nat);
    crate::decimal::lemma_decimal_digits(number as nat);
    let e = 1 + digits.len() as int;
    assert(c[0] == 0x24);
    assert(c[e] == 0x3d);
    assert(c.subrange(1, e) =~= digits);
    assert(c.subrange(e + 1, c.len() as int) =~= value);
    lemma_unsigned_at_whole(c, 1, number as nat);
    if starts_with(c, 0, "error:".spec_bytes()) {
        lemma_starts_with_first(c, "error:".spec_bytes());
    }
    if starts_with(c, 0, "ALARM:".spec_bytes()) {
        lemma_starts_with_first(c, "ALARM:".spec_bytes());
    }
    if starts_with(c, 0, "Grbl ".spec_bytes()) {
        lemma_starts_with_first(c, "Grbl ".spec_bytes());
    }
}

/// A line with its line feed is read whole: where the text of the line
/// holds no line feed, does not start with a line break and does not end in
/// a carriage return, the line is the first line of the bytes, its text is
/// what is read as a message, and all of its bytes are taken up.
pub proof fn lemma_whole_line(c: Seq<u8>)
    requires
        c.len() > 0,
        forall|i: int| 0 <= i < c.len() ==> #[trigger] c[i] != LF,
        !is_break(c[0]),
        c[c.len() - 1] != CR,
    ensures
        first_line(c + seq![LF]) == Some((0int, c.len() as int, c.len() as int + 1)),
        parsed_line(c + seq![LF]) == match message_of(c) {
            Some(m) => Some((m, c.len() as int + 1)),
            None => None,
        },
{
    let buf = c + seq![LF];
    assert(buf[0] == c[0]);
    assert(break_run(buf, 0) == 0);
    assert forall|j: int| 0 <= j < c.len() implies #[trigger] buf[j] != LF by {
        assert(buf[j] == c[j]);
    }
    assert(buf[c.len() as int] == LF);
    lemma_span_until_run(buf, 0, c.len() as int, LF);
    assert(buf[c.len() - 1] == c[c.len() - 1]);
    assert(buf.subrange(0, c.len() as int) =~= c);
}

/// The command that sets a setting, as it goes over the wire, reads back
/// as the message that reports the setting: with the same number and the
/// same value.
pub proof fn lemma_setting_command_round_trip(number: u8, value: Seq<u8>)
    requires
        forall|i: int| 0 <= i < value.len() ==> #[trigger] value[i] != LF,
        value.len() == 0 || value[value.len() - 1] != CR,
    ensures
        parsed_line(setting_line(number as nat, value) + "\n".spec_bytes()) == Some(
            (Message::Setting { number, value }, setting_line(number as nat, value).len() as int + 1),
        ),
{
    lemma_marker_texts();
    let c = setting_line(number as nat, value);
    let digits = decimal_digits(number as nat);
    crate::decimal::lemma_decimal_digits(number as nat);
    let e = 1 + digits.len() as int;
    assert(c[0] == 0x24);
    assert(c[e] == 0x3d);
    assert forall|i: int| 0 <= i < c.len() implies #[trigger] c[i] != LF by {
        if 1 <= i < e {
            assert(c[i] == digits[i - 1]);
        } else if i > e {
            assert(c[i] == value[i - e - 1]);
        }
    }
    if value.len() > 0 {
        assert(c[c.len() - 1] == value[value.len() - 1]);
    } else {
        assert(c[c.len() - 1] == 0x3d);
    }
    lemma_whole_line(c);
    lemma_setting_line(number, value);
}

} // verus!
