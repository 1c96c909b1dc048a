//! What the firmware reports of itself: its run state, its live status and
//! its numbered settings.

use crate::decimal::{
    clamp, decimal_digits, fixed_text, lemma_decimal_digits, lemma_digits_end_run,
    lemma_number_at_fixed_text, lemma_number_at_whole, number_at, push_decimal, push_fixed,
    readable, saturating_sum, scan_number, scan_unsigned, unsigned_at,
};
use crate::geometry::Vec3;
use crate::grbl::msgs::{GRBLCommand, StatusField};
use vstd::prelude::*;
use vstd::string::StringSliceAdditionalSpecFns;

verus! {

/// What the machine is doing.
#[derive(Debug, Copy, Clone, PartialEq, Eq, Structural)]
pub enum GRBLState {
    Idle,
    Run,
    /// Feed hold; the flag says whether the hold is still being carried out.
    Hold(bool),
    Jog,
    Alarm,
    /// Safety door; the code says how far the door sequence has come.
    Door(u8),
    Check,
    Home,
    Sleep,
}

impl Default for GRBLState {
    fn default() -> (r: Self)
        ensures
            r == GRBLState::Idle,
    {
        GRBLState::Idle
    }
}

/// The live status of the machine, as the last status reports gave it.
#[derive(Debug, Copy, Clone, PartialEq, Eq, Structural)]
pub struct GRBLStatus {
    pub machine_position: Vec3,
    pub work_offset: Vec3,
    pub state: GRBLState,
    pub buffer_free_blocks: u32,
    pub buffer_free_bytes: u32,
    pub line_number: u32,
    pub feed: i64,
    pub speed: i64,
    pub override_feed: u32,
    pub override_speed: u32,
    pub override_rapid: u32,
    pub spindle_cw: bool,
    pub spindle_ccw: bool,
    pub flood_coolant: bool,
    pub mist_coolant: bool,
}

impl GRBLStatus {
    /// The status before any report: idle at the origin, everything zero.
    pub open spec fn initial() -> GRBLStatus {
        GRBLStatus {
            machine_position: Vec3 { x: 0, y: 0, z: 0 },
            work_offset: Vec3 { x: 0, y: 0, z: 0 },
            state: GRBLState::Idle,
            buffer_free_blocks: 0,
            buffer_free_bytes: 0,
            line_number: 0,
            feed: 0,
            speed: 0,
            override_feed: 0,
            override_speed: 0,
            override_rapid: 0,
            spindle_cw: false,
            spindle_ccw: false,
            flood_coolant: false,
            mist_coolant: false,
        }
    }
}

/// The machine position that a work position stands for: the work position
/// plus the offset of the work coordinates, each axis held to 64 bits.
pub open spec fn machine_from_work(work: Vec3, offset: Vec3) -> Vec3 {
    Vec3 {
        x: clamp(work.x + offset.x),
        y: clamp(work.y + offset.y),
        z: clamp(work.z + offset.z),
    }
}

impl GRBLStatus {
    /// The status after one field of a status report.
    ///
    /// A machine position is taken as it is. A work position is taken
    /// together with the work offset that is known by then. Input pins and
    /// accessories leave the status as it is.
    pub open spec fn after_field(self, f: StatusField) -> GRBLStatus {
        match f {
            StatusField::State(state) => GRBLStatus { state, ..self },
            StatusField::MachinePosition(p) => GRBLStatus { machine_position: p, ..self },
            StatusField::WorkPosition(p) => GRBLStatus {
                machine_position: machine_from_work(p, self.work_offset),
                ..self
            },
            StatusField::WorkOffset(p) => GRBLStatus { work_offset: p, ..self },
            StatusField::Buffer { blocks, bytes } => GRBLStatus {
                buffer_free_blocks: blocks,
                buffer_free_bytes: bytes,
                ..self
            },
            StatusField::LineNumber(n) => GRBLStatus { line_number: n, ..self },
            StatusField::Feed(feed) => GRBLStatus { feed, ..self },
            StatusField::FeedAndSpeed { feed, speed } => GRBLStatus { feed, speed, ..self },
            StatusField::Overrides { feed_percent, rapid_percent, spindle_percent } => GRBLStatus {
                override_feed: feed_percent,
                override_rapid: rapid_percent,
                override_speed: spindle_percent,
                ..self
            },
            StatusField::Inputs | StatusField::Accessories => self,
        }
    }

    /// The status after the first `n` fields of a status report, taken in
    /// order.
    pub open spec fn after_fields(self, fields: Seq<StatusField>, n: int) -> GRBLStatus
        decreases n,
    {
        if n <= 0 {
            self
        } else {
            self.after_fields(fields, n - 1).after_field(fields[n - 1])
        }
    }

    /// Takes over one field of a status report.
    pub fn apply_field(&mut self, f: StatusField)
        ensures
            *final(self) == old(self).after_field(f),
    {
        match f {
            StatusField::State(state) => {
                self.state = state;
            },
            StatusField::MachinePosition(p) => {
                self.machine_position = p;
            },
            StatusField::WorkPosition(p) => {
                self.machine_position = Vec3 {
                    x: saturating_sum(p.x, self.work_offset.x),
                    y: saturating_sum(p.y, self.work_offset.y),
                    z: saturating_sum(p.z, self.work_offset.z),
                };
            },
            StatusField::WorkOffset(p) => {
                self.work_offset = p;
            },
            StatusField::Buffer { blocks, bytes } => {
                self.buffer_free_blocks = blocks;
                self.buffer_free_bytes = bytes;
            },
            StatusField::LineNumber(n) => {
                self.line_number = n;
            },
            StatusField::Feed(feed) => {
                self.feed = feed;
            },
            StatusField::FeedAndSpeed { feed, speed } => {
                self.feed = feed;
                self.speed = speed;
            },
            StatusField::Overrides { feed_percent, rapid_percent, spindle_percent } => {
                self.override_feed = feed_percent;
                self.override_rapid = rapid_percent;
                self.override_speed = spindle_percent;
            },
            StatusField::Inputs => {},
            StatusField::Accessories => {},
        }
    }

    /// Takes over the fields of a status report, in order.
    pub fn apply_fields(&mut self, fields: &[StatusField])
        ensures
            *final(self) == old(self).after_fields(fields@, fields@.len() as int),
    {
        let mut i: usize = 0;
        while i < fields.len()
            invariant
                i <= fields.len(),
                *self == old(self).after_fields(fields@, i as int),
            decreases fields.len() - i,
        {
            self.apply_field(fields[i]);
            i = i + 1;
        }
    }
}

impl Default for GRBLStatus {
    fn default() -> (r: Self)
        ensures
            r == GRBLStatus::initial(),
    {
        GRBLStatus {
            machine_position: Vec3 { x: 0, y: 0, z: 0 },
            work_offset: Vec3 { x: 0, y: 0, z: 0 },
            state: GRBLState::Idle,
            buffer_free_blocks: 0,
            buffer_free_bytes: 0,
            line_number: 0,
            feed: 0,
            speed: 0,
            override_feed: 0,
            override_speed: 0,
            override_rapid: 0,
            spindle_cw: false,
            spindle_ccw: false,
            flood_coolant: false,
            mist_coolant: false,
        }
    }
}

/// The bit of the X axis in an axis mask.
pub const AXIS_X: u8 = 1;

/// The bit of the Y axis in an axis mask.
pub const AXIS_Y: u8 = 2;

/// The bit of the Z axis in an axis mask.
pub const AXIS_Z: u8 = 4;

/// A set of axes.
#[derive(Debug, Copy, Clone, PartialEq, Eq, Structural)]
pub struct AxisMask {
    pub bits: u8,
}

impl AxisMask {
    /// The mask with these bits, where they name axes only.
    pub fn from_bits(bits: u8) -> (r: Option<AxisMask>)
        ensures
            r == if bits <= 7 {
                Some(AxisMask { bits })
            } else {
                None
            },
    {
        if bits <= 7 {
            Some(AxisMask { bits })
        } else {
            None
        }
    }

    /// Whether the mask holds every axis of `axes`.
    pub fn contains(&self, axes: u8) -> (r: bool)
        ensures
            r == (self.bits & axes == axes),
    {
        self.bits & axes == axes
    }
}

/// The bit that asks for the machine position in status reports.
pub const REPORT_MACHINE_POS: u8 = 1;

/// The bit that asks for the buffer state in status reports.
pub const REPORT_BUFFER_DATA: u8 = 2;

/// What a status report is to hold.
#[derive(Debug, Copy, Clone, PartialEq, Eq, Structural)]
pub struct StatusReportMask {
    pub bits: u8,
}

impl StatusReportMask {
    /// The mask with these bits, where they name report options only.
    pub fn from_bits(bits: u8) -> (r: Option<StatusReportMask>)
        ensures
            r == if bits <= 3 {
                Some(StatusReportMask { bits })
            } else {
                None
            },
    {
        if bits <= 3 {
            Some(StatusReportMask { bits })
        } else {
            None
        }
    }

    /// Whether the mask holds every option of `options`.
    pub fn contains(&self, options: u8) -> (r: bool)
        ensures
            r == (self.bits & options == options),
    {
        self.bits & options == options
    }
}

/// How many numbered settings the firmware has.
pub const SETTING_COUNT: usize = 34;

/// How the value of a setting is written and what it may be.
#[derive(Debug, Copy, Clone, PartialEq, Eq, Structural)]
pub enum SettingKind {
    /// A whole number of 16 bits.
    Word,
    /// A whole number of 8 bits.
    Byte,
    /// A set of axes.
    Axes,
    /// Zero or one.
    Flag,
    /// A set of report options.
    Report,
    /// A fixed-point number, written with six decimal places.
    Real,
    /// A whole number of 16 bits that the firmware may report with decimal
    /// places.
    WholeReal,
}

/// The numbers of the settings, in the order in which they are held.
pub open spec fn setting_numbers() -> Seq<u8> {
    seq![
        0u8, 1, 2, 3, 4, 5, 6, 10, 11, 12, 13, 20, 21, 22, 23, 24, 25, 26, 27, 30, 31, 32, 100, 101,
        102, 110, 111, 112, 120, 121, 122, 130, 131, 132,
    ]
}

/// Where the setting with this number is held, if there is such a setting.
pub open spec fn position_of(number: u8) -> Option<int> {
    if number <= 6 {
        Some(number as int)
    } else if 10 <= number <= 13 {
        Some(number - 3)
    } else if 20 <= number <= 27 {
        Some(number - 9)
    } else if 30 <= number <= 32 {
        Some(number - 11)
    } else if 100 <= number <= 102 {
        Some(number - 78)
    } else if 110 <= number <= 112 {
        Some(number - 85)
    } else if 120 <= number <= 122 {
        Some(number - 92)
    } else if 130 <= number <= 132 {
        Some(number - 99)
    } else {
        None
    }
}

/// The kind of the setting with this number.
pub open spec fn kind_of(number: u8) -> SettingKind {
    if number == 0 {
        SettingKind::Word
    } else if number == 1 {
        SettingKind::Byte
    } else if number == 2 || number == 3 || number == 23 {
        SettingKind::Axes
    } else if number == 4 || number == 5 || number == 6 || number == 13 || number == 20 || number
        == 21 || number == 22 || number == 32 {
        SettingKind::Flag
    } else if number == 10 {
        SettingKind::Report
    } else if number == 26 {
        SettingKind::WholeReal
    } else {
        SettingKind::Real
    }
}

/// Whether `v` is a value that a setting of this kind may have.
pub open spec fn fits(kind: SettingKind, v: i64) -> bool {
    match kind {
        SettingKind::Word | SettingKind::WholeReal => 0 <= v <= 0xffff,
        SettingKind::Byte => 0 <= v <= 0xff,
        SettingKind::Axes => 0 <= v <= 7,
        SettingKind::Flag => 0 <= v <= 1,
        SettingKind::Report => 0 <= v <= 3,
        SettingKind::Real => true,
    }
}

/// The largest whole number that a setting of this kind may be written as.
pub open spec fn written_limit(kind: SettingKind) -> int {
    match kind {
        SettingKind::Word => 0xffff,
        SettingKind::Axes => 7,
        SettingKind::Report => 3,
        _ => 0xff,
    }
}

/// The value that `text` gives to a setting of this kind, or `None` where
/// the text is no such value.
///
/// A fixed-point setting takes a decimal number. A flag takes a whole number
/// up to 255 and is set unless that is zero. A whole number that may come
/// with decimal places loses them, and is held to its 16 bits. Every other
/// kind takes a whole number within its range.
pub open spec fn setting_value(kind: SettingKind, text: Seq<u8>) -> Option<i64> {
    match kind {
        SettingKind::Real => match number_at(text, 0) {
            Some((n, end)) => if end == text.len() {
                Some(n.fixed() as i64)
            } else {
                None
            },
            None => None,
        },
        SettingKind::WholeReal => match number_at(text, 0) {
            Some((n, end)) => if end != text.len() {
                None
            } else if n.negative {
                Some(0)
            } else if n.major > 0xffff {
                Some(0xffff)
            } else {
                Some(n.major as i64)
            },
            None => None,
        },
        _ => match unsigned_at(text, 0) {
            Some((v, end)) => if end != text.len() || v > written_limit(kind) {
                None
            } else if kind is Flag && v != 0 {
                Some(1)
            } else {
                Some(v as i64)
            },
            None => None,
        },
    }
}

/// How the value `v` of a setting of this kind is written: with six decimal
/// places for a fixed-point setting, as a whole number for every other.
pub open spec fn setting_text(kind: SettingKind, v: i64) -> Seq<u8> {
    match kind {
        SettingKind::Real => fixed_text(v as int),
        _ => decimal_digits(v as nat),
    }
}

/// The number of the setting held at `position`.
pub fn setting_number(position: usize) -> (n: u8)
    requires
        position < SETTING_COUNT,
    ensures
        n == setting_numbers()[position as int],
        position_of(n) == Some(position as int),
{
    if position <= 6 {
        position as u8
    } else if position <= 10 {
        (position + 3) as u8
    } else if position <= 18 {
        (position + 9) as u8
    } else if position <= 21 {
        (position + 11) as u8
    } else if position <= 24 {
        (position + 78) as u8
    } else if position <= 27 {
        (position + 85) as u8
    } else if position <= 30 {
        (position + 92) as u8
    } else {
        (position + 99) as u8
    }
}

/// Where the setting with this number is held, if there is such a setting.
pub fn setting_position(number: u8) -> (r: Option<usize>)
    ensures
        match r {
            Some(p) => position_of(number) == Some(p as int) && p < SETTING_COUNT
                && setting_numbers()[p as int] == number,
            None => position_of(number).is_none(),
        },
{
    if number <= 6 {
        Some(number as usize)
    } else if 10 <= number && number <= 13 {
        Some((number - 3) as usize)
    } else if 20 <= number && number <= 27 {
        Some((number - 9) as usize)
    } else if 30 <= number && number <= 32 {
        Some((number - 11) as usize)
    } else if 100 <= number && number <= 102 {
        Some((number - 78) as usize)
    } else if 110 <= number && number <= 112 {
        Some((number - 85) as usize)
    } else if 120 <= number && number <= 122 {
        Some((number - 92) as usize)
    } else if 130 <= number && number <= 132 {
        Some((number - 99) as usize)
    } else {
        None
    }
}

/// The kind of the setting with this number.
pub fn setting_kind(number: u8) -> (k: SettingKind)
    ensures
        k == kind_of(number),
{
    if number == 0 {
        SettingKind::Word
    } else if number == 1 {
        SettingKind::Byte
    } else if number == 2 || number == 3 || number == 23 {
        SettingKind::Axes
    } else if number == 4 || number == 5 || number == 6 || number == 13 || number == 20 || number
        == 21 || number == 22 || number == 32 {
        SettingKind::Flag
    } else if number == 10 {
        SettingKind::Report
    } else if number == 26 {
        SettingKind::WholeReal
    } else {
        SettingKind::Real
    }
}

/// Reads the value that `text` gives to a setting of this kind.
pub fn read_setting(kind: SettingKind, text: &[u8]) -> (r: Option<i64>)
    ensures
        r == setting_value(kind, text@),
        r matches Some(v) ==> fits(kind, v),
{
    match kind {
        SettingKind::Real => match scan_number(text, 0) {
            Some((n, end)) => if end == text.len() {
                Some(n.to_fixed())
            } else {
                None
            },
            None => None,
        },
        SettingKind::WholeReal => match scan_number(text, 0) {
            Some((n, end)) => if end != text.len() {
                None
            } else if n.negative {
                Some(0)
            } else if n.major > 0xffff {
                Some(0xffff)
            } else {
                Some(n.major as i64)
            },
            None => None,
        },
        _ => {
            let limit: u32 = match kind {
                SettingKind::Word => 0xffff,
                SettingKind::Axes => 7,
                SettingKind::Report => 3,
                _ => 0xff,
            };
            match scan_unsigned(text, 0) {
                Some((v, end)) => if end != text.len() || v > limit {
                    None
                } else if matches!(kind, SettingKind::Flag) && v != 0 {
                    Some(1)
                } else {
                    Some(v as i64)
                },
                None => None,
            }
        },
    }
}

/// The numbered settings of the firmware, each held as an integer: a
/// fixed-point setting in millionths, a flag as zero or one, a mask by its
/// bits.
#[derive(Debug, Copy, Clone)]
pub struct GRBLSettings {
    values: [i64; 34],
}

impl View for GRBLSettings {
    type V = Seq<i64>;

    /// The values of the settings, in the order of `setting_numbers`.
    closed spec fn view(&self) -> Seq<i64> {
        self.values@
    }
}

/// The settings in which the one at `position` is `v` and every other is as
/// in `values`.
pub open spec fn with_setting(values: Seq<i64>, number: u8, text: Seq<u8>) -> Seq<i64> {
    match (position_of(number), setting_value(kind_of(number), text)) {
        (Some(p), Some(v)) => values.update(p, v),
        _ => values,
    }
}

impl GRBLSettings {
    #[verifier::type_invariant]
    spec fn valid(&self) -> bool {
        forall|i: int|
            0 <= i < 34 ==> fits(kind_of(#[trigger] setting_numbers()[i]), self.values@[i])
    }

    /// Settings that are all zero.
    pub fn new() -> (r: GRBLSettings)
        ensures
            r@ == Seq::new(34, |i: int| 0i64),
    {
        let r = GRBLSettings { values: [0i64; 34] };
        assert(r.values@ =~= Seq::new(34, |i: int| 0i64));
        r
    }

    /// The value of the setting with this number, if there is such a
    /// setting.
    pub fn value(&self, number: u8) -> (r: Option<i64>)
        ensures
            self@.len() == 34,
            r == match position_of(number) {
                Some(p) => Some(self@[p]),
                None => None,
            },
            r matches Some(v) ==> fits(kind_of(number), v),
    {
        proof {
            use_type_invariant(self);
        }
        match setting_position(number) {
            Some(p) => Some(self.values[p]),
            None => None,
        }
    }

    /// The axes that the mask setting with this number holds, if there is
    /// such a setting.
    pub fn axis_mask(&self, number: u8) -> (r: Option<AxisMask>)
        ensures
            self@.len() == 34,
            r == match position_of(number) {
                Some(p) => if kind_of(number) is Axes {
                    Some(AxisMask { bits: self@[p] as u8 })
                } else {
                    None
                },
                None => None,
            },
            r matches Some(m) ==> m.bits <= 7,
    {
        match (setting_kind(number), self.value(number)) {
            (SettingKind::Axes, Some(v)) => Some(AxisMask { bits: v as u8 }),
            _ => None,
        }
    }

    /// What status reports are to hold, by the mask setting with this
    /// number, if there is such a setting.
    pub fn report_mask(&self, number: u8) -> (r: Option<StatusReportMask>)
        ensures
            self@.len() == 34,
            r == match position_of(number) {
                Some(p) => if kind_of(number) is Report {
                    Some(StatusReportMask { bits: self@[p] as u8 })
                } else {
                    None
                },
                None => None,
            },
            r matches Some(m) ==> m.bits <= 3,
    {
        match (setting_kind(number), self.value(number)) {
            (SettingKind::Report, Some(v)) => Some(StatusReportMask { bits: v as u8 }),
            _ => None,
        }
    }

    /// Whether the flag setting with this number is set, if there is such a
    /// setting.
    pub fn flag(&self, number: u8) -> (r: Option<bool>)
        ensures
            self@.len() == 34,
            r == match position_of(number) {
                Some(p) => if kind_of(number) is Flag {
                    Some(self@[p] != 0)
                } else {
                    None
                },
                None => None,
            },
    {
        match (setting_kind(number), self.value(number)) {
            (SettingKind::Flag, Some(v)) => Some(v != 0),
            _ => None,
        }
    }

    /// Gives the setting with this number the value `v`.
    ///
    /// Returns whether it did: there is a setting with this number, and `v`
    /// is a value that it may have. Else the settings stay as they are.
    pub fn set_value(&mut self, number: u8, v: i64) -> (done: bool)
        ensures
            done == (position_of(number).is_some() && fits(kind_of(number), v)),
            final(self)@ == if done {
                old(self)@.update(position_of(number).unwrap(), v)
            } else {
                old(self)@
            },
    {
        proof {
            use_type_invariant(&*self);
        }
        let kind = setting_kind(number);
        let fitting = match kind {
            SettingKind::Word | SettingKind::WholeReal => 0 <= v && v <= 0xffff,
            SettingKind::Byte => 0 <= v && v <= 0xff,
            SettingKind::Axes => 0 <= v && v <= 7,
            SettingKind::Flag => 0 <= v && v <= 1,
            SettingKind::Report => 0 <= v && v <= 3,
            SettingKind::Real => true,
        };
        match setting_position(number) {
            Some(p) => {
                if fitting {
                    self.values[p] = v;
                }
                fitting
            },
            None => false,
        }
    }

    /// Takes over the value that the firmware reports for a setting.
    ///
    /// Where there is no setting with this number, or `value` is no value
    /// for it, the settings stay as they are.
    pub fn parse_setting(&mut self, index: u8, value: &str)
        ensures
            final(self)@ == with_setting(old(self)@, index, value.spec_bytes()),
    {
        self.parse_setting_bytes(index, value.as_bytes())
    }

    /// As `parse_setting`, for a value given as bytes.
    pub fn parse_setting_bytes(&mut self, index: u8, value: &[u8])
        ensures
            final(self)@ == with_setting(old(self)@, index, value@),
    {
        proof {
            use_type_invariant(&*self);
        }
        match setting_position(index) {
            Some(p) => match read_setting(setting_kind(index), value) {
                Some(v) => {
                    self.values[p] = v;
                },
                None => {},
            },
            None => {},
        }
    }

    /// The command that writes the setting held at position `index` to the
    /// firmware, if there is such a position.
    pub fn set_one_command(&self, index: u8) -> (r: Option<GRBLCommand>)
        ensures
            self@.len() == 34,
            index >= 34 ==> r.is_none(),
            index < 34 ==> (r matches Some(GRBLCommand::Setting { setting, value }) && setting
                == setting_numbers()[index as int] && value@ == setting_text(
                kind_of(setting_numbers()[index as int]),
                self@[index as int],
            )),
    {
        proof {
            use_type_invariant(self);
        }
        if index as usize >= SETTING_COUNT {
            return None;
        }
        let number = setting_number(index as usize);
        let v: i64 = self.values[index as usize];
        let mut value: Vec<u8> = Vec::new();
        match setting_kind(number) {
            SettingKind::Real => push_fixed(&mut value, v),
            _ => {
                assert(fits(kind_of(setting_numbers()[index as int]), v));
                push_decimal(&mut value, v as u64)
            },
        }
        Some(GRBLCommand::Setting { setting: number as u32, value })
    }

    /// The commands that write every setting to the firmware, in the order
    /// of their numbers.
    pub fn set_all_command_list(&self) -> (r: Vec<GRBLCommand>)
        ensures
            self@.len() == 34,
            r@.len() == 34,
            forall|i: int|
                0 <= i < 34 ==> ((#[trigger] r@[i]) matches GRBLCommand::Setting { setting, value }
                    && setting == setting_numbers()[i] && value@ == setting_text(
                    kind_of(setting_numbers()[i]),
                    self@[i],
                )),
    {
        proof {
            use_type_invariant(self);
        }
        let mut out: Vec<GRBLCommand> = Vec::new();
        let mut i: u8 = 0;
        while i < 34
            invariant
                i <= 34,
                self@.len() == 34,
                out@.len() == i,
                forall|k: int|
                    0 <= k < i ==> ((#[trigger] out@[k]) matches GRBLCommand::Setting {
                        setting,
                        value,
                    } && setting == setting_numbers()[k] && value@ == setting_text(
                        kind_of(setting_numbers()[k]),
                        self@[k],
                    )),
            decreases 34 - i,
        {
            match self.set_one_command(i) {
                Some(c) => out.push(c),
                None => {},
            }
            i = i + 1;
        }
        out
    }
}

/// The value of a setting reads back from its writing as itself.
pub proof fn lemma_setting_round_trip(kind: SettingKind, v: i64)
    requires
        fits(kind, v),
        kind is Real ==> readable(v as int),
    ensures
        setting_value(kind, setting_text(kind, v)) == Some(v),
{
    let none = Seq::<u8>::empty();
    match kind {
        SettingKind::Real => {
            lemma_number_at_fixed_text(v as int, none);
            assert(fixed_text(v as int) + none =~= fixed_text(v as int));
        },
        SettingKind::WholeReal => {
            lemma_number_at_whole(v as nat, none);
            assert(decimal_digits(v as nat) + none =~= decimal_digits(v as nat));
        },
        _ => {
            let t = decimal_digits(v as nat);
            lemma_decimal_digits(v as nat);
            lemma_digits_end_run(t, 0, t.len() as int);
            assert(t.subrange(0, t.len() as int) =~= t);
        },
    }
}

} // verus!
