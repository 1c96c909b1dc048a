use grbl_driver::geometry::Vec3;
use grbl_driver::grbl::connection::GRBLConnection;
use grbl_driver::grbl::gcode_task::{GCodeTask, GCodeTaskMessage};
use grbl_driver::grbl::msgs::{
    GRBLCommand, GRBLMessage, GRBLParser, GRBLRealtimeCommand, StatusField,
};
use grbl_driver::grbl::state::{
    AxisMask, GRBLSettings, GRBLState, GRBLStatus, StatusReportMask, AXIS_X, AXIS_Z,
    REPORT_BUFFER_DATA,
};
use grbl_driver::simulation::GcodeProgram;

fn v(x: i64, y: i64, z: i64) -> Vec3 {
    Vec3 { x, y, z }
}

fn program(text: &str) -> GcodeProgram {
    GcodeProgram::load(String::from("job.nc"), String::from(text), &Vec::new()).unwrap()
}

#[test]
fn fixed_commands_serialize() {
    assert_eq!(GRBLCommand::QuerySettings.to_bytes(), b"$$\n".to_vec());
    assert_eq!(GRBLCommand::QueryGCodeParameters.to_bytes(), b"$#\n".to_vec());
    assert_eq!(GRBLCommand::QueryParserState.to_bytes(), b"$G\n".to_vec());
    assert_eq!(GRBLCommand::QueryBuildInfo.to_bytes(), b"$I\n".to_vec());
    assert_eq!(GRBLCommand::QueryStartupBlcoks.to_bytes(), b"$N\n".to_vec());
    assert_eq!(GRBLCommand::CheckGCodeMode.to_bytes(), b"$C\n".to_vec());
    assert_eq!(GRBLCommand::KillAlarmLock.to_bytes(), b"$X\n".to_vec());
    assert_eq!(GRBLCommand::RunHomingCycle.to_bytes(), b"$H\n".to_vec());
    assert_eq!(GRBLCommand::ResetSettings.to_bytes(), b"$RST=$\n".to_vec());
    assert_eq!(GRBLCommand::ResetGCodeParameter.to_bytes(), b"$RST=#\n".to_vec());
    assert_eq!(GRBLCommand::ResetGRBL.to_bytes(), b"$RST=*\n".to_vec());
    assert_eq!(GRBLCommand::Sleep.to_bytes(), b"$SLP\n".to_vec());
}

#[test]
fn jog_serializes_with_six_decimals() {
    let jog = GRBLCommand::Jog {
        x: Some(1_500_000),
        y: None,
        z: Some(-250),
        feed: 100_000_000,
        incremental: true,
        machine_coords: false,
    };
    assert_eq!(jog.to_bytes(), b"$J=G91X1.500000Z-0.000250F100.000000\n".to_vec());
    let jog = GRBLCommand::Jog {
        x: None,
        y: Some(0),
        z: None,
        feed: 1,
        incremental: false,
        machine_coords: true,
    };
    assert_eq!(jog.to_bytes(), b"$J=G53G90Y0.000000F0.000001\n".to_vec());
}

#[test]
fn assignments_serialize() {
    let c = GRBLCommand::Setting { setting: 110, value: b"500.000000".to_vec() };
    assert_eq!(c.to_bytes(), b"$110=500.000000\n".to_vec());
    let c = GRBLCommand::SetStartupBlock { index: 1, line: b"G54".to_vec() };
    assert_eq!(c.to_bytes(), b"$N1=G54\n".to_vec());
}

#[test]
fn realtime_bytes() {
    assert_eq!(GRBLRealtimeCommand::SoftReset.to_byte(), 0x18);
    assert_eq!(GRBLRealtimeCommand::StatusQuery.to_byte(), b'?');
    assert_eq!(GRBLRealtimeCommand::CycleStartOrResume.to_byte(), b'~');
    assert_eq!(GRBLRealtimeCommand::FeedHold.to_byte(), b'!');
    assert_eq!(GRBLRealtimeCommand::SafetyDoor.to_byte(), 0x84);
    assert_eq!(GRBLRealtimeCommand::JogCancel.to_byte(), 0x85);
    assert_eq!(GRBLRealtimeCommand::FeedOverrideDec01.to_byte(), 0x94);
    assert_eq!(GRBLRealtimeCommand::RapidOverrideQuarter.to_byte(), 0x97);
    assert_eq!(GRBLRealtimeCommand::SpindleOverrideReset.to_byte(), 0x99);
    assert_eq!(GRBLRealtimeCommand::SpindleToggle.to_byte(), 0x9e);
    assert_eq!(GRBLRealtimeCommand::FloodToggle.to_byte(), 0xa0);
    assert_eq!(GRBLRealtimeCommand::MistToggle.to_byte(), 0xa1);
}

#[test]
fn responses_parse() {
    let (m, n) = GRBLParser::parse(b"ok\r\nrest").unwrap();
    assert!(matches!(m, GRBLMessage::OkResponse));
    assert_eq!(n, 4);
    let (m, n) = GRBLParser::parse(b"\r\nerror:20\n").unwrap();
    assert!(matches!(m, GRBLMessage::ErrorResponse(Some(20))));
    assert_eq!(n, 11);
    let (m, _) = GRBLParser::parse(b"error:Bad number format\r\n").unwrap();
    assert!(matches!(m, GRBLMessage::ErrorResponse(None)));
}

#[test]
fn incomplete_and_unknown_lines_do_not_parse() {
    assert!(GRBLParser::parse(b"").is_none());
    assert!(GRBLParser::parse(b"ok").is_none());
    assert!(GRBLParser::parse(b"<Idle|MPos:0.000,0.0").is_none());
    assert!(GRBLParser::parse(b"gibberish\r\n").is_none());
    assert!(GRBLParser::parse(b"<Idle|>\r\n").is_none());
    assert!(GRBLParser::parse(b"<Idle|MPos:1,2>\r\n").is_none());
    assert!(GRBLParser::parse(b"ALARM:x\r\n").is_none());
}

#[test]
fn push_messages_parse() {
    assert!(matches!(GRBLParser::parse(b"ALARM:9\r\n").unwrap().0, GRBLMessage::AlarmMessage(9)));
    assert!(matches!(
        GRBLParser::parse(b"[MSG:Reset to continue]\r\n").unwrap().0,
        GRBLMessage::FeedbackMessage
    ));
    assert!(matches!(GRBLParser::parse(b">G54G20:ok\r\n").unwrap().0, GRBLMessage::StartupLine));
    assert!(matches!(
        GRBLParser::parse(b"Grbl 1.1h ['$' for help]\r\n").unwrap().0,
        GRBLMessage::WelcomeMessage
    ));
    match GRBLParser::parse(b"$110=500.000\r\n").unwrap().0 {
        GRBLMessage::SettingsMessage { number, value } => {
            assert_eq!(number, 110);
            assert_eq!(value, b"500.000".to_vec());
        }
        _ => panic!("expected a setting"),
    }
}

#[test]
fn status_report_parses_every_field() {
    let line = b"<Hold:1|MPos:1.000,-2.500,3|WCO:0.5,0.5,0.5|Bf:15,128|Ln:42|F:500|FS:250.5,8000|Pn:XZ|Ov:100,50,120|A:SFM>\r\n";
    let (m, n) = GRBLParser::parse(line).unwrap();
    assert_eq!(n, line.len());
    let fields = match m {
        GRBLMessage::StatusMessage(f) => f,
        _ => panic!("expected a status report"),
    };
    assert_eq!(
        fields,
        vec![
            StatusField::State(GRBLState::Hold(true)),
            StatusField::MachinePosition(v(1_000_000, -2_500_000, 3_000_000)),
            StatusField::WorkOffset(v(500_000, 500_000, 500_000)),
            StatusField::Buffer { blocks: 15, bytes: 128 },
            StatusField::LineNumber(42),
            StatusField::Feed(500_000_000),
            StatusField::FeedAndSpeed { feed: 250_500_000, speed: 8_000_000_000 },
            StatusField::Inputs,
            StatusField::Overrides { feed_percent: 100, rapid_percent: 50, spindle_percent: 120 },
            StatusField::Accessories,
        ]
    );
}

#[test]
fn empty_status_report_changes_nothing() {
    match GRBLParser::parse(b"<>\r\n").unwrap().0 {
        GRBLMessage::StatusMessage(fields) => assert!(fields.is_empty()),
        _ => panic!("expected a status report"),
    }
    let mut c = GRBLConnection::new();
    assert_eq!(c.poll(b"<>\n"), Some(3));
    assert_eq!(c.machine_status, GRBLStatus::default());
}

#[test]
fn run_states_parse() {
    let cases: [(&[u8], GRBLState); 10] = [
        (b"Idle", GRBLState::Idle),
        (b"Run", GRBLState::Run),
        (b"Hold:0", GRBLState::Hold(false)),
        (b"Hold:1", GRBLState::Hold(true)),
        (b"Jog", GRBLState::Jog),
        (b"Alarm", GRBLState::Alarm),
        (b"Door:2", GRBLState::Door(2)),
        (b"Check", GRBLState::Check),
        (b"Home", GRBLState::Home),
        (b"Sleep", GRBLState::Sleep),
    ];
    for (text, state) in cases {
        assert_eq!(GRBLParser::state(text), Some(state));
    }
    assert_eq!(GRBLParser::state(b"Hold"), None);
    assert_eq!(GRBLParser::state(b"Door:12"), None);
    assert_eq!(GRBLState::default(), GRBLState::Idle);
}

#[test]
fn work_position_is_shifted_by_the_stored_offset() {
    let mut c = GRBLConnection::new();
    c.machine_status.work_offset = v(500_000, 500_000, 500_000);
    assert_eq!(c.poll(b"<Idle|WPos:1,2,3>\r\n"), Some(19));
    assert_eq!(c.machine_status.machine_position, v(1_500_000, 2_500_000, 3_500_000));
    assert!(c.inbound.is_empty());
}

#[test]
fn machine_position_is_stored_directly() {
    let mut status = GRBLStatus::default();
    status.work_offset = v(1, 1, 1);
    status.apply_field(StatusField::MachinePosition(v(7, 8, 9)));
    assert_eq!(status.machine_position, v(7, 8, 9));
    status.apply_field(StatusField::WorkPosition(v(i64::MAX, 0, i64::MIN)));
    assert_eq!(status.machine_position, v(i64::MAX, 1, i64::MIN + 1));
}

#[test]
fn ready_gate() {
    let mut c = GRBLConnection::new();
    assert!(c.ready);
    c.send_message(b"G1 X1\n");
    assert!(!c.ready);
    assert_eq!(c.outbound, b"G1 X1\n".to_vec());
    c.poll(b"<Run|MPos:0,0,0>\r\n");
    assert!(!c.ready);
    assert_eq!(c.machine_status.state, GRBLState::Run);
    c.poll(b"[MSG:hello]\r\n");
    assert!(!c.ready);
    c.poll(b"ok\r\n");
    assert!(c.ready);
    assert!(!c.error);
    c.send_message(b"G1 X2\n");
    assert!(!c.ready);
    c.poll(b"error:2\r\n");
    assert!(c.ready);
    assert!(c.error);
}

#[test]
fn partial_lines_wait_for_the_rest() {
    let mut c = GRBLConnection::new();
    assert_eq!(c.poll(b"<Idle|MPos:1.0"), None);
    assert_eq!(c.inbound, b"<Idle|MPos:1.0".to_vec());
    assert_eq!(c.poll(b",2,3>\r\nok\r"), Some(21));
    assert_eq!(c.machine_status.machine_position, v(1_000_000, 2_000_000, 3_000_000));
    assert_eq!(c.inbound, b"ok\r".to_vec());
    c.send_message(b"x");
    assert_eq!(c.poll(b"\n"), Some(4));
    assert!(c.ready);
    assert!(c.inbound.is_empty());
}

#[test]
fn unparseable_line_is_left_waiting() {
    let mut c = GRBLConnection::new();
    assert_eq!(c.poll(b"???\r\nok\r\n"), None);
    assert_eq!(c.inbound, b"???\r\nok\r\n".to_vec());
    assert_eq!(c.handle_message(5), Some(4));
    assert_eq!(c.inbound.len(), 9);
    assert_eq!(c.handle_message(10), None);
}

#[test]
fn alarms_and_settings_are_taken_over() {
    let mut c = GRBLConnection::new();
    c.poll(b"ALARM:3\r\n");
    assert_eq!(c.alarm, Some(3));
    assert!(c.settings.is_none());
    c.poll(b"$100=250.000\r\n");
    let s = c.settings.unwrap();
    assert_eq!(s.value(100), Some(250_000_000));
    assert_eq!(s.value(0), Some(0));
}

#[test]
fn output_is_dropped_as_it_is_sent() {
    let mut c = GRBLConnection::new();
    c.queue_command(GRBLCommand::RunHomingCycle);
    assert_eq!(c.outbound, b"$H\n".to_vec());
    assert!(!c.ready);
    c.output_sent(2);
    assert_eq!(c.outbound, b"\n".to_vec());
    c.output_sent(5);
    assert!(c.outbound.is_empty());
    assert_eq!(c.execute_realtime_command(GRBLRealtimeCommand::FeedHold), b'!');
}

#[test]
fn settings_parse_by_kind() {
    let mut s = GRBLSettings::new();
    s.parse_setting(0, "10");
    s.parse_setting(1, "25");
    s.parse_setting(2, "5");
    s.parse_setting(4, "7");
    s.parse_setting(10, "3");
    s.parse_setting(11, "0.010");
    s.parse_setting(26, "250.9");
    s.parse_setting(132, "-200.000");
    assert_eq!(s.value(0), Some(10));
    assert_eq!(s.value(1), Some(25));
    assert_eq!(s.value(2), Some(5));
    assert_eq!(s.value(4), Some(1));
    assert_eq!(s.value(10), Some(3));
    assert_eq!(s.value(11), Some(10_000));
    assert_eq!(s.value(26), Some(250));
    assert_eq!(s.value(132), Some(-200_000_000));
    assert_eq!(s.value(7), None);
    assert_eq!(s.value(133), None);
    s.parse_setting(2, "8");
    s.parse_setting(1, "256");
    s.parse_setting(0, "65536");
    s.parse_setting(10, "4");
    s.parse_setting(11, "abc");
    s.parse_setting(7, "1");
    s.parse_setting(26, "-3");
    s.parse_setting(4, "0");
    assert_eq!(s.value(2), Some(5));
    assert_eq!(s.value(1), Some(25));
    assert_eq!(s.value(0), Some(10));
    assert_eq!(s.value(10), Some(3));
    assert_eq!(s.value(11), Some(10_000));
    assert_eq!(s.value(26), Some(0));
    assert_eq!(s.value(4), Some(0));
    s.parse_setting(26, "70000");
    assert_eq!(s.value(26), Some(65535));
}

#[test]
fn setting_commands() {
    let mut s = GRBLSettings::new();
    s.parse_setting(100, "250");
    s.parse_setting(23, "3");
    s.parse_setting(122, "10.5");
    let all = s.set_all_command_list();
    assert_eq!(all.len(), 34);
    let numbers: Vec<u32> = all
        .iter()
        .map(|c| match c {
            GRBLCommand::Setting { setting, .. } => *setting,
            _ => panic!("expected a setting"),
        })
        .collect();
    assert_eq!(
        numbers,
        vec![
            0, 1, 2, 3, 4, 5, 6, 10, 11, 12, 13, 20, 21, 22, 23, 24, 25, 26, 27, 30, 31, 32, 100,
            101, 102, 110, 111, 112, 120, 121, 122, 130, 131, 132
        ]
    );
    assert_eq!(s.set_one_command(22).unwrap().to_bytes(), b"$100=250.000000\n".to_vec());
    assert_eq!(s.set_one_command(14).unwrap().to_bytes(), b"$23=3\n".to_vec());
    assert_eq!(s.set_one_command(30).unwrap().to_bytes(), b"$122=10.500000\n".to_vec());
    assert_eq!(s.set_one_command(0).unwrap().to_bytes(), b"$0=0\n".to_vec());
    assert!(s.set_one_command(34).is_none());
}

#[test]
fn masks() {
    let m = AxisMask::from_bits(5).unwrap();
    assert!(m.contains(AXIS_X));
    assert!(m.contains(AXIS_Z));
    assert!(!m.contains(2));
    assert!(AxisMask::from_bits(8).is_none());
    let r = StatusReportMask::from_bits(2).unwrap();
    assert!(r.contains(REPORT_BUFFER_DATA));
    assert!(StatusReportMask::from_bits(4).is_none());
}

#[test]
fn program_is_streamed_line_by_line() {
    let mut t = GCodeTask::new();
    let out = t.step(0, Some(GCodeTaskMessage::StartProgram(program("G90\nG1 X1\nG1 X2"))), false, b"");
    assert!(out.realtime.is_empty());
    assert!(!out.stop);
    assert!(t.has_gcode);
    assert_eq!(t.gcode_line, 1);
    assert_eq!(t.grbl.outbound, b"G90\n".to_vec());
    t.step(0, None, false, b"");
    assert_eq!(t.gcode_line, 1);
    t.step(0, None, false, b"ok\r\n");
    assert_eq!(t.gcode_line, 1);
    t.step(0, None, false, b"ok\r\n");
    assert_eq!(t.gcode_line, 2);
    t.step(0, None, true, b"");
    assert_eq!(t.gcode_line, 2);
    t.step(0, None, false, b"ok\r\n");
    assert_eq!(t.gcode_line, 3);
    assert_eq!(t.grbl.outbound, b"G90\nG1 X1\nG1 X2\n".to_vec());
    assert!(t.lines.is_some());
    t.step(0, None, false, b"");
    assert!(t.lines.is_none());
    assert!(t.has_gcode);
    t.step(0, None, false, b"");
    assert!(!t.has_gcode);
    assert_eq!(t.gcode_line, 0);
    assert_eq!(t.grbl.outbound, b"G90\nG1 X1\nG1 X2\n".to_vec());
}

#[test]
fn status_is_queried_when_due() {
    let mut t = GCodeTask::new();
    let out = t.step(500, None, false, b"");
    assert!(!out.status_queried);
    assert!(out.realtime.is_empty());
    let out = t.step(
        501,
        Some(GCodeTaskMessage::RealtimeCommand(GRBLRealtimeCommand::FeedHold)),
        false,
        b"",
    );
    assert!(out.status_queried);
    assert_eq!(out.realtime, vec![b'?', b'!']);
}

#[test]
fn validation_runs_in_check_mode_and_aborts_on_error() {
    let mut t = GCodeTask::new();
    t.step(0, Some(GCodeTaskMessage::ValidateProgram(program("G1 X1\nG1 X2\n"))), false, b"");
    assert!(t.validating);
    assert_eq!(t.grbl.outbound, b"$C\n".to_vec());
    assert_eq!(t.gcode_line, 0);
    t.step(0, None, false, b"ok\r\n");
    t.step(0, None, false, b"error:20\r\n");
    assert_eq!(t.grbl.outbound, b"$C\nG1 X1\n".to_vec());
    t.step(0, None, false, b"");
    assert!(!t.validating);
    assert!(t.lines.is_none());
    assert_eq!(t.grbl.outbound, b"$C\nG1 X1\n$C\n".to_vec());
}

#[test]
fn validation_ends_by_leaving_check_mode() {
    let mut t = GCodeTask::new();
    t.grbl.machine_status.state = GRBLState::Check;
    t.step(0, Some(GCodeTaskMessage::ValidateProgram(program("G1 X1\n"))), false, b"ok\r\n");
    assert_eq!(t.grbl.outbound, b"G1 X1\n".to_vec());
    t.step(0, None, false, b"");
    assert!(!t.validating);
    assert_eq!(t.grbl.outbound, b"G1 X1\n$C\n".to_vec());
}

#[test]
fn messages_are_refused_while_a_program_runs() {
    assert!(GCodeTaskMessage::StopProgram.accept(true).is_some());
    assert!(GCodeTaskMessage::Stop.accept(true).is_some());
    assert!(GCodeTaskMessage::SendCommand(GRBLCommand::Sleep).accept(true).is_none());
    assert!(GCodeTaskMessage::RealtimeCommand(GRBLRealtimeCommand::FeedHold).accept(true).is_none());
    assert!(GCodeTaskMessage::StartProgram(program("G0\n")).accept(true).is_none());
    assert!(GCodeTaskMessage::StartProgram(program("G0\n")).accept(false).is_some());
    match GCodeTaskMessage::string(b"$$".to_vec()) {
        GCodeTaskMessage::SendString(s) => assert_eq!(s, b"$$\r\n".to_vec()),
        _ => panic!("expected a string"),
    }
}

#[test]
fn stop_ends_the_task_and_stop_program_clears_it() {
    let mut t = GCodeTask::new();
    t.step(0, Some(GCodeTaskMessage::StartProgram(program("G0\nG1\n"))), true, b"");
    assert!(t.has_gcode);
    t.step(0, Some(GCodeTaskMessage::StopProgram), false, b"");
    assert!(!t.has_gcode);
    assert!(t.lines.is_none());
    t.step(0, Some(GCodeTaskMessage::SendString(b"$$\r\n".to_vec())), false, b"");
    assert_eq!(t.grbl.outbound, b"$$\r\n".to_vec());
    let out = t.step(0, Some(GCodeTaskMessage::Stop), false, b"ok\r\n");
    assert!(out.stop);
    assert!(!t.grbl.ready);
}

#[test]
fn jog_reads_back_through_the_tokenizer() {
    let jog = GRBLCommand::Jog {
        x: Some(-12_345_678),
        y: None,
        z: Some(4_294_967_295_999_999),
        feed: 600_000_000,
        incremental: false,
        machine_coords: true,
    };
    let bytes = jog.to_bytes();
    assert_eq!(&bytes[..3], &b"$J="[..]);
    assert_eq!(bytes[bytes.len() - 1], b'\n');
    let words = grbl_driver::gcode::GCodeParser::line(&bytes[3..bytes.len() - 1]).unwrap();
    let pairs: Vec<(char, i64)> = words.iter().map(|w| (w.letter, w.value)).collect();
    assert_eq!(
        pairs,
        vec![
            ('G', 53_000_000),
            ('G', 90_000_000),
            ('X', -12_345_678),
            ('Z', 4_294_967_295_999_999),
            ('F', 600_000_000),
        ]
    );
}

#[test]
fn setting_reads_back_from_its_command() {
    let mut s = GRBLSettings::new();
    s.parse_setting(0, "10");
    s.parse_setting(3, "6");
    s.parse_setting(13, "1");
    s.parse_setting(26, "250");
    s.parse_setting(27, "1.000");
    s.parse_setting(130, "-200.5");
    let mut c = GRBLConnection::new();
    for command in s.set_all_command_list() {
        let line = command.to_bytes();
        assert_eq!(c.poll(&line), Some(line.len()));
    }
    let back = c.settings.unwrap();
    for number in 0..=255u8 {
        assert_eq!(back.value(number), s.value(number));
    }
    assert_eq!(back.value(130), Some(-200_500_000));
}

#[test]
fn status_fields_apply_in_the_order_written() {
    let mut c = GRBLConnection::new();
    c.poll(b"<Idle|WCO:1,1,1|WPos:1,2,3>\r\n");
    assert_eq!(c.machine_status.machine_position, v(2_000_000, 3_000_000, 4_000_000));
    c.poll(b"<Idle|WPos:1,2,3|WCO:0,0,0>\r\n");
    assert_eq!(c.machine_status.machine_position, v(2_000_000, 3_000_000, 4_000_000));
    assert_eq!(c.machine_status.work_offset, v(0, 0, 0));
    c.poll(b"<Jog|Bf:3,100|Ln:7|FS:1.5,2|Ov:90,100,110>\r\n");
    let st = c.machine_status;
    assert_eq!(st.state, GRBLState::Jog);
    assert_eq!((st.buffer_free_blocks, st.buffer_free_bytes, st.line_number), (3, 100, 7));
    assert_eq!((st.feed, st.speed), (1_500_000, 2_000_000));
    assert_eq!((st.override_feed, st.override_rapid, st.override_speed), (90, 100, 110));
    assert_eq!(GRBLStatus::default().state, GRBLState::Idle);
}

#[test]
fn lines_that_end_with_a_line_feed_get_no_second_one() {
    let mut t = GCodeTask::new();
    t.lines = Some(vec![b"G0\n".to_vec(), b"".to_vec()]);
    t.step(0, None, false, b"ok\n");
    assert_eq!(t.grbl.outbound, b"G0\n".to_vec());
    t.step(0, None, false, b"");
    assert_eq!(t.grbl.outbound, b"G0\n\n".to_vec());
    assert_eq!(t.gcode_line, 2);
}

#[test]
fn empty_program_ends_at_once() {
    let mut t = GCodeTask::new();
    t.step(0, Some(GCodeTaskMessage::StartProgram(program(""))), false, b"");
    assert!(t.lines.is_none());
    assert!(t.grbl.outbound.is_empty());
    t.step(0, None, false, b"");
    assert!(!t.has_gcode);
}

#[test]
fn typed_settings() {
    let mut s = GRBLSettings::new();
    assert!(s.set_value(3, 5));
    assert!(s.set_value(10, 1));
    assert!(s.set_value(22, 1));
    assert!(s.set_value(110, -1));
    assert!(!s.set_value(3, 8));
    assert!(!s.set_value(22, 2));
    assert!(!s.set_value(1, 256));
    assert!(!s.set_value(0, -1));
    assert!(!s.set_value(99, 0));
    assert_eq!(s.axis_mask(3), Some(AxisMask { bits: 5 }));
    assert_eq!(s.axis_mask(4), None);
    assert_eq!(s.report_mask(10), Some(StatusReportMask { bits: 1 }));
    assert_eq!(s.flag(22), Some(true));
    assert_eq!(s.flag(21), Some(false));
    assert_eq!(s.flag(110), None);
    assert_eq!(s.value(110), Some(-1));
}
