//! The streaming task: what the worker that owns the connection does in each
//! turn of its loop.
//!
//! A turn takes what the worker's surroundings give it (the time since the
//! last status query, at most one message from the inbox, whether streaming
//! is paused, and the bytes read from the wire) and says which realtime
//! bytes to write at once and whether to end. Everything else is state.

use crate::gcode::{line_len, lines_from, program_lines, split_lines, texts_of};
use crate::grbl::connection::{lemma_message_keeps_buffers, GRBLConnection, Link};
use crate::grbl::msgs::parsed_line;
use crate::grbl::msgs::{GRBLCommand, GRBLRealtimeCommand};
use crate::grbl::state::GRBLState;
use crate::simulation::GcodeProgram;
use crate::text::{append, LF};
use vstd::prelude::*;
use vstd::string::StringSliceAdditionalSpecFns;

verus! {

/// The longest that the task lets pass between two status queries, in
/// milliseconds.
pub const STATUS_INTERVAL_MS: u64 = 500;

/// A message to the task.
#[derive(Debug)]
pub enum GCodeTaskMessage {
    /// Stream this program to the machine.
    StartProgram(GcodeProgram),
    /// Stream this program in the firmware's check mode, which moves
    /// nothing.
    ValidateProgram(GcodeProgram),
    /// Stop streaming.
    StopProgram,
    /// Write this realtime command at once.
    RealtimeCommand(GRBLRealtimeCommand),
    /// Send this command as a line.
    SendCommand(GRBLCommand),
    /// Send these bytes as they are.
    SendString(Vec<u8>),
    /// End the task.
    Stop,
}

/// A message to the task, as a mathematical value.
pub enum TaskMessage {
    Start(Seq<Seq<u8>>),
    Validate(Seq<Seq<u8>>),
    StopProgram,
    Realtime(GRBLRealtimeCommand),
    Send(Seq<u8>),
    Stop,
}

impl View for GCodeTaskMessage {
    type V = TaskMessage;

    open spec fn view(&self) -> TaskMessage {
        match self {
            GCodeTaskMessage::StartProgram(p) => TaskMessage::Start(
                program_lines(vstd::utf8::encode_utf8(p.program@)),
            ),
            GCodeTaskMessage::ValidateProgram(p) => TaskMessage::Validate(
                program_lines(vstd::utf8::encode_utf8(p.program@)),
            ),
            GCodeTaskMessage::StopProgram => TaskMessage::StopProgram,
            GCodeTaskMessage::RealtimeCommand(c) => TaskMessage::Realtime(*c),
            GCodeTaskMessage::SendCommand(c) => TaskMessage::Send(c.wire()),
            GCodeTaskMessage::SendString(s) => TaskMessage::Send(s@),
            GCodeTaskMessage::Stop => TaskMessage::Stop,
        }
    }
}

/// The view of a message that may be absent.
pub open spec fn message_view(msg: Option<GCodeTaskMessage>) -> Option<TaskMessage> {
    match msg {
        Some(m) => Some(m@),
        None => None,
    }
}

impl GCodeTaskMessage {
    /// Whether the task is to be given this message even while it streams a
    /// program.
    pub open spec fn always_accepted(&self) -> bool {
        self is StopProgram || self is Stop
    }

    /// Decides whether the message goes to the task: while a program is
    /// streamed, only the messages that stop the program or the task do.
    pub fn accept(self, has_gcode: bool) -> (r: Option<GCodeTaskMessage>)
        ensures
            r == if !has_gcode || self.always_accepted() {
                Some(self)
            } else {
                None
            },
    {
        if !has_gcode {
            return Some(self);
        }
        match self {
            GCodeTaskMessage::StopProgram => Some(self),
            GCodeTaskMessage::Stop => Some(self),
            _ => None,
        }
    }

    /// The message that sends `text` as a line of its own: the text with a
    /// carriage return and a line feed after it.
    pub fn string(text: Vec<u8>) -> (r: GCodeTaskMessage)
        ensures
            r@ == TaskMessage::Send(text@ + "\r\n".spec_bytes()),
    {
        let mut text = text;
        append(&mut text, "\r\n".as_bytes());
        GCodeTaskMessage::SendString(text)
    }
}

/// The state of the task between two turns.
#[derive(Debug)]
pub struct GCodeTask {
    /// The connection, which only the task touches.
    pub grbl: GRBLConnection,
    /// The lines of the program that is streamed, if one is.
    pub lines: Option<Vec<Vec<u8>>>,
    /// Whether the program is streamed in check mode.
    pub validating: bool,
    /// How many lines of the program have been sent.
    pub gcode_line: u64,
    /// Whether a program was there when the inbox was last read.
    pub has_gcode: bool,
}

/// The state of the task, as a mathematical value.
pub struct TaskView {
    pub link: Link,
    pub lines: Option<Seq<Seq<u8>>>,
    pub validating: bool,
    pub gcode_line: u64,
    pub has_gcode: bool,
}

impl View for GCodeTask {
    type V = TaskView;

    open spec fn view(&self) -> TaskView {
        TaskView {
            link: self.grbl@,
            lines: match self.lines {
                Some(l) => Some(texts_of(l@)),
                None => None,
            },
            validating: self.validating,
            gcode_line: self.gcode_line,
            has_gcode: self.has_gcode,
        }
    }
}

/// What a turn asks of the worker's surroundings.
#[derive(Debug)]
pub struct StepOutcome {
    /// The realtime bytes to write at once, in order.
    pub realtime: Vec<u8>,
    /// Whether a status query is among them, so that the time since the
    /// last one starts anew.
    pub status_queried: bool,
    /// Whether the task has been told to end.
    pub stop: bool,
}

/// The line that switches the firmware's check mode on or off.
pub open spec fn check_toggle() -> Seq<u8> {
    "$C\n".spec_bytes()
}

/// The line as it is sent: with a line feed at its end, added where it has
/// none.
pub open spec fn terminated(line: Seq<u8>) -> Seq<u8> {
    if line.len() > 0 && line.last() == LF {
        line
    } else {
        line.push(LF)
    }
}

/// The realtime bytes of a turn: a status query where more than the status
/// interval has passed since the last, then the byte of a realtime command
/// from the inbox.
pub open spec fn realtime_bytes(elapsed_ms: u64, msg: Option<TaskMessage>) -> Seq<u8> {
    (if elapsed_ms > STATUS_INTERVAL_MS {
        seq![GRBLRealtimeCommand::StatusQuery.byte()]
    } else {
        Seq::empty()
    }) + (match msg {
        Some(TaskMessage::Realtime(c)) => seq![c.byte()],
        _ => Seq::empty(),
    })
}

impl TaskView {
    /// A task that has just started, on a connection that has just been
    /// opened.
    pub open spec fn initial() -> TaskView {
        TaskView {
            link: Link::initial(),
            lines: None,
            validating: false,
            gcode_line: 0,
            has_gcode: false,
        }
    }

    /// The task at the start of a turn: without a program, the count of
    /// lines is zero.
    pub open spec fn idle_reset(self) -> TaskView {
        if self.lines is None {
            TaskView { gcode_line: 0, ..self }
        } else {
            self
        }
    }

    /// The task after a message from the inbox.
    ///
    /// A program to validate first puts the firmware into check mode, unless
    /// the last status report says that it is there.
    pub open spec fn after_message(self, m: TaskMessage) -> TaskView {
        match m {
            TaskMessage::Start(l) => TaskView { gcode_line: 0, lines: Some(l), ..self },
            TaskMessage::Validate(l) => TaskView {
                validating: true,
                gcode_line: 0,
                lines: Some(l),
                link: if self.link.status.state != GRBLState::Check {
                    self.link.after_send(check_toggle())
                } else {
                    self.link
                },
                ..self
            },
            TaskMessage::StopProgram => TaskView { lines: None, has_gcode: false, ..self },
            TaskMessage::Send(bytes) => TaskView { link: self.link.after_send(bytes), ..self },
            TaskMessage::Realtime(_) => self,
            TaskMessage::Stop => self,
        }
    }

    /// The task after it has looked for a failed validation: where the
    /// firmware has refused a line of a program that is being validated, the
    /// program is dropped and the firmware is taken out of check mode.
    pub open spec fn after_abort(self) -> TaskView {
        if self.validating && self.link.error {
            TaskView {
                lines: None,
                validating: false,
                link: self.link.after_send(check_toggle()),
                ..self
            }
        } else {
            self
        }
    }

    /// The task after it has fed the firmware: unless streaming is paused or
    /// the firmware was not `ready`, the next line of the program is sent
    /// and counted; where no line is left, the program is dropped, and a
    /// validation ends by taking the firmware out of check mode.
    pub open spec fn after_feed(self, paused: bool, ready: bool) -> TaskView {
        if paused || !ready {
            self
        } else {
            match self.lines {
                None => self,
                Some(l) => if self.gcode_line < l.len() {
                    TaskView {
                        link: self.link.after_send(terminated(l[self.gcode_line as int])),
                        gcode_line: (self.gcode_line + 1) as u64,
                        ..self
                    }
                } else {
                    TaskView {
                        lines: None,
                        validating: false,
                        link: if self.validating {
                            self.link.after_send(check_toggle())
                        } else {
                            self.link
                        },
                        ..self
                    }
                },
            }
        }
    }

    /// The task after one turn.
    ///
    /// In order: the count of lines is reset where there is no program; the
    /// message from the inbox is carried out, and where it ends the task
    /// nothing else happens; whether there is a program is noted; a failed
    /// validation is dropped; the firmware is fed if it was ready before
    /// that; and the bytes that were read are taken in.
    pub open spec fn after_step(
        self,
        msg: Option<TaskMessage>,
        paused: bool,
        received: Seq<u8>,
    ) -> TaskView {
        let started = self.idle_reset();
        let told = match msg {
            Some(m) => started.after_message(m),
            None => started,
        };
        if msg == Some(TaskMessage::Stop) {
            told
        } else {
            let noted = TaskView { has_gcode: told.lines is Some, ..told };
            let fed = noted.after_abort().after_feed(paused, noted.link.ready);
            TaskView { link: fed.link.after_poll(received), ..fed }
        }
    }
}

impl GCodeTask {
    /// A task that has just started, on a connection that has just been
    /// opened.
    pub fn new() -> (t: GCodeTask)
        ensures
            t@ == TaskView::initial(),
    {
        GCodeTask {
            grbl: GRBLConnection::new(),
            lines: None,
            validating: false,
            gcode_line: 0,
            has_gcode: false,
        }
    }

    /// Sends the line that switches check mode.
    fn toggle_check(&mut self)
        ensures
            final(self)@ == (TaskView {
                link: old(self)@.link.after_send(check_toggle()),
                ..old(self)@
            }),
    {
        self.grbl.send_message("$C\n".as_bytes());
    }

    /// Carries out a message from the inbox.
    fn take_message(&mut self, msg: GCodeTaskMessage)
        ensures
            final(self)@ == old(self)@.after_message(msg@),
    {
        match msg {
            GCodeTaskMessage::StartProgram(p) => {
                self.gcode_line = 0;
                self.lines = Some(split_lines(p.program.as_str().as_bytes()));
            },
            GCodeTaskMessage::ValidateProgram(p) => {
                self.validating = true;
                self.gcode_line = 0;
                match self.grbl.machine_status.state {
                    GRBLState::Check => {},
                    _ => {
                        self.toggle_check();
                    },
                }
                self.lines = Some(split_lines(p.program.as_str().as_bytes()));
            },
            GCodeTaskMessage::StopProgram => {
                self.lines = None;
                self.has_gcode = false;
            },
            GCodeTaskMessage::RealtimeCommand(_) => {},
            GCodeTaskMessage::SendCommand(c) => {
                self.grbl.queue_command(c);
            },
            GCodeTaskMessage::SendString(s) => {
                self.grbl.send_message(s.as_slice());
            },
            GCodeTaskMessage::Stop => {},
        }
    }

    /// Drops a validation that the firmware has refused.
    fn abort_failed_validation(&mut self)
        ensures
            final(self)@ == old(self)@.after_abort(),
    {
        if self.validating && self.grbl.error {
            self.lines = None;
            self.toggle_check();
            self.validating = false;
        }
    }

    /// Sends the next line of the program, or ends the program where no line
    /// is left.
    fn feed(&mut self, paused: bool, ready: bool)
        ensures
            final(self)@ == old(self)@.after_feed(paused, ready),
    {
        if paused || !ready {
            return ;
        }
        let mut text: Vec<u8> = Vec::new();
        let left = match &self.lines {
            None => {
                return ;
            },
            Some(l) => {
                if self.gcode_line < l.len() as u64 {
                    let line = &l[self.gcode_line as usize];
                    append(&mut text, line.as_slice());
                    if line.len() == 0 || line[line.len() - 1] != LF {
                        text.push(LF);
                    }
                    assert(text@ =~= terminated(texts_of(l@)[self.gcode_line as int]));
                    true
                } else {
                    false
                }
            },
        };
        if left {
            self.grbl.send_message(text.as_slice());
            self.gcode_line = self.gcode_line + 1;
        } else {
            self.lines = None;
            if self.validating {
                self.toggle_check();
            }
            self.validating = false;
        }
    }

    /// Takes one turn of the task's loop.
    ///
    /// `elapsed_ms` is the time since the last status query, `msg` the
    /// message from the inbox if there is one, `paused` whether streaming is
    /// paused, and `received` the bytes that were read from the wire.
    pub fn step(
        &mut self,
        elapsed_ms: u64,
        msg: Option<GCodeTaskMessage>,
        paused: bool,
        received: &[u8],
    ) -> (out: StepOutcome)
        ensures
            final(self)@ == old(self)@.after_step(message_view(msg), paused, received@),
            out.realtime@ == realtime_bytes(elapsed_ms, message_view(msg)),
            out.status_queried == (elapsed_ms > STATUS_INTERVAL_MS),
            out.stop == (message_view(msg) == Some(TaskMessage::Stop)),
    {
        let mut realtime: Vec<u8> = Vec::new();
        if self.lines.is_none() {
            self.gcode_line = 0;
        }
        let status_queried = elapsed_ms > STATUS_INTERVAL_MS;
        if status_queried {
            realtime.push(self.grbl.execute_realtime_command(GRBLRealtimeCommand::StatusQuery));
        }
        let mut stop = false;
        match msg {
            Some(m) => {
                match &m {
                    GCodeTaskMessage::RealtimeCommand(c) => {
                        realtime.push(self.grbl.execute_realtime_command(*c));
                    },
                    GCodeTaskMessage::Stop => {
                        stop = true;
                    },
                    _ => {},
                }
                self.take_message(m);
            },
            None => {},
        }
        assert(realtime@ =~= realtime_bytes(elapsed_ms, message_view(msg)));
        if stop {
            return StepOutcome { realtime, status_queried, stop };
        }
        self.has_gcode = self.lines.is_some();
        let ready = self.grbl.ready;
        self.abort_failed_validation();
        self.feed(paused, ready);
        self.grbl.poll(received);
        StepOutcome { realtime, status_queried, stop }
    }
}

/// What one turn is given.
pub struct Turn {
    pub msg: Option<TaskMessage>,
    pub paused: bool,
    pub received: Seq<u8>,
}

impl TaskView {
    /// The task after the first `n` of the turns `turns`.
    pub open spec fn after_turns(self, turns: Seq<Turn>, n: int) -> TaskView
        decreases n,
    {
        if n <= 0 {
            self
        } else {
            self.after_turns(turns, n - 1).after_step(
                turns[n - 1].msg,
                turns[n - 1].paused,
                turns[n - 1].received,
            )
        }
    }
}

/// The first `n` lines as they are sent, one after the other.
pub open spec fn sent_lines(lines: Seq<Seq<u8>>, n: int) -> Seq<u8>
    decreases n,
{
    if n <= 0 {
        Seq::empty()
    } else {
        sent_lines(lines, n - 1) + terminated(lines[n - 1])
    }
}

/// Taking in bytes that were read leaves alone what is to go out.
pub proof fn lemma_poll_keeps_outbound(link: Link, received: Seq<u8>)
    ensures
        link.after_poll(received).outbound == link.outbound,
{
    let waiting = link.inbound + received;
    match parsed_line(waiting) {
        Some((m, n)) => {
            lemma_message_keeps_buffers(link, m, waiting);
        },
        None => {},
    }
}

/// Whether the first `k` turns stream a program to a firmware that is
/// always ready: the first turn brings the program, no later turn brings a
/// message, streaming is never paused, and at the start of each turn the
/// connection reports that it is ready.
pub open spec fn streams_freely(
    task: TaskView,
    lines: Seq<Seq<u8>>,
    turns: Seq<Turn>,
    k: int,
) -> bool {
    &&& 1 <= k <= turns.len()
    &&& !task.validating
    &&& lines.len() <= u64::MAX
    &&& turns[0].msg == Some(TaskMessage::Start(lines))
    &&& forall|j: int| 1 <= j < k ==> (#[trigger] turns[j]).msg is None
    &&& forall|j: int| 0 <= j < k ==> !(#[trigger] turns[j]).paused
    &&& forall|j: int| 0 <= j < k ==> (#[trigger] task.after_turns(turns, j)).link.ready
}

/// Streaming to a firmware that is always ready sends one line in each
/// turn, in the order of the program: after `k` turns, with `k` no more than
/// the number of lines, exactly the first `k` lines have been handed over
/// for sending and the count of lines is `k`.
pub proof fn lemma_streaming_progress(
    task: TaskView,
    lines: Seq<Seq<u8>>,
    turns: Seq<Turn>,
    k: int,
)
    requires
        streams_freely(task, lines, turns, k),
        k <= lines.len(),
    ensures
        task.after_turns(turns, k).lines == Some(lines),
        task.after_turns(turns, k).gcode_line == k,
        task.after_turns(turns, k).has_gcode,
        !task.after_turns(turns, k).validating,
        task.after_turns(turns, k).link.outbound == task.link.outbound + sent_lines(lines, k),
    decreases k,
{
    let turn = turns[k - 1];
    let before = task.after_turns(turns, k - 1);
    assert(before.link.ready);
    assert(!turn.paused);
    if k == 1 {
        assert(task.after_turns(turns, 0) == task);
        let told = task.idle_reset().after_message(TaskMessage::Start(lines));
        let noted = TaskView { has_gcode: true, ..told };
        let fed = noted.after_abort().after_feed(false, true);
        lemma_poll_keeps_outbound(fed.link, turn.received);
        assert(sent_lines(lines, 1) =~= terminated(lines[0])) by {
            assert(sent_lines(lines, 0) =~= Seq::<u8>::empty());
        }
    } else {
        lemma_streaming_progress(task, lines, turns, k - 1);
        assert(turns[k - 1].msg is None);
        let noted = TaskView { has_gcode: true, ..before };
        let fed = noted.after_abort().after_feed(false, true);
        lemma_poll_keeps_outbound(fed.link, turn.received);
        assert(fed.link.outbound =~= task.link.outbound + sent_lines(lines, k));
    }
}

/// Streaming to a firmware that is always ready ends: in the turn after the
/// last line has been sent the program is dropped, with nothing more handed
/// over for sending, and in the turn after that the task is free for a new
/// program, with its count of lines back at zero.
pub proof fn lemma_streaming_completes(
    task: TaskView,
    lines: Seq<Seq<u8>>,
    turns: Seq<Turn>,
)
    requires
        streams_freely(task, lines, turns, lines.len() as int + 2),
    ensures
        task.after_turns(turns, lines.len() as int + 1).lines is None,
        task.after_turns(turns, lines.len() as int + 1).link.outbound == task.link.outbound + sent_lines(
            lines,
            lines.len() as int,
        ),
        task.after_turns(turns, lines.len() as int + 2).lines is None,
        !task.after_turns(turns, lines.len() as int + 2).has_gcode,
        task.after_turns(turns, lines.len() as int + 2).gcode_line == 0,
        task.after_turns(turns, lines.len() as int + 2).link.outbound == task.link.outbound + sent_lines(
            lines,
            lines.len() as int,
        ),
{
    let n = lines.len() as int;
    let last = turns[n];
    let before = task.after_turns(turns, n);
    assert(before.link.ready);
    assert(!last.paused);
    if n == 0 {
        assert(task.after_turns(turns, 0) == task);
        let told = task.idle_reset().after_message(TaskMessage::Start(lines));
        let noted = TaskView { has_gcode: true, ..told };
        let fed = noted.after_abort().after_feed(false, true);
        lemma_poll_keeps_outbound(fed.link, last.received);
        assert(sent_lines(lines, 0) =~= Seq::<u8>::empty());
        assert(fed.link.outbound =~= task.link.outbound + sent_lines(lines, 0));
    } else {
        lemma_streaming_progress(task, lines, turns, n);
        assert(turns[n].msg is None);
        let noted = TaskView { has_gcode: true, ..before };
        let fed = noted.after_abort().after_feed(false, true);
        lemma_poll_keeps_outbound(fed.link, last.received);
    }
    let ended = task.after_turns(turns, n + 1);
    let after = turns[n + 1];
    assert(after.msg is None);
    assert(!after.paused);
    let started = ended.idle_reset();
    let noted = TaskView { has_gcode: false, ..started };
    let fed = noted.after_abort().after_feed(false, noted.link.ready);
    lemma_poll_keeps_outbound(fed.link, after.received);
}

/// One line in flight: while the firmware has not answered the line that
/// was sent last, a turn without a message hands nothing over for sending
/// and sends no line of the program, whatever comes in during the turn.
pub proof fn lemma_one_line_in_flight(task: TaskView, paused: bool, received: Seq<u8>)
    requires
        !task.link.ready,
        !(task.validating && task.link.error),
    ensures
        task.after_step(None, paused, received).link.outbound == task.link.outbound,
        task.after_step(None, paused, received).lines == task.lines,
        task.lines is Some ==> task.after_step(None, paused, received).gcode_line
            == task.gcode_line,
{
    let started = task.idle_reset();
    let noted = TaskView { has_gcode: started.lines is Some, ..started };
    let fed = noted.after_abort().after_feed(paused, noted.link.ready);
    lemma_poll_keeps_outbound(fed.link, received);
}

/// A paused task sends no line of the program: a turn without a message
/// hands nothing over for sending, unless it ends a validation that the
/// firmware has refused.
pub proof fn lemma_paused_sends_nothing(task: TaskView, received: Seq<u8>)
    requires
        !(task.validating && task.link.error),
    ensures
        task.after_step(None, true, received).link.outbound == task.link.outbound,
        task.after_step(None, true, received).lines == task.lines,
{
    let started = task.idle_reset();
    let noted = TaskView { has_gcode: started.lines is Some, ..started };
    let fed = noted.after_abort().after_feed(true, noted.link.ready);
    lemma_poll_keeps_outbound(fed.link, received);
}

/// A program text as it is streamed: with a line feed at its end, added
/// where the text is not empty and has none.
pub open spec fn sent_text(s: Seq<u8>) -> Seq<u8> {
    if s.len() == 0 || s[s.len() - 1] == LF {
        s
    } else {
        s.push(LF)
    }
}

/// A line ends at the first line feed: none stands within it, and one
/// stands just past it unless the text ends there.
pub proof fn lemma_line_len(s: Seq<u8>, i: int)
    requires
        0 <= i <= s.len(),
    ensures
        i + line_len(s, i) <= s.len(),
        forall|j: int| i <= j < i + line_len(s, i) ==> #[trigger] s[j] != LF,
        i + line_len(s, i) < s.len() ==> s[i + line_len(s, i)] == LF,
    decreases s.len() - i,
{
    if i < s.len() && s[i] != LF {
        lemma_line_len(s, i + 1);
    }
}

/// Sending a line and then further lines is sending all of them in order.
proof fn lemma_sent_lines_after_first(first: Seq<u8>, rest: Seq<Seq<u8>>, n: int)
    requires
        0 <= n <= rest.len(),
    ensures
        sent_lines(seq![first] + rest, n + 1) == terminated(first) + sent_lines(rest, n),
    decreases n,
{
    let all = seq![first] + rest;
    if n == 0 {
        assert(sent_lines(all, 0) =~= Seq::<u8>::empty());
        assert(sent_lines(rest, 0) =~= Seq::<u8>::empty());
        assert(sent_lines(all, 1) =~= terminated(first));
        assert(terminated(first) + sent_lines(rest, 0) =~= terminated(first));
    } else {
        lemma_sent_lines_after_first(first, rest, n - 1);
        assert(all[n] == rest[n - 1]);
        assert(sent_lines(all, n + 1) =~= terminated(first) + sent_lines(rest, n));
    }
}

/// The lines of a text from position `i` on, sent one after the other, are
/// the text from `i` on as it is streamed.
proof fn lemma_lines_sent_from(s: Seq<u8>, i: int)
    requires
        0 <= i <= s.len(),
        i == s.len() ==> s.len() == 0 || s[s.len() - 1] == LF,
    ensures
        sent_lines(lines_from(s, i), lines_from(s, i).len() as int) == sent_text(s).subrange(
            i,
            sent_text(s).len() as int,
        ),
    decreases s.len() - i,
{
    let whole = sent_text(s);
    if i < s.len() {
        lemma_line_len(s, i);
        let e = i + line_len(s, i);
        let text = s.subrange(i, e);
        assert(text.len() > 0 ==> text[text.len() - 1] == s[e - 1]);
        assert(terminated(text) =~= text.push(LF));
        if e < s.len() {
            let rest = lines_from(s, e + 1);
            lemma_lines_sent_from(s, e + 1);
            lemma_sent_lines_after_first(text, rest, rest.len() as int);
            assert(whole.subrange(i, whole.len() as int) =~= text.push(LF) + whole.subrange(
                e + 1,
                whole.len() as int,
            ));
        } else {
            let none = Seq::<Seq<u8>>::empty();
            lemma_sent_lines_after_first(text, none, 0);
            assert(seq![text] + none =~= seq![text]);
            assert(sent_lines(none, 0) =~= Seq::<u8>::empty());
            assert(whole.subrange(i, whole.len() as int) =~= text.push(LF));
        }
    } else {
        assert(sent_lines(lines_from(s, i), 0) =~= Seq::<u8>::empty());
        assert(whole.subrange(i, whole.len() as int) =~= Seq::<u8>::empty());
    }
}

/// What is streamed is the program: the lines of a program text, sent one
/// after the other, are the text itself, with a line feed at its end where
/// it had none.
pub proof fn lemma_lines_sent_are_text(s: Seq<u8>)
    ensures
        sent_lines(program_lines(s), program_lines(s).len() as int) == sent_text(s),
{
    lemma_lines_sent_from(s, 0);
    assert(sent_text(s).subrange(0, sent_text(s).len() as int) =~= sent_text(s));
}

} // verus!
