//! The connection to the firmware, without the wire: what has come in and
//! not been read as a message yet, what is to go out, what the firmware has
//! reported, and whether it is ready for another line.
//!
//! Whoever holds the serial port hands the bytes it read to `poll` and
//! writes the bytes of `outbound`, telling `output_sent` how many went out.

use crate::grbl::msgs::{
    parsed_line, GRBLCommand, GRBLMessage, GRBLParser, GRBLRealtimeCommand, Message,
};
use crate::grbl::state::{with_setting, GRBLSettings, GRBLStatus};
use crate::text::append;
use vstd::prelude::*;
use vstd::slice::slice_subrange;

verus! {

/// The state of a connection.
#[derive(Debug)]
pub struct GRBLConnection {
    /// Whether the firmware has answered the last line that was sent.
    pub ready: bool,
    /// Whether that answer was an error.
    pub error: bool,
    /// The live status of the machine.
    pub machine_status: GRBLStatus,
    /// The code of the last alarm, if there was one.
    pub alarm: Option<u8>,
    /// The settings of the firmware, once it has reported one.
    pub settings: Option<GRBLSettings>,
    /// The bytes that have come in and are not read as a message yet.
    pub inbound: Vec<u8>,
    /// The bytes that are to go out.
    pub outbound: Vec<u8>,
}

/// The state of a connection, as a mathematical value.
pub struct Link {
    pub ready: bool,
    pub error: bool,
    pub status: GRBLStatus,
    pub alarm: Option<u8>,
    pub settings: Option<Seq<i64>>,
    pub inbound: Seq<u8>,
    pub outbound: Seq<u8>,
}

impl View for GRBLConnection {
    type V = Link;

    open spec fn view(&self) -> Link {
        Link {
            ready: self.ready,
            error: self.error,
            status: self.machine_status,
            alarm: self.alarm,
            settings: match self.settings {
                Some(s) => Some(s@),
                None => None,
            },
            inbound: self.inbound@,
            outbound: self.outbound@,
        }
    }
}

impl Link {
    /// A connection that has just been opened: ready, with nothing known of
    /// the machine and nothing to read or write.
    pub open spec fn initial() -> Link {
        Link {
            ready: true,
            error: false,
            status: GRBLStatus::initial(),
            alarm: None,
            settings: None,
            inbound: Seq::empty(),
            outbound: Seq::empty(),
        }
    }

    /// The connection after `text` has been handed over for sending: the
    /// text is to go out, and the firmware is not ready until it answers.
    pub open spec fn after_send(self, text: Seq<u8>) -> Link {
        Link { ready: false, error: false, outbound: self.outbound + text, ..self }
    }

    /// The connection after the firmware has said `m`.
    ///
    /// An answer, `ok` or error, makes the connection ready again. A status
    /// report is taken over field by field, an alarm by its code, and a
    /// setting by its number; any other message changes nothing.
    pub open spec fn after_message(self, m: Message) -> Link {
        match m {
            Message::OkResponse => Link { ready: true, error: false, ..self },
            Message::ErrorResponse(_) => Link { ready: true, error: true, ..self },
            Message::Status(fields) => Link {
                status: self.status.after_fields(fields, fields.len() as int),
                ..self
            },
            Message::Alarm(code) => Link { alarm: Some(code), ..self },
            Message::Setting { number, value } => Link {
                settings: Some(
                    with_setting(
                        match self.settings {
                            Some(s) => s,
                            None => Seq::new(34, |i: int| 0i64),
                        },
                        number,
                        value,
                    ),
                ),
                ..self
            },
            _ => self,
        }
    }

    /// The connection after the first `n` of the messages `ms`, in order.
    pub open spec fn after_messages(self, ms: Seq<Message>, n: int) -> Link
        decreases n,
    {
        if n <= 0 {
            self
        } else {
            self.after_messages(ms, n - 1).after_message(ms[n - 1])
        }
    }

    /// The connection after the bytes `received` have come in: they join
    /// what was waiting, and where that now starts with a whole line that is
    /// a message, the message is taken over and its line is dropped.
    pub open spec fn after_poll(self, received: Seq<u8>) -> Link {
        let waiting = self.inbound + received;
        match parsed_line(waiting) {
            Some((m, n)) => Link {
                inbound: waiting.subrange(n, waiting.len() as int),
                ..self.after_message(m)
            },
            None => Link { inbound: waiting, ..self },
        }
    }
}

impl GRBLConnection {
    /// A connection that has just been opened.
    pub fn new() -> (c: GRBLConnection)
        ensures
            c@ == Link::initial(),
    {
        GRBLConnection {
            ready: true,
            error: false,
            machine_status: GRBLStatus::default(),
            alarm: None,
            settings: None,
            inbound: Vec::new(),
            outbound: Vec::new(),
        }
    }

    /// Hands a line over for sending, and marks the firmware as not ready
    /// until it answers.
    pub fn send_message(&mut self, text: &[u8])
        ensures
            final(self)@ == old(self)@.after_send(text@),
            !final(self).ready,
    {
        append(&mut self.outbound, text);
        self.ready = false;
        self.error = false;
    }

    /// Hands a command over for sending.
    pub fn queue_command(&mut self, command: GRBLCommand)
        ensures
            final(self)@ == old(self)@.after_send(command.wire()),
    {
        let bytes = command.to_bytes();
        self.send_message(bytes.as_slice());
    }

    /// The byte to write for a realtime command. It goes out at once, ahead
    /// of anything that waits in `outbound`, which is why this leaves the
    /// connection as it is.
    pub fn execute_realtime_command(&self, command: GRBLRealtimeCommand) -> (b: u8)
        ensures
            b == command.byte(),
    {
        command.to_byte()
    }

    /// Takes over what a message says.
    pub fn apply_message(&mut self, m: &GRBLMessage)
        ensures
            final(self)@ == old(self)@.after_message(m@),
    {
        match m {
            GRBLMessage::OkResponse => {
                self.ready = true;
                self.error = false;
            },
            GRBLMessage::ErrorResponse(_) => {
                self.ready = true;
                self.error = true;
            },
            GRBLMessage::StatusMessage(fields) => {
                self.machine_status.apply_fields(fields.as_slice());
            },
            GRBLMessage::AlarmMessage(code) => {
                self.alarm = Some(*code);
            },
            GRBLMessage::SettingsMessage { number, value } => {
                let mut settings = match self.settings {
                    Some(s) => s,
                    None => GRBLSettings::new(),
                };
                settings.parse_setting_bytes(*number, value.as_slice());
                self.settings = Some(settings);
            },
            GRBLMessage::FeedbackMessage => {},
            GRBLMessage::StartupLine => {},
            GRBLMessage::WelcomeMessage => {},
        }
    }

    /// Reads one message from the bytes that wait, from position `offset`
    /// on, and takes over what it says.
    ///
    /// Returns the number of bytes that the message took up. Where no whole
    /// line waits there, or the line is no message, nothing changes and the
    /// result is `None`. The bytes stay in `inbound` either way.
    pub fn handle_message(&mut self, offset: usize) -> (r: Option<usize>)
        ensures
            final(self).inbound@ == old(self).inbound@,
            match r {
                Some(n) => {
                    &&& offset + n <= old(self).inbound@.len()
                    &&& n > 0
                    &&& parsed_line(
                        old(self).inbound@.subrange(offset as int, old(self).inbound@.len() as int),
                    ) matches Some((m, k))
                    &&& k == n
                    &&& final(self)@ == old(self)@.after_message(m)
                },
                None => {
                    &&& final(self)@ == old(self)@
                    &&& offset <= old(self).inbound@.len() ==> parsed_line(
                        old(self).inbound@.subrange(offset as int, old(self).inbound@.len() as int),
                    ).is_none()
                },
            },
    {
        if offset > self.inbound.len() {
            return None;
        }
        let parsed = GRBLParser::parse(
            slice_subrange(self.inbound.as_slice(), offset, self.inbound.len()),
        );
        match parsed {
            Some((m, n)) => {
                self.apply_message(&m);
                Some(n)
            },
            None => None,
        }
    }

    /// Takes in the bytes that were read from the wire, and reads at most
    /// one message from what waits.
    ///
    /// Returns the number of bytes that the message took up, which are
    /// dropped; everything else waits for the next call.
    pub fn poll(&mut self, received: &[u8]) -> (r: Option<usize>)
        ensures
            final(self)@ == old(self)@.after_poll(received@),
            r.is_some() == parsed_line(old(self).inbound@ + received@).is_some(),
    {
        append(&mut self.inbound, received);
        let ghost waiting = self.inbound@;
        let ghost before = self@;
        assert(waiting.subrange(0, waiting.len() as int) =~= waiting);
        match self.handle_message(0) {
            Some(n) => {
                let rest = self.inbound.split_off(n);
                self.inbound = rest;
                proof {
                    let m = parsed_line(waiting).unwrap().0;
                    lemma_message_keeps_buffers(before, m, old(self)@.inbound);
                }
                Some(n)
            },
            None => None,
        }
    }

    /// Drops the first `n` bytes of `outbound`, which have been written to
    /// the wire; all of them where there are no more than `n`.
    pub fn output_sent(&mut self, n: usize)
        ensures
            final(self)@ == (Link {
                outbound: old(self).outbound@.subrange(
                    if n <= old(self).outbound@.len() {
                        n as int
                    } else {
                        old(self).outbound@.len() as int
                    },
                    old(self).outbound@.len() as int,
                ),
                ..old(self)@
            }),
    {
        let k: usize = if n <= self.outbound.len() {
            n
        } else {
            self.outbound.len()
        };
        let rest = self.outbound.split_off(k);
        self.outbound = rest;
    }
}

/// What a message does to a connection does not depend on the bytes that
/// wait, and leaves them and the bytes that are to go out as they are.
pub proof fn lemma_message_keeps_buffers(link: Link, m: Message, inbound: Seq<u8>)
    ensures
        link.after_message(m).inbound == link.inbound,
        link.after_message(m).outbound == link.outbound,
        (Link { inbound, ..link }).after_message(m) == (Link { inbound, ..link.after_message(m) }),
{
}

/// The ready gate: after a line has been handed over for sending, the
/// connection is ready again exactly when an answer, `ok` or error, is among
/// the messages that have come since.
pub proof fn lemma_ready_gate(link: Link, text: Seq<u8>, ms: Seq<Message>, n: int)
    requires
        0 <= n <= ms.len(),
    ensures
        link.after_send(text).after_messages(ms, n).ready == exists|i: int|
            0 <= i < n && (#[trigger] ms[i]).is_response(),
    decreases n,
{
    if n > 0 {
        lemma_ready_gate(link, text, ms, n - 1);
        let before = link.after_send(text).after_messages(ms, n - 1);
        if ms[n - 1].is_response() {
            assert(before.after_message(ms[n - 1]).ready);
        } else {
            assert(before.after_message(ms[n - 1]).ready == before.ready);
            if before.ready {
                let i = choose|i: int| 0 <= i < n - 1 && (#[trigger] ms[i]).is_response();
                assert(0 <= i < n && ms[i].is_response());
            }
        }
    }
}

} // verus!
