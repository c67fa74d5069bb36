//! The driver state machine.
//!
//! The driver owns the last-known telemetry [`Values`] and two flags:
//! `is_homed` (a homing cycle has been started since the connection was
//! opened) and `acknowledge_pending` (a command is outstanding and its `ok`
//! has not yet arrived).  At most one command may be in flight: every
//! command-issuing call fails with `BusyError` while one is pending.  Motion
//! and test commands additionally require a completed homing cycle.
//!
//! The driver is transport-agnostic: commands append their encoded bytes to
//! an outgoing buffer which the transport owner drains with
//! [`SerialDriver::take_outgoing`] and writes to the device, and each poll
//! tick hands whatever bytes arrived to [`SerialDriver::update`].

use vstd::prelude::*;
use crate::codec::{
    TelemetryEvent, parse_line, encode_home, encode_move_absolute, encode_start_test,
    spec_line_events, spec_encode_home, spec_encode_move, spec_encode_start_test, BYTE_NL,
};
use crate::error::DriverError;
use crate::fixed::Fixed;

verus! {

/// The latest known machine telemetry.  An immutable snapshot: the driver
/// replaces single readings as samples arrive, and hands the whole struct
/// out by value.
#[derive(Clone, Copy, Debug, PartialEq, Eq, Structural)]
pub struct Values {
    /// Monotonic sample counter, reserved for sequencing; not yet reported
    /// by the device, so it stays at zero.
    pub sample: u32,
    /// The last reported axis position, in hundredths of a millimetre.
    pub position: Fixed,
    /// The last reported tensile force reading, in device units.
    pub tensile: i32,
}

impl Default for Values {
    /// All-zero telemetry: the state before any sample has arrived.
    fn default() -> (r: Values)
        ensures
            r == (Values { sample: 0, position: Fixed { hundredths: 0 }, tensile: 0 }),
    {
        Values { sample: 0, position: Fixed { hundredths: 0 }, tensile: 0 }
    }
}

/// How one telemetry event updates the last-known values and the
/// acknowledge-pending flag: `ok` clears the flag, a position or tensile
/// sample replaces the corresponding reading.
pub open spec fn spec_apply_event(v: Values, pending: bool, e: TelemetryEvent) -> (Values, bool) {
    match e {
        TelemetryEvent::Acknowledge => (v, false),
        TelemetryEvent::Position(p) => (
            Values { sample: v.sample, position: p, tensile: v.tensile },
            pending,
        ),
        TelemetryEvent::Tensile(t) => (
            Values { sample: v.sample, position: v.position, tensile: t },
            pending,
        ),
    }
}

/// Applies a list of telemetry events in order.
pub open spec fn spec_apply_events(v: Values, pending: bool, es: Seq<TelemetryEvent>) -> (
    Values,
    bool,
)
    decreases es.len(),
{
    if es.len() == 0 {
        (v, pending)
    } else {
        let st = spec_apply_events(v, pending, es.drop_last());
        spec_apply_event(st.0, st.1, es.last())
    }
}

/// Applies one complete telemetry line: every recognized token of the line
/// takes effect, in order; unrecognized and malformed tokens are skipped.
pub open spec fn spec_apply_line(v: Values, pending: bool, line: Seq<u8>) -> (Values, bool) {
    spec_apply_events(v, pending, spec_line_events(line))
}

/// Streams a chunk of raw bytes through the driver: bytes accumulate in the
/// current-line buffer, and each line feed completes a line, which is
/// parsed and applied.  The result is the new values, the new pending flag,
/// and the new line buffer.
pub open spec fn spec_scan(v: Values, pending: bool, buf: Seq<u8>, s: Seq<u8>) -> (
    Values,
    bool,
    Seq<u8>,
)
    decreases s.len(),
{
    if s.len() == 0 {
        (v, pending, buf)
    } else {
        let st = spec_scan(v, pending, buf, s.drop_last());
        if s.last() == BYTE_NL {
            let ap = spec_apply_line(st.0, st.1, st.2);
            (ap.0, ap.1, Seq::<u8>::empty())
        } else {
            (st.0, st.1, st.2.push(s.last()))
        }
    }
}

/// The target of a relative jog from `pos` by `delta`: the sum clamped to
/// be non-negative — motion never targets a negative position — and capped
/// at the largest representable count of hundredths.
pub open spec fn spec_jog_target(pos: int, delta: int) -> int {
    let sum = if pos + delta > i64::MAX {
        i64::MAX as int
    } else {
        pos + delta
    };
    if sum < 0 {
        0
    } else {
        sum
    }
}

/// Computes the clamped jog target.
pub fn jog_target(position: Fixed, delta: Fixed) -> (r: Fixed)
    ensures
        r.as_int() == spec_jog_target(position.as_int(), delta.as_int()),
{
    let p = position.hundredths;
    let d = delta.hundredths;
    if d >= 0 {
        if p > i64::MAX - d {
            Fixed { hundredths: i64::MAX }
        } else if p + d < 0 {
            Fixed { hundredths: 0 }
        } else {
            Fixed { hundredths: p + d }
        }
    } else {
        if p < i64::MIN - d {
            Fixed { hundredths: 0 }
        } else if p + d < 0 {
            Fixed { hundredths: 0 }
        } else {
            Fixed { hundredths: p + d }
        }
    }
}

/// The driver state machine.  Created disconnected; `open` and `close`
/// move it between the disconnected and connected states, and the command
/// methods gate themselves on the two flags.
pub struct SerialDriver {
    values: Values,
    acknowledge_pending: bool,
    is_homed: bool,
    connected: bool,
    outbox: Vec<u8>,
    inbuf: Vec<u8>,
}

/// The state after a command was accepted: connected, marked pending, the
/// command's bytes appended to the outgoing queue, and the telemetry
/// values and line buffer carried over from `pre`.  (The homed flag is
/// stated by each command separately: homing raises it, the others keep
/// it.)
pub open spec fn spec_issued(pre: SerialDriver, post: SerialDriver, cmd: Seq<u8>) -> bool {
    &&& post.spec_connected()
    &&& post.spec_pending()
    &&& post.spec_values() == pre.spec_values()
    &&& post.spec_outbox() == pre.spec_outbox() + cmd
    &&& post.spec_inbuf() == pre.spec_inbuf()
}

impl SerialDriver {
    /// Whether a connection is currently open.
    pub closed spec fn spec_connected(self) -> bool {
        self.connected
    }

    /// Whether a command is outstanding without its acknowledgment.
    pub closed spec fn spec_pending(self) -> bool {
        self.acknowledge_pending
    }

    /// Whether a homing cycle has been started on this connection.
    pub closed spec fn spec_homed(self) -> bool {
        self.is_homed
    }

    /// The last-known telemetry values.
    pub closed spec fn spec_values(self) -> Values {
        self.values
    }

    /// The encoded command bytes queued for the transport owner to write.
    pub closed spec fn spec_outbox(self) -> Seq<u8> {
        self.outbox@
    }

    /// The bytes of the partially received telemetry line.
    pub closed spec fn spec_inbuf(self) -> Seq<u8> {
        self.inbuf@
    }

    /// The driver's structural invariant: a command can only be pending
    /// while a connection is open.
    pub open spec fn wf(self) -> bool {
        self.spec_pending() ==> self.spec_connected()
    }

    /// A fresh driver: disconnected, unhomed, nothing pending, all-zero
    /// telemetry, empty buffers.
    pub fn new() -> (d: SerialDriver)
        ensures
            !d.spec_connected(),
            !d.spec_pending(),
            !d.spec_homed(),
            d.spec_values() == (Values {
                sample: 0,
                position: Fixed { hundredths: 0 },
                tensile: 0,
            }),
            d.spec_outbox() == Seq::<u8>::empty(),
            d.spec_inbuf() == Seq::<u8>::empty(),
            d.wf(),
    {
        SerialDriver {
            values: Values::default(),
            acknowledge_pending: false,
            is_homed: false,
            connected: false,
            outbox: Vec::new(),
            inbuf: Vec::new(),
        }
    }

    /// Records that a connection to the instrument is now open and resets
    /// both flags to their post-connect defaults.  The transport itself is
    /// opened by the transport owner with the endpoint name and baud rate
    /// given here; the driver validates neither — a bad endpoint or baud
    /// rate is the transport's `ConnectionError`, raised before this method
    /// is reached.  Telemetry values are retained across connections; the
    /// byte buffers of any earlier connection are discarded.
    #[allow(unused_variables)]
    pub fn open(&mut self, serial_port: &String, baud_rate: u32) -> (r: Result<(), DriverError>)
        ensures
            r is Ok,
            final(self).spec_connected(),
            !final(self).spec_pending(),
            !final(self).spec_homed(),
            final(self).spec_values() == old(self).spec_values(),
            final(self).spec_outbox() == Seq::<u8>::empty(),
            final(self).spec_inbuf() == Seq::<u8>::empty(),
            final(self).wf(),
    {
        self.outbox.clear();
        self.inbuf.clear();
        self.acknowledge_pending = false;
        self.is_homed = false;
        self.connected = true;
        Ok(())
    }

    /// Drops the connection and resets both flags, unconditionally.  The
    /// post-state depends only on the retained telemetry values, so closing
    /// is idempotent: a second close observably changes nothing and the
    /// driver stays disconnected.
    pub fn close(&mut self)
        ensures
            !final(self).spec_connected(),
            !final(self).spec_pending(),
            !final(self).spec_homed(),
            final(self).spec_values() == old(self).spec_values(),
            final(self).spec_outbox() == Seq::<u8>::empty(),
            final(self).spec_inbuf() == Seq::<u8>::empty(),
            final(self).wf(),
    {
        self.outbox.clear();
        self.inbuf.clear();
        self.acknowledge_pending = false;
        self.is_homed = false;
        self.connected = false;
    }

    /// Queues raw bytes for the transport owner to write to the device.
    /// Fails only when no connection is open; it does not take part in the
    /// single-outstanding-command discipline, which belongs to the command
    /// methods.
    pub fn send_message(&mut self, msg: &Vec<u8>) -> (r: Result<(), DriverError>)
        ensures
            !old(self).spec_connected() ==> {
                &&& r == Err::<(), DriverError>(DriverError::NotConnectedError)
                &&& *final(self) == *old(self)
            },
            old(self).spec_connected() ==> {
                &&& r is Ok
                &&& final(self).spec_connected()
                &&& final(self).spec_pending() == old(self).spec_pending()
                &&& final(self).spec_homed() == old(self).spec_homed()
                &&& final(self).spec_values() == old(self).spec_values()
                &&& final(self).spec_outbox() == old(self).spec_outbox() + msg@
                &&& final(self).spec_inbuf() == old(self).spec_inbuf()
            },
            old(self).wf() ==> final(self).wf(),
    {
        if !self.connected {
            return Err(DriverError::NotConnectedError);
        }
        self.outbox.extend_from_slice(msg.as_slice());
        proof {
            assert(self.outbox@ =~= old(self).outbox@ + msg@);
        }
        Ok(())
    }

    /// The single entry point through which every outbound command travels:
    /// it enforces the single-outstanding-command invariant — rejecting
    /// issuance while an acknowledgment is pending — marks the new command
    /// pending, and queues its bytes.
    fn issue_command(&mut self, cmd: Vec<u8>) -> (r: Result<(), DriverError>)
        ensures
            !old(self).spec_connected() ==> {
                &&& r == Err::<(), DriverError>(DriverError::NotConnectedError)
                &&& *final(self) == *old(self)
            },
            old(self).spec_connected() && old(self).spec_pending() ==> {
                &&& r == Err::<(), DriverError>(DriverError::BusyError)
                &&& *final(self) == *old(self)
            },
            old(self).spec_connected() && !old(self).spec_pending() ==> {
                &&& r is Ok
                &&& spec_issued(*old(self), *final(self), cmd@)
                &&& final(self).spec_homed() == old(self).spec_homed()
            },
            final(self).wf() || !old(self).wf(),
    {
        if !self.connected {
            return Err(DriverError::NotConnectedError);
        }
        if self.acknowledge_pending {
            return Err(DriverError::BusyError);
        }
        self.acknowledge_pending = true;
        self.outbox.extend_from_slice(cmd.as_slice());
        proof {
            assert(self.outbox@ =~= old(self).outbox@ + cmd@);
        }
        Ok(())
    }

    /// Starts a homing cycle (`G28`).  Fails with `NotConnectedError` when
    /// disconnected and with `BusyError` while a command is outstanding;
    /// otherwise queues the command and marks it pending.
    ///
    /// Optimistic homing policy: the homed flag is set as soon as the
    /// command is accepted for sending, not when its `ok` arrives — the
    /// controller is assumed to complete a homing cycle it has accepted.
    /// Homing therefore also doubles as the recovery action after a
    /// transport fault.
    pub fn start_home(&mut self) -> (r: Result<(), DriverError>)
        ensures
            !old(self).spec_connected() ==> r == Err::<(), DriverError>(
                DriverError::NotConnectedError,
            ),
            old(self).spec_connected() && old(self).spec_pending() ==> r == Err::<(), DriverError>(
                DriverError::BusyError,
            ),
            old(self).spec_connected() && !old(self).spec_pending() ==> {
                &&& r is Ok
                &&& spec_issued(*old(self), *final(self), spec_encode_home())
                &&& final(self).spec_homed()
            },
            r is Err ==> *final(self) == *old(self),
            final(self).wf() || !old(self).wf(),
    {
        let cmd = encode_home();
        match self.issue_command(cmd) {
            Ok(()) => {
                self.is_homed = true;
                Ok(())
            },
            Err(e) => Err(e),
        }
    }

    /// Jogs the axis by `delta` relative to the last-known position
    /// (`G0 X<target>`): the target is the current position plus `delta`,
    /// clamped to be non-negative — never a negative target — with no upper
    /// bound enforced by the driver.  Fails with `NotConnectedError` when
    /// disconnected, `BusyError` while a command is outstanding, and
    /// `NotHomedError` before a homing cycle; a failed jog changes nothing
    /// and queues no bytes.  A jog counts as a command: it is subject to
    /// the single-outstanding-command discipline and marks itself pending.
    pub fn jog(&mut self, delta: Fixed) -> (r: Result<(), DriverError>)
        ensures
            !old(self).spec_connected() ==> r == Err::<(), DriverError>(
                DriverError::NotConnectedError,
            ),
            old(self).spec_connected() && old(self).spec_pending() ==> r == Err::<(), DriverError>(
                DriverError::BusyError,
            ),
            old(self).spec_connected() && !old(self).spec_pending() && !old(self).spec_homed()
                ==> r == Err::<(), DriverError>(DriverError::NotHomedError),
            old(self).spec_connected() && !old(self).spec_pending() && old(self).spec_homed()
                ==> {
                &&& r is Ok
                &&& spec_issued(
                    *old(self),
                    *final(self),
                    spec_encode_move(
                        spec_jog_target(
                            old(self).spec_values().position.as_int(),
                            delta.as_int(),
                        ),
                    ),
                )
                &&& final(self).spec_homed()
            },
            r is Err ==> *final(self) == *old(self),
            final(self).wf() || !old(self).wf(),
    {
        if !self.connected {
            return Err(DriverError::NotConnectedError);
        }
        if self.acknowledge_pending {
            return Err(DriverError::BusyError);
        }
        if !self.is_homed {
            return Err(DriverError::NotHomedError);
        }
        let target = jog_target(self.values.position, delta);
        let cmd = encode_move_absolute(target);
        self.issue_command(cmd)
    }

    /// Starts a test run at the given speed (`M700 S<speed>`).  The
    /// preconditions are those of `jog`: connected, nothing outstanding,
    /// homed.  On success the command is queued and stays pending until the
    /// device's acknowledgment is seen by `update`; a failed call changes
    /// nothing and queues no bytes.
    pub fn start_test(&mut self, speed: Fixed) -> (r: Result<(), DriverError>)
        ensures
            !old(self).spec_connected() ==> r == Err::<(), DriverError>(
                DriverError::NotConnectedError,
            ),
            old(self).spec_connected() && old(self).spec_pending() ==> r == Err::<(), DriverError>(
                DriverError::BusyError,
            ),
            old(self).spec_connected() && !old(self).spec_pending() && !old(self).spec_homed()
                ==> r == Err::<(), DriverError>(DriverError::NotHomedError),
            old(self).spec_connected() && !old(self).spec_pending() && old(self).spec_homed()
                ==> {
                &&& r is Ok
                &&& spec_issued(*old(self), *final(self), spec_encode_start_test(speed.as_int()))
                &&& final(self).spec_homed()
            },
            r is Err ==> *final(self) == *old(self),
            final(self).wf() || !old(self).wf(),
    {
        if !self.connected {
            return Err(DriverError::NotConnectedError);
        }
        if self.acknowledge_pending {
            return Err(DriverError::BusyError);
        }
        if !self.is_homed {
            return Err(DriverError::NotHomedError);
        }
        let cmd = encode_start_test(speed);
        self.issue_command(cmd)
    }

    /// Cancels a test by re-invoking homing — no separate cancel protocol
    /// exists: homing both halts motion and, once its `ok` arrives, clears
    /// the pending state.  Best effort: while an acknowledgment is still
    /// pending the underlying homing command is rejected as busy and
    /// nothing changes.
    pub fn cancel_test(&mut self)
        ensures
            old(self).spec_connected() && !old(self).spec_pending() ==> {
                &&& spec_issued(*old(self), *final(self), spec_encode_home())
                &&& final(self).spec_homed()
            },
            !(old(self).spec_connected() && !old(self).spec_pending()) ==> *final(self) == *old(
                self,
            ),
            final(self).wf() || !old(self).wf(),
    {
        let _ = self.start_home();
    }

    /// Applies the completed line held in the line buffer and empties it.
    fn process_line(&mut self)
        ensures
            ({
                let ap = spec_apply_line(
                    old(self).values,
                    old(self).acknowledge_pending,
                    old(self).inbuf@,
                );
                final(self).values == ap.0 && final(self).acknowledge_pending == ap.1
            }),
            final(self).inbuf@ == Seq::<u8>::empty(),
            final(self).connected == old(self).connected,
            final(self).is_homed == old(self).is_homed,
            final(self).outbox == old(self).outbox,
    {
        let events = parse_line(&self.inbuf);
        let n = events.len();
        let mut j: usize = 0;
        proof {
            assert(events@.subrange(0, 0) =~= Seq::<TelemetryEvent>::empty());
        }
        while j < n
            invariant
                j <= n == events@.len(),
                events@ == spec_line_events(old(self).inbuf@),
                ({
                    let st = spec_apply_events(
                        old(self).values,
                        old(self).acknowledge_pending,
                        events@.subrange(0, j as int),
                    );
                    self.values == st.0 && self.acknowledge_pending == st.1
                }),
                self.inbuf == old(self).inbuf,
                self.connected == old(self).connected,
                self.is_homed == old(self).is_homed,
                self.outbox == old(self).outbox,
            decreases n - j,
        {
            proof {
                assert(events@.subrange(0, j + 1 as int).drop_last() =~= events@.subrange(
                    0,
                    j as int,
                ));
                assert(events@.subrange(0, j + 1 as int).last() == events@[j as int]);
            }
            match events[j] {
                TelemetryEvent::Acknowledge => {
                    self.acknowledge_pending = false;
                },
                TelemetryEvent::Position(p) => {
                    self.values.position = p;
                },
                TelemetryEvent::Tensile(t) => {
                    self.values.tensile = t;
                },
            }
            j = j + 1;
        }
        proof {
            assert(events@.subrange(0, n as int) =~= events@);
        }
        self.inbuf.clear();
    }

    /// The per-tick poll step.  When disconnected it does nothing and
    /// returns `None` — the bytes, if any, are discarded.  When connected
    /// it consumes the bytes the transport produced this tick: bytes
    /// accumulate in the line buffer, each line feed completes a line whose
    /// recognized tokens take effect in order (`ok` clears the pending
    /// flag, `X:`/`T:` replace a reading), and a partial trailing line is
    /// kept for the next tick.  Returns the current values snapshot whether
    /// or not this tick produced new samples.  Malformed tokens are skipped
    /// and never abort polling.
    #[verifier::loop_isolation(false)]
    pub fn update(&mut self, input: &Vec<u8>) -> (r: Option<Values>)
        ensures
            !old(self).spec_connected() ==> r is None && *final(self) == *old(self),
            old(self).spec_connected() ==> ({
                let st = spec_scan(
                    old(self).spec_values(),
                    old(self).spec_pending(),
                    old(self).spec_inbuf(),
                    input@,
                );
                &&& final(self).spec_values() == st.0
                &&& final(self).spec_pending() == st.1
                &&& final(self).spec_inbuf() == st.2
                &&& final(self).spec_connected()
                &&& final(self).spec_homed() == old(self).spec_homed()
                &&& final(self).spec_outbox() == old(self).spec_outbox()
                &&& r == Some(final(self).spec_values())
            }),
            old(self).wf() ==> final(self).wf(),
    {
        if !self.connected {
            return None;
        }
        let n = input.len();
        let mut i: usize = 0;
        proof {
            assert(input@.subrange(0, 0) =~= Seq::<u8>::empty());
        }
        while i < n
            invariant
                i <= n == input@.len(),
                ({
                    let st = spec_scan(
                        old(self).spec_values(),
                        old(self).spec_pending(),
                        old(self).spec_inbuf(),
                        input@.subrange(0, i as int),
                    );
                    self.values == st.0 && self.acknowledge_pending == st.1 && self.inbuf@ == st.2
                }),
                self.connected,
                self.is_homed == old(self).is_homed,
                self.outbox == old(self).outbox,
            decreases n - i,
        {
            proof {
                assert(input@.subrange(0, i + 1 as int).drop_last() =~= input@.subrange(
                    0,
                    i as int,
                ));
                assert(input@.subrange(0, i + 1 as int).last() == input@[i as int]);
            }
            let b = input[i];
            if b == BYTE_NL {
                self.process_line();
            } else {
                self.inbuf.push(b);
            }
            i = i + 1;
        }
        proof {
            assert(input@.subrange(0, n as int) =~= input@);
        }
        Some(self.values)
    }

    /// Whether a command is outstanding without its acknowledgment.
    pub fn is_acknowledge_pending(&self) -> (r: bool)
        ensures
            r == self.spec_pending(),
    {
        self.acknowledge_pending
    }

    /// Whether a homing cycle has been started on this connection.
    pub fn is_homed(&self) -> (r: bool)
        ensures
            r == self.spec_homed(),
    {
        self.is_homed
    }

    /// Whether a connection is currently open.
    pub fn is_connected(&self) -> (r: bool)
        ensures
            r == self.spec_connected(),
    {
        self.connected
    }

    /// The last-known telemetry values, by value.
    pub fn values(&self) -> (r: Values)
        ensures
            r == self.spec_values(),
    {
        self.values
    }

    /// Hands the queued command bytes to the transport owner, leaving the
    /// queue empty.  Everything else is untouched.
    pub fn take_outgoing(&mut self) -> (r: Vec<u8>)
        ensures
            r@ == old(self).spec_outbox(),
            final(self).spec_outbox() == Seq::<u8>::empty(),
            final(self).spec_connected() == old(self).spec_connected(),
            final(self).spec_pending() == old(self).spec_pending(),
            final(self).spec_homed() == old(self).spec_homed(),
            final(self).spec_values() == old(self).spec_values(),
            final(self).spec_inbuf() == old(self).spec_inbuf(),
            old(self).wf() ==> final(self).wf(),
    {
        let r = self.outbox.split_off(0);
        proof {
            assert(old(self).outbox@.subrange(0, old(self).outbox@.len() as int) =~= old(
                self,
            ).outbox@);
            assert(self.outbox@ =~= Seq::<u8>::empty());
        }
        r
    }
}

/// Scanning a chunk that holds no line feed only extends the line buffer:
/// nothing is applied until a line is complete.
proof fn lemma_scan_no_newline(v: Values, pending: bool, buf: Seq<u8>, s: Seq<u8>)
    requires
        forall|i: int| 0 <= i < s.len() ==> s[i] != BYTE_NL,
    ensures
        spec_scan(v, pending, buf, s) == (v, pending, buf + s),
    decreases s.len(),
{
    if s.len() == 0 {
        assert(buf + s =~= buf);
    } else {
        assert forall|i: int| 0 <= i < s.drop_last().len() implies s.drop_last()[i]
            != BYTE_NL by {
            assert(s.drop_last()[i] == s[i]);
        }
        lemma_scan_no_newline(v, pending, buf, s.drop_last());
        assert(s.last() != BYTE_NL);
        assert((buf + s.drop_last()).push(s.last()) =~= buf + s);
    }
}

/// One full poll tick carrying the telemetry line `X:<p> T:0\r\n`, with
/// nothing buffered beforehand: the scanned state ends with the position
/// exactly `p`, the tensile force zero, the pending flag and sample
/// counter untouched, and an empty line buffer.
pub proof fn lemma_poll_tick_roundtrip(vals: Values, pending: bool, v: i64)
    ensures
        ({
            let line = seq![crate::codec::BYTE_UPPER_X, crate::codec::BYTE_COLON]
                + crate::fixed::spec_format_fixed(v as int) + seq![
                crate::codec::BYTE_SPACE,
                crate::codec::BYTE_UPPER_T,
                crate::codec::BYTE_COLON,
                crate::fixed::BYTE_ZERO,
            ];
            let st = spec_scan(
                vals,
                pending,
                Seq::<u8>::empty(),
                line + seq![crate::codec::BYTE_CR, BYTE_NL],
            );
            st.0.position == (Fixed { hundredths: v }) && st.0.tensile == 0 && st.0.sample
                == vals.sample && st.1 == pending && st.2 == Seq::<u8>::empty()
        }),
{
    let num = crate::fixed::spec_format_fixed(v as int);
    let line = seq![crate::codec::BYTE_UPPER_X, crate::codec::BYTE_COLON] + num + seq![
        crate::codec::BYTE_SPACE,
        crate::codec::BYTE_UPPER_T,
        crate::codec::BYTE_COLON,
        crate::fixed::BYTE_ZERO,
    ];
    crate::fixed::lemma_format_fixed_bytes(v as int);
    assert forall|i: int| 0 <= i < line.len() implies line[i] != BYTE_NL by {
        if 2 <= i < 2 + num.len() {
            assert(line[i] == num[i - 2]);
        }
    }
    let withcr = line + seq![crate::codec::BYTE_CR];
    assert forall|i: int| 0 <= i < withcr.len() implies withcr[i] != BYTE_NL by {
        if i < line.len() {
            assert(withcr[i] == line[i]);
        } else {
            assert(withcr[i] == crate::codec::BYTE_CR);
        }
    }
    let chunk = line + seq![crate::codec::BYTE_CR, BYTE_NL];
    assert(chunk.drop_last() =~= withcr);
    assert(chunk.last() == BYTE_NL);
    lemma_scan_no_newline(vals, pending, Seq::<u8>::empty(), withcr);
    assert(Seq::<u8>::empty() + withcr =~= withcr);
    crate::codec::lemma_tokens_trailing_cr(line);
    assert(line.push(crate::codec::BYTE_CR) =~= withcr);
    assert(spec_line_events(withcr) == spec_line_events(line));
    lemma_apply_line_roundtrip(vals, pending, v);
    assert(spec_apply_line(vals, pending, withcr) == spec_apply_line(vals, pending, line));
}

/// A telemetry line `X:<p> T:0` whose position payload is the encoder's
/// own rendering of `p` — the same rendering the move command `G0 X<p>`
/// carries — drives the last-known position to exactly `p` and the tensile
/// reading to zero, whatever the prior state; the pending flag is
/// untouched.
pub proof fn lemma_apply_line_roundtrip(vals: Values, pending: bool, v: i64)
    ensures
        ({
            let line = seq![crate::codec::BYTE_UPPER_X, crate::codec::BYTE_COLON]
                + crate::fixed::spec_format_fixed(v as int) + seq![
                crate::codec::BYTE_SPACE,
                crate::codec::BYTE_UPPER_T,
                crate::codec::BYTE_COLON,
                crate::fixed::BYTE_ZERO,
            ];
            let ap = spec_apply_line(vals, pending, line);
            ap.0.position == (Fixed { hundredths: v }) && ap.0.tensile == 0 && ap.0.sample
                == vals.sample && ap.1 == pending
        }),
{
    crate::codec::lemma_telemetry_line_roundtrip(v);
    let line = seq![crate::codec::BYTE_UPPER_X, crate::codec::BYTE_COLON]
        + crate::fixed::spec_format_fixed(v as int) + seq![
        crate::codec::BYTE_SPACE,
        crate::codec::BYTE_UPPER_T,
        crate::codec::BYTE_COLON,
        crate::fixed::BYTE_ZERO,
    ];
    let es = spec_line_events(line);
    assert(es == seq![
        TelemetryEvent::Position(Fixed { hundredths: v }),
        TelemetryEvent::Tensile(0),
    ]);
    assert(es.len() == 2);
    assert(es.last() == TelemetryEvent::Tensile(0));
    assert(es.drop_last() =~= seq![TelemetryEvent::Position(Fixed { hundredths: v })]);
    assert(es.drop_last().last() == TelemetryEvent::Position(Fixed { hundredths: v }));
    assert(es.drop_last().drop_last() =~= Seq::<TelemetryEvent>::empty());
    assert(spec_apply_events(vals, pending, Seq::<TelemetryEvent>::empty()) == (vals, pending));
    let st1 = spec_apply_event(vals, pending, TelemetryEvent::Position(Fixed { hundredths: v }));
    assert(spec_apply_events(vals, pending, es.drop_last()) == st1);
    let st2 = spec_apply_event(st1.0, st1.1, TelemetryEvent::Tensile(0));
    assert(spec_apply_events(vals, pending, es) == st2);
    assert(st2.0.position == (Fixed { hundredths: v }));
    assert(st2.0.tensile == 0);
    assert(st2.0.sample == vals.sample);
    assert(st2.1 == pending);
}

} // verus!
