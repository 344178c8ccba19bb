//! The receive loop of one stream: what it keeps between packets and what it
//! decides on each event.

use crate::descriptor::SessionDescriptor;
use crate::rtp::{
    payload, receive_rtp_payload, rejection, sequence_number, RtpError, RtpPacketOutcome,
};
use vstd::prelude::*;

verus! {

/// A remark on the order of the packets; the payload is forwarded all the same.
#[derive(Debug, Clone, Copy, PartialEq, Eq, Structural)]
pub enum Advisory {
    /// A packet that repeats an earlier one or comes after a later one.
    OutOfOrder { sequence_number: u16, previous: u16 },
    /// Packets that never came, by their number.
    PacketLoss { lost: u16 },
}

/// How far the sequence number `current` lies behind `previous`, counted on
/// the 16-bit counter: the difference of the two taken into the range from
/// -32768 to 32767 by adding or taking off 65536, so that 0 follows 65535
/// at a distance of 1.
pub open spec fn sequence_diff(previous: u16, current: u16) -> int {
    let raw = current as int - previous as int;
    if raw > 32767 {
        raw - 65536
    } else if raw < -32768 {
        raw + 65536
    } else {
        raw
    }
}

/// The remark that the sequence number `current` calls for after `previous`.
/// With `diff` their distance on the 16-bit counter: none where `diff` is 1,
/// out of order where `diff` is below 1, a loss of `diff - 1` packets where
/// it is above 1.
pub open spec fn spec_advisory(previous: Option<u16>, current: u16) -> Option<Advisory> {
    match previous {
        None => None,
        Some(previous) => {
            let diff = sequence_diff(previous, current);
            if diff < 1 {
                Some(Advisory::OutOfOrder { sequence_number: current, previous })
            } else if diff > 1 {
                Some(Advisory::PacketLoss { lost: (diff - 1) as u16 })
            } else {
                None
            }
        },
    }
}

/// The sequence number of the last packet of a receive loop, if there was one.
#[derive(Debug, Clone, Copy, PartialEq, Eq, Structural)]
pub struct SequenceState {
    pub previous: Option<u16>,
}

impl SequenceState {
    /// The state at the start of a receive loop: no packet seen.
    pub fn new() -> (state: SequenceState)
        ensures
            state.previous is None,
    {
        SequenceState { previous: None }
    }

    /// Takes note of a packet's sequence number and says what it calls for.
    /// The number is kept whatever the remark.
    pub fn observe(&mut self, current: u16) -> (advisory: Option<Advisory>)
        ensures
            advisory == spec_advisory(old(self).previous, current),
            final(self).previous == Some(current),
    {
        let advisory = match self.previous {
            None => None,
            Some(previous) => {
                let raw: i32 = current as i32 - previous as i32;
                let diff: i32 = if raw > 32767 {
                    raw - 65536
                } else if raw < -32768 {
                    raw + 65536
                } else {
                    raw
                };
                if diff < 1 {
                    Some(Advisory::OutOfOrder { sequence_number: current, previous })
                } else if diff > 1 {
                    Some(Advisory::PacketLoss { lost: (diff - 1) as u16 })
                } else {
                    None
                }
            },
        };
        self.previous = Some(current);
        advisory
    }
}

/// What is reported when a window of one second rolls over.
#[derive(Debug, Clone, Copy, PartialEq, Eq, Structural)]
pub struct Throughput {
    /// The packets counted in the window.
    pub packets: u64,
    /// The size of the payload that came last.
    pub payload_size: usize,
}

/// Why a receive loop ends.
#[derive(Debug, Clone, Copy, PartialEq, Eq, Structural)]
pub enum CloseReason {
    /// The session asked the loop to stop.
    StopRequested,
    /// The socket failed.
    ReceiveFailed,
    /// A datagram was no RTP packet.
    MalformedPacket(RtpError),
    /// The consumer of the payloads is gone.
    ForwardFailed,
}

/// What happened to a receive loop while it waited.
#[derive(Debug, Clone, PartialEq, Eq)]
pub enum LoopEvent {
    /// The stop signal came.
    Stop,
    /// A datagram came; `window_elapsed` says whether a second or more has
    /// passed since the window of the throughput count began.
    Datagram { bytes: Vec<u8>, window_elapsed: bool },
    /// Receiving from the socket failed.
    ReceiveFailed,
    /// The payload handed out last could not be forwarded.
    ForwardFailed,
}

/// What a receive loop does next.
#[derive(Debug, Clone, PartialEq, Eq)]
pub enum LoopAction {
    /// Wait for the next event.
    Continue,
    /// Forward the payload, after issuing the remark and the report that come
    /// with it; where there is a report, a new window begins.
    Forward { payload: Vec<u8>, advisory: Option<Advisory>, report: Option<Throughput> },
    /// End the loop.
    Close(CloseReason),
}

/// What a receive loop keeps between two packets.
#[derive(Debug, Clone, Copy, PartialEq, Eq, Structural)]
pub struct ReceiveLoop {
    /// The sequence number of the last packet.
    pub sequence: SequenceState,
    /// The packets counted in the running window.
    pub counter: u64,
}

/// The count of the running window after one more packet: back to zero when
/// the window rolls over, else one more, never beyond the range of `u64`.
pub open spec fn counter_after(counter: u64, window_elapsed: bool) -> u64 {
    if window_elapsed {
        0
    } else if counter == u64::MAX {
        counter
    } else {
        (counter + 1) as u64
    }
}

/// The report that a packet of `payload_size` bytes sets off.
pub open spec fn report_for(counter: u64, window_elapsed: bool, payload_size: usize) -> Option<
    Throughput,
> {
    if window_elapsed {
        Some(Throughput { packets: counter, payload_size })
    } else {
        None
    }
}

/// Whether a loop in the state `before` that takes in `datagram` ends up in
/// the state `after` and does `action`. An empty datagram changes nothing and
/// the loop goes on. One that is no RTP packet changes nothing and ends the
/// loop. Of any other the payload is forwarded, with the remark that its
/// sequence number calls for and the report that is due; the sequence number
/// is kept and the packet counted.
pub open spec fn takes_in(
    before: ReceiveLoop,
    datagram: Seq<u8>,
    window_elapsed: bool,
    after: ReceiveLoop,
    action: LoopAction,
) -> bool {
    if datagram.len() == 0 {
        action == LoopAction::Continue && after == before
    } else if rejection(datagram) is Some {
        action == LoopAction::Close(CloseReason::MalformedPacket(rejection(datagram)->0)) && after
            == before
    } else {
        &&& action matches LoopAction::Forward { payload: bytes, advisory, report } && bytes@
            == payload(datagram) && advisory == spec_advisory(
            before.sequence.previous,
            sequence_number(datagram),
        ) && report == report_for(before.counter, window_elapsed, payload(datagram).len() as usize)
        &&& after.sequence.previous == Some(sequence_number(datagram))
        &&& after.counter == counter_after(before.counter, window_elapsed)
    }
}

impl ReceiveLoop {
    /// A loop that has seen no packet.
    pub fn new() -> (state: ReceiveLoop)
        ensures
            state == (ReceiveLoop { sequence: SequenceState { previous: None }, counter: 0 }),
    {
        ReceiveLoop { sequence: SequenceState::new(), counter: 0 }
    }

    /// Takes in the payload of one packet: checks its sequence number against
    /// the last, counts it, and hands it out to be forwarded.
    pub fn on_payload(&mut self, bytes: Vec<u8>, number: u16, window_elapsed: bool) -> (action:
        LoopAction)
        ensures
            action matches LoopAction::Forward { payload, advisory, report } && payload == bytes
                && advisory == spec_advisory(old(self).sequence.previous, number) && report
                == report_for(old(self).counter, window_elapsed, bytes@.len() as usize),
            final(self).sequence.previous == Some(number),
            final(self).counter == counter_after(old(self).counter, window_elapsed),
    {
        let advisory = self.sequence.observe(number);
        let report = if window_elapsed {
            let report = Throughput { packets: self.counter, payload_size: bytes.len() };
            self.counter = 0;
            Some(report)
        } else {
            if self.counter < u64::MAX {
                self.counter = self.counter + 1;
            }
            None
        };
        LoopAction::Forward { payload: bytes, advisory, report }
    }

    /// Takes in one datagram. An empty one is passed over; one that is no RTP
    /// packet ends the loop; of any other the payload is handed out.
    pub fn on_datagram(&mut self, datagram: &[u8], window_elapsed: bool) -> (action: LoopAction)
        ensures
            takes_in(*old(self), datagram@, window_elapsed, *final(self), action),
    {
        match receive_rtp_payload(datagram) {
            RtpPacketOutcome::Empty => LoopAction::Continue,
            RtpPacketOutcome::Error(e) => LoopAction::Close(CloseReason::MalformedPacket(e)),
            RtpPacketOutcome::Payload(bytes, number) => self.on_payload(
                bytes,
                number as u16,
                window_elapsed,
            ),
        }
    }

    /// Decides what the loop does on `event`: it ends on the stop signal and
    /// on every failure, and takes a datagram in as `on_datagram` does.
    pub fn step(&mut self, event: LoopEvent) -> (action: LoopAction)
        ensures
            match event {
                LoopEvent::Stop => action == LoopAction::Close(CloseReason::StopRequested)
                    && *final(self) == *old(self),
                LoopEvent::ReceiveFailed => action == LoopAction::Close(
                    CloseReason::ReceiveFailed,
                ) && *final(self) == *old(self),
                LoopEvent::ForwardFailed => action == LoopAction::Close(
                    CloseReason::ForwardFailed,
                ) && *final(self) == *old(self),
                LoopEvent::Datagram { bytes, window_elapsed } => takes_in(
                    *old(self),
                    bytes@,
                    window_elapsed,
                    *final(self),
                    action,
                ),
            },
    {
        match event {
            LoopEvent::Stop => LoopAction::Close(CloseReason::StopRequested),
            LoopEvent::ReceiveFailed => LoopAction::Close(CloseReason::ReceiveFailed),
            LoopEvent::ForwardFailed => LoopAction::Close(CloseReason::ForwardFailed),
            LoopEvent::Datagram { bytes, window_elapsed } => self.on_datagram(
                bytes.as_slice(),
                window_elapsed,
            ),
        }
    }
}

/// Why a stream cannot be played.
#[derive(Debug, Clone, Copy, PartialEq, Eq, Structural)]
pub enum StreamError {
    /// The receive loop of the stream was started before.
    AlreadyStarted,
}

/// One stream and whether its receive loop is still to be started. The loop
/// can be started once.
#[derive(Debug, Clone, Copy, PartialEq, Eq, Structural)]
pub struct Stream {
    pub descriptor: SessionDescriptor,
    pub started: bool,
}

impl Stream {
    /// A stream whose receive loop is still to be started.
    pub fn new(descriptor: SessionDescriptor) -> (stream: Stream)
        ensures
            stream == (Stream { descriptor, started: false }),
    {
        Stream { descriptor, started: false }
    }

    /// Starts the receive loop: the first time it hands out a loop that has
    /// seen no packet, every later time it fails and changes nothing.
    pub fn play(&mut self) -> (r: Result<ReceiveLoop, StreamError>)
        ensures
            final(self).descriptor == old(self).descriptor,
            final(self).started,
            r == if old(self).started {
                Err::<ReceiveLoop, StreamError>(StreamError::AlreadyStarted)
            } else {
                Ok(ReceiveLoop { sequence: SequenceState { previous: None }, counter: 0 })
            },
    {
        if self.started {
            Err(StreamError::AlreadyStarted)
        } else {
            self.started = true;
            Ok(ReceiveLoop::new())
        }
    }
}

} // verus!
