//! The receiving side of the port: what is reported of each packet that the
//! framer recovers, and the decisions of the thread that owns the port.

use vstd::prelude::*;
use crate::can_protocol::{
    distance_of, gear_name, parse_distance_from_data, parse_received_can_message,
    parse_vehicle_status_8byte, received, status_of,
};
use crate::framer::{
    lemma_pass_settles, lemma_step_shrinks, next_step, pass, settled, FramerStep,
};
use crate::text::{hex_spaced, push_hex_spaced, str_eq};

verus! {

/// What is reported of a packet that the framer recovered.
pub struct ReportModel {
    pub id: Seq<char>,
    pub data: Seq<char>,
    pub raw_data: Seq<char>,
    pub frame_type: Seq<char>,
    pub vehicle_status: Option<(Seq<char>, i16)>,
    pub radar_distance: Option<u16>,
}

/// The identifier under which the vehicle reports its status.
pub open spec fn is_status_id(id: Seq<char>) -> bool {
    id == "0x00000123"@
}

/// The identifiers under which the four radars report.
pub open spec fn is_radar_id(id: Seq<char>) -> bool {
    id == "0x00000521"@ || id == "0x00000522"@ || id == "0x00000523"@ || id == "0x00000524"@
}

/// Gear name and steering of the status that a payload text reports.
pub open spec fn gear_and_steering(data: Seq<char>) -> Option<(Seq<char>, i16)> {
    match status_of(data) {
        Some(s) => Some((gear_name(s.gear), s.steering_raw)),
        None => None,
    }
}

/// What is reported of a packet. A packet that reads as a frame is reported
/// with its fields, with gear and steering where it carries the vehicle's
/// status, and with the distance where it comes from a radar. A packet that
/// does not read as a frame is reported as `UNKNOWN`, with its bytes for data.
pub open spec fn report_of(packet: Seq<u8>) -> ReportModel {
    match received(packet) {
        Some(m) => ReportModel {
            id: m.id,
            data: m.data,
            raw_data: hex_spaced(packet),
            frame_type: m.frame_type,
            vehicle_status: if is_status_id(m.id) {
                gear_and_steering(m.data)
            } else {
                None
            },
            radar_distance: if is_radar_id(m.id) {
                Some(distance_of(m.data))
            } else {
                None
            },
        },
        None => ReportModel {
            id: "UNKNOWN"@,
            data: hex_spaced(packet),
            raw_data: hex_spaced(packet),
            frame_type: "unknown"@,
            vehicle_status: None,
            radar_distance: None,
        },
    }
}

/// What is reported of a packet that the framer recovered.
#[derive(Debug)]
pub struct ReceivedFrame {
    /// The identifier as `0x` and eight digits, or `UNKNOWN`.
    pub id: String,
    /// The payload as spaced hexadecimal pairs.
    pub data: String,
    /// The whole packet as spaced hexadecimal pairs.
    pub raw_data: String,
    /// `standard`, `extended` or `unknown`.
    pub frame_type: String,
    /// The gear's name and the steering angle in hundredths of a degree.
    pub vehicle_status: Option<(String, i16)>,
    /// The distance in millimetres that a radar reports.
    pub radar_distance: Option<u16>,
}

impl View for ReceivedFrame {
    type V = ReportModel;

    open spec fn view(&self) -> ReportModel {
        ReportModel {
            id: self.id@,
            data: self.data@,
            raw_data: self.raw_data@,
            frame_type: self.frame_type@,
            vehicle_status: match self.vehicle_status {
                Some((gear, steering)) => Some((gear@, steering)),
                None => None,
            },
            radar_distance: self.radar_distance,
        }
    }
}

fn hex_text(bytes: &[u8]) -> (text: String)
    ensures
        text@ == hex_spaced(bytes@),
{
    let mut text = String::new();
    push_hex_spaced(&mut text, bytes);
    assert(text@ =~= hex_spaced(bytes@));
    text
}

/// Reports a packet that the framer recovered.
pub fn report_packet(packet: &[u8]) -> (r: ReceivedFrame)
    ensures
        r@ == report_of(packet@),
{
    let raw_data = hex_text(packet);
    match parse_received_can_message(packet) {
        Some((id, data, frame_type)) => {
            let vehicle_status = if str_eq(id.as_str(), "0x00000123") {
                parse_vehicle_status_8byte(data.as_str())
            } else {
                None
            };
            let radar = str_eq(id.as_str(), "0x00000521") || str_eq(id.as_str(), "0x00000522")
                || str_eq(id.as_str(), "0x00000523") || str_eq(id.as_str(), "0x00000524");
            let radar_distance = if radar {
                Some(parse_distance_from_data(data.as_str()))
            } else {
                None
            };
            ReceivedFrame { id, data, raw_data, frame_type, vehicle_status, radar_distance }
        },
        None => ReceivedFrame {
            id: "UNKNOWN".to_owned(),
            data: hex_text(packet),
            raw_data,
            frame_type: "unknown".to_owned(),
            vehicle_status: None,
            radar_distance: None,
        },
    }
}

/// The reports of packets.
pub open spec fn reports_of(packets: Seq<Seq<u8>>) -> Seq<ReportModel> {
    packets.map_values(|p: Seq<u8>| report_of(p))
}

/// The views of reports.
pub open spec fn report_views(frames: Seq<ReceivedFrame>) -> Seq<ReportModel> {
    frames.map_values(|f: ReceivedFrame| f@)
}

/// Recovers the packets that the buffer holds, in the order of their arrival,
/// and reports each; the buffer keeps what may belong to a later packet.
pub fn process_message_buffer(message_buffer: &mut Vec<u8>) -> (frames: Vec<ReceivedFrame>)
    ensures
        report_views(frames@) == reports_of(pass(old(message_buffer)@).packets),
        final(message_buffer)@ == pass(old(message_buffer)@).rest,
        settled(final(message_buffer)@),
{
    let mut frames: Vec<ReceivedFrame> = Vec::new();
    let ghost mut seen: Seq<Seq<u8>> = Seq::empty();
    assert(report_views(frames@) =~= reports_of(seen));
    loop
        invariant
            report_views(frames@) == reports_of(seen),
            pass(old(message_buffer)@).packets == seen + pass(message_buffer@).packets,
            pass(old(message_buffer)@).rest == pass(message_buffer@).rest,
        decreases message_buffer@.len(),
    {
        let ghost before = message_buffer@;
        proof {
            lemma_step_shrinks(before);
        }
        match next_step(message_buffer) {
            FramerStep::NeedMoreData => {
                proof {
                    assert(seen + pass(before).packets =~= seen);
                    lemma_pass_settles(old(message_buffer)@);
                }
                return frames;
            },
            FramerStep::Discarded => {},
            FramerStep::Packet(packet) => {
                let frame = report_packet(packet.as_slice());
                proof {
                    assert(report_views(frames@.push(frame)) =~= report_views(frames@).push(
                        frame@,
                    ));
                    assert(reports_of(seen.push(packet@)) =~= reports_of(seen).push(
                        report_of(packet@),
                    ));
                    assert(seen.push(packet@) + pass(message_buffer@).packets =~= seen + (
                    seq![packet@] + pass(message_buffer@).packets));
                    seen = seen.push(packet@);
                }
                frames.push(frame);
            },
        }
    }
}

/// How long the thread sleeps after a read that brought nothing, in
/// milliseconds.
pub const IDLE_SLEEP_MS: u64 = 5;

/// How long the thread sleeps after a read that failed, in milliseconds.
pub const ERROR_SLEEP_MS: u64 = 10;

/// The size of the buffer that one read fills, in bytes.
pub const READ_CHUNK: usize = 1024;

/// What the thread found when it looked at the outbound queue.
#[derive(Debug)]
pub enum Outbound {
    /// A packet is waiting.
    Packet(Vec<u8>),
    /// Nothing is waiting.
    Empty,
    /// The sending side is gone.
    Closed,
}

/// What the thread does after a look at the outbound queue.
#[derive(Debug)]
pub enum PortAction {
    /// Write the packet and flush; a failure is logged and the packet is not
    /// sent again.
    Write(Vec<u8>),
    /// Try to read.
    Read,
    /// Leave the loop.
    Exit,
}

/// Decides what the thread does after a look at the outbound queue: a packet
/// that waits is written before anything is read, an empty queue lets the
/// thread read, and a closed queue ends the loop.
pub fn after_poll(polled: Outbound) -> (action: PortAction)
    ensures
        match polled {
            Outbound::Packet(p) => action matches PortAction::Write(q) && q@ == p@,
            Outbound::Empty => action is Read,
            Outbound::Closed => action is Exit,
        },
{
    match polled {
        Outbound::Packet(p) => PortAction::Write(p),
        Outbound::Empty => PortAction::Read,
        Outbound::Closed => PortAction::Exit,
    }
}

/// How a read ended.
#[derive(Debug)]
pub enum ReadOutcome {
    /// These bytes arrived; there may be none.
    Data(Vec<u8>),
    /// The read timed out, as polling reads do.
    TimedOut,
    /// The read failed otherwise.
    Failed,
}

/// What the thread does after a read.
#[derive(Debug)]
pub enum ReadAction {
    /// Hand the frames to the notification sink, in this order.
    Dispatch(Vec<ReceivedFrame>),
    /// Sleep for so many milliseconds, then go on.
    Sleep(u64),
    /// Go on at once.
    Continue,
}

/// The receiving state of the thread that owns the port: the bytes that have
/// arrived and belong to no packet yet.
#[derive(Debug)]
pub struct PortOwner {
    buffer: Vec<u8>,
}

impl View for PortOwner {
    type V = Seq<u8>;

    closed spec fn view(&self) -> Seq<u8> {
        self.buffer@
    }
}

impl PortOwner {
    /// A thread that has received nothing yet.
    pub fn new() -> (owner: PortOwner)
        ensures
            owner@ == Seq::<u8>::empty(),
    {
        PortOwner { buffer: Vec::new() }
    }

    /// The bytes that wait for more.
    pub fn buffered(&self) -> (bytes: &Vec<u8>)
        ensures
            bytes@ == self@,
    {
        &self.buffer
    }

    /// Decides what the thread does after a read. Bytes that arrived are put
    /// behind the buffered ones, and a pass recovers the packets, which are
    /// dispatched in the order of their arrival. A read without bytes is
    /// followed by a short sleep, a failed one by a longer sleep, a timeout by
    /// nothing; none of them changes the buffer. The thread never gives up on
    /// its own.
    pub fn after_read(&mut self, outcome: ReadOutcome) -> (action: ReadAction)
        ensures
            match outcome {
                ReadOutcome::Data(bytes) => if bytes@.len() > 0 {
                    &&& final(self)@ == pass(old(self)@ + bytes@).rest
                    &&& settled(final(self)@)
                    &&& action matches ReadAction::Dispatch(frames) && report_views(frames@)
                        == reports_of(pass(old(self)@ + bytes@).packets)
                } else {
                    final(self)@ == old(self)@ && action == ReadAction::Sleep(IDLE_SLEEP_MS)
                },
                ReadOutcome::TimedOut => final(self)@ == old(self)@ && action is Continue,
                ReadOutcome::Failed => final(self)@ == old(self)@ && action == ReadAction::Sleep(
                    ERROR_SLEEP_MS,
                ),
            },
    {
        match outcome {
            ReadOutcome::Data(bytes) => {
                if bytes.len() > 0 {
                    let mut i: usize = 0;
                    while i < bytes.len()
                        invariant
                            i <= bytes.len(),
                            self.buffer@ == old(self).buffer@ + bytes@.take(i as int),
                        decreases bytes.len() - i,
                    {
                        self.buffer.push(bytes[i]);
                        assert(self.buffer@ =~= old(self).buffer@ + bytes@.take(i + 1));
                        i += 1;
                    }
                    assert(bytes@.take(bytes.len() as int) =~= bytes@);
                    let frames = process_message_buffer(&mut self.buffer);
                    ReadAction::Dispatch(frames)
                } else {
                    ReadAction::Sleep(IDLE_SLEEP_MS)
                }
            },
            ReadOutcome::TimedOut => ReadAction::Continue,
            ReadOutcome::Failed => ReadAction::Sleep(ERROR_SLEEP_MS),
        }
    }
}

} // verus!
