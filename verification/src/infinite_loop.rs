//! The generator scheduler: sends a control frame at every tick, and, once it
//! is cancelled, a stop frame and a last frame with speed zero.

use vstd::prelude::*;
use crate::can_protocol::{
    fixed_packet, frame_of_text, id_of_text, is_extended, lemma_packed_hex_reads_back, zeros,
    CanFrame, CodecError, FrameModel,
};
use crate::csv_loop::{stop_after, stop_payload_after};
use crate::text::{hex_packed, push_hex_packed};
use crate::vehicle_control::{be_i16, control_of, gear_of_speed, ControlModel};

verus! {

/// The pause between two frames of the generator, in milliseconds.
pub const TICK_MS: u64 = 20;

/// The identifier of the generator's frames, which are standard frames.
pub const CONTROL_CAN_ID: u32 = 0x200;

/// A signed number of sixteen bits as two bytes, most significant first.
pub open spec fn be_bytes(v: i16) -> Seq<u8> {
    let u = if v < 0 {
        v + 0x1_0000
    } else {
        v as int
    };
    seq![(u / 0x100) as u8, (u % 0x100) as u8]
}

/// The payload of a control frame: speed in millimetres per second, steering
/// in thousandths of a degree, and four zero bytes.
pub open spec fn control_payload(speed: i16, steering_mdeg: i16) -> Seq<u8> {
    be_bytes(speed) + be_bytes(steering_mdeg) + zeros(4)
}

/// The payload of a control frame as sixteen hexadecimal digits.
pub open spec fn control_text(speed: i16, steering_mdeg: i16) -> Seq<char> {
    hex_packed(control_payload(speed, steering_mdeg))
}

/// The generator's frame with a payload.
pub open spec fn control_frame(payload: Seq<u8>) -> FrameModel {
    FrameModel { id: CONTROL_CAN_ID, extended: false, payload }
}

/// The two bytes of a number read back as that number.
pub proof fn lemma_be_bytes_read_back(v: i16)
    ensures
        be_i16(be_bytes(v)[0], be_bytes(v)[1]) == v,
{
}

/// The payload of a control frame reads back as the command it was built
/// from: the same speed, the same steering, and the gear of that speed.
pub proof fn lemma_control_payload_reads_back(speed: i16, steering_mdeg: i16)
    ensures
        control_payload(speed, steering_mdeg).len() == 8,
        control_of(control_payload(speed, steering_mdeg)) == (ControlModel {
            linear_velocity_mms: speed,
            steering_angle_mdeg: steering_mdeg,
            gear_name: gear_of_speed(speed),
        }),
{
    lemma_be_bytes_read_back(speed);
    lemma_be_bytes_read_back(steering_mdeg);
}

fn push_be(out: &mut Vec<u8>, v: i16)
    ensures
        final(out)@ == old(out)@ + be_bytes(v),
{
    let u: u16 = if v < 0 {
        (v as i32 + 0x1_0000) as u16
    } else {
        v as u16
    };
    out.push((u / 0x100) as u8);
    out.push((u % 0x100) as u8);
    assert(out@ =~= old(out)@ + be_bytes(v));
}

/// The payload of a control frame.
pub fn control_payload_of(speed: i16, steering_mdeg: i16) -> (payload: Vec<u8>)
    ensures
        payload@ == control_payload(speed, steering_mdeg),
        payload@.len() == 8,
{
    let mut payload: Vec<u8> = Vec::new();
    push_be(&mut payload, speed);
    push_be(&mut payload, steering_mdeg);
    payload.push(0x00);
    payload.push(0x00);
    payload.push(0x00);
    payload.push(0x00);
    assert(payload@ =~= control_payload(speed, steering_mdeg));
    payload
}

/// Writes the payload of a control frame as sixteen hexadecimal digits.
pub fn create_can_data(speed: i16, steering_mdeg: i16) -> (text: String)
    ensures
        text@ == control_text(speed, steering_mdeg),
{
    let payload = control_payload_of(speed, steering_mdeg);
    let mut text = String::new();
    push_hex_packed(&mut text, payload.as_slice());
    assert(text@ =~= hex_packed(payload@));
    text
}

/// The state of a generator session.
pub struct GeneratorModel {
    /// The payload of the frame that was sent last.
    pub last: Option<Seq<u8>>,
    /// Whether the session is over.
    pub finished: bool,
}

/// What a generator session asks of the thread that runs it.
pub enum GeneratorOutcome {
    /// Enqueue the packet, report the payload text, and sleep for a tick.
    Send { packet: Seq<u8>, can_data: Seq<char> },
    /// The session ends: enqueue the stop packet if there is one, then the
    /// last packet.
    Finished { stop: Option<Seq<u8>>, last: Seq<u8> },
    /// The session was over before.
    Over,
}

impl GeneratorModel {
    /// What the session asks at a tick. While the running flag is set it
    /// sends the control frame of the tick. Once it finds the flag cleared
    /// it ends: with the stop frame that follows the last frame sent, if one
    /// was sent, and then with a control frame of speed zero.
    pub open spec fn outcome(
        self,
        running: bool,
        speed: i16,
        steering_mdeg: i16,
    ) -> GeneratorOutcome {
        if self.finished {
            GeneratorOutcome::Over
        } else if running {
            GeneratorOutcome::Send {
                packet: fixed_packet(control_frame(control_payload(speed, steering_mdeg))),
                can_data: control_text(speed, steering_mdeg),
            }
        } else {
            GeneratorOutcome::Finished {
                stop: match stop_after(self.last) {
                    Some(payload) => Some(fixed_packet(control_frame(payload))),
                    None => None,
                },
                last: fixed_packet(control_frame(control_payload(0, 0))),
            }
        }
    }

    /// The state after a tick.
    pub open spec fn after(self, running: bool, speed: i16, steering_mdeg: i16) -> GeneratorModel {
        if self.finished {
            self
        } else if running {
            GeneratorModel { last: Some(control_payload(speed, steering_mdeg)), finished: false }
        } else {
            GeneratorModel { last: self.last, finished: true }
        }
    }
}

/// What a generator session asks of the thread that runs it.
#[derive(Debug)]
pub enum GeneratorStep {
    /// Enqueue the packet, report the payload text, and sleep for a tick.
    Send { packet: Vec<u8>, can_data: String },
    /// The session ends: enqueue the stop packet if there is one, then the
    /// last packet.
    Finished { stop: Option<Vec<u8>>, last: Vec<u8> },
    /// The session was over before.
    Over,
}

impl View for GeneratorStep {
    type V = GeneratorOutcome;

    open spec fn view(&self) -> GeneratorOutcome {
        match self {
            GeneratorStep::Send { packet, can_data } => GeneratorOutcome::Send {
                packet: packet@,
                can_data: can_data@,
            },
            GeneratorStep::Finished { stop, last } => GeneratorOutcome::Finished {
                stop: match stop {
                    Some(p) => Some(p@),
                    None => None,
                },
                last: last@,
            },
            GeneratorStep::Over => GeneratorOutcome::Over,
        }
    }
}

/// One session of the generator.
#[derive(Debug)]
pub struct GeneratorSession {
    last: Option<Vec<u8>>,
    finished: bool,
}

impl View for GeneratorSession {
    type V = GeneratorModel;

    closed spec fn view(&self) -> GeneratorModel {
        GeneratorModel {
            last: match self.last {
                Some(p) => Some(p@),
                None => None,
            },
            finished: self.finished,
        }
    }
}

/// The generator's packet with a payload of at most eight bytes.
fn control_packet(payload: Vec<u8>) -> (packet: Vec<u8>)
    requires
        payload@.len() <= 8,
    ensures
        packet@ == fixed_packet(control_frame(payload@)),
{
    match CanFrame::new(CONTROL_CAN_ID, false, payload) {
        Ok(frame) => frame.encode_fixed(),
        Err(_) => Vec::new(),
    }
}

impl GeneratorSession {
    /// A session that has sent nothing yet.
    pub fn new() -> (session: GeneratorSession)
        ensures
            session@ == (GeneratorModel { last: None, finished: false }),
    {
        GeneratorSession { last: None, finished: false }
    }

    /// Whether the session is over.
    pub fn is_finished(&self) -> (b: bool)
        ensures
            b == self@.finished,
    {
        self.finished
    }

    /// Decides what the session does at a tick, given the running flag as the
    /// thread has just read it, and the speed and steering for this tick.
    pub fn tick(&mut self, running: bool, speed: i16, steering_mdeg: i16) -> (step: GeneratorStep)
        ensures
            step@ == old(self)@.outcome(running, speed, steering_mdeg),
            final(self)@ == old(self)@.after(running, speed, steering_mdeg),
    {
        if self.finished {
            return GeneratorStep::Over;
        }
        if running {
            let packet = control_packet(control_payload_of(speed, steering_mdeg));
            let can_data = create_can_data(speed, steering_mdeg);
            self.last = Some(control_payload_of(speed, steering_mdeg));
            return GeneratorStep::Send { packet, can_data };
        }
        let stop = match &self.last {
            Some(payload) => {
                if payload.len() >= 8 {
                    Some(control_packet(stop_payload_after(payload[6])))
                } else {
                    None
                }
            },
            None => None,
        };
        let last = control_packet(control_payload_of(0, 0));
        self.finished = true;
        GeneratorStep::Finished { stop, last }
    }
}

/// The payload text of a tick, sent as the data of a standard frame under an
/// identifier text that writes `CONTROL_CAN_ID`, describes the control frame
/// of that tick.
pub proof fn lemma_control_text_describes_control_frame(
    id: Seq<char>,
    frame_type: Seq<char>,
    speed: i16,
    steering_mdeg: i16,
)
    requires
        id_of_text(id) == Some(CONTROL_CAN_ID),
        !is_extended(frame_type),
    ensures
        frame_of_text(id, control_text(speed, steering_mdeg), frame_type) == Ok::<
            FrameModel,
            CodecError,
        >(control_frame(control_payload(speed, steering_mdeg))),
{
    lemma_packed_hex_reads_back(control_payload(speed, steering_mdeg));
}

} // verus!
