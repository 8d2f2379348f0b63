//! The control command that a four-byte payload carries: speed, steering and
//! the gear that the speed implies.

use vstd::prelude::*;
use crate::text::{parse_hex, read_hex};
use vstd::string::StringSliceAdditionalSpecFns;

verus! {

/// A control command for the vehicle.
#[derive(Debug, Clone)]
pub struct VehicleControl {
    /// The speed of the vehicle in millimetres per second.
    pub linear_velocity_mms: i16,
    /// The steering angle in thousandths of a degree.
    pub steering_angle_mdeg: i16,
    /// `D` while the speed is positive, `R` while it is negative, `P` at rest.
    pub gear_name: String,
}

/// What a control command says.
pub struct ControlModel {
    pub linear_velocity_mms: i16,
    pub steering_angle_mdeg: i16,
    pub gear_name: Seq<char>,
}

impl View for VehicleControl {
    type V = ControlModel;

    open spec fn view(&self) -> ControlModel {
        ControlModel {
            linear_velocity_mms: self.linear_velocity_mms,
            steering_angle_mdeg: self.steering_angle_mdeg,
            gear_name: self.gear_name@,
        }
    }
}

/// Two bytes, most significant first, as a signed number of sixteen bits.
pub open spec fn be_i16(high: u8, low: u8) -> i16 {
    let u = 0x100 * high + low;
    if u >= 0x8000 {
        (u - 0x1_0000) as i16
    } else {
        u as i16
    }
}

/// The gear that a speed implies.
pub open spec fn gear_of_speed(speed: i16) -> Seq<char> {
    if speed > 0 {
        "D"@
    } else if speed < 0 {
        "R"@
    } else {
        "P"@
    }
}

/// The command in the first four bytes of a payload: the speed in bytes 0 and
/// 1, the steering angle in bytes 2 and 3, both signed and most significant
/// byte first.
pub open spec fn control_of(data: Seq<u8>) -> ControlModel {
    ControlModel {
        linear_velocity_mms: be_i16(data[0], data[1]),
        steering_angle_mdeg: be_i16(data[2], data[3]),
        gear_name: gear_of_speed(be_i16(data[0], data[1])),
    }
}

/// What is told of a payload of fewer than four bytes.
pub open spec fn too_short_text() -> Seq<char> {
    "输入数据长度必须至少是 4 字节"@
}

/// Two bytes, most significant first, as a signed number of sixteen bits.
pub fn i16_from_be(high: u8, low: u8) -> (v: i16)
    ensures
        v == be_i16(high, low),
{
    let u: u16 = 0x100 * (high as u16) + low as u16;
    if u >= 0x8000 {
        (u as i32 - 0x1_0000) as i16
    } else {
        u as i16
    }
}

/// Reads the control command in the first four bytes of a payload.
pub fn parse_vehicle_control_data(data: &[u8]) -> (r: Result<VehicleControl, &'static str>)
    ensures
        data@.len() >= 4 ==> (r matches Ok(control) && control@ == control_of(data@)),
        data@.len() < 4 ==> (r matches Err(text) && text@ == too_short_text()),
{
    if data.len() < 4 {
        return Err("输入数据长度必须至少是 4 字节");
    }
    let linear_velocity_mms = i16_from_be(data[0], data[1]);
    let steering_angle_mdeg = i16_from_be(data[2], data[3]);
    let gear_name = if linear_velocity_mms > 0 {
        "D".to_owned()
    } else if linear_velocity_mms < 0 {
        "R".to_owned()
    } else {
        "P".to_owned()
    };
    Ok(VehicleControl { linear_velocity_mms, steering_angle_mdeg, gear_name })
}

/// `s` without the bytes equal to `b`.
pub open spec fn without_byte(s: Seq<u8>, b: u8) -> Seq<u8>
    decreases s.len(),
{
    if s.len() == 0 {
        s
    } else if s[0] == b {
        without_byte(s.skip(1), b)
    } else {
        seq![s[0]] + without_byte(s.skip(1), b)
    }
}

/// `s` without the occurrences of the pair `b0 b1`, found from the left and
/// without overlap.
pub open spec fn without_pair(s: Seq<u8>, b0: u8, b1: u8) -> Seq<u8>
    decreases s.len(),
{
    if s.len() < 2 {
        s
    } else if s[0] == b0 && s[1] == b1 {
        without_pair(s.skip(2), b0, b1)
    } else {
        seq![s[0]] + without_pair(s.skip(1), b0, b1)
    }
}

/// The bytes of a text without its spaces, then without `0x`, then without
/// `0X`.
pub open spec fn cleaned(bytes: Seq<u8>) -> Seq<u8> {
    without_pair(without_pair(without_byte(bytes, 0x20), 0x30, 0x78), 0x30, 0x58)
}

/// Why a text is no hexadecimal payload.
#[derive(Debug, Clone, Copy, PartialEq, Eq, Structural)]
pub enum HexFault {
    /// The cleaned text has an odd number of bytes.
    OddLength,
    /// Two bytes that belong together are no text of their own: they cut a
    /// character of several bytes.
    BrokenChunk,
    /// Two bytes that belong together write no byte in hexadecimal.
    InvalidDigit,
}

/// What is told of a fault.
pub open spec fn fault_text(f: HexFault) -> Seq<char> {
    match f {
        HexFault::OddLength => "十六进制字符串长度必须是偶数"@,
        HexFault::BrokenChunk => "Failed to convert byte chunk to string"@,
        HexFault::InvalidDigit => "Invalid hex character"@,
    }
}

/// Whether two bytes are UTF-8 text of their own: two ASCII characters, or
/// one character of two bytes.
pub open spec fn is_text_chunk(b0: u8, b1: u8) -> bool {
    (b0 < 0x80 && b1 < 0x80) || (0xC2 <= b0 <= 0xDF && 0x80 <= b1 <= 0xBF)
}

/// The byte that two bytes of text write in hexadecimal.
pub open spec fn chunk_value(b0: u8, b1: u8) -> Result<u8, HexFault> {
    if !is_text_chunk(b0, b1) {
        Err(HexFault::BrokenChunk)
    } else {
        match read_hex(seq![b0 as char, b1 as char], 255) {
            Some(v) => Ok(v as u8),
            None => Err(HexFault::InvalidDigit),
        }
    }
}

/// The bytes that the pairs of `s` write, or the fault of the first pair that
/// writes none.
pub open spec fn chunk_bytes(s: Seq<u8>) -> Result<Seq<u8>, HexFault>
    decreases s.len(),
{
    if s.len() < 2 {
        Ok(Seq::empty())
    } else {
        match chunk_value(s[0], s[1]) {
            Err(f) => Err(f),
            Ok(v) => match chunk_bytes(s.skip(2)) {
                Err(f) => Err(f),
                Ok(rest) => Ok(seq![v] + rest),
            },
        }
    }
}

/// The payload that the UTF-8 bytes of a text write, once spaces and `0x`
/// marks are taken out.
pub open spec fn can_data_of(bytes: Seq<u8>) -> Result<Seq<u8>, HexFault> {
    let c = cleaned(bytes);
    if c.len() % 2 != 0 {
        Err(HexFault::OddLength)
    } else {
        chunk_bytes(c)
    }
}

fn strip_byte(s: &[u8], b: u8) -> (out: Vec<u8>)
    ensures
        out@ == without_byte(s@, b),
{
    let mut out: Vec<u8> = Vec::new();
    let mut i: usize = 0;
    proof {
        assert(s@.skip(0) =~= s@);
        assert(out@ + without_byte(s@, b) =~= without_byte(s@, b));
    }
    while i < s.len()
        invariant
            i <= s.len(),
            without_byte(s@, b) == out@ + without_byte(s@.skip(i as int), b),
        decreases s.len() - i,
    {
        proof {
            let t = s@.skip(i as int);
            assert(t[0] == s@[i as int]);
            assert(t.skip(1) =~= s@.skip(i + 1));
            if t[0] != b {
                assert(out@.push(t[0]) + without_byte(t.skip(1), b) =~= out@ + (seq![t[0]]
                    + without_byte(t.skip(1), b)));
            }
        }
        if s[i] != b {
            out.push(s[i]);
        }
        i += 1;
    }
    proof {
        assert(out@ + without_byte(s@.skip(i as int), b) =~= out@);
    }
    out
}

fn strip_pair(s: &Vec<u8>, b0: u8, b1: u8) -> (out: Vec<u8>)
    ensures
        out@ == without_pair(s@, b0, b1),
{
    let mut out: Vec<u8> = Vec::new();
    let mut i: usize = 0;
    proof {
        assert(s@.skip(0) =~= s@);
        assert(out@ + without_pair(s@, b0, b1) =~= without_pair(s@, b0, b1));
    }
    while i < s.len()
        invariant
            i <= s.len(),
            without_pair(s@, b0, b1) == out@ + without_pair(s@.skip(i as int), b0, b1),
        decreases s.len() - i,
    {
        proof {
            let t = s@.skip(i as int);
            assert(t[0] == s@[i as int]);
            assert(t.skip(1) =~= s@.skip(i + 1));
            if t.len() >= 2 {
                assert(t[1] == s@[i + 1]);
                assert(t.skip(2) =~= s@.skip(i + 2));
                assert(out@.push(t[0]) + without_pair(t.skip(1), b0, b1) =~= out@ + (seq![t[0]]
                    + without_pair(t.skip(1), b0, b1)));
            } else {
                assert(out@.push(t[0]) + without_pair(t.skip(1), b0, b1) =~= out@ + t);
            }
        }
        if i + 1 < s.len() && s[i] == b0 && s[i + 1] == b1 {
            i += 2;
        } else {
            out.push(s[i]);
            i += 1;
        }
    }
    proof {
        assert(out@ + without_pair(s@.skip(i as int), b0, b1) =~= out@);
    }
    out
}

fn parse_chunk(b0: u8, b1: u8) -> (r: Result<u8, HexFault>)
    ensures
        r == chunk_value(b0, b1),
{
    let ascii = b0 < 0x80 && b1 < 0x80;
    let two_byte_char = 0xC2 <= b0 && b0 <= 0xDF && 0x80 <= b1 && b1 <= 0xBF;
    if !ascii && !two_byte_char {
        return Err(HexFault::BrokenChunk);
    }
    let mut pair: Vec<char> = Vec::new();
    pair.push(b0 as char);
    pair.push(b1 as char);
    assert(pair@ =~= seq![b0 as char, b1 as char]);
    match parse_hex(&pair, 255) {
        Some(v) => Ok(v as u8),
        None => Err(HexFault::InvalidDigit),
    }
}

fn fault_message(f: HexFault) -> (text: &'static str)
    ensures
        text@ == fault_text(f),
{
    match f {
        HexFault::OddLength => "十六进制字符串长度必须是偶数",
        HexFault::BrokenChunk => "Failed to convert byte chunk to string",
        HexFault::InvalidDigit => "Invalid hex character",
    }
}

fn parse_chunks(s: &Vec<u8>) -> (r: Result<Vec<u8>, HexFault>)
    requires
        s@.len() % 2 == 0,
    ensures
        match chunk_bytes(s@) {
            Ok(b) => r matches Ok(v) && v@ == b,
            Err(f) => r == Err::<Vec<u8>, HexFault>(f),
        },
{
    let mut out: Vec<u8> = Vec::new();
    let mut i: usize = 0;
    proof {
        assert(s@.skip(0) =~= s@);
        match chunk_bytes(s@) {
            Ok(rest) => {
                assert(out@ + rest =~= rest);
            },
            Err(f) => {},
        }
    }
    while i < s.len()
        invariant
            i <= s.len(),
            i % 2 == 0,
            s@.len() % 2 == 0,
            match chunk_bytes(s@.skip(i as int)) {
                Ok(rest) => chunk_bytes(s@) == Ok::<Seq<u8>, HexFault>(out@ + rest),
                Err(f) => chunk_bytes(s@) == Err::<Seq<u8>, HexFault>(f),
            },
        decreases s.len() - i,
    {
        proof {
            let t = s@.skip(i as int);
            assert(t[0] == s@[i as int] && t[1] == s@[i + 1]);
            assert(t.skip(2) =~= s@.skip(i + 2));
        }
        match parse_chunk(s[i], s[i + 1]) {
            Ok(v) => {
                proof {
                    match chunk_bytes(s@.skip(i + 2)) {
                        Ok(rest) => {
                            assert(out@.push(v) + rest =~= out@ + (seq![v] + rest));
                        },
                        Err(f) => {},
                    }
                }
                out.push(v);
            },
            Err(f) => {
                return Err(f);
            },
        }
        i += 2;
    }
    proof {
        assert(out@ + Seq::<u8>::empty() =~= out@);
    }
    Ok(out)
}

fn parse_can_data(hex_str: &str) -> (r: Result<Vec<u8>, HexFault>)
    ensures
        match can_data_of(hex_str.spec_bytes()) {
            Ok(b) => r matches Ok(v) && v@ == b,
            Err(f) => r == Err::<Vec<u8>, HexFault>(f),
        },
{
    let no_spaces = strip_byte(hex_str.as_bytes(), 0x20);
    let no_lower = strip_pair(&no_spaces, 0x30, 0x78);
    let clean = strip_pair(&no_lower, 0x30, 0x58);
    if clean.len() % 2 != 0 {
        return Err(HexFault::OddLength);
    }
    parse_chunks(&clean)
}

/// Reads a payload from a text of hexadecimal pairs. Spaces and the marks
/// `0x` and `0X` are taken out first, wherever they stand; what is left must
/// be pairs of hexadecimal digits.
pub fn parse_can_data_hex(hex_str: &str) -> (r: Result<Vec<u8>, &'static str>)
    ensures
        match can_data_of(hex_str.spec_bytes()) {
            Ok(b) => r matches Ok(v) && v@ == b,
            Err(f) => r matches Err(text) && text@ == fault_text(f),
        },
{
    match parse_can_data(hex_str) {
        Ok(v) => Ok(v),
        Err(f) => Err(fault_message(f)),
    }
}

/// What `extract_vehicle_control` makes of the UTF-8 bytes of a payload text:
/// the command, or what is told of the failure.
pub open spec fn extracted(bytes: Seq<u8>) -> Result<ControlModel, Seq<char>> {
    match can_data_of(bytes) {
        Err(f) => Err("Failed to parse CAN data: "@ + fault_text(f)),
        Ok(data) => if data.len() >= 4 {
            Ok(control_of(data))
        } else {
            Err("Failed to parse control data: "@ + too_short_text())
        },
    }
}

/// Reads the control command from a payload text.
pub fn extract_vehicle_control(can_data: &str) -> (r: Result<VehicleControl, String>)
    ensures
        match extracted(can_data.spec_bytes()) {
            Ok(m) => r matches Ok(control) && control@ == m,
            Err(text) => r matches Err(told) && told@ == text,
        },
{
    let data_bytes = match parse_can_data(can_data) {
        Ok(v) => v,
        Err(f) => {
            let mut told = "Failed to parse CAN data: ".to_owned();
            told.append(fault_message(f));
            return Err(told);
        },
    };
    match parse_vehicle_control_data(data_bytes.as_slice()) {
        Ok(control) => Ok(control),
        Err(text) => {
            let mut told = "Failed to parse control data: ".to_owned();
            told.append(text);
            Err(told)
        },
    }
}

} // verus!
