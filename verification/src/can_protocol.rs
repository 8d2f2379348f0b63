//! The packet codec: adapter configuration, CAN send packets in the fixed and
//! the variable wire format, and the decoders of received packets.

use crate::text::{
    chars_of, contains_whitespace, has_whitespace, hex2, is_hex_digit, is_whitespace, hex_packed, hex_short, hex_spaced,
    lemma_hex2_reads_back, lemma_hex_digits_hold_no_whitespace, lemma_packed_hex_pairs,
    lemma_token_holds, lemma_tokens_of_spaced_hex, parse_hex, parse_hex_digits, push_hex2, push_hex_short,
    push_hex_spaced, read_hex, read_hex_digits, split_whitespace, str_eq, tokens, views,
};
use crate::SerialConfig;
use vstd::prelude::*;
use vstd::slice::slice_subrange;

verus! {

/// The CAN identifier that stands in for an empty identifier text.
pub const DEFAULT_CAN_ID: u32 = 0x18C4_D2D0;

/// The largest identifier of a standard frame (11 bits).
pub const MAX_STANDARD_ID: u32 = 0x7FF;

/// The largest identifier of an extended frame (29 bits).
pub const MAX_EXTENDED_ID: u32 = 0x1FFF_FFFF;

/// The length of every packet of the fixed wire format, and of the
/// configuration packet.
pub const FIXED_PACKET_LEN: usize = 20;

/// Why a frame could not be encoded.
#[derive(Debug, Clone, Copy, PartialEq, Eq, Structural)]
pub enum CodecError {
    /// The data text is no hexadecimal byte sequence.
    MalformedHex,
    /// The data text holds more than eight bytes.
    PayloadTooLong,
    /// The identifier text is no hexadecimal number of 32 bits.
    MalformedId,
    /// The identifier does not fit the frame kind.
    IdOutOfRange { id: u32, extended: bool },
}

impl CodecError {
    /// The message that tells a user of the error.
    pub open spec fn message_text(self) -> Seq<char> {
        match self {
            CodecError::MalformedHex => "Invalid hex data: expected pairs of hex digits"@,
            CodecError::PayloadTooLong => "CAN data length cannot exceed 8 bytes"@,
            CodecError::MalformedId => "Invalid CAN ID format"@,
            CodecError::IdOutOfRange { id, extended } => if extended {
                "Invalid CAN ID for extended frame: 0x"@ + hex_short(id as nat)
                    + ". Extended frame CAN ID must be <= 0x1FFFFFFF (29-bit)"@
            } else {
                "Invalid CAN ID for standard frame: 0x"@ + hex_short(id as nat)
                    + ". Standard frame CAN ID must be <= 0x7FF (11-bit)"@
            },
        }
    }

    /// The message that tells a user of the error.
    pub fn message(&self) -> (text: String)
        ensures
            text@ == self.message_text(),
    {
        match self {
            CodecError::MalformedHex => "Invalid hex data: expected pairs of hex digits".to_owned(),
            CodecError::PayloadTooLong => "CAN data length cannot exceed 8 bytes".to_owned(),
            CodecError::MalformedId => "Invalid CAN ID format".to_owned(),
            CodecError::IdOutOfRange { id, extended } => {
                if *extended {
                    let mut text = "Invalid CAN ID for extended frame: 0x".to_owned();
                    push_hex_short(&mut text, *id);
                    text.append(". Extended frame CAN ID must be <= 0x1FFFFFFF (29-bit)");
                    text
                } else {
                    let mut text = "Invalid CAN ID for standard frame: 0x".to_owned();
                    push_hex_short(&mut text, *id);
                    text.append(". Standard frame CAN ID must be <= 0x7FF (11-bit)");
                    text
                }
            },
        }
    }
}

/// The sum of the bytes of `s`.
pub open spec fn byte_sum(s: Seq<u8>) -> nat
    decreases s.len(),
{
    if s.len() == 0 {
        0
    } else {
        byte_sum(s.drop_last()) + s.last() as nat
    }
}

/// The protocol's checksum of `s`: the sum of its bytes modulo 256.
pub open spec fn checksum(s: Seq<u8>) -> u8 {
    (byte_sum(s) % 256) as u8
}

/// The checksum of `bytes`.
pub fn checksum_of(bytes: &[u8]) -> (c: u8)
    ensures
        c == checksum(bytes@),
{
    let mut acc: u32 = 0;
    let mut i: usize = 0;
    while i < bytes.len()
        invariant
            i <= bytes.len(),
            acc < 256,
            acc == byte_sum(bytes@.take(i as int)) % 256,
        decreases bytes.len() - i,
    {
        proof {
            let next = bytes@.take(i + 1);
            assert(next.drop_last() == bytes@.take(i as int));
            assert(next.last() == bytes@[i as int]);
        }
        acc = (acc + bytes[i] as u32) % 256;
        i += 1;
    }
    proof {
        assert(bytes@.take(bytes.len() as int) == bytes@);
    }
    acc as u8
}

/// `n` zero bytes.
pub open spec fn zeros(n: nat) -> Seq<u8> {
    Seq::new(n, |i: int| 0u8)
}

/// The tag of the wire format in the configuration packet.
pub open spec fn format_tag(protocol_length: Seq<char>) -> u8 {
    if protocol_length == "fixed"@ {
        0x02
    } else {
        0x12
    }
}

/// The adapter's code for a CAN baud rate; a rate that it does not list is
/// configured as 500 kbps.
pub open spec fn baud_code(can_baud_rate: u32) -> u8 {
    if can_baud_rate == 5000 {
        0x0c
    } else if can_baud_rate == 10000 {
        0x0b
    } else if can_baud_rate == 20000 {
        0x0a
    } else if can_baud_rate == 50000 {
        0x09
    } else if can_baud_rate == 100000 {
        0x08
    } else if can_baud_rate == 125000 {
        0x07
    } else if can_baud_rate == 200000 {
        0x06
    } else if can_baud_rate == 250000 {
        0x05
    } else if can_baud_rate == 400000 {
        0x04
    } else if can_baud_rate == 500000 {
        0x03
    } else if can_baud_rate == 800000 {
        0x02
    } else if can_baud_rate == 1000000 {
        0x01
    } else {
        0x03
    }
}

/// Whether a frame type text asks for extended frames: only `extended` does.
pub open spec fn is_extended(frame_type: Seq<char>) -> bool {
    frame_type == "extended"@
}

/// The tag of a frame kind: 1 for standard, 2 for extended.
pub open spec fn frame_tag(extended: bool) -> u8 {
    if extended {
        0x02
    } else {
        0x01
    }
}

/// The adapter's code for a CAN mode; an unknown mode is configured as normal.
pub open spec fn mode_code(can_mode: Seq<char>) -> u8 {
    if can_mode == "silent"@ {
        0x01
    } else if can_mode == "loopback"@ {
        0x02
    } else if can_mode == "loopback_silent"@ {
        0x03
    } else {
        0x00
    }
}

/// A packet of the header, `body`, and the checksum of `body`.
pub open spec fn sealed(body: Seq<u8>) -> Seq<u8> {
    seq![0xAAu8, 0x55u8] + body + seq![checksum(body)]
}

/// The seventeen bytes between header and checksum of the configuration
/// packet: format, baud rate, frame kind, a zero filter and mask, the mode,
/// no automatic resend, and four reserved bytes.
pub open spec fn config_body(
    protocol_length: Seq<char>,
    can_baud_rate: u32,
    frame_type: Seq<char>,
    can_mode: Seq<char>,
) -> Seq<u8> {
    seq![format_tag(protocol_length), baud_code(can_baud_rate), frame_tag(is_extended(frame_type))]
        + zeros(8) + seq![mode_code(can_mode), 0x00u8] + zeros(4)
}

/// The configuration packet for `config`.
pub open spec fn config_packet(config: SerialConfig) -> Seq<u8> {
    sealed(
        config_body(
            config.protocol_length@,
            config.can_baud_rate,
            config.frame_type@,
            config.can_mode@,
        ),
    )
}

fn baud_code_of(can_baud_rate: u32) -> (c: u8)
    ensures
        c == baud_code(can_baud_rate),
{
    if can_baud_rate == 5000 {
        0x0c
    } else if can_baud_rate == 10000 {
        0x0b
    } else if can_baud_rate == 20000 {
        0x0a
    } else if can_baud_rate == 50000 {
        0x09
    } else if can_baud_rate == 100000 {
        0x08
    } else if can_baud_rate == 125000 {
        0x07
    } else if can_baud_rate == 200000 {
        0x06
    } else if can_baud_rate == 250000 {
        0x05
    } else if can_baud_rate == 400000 {
        0x04
    } else if can_baud_rate == 500000 {
        0x03
    } else if can_baud_rate == 800000 {
        0x02
    } else if can_baud_rate == 1000000 {
        0x01
    } else {
        0x03
    }
}

fn mode_code_of(can_mode: &str) -> (c: u8)
    ensures
        c == mode_code(can_mode@),
{
    if str_eq(can_mode, "silent") {
        0x01
    } else if str_eq(can_mode, "loopback") {
        0x02
    } else if str_eq(can_mode, "loopback_silent") {
        0x03
    } else {
        0x00
    }
}

fn push_zeros(out: &mut Vec<u8>, n: usize)
    ensures
        final(out)@ == old(out)@ + zeros(n as nat),
{
    let mut i: usize = 0;
    while i < n
        invariant
            i <= n,
            out@ == old(out)@ + zeros(i as nat),
        decreases n - i,
    {
        out.push(0x00);
        assert(out@ =~= old(out)@ + zeros((i + 1) as nat));
        i += 1;
    }
}

/// Appends to a header and body the checksum of the body.
fn seal(packet: &mut Vec<u8>)
    requires
        old(packet)@.len() >= 2,
        old(packet)@[0] == 0xAA,
        old(packet)@[1] == 0x55,
    ensures
        final(packet)@ == sealed(old(packet)@.skip(2)),
{
    let c = checksum_of(slice_subrange(packet.as_slice(), 2, packet.len()));
    proof {
        assert(packet@.subrange(2, packet@.len() as int) == packet@.skip(2));
    }
    packet.push(c);
    assert(packet@ =~= sealed(old(packet)@.skip(2)));
}

/// Builds the packet that configures the adapter for `config`.
///
/// Every configuration has a packet: an unlisted baud rate is sent as
/// 500 kbps, an unknown mode as normal, any format but `fixed` as variable,
/// and any frame type but `extended` as standard.
pub fn create_can_config_packet(config: &SerialConfig) -> (packet: Vec<u8>)
    ensures
        packet@ == config_packet(*config),
        packet@.len() == 20,
        packet@[19] == checksum(packet@.subrange(2, 19)),
{
    let mut packet: Vec<u8> = Vec::new();
    packet.push(0xAA);
    packet.push(0x55);
    let fixed = str_eq(config.protocol_length.as_str(), "fixed");
    packet.push(if fixed { 0x02 } else { 0x12 });
    packet.push(baud_code_of(config.can_baud_rate));
    let extended = str_eq(config.frame_type.as_str(), "extended");
    packet.push(if extended { 0x02 } else { 0x01 });
    push_zeros(&mut packet, 8);
    packet.push(mode_code_of(config.can_mode.as_str()));
    packet.push(0x00);
    push_zeros(&mut packet, 4);
    let ghost body = config_body(
        config.protocol_length@,
        config.can_baud_rate,
        config.frame_type@,
        config.can_mode@,
    );
    assert(packet@.skip(2) =~= body);
    seal(&mut packet);
    assert(packet@.subrange(2, 19) =~= body);
    packet
}

/// The byte that a token or a pair of a data text writes: hexadecimal digits
/// and nothing else, with a value of at most 255. A sign is no hexadecimal
/// digit.
pub open spec fn hex_byte(t: Seq<char>) -> Option<u8> {
    match read_hex_digits(t, 255) {
        Some(v) => Some(v as u8),
        None => None,
    }
}

/// The bytes of whitespace-separated tokens: every token must write a byte.
pub open spec fn token_bytes(toks: Seq<Seq<char>>) -> Option<Seq<u8>> {
    if forall|i: int| 0 <= i < toks.len() ==> (#[trigger] hex_byte(toks[i])) is Some {
        Some(Seq::new(toks.len(), |i: int| hex_byte(toks[i]).unwrap()))
    } else {
        None
    }
}

/// The `k`-th pair of characters of `s`.
pub open spec fn pair_at(s: Seq<char>, k: int) -> Seq<char> {
    s.subrange(2 * k, 2 * k + 2)
}

/// The bytes of a contiguous text: its length must be even, and every pair of
/// characters must write a byte.
pub open spec fn pair_bytes(s: Seq<char>) -> Option<Seq<u8>> {
    if s.len() % 2 == 0 && forall|k: int|
        0 <= k < s.len() / 2 ==> (#[trigger] hex_byte(pair_at(s, k))) is Some {
        Some(Seq::new(s.len() / 2, |k: int| hex_byte(pair_at(s, k)).unwrap()))
    } else {
        None
    }
}

/// The payload that a data text writes: whitespace-separated hexadecimal
/// bytes where the text holds whitespace of any kind, pairs of hexadecimal
/// digits where it holds none.
pub open spec fn data_bytes(data: Seq<char>) -> Option<Seq<u8>> {
    if has_whitespace(data) {
        token_bytes(tokens(data))
    } else {
        pair_bytes(data)
    }
}

/// `id` without one leading `0x` or `0X`.
pub open spec fn without_hex_prefix(id: Seq<char>) -> Seq<char> {
    if id.len() >= 2 && id[0] == '0' && (id[1] == 'x' || id[1] == 'X') {
        id.skip(2)
    } else {
        id
    }
}

/// The identifier that an identifier text writes. With nothing behind the
/// optional prefix it is `DEFAULT_CAN_ID`; otherwise what stands there is
/// read as a base-sixteen number of 32 bits, before which a plus sign may
/// stand.
pub open spec fn id_of_text(id: Seq<char>) -> Option<u32> {
    let digits = without_hex_prefix(id);
    if digits.len() == 0 {
        Some(DEFAULT_CAN_ID)
    } else {
        match read_hex(digits, 0xFFFF_FFFF) {
            Some(v) => Some(v as u32),
            None => None,
        }
    }
}

/// The largest identifier of a frame kind.
pub open spec fn max_id(extended: bool) -> u32 {
    if extended {
        MAX_EXTENDED_ID
    } else {
        MAX_STANDARD_ID
    }
}

/// What a CAN frame is: an identifier, a kind, and a payload.
pub struct FrameModel {
    pub id: u32,
    pub extended: bool,
    pub payload: Seq<u8>,
}

impl FrameModel {
    /// The identifier fits the kind, and the payload has at most eight bytes.
    pub open spec fn valid(self) -> bool {
        self.id <= max_id(self.extended) && self.payload.len() <= 8
    }
}

/// The frame for an identifier, a kind and a payload, or the reason why there
/// is none. A payload that is too long is reported before an identifier that
/// is out of range.
pub open spec fn checked_frame(id: u32, extended: bool, payload: Seq<u8>) -> Result<
    FrameModel,
    CodecError,
> {
    if payload.len() > 8 {
        Err(CodecError::PayloadTooLong)
    } else if id > max_id(extended) {
        Err(CodecError::IdOutOfRange { id, extended })
    } else {
        Ok(FrameModel { id, extended, payload })
    }
}

/// The frame that the three texts of a send request describe, or the reason
/// why they describe none. The data text is judged first, then the length of
/// the payload, then the identifier text, then the identifier's range.
pub open spec fn frame_of_text(id: Seq<char>, data: Seq<char>, frame_type: Seq<char>) -> Result<
    FrameModel,
    CodecError,
> {
    match data_bytes(data) {
        None => Err(CodecError::MalformedHex),
        Some(payload) => if payload.len() > 8 {
            Err(CodecError::PayloadTooLong)
        } else {
            match id_of_text(id) {
                None => Err(CodecError::MalformedId),
                Some(v) => checked_frame(v, is_extended(frame_type), payload),
            }
        },
    }
}

/// The two low bytes of `v`, least significant first.
pub open spec fn le2(v: u32) -> Seq<u8> {
    seq![(v % 256) as u8, (v / 0x100 % 256) as u8]
}

/// The four bytes of `v`, least significant first.
pub open spec fn le4(v: u32) -> Seq<u8> {
    seq![
        (v % 256) as u8,
        (v / 0x100 % 256) as u8,
        (v / 0x1_0000 % 256) as u8,
        (v / 0x100_0000) as u8,
    ]
}

/// `payload` with zero bytes behind it up to eight bytes.
pub open spec fn padded(payload: Seq<u8>) -> Seq<u8> {
    payload + zeros((8 - payload.len()) as nat)
}

/// The seventeen bytes between header and checksum of a fixed-format send
/// packet: type, frame kind, frame mode, the identifier in four bytes, the
/// length 8, the padded payload, and a reserved byte.
pub open spec fn fixed_body(f: FrameModel) -> Seq<u8> {
    seq![0x01u8, frame_tag(f.extended), 0x01u8] + le4(f.id) + seq![0x08u8] + padded(f.payload)
        + seq![0x00u8]
}

/// The fixed-format send packet of a frame.
pub open spec fn fixed_packet(f: FrameModel) -> Seq<u8> {
    sealed(fixed_body(f))
}

/// The control byte of a variable-format packet: the kind in the high bits,
/// the payload's length in the low four.
pub open spec fn control_byte(f: FrameModel) -> u8 {
    (if f.extended {
        0xE0u8
    } else {
        0xC0u8
    }) | (f.payload.len() as u8)
}

/// The bytes of the identifier in a variable-format packet: four for an
/// extended frame, the low two for a standard frame.
pub open spec fn variable_id(f: FrameModel) -> Seq<u8> {
    if f.extended {
        le4(f.id)
    } else {
        le2(f.id)
    }
}

/// The variable-format send packet of a frame.
pub open spec fn variable_packet(f: FrameModel) -> Seq<u8> {
    seq![0xAAu8, control_byte(f)] + variable_id(f) + f.payload + seq![0x55u8]
}

/// A CAN frame: an identifier that fits its kind, and at most eight bytes.
#[derive(Debug)]
pub struct CanFrame {
    id: u32,
    extended: bool,
    payload: Vec<u8>,
}

impl View for CanFrame {
    type V = FrameModel;

    closed spec fn view(&self) -> FrameModel {
        FrameModel { id: self.id, extended: self.extended, payload: self.payload@ }
    }
}

impl Clone for CanFrame {
    fn clone(&self) -> (r: Self)
        ensures
            r@ == self@,
    {
        proof {
            use_type_invariant(self);
        }
        let mut payload: Vec<u8> = Vec::new();
        push_all(&mut payload, &self.payload);
        CanFrame { id: self.id, extended: self.extended, payload }
    }
}

fn push_le2(out: &mut Vec<u8>, v: u32)
    ensures
        final(out)@ == old(out)@ + le2(v),
{
    out.push((v % 256) as u8);
    out.push((v / 0x100 % 256) as u8);
    assert(out@ =~= old(out)@ + le2(v));
}

fn push_le4(out: &mut Vec<u8>, v: u32)
    ensures
        final(out)@ == old(out)@ + le4(v),
{
    out.push((v % 256) as u8);
    out.push((v / 0x100 % 256) as u8);
    out.push((v / 0x1_0000 % 256) as u8);
    out.push((v / 0x100_0000) as u8);
    assert(out@ =~= old(out)@ + le4(v));
}

fn push_all(out: &mut Vec<u8>, bytes: &Vec<u8>)
    ensures
        final(out)@ == old(out)@ + bytes@,
{
    let mut i: usize = 0;
    while i < bytes.len()
        invariant
            i <= bytes.len(),
            out@ == old(out)@ + bytes@.take(i as int),
        decreases bytes.len() - i,
    {
        out.push(bytes[i]);
        assert(out@ =~= old(out)@ + bytes@.take(i + 1));
        i += 1;
    }
    assert(bytes@.take(bytes.len() as int) == bytes@);
}

impl CanFrame {
    #[verifier::type_invariant]
    spec fn well_formed(self) -> bool {
        self@.valid()
    }

    /// A frame of the given parts, if they make one.
    pub fn new(id: u32, extended: bool, payload: Vec<u8>) -> (r: Result<CanFrame, CodecError>)
        ensures
            match checked_frame(id, extended, payload@) {
                Ok(f) => r matches Ok(frame) && frame@ == f,
                Err(e) => r == Err::<CanFrame, CodecError>(e),
            },
    {
        if payload.len() > 8 {
            return Err(CodecError::PayloadTooLong);
        }
        let limit: u32 = if extended {
            MAX_EXTENDED_ID
        } else {
            MAX_STANDARD_ID
        };
        if id > limit {
            return Err(CodecError::IdOutOfRange { id, extended });
        }
        Ok(CanFrame { id, extended, payload })
    }

    /// The frame that the three texts of a send request describe.
    pub fn parse(id: &str, data: &str, frame_type: &str) -> (r: Result<CanFrame, CodecError>)
        ensures
            match frame_of_text(id@, data@, frame_type@) {
                Ok(f) => r matches Ok(frame) && frame@ == f,
                Err(e) => r == Err::<CanFrame, CodecError>(e),
            },
    {
        let payload = match parse_data_text(data) {
            Some(p) => p,
            None => {
                return Err(CodecError::MalformedHex);
            },
        };
        if payload.len() > 8 {
            return Err(CodecError::PayloadTooLong);
        }
        let v = match parse_id_text(id) {
            Some(v) => v,
            None => {
                return Err(CodecError::MalformedId);
            },
        };
        let extended = str_eq(frame_type, "extended");
        CanFrame::new(v, extended, payload)
    }

    pub fn id(&self) -> (v: u32)
        ensures
            v == self@.id,
    {
        self.id
    }

    pub fn is_extended(&self) -> (b: bool)
        ensures
            b == self@.extended,
    {
        self.extended
    }

    pub fn payload(&self) -> (p: &Vec<u8>)
        ensures
            p@ == self@.payload,
    {
        &self.payload
    }

    /// The frame as a packet of the fixed wire format: always twenty bytes,
    /// the last of them the checksum of the seventeen before it.
    pub fn encode_fixed(&self) -> (packet: Vec<u8>)
        ensures
            self@.valid(),
            packet@ == fixed_packet(self@),
            packet@.len() == 20,
            packet@[19] == checksum(packet@.subrange(2, 19)),
    {
        proof {
            use_type_invariant(self);
        }
        let mut packet: Vec<u8> = Vec::new();
        packet.push(0xAA);
        packet.push(0x55);
        packet.push(0x01);
        packet.push(if self.extended { 0x02 } else { 0x01 });
        packet.push(0x01);
        push_le4(&mut packet, self.id);
        packet.push(0x08);
        push_all(&mut packet, &self.payload);
        push_zeros(&mut packet, 8 - self.payload.len());
        packet.push(0x00);
        assert(packet@.skip(2) =~= fixed_body(self@));
        seal(&mut packet);
        assert(packet@.subrange(2, 19) =~= fixed_body(self@));
        packet
    }

    /// The frame as a packet of the variable wire format: start flag, control
    /// byte, identifier, payload as it is, end flag.
    pub fn encode_variable(&self) -> (packet: Vec<u8>)
        ensures
            self@.valid(),
            packet@ == variable_packet(self@),
            packet@.len() == 3 + (if self@.extended { 4int } else { 2int }) + self@.payload.len(),
            packet@[1] & 0x0F == self@.payload.len(),
    {
        proof {
            use_type_invariant(self);
        }
        let n: u8 = self.payload.len() as u8;
        let control: u8 = if self.extended {
            0xE0u8 | n
        } else {
            0xC0u8 | n
        };
        assert((0xE0u8 | n) & 0x0F == n && (0xC0u8 | n) & 0x0F == n) by (bit_vector)
            requires
                n <= 8,
        ;
        let mut packet: Vec<u8> = Vec::new();
        packet.push(0xAA);
        packet.push(control);
        if self.extended {
            push_le4(&mut packet, self.id);
        } else {
            push_le2(&mut packet, self.id);
        }
        push_all(&mut packet, &self.payload);
        packet.push(0x55);
        assert(packet@ =~= variable_packet(self@));
        packet
    }
}

fn parse_hex_byte(t: &Vec<char>) -> (r: Option<u8>)
    ensures
        r == hex_byte(t@),
{
    match parse_hex_digits(t, 255) {
        Some(v) => Some(v as u8),
        None => None,
    }
}

fn parse_tokens(toks: &Vec<Vec<char>>) -> (r: Option<Vec<u8>>)
    ensures
        match token_bytes(views(toks@)) {
            Some(b) => r matches Some(v) && v@ == b,
            None => r is None,
        },
{
    let ghost ts = views(toks@);
    let mut out: Vec<u8> = Vec::new();
    let mut i: usize = 0;
    while i < toks.len()
        invariant
            i <= toks.len(),
            ts == views(toks@),
            out@.len() == i,
            forall|j: int| 0 <= j < i ==> hex_byte(ts[j]) == Some(#[trigger] out@[j]),
        decreases toks.len() - i,
    {
        assert(ts[i as int] == toks@[i as int]@);
        match parse_hex_byte(&toks[i]) {
            Some(b) => {
                out.push(b);
            },
            None => {
                return None;
            },
        }
        i += 1;
    }
    proof {
        assert forall|j: int| 0 <= j < ts.len() implies (#[trigger] hex_byte(ts[j])) is Some by {
            assert(hex_byte(ts[j]) == Some(out@[j]));
        }
        assert(out@ =~= token_bytes(ts).unwrap());
    }
    Some(out)
}

fn parse_pairs(s: &Vec<char>) -> (r: Option<Vec<u8>>)
    ensures
        match pair_bytes(s@) {
            Some(b) => r matches Some(v) && v@ == b,
            None => r is None,
        },
{
    if s.len() % 2 != 0 {
        return None;
    }
    let count: usize = s.len() / 2;
    let mut out: Vec<u8> = Vec::new();
    let mut k: usize = 0;
    while k < count
        invariant
            k <= count,
            count == s.len() / 2,
            s.len() % 2 == 0,
            out@.len() == k,
            forall|j: int| 0 <= j < k ==> hex_byte(pair_at(s@, j)) == Some(#[trigger] out@[j]),
        decreases count - k,
    {
        let mut pair: Vec<char> = Vec::new();
        pair.push(s[2 * k]);
        pair.push(s[2 * k + 1]);
        assert(pair@ =~= pair_at(s@, k as int));
        match parse_hex_byte(&pair) {
            Some(b) => {
                out.push(b);
            },
            None => {
                return None;
            },
        }
        k += 1;
    }
    proof {
        assert forall|j: int| 0 <= j < s@.len() / 2 implies (#[trigger] hex_byte(
            pair_at(s@, j),
        )) is Some by {
            assert(hex_byte(pair_at(s@, j)) == Some(out@[j]));
        }
        assert(out@ =~= pair_bytes(s@).unwrap());
    }
    Some(out)
}

/// The payload that a data text writes.
pub fn parse_data_text(data: &str) -> (r: Option<Vec<u8>>)
    ensures
        match data_bytes(data@) {
            Some(b) => r matches Some(v) && v@ == b,
            None => r is None,
        },
{
    let chars = chars_of(data);
    if contains_whitespace(&chars) {
        let toks = split_whitespace(&chars);
        parse_tokens(&toks)
    } else {
        parse_pairs(&chars)
    }
}

/// The identifier that an identifier text writes.
pub fn parse_id_text(id: &str) -> (r: Option<u32>)
    ensures
        r == id_of_text(id@),
{
    let chars = chars_of(id);
    let prefixed = chars.len() >= 2 && chars[0] == '0' && (chars[1] == 'x' || chars[1] == 'X');
    let start: usize = if prefixed {
        2
    } else {
        0
    };
    let mut digits: Vec<char> = Vec::new();
    let mut i: usize = start;
    while i < chars.len()
        invariant
            start <= i <= chars.len(),
            digits@ == chars@.subrange(start as int, i as int),
        decreases chars.len() - i,
    {
        digits.push(chars[i]);
        assert(digits@ =~= chars@.subrange(start as int, i + 1));
        i += 1;
    }
    assert(digits@ =~= without_hex_prefix(id@));
    if digits.len() == 0 {
        Some(DEFAULT_CAN_ID)
    } else {
        parse_hex(&digits, 0xFFFF_FFFF)
    }
}

/// Builds the fixed-format packet that sends the frame described by the three
/// texts: twenty bytes, with the payload padded with zero bytes to eight.
pub fn create_can_send_packet_fixed(id: &str, data: &str, frame_type: &str) -> (r: Result<
    Vec<u8>,
    CodecError,
>)
    ensures
        match frame_of_text(id@, data@, frame_type@) {
            Ok(f) => r matches Ok(packet) && packet@ == fixed_packet(f) && packet@.len() == 20
                && packet@[19] == checksum(packet@.subrange(2, 19)),
            Err(e) => r == Err::<Vec<u8>, CodecError>(e),
        },
{
    match CanFrame::parse(id, data, frame_type) {
        Ok(frame) => Ok(frame.encode_fixed()),
        Err(e) => Err(e),
    }
}

/// Builds the variable-format packet that sends the frame described by the
/// three texts; the payload is sent as it is.
pub fn create_can_send_packet_variable(id: &str, data: &str, frame_type: &str) -> (r: Result<
    Vec<u8>,
    CodecError,
>)
    ensures
        match frame_of_text(id@, data@, frame_type@) {
            Ok(f) => r matches Ok(packet) && packet@ == variable_packet(f) && packet@.len() == 3
                + (if f.extended { 4int } else { 2int }) + f.payload.len() && packet@[1] & 0x0F
                == f.payload.len(),
            Err(e) => r == Err::<Vec<u8>, CodecError>(e),
        },
{
    match CanFrame::parse(id, data, frame_type) {
        Ok(frame) => Ok(frame.encode_variable()),
        Err(e) => Err(e),
    }
}

/// The number that four bytes write, least significant first.
pub open spec fn le_u32(b: Seq<u8>) -> u32 {
    (b[0] + 0x100 * b[1] + 0x1_0000 * b[2] + 0x100_0000 * b[3]) as u32
}

/// A number as eight upper-case hexadecimal digits.
pub open spec fn hex8(v: u32) -> Seq<char> {
    hex2((v / 0x100_0000) as u8) + hex2((v / 0x1_0000 % 256) as u8) + hex2((v / 0x100 % 256) as u8)
        + hex2((v % 256) as u8)
}

/// An identifier as it is shown: `0x` and eight upper-case digits.
pub open spec fn id_text(id: u32) -> Seq<char> {
    seq!['0', 'x'] + hex8(id)
}

/// The name of the frame kind that a tag stands for.
pub open spec fn kind_name(tag: u8) -> Seq<char> {
    if tag == 0x01 {
        "standard"@
    } else if tag == 0x02 {
        "extended"@
    } else {
        "unknown"@
    }
}

/// What a received fixed-format packet says.
pub struct ReceivedModel {
    /// The identifier, as `0x` and eight digits.
    pub id: Seq<char>,
    /// The payload, as two-digit pairs separated by spaces.
    pub data: Seq<char>,
    /// `standard`, `extended` or `unknown`.
    pub frame_type: Seq<char>,
}

/// What the first twenty bytes of `data` say, read as a fixed-format packet.
/// There must be twenty bytes, the header at their start, and a length byte of
/// at most eight. The checksum is not consulted.
pub open spec fn received(data: Seq<u8>) -> Option<ReceivedModel> {
    if data.len() < 20 || data[0] != 0xAA || data[1] != 0x55 || data[9] > 8 {
        None
    } else {
        Some(
            ReceivedModel {
                id: id_text(le_u32(data.subrange(5, 9))),
                data: hex_spaced(data.subrange(10, 10 + data[9])),
                frame_type: kind_name(data[3]),
            },
        )
    }
}

/// Whether `message` has twenty bytes of which the last is the checksum of the
/// seventeen before it.
pub open spec fn checksum_ok(message: Seq<u8>) -> bool {
    message.len() >= 20 && message[19] == checksum(message.subrange(2, 19))
}

/// Whether the checksum of a fixed-format packet holds.
pub fn verify_checksum(message: &[u8]) -> (ok: bool)
    ensures
        ok == checksum_ok(message@),
{
    if message.len() < 20 {
        return false;
    }
    message[19] == checksum_of(slice_subrange(message, 2, 19))
}

fn kind_name_of(tag: u8) -> (name: String)
    ensures
        name@ == kind_name(tag),
{
    if tag == 0x01 {
        "standard".to_owned()
    } else if tag == 0x02 {
        "extended".to_owned()
    } else {
        "unknown".to_owned()
    }
}

fn id_text_of(id: u32) -> (text: String)
    ensures
        text@ == id_text(id),
{
    let mut text = "0x".to_owned();
    proof {
        reveal_strlit("0x");
        assert(text@ =~= seq!['0', 'x']);
    }
    push_hex2(&mut text, (id / 0x100_0000) as u8);
    push_hex2(&mut text, (id / 0x1_0000 % 256) as u8);
    push_hex2(&mut text, (id / 0x100 % 256) as u8);
    push_hex2(&mut text, (id % 256) as u8);
    assert(text@ =~= id_text(id));
    text
}

/// Reads a received fixed-format packet: the identifier as `0x` and eight
/// digits, the payload as spaced hexadecimal pairs, and the name of the frame
/// kind.
///
/// A packet whose checksum does not hold is read all the same; use
/// `verify_checksum` to tell.
pub fn parse_received_can_message(data: &[u8]) -> (r: Option<(String, String, String)>)
    ensures
        match received(data@) {
            Some(m) => r matches Some((id, payload, frame_type)) && id@ == m.id && payload@
                == m.data && frame_type@ == m.frame_type,
            None => r is None,
        },
{
    if data.len() < 20 {
        return None;
    }
    if data[0] != 0xAA || data[1] != 0x55 {
        return None;
    }
    let frame_type = kind_name_of(data[3]);
    let can_id: u32 = (data[5] as u32) + 0x100 * (data[6] as u32) + 0x1_0000 * (data[7] as u32)
        + 0x100_0000 * (data[8] as u32);
    let data_len: usize = data[9] as usize;
    if data_len > 8 {
        return None;
    }
    let mut payload = String::new();
    push_hex_spaced(&mut payload, slice_subrange(data, 10, 10 + data_len));
    assert(payload@ =~= hex_spaced(data@.subrange(10, 10 + data[9])));
    let id = id_text_of(can_id);
    Some((id, payload, frame_type))
}

/// The distance that a radar payload reports: its last two tokens, written one
/// behind the other, read as one base-sixteen number of sixteen bits, before
/// which a plus sign may stand. Zero where there are fewer than two tokens or
/// they write no such number.
pub open spec fn distance_of(data: Seq<char>) -> u16 {
    let t = tokens(data);
    if t.len() >= 2 {
        match read_hex(t[t.len() - 2] + t[t.len() - 1], 0xFFFF) {
            Some(v) => v as u16,
            None => 0,
        }
    } else {
        0
    }
}

/// The distance that a radar payload reports, or zero.
pub fn parse_distance_from_data(data: &str) -> (distance: u16)
    ensures
        distance == distance_of(data@),
{
    let chars = chars_of(data);
    let toks = split_whitespace(&chars);
    let n = toks.len();
    if n < 2 {
        return 0;
    }
    let ghost t = tokens(data@);
    assert(t[n - 2] == toks@[n - 2]@ && t[n - 1] == toks@[n - 1]@);
    let mut joined: Vec<char> = Vec::new();
    let first = &toks[n - 2];
    let mut i: usize = 0;
    while i < first.len()
        invariant
            i <= first.len(),
            joined@ == first@.take(i as int),
        decreases first.len() - i,
    {
        joined.push(first[i]);
        assert(joined@ =~= first@.take(i + 1));
        i += 1;
    }
    assert(first@.take(first.len() as int) == first@);
    let second = &toks[n - 1];
    let mut j: usize = 0;
    while j < second.len()
        invariant
            j <= second.len(),
            joined@ == first@ + second@.take(j as int),
        decreases second.len() - j,
    {
        joined.push(second[j]);
        assert(joined@ =~= first@ + second@.take(j + 1));
        j += 1;
    }
    assert(second@.take(second.len() as int) == second@);
    match parse_hex(&joined, 0xFFFF) {
        Some(v) => v as u16,
        None => 0,
    }
}

/// The byte that a token of a received payload text writes: a hexadecimal
/// number of at most 255, with or without a plus sign before it.
pub open spec fn byte_of(t: Seq<char>) -> Option<u8> {
    match read_hex(t, 255) {
        Some(v) => Some(v as u8),
        None => None,
    }
}

/// The byte that a token of a received payload text writes, if it writes one.
pub fn parse_byte(t: &Vec<char>) -> (r: Option<u8>)
    ensures
        r == byte_of(t@),
{
    match parse_hex(t, 255) {
        Some(v) => Some(v as u8),
        None => None,
    }
}

/// The status that a vehicle reports in the first four bytes of a payload.
#[derive(Debug, Clone, Copy, PartialEq, Eq, Structural)]
pub struct VehicleStatus {
    /// The gear code: the low four bits of byte 0.
    pub gear: u8,
    /// The speed magnitude of twelve bits: byte 1 above the high four bits of
    /// byte 0.
    pub speed_raw: u16,
    /// The steering angle in hundredths of a degree: bytes 2 and 3 as a signed
    /// number, least significant byte first.
    pub steering_raw: i16,
}

/// Two bytes, least significant first, as a signed number of sixteen bits.
pub open spec fn le_i16(low: u8, high: u8) -> i16 {
    let u = low + 0x100 * high;
    if u >= 0x8000 {
        (u - 0x1_0000) as i16
    } else {
        u as i16
    }
}

/// The status in four payload bytes.
pub open spec fn status_of_bytes(b0: u8, b1: u8, b2: u8, b3: u8) -> VehicleStatus {
    VehicleStatus {
        gear: b0 % 16,
        speed_raw: (b1 * 16 + b0 / 16) as u16,
        steering_raw: le_i16(b2, b3),
    }
}

/// The status that a payload text reports: its first four tokens must each
/// write a byte.
pub open spec fn status_of(data: Seq<char>) -> Option<VehicleStatus> {
    let t = tokens(data);
    if t.len() < 4 {
        None
    } else {
        match (byte_of(t[0]), byte_of(t[1]), byte_of(t[2]), byte_of(t[3])) {
            (Some(b0), Some(b1), Some(b2), Some(b3)) => Some(status_of_bytes(b0, b1, b2, b3)),
            _ => None,
        }
    }
}

/// The name of a gear code.
pub open spec fn gear_name(gear: u8) -> Seq<char> {
    if gear == 0 {
        "disable"@
    } else if gear == 1 {
        "P"@
    } else if gear == 2 {
        "R"@
    } else if gear == 3 {
        "N"@
    } else if gear == 4 {
        "D"@
    } else {
        "Unknown"@
    }
}

/// Two bytes, least significant first, as a signed number of sixteen bits.
pub fn i16_from_le(low: u8, high: u8) -> (v: i16)
    ensures
        v == le_i16(low, high),
{
    let u: u16 = low as u16 + 0x100 * (high as u16);
    if u >= 0x8000 {
        (u as i32 - 0x1_0000) as i16
    } else {
        u as i16
    }
}

/// Reads the vehicle status from a payload text.
pub fn parse_vehicle_status(data: &str) -> (r: Option<VehicleStatus>)
    ensures
        r == status_of(data@),
{
    let chars = chars_of(data);
    let toks = split_whitespace(&chars);
    if toks.len() < 4 {
        return None;
    }
    let ghost t = tokens(data@);
    assert(t[0] == toks@[0]@ && t[1] == toks@[1]@ && t[2] == toks@[2]@ && t[3] == toks@[3]@);
    let b0 = match parse_byte(&toks[0]) {
        Some(b) => b,
        None => {
            return None;
        },
    };
    let b1 = match parse_byte(&toks[1]) {
        Some(b) => b,
        None => {
            return None;
        },
    };
    let b2 = match parse_byte(&toks[2]) {
        Some(b) => b,
        None => {
            return None;
        },
    };
    let b3 = match parse_byte(&toks[3]) {
        Some(b) => b,
        None => {
            return None;
        },
    };
    Some(
        VehicleStatus {
            gear: b0 % 16,
            speed_raw: (b1 as u16) * 16 + (b0 / 16) as u16,
            steering_raw: i16_from_le(b2, b3),
        },
    )
}

/// The name of a gear code.
pub fn gear_name_of(gear: u8) -> (name: String)
    ensures
        name@ == gear_name(gear),
{
    if gear == 0 {
        "disable".to_owned()
    } else if gear == 1 {
        "P".to_owned()
    } else if gear == 2 {
        "R".to_owned()
    } else if gear == 3 {
        "N".to_owned()
    } else if gear == 4 {
        "D".to_owned()
    } else {
        "Unknown".to_owned()
    }
}

/// Reads gear and steering from a payload text: the name of the gear, and the
/// steering angle in hundredths of a degree.
pub fn parse_vehicle_status_8byte(data: &str) -> (r: Option<(String, i16)>)
    ensures
        match status_of(data@) {
            Some(s) => r matches Some((gear, steering)) && gear@ == gear_name(s.gear) && steering
                == s.steering_raw,
            None => r is None,
        },
{
    match parse_vehicle_status(data) {
        Some(s) => Some((gear_name_of(s.gear), s.steering_raw)),
        None => None,
    }
}

/// Whether a protocol length text asks for the variable format: only
/// `variable` does.
pub open spec fn is_variable(protocol_length: Seq<char>) -> bool {
    protocol_length == "variable"@
}

/// The packet of a frame in a wire format.
pub open spec fn packet_of(variable: bool, f: FrameModel) -> Seq<u8> {
    if variable {
        variable_packet(f)
    } else {
        fixed_packet(f)
    }
}

impl CanFrame {
    /// The frame as a packet of the variable wire format if `variable` is
    /// set, of the fixed wire format if not.
    pub fn encode(&self, variable: bool) -> (packet: Vec<u8>)
        ensures
            packet@ == packet_of(variable, self@),
    {
        if variable {
            self.encode_variable()
        } else {
            self.encode_fixed()
        }
    }
}

/// Builds the packet that sends the frame described by the three texts, in
/// the variable format where `protocol_length` is `variable`, in the fixed
/// format otherwise.
pub fn create_can_send_packet(id: &str, data: &str, frame_type: &str, protocol_length: &str) -> (r:
    Result<Vec<u8>, CodecError>)
    ensures
        match frame_of_text(id@, data@, frame_type@) {
            Ok(f) => r matches Ok(packet) && packet@ == packet_of(
                is_variable(protocol_length@),
                f,
            ),
            Err(e) => r == Err::<Vec<u8>, CodecError>(e),
        },
{
    if str_eq(protocol_length, "variable") {
        create_can_send_packet_variable(id, data, frame_type)
    } else {
        create_can_send_packet_fixed(id, data, frame_type)
    }
}

/// The last byte of a sealed packet is the sum, modulo 256, of the bytes
/// between its header and that last byte.
pub proof fn lemma_sealed_checksum(body: Seq<u8>)
    ensures
        sealed(body).len() == body.len() + 3,
        sealed(body).last() == checksum(sealed(body).subrange(2, sealed(body).len() - 1)),
{
    assert(sealed(body).subrange(2, sealed(body).len() - 1) =~= body);
}

/// Four bytes, least significant first, write the number they were taken
/// from.
pub proof fn lemma_le4_reads_back(v: u32)
    ensures
        le_u32(le4(v)) == v,
{
}

/// A fixed-format packet reads back as the frame it was built from: the same
/// identifier, as `0x` and eight upper-case digits, the same payload padded
/// with zero bytes to eight, and the same frame kind; and its checksum holds.
pub proof fn lemma_fixed_packet_reads_back(f: FrameModel)
    requires
        f.valid(),
    ensures
        fixed_packet(f).len() == 20,
        checksum_ok(fixed_packet(f)),
        received(fixed_packet(f)) == Some(
            ReceivedModel {
                id: id_text(f.id),
                data: hex_spaced(padded(f.payload)),
                frame_type: kind_name(frame_tag(f.extended)),
            },
        ),
{
    let p = fixed_packet(f);
    assert(p.len() == 20);
    assert(p.subrange(2, 19) =~= fixed_body(f));
    assert(p.subrange(5, 9) =~= le4(f.id));
    lemma_le4_reads_back(f.id);
    assert(p[9] == 8);
    assert(p.subrange(10, 10 + p[9]) =~= padded(f.payload));
}

/// What a send request builds in the fixed format reads back as the frame
/// that the request describes.
pub proof fn lemma_send_then_receive(id: Seq<char>, data: Seq<char>, frame_type: Seq<char>)
    requires
        frame_of_text(id, data, frame_type) is Ok,
    ensures
        ({
            let f = frame_of_text(id, data, frame_type).unwrap();
            &&& f.valid()
            &&& received(fixed_packet(f)) == Some(
                ReceivedModel {
                    id: id_text(f.id),
                    data: hex_spaced(padded(f.payload)),
                    frame_type: kind_name(frame_tag(f.extended)),
                },
            )
        }),
{
    lemma_fixed_packet_reads_back(frame_of_text(id, data, frame_type).unwrap());
}

/// An identifier above the standard range and within the extended range is
/// sent with the frame type `extended` and with no other: with any other
/// frame type the request fails, and the failure is that the identifier is out
/// of range.
pub proof fn lemma_extended_id_needs_extended_frame(
    id: Seq<char>,
    data: Seq<char>,
    frame_type: Seq<char>,
)
    requires
        id_of_text(id) matches Some(v) && MAX_STANDARD_ID < v <= MAX_EXTENDED_ID,
        data_bytes(data) matches Some(payload) && payload.len() <= 8,
    ensures
        is_extended(frame_type) ==> frame_of_text(id, data, frame_type) is Ok,
        !is_extended(frame_type) ==> frame_of_text(id, data, frame_type) == Err::<
            FrameModel,
            CodecError,
        >(CodecError::IdOutOfRange { id: id_of_text(id).unwrap(), extended: false }),
{
}

/// A data text that holds a character which is neither a hexadecimal digit
/// nor whitespace, such as a sign, writes no payload: a request with it fails,
/// and the failure is that the data is malformed.
pub proof fn lemma_foreign_character_is_malformed(
    id: Seq<char>,
    data: Seq<char>,
    frame_type: Seq<char>,
    i: int,
)
    requires
        0 <= i < data.len(),
        !is_hex_digit(data[i]),
        !is_whitespace(data[i]),
    ensures
        data_bytes(data) is None,
        frame_of_text(id, data, frame_type) == Err::<FrameModel, CodecError>(
            CodecError::MalformedHex,
        ),
{
    if has_whitespace(data) {
        let at = lemma_token_holds(data, i);
        let token = tokens(data)[at.0];
        assert(!is_hex_digit(token[at.1]));
        assert(hex_byte(token) is None);
    } else if data.len() % 2 == 0 {
        let k = i / 2;
        let pair = pair_at(data, k);
        assert(pair[i - 2 * k] == data[i]);
        assert(!is_hex_digit(pair[i - 2 * k]));
        assert(hex_byte(pair) is None);
    }
}

/// Spaced hexadecimal pairs, taken as a data text, write the bytes they were
/// written from.
pub proof fn lemma_spaced_hex_reads_back(bytes: Seq<u8>)
    ensures
        data_bytes(hex_spaced(bytes)) == Some(bytes),
{
    let text = hex_spaced(bytes);
    lemma_tokens_of_spaced_hex(bytes);
    if bytes.len() >= 2 {
        let toks = tokens(text);
        assert forall|i: int| 0 <= i < toks.len() implies (#[trigger] hex_byte(toks[i])) == Some(
            bytes[i],
        ) by {
            lemma_hex2_reads_back(bytes[i]);
        }
        assert(token_bytes(toks).unwrap() =~= bytes);
    } else if bytes.len() == 1 {
        lemma_hex2_reads_back(bytes[0]);
        lemma_hex_digits_hold_no_whitespace(text);
        assert(pair_at(text, 0) =~= text);
        assert forall|k: int| 0 <= k < text.len() / 2 implies (#[trigger] hex_byte(
            pair_at(text, k),
        )) == Some(bytes[0]) by {
            assert(k == 0);
        }
        assert(pair_bytes(text).unwrap() =~= bytes);
    } else {
        lemma_hex_digits_hold_no_whitespace(text);
        assert(pair_bytes(text).unwrap() =~= bytes);
    }
}

/// Packed hexadecimal pairs, taken as a data text, write the bytes they were
/// written from.
pub proof fn lemma_packed_hex_reads_back(bytes: Seq<u8>)
    ensures
        data_bytes(hex_packed(bytes)) == Some(bytes),
{
    let text = hex_packed(bytes);
    lemma_packed_hex_pairs(bytes);
    lemma_hex_digits_hold_no_whitespace(text);
    assert forall|k: int| 0 <= k < text.len() / 2 implies (#[trigger] hex_byte(pair_at(text, k)))
        == Some(bytes[k]) by {
        assert(pair_at(text, k) == text.subrange(2 * k, 2 * k + 2));
        assert(text.subrange(2 * k, 2 * k + 2) == hex2(bytes[k]));
        lemma_hex2_reads_back(bytes[k]);
    }
    assert(pair_bytes(text).unwrap() =~= bytes);
}

/// The data text of a received packet, taken as the data text of a send
/// request, writes the payload of that packet.
pub proof fn lemma_received_data_can_be_sent(data: Seq<u8>)
    requires
        received(data) is Some,
    ensures
        data_bytes(received(data).unwrap().data) == Some(data.subrange(10, 10 + data[9])),
{
    lemma_spaced_hex_reads_back(data.subrange(10, 10 + data[9]));
}

} // verus!
