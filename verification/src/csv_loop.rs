//! The replay scheduler: sends recorded rows one by one at a fixed interval,
//! and a stop frame when the replay is cancelled.

use vstd::prelude::*;
use crate::can_protocol::{
    byte_of, data_bytes, frame_of_text, hex_byte, id_of_text, is_variable,
    lemma_spaced_hex_reads_back, packet_of, parse_byte, CanFrame, CodecError, FrameModel,
    DEFAULT_CAN_ID,
};
use crate::text::{
    char_is_whitespace, chars_of, has_whitespace, hex_spaced, is_whitespace,
    lemma_digits_need_no_sign, push_hex_spaced, split_whitespace, str_eq, tokens,
};
use crate::CsvLoopProgress;

verus! {

/// The heartbeat byte that follows the byte 6 of a payload: one more than its
/// high four bits, in the high four bits, and zero after fifteen.
pub open spec fn next_heartbeat(byte6: u8) -> u8 {
    if byte6 / 16 + 1 > 0x0F {
        0u8
    } else {
        ((byte6 / 16 + 1) * 16) as u8
    }
}

/// The exclusive or of all bytes of `s`.
pub open spec fn xor_all(s: Seq<u8>) -> u8
    decreases s.len(),
{
    if s.len() == 0 {
        0u8
    } else {
        xor_all(s.drop_last()) ^ s.last()
    }
}

/// The first seven bytes of the stop payload that follows a payload with
/// `byte6`: gear D with speed zero, steering zero, and the next heartbeat.
pub open spec fn stop_head(byte6: u8) -> Seq<u8> {
    seq![0x04u8, 0x00u8, 0x00u8, 0x00u8, 0x00u8, 0x00u8, next_heartbeat(byte6)]
}

/// The stop payload that follows a payload with `byte6`: the seven bytes of
/// `stop_head` and their exclusive or.
pub open spec fn stop_payload(byte6: u8) -> Seq<u8> {
    stop_head(byte6).push(xor_all(stop_head(byte6)))
}

/// The stop payload that follows a payload with `byte6`.
pub fn stop_payload_after(byte6: u8) -> (stop: Vec<u8>)
    ensures
        stop@ == stop_payload(byte6),
        stop@.len() == 8,
{
    let high: u8 = byte6 / 16 + 1;
    let heartbeat: u8 = if high > 0x0F {
        0
    } else {
        high * 16
    };
    let mut stop: Vec<u8> = Vec::new();
    stop.push(0x04);
    stop.push(0x00);
    stop.push(0x00);
    stop.push(0x00);
    stop.push(0x00);
    stop.push(0x00);
    stop.push(heartbeat);
    assert(stop@ =~= stop_head(byte6));
    let mut check: u8 = 0;
    let mut i: usize = 0;
    while i < 7
        invariant
            i <= 7,
            stop@.len() == 7,
            check == xor_all(stop@.take(i as int)),
        decreases 7 - i,
    {
        proof {
            assert(stop@.take(i + 1).drop_last() =~= stop@.take(i as int));
        }
        check = check ^ stop[i];
        i += 1;
    }
    proof {
        assert(stop@.take(7) =~= stop@);
    }
    stop.push(check);
    stop
}

/// Why no stop signal follows a payload text.
#[derive(Debug, Clone, Copy, PartialEq, Eq, Structural)]
pub enum StopSignalError {
    /// The text has fewer than eight tokens.
    InvalidFormat,
    /// The seventh token writes no byte.
    InvalidHeartbeat,
}

impl StopSignalError {
    pub open spec fn message_text(self) -> Seq<char> {
        match self {
            StopSignalError::InvalidFormat => "Invalid CAN data format for stop signal generation"@,
            StopSignalError::InvalidHeartbeat => "Failed to parse byte 7 as hex"@,
        }
    }

    /// The message that tells a user of the error.
    pub fn message(&self) -> (text: String)
        ensures
            text@ == self.message_text(),
    {
        match self {
            StopSignalError::InvalidFormat => {
                "Invalid CAN data format for stop signal generation".to_owned()
            },
            StopSignalError::InvalidHeartbeat => "Failed to parse byte 7 as hex".to_owned(),
        }
    }
}

/// The text of the stop payload that follows a payload text of at least eight
/// tokens: its seventh token gives the heartbeat.
pub open spec fn stop_signal_of(last_can_data: Seq<char>) -> Result<Seq<char>, StopSignalError> {
    let t = tokens(last_can_data);
    if t.len() < 8 {
        Err(StopSignalError::InvalidFormat)
    } else {
        match byte_of(t[6]) {
            Some(byte6) => Ok(hex_spaced(stop_payload(byte6))),
            None => Err(StopSignalError::InvalidHeartbeat),
        }
    }
}

/// Writes the stop payload that follows the payload text `last_can_data`, as
/// spaced hexadecimal pairs.
pub fn generate_stop_signal(last_can_data: &str) -> (r: Result<String, StopSignalError>)
    ensures
        match stop_signal_of(last_can_data@) {
            Ok(text) => r matches Ok(stop) && stop@ == text,
            Err(e) => r == Err::<String, StopSignalError>(e),
        },
{
    let chars = chars_of(last_can_data);
    let toks = split_whitespace(&chars);
    if toks.len() < 8 {
        return Err(StopSignalError::InvalidFormat);
    }
    assert(tokens(last_can_data@)[6] == toks@[6]@);
    match parse_byte(&toks[6]) {
        Some(byte6) => {
            let stop = stop_payload_after(byte6);
            let mut text = String::new();
            push_hex_spaced(&mut text, stop.as_slice());
            assert(text@ =~= hex_spaced(stop@));
            Ok(text)
        },
        None => Err(StopSignalError::InvalidHeartbeat),
    }
}

/// The stop packet's payload after a session whose last frame carried `last`:
/// a payload of eight bytes is followed by its stop payload, a shorter one by
/// none.
pub open spec fn stop_after(last: Option<Seq<u8>>) -> Option<Seq<u8>> {
    match last {
        Some(payload) => if payload.len() >= 8 {
            Some(stop_payload(payload[6]))
        } else {
            None
        },
        None => None,
    }
}

/// The records that a CSV reader without header row finds in `content`, each
/// a sequence of fields; none where the reader reports an error.
pub uninterp spec fn csv_records(content: Seq<char>) -> Option<Seq<Seq<Seq<char>>>>;

#[verifier::external_type_specification]
#[verifier::external_body]
pub struct ExCsvError(csv::Error);

/// The fields of records.
pub open spec fn record_views(records: Seq<Vec<String>>) -> Seq<Seq<Seq<char>>> {
    records.map_values(|r: Vec<String>| r@.map_values(|f: String| f@))
}

/// Reads all records of `content` with `csv::ReaderBuilder`, headers off, and
/// `Reader::records`, up to the first error. The contract names the outcome
/// `csv_records`: the records if all were read, none if the reader reported an
/// error.
#[verifier::external_body]
fn read_csv_records(content: &str) -> (r: Result<Vec<Vec<String>>, csv::Error>)
    ensures
        match r {
            Ok(records) => csv_records(content@) == Some(record_views(records@)),
            Err(_) => csv_records(content@) is None,
        },
{
    let mut reader = csv::ReaderBuilder::new().has_headers(false).from_reader(content.as_bytes());
    let mut records = Vec::new();
    for record in reader.records() {
        records.push(record?.iter().map(|field| field.to_string()).collect());
    }
    Ok(records)
}

/// Why a replay could not be set up.
#[derive(Debug)]
pub enum LoadError {
    /// The CSV reader reported an error.
    Csv(csv::Error),
    /// The content holds no record.
    EmptyCsv,
    /// The start row is behind the last record.
    StartRowOutOfRange,
}

/// Why a replay stopped at a row.
#[derive(Debug, Clone, Copy, PartialEq, Eq, Structural)]
pub enum RowError {
    /// The row has no field at the identifier's column.
    IdColumnOutOfRange,
    /// The row has no field at the data's column.
    DataColumnOutOfRange,
    /// The row's texts describe no frame.
    Codec(CodecError),
}

/// The state of a replay.
pub struct ReplayModel {
    /// The recorded rows, each a sequence of fields.
    pub records: Seq<Seq<Seq<char>>>,
    /// The column of the identifier text.
    pub id_column: nat,
    /// The column of the data text.
    pub data_column: nat,
    /// Whether packets are built in the variable format.
    pub variable: bool,
    /// The row that is sent next.
    pub next: nat,
    /// The payload of the frame that was sent last.
    pub last: Option<Seq<u8>>,
    /// Whether the replay is over.
    pub finished: bool,
}

/// What a replay asks of the thread that runs it.
pub enum ReplayOutcome {
    /// Enqueue the packet; then sleep for the interval if `pause` is set.
    Send { packet: Seq<u8>, pause: bool },
    /// The replay is over; enqueue the stop packet if there is one.
    Finished { stop: Option<Seq<u8>> },
    /// The replay is aborted.
    Failed(RowError),
}

/// The stop packet of a replay: the stop payload in an extended frame with
/// the identifier `DEFAULT_CAN_ID`.
pub open spec fn stop_packet(variable: bool, last: Option<Seq<u8>>) -> Option<Seq<u8>> {
    match stop_after(last) {
        Some(payload) => Some(
            packet_of(variable, FrameModel { id: DEFAULT_CAN_ID, extended: true, payload }),
        ),
        None => None,
    }
}

/// Whether a text holds nothing but whitespace.
pub open spec fn is_blank(s: Seq<char>) -> bool {
    forall|i: int| 0 <= i < s.len() ==> is_whitespace(#[trigger] s[i])
}

impl ReplayModel {
    pub open spec fn over(self) -> ReplayModel {
        ReplayModel { finished: true, ..self }
    }

    /// What the replay asks next. A replay that is over, or has sent its last
    /// row, asks for nothing more. One that finds the running flag cleared
    /// ends with its stop packet. Otherwise the next row is sent as an
    /// extended frame; a blank data text ends the replay without a stop
    /// packet, and a row without the columns or without a frame aborts it.
    pub open spec fn outcome(self, running: bool) -> ReplayOutcome {
        if self.finished || self.next >= self.records.len() {
            ReplayOutcome::Finished { stop: None }
        } else if !running {
            ReplayOutcome::Finished { stop: stop_packet(self.variable, self.last) }
        } else {
            let row = self.records[self.next as int];
            if self.id_column >= row.len() {
                ReplayOutcome::Failed(RowError::IdColumnOutOfRange)
            } else if self.data_column >= row.len() {
                ReplayOutcome::Failed(RowError::DataColumnOutOfRange)
            } else if is_blank(row[self.data_column as int]) {
                ReplayOutcome::Finished { stop: None }
            } else {
                match frame_of_text(
                    row[self.id_column as int],
                    row[self.data_column as int],
                    "extended"@,
                ) {
                    Ok(f) => ReplayOutcome::Send {
                        packet: packet_of(self.variable, f),
                        pause: self.next + 1 < self.records.len(),
                    },
                    Err(e) => ReplayOutcome::Failed(RowError::Codec(e)),
                }
            }
        }
    }

    /// The state after the replay has asked: after a row was sent the next
    /// row is due and that row's payload is the last; after anything else the
    /// replay is over.
    pub open spec fn after(self, running: bool) -> ReplayModel {
        match self.outcome(running) {
            ReplayOutcome::Send { .. } => ReplayModel {
                next: self.next + 1,
                last: Some(
                    frame_of_text(
                        self.records[self.next as int][self.id_column as int],
                        self.records[self.next as int][self.data_column as int],
                        "extended"@,
                    ).unwrap().payload,
                ),
                ..self
            },
            _ => self.over(),
        }
    }
}

/// What a replay asks of the thread that runs it.
#[derive(Debug)]
pub enum ReplayStep {
    /// Enqueue the packet; then sleep for the interval if `pause` is set.
    Send { packet: Vec<u8>, pause: bool },
    /// The replay is over; enqueue the stop packet if there is one.
    Finished { stop: Option<Vec<u8>> },
    /// The replay is aborted.
    Failed(RowError),
}

impl View for ReplayStep {
    type V = ReplayOutcome;

    open spec fn view(&self) -> ReplayOutcome {
        match self {
            ReplayStep::Send { packet, pause } => ReplayOutcome::Send {
                packet: packet@,
                pause: *pause,
            },
            ReplayStep::Finished { stop } => ReplayOutcome::Finished {
                stop: match stop {
                    Some(p) => Some(p@),
                    None => None,
                },
            },
            ReplayStep::Failed(e) => ReplayOutcome::Failed(*e),
        }
    }
}

/// One replay of recorded rows.
#[derive(Debug)]
pub struct ReplaySession {
    records: Vec<Vec<String>>,
    id_column: usize,
    data_column: usize,
    variable: bool,
    next: usize,
    last: Option<Vec<u8>>,
    finished: bool,
}

impl View for ReplaySession {
    type V = ReplayModel;

    closed spec fn view(&self) -> ReplayModel {
        ReplayModel {
            records: record_views(self.records@),
            id_column: self.id_column as nat,
            data_column: self.data_column as nat,
            variable: self.variable,
            next: self.next as nat,
            last: match self.last {
                Some(p) => Some(p@),
                None => None,
            },
            finished: self.finished,
        }
    }
}

/// The state in which a replay of `records` begins at `start_row`.
pub open spec fn replay_start(
    records: Seq<Seq<Seq<char>>>,
    id_column: nat,
    data_column: nat,
    start_row: nat,
    protocol_length: Seq<char>,
) -> ReplayModel {
    ReplayModel {
        records,
        id_column,
        data_column,
        variable: is_variable(protocol_length),
        next: start_row,
        last: None,
        finished: false,
    }
}

/// The two fields of preloaded rows: identifier text, then data text.
pub open spec fn preloaded_records(rows: Seq<CsvLoopProgress>) -> Seq<Seq<Seq<char>>> {
    rows.map_values(|row: CsvLoopProgress| seq![row.can_id@, row.can_data@])
}

fn is_blank_text(s: &str) -> (r: bool)
    ensures
        r == is_blank(s@),
{
    let chars = chars_of(s);
    let mut i: usize = 0;
    while i < chars.len()
        invariant
            i <= chars.len(),
            chars@ == s@,
            forall|j: int| 0 <= j < i ==> is_whitespace(#[trigger] chars@[j]),
        decreases chars.len() - i,
    {
        if !char_is_whitespace(chars[i]) {
            return false;
        }
        i += 1;
    }
    true
}

impl ReplaySession {
    /// A replay of `records` from `start_row` on. There must be a record, and
    /// one at the start row.
    pub fn from_records(
        records: Vec<Vec<String>>,
        id_column: usize,
        data_column: usize,
        start_row: usize,
        protocol_length: &str,
    ) -> (r: Result<ReplaySession, LoadError>)
        ensures
            records@.len() == 0 ==> (r matches Err(LoadError::EmptyCsv)),
            0 < records@.len() <= start_row ==> (r matches Err(LoadError::StartRowOutOfRange)),
            start_row < records@.len() ==> (r matches Ok(session) && session@ == replay_start(
                record_views(records@),
                id_column as nat,
                data_column as nat,
                start_row as nat,
                protocol_length@,
            )),
    {
        if records.len() == 0 {
            return Err(LoadError::EmptyCsv);
        }
        if start_row >= records.len() {
            return Err(LoadError::StartRowOutOfRange);
        }
        let variable = str_eq(protocol_length, "variable");
        Ok(
            ReplaySession {
                records,
                id_column,
                data_column,
                variable,
                next: start_row,
                last: None,
                finished: false,
            },
        )
    }

    /// A replay of the records of a CSV text without header row, from
    /// `start_row` on.
    pub fn from_csv(
        csv_content: &str,
        id_column: usize,
        data_column: usize,
        start_row: usize,
        protocol_length: &str,
    ) -> (r: Result<ReplaySession, LoadError>)
        ensures
            match csv_records(csv_content@) {
                None => r matches Err(LoadError::Csv(_)),
                Some(records) => {
                    &&& records.len() == 0 ==> (r matches Err(LoadError::EmptyCsv))
                    &&& 0 < records.len() <= start_row ==> (r matches Err(
                        LoadError::StartRowOutOfRange,
                    ))
                    &&& start_row < records.len() ==> (r matches Ok(session) && session@
                        == replay_start(
                        records,
                        id_column as nat,
                        data_column as nat,
                        start_row as nat,
                        protocol_length@,
                    ))
                },
            },
    {
        match read_csv_records(csv_content) {
            Ok(records) => ReplaySession::from_records(
                records,
                id_column,
                data_column,
                start_row,
                protocol_length,
            ),
            Err(e) => Err(LoadError::Csv(e)),
        }
    }

    /// A replay of preloaded rows, from the first on. Without rows it is over
    /// at once.
    pub fn preloaded(rows: &Vec<CsvLoopProgress>, protocol_length: &str) -> (session: ReplaySession)
        ensures
            session@ == replay_start(preloaded_records(rows@), 0, 1, 0, protocol_length@),
    {
        let mut records: Vec<Vec<String>> = Vec::new();
        let mut i: usize = 0;
        while i < rows.len()
            invariant
                i <= rows.len(),
                record_views(records@) == preloaded_records(rows@.take(i as int)),
            decreases rows.len() - i,
        {
            let mut record: Vec<String> = Vec::new();
            record.push(rows[i].can_id.clone());
            record.push(rows[i].can_data.clone());
            proof {
                assert(record@.map_values(|f: String| f@) =~= seq![
                    rows@[i as int].can_id@,
                    rows@[i as int].can_data@,
                ]);
                assert(record_views(records@.push(record)) =~= record_views(records@).push(
                    record@.map_values(|f: String| f@),
                ));
                assert(preloaded_records(rows@.take(i + 1)) =~= preloaded_records(
                    rows@.take(i as int),
                ).push(seq![rows@[i as int].can_id@, rows@[i as int].can_data@]));
            }
            records.push(record);
            i += 1;
        }
        proof {
            assert(rows@.take(rows.len() as int) =~= rows@);
        }
        let variable = str_eq(protocol_length, "variable");
        ReplaySession {
            records,
            id_column: 0,
            data_column: 1,
            variable,
            next: 0,
            last: None,
            finished: false,
        }
    }

    /// Whether the replay is over.
    pub fn is_finished(&self) -> (b: bool)
        ensures
            b == self@.finished,
    {
        self.finished
    }

    /// The number of the row that is sent next.
    pub fn position(&self) -> (n: usize)
        ensures
            n == self@.next,
    {
        self.next
    }

    /// The number of recorded rows.
    pub fn total(&self) -> (n: usize)
        ensures
            n == self@.records.len(),
    {
        proof {
            assert(record_views(self.records@).len() == self.records@.len());
        }
        self.records.len()
    }

    /// Decides what the replay does next, given the running flag as the
    /// thread has just read it.
    pub fn advance(&mut self, running: bool) -> (step: ReplayStep)
        ensures
            step@ == old(self)@.outcome(running),
            final(self)@ == old(self)@.after(running),
    {
        let ghost m = self@;
        if self.finished || self.next >= self.records.len() {
            self.finished = true;
            assert(self@ =~= m.over());
            return ReplayStep::Finished { stop: None };
        }
        if !running {
            let stop = match &self.last {
                Some(payload) => {
                    if payload.len() >= 8 {
                        let stop_bytes = stop_payload_after(payload[6]);
                        match CanFrame::new(DEFAULT_CAN_ID, true, stop_bytes) {
                            Ok(frame) => Some(frame.encode(self.variable)),
                            Err(_) => None,
                        }
                    } else {
                        None
                    }
                },
                None => None,
            };
            self.finished = true;
            assert(self@ =~= m.over());
            return ReplayStep::Finished { stop };
        }
        let row = &self.records[self.next];
        proof {
            assert(m.records[m.next as int] == row@.map_values(|f: String| f@));
        }
        if self.id_column >= row.len() {
            self.finished = true;
            assert(self@ =~= m.over());
            return ReplayStep::Failed(RowError::IdColumnOutOfRange);
        }
        if self.data_column >= row.len() {
            self.finished = true;
            assert(self@ =~= m.over());
            return ReplayStep::Failed(RowError::DataColumnOutOfRange);
        }
        let can_id = row[self.id_column].as_str();
        let can_data = row[self.data_column].as_str();
        if is_blank_text(can_data) {
            self.finished = true;
            assert(self@ =~= m.over());
            return ReplayStep::Finished { stop: None };
        }
        match CanFrame::parse(can_id, can_data, "extended") {
            Ok(frame) => {
                let packet = frame.encode(self.variable);
                let pause = self.next + 1 < self.records.len();
                let mut payload: Vec<u8> = Vec::new();
                let sent = frame.payload();
                let mut i: usize = 0;
                while i < sent.len()
                    invariant
                        i <= sent.len(),
                        payload@ == sent@.take(i as int),
                    decreases sent.len() - i,
                {
                    payload.push(sent[i]);
                    assert(payload@ =~= sent@.take(i + 1));
                    i += 1;
                }
                assert(sent@.take(sent.len() as int) =~= sent@);
                self.last = Some(payload);
                self.next = self.next + 1;
                assert(self@ =~= m.after(running));
                ReplayStep::Send { packet, pause }
            },
            Err(e) => {
                self.finished = true;
                assert(self@ =~= m.over());
                ReplayStep::Failed(RowError::Codec(e))
            },
        }
    }
}

/// For a payload text of eight bytes or more that are separated by
/// whitespace, the stop signal is the text of the stop payload that follows
/// its byte 6.
pub proof fn lemma_stop_signal_follows_payload(last_can_data: Seq<char>)
    requires
        has_whitespace(last_can_data),
        data_bytes(last_can_data) matches Some(payload) && payload.len() >= 8,
    ensures
        stop_signal_of(last_can_data) == Ok::<Seq<char>, StopSignalError>(
            hex_spaced(stop_payload(data_bytes(last_can_data).unwrap()[6])),
        ),
{
    let t = tokens(last_can_data);
    assert(hex_byte(t[6]) is Some);
    lemma_digits_need_no_sign(t[6], 255);
}

/// The stop signal, sent as the data of an extended frame under an identifier
/// text that writes `DEFAULT_CAN_ID`, builds the stop packet of a replay whose
/// last frame carried eight bytes.
pub proof fn lemma_stop_signal_builds_stop_packet(id: Seq<char>, last: Seq<u8>, variable: bool)
    requires
        id_of_text(id) == Some(DEFAULT_CAN_ID),
        last.len() >= 8,
    ensures
        frame_of_text(id, hex_spaced(stop_payload(last[6])), "extended"@) is Ok,
        stop_packet(variable, Some(last)) == Some(
            packet_of(
                variable,
                frame_of_text(id, hex_spaced(stop_payload(last[6])), "extended"@).unwrap(),
            ),
        ),
{
    lemma_spaced_hex_reads_back(stop_payload(last[6]));
}

} // verus!
