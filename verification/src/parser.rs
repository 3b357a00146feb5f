//! The table parser: a state machine that reads an exported table chunk by
//! chunk and collects its rows as records.
//!
//! Each state looks for one tag. The caller hands over the bytes it has and
//! is told how many of them are done with; it presents the rest again, in
//! front of the bytes that follow. The parser never needs more than one
//! chunk at a time.

use vstd::prelude::*;
use vstd::slice::*;
use vstd::string::*;
use vstd::utf8::*;
use crate::record::{fields_of_all, record_fields};
use crate::scan::{lemma_scan_meaning, look_for_item, scan, SearchResult};
use crate::text::{decode_lossy, lossy_text, trim, trimmed};

verus! {

/// What the parser looks for next.
#[derive(Debug, Clone, Copy, PartialEq, Eq, Structural)]
pub enum SdParseState {
    SearchingForTable,
    SearchingForTbody,
    SearchingForTr,
    SearchingForTh,
    SearchingForThEnd,
    SearchingForThClosing,
    SearchingForTd,
    SearchingForTdEnd,
    SearchingForTdClosing,
    SearchingForDownloadLink,
    SearchingForDownloadLinkEnd,
}

/// The number of cells in the header row and in each data row.
pub const EXPECTED_COLUMNS: usize = 4;

/// The number of bytes the parser asks for at a time.
pub const BUFFER_SIZE: usize = 16384;

/// The length of the longest tag. A chunk that is not the last has to be at
/// least this long, or a scan of it can never be completed.
pub const LONGEST_TAG: usize = 18;

/// The tag that each state looks for.
pub open spec fn tag_text(state: SdParseState) -> Seq<char> {
    match state {
        SdParseState::SearchingForTable => "<table>"@,
        SdParseState::SearchingForTbody => "<tbody>"@,
        SdParseState::SearchingForTr => "<tr>"@,
        SdParseState::SearchingForTh => "<th"@,
        SdParseState::SearchingForThEnd => ">"@,
        SdParseState::SearchingForThClosing => "</th>"@,
        SdParseState::SearchingForTd => "<td"@,
        SdParseState::SearchingForTdEnd => ">"@,
        SdParseState::SearchingForTdClosing => "</td>"@,
        SdParseState::SearchingForDownloadLink => "downloadMemories('"@,
        SdParseState::SearchingForDownloadLinkEnd => "',"@,
    }
}

/// The bytes of the tag that each state looks for.
pub open spec fn tag_bytes(state: SdParseState) -> Seq<u8> {
    encode_utf8(tag_text(state))
}

/// Every tag is plain ASCII, one byte for each character, and between one
/// byte and `LONGEST_TAG` bytes long.
pub proof fn lemma_tag_bytes(state: SdParseState)
    ensures
        is_ascii_chars(tag_text(state)),
        tag_bytes(state).len() == tag_text(state).len(),
        0 < tag_bytes(state).len() <= LONGEST_TAG,
        forall|i: int|
            0 <= i < tag_text(state).len() ==> tag_bytes(state)[i] == tag_text(state)[i] as u8,
{
    reveal_strlit("<table>");
    reveal_strlit("<tbody>");
    reveal_strlit("<tr>");
    reveal_strlit("<th");
    reveal_strlit(">");
    reveal_strlit("</th>");
    reveal_strlit("<td");
    reveal_strlit("</td>");
    reveal_strlit("downloadMemories('");
    reveal_strlit("',");
    assert(is_ascii_chars(tag_text(state)));
    is_ascii_chars_encode_utf8(tag_text(state));
}

/// The tag that `state` looks for.
pub fn tag_for(state: SdParseState) -> (tag: &'static str)
    ensures
        tag@ == tag_text(state),
{
    match state {
        SdParseState::SearchingForTable => "<table>",
        SdParseState::SearchingForTbody => "<tbody>",
        SdParseState::SearchingForTr => "<tr>",
        SdParseState::SearchingForTh => "<th",
        SdParseState::SearchingForThEnd => ">",
        SdParseState::SearchingForThClosing => "</th>",
        SdParseState::SearchingForTd => "<td",
        SdParseState::SearchingForTdEnd => ">",
        SdParseState::SearchingForTdClosing => "</td>",
        SdParseState::SearchingForDownloadLink => "downloadMemories('",
        SdParseState::SearchingForDownloadLinkEnd => "',",
    }
}

/// The parser as a value: its state, its two counters, the record it is
/// building and the records it has finished.
pub struct ParserModel {
    pub state: SdParseState,
    pub header_columns: nat,
    pub row_columns: nat,
    pub current: Seq<Seq<char>>,
    pub records: Seq<Seq<Seq<char>>>,
}

/// The parser before it has read anything.
pub open spec fn initial_model() -> ParserModel {
    ParserModel {
        state: SdParseState::SearchingForTable,
        header_columns: 0,
        row_columns: 0,
        current: Seq::empty(),
        records: Seq::empty(),
    }
}

/// Whether finding the tag of `state` ends a cell: the text in front of the
/// tag is then the cell's content.
pub open spec fn collects_field(state: SdParseState) -> bool {
    state == SdParseState::SearchingForThClosing || state == SdParseState::SearchingForTdClosing
        || state == SdParseState::SearchingForDownloadLinkEnd
}

/// The parser after it has found the tag it was looking for, with `text` in
/// front of the tag. A state that ends a cell adds the trimmed text to the
/// current record; the header row is finished with its fourth cell, a data
/// row with its download link.
pub open spec fn advanced(m: ParserModel, text: Seq<char>) -> ParserModel {
    match m.state {
        SdParseState::SearchingForTable => ParserModel {
            state: SdParseState::SearchingForTbody,
            ..m
        },
        SdParseState::SearchingForTbody => ParserModel { state: SdParseState::SearchingForTr, ..m },
        SdParseState::SearchingForTr => ParserModel {
            state: if m.header_columns == 0 {
                SdParseState::SearchingForTh
            } else {
                SdParseState::SearchingForTd
            },
            ..m
        },
        SdParseState::SearchingForTh => ParserModel { state: SdParseState::SearchingForThEnd, ..m },
        SdParseState::SearchingForThEnd => ParserModel {
            state: SdParseState::SearchingForThClosing,
            ..m
        },
        SdParseState::SearchingForThClosing => {
            let row = m.current.push(trimmed(text));
            if m.header_columns + 1 >= EXPECTED_COLUMNS {
                ParserModel {
                    state: SdParseState::SearchingForTr,
                    header_columns: m.header_columns + 1,
                    current: Seq::empty(),
                    records: m.records.push(row),
                    ..m
                }
            } else {
                ParserModel {
                    state: SdParseState::SearchingForTh,
                    header_columns: m.header_columns + 1,
                    current: row,
                    ..m
                }
            }
        },
        SdParseState::SearchingForTd => ParserModel { state: SdParseState::SearchingForTdEnd, ..m },
        SdParseState::SearchingForTdEnd => ParserModel {
            state: if m.row_columns == 3 {
                SdParseState::SearchingForDownloadLink
            } else {
                SdParseState::SearchingForTdClosing
            },
            ..m
        },
        SdParseState::SearchingForTdClosing => ParserModel {
            state: if m.row_columns + 1 == 3 {
                SdParseState::SearchingForDownloadLink
            } else {
                SdParseState::SearchingForTd
            },
            row_columns: m.row_columns + 1,
            current: m.current.push(trimmed(text)),
            ..m
        },
        SdParseState::SearchingForDownloadLink => ParserModel {
            state: SdParseState::SearchingForDownloadLinkEnd,
            ..m
        },
        SdParseState::SearchingForDownloadLinkEnd => ParserModel {
            state: SdParseState::SearchingForTr,
            row_columns: 0,
            current: Seq::empty(),
            records: m.records.push(m.current.push(trimmed(text))),
            ..m
        },
    }
}

/// What holds of every parser that started from `initial_model`: the counters
/// stay within the row, the current record has as many fields as were
/// counted, and every finished record has exactly four fields.
pub open spec fn consistent(m: ParserModel) -> bool {
    &&& forall|i: int| 0 <= i < m.records.len() ==> (#[trigger] m.records[i]).len() == 4
    &&& m.header_columns < 4 ==> m.records.len() == 0 && m.row_columns == 0
    &&& match m.state {
        SdParseState::SearchingForTable | SdParseState::SearchingForTbody => {
            m.header_columns == 0 && m.current.len() == 0
        },
        SdParseState::SearchingForTr => {
            &&& m.header_columns == 0 || m.header_columns == 4
            &&& m.row_columns == 0
            &&& m.current.len() == 0
        },
        SdParseState::SearchingForTh
        | SdParseState::SearchingForThEnd
        | SdParseState::SearchingForThClosing => {
            m.header_columns < 4 && m.current.len() == m.header_columns
        },
        SdParseState::SearchingForTd
        | SdParseState::SearchingForTdEnd
        | SdParseState::SearchingForTdClosing => {
            m.header_columns == 4 && m.row_columns < 3 && m.current.len() == m.row_columns
        },
        SdParseState::SearchingForDownloadLink | SdParseState::SearchingForDownloadLinkEnd => {
            m.header_columns == 4 && m.row_columns == 3 && m.current.len() == 3
        },
    }
}

/// Finding a tag keeps a consistent parser consistent.
pub proof fn lemma_advanced_consistent(m: ParserModel, text: Seq<char>)
    requires
        consistent(m),
    ensures
        consistent(advanced(m, text)),
{
}

/// One step of the parser on the bytes in `buffer`: the parser afterwards,
/// and the number of bytes that are done with. `is_last` says that no bytes
/// follow the buffer.
///
/// Where the tag is found, the parser advances and everything up to the end
/// of the tag is done with. Where it is not, the parser stays as it is; the
/// bytes that may start the tag are kept, the others are done with.
pub open spec fn step(m: ParserModel, buffer: Seq<u8>, is_last: bool) -> (ParserModel, nat) {
    let tag = tag_bytes(m.state);
    match scan(buffer, tag, is_last) {
        SearchResult::Found(at) => (
            advanced(m, lossy_text(buffer.subrange(0, at as int))),
            at as nat + tag.len(),
        ),
        SearchResult::NotFoundWithUnprocessed(kept) => (m, (buffer.len() - kept) as nat),
        SearchResult::NotFound => (m, buffer.len()),
    }
}

/// A step on a buffer that holds bytes, and that is the last or long enough
/// for the longest tag, is done with at least one byte, and with no more
/// than the buffer holds.
pub proof fn lemma_step_consumes(m: ParserModel, buffer: Seq<u8>, is_last: bool)
    requires
        0 < buffer.len() <= usize::MAX,
        is_last || buffer.len() >= LONGEST_TAG,
    ensures
        0 < step(m, buffer, is_last).1 <= buffer.len(),
{
    lemma_tag_bytes(m.state);
    lemma_scan_meaning(buffer, tag_bytes(m.state), is_last);
}

/// A step keeps a consistent parser consistent.
pub proof fn lemma_step_consistent(m: ParserModel, buffer: Seq<u8>, is_last: bool)
    requires
        consistent(m),
    ensures
        consistent(step(m, buffer, is_last).0),
{
}

/// The bytes that a reader with room for `capacity` bytes holds of
/// `stream`: all of it, or its first `capacity` bytes.
pub open spec fn window(stream: Seq<u8>, capacity: nat) -> Seq<u8> {
    if stream.len() <= capacity {
        stream
    } else {
        stream.take(capacity as int)
    }
}

/// The parser after it has read `stream` to its end through a buffer of
/// `capacity` bytes. A window that does not fill the buffer is the last.
/// Reading ends when no bytes are left, whatever the parser then looks for.
/// It also ends where a step is done with no byte at all; with a buffer of
/// `LONGEST_TAG` bytes or more there is no such step (`lemma_step_consumes`).
pub open spec fn run(m: ParserModel, stream: Seq<u8>, capacity: nat) -> ParserModel
    decreases stream.len(),
{
    let chunk = window(stream, capacity);
    let (next, consumed) = step(m, chunk, chunk.len() < capacity);
    if chunk.len() == 0 || consumed == 0 || consumed > stream.len() {
        m
    } else {
        run(next, stream.skip(consumed as int), capacity)
    }
}

/// Reading a stream keeps a consistent parser consistent: every record that
/// comes out has exactly four fields.
pub proof fn lemma_run_consistent(m: ParserModel, stream: Seq<u8>, capacity: nat)
    requires
        consistent(m),
    ensures
        consistent(run(m, stream, capacity)),
    decreases stream.len(),
{
    let chunk = window(stream, capacity);
    let (next, consumed) = step(m, chunk, chunk.len() < capacity);
    if !(chunk.len() == 0 || consumed == 0 || consumed > stream.len()) {
        lemma_step_consistent(m, chunk, chunk.len() < capacity);
        lemma_run_consistent(next, stream.skip(consumed as int), capacity);
    }
}

/// A step takes no record back and changes none: the records before it
/// are the first records after it.
pub proof fn lemma_step_keeps_records(m: ParserModel, buffer: Seq<u8>, is_last: bool)
    ensures
        m.records.is_prefix_of(step(m, buffer, is_last).0.records),
{
}

/// Reading a stream takes no record back and changes none.
pub proof fn lemma_run_keeps_records(m: ParserModel, stream: Seq<u8>, capacity: nat)
    ensures
        m.records.is_prefix_of(run(m, stream, capacity).records),
    decreases stream.len(),
{
    let chunk = window(stream, capacity);
    let (next, consumed) = step(m, chunk, chunk.len() < capacity);
    if !(chunk.len() == 0 || consumed == 0 || consumed > stream.len()) {
        lemma_step_keeps_records(m, chunk, chunk.len() < capacity);
        lemma_run_keeps_records(next, stream.skip(consumed as int), capacity);
    }
}

/// A table parser.
pub struct TableParser {
    parse_state: SdParseState,
    header_column_count: usize,
    row_column_count: usize,
    current_record: csv::StringRecord,
    csv_records: Vec<csv::StringRecord>,
}

impl View for TableParser {
    type V = ParserModel;

    closed spec fn view(&self) -> ParserModel {
        ParserModel {
            state: self.parse_state,
            header_columns: self.header_column_count as nat,
            row_columns: self.row_column_count as nat,
            current: record_fields(self.current_record),
            records: fields_of_all(self.csv_records@),
        }
    }
}

impl TableParser {
    /// What holds of every parser: `new` makes it so, and every method
    /// keeps it so.
    pub open spec fn wf(&self) -> bool {
        consistent(self@)
    }

    /// A parser that has read nothing yet.
    pub fn new() -> (parser: TableParser)
        ensures
            parser.wf(),
            parser@ == initial_model(),
    {
        let parser = TableParser {
            parse_state: SdParseState::SearchingForTable,
            header_column_count: 0,
            row_column_count: 0,
            current_record: csv::StringRecord::new(),
            csv_records: Vec::new(),
        };
        assert(parser@.records =~= Seq::empty());
        parser
    }

    /// Takes note that the tag looked for was found, with `text` in front of
    /// it, and moves on to the next tag.
    pub fn advance(&mut self, text: &str)
        requires
            old(self).wf(),
        ensures
            final(self).wf(),
            final(self)@ == advanced(old(self)@, text@),
    {
        match self.parse_state {
            SdParseState::SearchingForTable => {
                self.parse_state = SdParseState::SearchingForTbody;
            },
            SdParseState::SearchingForTbody => {
                self.parse_state = SdParseState::SearchingForTr;
            },
            SdParseState::SearchingForTr => {
                if self.header_column_count == 0 {
                    self.parse_state = SdParseState::SearchingForTh;
                } else {
                    self.parse_state = SdParseState::SearchingForTd;
                }
            },
            SdParseState::SearchingForTh => {
                self.parse_state = SdParseState::SearchingForThEnd;
            },
            SdParseState::SearchingForThEnd => {
                self.parse_state = SdParseState::SearchingForThClosing;
            },
            SdParseState::SearchingForThClosing => {
                let field = trim(text);
                self.current_record.push_field(field.as_str());
                self.header_column_count += 1;
                if self.header_column_count >= EXPECTED_COLUMNS {
                    self.csv_records.push(self.current_record.clone());
                    self.current_record.clear();
                    self.parse_state = SdParseState::SearchingForTr;
                } else {
                    self.parse_state = SdParseState::SearchingForTh;
                }
            },
            SdParseState::SearchingForTd => {
                self.parse_state = SdParseState::SearchingForTdEnd;
            },
            SdParseState::SearchingForTdEnd => {
                if self.row_column_count == 3 {
                    self.parse_state = SdParseState::SearchingForDownloadLink;
                } else {
                    self.parse_state = SdParseState::SearchingForTdClosing;
                }
            },
            SdParseState::SearchingForTdClosing => {
                let field = trim(text);
                self.current_record.push_field(field.as_str());
                self.row_column_count += 1;
                if self.row_column_count == 3 {
                    self.parse_state = SdParseState::SearchingForDownloadLink;
                } else {
                    self.parse_state = SdParseState::SearchingForTd;
                }
            },
            SdParseState::SearchingForDownloadLink => {
                self.parse_state = SdParseState::SearchingForDownloadLinkEnd;
            },
            SdParseState::SearchingForDownloadLinkEnd => {
                let field = trim(text);
                self.current_record.push_field(field.as_str());
                self.csv_records.push(self.current_record.clone());
                self.current_record.clear();
                self.row_column_count = 0;
                self.parse_state = SdParseState::SearchingForTr;
            },
        }
        proof {
            lemma_advanced_consistent(old(self)@, text@);
            assert(final(self)@.records =~= advanced(old(self)@, text@).records);
        }
    }

    /// Looks in `buffer` for the tag that the parser is after and returns the
    /// number of bytes that are done with. The caller presents the bytes
    /// behind them again, with those that follow in the stream. `is_last`
    /// says that no bytes follow.
    pub fn feed(&mut self, buffer: &[u8], is_last: bool) -> (consumed: usize)
        requires
            old(self).wf(),
        ensures
            final(self).wf(),
            (final(self)@, consumed as nat) == step(old(self)@, buffer@, is_last),
            consumed <= buffer.len(),
    {
        let tag = tag_for(self.parse_state).as_bytes();
        let buffer_size = buffer.len();
        proof {
            lemma_tag_bytes(self.parse_state);
            lemma_scan_meaning(buffer@, tag@, is_last);
        }
        match look_for_item(buffer, tag, is_last) {
            SearchResult::Found(index) => {
                match self.parse_state {
                    SdParseState::SearchingForThClosing
                    | SdParseState::SearchingForTdClosing
                    | SdParseState::SearchingForDownloadLinkEnd => {
                        let text = decode_lossy(slice_subrange(buffer, 0, index));
                        self.advance(text.as_str());
                    },
                    _ => {
                        self.advance("");
                    },
                }
                index + tag.len()
            },
            SearchResult::NotFoundWithUnprocessed(unprocessed) => buffer_size - unprocessed,
            SearchResult::NotFound => buffer_size,
        }
    }

    /// The records finished so far, the header row first.
    pub fn records(&self) -> (records: &Vec<csv::StringRecord>)
        ensures
            fields_of_all(records@) == self@.records,
    {
        &self.csv_records
    }

    /// Ends the parse and hands out the records, the header row first. A row
    /// that was begun and not finished is dropped.
    pub fn into_records(self) -> (records: Vec<csv::StringRecord>)
        ensures
            fields_of_all(records@) == self@.records,
    {
        self.csv_records
    }

    /// What the parser looks for next.
    pub fn state(&self) -> (state: SdParseState)
        ensures
            state == self@.state,
    {
        self.parse_state
    }
}

/// Parses `data` as a reader would that holds at most `capacity` bytes of
/// it at a time, and returns the records, the header row first.
pub fn parse_stream(data: &[u8], capacity: usize) -> (records: Vec<csv::StringRecord>)
    requires
        capacity >= LONGEST_TAG,
    ensures
        fields_of_all(records@) == run(initial_model(), data@, capacity as nat).records,
        forall|i: int| 0 <= i < records.len() ==> record_fields(#[trigger] records[i]).len() == 4,
{
    let mut parser = TableParser::new();
    let mut position: usize = 0;
    assert(data@.skip(0) =~= data@);
    while position < data.len()
        invariant
            position <= data.len(),
            capacity >= LONGEST_TAG,
            parser.wf(),
            run(parser@, data@.skip(position as int), capacity as nat) == run(
                initial_model(),
                data@,
                capacity as nat,
            ),
        decreases data.len() - position,
    {
        let available = data.len() - position;
        let length = if available < capacity {
            available
        } else {
            capacity
        };
        let chunk = slice_subrange(data, position, position + length);
        let is_last = length < capacity;
        let ghost before = parser@;
        let ghost rest = data@.skip(position as int);
        let consumed = parser.feed(chunk, is_last);
        proof {
            assert(chunk@ =~= window(rest, capacity as nat));
            lemma_step_consumes(before, chunk@, is_last);
            assert(rest.skip(consumed as int) =~= data@.skip(position + consumed));
        }
        position += consumed;
    }
    let records = parser.into_records();
    assert forall|i: int| 0 <= i < records.len() implies record_fields(
        #[trigger] records[i],
    ).len() == 4 by {
        assert(fields_of_all(records@)[i] == record_fields(records[i]));
    }
    records
}

/// Parses an exported table held in memory, in chunks of `BUFFER_SIZE`
/// bytes, and returns its rows as records, the header row first.
pub fn parse_memories_history_html(data: &[u8]) -> (records: Vec<csv::StringRecord>)
    ensures
        fields_of_all(records@) == run(initial_model(), data@, BUFFER_SIZE as nat).records,
        forall|i: int| 0 <= i < records.len() ==> record_fields(#[trigger] records[i]).len() == 4,
{
    parse_stream(data, BUFFER_SIZE)
}

} // verus!
