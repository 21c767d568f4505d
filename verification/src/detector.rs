//! Recognition of the input format.

use vstd::prelude::*;
use crate::bindings::{
    all_fields, csv_header, csv_rows, fields, json_accepts, json_is_valid, json_reading, outcome,
    read_csv_header, read_csv_rows, read_json,
};
use crate::error::{CoreError, Fault};
use crate::parser::csv::{CsvParser, COMMA, TAB};
use crate::parser::json::{json_document, JsonParser};
use crate::parser::jsonl::{jsonl_reading, JsonlParser};
use crate::parser::Parser;
use crate::sequence::{lemma_filter_empty, lemma_filter_prefix, lemma_filter_push};
use crate::text::{chars_of, is_blank, lines, split_lines, texts, trim};
use crate::value::{Json, JsonValue};

verus! {

/// The structured input formats that detection recognises.
#[derive(Debug, Clone, Copy, PartialEq, Eq, Structural)]
pub enum InputFormat {
    /// Valid JSON with an object or array root.
    Json,
    /// Newline-delimited JSON with two or more lines.
    Jsonl,
    /// Comma-delimited tabular text with two or more columns.
    Csv,
    /// Tab-delimited tabular text with two or more columns.
    Tsv,
    /// None of the above; content is passed through unchanged.
    Unknown,
}

/// The stable lowercase name of a format.
pub open spec fn format_name(f: InputFormat) -> Seq<char> {
    match f {
        InputFormat::Json => "json"@,
        InputFormat::Jsonl => "jsonl"@,
        InputFormat::Csv => "csv"@,
        InputFormat::Tsv => "tsv"@,
        InputFormat::Unknown => "unknown"@,
    }
}

impl InputFormat {
    /// A stable lowercase identifier for logging and display.
    pub fn as_str(self) -> (r: &'static str)
        ensures
            r@ == format_name(self),
    {
        match self {
            InputFormat::Json => "json",
            InputFormat::Jsonl => "jsonl",
            InputFormat::Csv => "csv",
            InputFormat::Tsv => "tsv",
            InputFormat::Unknown => "unknown",
        }
    }
}

/// Confidence bucket of a detection.
#[derive(Debug, Clone, Copy, PartialEq, Eq, Structural)]
pub enum DetectionConfidence {
    /// Backed by a full validation or an exact fallback.
    Certain,
    /// Based on a format heuristic.
    Heuristic,
}

/// The stable lowercase name of a confidence bucket.
pub open spec fn confidence_name(c: DetectionConfidence) -> Seq<char> {
    match c {
        DetectionConfidence::Certain => "certain"@,
        DetectionConfidence::Heuristic => "heuristic"@,
    }
}

impl DetectionConfidence {
    /// A stable lowercase identifier for logging and display.
    pub fn as_str(self) -> (r: &'static str)
        ensures
            r@ == confidence_name(self),
    {
        match self {
            DetectionConfidence::Certain => "certain",
            DetectionConfidence::Heuristic => "heuristic",
        }
    }
}

/// What detection found out about an input.
#[derive(Debug)]
pub struct DetectionMetadata {
    /// The selected format.
    pub format: InputFormat,
    /// Confidence bucket of the selected format.
    pub confidence: DetectionConfidence,
    /// Whether more than one format matched.
    pub ambiguous: bool,
    /// All formats that matched, in order of precedence.
    pub candidates: Vec<InputFormat>,
    /// Number of non-blank lines, where the format is [`InputFormat::Jsonl`].
    pub line_count: Option<usize>,
}

/// Mathematical model of a [`DetectionMetadata`].
pub struct Detection {
    pub format: InputFormat,
    pub confidence: DetectionConfidence,
    pub ambiguous: bool,
    pub candidates: Seq<InputFormat>,
    pub line_count: Option<nat>,
}

impl View for DetectionMetadata {
    type V = Detection;

    open spec fn view(&self) -> Detection {
        Detection {
            format: self.format,
            confidence: self.confidence,
            ambiguous: self.ambiguous,
            candidates: self.candidates@,
            line_count: match self.line_count {
                Some(n) => Some(n as nat),
                None => None,
            },
        }
    }
}

/// The metadata of an input that was not examined.
pub open spec fn undetected() -> Detection {
    Detection {
        format: InputFormat::Unknown,
        confidence: DetectionConfidence::Certain,
        ambiguous: false,
        candidates: Seq::empty(),
        line_count: None,
    }
}

impl DetectionMetadata {
    /// Metadata for an input whose format was not, or could not be, detected.
    pub fn unknown() -> (r: Self)
        ensures
            r@ == undetected(),
    {
        let r = Self {
            format: InputFormat::Unknown,
            confidence: DetectionConfidence::Certain,
            ambiguous: false,
            candidates: Vec::new(),
            line_count: None,
        };
        assert(r@.candidates =~= Seq::empty());
        r
    }
}

// ---------------------------------------------------------------------------
// Probes
// ---------------------------------------------------------------------------

/// ASCII white space: space, tab, line feed, form feed, carriage return.
pub open spec fn is_ascii_space(c: char) -> bool {
    c == ' ' || c == '\t' || c == '\n' || c == '\x0C' || c == '\r'
}

/// Whether the first character that is not ASCII white space opens an object
/// or an array.
pub open spec fn opens_container(s: Seq<char>) -> bool
    decreases s.len(),
{
    if s.len() == 0 {
        false
    } else if is_ascii_space(s[0]) {
        opens_container(s.drop_first())
    } else {
        s[0] == '{' || s[0] == '['
    }
}

/// The lines of `s` that hold more than white space.
pub open spec fn live_lines(s: Seq<char>) -> Seq<Seq<char>> {
    lines(s).filter(|line: Seq<char>| !is_blank(line))
}

/// The number of non-blank lines of a JSONL input: one that has at least two
/// non-blank lines, the first two of them JSON documents.
pub open spec fn jsonl_probe(input: Seq<char>) -> Option<nat> {
    let live = live_lines(input);
    if live.len() >= 2 && json_accepts(live[0]) && json_accepts(live[1]) {
        Some(live.len())
    } else {
        None
    }
}

/// Whether the input reads as a table: a header of at least two columns and a
/// first record of as many.
pub open spec fn table_probe(input: Seq<char>, delimiter: u8) -> bool {
    let rows = csv_rows(delimiter, input);
    match csv_header(delimiter, input) {
        Ok(header) => {
            &&& header.len() >= 2
            &&& rows.len() > 0
            &&& (rows[0] matches Ok(record) && record.len() == header.len())
        },
        Err(_) => false,
    }
}

/// The formats that match, in order of precedence, given what the JSON probe
/// found.
pub open spec fn candidates(input: Seq<char>, json: bool) -> Seq<InputFormat> {
    (if json {
        seq![InputFormat::Json]
    } else {
        Seq::empty()
    }) + (if jsonl_probe(input) is Some {
        seq![InputFormat::Jsonl]
    } else {
        Seq::empty()
    }) + (if table_probe(input, COMMA) {
        seq![InputFormat::Csv]
    } else {
        Seq::empty()
    }) + (if table_probe(input, TAB) {
        seq![InputFormat::Tsv]
    } else {
        Seq::empty()
    })
}

/// How far a selected format can be relied on.
pub open spec fn confidence_in(f: InputFormat) -> DetectionConfidence {
    match f {
        InputFormat::Json | InputFormat::Unknown => DetectionConfidence::Certain,
        _ => DetectionConfidence::Heuristic,
    }
}

/// The metadata that follows from what the JSON probe found.
pub open spec fn detection(input: Seq<char>, json: bool) -> Detection {
    let found = candidates(input, json);
    let format = if found.len() > 0 {
        found[0]
    } else {
        InputFormat::Unknown
    };
    Detection {
        format,
        confidence: confidence_in(format),
        ambiguous: found.len() > 1,
        candidates: found,
        line_count: if format == InputFormat::Jsonl {
            jsonl_probe(input)
        } else {
            None
        },
    }
}

/// Whether the input is a JSON document with an object or array root.
pub open spec fn json_probe(input: Seq<char>) -> bool {
    opens_container(input) && json_accepts(input)
}

/// What detection finds out about an input.
pub open spec fn detected(input: Seq<char>) -> Detection {
    detection(input, json_probe(input))
}

/// The tree of an input that is a JSON document with an object or array root.
pub open spec fn probed_value(input: Seq<char>) -> Option<Json> {
    if opens_container(input) {
        match json_reading(input) {
            Ok(v) => Some(v),
            Err(_) => None,
        }
    } else {
        None
    }
}

/// What a parser for `format` makes of the input; detection without a parser
/// fails at no line.
pub open spec fn parse_as(format: InputFormat, input: Seq<char>) -> Result<Json, Fault> {
    match format {
        InputFormat::Json => json_document(input),
        InputFormat::Jsonl => jsonl_reading(input),
        InputFormat::Csv => match crate::parser::csv::table(COMMA, true, input) {
            Ok(t) => Ok(t.0),
            Err(e) => Err(e),
        },
        InputFormat::Tsv => match crate::parser::csv::table(TAB, true, input) {
            Ok(t) => Ok(t.0),
            Err(e) => Err(e),
        },
        InputFormat::Unknown => Err(
            Fault::ParseFailed {
                format: InputFormat::Unknown,
                line: 0,
                detail: "unknown format — no parser available"@,
            },
        ),
    }
}

/// Decides [`opens_container`].
fn starts_container(input: &str) -> (r: bool)
    ensures
        r == opens_container(input@),
{
    let chars = chars_of(input);
    let mut i: usize = 0;
    assert(chars@.skip(0) =~= chars@);
    while i < chars.len()
        invariant
            0 <= i <= chars@.len(),
            chars@ == input@,
            opens_container(chars@.skip(i as int)) == opens_container(chars@),
        decreases chars@.len() - i,
    {
        let c = chars[i];
        let ghost rest = chars@.skip(i as int);
        assert(rest[0] == c);
        if !(c == ' ' || c == '\t' || c == '\n' || c == '\x0C' || c == '\r') {
            return c == '{' || c == '[';
        }
        assert(rest.drop_first() =~= chars@.skip(i + 1));
        i = i + 1;
    }
    false
}

/// Stateless format detector and parser dispatcher.
///
/// Formats are tried in this order: JSON (full validation), JSONL (first two
/// non-blank lines), CSV and TSV (column counts of the first two records).
pub struct FormatDetector;

impl FormatDetector {
    /// The number of columns in the header of a CSV or TSV input; nothing for
    /// other formats or where the header cannot be read.
    pub fn column_count(fmt: InputFormat, input: &str) -> (r: Option<usize>)
        ensures
            match fmt {
                InputFormat::Csv => r == header_width(COMMA, input@),
                InputFormat::Tsv => r == header_width(TAB, input@),
                _ => r is None,
            },
    {
        let delimiter: u8 = match fmt {
            InputFormat::Csv => COMMA,
            InputFormat::Tsv => TAB,
            _ => {
                return None;
            },
        };
        match read_csv_header(delimiter, input) {
            Ok(header) => Some(header.len()),
            Err(_) => None,
        }
    }

    /// Detect the format of `input`.
    pub fn detect(input: &str) -> (r: InputFormat)
        ensures
            r == detected(input@).format,
    {
        Self::detect_with_metadata(input).format
    }

    /// Detect the format of `input` with confidence and ambiguity metadata.
    pub fn detect_with_metadata(input: &str) -> (r: DetectionMetadata)
        ensures
            r@ == detected(input@),
    {
        let json = starts_container(input) && json_is_valid(input);
        Self::detect_inner(input, json)
    }

    /// Detect the format of `input` and hand back the tree of a JSON document,
    /// so that its validation doubles as the parse.
    pub fn detect_with_metadata_and_value(input: &str) -> (r: (
        DetectionMetadata,
        Option<JsonValue>,
    ))
        ensures
            r.0@ == detection(input@, probed_value(input@) is Some),
            match r.1 {
                Some(v) => probed_value(input@) == Some(v@),
                None => probed_value(input@) is None,
            },
            r.1 matches Some(v) ==> v@ is Array || v@ is Object,
    {
        let value = if starts_container(input) {
            match read_json(input) {
                Ok(v) => Some(v),
                Err(_) => None,
            }
        } else {
            None
        };
        let json = value.is_some();
        (Self::detect_inner(input, json), value)
    }

    /// Detect the format of `input` given what the JSON probe found.
    fn detect_inner(input: &str, json: bool) -> (r: DetectionMetadata)
        ensures
            r@ == detection(input@, json),
    {
        let mut found: Vec<InputFormat> = Vec::new();
        if json {
            found.push(InputFormat::Json);
        }
        let line_count = Self::probe_jsonl(input);
        if line_count.is_some() {
            found.push(InputFormat::Jsonl);
        }
        if Self::probe_delimited(input, COMMA) {
            found.push(InputFormat::Csv);
        }
        if Self::probe_delimited(input, TAB) {
            found.push(InputFormat::Tsv);
        }
        assert(found@ =~= candidates(input@, json));
        let format = if found.len() > 0 {
            found[0]
        } else {
            InputFormat::Unknown
        };
        let confidence = match format {
            InputFormat::Json | InputFormat::Unknown => DetectionConfidence::Certain,
            _ => DetectionConfidence::Heuristic,
        };
        DetectionMetadata {
            format,
            confidence,
            ambiguous: found.len() > 1,
            line_count: if format == InputFormat::Jsonl {
                line_count
            } else {
                None
            },
            candidates: found,
        }
    }

    /// Detect the format and parse at once. An input of unknown format is an
    /// error.
    pub fn detect_and_parse(input: &str) -> (r: Result<(InputFormat, JsonValue), CoreError>)
        ensures
            match r {
                Ok(t) => t.0 == detected(input@).format && parse_as(t.0, input@) == Ok::<
                    Json,
                    Fault,
                >(t.1@),
                Err(e) => parse_as(detected(input@).format, input@) == Err::<Json, Fault>(e@),
            },
            (r matches Err(CoreError::ParseFailed { format, .. }) && format == InputFormat::Unknown)
                <==> detected(input@).format == InputFormat::Unknown,
            r matches Ok(t) ==> {
                &&& t.0 != InputFormat::Unknown
                &&& t.0 == InputFormat::Json ==> t.1@ is Array || t.1@ is Object
                &&& t.0 != InputFormat::Json ==> t.1@ is Array
            },
    {
        let fmt = Self::detect(input);
        let outcome = match fmt {
            InputFormat::Json => JsonParser.parse(input),
            InputFormat::Jsonl => JsonlParser.parse(input),
            InputFormat::Csv => CsvParser::csv().parse(input),
            InputFormat::Tsv => CsvParser::tsv().parse(input),
            InputFormat::Unknown => Err(
                CoreError::ParseFailed {
                    format: InputFormat::Unknown,
                    line: 0,
                    detail: "unknown format — no parser available".to_owned(),
                },
            ),
        };
        match outcome {
            Ok(v) => Ok((fmt, v)),
            Err(e) => Err(e),
        }
    }

    /// Probe for JSONL, counting the non-blank lines in the same pass.
    fn probe_jsonl(input: &str) -> (r: Option<usize>)
        ensures
            match r {
                Some(n) => jsonl_probe(input@) == Some(n as nat),
                None => jsonl_probe(input@) is None,
            },
    {
        let all = split_lines(input);
        let ghost rows = lines(input@);
        let ghost p = |line: Seq<char>| !is_blank(line);
        let mut checked: usize = 0;
        let mut count: usize = 0;
        let mut i: usize = 0;
        proof {
            assert(rows.take(0) =~= Seq::empty());
            lemma_filter_empty(p);
        }
        while i < all.len()
            invariant
                0 <= i <= all@.len(),
                texts(all@) == rows,
                rows == lines(input@),
                p == (|line: Seq<char>| !is_blank(line)),
                count == rows.take(i as int).filter(p).len(),
                count <= i,
                checked == if count < 2 {
                    count
                } else {
                    2
                },
                checked >= 1 ==> json_accepts(rows.take(i as int).filter(p)[0]),
                checked >= 2 ==> json_accepts(rows.take(i as int).filter(p)[1]),
            decreases all@.len() - i,
        {
            let line = all[i].as_str();
            let ghost part = rows.take(i as int);
            assert(line@ == rows[i as int]);
            proof {
                assert(rows.take(i + 1) =~= part.push(line@));
                lemma_filter_push(part, line@, p);
            }
            if !trim(line).as_str().is_empty() {
                if checked < 2 {
                    if !json_is_valid(line) {
                        proof {
                            lemma_filter_prefix(rows, i + 1, p);
                        }
                        return None;
                    }
                    checked = checked + 1;
                }
                count = count + 1;
            }
            i = i + 1;
        }
        assert(rows.take(rows.len() as int) =~= rows);
        if checked == 2 {
            Some(count)
        } else {
            None
        }
    }

    /// Probe for a table with this delimiter.
    fn probe_delimited(input: &str, delimiter: u8) -> (r: bool)
        ensures
            r == table_probe(input@, delimiter),
    {
        let width: usize = match read_csv_header(delimiter, input) {
            Ok(header) => header.len(),
            Err(_) => {
                return false;
            },
        };
        if width < 2 {
            return false;
        }
        let rows = read_csv_rows(delimiter, input, Some(1));
        let ghost named = csv_rows(delimiter, input@);
        assert(all_fields(rows@).len() == rows@.len());
        if rows.len() == 0 {
            return false;
        }
        assert(all_fields(rows@)[0] == fields(rows@[0]));
        assert(named[0] == all_fields(rows@)[0]);
        match &rows[0] {
            Ok(record) => record.len() == width,
            Err(_) => false,
        }
    }
}

/// The number of header columns, where the header can be read.
pub open spec fn header_width(delimiter: u8, input: Seq<char>) -> Option<usize> {
    match csv_header(delimiter, input) {
        Ok(header) => Some(header.len() as usize),
        Err(_) => None,
    }
}

} // verus!
