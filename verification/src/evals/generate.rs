//! Corpus generation: which payloads to ask a model for, the prompts, and what
//! becomes of its replies.

use vstd::prelude::*;
use crate::bindings::{to_uppercase, uppercase};
use crate::classifier::{shape_name, ShapeClass};
use crate::detector::{format_name, InputFormat};
use crate::evals::corpus::CorpusItem;
use crate::evals::toonkit::{parse_to_value, payload_value};
use crate::number::{count_text, decimal, decimal_text};
use crate::sequence::{lemma_filter_empty, lemma_filter_push};
use crate::text::{
    byte_len, bytes_in, chars_of, find_char, find_first, find_from, position, same_text,
    text_between, trim, trim_bounds, trimmed,
};

verus! {

// ---------------------------------------------------------------------------
// The plan
// ---------------------------------------------------------------------------

/// What a payload of a shape is to look like.
pub open spec fn instruction_for(shape: ShapeClass) -> Seq<char> {
    match shape {
        ShapeClass::Tabular => "a flat array of objects where EVERY object has the SAME set of scalar keys (uniform schema, no nesting). This is the bread-and-butter case for tabular compression."@,
        ShapeClass::FoldChain => "a deeply nested object: several levels of single-key wrapper objects (e.g. data->result->items) that finally contain a uniform array of objects at the leaf. Designed to exercise key folding."@,
        ShapeClass::PrimitiveArray => "a large flat array of primitive scalars only (numbers or short strings), no objects."@,
        ShapeClass::Mixed => "an array of objects with IRREGULAR schemas: objects have differing, partially-overlapping key sets and some nested sub-objects. Realistically messy."@,
        ShapeClass::PassThrough => "data that should NOT benefit from tabular compression: e.g. a single object with a few keys, or an array of only 2-3 dissimilar items. Keep it small and irregular."@,
    }
}

/// What a payload of a shape is to look like.
fn shape_instruction(shape: ShapeClass) -> (r: &'static str)
    ensures
        r@ == instruction_for(shape),
{
    match shape {
        ShapeClass::Tabular => "a flat array of objects where EVERY object has the SAME set of scalar keys (uniform schema, no nesting). This is the bread-and-butter case for tabular compression.",
        ShapeClass::FoldChain => "a deeply nested object: several levels of single-key wrapper objects (e.g. data->result->items) that finally contain a uniform array of objects at the leaf. Designed to exercise key folding.",
        ShapeClass::PrimitiveArray => "a large flat array of primitive scalars only (numbers or short strings), no objects.",
        ShapeClass::Mixed => "an array of objects with IRREGULAR schemas: objects have differing, partially-overlapping key sets and some nested sub-objects. Realistically messy.",
        ShapeClass::PassThrough => "data that should NOT benefit from tabular compression: e.g. a single object with a few keys, or an array of only 2-3 dissimilar items. Keep it small and irregular.",
    }
}

/// The number of domains that payloads rotate through.
pub const DOMAIN_COUNT: usize = 12;

/// The domain at a place of the rotation.
pub open spec fn domain_at(i: nat) -> Seq<char> {
    if i == 0 {
        "ecommerce order line items"@
    } else if i == 1 {
        "iot sensor telemetry readings"@
    } else if i == 2 {
        "user account directory records"@
    } else if i == 3 {
        "financial transaction ledger entries"@
    } else if i == 4 {
        "github-style issue tracker tickets"@
    } else if i == 5 {
        "flight schedule departures"@
    } else if i == 6 {
        "clinical lab result panels"@
    } else if i == 7 {
        "server access log events"@
    } else if i == 8 {
        "product catalog inventory"@
    } else if i == 9 {
        "sports match statistics"@
    } else if i == 10 {
        "geographic place-of-interest listings"@
    } else {
        "music streaming play history"@
    }
}

/// The domain at a place of the rotation.
fn domain(i: usize) -> (r: &'static str)
    ensures
        r@ == domain_at(i as nat),
{
    if i == 0 {
        "ecommerce order line items"
    } else if i == 1 {
        "iot sensor telemetry readings"
    } else if i == 2 {
        "user account directory records"
    } else if i == 3 {
        "financial transaction ledger entries"
    } else if i == 4 {
        "github-style issue tracker tickets"
    } else if i == 5 {
        "flight schedule departures"
    } else if i == 6 {
        "clinical lab result panels"
    } else if i == 7 {
        "server access log events"
    } else if i == 8 {
        "product catalog inventory"
    } else if i == 9 {
        "sports match statistics"
    } else if i == 10 {
        "geographic place-of-interest listings"
    } else {
        "music streaming play history"
    }
}

/// The shapes that make sense for a format, in order.
pub open spec fn shapes_for(format: InputFormat) -> Seq<ShapeClass> {
    match format {
        InputFormat::Json => seq![
            ShapeClass::Tabular,
            ShapeClass::FoldChain,
            ShapeClass::PrimitiveArray,
            ShapeClass::Mixed,
            ShapeClass::PassThrough,
        ],
        InputFormat::Jsonl => seq![ShapeClass::Tabular, ShapeClass::Mixed],
        InputFormat::Csv => seq![ShapeClass::Tabular],
        InputFormat::Tsv => seq![ShapeClass::Tabular],
        InputFormat::Unknown => Seq::empty(),
    }
}

/// The record counts to ask for in a format, in order.
pub open spec fn sizes_for(format: InputFormat) -> Seq<u32> {
    match format {
        InputFormat::Json => seq![12u32, 40, 120],
        InputFormat::Jsonl => seq![15u32, 60, 150],
        InputFormat::Csv => seq![20u32, 80, 200],
        InputFormat::Tsv => seq![20u32, 80],
        InputFormat::Unknown => Seq::empty(),
    }
}

/// One combination of format, shape and record count.
#[derive(Debug, Clone, Copy, PartialEq, Eq, Structural)]
pub struct Combination {
    /// The format.
    pub format: InputFormat,
    /// The shape.
    pub shape: ShapeClass,
    /// The approximate record count.
    pub records: u32,
}

/// The combinations of a format: every shape with every record count.
pub open spec fn combinations_of(format: InputFormat) -> Seq<Combination> {
    let shapes = shapes_for(format);
    let sizes = sizes_for(format);
    Seq::new(
        shapes.len() * sizes.len(),
        |i: int|
            Combination {
                format,
                shape: shapes[i / sizes.len() as int],
                records: sizes[i % sizes.len() as int],
            },
    )
}

/// All combinations, in the order in which they are generated.
pub open spec fn all_combinations() -> Seq<Combination> {
    combinations_of(InputFormat::Json) + combinations_of(InputFormat::Jsonl) + combinations_of(
        InputFormat::Csv,
    ) + combinations_of(InputFormat::Tsv)
}

/// Appends the combinations of a format.
fn push_combinations(
    out: &mut Vec<Combination>,
    format: InputFormat,
    shapes: Vec<ShapeClass>,
    sizes: Vec<u32>,
)
    requires
        shapes@ == shapes_for(format),
        sizes@ == sizes_for(format),
        0 < sizes@.len() < 10,
        shapes@.len() < 10,
    ensures
        final(out)@ == old(out)@ + combinations_of(format),
{
    let ghost before = out@;
    let m = sizes.len();
    assert(shapes@.len() * m < 100) by (nonlinear_arith)
        requires
            shapes@.len() < 10,
            m < 10,
    ;
    let total: usize = shapes.len() * m;
    let mut i: usize = 0;
    while i < total
        invariant
            0 <= i <= total,
            m == sizes@.len(),
            0 < m < 10,
            total == shapes@.len() * m,
            shapes@ == shapes_for(format),
            sizes@ == sizes_for(format),
            out@ =~= before + combinations_of(format).take(i as int),
        decreases total - i,
    {
        assert(i / m < shapes@.len()) by (nonlinear_arith)
            requires
                i < total,
                total == shapes@.len() * m,
                m > 0,
        ;
        let next = Combination { format, shape: shapes[i / m], records: sizes[i % m] };
        assert(combinations_of(format)[i as int] == next);
        out.push(next);
        i = i + 1;
    }
    assert(combinations_of(format).take(total as int) =~= combinations_of(format));
}

/// All combinations.
pub fn combinations() -> (r: Vec<Combination>)
    ensures
        r@ == all_combinations(),
{
    let mut out: Vec<Combination> = Vec::new();
    let json_shapes = vec![
        ShapeClass::Tabular,
        ShapeClass::FoldChain,
        ShapeClass::PrimitiveArray,
        ShapeClass::Mixed,
        ShapeClass::PassThrough,
    ];
    let json_sizes: Vec<u32> = vec![12, 40, 120];
    assert(json_shapes@ =~= shapes_for(InputFormat::Json));
    assert(json_sizes@ =~= sizes_for(InputFormat::Json));
    push_combinations(&mut out, InputFormat::Json, json_shapes, json_sizes);
    let jsonl_shapes = vec![ShapeClass::Tabular, ShapeClass::Mixed];
    let jsonl_sizes: Vec<u32> = vec![15, 60, 150];
    assert(jsonl_shapes@ =~= shapes_for(InputFormat::Jsonl));
    assert(jsonl_sizes@ =~= sizes_for(InputFormat::Jsonl));
    push_combinations(&mut out, InputFormat::Jsonl, jsonl_shapes, jsonl_sizes);
    let csv_shapes = vec![ShapeClass::Tabular];
    let csv_sizes: Vec<u32> = vec![20, 80, 200];
    assert(csv_shapes@ =~= shapes_for(InputFormat::Csv));
    assert(csv_sizes@ =~= sizes_for(InputFormat::Csv));
    push_combinations(&mut out, InputFormat::Csv, csv_shapes, csv_sizes);
    let tsv_shapes = vec![ShapeClass::Tabular];
    let tsv_sizes: Vec<u32> = vec![20, 80];
    assert(tsv_shapes@ =~= shapes_for(InputFormat::Tsv));
    assert(tsv_sizes@ =~= sizes_for(InputFormat::Tsv));
    push_combinations(&mut out, InputFormat::Tsv, tsv_shapes, tsv_sizes);
    assert(out@ =~= all_combinations());
    out
}

// ---------------------------------------------------------------------------
// Prompts
// ---------------------------------------------------------------------------

/// The instruction that goes before every request.
pub open spec fn system_text(format: Seq<char>) -> Seq<char> {
    "You are a synthetic data generator. Output ONLY raw "@ + uppercase(format)
        + " data and nothing else: no explanation, no commentary, no markdown code fences, no leading or trailing text. The very first character of your reply must be the first character of the "@
        + uppercase(format)
        + " payload. Make the data realistic and varied with plausible values."@
}

/// The instruction that goes before every request.
pub fn system_prompt(format: &str) -> (r: String)
    ensures
        r@ == system_text(format@),
{
    let upper = to_uppercase(format);
    "You are a synthetic data generator. Output ONLY raw ".to_owned().concat(
        upper.as_str(),
    ).concat(
        " data and nothing else: no explanation, no commentary, no markdown code fences, no leading or trailing text. The very first character of your reply must be the first character of the ",
    ).concat(upper.as_str()).concat(
        " payload. Make the data realistic and varied with plausible values.",
    )
}

/// What a payload in a format is to look like.
pub open spec fn format_hint(format: Seq<char>) -> Seq<char> {
    if format == "json"@ {
        "Produce a single valid JSON document."@
    } else if format == "jsonl"@ {
        "Produce JSONL: one valid JSON object per line, newline-separated, no enclosing array."@
    } else if format == "csv"@ {
        "Produce CSV with a header row followed by data rows."@
    } else if format == "tsv"@ {
        "Produce TSV (tab-separated) with a header row followed by data rows."@
    } else {
        ""@
    }
}

/// The request for one payload.
pub open spec fn user_text(
    format: Seq<char>,
    shape: ShapeClass,
    domain: Seq<char>,
    records: nat,
) -> Seq<char> {
    "Domain: "@ + domain + ".\nStructure: "@ + instruction_for(shape) + "\nTarget size: about "@
        + decimal(records) + " records/rows.\n"@ + format_hint(format)
}

/// The request for one payload.
pub fn user_prompt(format: &str, shape: ShapeClass, domain: &str, records: u32) -> (r: String)
    ensures
        r@ == user_text(format@, shape, domain@, records as nat),
{
    let hint = if same_text(format, "json") {
        "Produce a single valid JSON document."
    } else if same_text(format, "jsonl") {
        "Produce JSONL: one valid JSON object per line, newline-separated, no enclosing array."
    } else if same_text(format, "csv") {
        "Produce CSV with a header row followed by data rows."
    } else if same_text(format, "tsv") {
        "Produce TSV (tab-separated) with a header row followed by data rows."
    } else {
        ""
    };
    "Domain: ".to_owned().concat(domain).concat(".\nStructure: ").concat(
        shape_instruction(shape),
    ).concat("\nTarget size: about ").concat(decimal_text(records as u64).as_str()).concat(
        " records/rows.\n",
    ).concat(hint)
}

// ---------------------------------------------------------------------------
// Replies
// ---------------------------------------------------------------------------

/// The contents of the first fenced block of a reply, its language tag dropped;
/// the whole reply where there is no fence.
pub open spec fn unfenced(s: Seq<char>) -> Seq<char> {
    match find_from(s, "```"@, 0) {
        None => s,
        Some(start) => {
            let after = s.skip(start + 3);
            let line_end = position(after, '\n');
            let body = if line_end < after.len() {
                after.skip(line_end + 1)
            } else {
                after
            };
            match find_from(body, "```"@, 0) {
                Some(end) => trimmed(body.take(end)),
                None => trimmed(body),
            }
        },
    }
}

/// Index of the first bracket that opens a container, or the length.
pub open spec fn first_opening(s: Seq<char>) -> int
    decreases s.len(),
{
    if s.len() == 0 || s[0] == '{' || s[0] == '[' {
        0
    } else {
        1 + first_opening(s.drop_first())
    }
}

/// Index behind the last bracket that closes a container, or zero.
pub open spec fn last_closing(s: Seq<char>) -> int
    decreases s.len(),
{
    if s.len() == 0 || s.last() == '}' || s.last() == ']' {
        s.len() as int
    } else {
        last_closing(s.drop_last())
    }
}

/// A JSON reply clipped to its outermost brackets.
pub open spec fn clipped(s: Seq<char>) -> Seq<char> {
    let lo = first_opening(s);
    let hi = last_closing(s);
    if lo < hi {
        s.subrange(lo, hi)
    } else {
        s
    }
}

/// The payload of a reply, without fences and stray prose.
pub open spec fn sanitized(raw: Seq<char>, format: Seq<char>) -> Seq<char> {
    let body = unfenced(trimmed(raw));
    if format == "json"@ {
        clipped(body)
    } else {
        body
    }
}

/// Finds the contents of the first fenced block.
fn unfence(s: &str) -> (r: String)
    ensures
        r@ == unfenced(s@),
{
    proof {
        reveal_strlit("```");
    }
    let chars = chars_of(s);
    let n = chars.len();
    let start: usize = match find_first(&chars, "```") {
        None => {
            return s.to_owned();
        },
        Some(at) => at + 3,
    };
    let ghost after = chars@.skip(start as int);
    assert(chars@.subrange(start as int, n as int) =~= after);
    let line_end = find_char(&chars, start, n, '\n');
    let from: usize = if line_end < n {
        line_end + 1
    } else {
        start
    };
    let body = chars_of(text_between(&chars, from, n).as_str());
    assert(body@ =~= if line_end < n {
        after.skip(line_end - start + 1)
    } else {
        after
    });
    let end: usize = match find_first(&body, "```") {
        Some(end) => end,
        None => body.len(),
    };
    let (lo, hi) = trim_bounds(&body, 0, end);
    assert(body@.subrange(0, end as int) =~= body@.take(end as int));
    assert(body@.take(body@.len() as int) =~= body@);
    text_between(&body, lo, hi)
}

/// Clips a JSON reply to its outermost brackets.
fn clip(s: &str) -> (r: String)
    ensures
        r@ == clipped(s@),
{
    let chars = chars_of(s);
    let n = chars.len();
    let mut lo: usize = 0;
    assert(chars@.skip(0) =~= chars@);
    while lo < n && chars[lo] != '{' && chars[lo] != '['
        invariant
            0 <= lo <= n,
            n == chars@.len(),
            lo + first_opening(chars@.skip(lo as int)) == first_opening(chars@),
        decreases n - lo,
    {
        assert(chars@.skip(lo as int).drop_first() =~= chars@.skip(lo + 1));
        lo = lo + 1;
    }
    let mut hi: usize = n;
    assert(chars@.take(n as int) =~= chars@);
    while hi > 0 && chars[hi - 1] != '}' && chars[hi - 1] != ']'
        invariant
            0 <= hi <= n,
            n == chars@.len(),
            last_closing(chars@.take(hi as int)) == last_closing(chars@),
        decreases hi,
    {
        assert(chars@.take(hi as int).drop_last() =~= chars@.take(hi - 1));
        hi = hi - 1;
    }
    assert(lo == first_opening(chars@));
    assert(hi == last_closing(chars@));
    if lo < hi {
        text_between(&chars, lo, hi)
    } else {
        s.to_owned()
    }
}

/// Strips what models wrap payloads in: leading prose, fences, trailing chatter.
pub fn sanitize(raw: &str, format: &str) -> (r: String)
    ensures
        r@ == sanitized(raw@, format@),
{
    let body = unfence(trim(raw).as_str());
    if same_text(format, "json") {
        clip(body.as_str())
    } else {
        body
    }
}

// ---------------------------------------------------------------------------
// The generator
// ---------------------------------------------------------------------------

/// Settings of corpus generation, apart from the sampling temperature.
#[derive(Debug, Clone, Copy, PartialEq, Eq, Structural)]
pub struct GenConfig {
    /// Token limit of a reply.
    pub max_tokens: u32,
    /// How many payloads to ask for per combination.
    pub per_cell: usize,
    /// Retries where a payload does not parse.
    pub max_retries: usize,
}

impl Default for GenConfig {
    fn default() -> (r: Self)
        ensures
            r == (GenConfig { max_tokens: 4096, per_cell: 1, max_retries: 2 }),
    {
        Self { max_tokens: 4096, per_cell: 1, max_retries: 2 }
    }
}

/// Where generation stands.
#[derive(Debug, Clone, Copy, PartialEq, Eq, Structural)]
pub struct Progress {
    /// Index of the current combination.
    pub combination: usize,
    /// Payload within the combination.
    pub cell: usize,
    /// Attempts made for the payload so far.
    pub attempt: usize,
    /// Place in the rotation of domains.
    pub domain: usize,
    /// One-based number of the payload.
    pub seq: u64,
    /// Payloads accepted.
    pub accepted: u64,
    /// Attempts made in all.
    pub attempted: u64,
}

/// A request to send to the model.
#[derive(Debug)]
pub struct Prompt {
    /// The instruction.
    pub system: String,
    /// The request.
    pub user: String,
}

/// What becomes of a reply.
#[derive(Debug)]
pub enum Verdict {
    /// The payload is kept.
    Accepted(CorpusItem),
    /// The request is to be sent again.
    Retry,
    /// The payload is given up.
    GaveUp,
}

/// The progress after a payload is settled: the next payload of the combination,
/// or the first of the next.
pub open spec fn advanced(p: Progress, per_cell: nat) -> Progress {
    Progress {
        combination: if p.cell + 1 < per_cell {
            p.combination
        } else {
            (p.combination + 1) as usize
        },
        cell: if p.cell + 1 < per_cell {
            (p.cell + 1) as usize
        } else {
            0
        },
        attempt: 0,
        domain: ((p.domain + 1) % (DOMAIN_COUNT as int)) as usize,
        seq: ((p.seq + 1) % 0x1_0000_0000_0000_0000) as u64,
        ..p
    }
}

/// Where generation starts. Numbering starts at one.
pub open spec fn at_start() -> Progress {
    Progress { combination: 0, cell: 0, attempt: 0, domain: 0, seq: 1, accepted: 0, attempted: 0 }
}

/// Whether every payload is settled. Without payloads per combination there is
/// nothing to do.
pub open spec fn settles_all(p: Progress, config: GenConfig) -> bool {
    config.per_cell == 0 || p.combination >= all_combinations().len()
}

/// The progress after a reply: a usable one settles the payload, any other does
/// so once the retries are spent.
pub open spec fn replied(p: Progress, config: GenConfig, usable: bool) -> Progress {
    let tried = Progress {
        attempted: ((p.attempted + 1) % 0x1_0000_0000_0000_0000) as u64,
        ..p
    };
    if usable {
        advanced(
            Progress {
                accepted: ((p.accepted + 1) % 0x1_0000_0000_0000_0000) as u64,
                ..tried
            },
            config.per_cell as nat,
        )
    } else if p.attempt < config.max_retries {
        Progress { attempt: (p.attempt + 1) as usize, ..tried }
    } else {
        advanced(tried, config.per_cell as nat)
    }
}

/// The payload of a usable reply: not empty and parseable as its format.
pub open spec fn usable(reply: Option<Seq<char>>, format: Seq<char>) -> Option<Seq<char>> {
    match reply {
        None => None,
        Some(raw) => {
            let payload = sanitized(raw, format);
            if payload.len() > 0 && payload_value(format, payload, true) is Ok {
                Some(payload)
            } else {
                None
            }
        },
    }
}

/// The identifier of a payload.
pub open spec fn item_id(c: Combination, p: Progress) -> Seq<char> {
    format_name(c.format) + "-"@ + shape_name(c.shape) + "-"@ + decimal(c.records as nat) + "-"@
        + decimal(p.cell as nat) + "-"@ + decimal(p.seq as nat)
}

/// Whether `item` is the payload as a corpus item.
pub open spec fn is_item(item: CorpusItem, c: Combination, p: Progress, payload: Seq<char>) -> bool {
    &&& item.id@ == item_id(c, p)
    &&& item.format@ == format_name(c.format)
    &&& item.category@ == domain_at(p.domain as nat)
    &&& item.intended_shape@ == shape_name(c.shape)
    &&& item.payload@ == payload
    &&& item.bytes == byte_len(payload)
}

/// The state of corpus generation. It asks for each payload until a usable reply
/// comes or the retries are spent.
pub struct Generator {
    plan: Vec<Combination>,
    config: GenConfig,
    progress: Progress,
}

impl View for Generator {
    type V = Progress;

    closed spec fn view(&self) -> Progress {
        self.progress
    }
}

impl Generator {
    /// The settings.
    pub closed spec fn settings(&self) -> GenConfig {
        self.config
    }

    /// Whether the state is within the plan.
    pub closed spec fn well_formed(&self) -> bool {
        &&& self.plan@ == all_combinations()
        &&& self.progress.combination <= self.plan@.len()
        &&& self.progress.domain < DOMAIN_COUNT
        &&& self.config.per_cell > 0 ==> self.progress.cell < self.config.per_cell
        &&& self.progress.attempt <= self.config.max_retries
    }

    /// The start of generation.
    pub fn new(config: GenConfig) -> (r: Self)
        ensures
            r.well_formed(),
            r.settings() == config,
            r@ == at_start(),
    {
        Self {
            plan: combinations(),
            config,
            progress: Progress {
                combination: 0,
                cell: 0,
                attempt: 0,
                domain: 0,
                seq: 1,
                accepted: 0,
                attempted: 0,
            },
        }
    }

    /// Whether every payload is settled.
    pub open spec fn is_done(&self) -> bool {
        settles_all(self@, self.settings())
    }

    /// Where generation stands.
    pub fn progress(&self) -> (r: Progress)
        ensures
            r == self@,
    {
        self.progress
    }

    /// The request to send next; nothing when generation is done.
    pub fn prompt(&self) -> (r: Option<Prompt>)
        requires
            self.well_formed(),
        ensures
            r is None <==> self.is_done(),
            r matches Some(p) ==> {
                let c = all_combinations()[self@.combination as int];
                &&& p.system@ == system_text(format_name(c.format))
                &&& p.user@ == user_text(
                    format_name(c.format),
                    c.shape,
                    domain_at(self@.domain as nat),
                    c.records as nat,
                )
            },
    {
        if self.config.per_cell == 0 || self.progress.combination >= self.plan.len() {
            return None;
        }
        let c = self.plan[self.progress.combination];
        let format = c.format.as_str();
        Some(
            Prompt {
                system: system_prompt(format),
                user: user_prompt(format, c.shape, domain(self.progress.domain), c.records),
            },
        )
    }

    /// Take in the reply to the current request, or its absence.
    pub fn on_reply(&mut self, reply: Option<&str>) -> (r: Verdict)
        requires
            old(self).well_formed(),
            !old(self).is_done(),
        ensures
            final(self).well_formed(),
            final(self).settings() == old(self).settings(),
            ({
                let c = all_combinations()[old(self)@.combination as int];
                let text = match reply {
                    Some(t) => Some(t@),
                    None => None,
                };
                let found = usable(text, format_name(c.format));
                &&& final(self)@ == replied(old(self)@, old(self).settings(), found is Some)
                &&& match found {
                    Some(payload) => {
                        &&& r is Accepted
                        &&& is_item(r->Accepted_0, c, old(self)@, payload)
                    },
                    None => if old(self)@.attempt < old(self).settings().max_retries {
                        r is Retry
                    } else {
                        r is GaveUp
                    },
                }
            }),
    {
        let c = self.plan[self.progress.combination];
        let format = c.format.as_str();
        let here = self.progress;
        self.progress.attempted = self.progress.attempted.wrapping_add(1);
        let payload: Option<String> = match reply {
            None => None,
            Some(raw) => {
                let payload = sanitize(raw, format);
                if payload.as_str().is_empty() {
                    None
                } else {
                    match parse_to_value(format, payload.as_str(), true) {
                        Ok(_) => Some(payload),
                        Err(_) => None,
                    }
                }
            },
        };
        match payload {
            Some(payload) => {
                let id = format.to_owned().concat("-").concat(c.shape.as_str()).concat("-").concat(
                    decimal_text(c.records as u64).as_str(),
                ).concat("-").concat(count_text(here.cell).as_str()).concat("-").concat(
                    decimal_text(here.seq).as_str(),
                );
                let bytes = bytes_in(payload.as_str());
                let item = CorpusItem {
                    id,
                    format: format.to_owned(),
                    category: domain(here.domain).to_owned(),
                    intended_shape: c.shape.as_str().to_owned(),
                    payload,
                    bytes,
                };
                self.progress.accepted = self.progress.accepted.wrapping_add(1);
                self.advance();
                Verdict::Accepted(item)
            },
            None => {
                if here.attempt < self.config.max_retries {
                    self.progress.attempt = here.attempt + 1;
                    Verdict::Retry
                } else {
                    self.advance();
                    Verdict::GaveUp
                }
            },
        }
    }

    /// Go on to the next payload.
    fn advance(&mut self)
        requires
            old(self).plan@ == all_combinations(),
            old(self).progress.combination < old(self).plan@.len(),
            old(self).progress.domain < DOMAIN_COUNT,
            old(self).progress.cell < old(self).config.per_cell,
        ensures
            final(self).plan@ == old(self).plan@,
            final(self).config == old(self).config,
            final(self).progress == advanced(
                old(self).progress,
                old(self).config.per_cell as nat,
            ),
            final(self).well_formed(),
    {
        if self.progress.cell + 1 < self.config.per_cell {
            self.progress.cell = self.progress.cell + 1;
        } else {
            self.progress.cell = 0;
            let bound = self.plan.len();
            assert(self.progress.combination < bound);
            self.progress.combination = self.progress.combination + 1;
        }
        self.progress.attempt = 0;
        self.progress.domain = (self.progress.domain + 1) % DOMAIN_COUNT;
        self.progress.seq = self.progress.seq.wrapping_add(1);
    }
}

// ---------------------------------------------------------------------------
// A run of generation
// ---------------------------------------------------------------------------

/// The progress after a run of replies, each usable or not.
pub open spec fn after_replies(config: GenConfig, usable: Seq<bool>) -> Progress
    decreases usable.len(),
{
    if usable.len() == 0 {
        at_start()
    } else {
        replied(after_replies(config, usable.drop_last()), config, usable.last())
    }
}

/// Whether generation asks for each of these replies: before none of them is it
/// done.
pub open spec fn is_run(config: GenConfig, usable: Seq<bool>) -> bool {
    forall|k: int|
        0 <= k < usable.len() ==> !settles_all(
            #[trigger] after_replies(config, usable.take(k)),
            config,
        )
}

/// The number of payloads that generation asks for.
pub open spec fn payload_count(config: GenConfig) -> nat {
    all_combinations().len() * config.per_cell as nat
}

/// The payloads that are settled.
spec fn settled_count(p: Progress, config: GenConfig) -> int {
    p.combination * config.per_cell + p.cell
}

/// What holds at every point of a run.
spec fn on_track(p: Progress, config: GenConfig) -> bool {
    let settled = settled_count(p, config);
    &&& p.combination <= all_combinations().len()
    &&& config.per_cell > 0 ==> p.cell < config.per_cell
    &&& p.combination == all_combinations().len() ==> p.cell == 0 && p.attempt == 0
    &&& p.attempt <= config.max_retries
    &&& p.accepted <= settled
    &&& settled + p.attempt <= p.attempted
    &&& p.attempted <= settled * (config.max_retries + 1) + p.attempt
    &&& settled <= payload_count(config)
}

proof fn lemma_format_size(format: InputFormat, shapes: nat, sizes: nat)
    requires
        shapes_for(format).len() == shapes,
        sizes_for(format).len() == sizes,
    ensures
        combinations_of(format).len() == shapes * sizes,
{
}

/// There are 26 combinations.
proof fn lemma_plan_size()
    ensures
        all_combinations().len() == 26,
{
    lemma_format_size(InputFormat::Json, 5, 3);
    lemma_format_size(InputFormat::Jsonl, 2, 3);
    lemma_format_size(InputFormat::Csv, 1, 3);
    lemma_format_size(InputFormat::Tsv, 1, 2);
}

proof fn lemma_on_track(p: Progress, config: GenConfig, usable: bool)
    requires
        on_track(p, config),
        !settles_all(p, config),
        payload_count(config) * (config.max_retries + 1) <= u64::MAX,
    ensures
        on_track(replied(p, config, usable), config),
        replied(p, config, usable).attempted == p.attempted + 1,
        replied(p, config, usable).accepted == p.accepted + if usable {
            1int
        } else {
            0
        },
{
    lemma_plan_size();
    let n = all_combinations().len() as int;
    let size = config.per_cell as int;
    let tries = config.max_retries + 1;
    let settled = settled_count(p, config);
    let c = p.combination as int;
    assert(c * size + size == (c + 1) * size) by (nonlinear_arith);
    assert((c + 1) * size <= n * size) by (nonlinear_arith)
        requires
            c + 1 <= n,
            size >= 0,
    ;
    assert(settled + 1 <= payload_count(config));
    assert((settled + 1) * tries == settled * tries + tries) by (nonlinear_arith);
    assert((settled + 1) * tries <= payload_count(config) * tries) by (nonlinear_arith)
        requires
            settled + 1 <= payload_count(config),
            tries >= 1,
    ;
    assert(settled + 1 <= (settled + 1) * tries) by (nonlinear_arith)
        requires
            settled + 1 >= 0,
            tries >= 1,
    ;
    let next = replied(p, config, usable);
    if next.attempt == 0 && (usable || p.attempt >= config.max_retries) {
        assert(settled_count(next, config) == settled + 1);
    } else {
        assert(settled_count(next, config) == settled);
    }
}

/// A run of generation is bounded: each reply counts as one attempt and each
/// usable one as accepted, no more is accepted than was asked for, every payload
/// takes at least one attempt and at most one more than the retries. This holds
/// as long as the counters do not wrap.
pub proof fn generation_is_bounded(config: GenConfig, usable: Seq<bool>)
    requires
        is_run(config, usable),
        payload_count(config) * (config.max_retries + 1) <= u64::MAX,
    ensures
        payload_count(config) == 26 * config.per_cell,
        ({
            let p = after_replies(config, usable);
            &&& p.attempted == usable.len()
            &&& p.accepted == usable.filter(|u: bool| u).len()
            &&& p.accepted <= payload_count(config)
            &&& p.attempted <= payload_count(config) * (config.max_retries + 1)
            &&& settles_all(p, config) ==> payload_count(config) <= p.attempted
        }),
{
    lemma_plan_size();
    lemma_run(config, usable);
    let p = after_replies(config, usable);
    let settled = settled_count(p, config);
    let total = payload_count(config) as int;
    let tries = config.max_retries + 1;
    if config.per_cell == 0 {
        if usable.len() > 0 {
            assert(!settles_all(after_replies(config, usable.take(0)), config));
        }
    } else if p.combination == all_combinations().len() {
        assert(settled == total);
    } else {
        let c = p.combination as int;
        let size = config.per_cell as int;
        assert(c * size + size == (c + 1) * size) by (nonlinear_arith);
        assert((c + 1) * size <= 26 * size) by (nonlinear_arith)
            requires
                c + 1 <= 26,
                size >= 0,
        ;
        assert((settled + 1) * tries == settled * tries + tries) by (nonlinear_arith);
        assert((settled + 1) * tries <= total * tries) by (nonlinear_arith)
            requires
                settled + 1 <= total,
                tries >= 1,
        ;
    }
}

proof fn lemma_run(config: GenConfig, usable: Seq<bool>)
    requires
        is_run(config, usable),
        payload_count(config) * (config.max_retries + 1) <= u64::MAX,
    ensures
        on_track(after_replies(config, usable), config),
        after_replies(config, usable).attempted == usable.len(),
        after_replies(config, usable).accepted == usable.filter(|u: bool| u).len(),
    decreases usable.len(),
{
    lemma_plan_size();
    let kept = |u: bool| u;
    if usable.len() == 0 {
        assert(usable =~= Seq::empty());
        lemma_filter_empty(kept);
    } else {
        let front = usable.drop_last();
        assert forall|k: int| 0 <= k < front.len() implies !settles_all(
            #[trigger] after_replies(config, front.take(k)),
            config,
        ) by {
            assert(front.take(k) =~= usable.take(k));
        }
        assert(usable.take(usable.len() - 1) =~= front);
        lemma_run(config, front);
        lemma_on_track(after_replies(config, front), config, usable.last());
        assert(front.push(usable.last()) =~= usable);
        lemma_filter_push(front, usable.last(), kept);
    }
}

} // verus!
