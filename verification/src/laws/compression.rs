//! What compression returns for an input.

use vstd::prelude::*;
use vstd::arithmetic::power::pow;
use crate::bindings::{json_reading, toon_encoding};
use crate::classifier::{shape_of, ClassifyConfig, ShapeClass};
use crate::compressor::{
    decision, reason_name, reported_detection, CompressConfig, Decision, Reason,
};
use crate::detector::{detected, DetectionConfidence, InputFormat};
use crate::error::{fault_message, Fault};
use crate::laws::{is_line, joined, jsonl_reads_line_by_line};
use crate::parser::csv::table;
use crate::parser::json::json_document;
use crate::parser::jsonl::jsonl_reading;
use crate::parser::without_bom;
use crate::ratio::{pow10, Ratio};
use crate::text::{byte_len, trimmed};
use crate::value::Json;

verus! {

/// What the parser for a format reads from an input, with commas and tabs for
/// the two kinds of tables.
pub open spec fn read_by_its_parser(format: InputFormat, coerce: bool, input: Seq<char>) -> Result<
    Json,
    Fault,
> {
    match format {
        InputFormat::Json => json_document(input),
        InputFormat::Jsonl => jsonl_reading(input),
        InputFormat::Csv => match table(0x2c, coerce, input) {
            Ok(t) => Ok(t.0),
            Err(e) => Err(e),
        },
        InputFormat::Tsv => match table(0x09, coerce, input) {
            Ok(t) => Ok(t.0),
            Err(e) => Err(e),
        },
        InputFormat::Unknown => Err(Fault::JsonError(Seq::empty())),
    }
}

/// Whether the input's length is between the two gates.
pub open spec fn has_admitted_length(config: CompressConfig, input: Seq<char>) -> bool {
    config.min_bytes <= byte_len(input) <= config.max_input_bytes
}

/// Whether `part` bytes are shorter than `whole` bytes and at most the ratio of
/// them.
pub open spec fn is_short_enough(part: nat, whole: nat, ratio: Ratio) -> bool {
    part < whole && part * pow(10, ratio.places as nat) <= ratio.digits * whole
}

/// Powers of ten, counted either way.
pub proof fn lemma_powers_of_ten(n: nat)
    ensures
        pow10(n) == pow(10, n),
    decreases n,
{
    reveal(pow);
    if n > 0 {
        lemma_powers_of_ten((n - 1) as nat);
    }
}

/// Compressed text carries the whole data: it is the encoding, under the
/// configured options, of the value that the parser for the detected format
/// reads from the whole input, and that value has the reported shape.
pub proof fn compressed_text_carries_the_whole_value(config: CompressConfig, input: Seq<char>)
    ensures
        decision(config, input).0 matches Decision::Compressed {
            toon,
            original_bytes,
            input_format,
            shape_class,
        } ==> {
            &&& has_admitted_length(config, input)
            &&& original_bytes == byte_len(input)
            &&& input_format == detected(input).format
            &&& input_format != InputFormat::Unknown
            &&& is_short_enough(byte_len(toon), byte_len(input), config.max_output_ratio)
            &&& read_by_its_parser(input_format, config.csv_numeric_coercion, input) matches Ok(v)
                && toon_encoding(v, config.delimiter, config.key_folding) == Ok::<
                Seq<char>,
                Seq<char>,
            >(toon) && shape_class != ShapeClass::PassThrough && shape_class == shape_of(
                v,
                ClassifyConfig {
                    tabular_min_rows: config.tabular_min_rows,
                    fold_min_depth: config.fold_min_depth,
                    primitive_array_min: config.primitive_array_min,
                },
            )
        },
{
    lemma_powers_of_ten(config.max_output_ratio.places as nat);
}

/// A JSONL stream loses no row: where the documents on its lines read as
/// `values`, the compressed text is the encoding of the array of all of them.
pub proof fn compressed_streams_keep_every_row(
    config: CompressConfig,
    rows: Seq<Seq<char>>,
    values: Seq<Json>,
)
    requires
        rows.len() == values.len(),
        forall|i: int|
            0 <= i < rows.len() ==> is_line(#[trigger] rows[i]) && trimmed(rows[i]) == rows[i]
                && json_reading(rows[i]) == Ok::<Json, Seq<char>>(values[i]),
        without_bom(joined(rows)) == joined(rows),
        detected(joined(rows)).format == InputFormat::Jsonl,
    ensures
        decision(config, joined(rows)).0 matches Decision::Compressed { toon, .. }
            ==> toon_encoding(Json::Array(values), config.delimiter, config.key_folding) == Ok::<
            Seq<char>,
            Seq<char>,
        >(toon),
{
    jsonl_reads_line_by_line(rows, values);
    compressed_text_carries_the_whole_value(config, joined(rows));
}

/// What can be compressed is: an input of admitted length that reads as a value
/// of a beneficial shape, whose encoding is short enough, comes back as that
/// encoding.
pub proof fn worthwhile_inputs_are_compressed(
    config: CompressConfig,
    input: Seq<char>,
    value: Json,
    toon: Seq<char>,
)
    requires
        has_admitted_length(config, input),
        detected(input).format != InputFormat::Unknown,
        read_by_its_parser(detected(input).format, config.csv_numeric_coercion, input) == Ok::<
            Json,
            Fault,
        >(value),
        shape_of(
            value,
            ClassifyConfig {
                tabular_min_rows: config.tabular_min_rows,
                fold_min_depth: config.fold_min_depth,
                primitive_array_min: config.primitive_array_min,
            },
        ) != ShapeClass::PassThrough,
        toon_encoding(value, config.delimiter, config.key_folding) == Ok::<Seq<char>, Seq<char>>(
            toon,
        ),
        is_short_enough(byte_len(toon), byte_len(input), config.max_output_ratio),
    ensures
        decision(config, input).0 matches Decision::Compressed { toon: output, .. } && output
            == toon,
{
    lemma_powers_of_ten(config.max_output_ratio.places as nat);
}

/// Every pass-through says why, and the reason is the first that applies: too
/// long, too short, no known format, not readable, no beneficial shape, not
/// encodable, not short enough.
pub proof fn pass_through_names_the_first_obstacle(config: CompressConfig, input: Seq<char>)
    ensures
        ({
            let n = byte_len(input);
            let format = detected(input).format;
            let value = read_by_its_parser(format, config.csv_numeric_coercion, input);
            decision(config, input).0 matches Decision::PassedThrough { reason, input_format }
                ==> match reason {
                Reason::InputExceedsLimit { actual, limit } => {
                    &&& n > config.max_input_bytes
                    &&& actual == n
                    &&& limit == config.max_input_bytes
                    &&& input_format is None
                },
                Reason::BelowMinBytes => {
                    &&& n < config.min_bytes
                    &&& n <= config.max_input_bytes
                    &&& input_format is None
                },
                Reason::UnknownFormat => {
                    &&& has_admitted_length(config, input)
                    &&& format == InputFormat::Unknown
                    &&& input_format == Some(InputFormat::Unknown)
                },
                Reason::ParseFailed { format: failed, detail } => {
                    &&& has_admitted_length(config, input)
                    &&& failed == format
                    &&& format != InputFormat::Unknown
                    &&& input_format == Some(format)
                    &&& value matches Err(fault) && detail == match fault {
                        Fault::ParseFailed { detail: told, .. } => told,
                        _ => fault_message(fault),
                    }
                },
                _ => {
                    &&& has_admitted_length(config, input)
                    &&& format != InputFormat::Unknown
                    &&& input_format == Some(format)
                    &&& value is Ok
                    &&& reason is ShapeNotBeneficial <==> shape_of(
                        value->Ok_0,
                        ClassifyConfig {
                            tabular_min_rows: config.tabular_min_rows,
                            fold_min_depth: config.fold_min_depth,
                            primitive_array_min: config.primitive_array_min,
                        },
                    ) == ShapeClass::PassThrough
                    &&& reason matches Reason::EncodeFailed { detail } ==> toon_encoding(
                        value->Ok_0,
                        config.delimiter,
                        config.key_folding,
                    ) == Err::<Seq<char>, Seq<char>>(detail)
                    &&& reason matches Reason::InsufficientSavings { savings, max_output_ratio }
                        ==> (toon_encoding(
                        value->Ok_0,
                        config.delimiter,
                        config.key_folding,
                    ) matches Ok(toon) && !is_short_enough(
                        byte_len(toon),
                        n,
                        config.max_output_ratio,
                    ) && savings.output_bytes == byte_len(toon) as usize && savings.input_bytes
                        == n as usize && max_output_ratio == config.max_output_ratio)
                },
            }
        }),
{
    lemma_powers_of_ten(config.max_output_ratio.places as nat);
}

/// The report tells what detection found wherever detection ran, a placeholder
/// where the length alone decided, and coercion metadata exactly for a table that
/// was read.
pub proof fn reports_tell_what_was_found(config: CompressConfig, input: Seq<char>)
    ensures
        has_admitted_length(config, input) ==> reported_detection(config, input) == detected(
            input,
        ),
        !has_admitted_length(config, input) ==> ({
            let d = reported_detection(config, input);
            &&& d.format == InputFormat::Unknown
            &&& d.confidence == DetectionConfidence::Certain
            &&& !d.ambiguous
            &&& d.candidates.len() == 0
            &&& d.line_count is None
        }),
        ({
            let format = detected(input).format;
            let read = if format == InputFormat::Csv {
                table(0x2c, config.csv_numeric_coercion, input)
            } else {
                table(0x09, config.csv_numeric_coercion, input)
            };
            if has_admitted_length(config, input) && (format == InputFormat::Csv || format
                == InputFormat::Tsv) && read is Ok {
                decision(config, input).1 == Some(read->Ok_0.1)
            } else {
                decision(config, input).1 is None
            }
        }),
{
}

/// The options decide how much is compressed only through the gates: two
/// configurations that differ in nothing but gates which the input passes under
/// both give the same text.
pub proof fn gates_do_not_change_the_text(
    config: CompressConfig,
    other: CompressConfig,
    input: Seq<char>,
)
    requires
        config.delimiter == other.delimiter,
        config.key_folding == other.key_folding,
        config.csv_numeric_coercion == other.csv_numeric_coercion,
        decision(config, input).0 is Compressed,
        decision(other, input).0 is Compressed,
    ensures
        decision(config, input).0->toon == decision(other, input).0->toon,
{
}

/// The reasons have distinct names.
pub proof fn reasons_have_distinct_names(a: Reason, b: Reason)
    requires
        reason_name(a) == reason_name(b),
    ensures
        a is UnknownFormat <==> b is UnknownFormat,
        a is BelowMinBytes <==> b is BelowMinBytes,
        a is InputExceedsLimit <==> b is InputExceedsLimit,
        a is InsufficientSavings <==> b is InsufficientSavings,
        a is ShapeNotBeneficial <==> b is ShapeNotBeneficial,
        a is ParseFailed <==> b is ParseFailed,
        a is EncodeFailed <==> b is EncodeFailed,
{
    reveal_strlit("unknown_format");
    reveal_strlit("below_min_bytes");
    reveal_strlit("input_exceeds_limit");
    reveal_strlit("insufficient_savings");
    reveal_strlit("shape_not_beneficial");
    reveal_strlit("parse_failed");
    reveal_strlit("encode_failed");
    let (x, y) = (reason_name(a), reason_name(b));
    assert(x.len() == y.len() && x[0] == y[0]);
}

} // verus!
