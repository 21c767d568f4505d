//! Newline-delimited JSON.

use vstd::prelude::*;
use crate::bindings::{json_reading, read_json};
use crate::detector::InputFormat;
use crate::error::{CoreError, Fault};
use crate::parser::{strip_bom, without_bom, Parser};
use crate::text::{lines, split_lines, texts, trim, trimmed};
use crate::value::{lemma_container_model, models, Json, JsonValue};

verus! {

/// The values on the first `n` lines: blank lines are skipped, and the first
/// line that is no JSON document ends the read with its one-based number.
pub open spec fn jsonl_values(lines: Seq<Seq<char>>, n: nat) -> Result<Seq<Json>, Fault>
    decreases n,
{
    if n == 0 {
        Ok(Seq::empty())
    } else {
        match jsonl_values(lines, (n - 1) as nat) {
            Err(e) => Err(e),
            Ok(values) => {
                let line = trimmed(lines[n - 1]);
                if line.len() == 0 {
                    Ok(values)
                } else {
                    match json_reading(line) {
                        Ok(v) => Ok(values.push(v)),
                        Err(detail) => Err(
                            Fault::ParseFailed { format: InputFormat::Jsonl, line: n, detail },
                        ),
                    }
                }
            },
        }
    }
}

/// What the JSONL parser makes of a text: the array of its lines' values.
pub open spec fn jsonl_reading(input: Seq<char>) -> Result<Json, Fault> {
    let all = lines(without_bom(input));
    match jsonl_values(all, all.len()) {
        Ok(values) => Ok(Json::Array(values)),
        Err(e) => Err(e),
    }
}

/// A failure on an early line is the failure of the whole input.
pub proof fn lemma_failure_stays(lines: Seq<Seq<char>>, n: nat, m: nat)
    requires
        n <= m,
        jsonl_values(lines, n) is Err,
    ensures
        jsonl_values(lines, m) == jsonl_values(lines, n),
    decreases m,
{
    if n < m {
        lemma_failure_stays(lines, n, (m - 1) as nat);
    }
}

/// Parses newline-delimited JSON into an array with one item per non-blank
/// line. A line that is no JSON document fails the parse with its one-based
/// physical line number, blank lines counted.
pub struct JsonlParser;

impl Parser for JsonlParser {
    open spec fn reads(&self, input: Seq<char>) -> Result<Json, Fault> {
        jsonl_reading(input)
    }

    fn parse(&self, input: &str) -> (r: Result<JsonValue, CoreError>)
        ensures
            r matches Err(e) ==> (e matches CoreError::ParseFailed { format, .. } && format
                == InputFormat::Jsonl),
    {
        let body = strip_bom(input);
        let all = split_lines(body);
        let ghost rows = lines(without_bom(input@));
        let mut values: Vec<JsonValue> = Vec::new();
        let mut i: usize = 0;
        assert(models(values@) =~= Seq::empty());
        while i < all.len()
            invariant
                0 <= i <= all@.len(),
                texts(all@) == rows,
                rows == lines(without_bom(input@)),
                jsonl_values(rows, i as nat) == Ok::<Seq<Json>, Fault>(models(values@)),
            decreases all@.len() - i,
        {
            let line = trim(all[i].as_str());
            assert(line@ == trimmed(rows[i as int]));
            if !line.as_str().is_empty() {
                match read_json(line.as_str()) {
                    Ok(v) => {
                        let ghost before = models(values@);
                        values.push(v);
                        assert(models(values@) =~= before.push(v@));
                    },
                    Err(detail) => {
                        proof {
                            lemma_failure_stays(rows, (i + 1) as nat, rows.len());
                        }
                        return Err(
                            CoreError::ParseFailed {
                                format: InputFormat::Jsonl,
                                line: i + 1,
                                detail,
                            },
                        );
                    },
                }
            }
            i = i + 1;
        }
        let tree = JsonValue::Array(values);
        proof {
            lemma_container_model(tree);
        }
        Ok(tree)
    }
}

} // verus!
