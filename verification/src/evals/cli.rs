//! The command line of the evaluation harness.

use vstd::prelude::*;
use crate::number::{natural_value, parse_usize};
use crate::server::config::{get, text_or};
use crate::text::same_text;

verus! {

/// The stages of an evaluation.
#[derive(Debug, Clone, Copy, PartialEq, Eq, Structural)]
pub enum Command {
    Generate,
    Pipeline,
    Comprehend,
    Report,
    All,
    Help,
}

/// The stage that a word names.
pub open spec fn command_named(word: Seq<char>) -> Command {
    if word == "generate"@ {
        Command::Generate
    } else if word == "pipeline"@ {
        Command::Pipeline
    } else if word == "comprehend"@ {
        Command::Comprehend
    } else if word == "report"@ {
        Command::Report
    } else if word == "all"@ {
        Command::All
    } else {
        Command::Help
    }
}

/// The stage to run: the first argument, help where there is none.
pub fn command(args: &Vec<String>) -> (r: Command)
    ensures
        r == (if args@.len() == 0 {
            Command::Help
        } else {
            command_named(args@[0]@)
        }),
{
    if args.len() == 0 {
        return Command::Help;
    }
    let word = args[0].as_str();
    if same_text(word, "generate") {
        Command::Generate
    } else if same_text(word, "pipeline") {
        Command::Pipeline
    } else if same_text(word, "comprehend") {
        Command::Comprehend
    } else if same_text(word, "report") {
        Command::Report
    } else if same_text(word, "all") {
        Command::All
    } else {
        Command::Help
    }
}

/// The argument behind the first occurrence of a flag at or after `from`.
pub open spec fn flag_value(args: Seq<String>, name: Seq<char>, from: int) -> Option<Seq<char>>
    decreases args.len() - from,
{
    if from < 0 || from >= args.len() {
        None
    } else if args[from]@ == name {
        if from + 1 < args.len() {
            Some(args[from + 1]@)
        } else {
            None
        }
    } else {
        flag_value(args, name, from + 1)
    }
}

/// The argument behind a flag.
pub fn flag(args: &Vec<String>, name: &str) -> (r: Option<String>)
    ensures
        match r {
            Some(v) => flag_value(args@, name@, 0) == Some(v@),
            None => flag_value(args@, name@, 0) is None,
        },
{
    let mut i: usize = 0;
    while i < args.len()
        invariant
            0 <= i <= args@.len(),
            flag_value(args@, name@, i as int) == flag_value(args@, name@, 0),
        decreases args@.len() - i,
    {
        if same_text(args[i].as_str(), name) {
            if i + 1 < args.len() {
                return Some(args[i + 1].clone());
            }
            return None;
        }
        i = i + 1;
    }
    None
}

/// The number behind a flag; nothing where it does not parse.
pub fn number_flag(args: &Vec<String>, name: &str) -> (r: Option<usize>)
    ensures
        r == (match flag_value(args@, name@, 0) {
            Some(text) => match natural_value(text) {
                Some(n) if n <= usize::MAX => Some(n as usize),
                _ => None,
            },
            None => None,
        }),
{
    match flag(args, name) {
        Some(text) => parse_usize(text.as_str()),
        None => None,
    }
}

/// The directory of the results.
pub fn results_dir(vars: &Vec<(String, String)>) -> (r: String)
    ensures
        r@ == text_or(vars@, "TOON_EVAL_RESULTS"@, "results"@),
{
    env_or(vars, "TOON_EVAL_RESULTS", "results")
}

/// The text of a variable, or a default.
pub fn env_or(vars: &Vec<(String, String)>, key: &str, default: &str) -> (r: String)
    ensures
        r@ == text_or(vars@, key@, default@),
{
    match get(vars, key) {
        Some(text) => text.to_owned(),
        None => default.to_owned(),
    }
}

} // verus!
