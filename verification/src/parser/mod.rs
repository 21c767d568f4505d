//! The parsers and what they share.

use vstd::prelude::*;
use vstd::string::StrSliceExecFns;
use crate::error::{CoreError, Fault};
use crate::value::{Json, JsonValue};

pub mod compact;
pub mod csv;
pub mod document;
pub mod json;
pub mod jsonl;

verus! {

/// The model of a parse result.
pub open spec fn parsed(r: Result<JsonValue, CoreError>) -> Result<Json, Fault> {
    match r {
        Ok(v) => Ok(v@),
        Err(e) => Err(e@),
    }
}

/// A stateless parser from raw text to a value tree.
pub trait Parser {
    /// What the parser makes of a text.
    spec fn reads(&self, input: Seq<char>) -> Result<Json, Fault>;

    /// Parse `input` into a value tree.
    fn parse(&self, input: &str) -> (r: Result<JsonValue, CoreError>)
        ensures
            parsed(r) == self.reads(input@),
    ;
}

/// `s` without one leading byte-order mark.
pub open spec fn without_bom(s: Seq<char>) -> Seq<char> {
    if s.len() > 0 && s[0] == '\u{feff}' {
        s.drop_first()
    } else {
        s
    }
}

/// Strip a single leading byte-order mark. Editors commonly prepend U+FEFF, and
/// a mark never turns an otherwise valid document into a parse failure.
pub fn strip_bom(input: &str) -> (r: &str)
    ensures
        r@ == without_bom(input@),
{
    if input.is_empty() {
        return input;
    }
    if input.get_char(0) == '\u{feff}' {
        let rest = input.substring_char(1, input.unicode_len());
        assert(rest@ =~= input@.drop_first());
        rest
    } else {
        input
    }
}

} // verus!
