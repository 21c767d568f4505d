//! Corpus items and the lines of corpus files.

use vstd::prelude::*;
use crate::text::{is_blank, lines, split_lines, texts, trim};

verus! {

/// One generated payload with the metadata that was intended for it.
#[derive(Debug)]
pub struct CorpusItem {
    /// Identifier.
    pub id: String,
    /// `json`, `jsonl`, `csv` or `tsv`.
    pub format: String,
    /// Domain label.
    pub category: String,
    /// Name of the shape that the payload was meant to have.
    pub intended_shape: String,
    /// The payload.
    pub payload: String,
    /// Byte length of the payload.
    pub bytes: usize,
}

/// The non-blank lines among the first `n`, each with its one-based number.
pub open spec fn numbered_rows(all: Seq<Seq<char>>, n: nat) -> Seq<(nat, Seq<char>)>
    decreases n,
{
    if n == 0 {
        Seq::empty()
    } else if is_blank(all[n - 1]) {
        numbered_rows(all, (n - 1) as nat)
    } else {
        numbered_rows(all, (n - 1) as nat).push((n, all[n - 1]))
    }
}

/// The models of numbered rows.
pub open spec fn row_models(rows: Seq<(usize, String)>) -> Seq<(nat, Seq<char>)> {
    rows.map_values(|r: (usize, String)| (r.0 as nat, r.1@))
}

/// The rows of a JSONL file: its non-blank lines with their one-based numbers.
pub fn jsonl_rows(text: &str) -> (r: Vec<(usize, String)>)
    ensures
        row_models(r@) == numbered_rows(lines(text@), lines(text@).len()),
{
    let all = split_lines(text);
    let ghost rows = lines(text@);
    let mut out: Vec<(usize, String)> = Vec::new();
    let mut i: usize = 0;
    assert(row_models(out@) =~= Seq::empty());
    while i < all.len()
        invariant
            0 <= i <= all@.len(),
            texts(all@) == rows,
            row_models(out@) == numbered_rows(rows, i as nat),
        decreases all@.len() - i,
    {
        assert(rows[i as int] == all@[i as int]@);
        let ghost before = row_models(out@);
        if !trim(all[i].as_str()).as_str().is_empty() {
            let line = all[i].clone();
            out.push((i + 1, line));
            assert(row_models(out@) =~= before.push(((i + 1) as nat, rows[i as int])));
        }
        i = i + 1;
    }
    assert(all@.len() == texts(all@).len());
    out
}

} // verus!
