//! What the environment says about the configuration.

use vstd::prelude::*;
use vstd::arithmetic::power::pow;
use crate::bindings::float_reading;
use crate::compressor::Delimiter;
use crate::laws::compression::lemma_powers_of_ten;
use crate::laws::tables::{is_digit_run, zeros};
use crate::number::{
    decimal, digits_value, is_digit, lemma_decimal_reads_back, natural_value, unsigned_value,
};
use crate::ratio::{exponent_shift, mantissa_digits, mantissa_places, unit_ratio, unsigned_part};
use crate::server::config::{
    all_warnings, bool_valued, buffer_size_var, compress_config_of, csv_numeric_coercion_var,
    delimiter_var, describes, first_refusal, flush_interval_secs_var, fold_min_depth_var,
    key_folding_var, logging_enabled_var, max_concurrent_calls_var, max_input_bytes_var,
    max_output_ratio_var, min_bytes_var, pipeline_timeout_ms_var, positive_u64_valued,
    positive_usize_valued, primitive_array_min_var, setting, strictness, tabular_min_rows_var,
    usize_valued, zero_minimum_warning, Config,
};
use crate::server::error::Rejection;
use crate::text::{lemma_position, lemma_position_at, position};

verus! {

// ---------------------------------------------------------------------------
// Variables
// ---------------------------------------------------------------------------

/// A variable has the value of its first entry, and none where it has no entry.
pub proof fn the_first_entry_counts(vars: Seq<(String, String)>, key: Seq<char>)
    ensures
        setting(vars, key) is None <==> forall|i: int|
            0 <= i < vars.len() ==> (#[trigger] vars[i]).0@ != key,
        setting(vars, key) matches Some(value) ==> exists|i: int|
            0 <= i < vars.len() && (#[trigger] vars[i]).0@ == key && vars[i].1@ == value && forall|
                j: int,
            |
                0 <= j < i ==> (#[trigger] vars[j]).0@ != key,
    decreases vars.len(),
{
    if vars.len() > 0 && vars[0].0@ != key {
        let rest = vars.drop_first();
        the_first_entry_counts(rest, key);
        if setting(vars, key) is None {
            assert forall|i: int| 0 <= i < vars.len() implies (#[trigger] vars[i]).0@ != key by {
                if i > 0 {
                    assert(rest[i - 1] == vars[i]);
                }
            }
        } else {
            let k = choose|k: int|
                0 <= k < rest.len() && (#[trigger] rest[k]).0@ == key && rest[k].1@ == setting(
                    vars,
                    key,
                )->Some_0 && forall|j: int| 0 <= j < k ==> (#[trigger] rest[j]).0@ != key;
            assert(vars[k + 1] == rest[k]);
            assert forall|j: int| 0 <= j < k + 1 implies (#[trigger] vars[j]).0@ != key by {
                if j > 0 {
                    assert(rest[j - 1] == vars[j]);
                }
            }
        }
    }
}

/// The decimal text of `n` behind `k` zeros.
pub open spec fn spelled(n: nat, k: nat) -> Seq<char> {
    zeros(k) + decimal(n)
}

/// Whether a text is a run of digits, with or without a plus sign.
pub open spec fn is_natural_text(s: Seq<char>) -> bool {
    is_digit_run(s) || s.len() > 0 && s[0] == '+' && is_digit_run(s.skip(1))
}

/// Whether `value` is what a variable for a size says, read leniently: the
/// number that it spells where it fits, and the default otherwise. Where `least`
/// is positive, smaller numbers are not accepted at all.
pub open spec fn follows_size(
    text: Option<Seq<char>>,
    value: int,
    default: int,
    least: nat,
    most: nat,
    strict: bool,
) -> bool {
    &&& text is None ==> value == default
    &&& text matches Some(t) ==> !is_natural_text(t) ==> value == default && !strict
    &&& forall|n: nat, k: nat|
        text == Some(#[trigger] spelled(n, k)) || text == Some(seq!['+'] + spelled(n, k)) ==> {
            &&& least <= n
            &&& n <= most ==> value == n
            &&& n > most ==> value == default && !strict
        }
}

/// Whether `value` is what a variable for a switch says, read leniently.
pub open spec fn follows_switch(
    text: Option<Seq<char>>,
    value: bool,
    default: bool,
    strict: bool,
) -> bool {
    match text {
        None => value == default,
        Some(t) => if t == "true"@ || t == "1"@ || t == "yes"@ {
            value
        } else if t == "false"@ || t == "0"@ || t == "no"@ {
            !value
        } else {
            value == default && !strict
        },
    }
}

proof fn lemma_natural(s: Seq<char>)
    ensures
        natural_value(s) is Some <==> is_natural_text(s),
{
    lemma_run(s);
    if s.len() > 0 {
        assert(s.drop_first() =~= s.skip(1));
        lemma_run(s.skip(1));
        if s[0] == '+' {
            assert(!is_digit_run(s));
        }
    }
}

proof fn lemma_run(s: Seq<char>)
    ensures
        unsigned_value(s) is Some <==> is_digit_run(s),
{
    if unsigned_value(s) is Some {
        assert forall|i: int| 0 <= i < s.len() implies '0' <= #[trigger] s[i] <= '9' by {
            assert(is_digit(s[i]));
        }
    }
}

proof fn lemma_spelled(n: nat, k: nat)
    ensures
        natural_value(spelled(n, k)) == Some(n),
        natural_value(seq!['+'] + spelled(n, k)) == Some(n),
{
    lemma_decimal_reads_back(n);
    crate::laws::tables::lemma_leading_zeros(k, decimal(n));
    let s = spelled(n, k);
    assert(is_digit(s[0]));
    assert((seq!['+'] + s).drop_first() =~= s);
}

proof fn lemma_all_spelled()
    ensures
        forall|s: Seq<char>| natural_value(s) is Some <==> #[trigger] is_natural_text(s),
        forall|n: nat, k: nat|
            natural_value(#[trigger] spelled(n, k)) == Some(n) && natural_value(
                seq!['+'] + spelled(n, k),
            ) == Some(n),
{
    assert forall|s: Seq<char>| natural_value(s) is Some <==> #[trigger] is_natural_text(s) by {
        lemma_natural(s);
    }
    assert forall|n: nat, k: nat|
        natural_value(#[trigger] spelled(n, k)) == Some(n) && natural_value(
            seq!['+'] + spelled(n, k),
        ) == Some(n) by {
        lemma_spelled(n, k);
    }
}

/// A loaded configuration follows its variables: each size is the number that its
/// variable spells, each switch one of its six spellings, and each falls back to
/// its default where the variable is unset or, unless strict, does not parse.
/// Limits, timeouts and counts of zero are never accepted.
pub proof fn settings_follow_their_variables(vars: Seq<(String, String)>, c: Config)
    requires
        describes(vars, c),
    ensures
        follows_switch(setting(vars, "TOON_CONFIG_STRICT"@), c.strict_config, false, false),
        follows_size(
            setting(vars, "TOON_MIN_BYTES"@),
            c.min_bytes as int,
            256,
            0,
            usize::MAX as nat,
            c.strict_config,
        ),
        follows_size(
            setting(vars, "TOON_MAX_INPUT_BYTES"@),
            c.max_input_bytes as int,
            10_485_760,
            1,
            usize::MAX as nat,
            c.strict_config,
        ),
        follows_switch(setting(vars, "TOON_KEY_FOLDING"@), c.key_folding, true, c.strict_config),
        follows_size(
            setting(vars, "TOON_TABULAR_MIN_ROWS"@),
            c.tabular_min_rows as int,
            3,
            0,
            usize::MAX as nat,
            c.strict_config,
        ),
        follows_size(
            setting(vars, "TOON_FOLD_MIN_DEPTH"@),
            c.fold_min_depth as int,
            3,
            0,
            usize::MAX as nat,
            c.strict_config,
        ),
        follows_size(
            setting(vars, "TOON_PRIMITIVE_ARRAY_MIN"@),
            c.primitive_array_min as int,
            5,
            0,
            usize::MAX as nat,
            c.strict_config,
        ),
        follows_switch(
            setting(vars, "TOON_CSV_NUMERIC_COERCION"@),
            c.csv_numeric_coercion,
            true,
            c.strict_config,
        ),
        follows_switch(
            setting(vars, "TOON_LOG_ENABLED"@),
            c.logging_enabled,
            true,
            c.strict_config,
        ),
        follows_size(
            setting(vars, "TOON_PIPELINE_TIMEOUT_MS"@),
            c.pipeline_timeout_ms as int,
            30_000,
            1,
            u64::MAX as nat,
            c.strict_config,
        ),
        follows_size(
            setting(vars, "TOON_MAX_CONCURRENT_CALLS"@),
            c.max_concurrent_calls as int,
            8,
            1,
            usize::MAX as nat,
            c.strict_config,
        ),
        follows_size(
            setting(vars, "TOON_LOG_FLUSH_INTERVAL_SECS"@),
            c.logging.flush_interval_secs as int,
            300,
            1,
            u64::MAX as nat,
            c.strict_config,
        ),
        follows_size(
            setting(vars, "TOON_LOG_BUFFER_SIZE"@),
            c.logging.buffer_size as int,
            1000,
            1,
            usize::MAX as nat,
            c.strict_config,
        ),
{
    lemma_all_spelled();
}

/// Texts are taken over as they are: the delimiter by its name, the log directory
/// and level verbatim, and the client hint where it is not empty.
pub proof fn texts_are_taken_over(vars: Seq<(String, String)>, c: Config)
    requires
        describes(vars, c),
    ensures
        match setting(vars, "TOON_DELIMITER"@) {
            None => c.delimiter == Delimiter::Comma,
            Some(t) => if t == "comma"@ {
                c.delimiter == Delimiter::Comma
            } else if t == "tab"@ {
                c.delimiter == Delimiter::Tab
            } else if t == "pipe"@ {
                c.delimiter == Delimiter::Pipe
            } else {
                c.delimiter == Delimiter::Comma && !c.strict_config
            },
        },
        match setting(vars, "TOON_LOG_DIR"@) {
            None => c.logging.log_dir@ == "data/logs"@,
            Some(t) => c.logging.log_dir@ == t,
        },
        match setting(vars, "TOON_LOG_LEVEL"@) {
            None => c.log_level@ == "info"@,
            Some(t) => c.log_level@ == t,
        },
        match setting(vars, "TOON_CLIENT_HINT"@) {
            None => c.client_hint is None,
            Some(t) => if t.len() == 0 {
                c.client_hint is None
            } else {
                c.client_hint matches Some(hint) && hint@ == t
            },
        },
{
    reveal_strlit("comma");
    reveal_strlit("tab");
    reveal_strlit("pipe");
}

/// The accepted ratio is the one that its variable writes as a decimal number
/// between zero and one, the default of 0.85 where it is unset or, unless strict,
/// no number; a number outside that range is never accepted.
pub proof fn the_ratio_follows_its_variable(vars: Seq<(String, String)>, c: Config)
    requires
        describes(vars, c),
    ensures
        match setting(vars, "TOON_COMPRESSION_THRESHOLD"@) {
            None => c.max_output_ratio.digits == 85 && c.max_output_ratio.places == 2,
            Some(t) => match float_reading(t) {
                None => c.max_output_ratio.digits == 85 && c.max_output_ratio.places == 2
                    && !c.strict_config,
                Some(number) => number matches Some(decimal) && unit_ratio(decimal.0) == Some(
                    c.max_output_ratio,
                ),
            },
        },
{
}

/// A decimal text reads as the ratio that it writes: its digits over the power of
/// ten that its places and its exponent say, where that is at most one.
pub proof fn decimals_read_as_ratios(a: Seq<char>, b: Seq<char>, e: nat)
    requires
        is_digit_run(a),
        is_digit_run(b),
    ensures
        ({
            let worth = digits_value(a + b);
            let plain = a + seq!['.'] + b;
            let scaled = plain + seq!['e', '-'] + decimal(e);
            &&& reads_as_ratio(plain, worth, b.len())
            &&& reads_as_ratio(scaled, worth, b.len() + e)
        }),
{
    let plain = a + seq!['.'] + b;
    let scaled = plain + seq!['e', '-'] + decimal(e);
    lemma_mantissa(a, b);
    assert(a[0] != '-');
    assert forall|i: int| 0 <= i < plain.len() implies plain[i] != 'e' by {
        if i < a.len() {
            assert(plain[i] == a[i]);
        } else if i > a.len() {
            assert(plain[i] == b[i - a.len() - 1]);
        }
    }
    lemma_position(plain, 'e');
    if position(plain, 'e') < plain.len() {
        assert(plain[position(plain, 'e')] == 'e');
    }
    assert(plain.take(plain.len() as int) =~= plain);
    let mark = plain.len() as int;
    assert(scaled[mark] == 'e');
    assert forall|i: int| 0 <= i < mark implies scaled[i] != 'e' by {
        assert(scaled[i] == plain[i]);
    }
    lemma_position_at(scaled, 'e', mark);
    assert(scaled.take(mark) =~= plain);
    assert(scaled[mark + 1] == '-');
    assert(scaled.skip(mark + 2) =~= decimal(e));
    lemma_decimal_reads_back(e);
    assert(unsigned_part(plain) == plain);
    assert(scaled[0] == a[0]);
    assert(unsigned_part(scaled) == scaled);
    assert(exponent_shift(plain) == Some(0nat));
    assert(exponent_shift(scaled) == Some(e));
    lemma_powers_of_ten(b.len());
    lemma_powers_of_ten(b.len() + e);
}

/// Whether a text reads as `worth` over ten to the power of `places`, or not at
/// all where that exceeds one or the machine's bounds.
pub open spec fn reads_as_ratio(text: Seq<char>, worth: nat, places: nat) -> bool {
    if worth <= u64::MAX && places <= u32::MAX && worth <= pow(10, places) {
        unit_ratio(text) matches Some(r) && r.digits == worth && r.places == places
    } else {
        unit_ratio(text) is None
    }
}

proof fn lemma_mantissa(a: Seq<char>, b: Seq<char>)
    requires
        is_digit_run(a),
        is_digit_run(b),
    ensures
        mantissa_digits(a + seq!['.'] + b) == a + b,
        mantissa_places(a + seq!['.'] + b) == b.len(),
        unsigned_value(a + b) == Some(digits_value(a + b)),
{
    let m = a + seq!['.'] + b;
    let point = a.len() as int;
    assert(m[point] == '.');
    assert forall|i: int| 0 <= i < point implies m[i] != '.' by {
        assert(m[i] == a[i]);
    }
    lemma_position_at(m, '.', point);
    assert(m.take(point) =~= a);
    assert(m.skip(point + 1) =~= b);
    let s = a + b;
    assert forall|i: int| 0 <= i < s.len() implies is_digit(#[trigger] s[i]) by {
        if i < a.len() {
            assert(s[i] == a[i]);
        } else {
            assert(s[i] == b[i - a.len()]);
        }
    }
}

/// A refusal is about a variable that is set, and quotes what it is set to.
/// Where nothing is refused the variables describe a configuration, and only
/// there.
pub proof fn refusals_quote_their_variable(vars: Seq<(String, String)>, c: Config)
    ensures
        first_refusal(vars) matches Some(r) ==> setting(vars, r.var) == Some(r.value),
        describes(vars, c) ==> first_refusal(vars) is None,
{
}

/// A warning is about a variable that is set, and quotes what it is set to.
pub proof fn warnings_quote_their_variable(vars: Seq<(String, String)>, i: int)
    requires
        0 <= i < all_warnings(vars).len(),
    ensures
        setting(vars, all_warnings(vars)[i].var) == Some(all_warnings(vars)[i].value),
{
    let w = bool_valued(vars, "TOON_CONFIG_STRICT"@, false, false).warnings;
    lemma_quoted_together(vars, w, max_output_ratio_var(vars).warnings);
    let w = w + max_output_ratio_var(vars).warnings;
    lemma_quoted_together(vars, w, min_bytes_var(vars).warnings);
    let w = w + min_bytes_var(vars).warnings;
    lemma_quoted_together(vars, w, max_input_bytes_var(vars).warnings);
    let w = w + max_input_bytes_var(vars).warnings;
    lemma_quoted_together(vars, w, key_folding_var(vars).warnings);
    let w = w + key_folding_var(vars).warnings;
    lemma_quoted_together(vars, w, delimiter_var(vars).warnings);
    let w = w + delimiter_var(vars).warnings;
    lemma_quoted_together(vars, w, tabular_min_rows_var(vars).warnings);
    let w = w + tabular_min_rows_var(vars).warnings;
    lemma_quoted_together(vars, w, fold_min_depth_var(vars).warnings);
    let w = w + fold_min_depth_var(vars).warnings;
    lemma_quoted_together(vars, w, primitive_array_min_var(vars).warnings);
    let w = w + primitive_array_min_var(vars).warnings;
    lemma_quoted_together(vars, w, csv_numeric_coercion_var(vars).warnings);
    let w = w + csv_numeric_coercion_var(vars).warnings;
    lemma_quoted_together(vars, w, logging_enabled_var(vars).warnings);
    let w = w + logging_enabled_var(vars).warnings;
    lemma_quoted_together(vars, w, pipeline_timeout_ms_var(vars).warnings);
    let w = w + pipeline_timeout_ms_var(vars).warnings;
    lemma_quoted_together(vars, w, max_concurrent_calls_var(vars).warnings);
    let w = w + max_concurrent_calls_var(vars).warnings;
    lemma_quoted_together(vars, w, flush_interval_secs_var(vars).warnings);
    let w = w + flush_interval_secs_var(vars).warnings;
    lemma_quoted_together(vars, w, buffer_size_var(vars).warnings);
    let w = w + buffer_size_var(vars).warnings;
    lemma_quoted_together(vars, w, zero_minimum_warning(vars));
    let w = w + zero_minimum_warning(vars);
    assert(w == all_warnings(vars));
}

/// Whether each rejection quotes its variable.
spec fn all_quoted(vars: Seq<(String, String)>, w: Seq<Rejection>) -> bool {
    forall|i: int| 0 <= i < w.len() ==> setting(vars, (#[trigger] w[i]).var) == Some(w[i].value)
}

proof fn lemma_quoted_together(
    vars: Seq<(String, String)>,
    a: Seq<Rejection>,
    b: Seq<Rejection>,
)
    requires
        all_quoted(vars, a),
        all_quoted(vars, b),
    ensures
        all_quoted(vars, a + b),
{
    let w = a + b;
    assert forall|i: int| 0 <= i < w.len() implies setting(vars, (#[trigger] w[i]).var) == Some(
        w[i].value,
    ) by {
        if i < a.len() {
            assert(w[i] == a[i]);
        } else {
            assert(w[i] == b[i - a.len()]);
        }
    }
}

/// The compressor runs with the server's settings.
pub proof fn the_compressor_gets_the_settings(c: Config)
    ensures
        ({
            let k = compress_config_of(c);
            &&& k.max_output_ratio == c.max_output_ratio
            &&& k.min_bytes == c.min_bytes
            &&& k.max_input_bytes == c.max_input_bytes
            &&& k.key_folding == c.key_folding
            &&& k.delimiter == c.delimiter
            &&& k.tabular_min_rows == c.tabular_min_rows
            &&& k.fold_min_depth == c.fold_min_depth
            &&& k.primitive_array_min == c.primitive_array_min
            &&& k.csv_numeric_coercion == c.csv_numeric_coercion
        }),
{
}

/// Whether the text of a variable for a size is acceptable: it is unset, it spells
/// a number that is large enough, and where it does not spell one that fits, the
/// configuration is lenient.
pub open spec fn is_good_size(
    text: Option<Seq<char>>,
    least: nat,
    most: nat,
    strict: bool,
) -> bool {
    text matches Some(t) ==> {
        ||| !strict && !is_natural_text(t)
        ||| exists|n: nat, k: nat|
            (t == #[trigger] spelled(n, k) || t == seq!['+'] + spelled(n, k)) && least <= n && (n
                <= most || !strict)
    }
}

/// Whether the text of a variable for a switch is acceptable.
pub open spec fn is_good_switch(text: Option<Seq<char>>, strict: bool) -> bool {
    text matches Some(t) ==> {
        ||| !strict
        ||| t == "true"@ || t == "1"@ || t == "yes"@
        ||| t == "false"@ || t == "0"@ || t == "no"@
    }
}

/// Whether the text of the variable for the delimiter is acceptable.
pub open spec fn is_good_delimiter(text: Option<Seq<char>>, strict: bool) -> bool {
    text matches Some(t) ==> !strict || t == "comma"@ || t == "tab"@ || t == "pipe"@
}

/// Whether the text of the variable for the ratio is acceptable.
pub open spec fn is_good_ratio(text: Option<Seq<char>>, strict: bool) -> bool {
    text matches Some(t) ==> match float_reading(t) {
        None => !strict,
        Some(None) => false,
        Some(Some((shortest, _))) => unit_ratio(shortest) is Some,
    }
}

proof fn lemma_good_size(vars: Seq<(String, String)>, key: Seq<char>, default: usize, strict: bool)
    requires
        is_good_size(setting(vars, key), 0, usize::MAX as nat, strict),
    ensures
        usize_valued(vars, key, default, strict).refusal is None,
{
    lemma_all_spelled();
}

proof fn lemma_good_positive(
    vars: Seq<(String, String)>,
    key: Seq<char>,
    default: usize,
    strict: bool,
)
    requires
        is_good_size(setting(vars, key), 1, usize::MAX as nat, strict),
    ensures
        positive_usize_valued(vars, key, default, strict).refusal is None,
{
    lemma_all_spelled();
}

proof fn lemma_good_positive_long(
    vars: Seq<(String, String)>,
    key: Seq<char>,
    default: u64,
    strict: bool,
)
    requires
        is_good_size(setting(vars, key), 1, u64::MAX as nat, strict),
    ensures
        positive_u64_valued(vars, key, default, strict).refusal is None,
{
    lemma_all_spelled();
}

/// Nothing is refused where every variable is unset or acceptable.
pub proof fn good_settings_are_not_refused(vars: Seq<(String, String)>, strict: bool)
    requires
        strict <==> (setting(vars, "TOON_CONFIG_STRICT"@) matches Some(t) && (t == "true"@ || t
            == "1"@ || t == "yes"@)),
        is_good_ratio(setting(vars, "TOON_COMPRESSION_THRESHOLD"@), strict),
        is_good_size(setting(vars, "TOON_MIN_BYTES"@), 0, usize::MAX as nat, strict),
        is_good_size(setting(vars, "TOON_MAX_INPUT_BYTES"@), 1, usize::MAX as nat, strict),
        is_good_switch(setting(vars, "TOON_KEY_FOLDING"@), strict),
        is_good_delimiter(setting(vars, "TOON_DELIMITER"@), strict),
        is_good_size(setting(vars, "TOON_TABULAR_MIN_ROWS"@), 0, usize::MAX as nat, strict),
        is_good_size(setting(vars, "TOON_FOLD_MIN_DEPTH"@), 0, usize::MAX as nat, strict),
        is_good_size(setting(vars, "TOON_PRIMITIVE_ARRAY_MIN"@), 0, usize::MAX as nat, strict),
        is_good_switch(setting(vars, "TOON_CSV_NUMERIC_COERCION"@), strict),
        is_good_switch(setting(vars, "TOON_LOG_ENABLED"@), strict),
        is_good_size(setting(vars, "TOON_PIPELINE_TIMEOUT_MS"@), 1, u64::MAX as nat, strict),
        is_good_size(setting(vars, "TOON_MAX_CONCURRENT_CALLS"@), 1, usize::MAX as nat, strict),
        is_good_size(setting(vars, "TOON_LOG_FLUSH_INTERVAL_SECS"@), 1, u64::MAX as nat, strict),
        is_good_size(setting(vars, "TOON_LOG_BUFFER_SIZE"@), 1, usize::MAX as nat, strict),
    ensures
        first_refusal(vars) is None,
{
    lemma_switches_differ();
    assert(strictness(vars) == strict);
    lemma_good_size(vars, "TOON_MIN_BYTES"@, 256, strict);
    lemma_good_positive(vars, "TOON_MAX_INPUT_BYTES"@, 10_485_760, strict);
    lemma_good_size(vars, "TOON_TABULAR_MIN_ROWS"@, 3, strict);
    lemma_good_size(vars, "TOON_FOLD_MIN_DEPTH"@, 3, strict);
    lemma_good_size(vars, "TOON_PRIMITIVE_ARRAY_MIN"@, 5, strict);
    lemma_good_positive_long(vars, "TOON_PIPELINE_TIMEOUT_MS"@, 30_000, strict);
    lemma_good_positive(vars, "TOON_MAX_CONCURRENT_CALLS"@, 8, strict);
    lemma_good_positive_long(vars, "TOON_LOG_FLUSH_INTERVAL_SECS"@, 300, strict);
    lemma_good_positive(vars, "TOON_LOG_BUFFER_SIZE"@, 1000, strict);
}

proof fn lemma_switches_differ()
    ensures
        "true"@ != "false"@,
        "true"@ != "0"@,
        "true"@ != "no"@,
        "1"@ != "false"@,
        "1"@ != "0"@,
        "1"@ != "no"@,
        "yes"@ != "false"@,
        "yes"@ != "0"@,
        "yes"@ != "no"@,
{
    reveal_strlit("true");
    reveal_strlit("1");
    reveal_strlit("yes");
    reveal_strlit("false");
    reveal_strlit("0");
    reveal_strlit("no");
    assert("true"@.len() == 4 && "yes"@.len() == 3 && "1"@.len() == 1);
    assert("false"@.len() == 5 && "no"@.len() == 2 && "0"@.len() == 1);
    assert("1"@[0] != "0"@[0]);
}

/// Whether a warning quotes a variable.
pub open spec fn is_warned_about(vars: Seq<(String, String)>, key: Seq<char>) -> bool {
    exists|i: int|
        0 <= i < all_warnings(vars).len() && (#[trigger] all_warnings(vars)[i]).var == key
}

proof fn lemma_sum(a: Seq<Rejection>, b: Seq<Rejection>, w: Rejection)
    ensures
        a.contains(w) || b.contains(w) ==> (a + b).contains(w),
{
    if a.contains(w) {
        let i = choose|i: int| 0 <= i < a.len() && a[i] == w;
        assert((a + b)[i] == w);
    } else if b.contains(w) {
        let i = choose|i: int| 0 <= i < b.len() && b[i] == w;
        assert((a + b)[a.len() + i] == w);
    }
}

/// Sixteen runs joined hold what any of them holds.
proof fn lemma_joined(p: Seq<Seq<Rejection>>, k: int, w: Rejection)
    requires
        p.len() == 16,
        0 <= k < 16,
        p[k].contains(w),
    ensures
        (p[0] + p[1] + p[2] + p[3] + p[4] + p[5] + p[6] + p[7] + p[8] + p[9] + p[10] + p[11] + p[12]
            + p[13] + p[14] + p[15]).contains(w),
{
    lemma_joined_part(p, 15, k, w);
    reveal_with_fuel(joined_to, 17);
}

spec fn joined_to(p: Seq<Seq<Rejection>>, n: int) -> Seq<Rejection>
    decreases n,
{
    if n <= 0 {
        p[0]
    } else {
        joined_to(p, n - 1) + p[n]
    }
}

proof fn lemma_joined_part(p: Seq<Seq<Rejection>>, n: int, k: int, w: Rejection)
    requires
        0 <= k <= n < p.len(),
        p[k].contains(w),
    ensures
        joined_to(p, n).contains(w),
    decreases n,
{
    if n > 0 {
        lemma_sum(joined_to(p, n - 1), p[n], w);
        if k < n {
            lemma_joined_part(p, n - 1, k, w);
        }
    }
}

spec fn warning_parts(vars: Seq<(String, String)>) -> Seq<Seq<Rejection>> {
    seq![
        bool_valued(vars, "TOON_CONFIG_STRICT"@, false, false).warnings,
        max_output_ratio_var(vars).warnings,
        min_bytes_var(vars).warnings,
        max_input_bytes_var(vars).warnings,
        key_folding_var(vars).warnings,
        delimiter_var(vars).warnings,
        tabular_min_rows_var(vars).warnings,
        fold_min_depth_var(vars).warnings,
        primitive_array_min_var(vars).warnings,
        csv_numeric_coercion_var(vars).warnings,
        logging_enabled_var(vars).warnings,
        pipeline_timeout_ms_var(vars).warnings,
        max_concurrent_calls_var(vars).warnings,
        flush_interval_secs_var(vars).warnings,
        buffer_size_var(vars).warnings,
        zero_minimum_warning(vars),
    ]
}

proof fn lemma_warned(vars: Seq<(String, String)>, k: int, key: Seq<char>)
    requires
        0 <= k < 16,
        warning_parts(vars)[k].len() > 0,
        warning_parts(vars)[k][0].var == key,
    ensures
        is_warned_about(vars, key),
{
    let p = warning_parts(vars);
    let w = p[k][0];
    assert(p[k].contains(w));
    lemma_joined(p, k, w);
    let all = all_warnings(vars);
    assert(all == p[0] + p[1] + p[2] + p[3] + p[4] + p[5] + p[6] + p[7] + p[8] + p[9] + p[10]
        + p[11] + p[12] + p[13] + p[14] + p[15]);
    let i = choose|i: int| 0 <= i < all.len() && all[i] == w;
    assert(all[i].var == key);
}

/// Whether the text of a variable for a size cannot be used.
pub open spec fn is_bad_size(text: Option<Seq<char>>) -> bool {
    text matches Some(t) && !is_natural_text(t)
}

/// Whether the text of a variable for a switch cannot be used.
pub open spec fn is_bad_switch(text: Option<Seq<char>>) -> bool {
    text matches Some(t) && t != "true"@ && t != "1"@ && t != "yes"@ && t != "false"@ && t != "0"@
        && t != "no"@
}

/// A lenient configuration warns about each variable whose text it cannot use.
pub proof fn fallbacks_are_warned_about(vars: Seq<(String, String)>)
    requires
        !strictness(vars),
    ensures
        is_bad_switch(setting(vars, "TOON_CONFIG_STRICT"@)) ==> is_warned_about(
            vars,
            "TOON_CONFIG_STRICT"@,
        ),
        (setting(vars, "TOON_COMPRESSION_THRESHOLD"@) matches Some(t) && float_reading(t) is None)
            ==> is_warned_about(vars, "TOON_COMPRESSION_THRESHOLD"@),
        is_bad_size(setting(vars, "TOON_MIN_BYTES"@)) ==> is_warned_about(vars, "TOON_MIN_BYTES"@),
        is_bad_size(setting(vars, "TOON_MAX_INPUT_BYTES"@)) ==> is_warned_about(
            vars,
            "TOON_MAX_INPUT_BYTES"@,
        ),
        is_bad_switch(setting(vars, "TOON_KEY_FOLDING"@)) ==> is_warned_about(
            vars,
            "TOON_KEY_FOLDING"@,
        ),
        (setting(vars, "TOON_DELIMITER"@) matches Some(t) && t != "comma"@ && t != "tab"@ && t
            != "pipe"@) ==> is_warned_about(vars, "TOON_DELIMITER"@),
        is_bad_size(setting(vars, "TOON_TABULAR_MIN_ROWS"@)) ==> is_warned_about(
            vars,
            "TOON_TABULAR_MIN_ROWS"@,
        ),
        is_bad_size(setting(vars, "TOON_FOLD_MIN_DEPTH"@)) ==> is_warned_about(
            vars,
            "TOON_FOLD_MIN_DEPTH"@,
        ),
{
    lemma_bad_sizes(vars);
    lemma_switches_differ();
    if is_bad_switch(setting(vars, "TOON_CONFIG_STRICT"@)) {
        lemma_warned(vars, 0, "TOON_CONFIG_STRICT"@);
    }
    if setting(vars, "TOON_COMPRESSION_THRESHOLD"@) matches Some(t) && float_reading(t) is None {
        lemma_warned(vars, 1, "TOON_COMPRESSION_THRESHOLD"@);
    }
    if is_bad_size(setting(vars, "TOON_MIN_BYTES"@)) {
        lemma_warned(vars, 2, "TOON_MIN_BYTES"@);
    }
    if is_bad_size(setting(vars, "TOON_MAX_INPUT_BYTES"@)) {
        lemma_warned(vars, 3, "TOON_MAX_INPUT_BYTES"@);
    }
    if is_bad_switch(setting(vars, "TOON_KEY_FOLDING"@)) {
        lemma_warned(vars, 4, "TOON_KEY_FOLDING"@);
    }
    if setting(vars, "TOON_DELIMITER"@) matches Some(t) && t != "comma"@ && t != "tab"@ && t
        != "pipe"@ {
        lemma_warned(vars, 5, "TOON_DELIMITER"@);
    }
    if is_bad_size(setting(vars, "TOON_TABULAR_MIN_ROWS"@)) {
        lemma_warned(vars, 6, "TOON_TABULAR_MIN_ROWS"@);
    }
    if is_bad_size(setting(vars, "TOON_FOLD_MIN_DEPTH"@)) {
        lemma_warned(vars, 7, "TOON_FOLD_MIN_DEPTH"@);
    }
}

/// A lenient configuration warns about each further variable whose text it cannot
/// use, and any configuration about a minimum of no bytes.
pub proof fn further_fallbacks_are_warned_about(vars: Seq<(String, String)>)
    ensures
        !strictness(vars) ==> {
            &&& is_bad_size(setting(vars, "TOON_PRIMITIVE_ARRAY_MIN"@)) ==> is_warned_about(
                vars,
                "TOON_PRIMITIVE_ARRAY_MIN"@,
            )
            &&& is_bad_switch(setting(vars, "TOON_CSV_NUMERIC_COERCION"@)) ==> is_warned_about(
                vars,
                "TOON_CSV_NUMERIC_COERCION"@,
            )
            &&& is_bad_switch(setting(vars, "TOON_LOG_ENABLED"@)) ==> is_warned_about(
                vars,
                "TOON_LOG_ENABLED"@,
            )
            &&& is_bad_size(setting(vars, "TOON_PIPELINE_TIMEOUT_MS"@)) ==> is_warned_about(
                vars,
                "TOON_PIPELINE_TIMEOUT_MS"@,
            )
            &&& is_bad_size(setting(vars, "TOON_MAX_CONCURRENT_CALLS"@)) ==> is_warned_about(
                vars,
                "TOON_MAX_CONCURRENT_CALLS"@,
            )
            &&& is_bad_size(setting(vars, "TOON_LOG_FLUSH_INTERVAL_SECS"@)) ==> is_warned_about(
                vars,
                "TOON_LOG_FLUSH_INTERVAL_SECS"@,
            )
            &&& is_bad_size(setting(vars, "TOON_LOG_BUFFER_SIZE"@)) ==> is_warned_about(
                vars,
                "TOON_LOG_BUFFER_SIZE"@,
            )
        },
        forall|k: nat|
            setting(vars, "TOON_MIN_BYTES"@) == Some(#[trigger] spelled(0, k)) ==> is_warned_about(
                vars,
                "TOON_MIN_BYTES"@,
            ),
{
    lemma_bad_sizes(vars);
    lemma_switches_differ();
    if !strictness(vars) {
        if is_bad_size(setting(vars, "TOON_PRIMITIVE_ARRAY_MIN"@)) {
            lemma_warned(vars, 8, "TOON_PRIMITIVE_ARRAY_MIN"@);
        }
        if is_bad_switch(setting(vars, "TOON_CSV_NUMERIC_COERCION"@)) {
            lemma_warned(vars, 9, "TOON_CSV_NUMERIC_COERCION"@);
        }
        if is_bad_switch(setting(vars, "TOON_LOG_ENABLED"@)) {
            lemma_warned(vars, 10, "TOON_LOG_ENABLED"@);
        }
        if is_bad_size(setting(vars, "TOON_PIPELINE_TIMEOUT_MS"@)) {
            lemma_warned(vars, 11, "TOON_PIPELINE_TIMEOUT_MS"@);
        }
        if is_bad_size(setting(vars, "TOON_MAX_CONCURRENT_CALLS"@)) {
            lemma_warned(vars, 12, "TOON_MAX_CONCURRENT_CALLS"@);
        }
        if is_bad_size(setting(vars, "TOON_LOG_FLUSH_INTERVAL_SECS"@)) {
            lemma_warned(vars, 13, "TOON_LOG_FLUSH_INTERVAL_SECS"@);
        }
        if is_bad_size(setting(vars, "TOON_LOG_BUFFER_SIZE"@)) {
            lemma_warned(vars, 14, "TOON_LOG_BUFFER_SIZE"@);
        }
    }
    assert forall|k: nat|
        setting(vars, "TOON_MIN_BYTES"@) == Some(#[trigger] spelled(0, k)) implies is_warned_about(
        vars,
        "TOON_MIN_BYTES"@,
    ) by {
        lemma_spelled(0, k);
        assert(min_bytes_var(vars).value == Some(0usize));
        lemma_warned(vars, 15, "TOON_MIN_BYTES"@);
    }
}

proof fn lemma_bad_sizes(vars: Seq<(String, String)>)
    ensures
        forall|text: Option<Seq<char>>| #[trigger]
            is_bad_size(text) ==> text is Some && natural_value(text->0) is None,
{
    assert forall|text: Option<Seq<char>>| #[trigger] is_bad_size(text) implies text is Some
        && natural_value(text->0) is None by {
        lemma_natural(text->0);
    }
}

} // verus!
