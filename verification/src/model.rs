//! The mathematical model of the parse: what the option string means.
//!
//! [`spec_parse`] gives the meaning of a whole option string: split it on
//! commas, then fold every entry over the default record. The executable
//! parser is proved to return exactly this value.

use vstd::prelude::*;

use crate::params::AgentParameters;
use crate::params::ConfigKey;
use crate::params::SpecError;
use crate::params::default_parameters;

verus! {

/// Index of the first occurrence of `c` in `s`, or -1 when `s` has none.
pub open spec fn first_index(s: Seq<char>, c: char) -> int
    decreases s.len(),
{
    if s.len() == 0 {
        -1
    } else if s[0] == c {
        0
    } else {
        let r = first_index(s.drop_first(), c);
        if r < 0 {
            -1
        } else {
            r + 1
        }
    }
}

/// What `first_index` returns: the smallest index holding `c`, or -1 when
/// no index does.
pub proof fn lemma_first_index_spec(s: Seq<char>, c: char)
    ensures
        -1 <= first_index(s, c) < s.len(),
        first_index(s, c) >= 0 ==> s[first_index(s, c)] == c,
        forall|j: int| 0 <= j < first_index(s, c) ==> s[j] != c,
        first_index(s, c) == -1 ==> forall|j: int| 0 <= j < s.len() ==> s[j] != c,
    decreases s.len(),
{
    if s.len() > 0 && s[0] != c {
        lemma_first_index_spec(s.drop_first(), c);
        assert forall|j: int| 0 <= j < s.len() && first_index(s, c) == -1 implies s[j] != c by {
            if j > 0 {
                assert(s.drop_first()[j - 1] == s[j]);
            }
        }
        assert forall|j: int| 0 <= j < first_index(s, c) implies s[j] != c by {
            if j > 0 {
                assert(s.drop_first()[j - 1] == s[j]);
            }
        }
    }
}

/// The segments of `s` between occurrences of the separator `sep`, in order.
/// A string without the separator is one segment; each separator ends a
/// segment, so consecutive separators produce empty segments.
pub open spec fn split_on(s: Seq<char>, sep: char) -> Seq<Seq<char>>
    decreases s.len(),
    via split_on_decreases
{
    let i = first_index(s, sep);
    if i < 0 {
        seq![s]
    } else {
        seq![s.take(i)] + split_on(s.skip(i + 1), sep)
    }
}

#[via_fn]
proof fn split_on_decreases(s: Seq<char>, sep: char) {
    lemma_first_index_spec(s, sep);
}

/// Whether `c` is an ASCII decimal digit.
pub open spec fn is_digit(c: char) -> bool {
    '0' <= c && c <= '9'
}

/// The numeric value of the digit `c`.
pub open spec fn digit_val(c: char) -> int {
    c as int - '0' as int
}

/// Whether every character of `s` is an ASCII decimal digit.
pub open spec fn all_digits(s: Seq<char>) -> bool {
    forall|i: int| 0 <= i < s.len() ==> is_digit(s[i])
}

/// The number the digit string `s` denotes in base 10.
pub open spec fn digits_val(s: Seq<char>) -> int
    decreases s.len(),
{
    if s.len() == 0 {
        0
    } else {
        10 * digits_val(s.drop_last()) + digit_val(s.last())
    }
}

/// A string of digits denotes a non-negative number.
pub proof fn lemma_digits_val_nonneg(s: Seq<char>)
    requires
        all_digits(s),
    ensures
        digits_val(s) >= 0,
    decreases s.len(),
{
    if s.len() > 0 {
        assert forall|i: int| 0 <= i < s.drop_last().len() implies is_digit(
            s.drop_last()[i],
        ) by {
            assert(s.drop_last()[i] == s[i]);
        }
        lemma_digits_val_nonneg(s.drop_last());
    }
}

/// Dropping trailing digits cannot increase the denoted number.
pub proof fn lemma_digits_val_prefix(s: Seq<char>, i: int)
    requires
        all_digits(s),
        0 <= i <= s.len(),
    ensures
        digits_val(s.take(i)) <= digits_val(s),
    decreases s.len() - i,
{
    assert forall|k: int, j: int| 0 <= k <= s.len() && 0 <= j < k implies is_digit(
        s.take(k)[j],
    ) by {
        assert(s.take(k)[j] == s[j]);
    }
    if i == s.len() {
        assert(s.take(i) =~= s);
    } else {
        lemma_digits_val_prefix(s, i + 1);
        assert(s.take(i + 1).drop_last() =~= s.take(i));
        assert(s.take(i + 1).last() == s[i]);
        lemma_digits_val_nonneg(s.take(i));
        assert(digits_val(s.take(i + 1)) == 10 * digits_val(s.take(i)) + digit_val(s[i]));
    }
}

/// The unsigned integer the literal `s` denotes, if any: an optional leading
/// `+`, then at least one decimal digit, and a value that fits in `usize`.
pub open spec fn spec_parse_usize(s: Seq<char>) -> Option<usize> {
    let t = if s.len() > 0 && s[0] == '+' {
        s.drop_first()
    } else {
        s
    };
    if t.len() > 0 && all_digits(t) && digits_val(t) <= usize::MAX {
        Some(digits_val(t) as usize)
    } else {
        None
    }
}

/// The recognized key that the wire name `k` denotes, if any.
pub open spec fn key_of(k: Seq<char>) -> Option<ConfigKey> {
    if k == "time"@ {
        Some(ConfigKey::Time)
    } else if k == "count"@ {
        Some(ConfigKey::Count)
    } else if k == "printHeapHistogram"@ {
        Some(ConfigKey::PrintHeapHistogram)
    } else if k == "heapHistogramMaxEntries"@ {
        Some(ConfigKey::HeapHistogramMaxEntries)
    } else if k == "printMemoryUsage"@ {
        Some(ConfigKey::PrintMemoryUsage)
    } else {
        None
    }
}

/// The record `p` with the field named by `k` set from the parsed integer
/// `n`. Boolean fields coerce by "nonzero means true".
pub open spec fn set_key(p: AgentParameters, k: ConfigKey, n: usize) -> AgentParameters {
    match k {
        ConfigKey::Time => AgentParameters { time_threshold: n, ..p },
        ConfigKey::Count => AgentParameters { count_threshold: n, ..p },
        ConfigKey::PrintHeapHistogram => AgentParameters { print_heap_histogram: n != 0, ..p },
        ConfigKey::HeapHistogramMaxEntries => AgentParameters {
            heap_histogram_max_entries: n,
            ..p
        },
        ConfigKey::PrintMemoryUsage => AgentParameters { print_memory_usage: n != 0, ..p },
    }
}

/// The effect of one entry `e` on the record `p`: an empty entry changes
/// nothing; an entry without `=` is malformed; an unrecognized key fails;
/// a recognized key with an empty value changes nothing; otherwise the value
/// must be an unsigned integer literal and overwrites the field.
pub open spec fn apply_entry(p: AgentParameters, e: Seq<char>) -> Result<
    AgentParameters,
    SpecError,
> {
    if e.len() == 0 {
        Ok(p)
    } else {
        let i = first_index(e, '=');
        if i < 0 {
            Err(SpecError::MalformedEntry(e))
        } else {
            let key = e.take(i);
            let value = e.skip(i + 1);
            match key_of(key) {
                None => Err(SpecError::UnknownKey(key)),
                Some(k) => {
                    if value.len() == 0 {
                        Ok(p)
                    } else {
                        match spec_parse_usize(value) {
                            Some(n) => Ok(set_key(p, k, n)),
                            None => Err(SpecError::InvalidNumber(value)),
                        }
                    }
                },
            }
        }
    }
}

/// The entries `es` folded left to right over the record `p`, stopping at
/// the first failure.
pub open spec fn parse_entries(p: AgentParameters, es: Seq<Seq<char>>) -> Result<
    AgentParameters,
    SpecError,
>
    decreases es.len(),
{
    if es.len() == 0 {
        Ok(p)
    } else {
        match apply_entry(p, es[0]) {
            Ok(p2) => parse_entries(p2, es.drop_first()),
            Err(e) => Err(e),
        }
    }
}

/// The meaning of a whole option string: its comma-separated entries folded
/// over the default record.
pub open spec fn spec_parse(s: Seq<char>) -> Result<AgentParameters, SpecError> {
    parse_entries(default_parameters(), split_on(s, ','))
}

} // verus!
