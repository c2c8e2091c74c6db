//! The executable parser, proved to return exactly what the model says.

use vstd::prelude::*;

use crate::model::all_digits;
use crate::model::apply_entry;
use crate::model::digit_val;
use crate::model::digits_val;
use crate::model::first_index;
use crate::model::is_digit;
use crate::model::key_of;
use crate::model::lemma_digits_val_prefix;
use crate::model::lemma_first_index_spec;
use crate::model::parse_entries;
use crate::model::set_key;
use crate::model::spec_parse;
use crate::model::spec_parse_usize;
use crate::model::split_on;
use crate::params::AgentParameters;
use crate::params::ConfigKey;
use crate::params::ParseError;
use crate::params::SpecError;

verus! {

/// Character-by-character equality of two strings.
fn str_eq(a: &str, b: &str) -> (r: bool)
    ensures
        r == (a@ == b@),
{
    let na = a.unicode_len();
    let nb = b.unicode_len();
    if na != nb {
        return false;
    }
    let mut i: usize = 0;
    while i < na
        invariant
            0 <= i <= na,
            na == a@.len(),
            na == b@.len(),
            forall|j: int| 0 <= j < i ==> a@[j] == b@[j],
        decreases na - i,
    {
        if a.get_char(i) != b.get_char(i) {
            return false;
        }
        i = i + 1;
    }
    proof {
        assert(a@ =~= b@);
    }
    true
}

/// The recognized key that the wire name denotes, if any.
fn lookup_key(key: &str) -> (r: Option<ConfigKey>)
    ensures
        r == key_of(key@),
{
    if str_eq(key, "time") {
        Some(ConfigKey::Time)
    } else if str_eq(key, "count") {
        Some(ConfigKey::Count)
    } else if str_eq(key, "printHeapHistogram") {
        Some(ConfigKey::PrintHeapHistogram)
    } else if str_eq(key, "heapHistogramMaxEntries") {
        Some(ConfigKey::HeapHistogramMaxEntries)
    } else if str_eq(key, "printMemoryUsage") {
        Some(ConfigKey::PrintMemoryUsage)
    } else {
        None
    }
}

/// The record `p` with the field named by `k` overwritten from `n`.
fn set_with(p: AgentParameters, k: ConfigKey, n: usize) -> (r: AgentParameters)
    ensures
        r == set_key(p, k, n),
{
    match k {
        ConfigKey::Time => AgentParameters { time_threshold: n, ..p },
        ConfigKey::Count => AgentParameters { count_threshold: n, ..p },
        ConfigKey::PrintHeapHistogram => AgentParameters { print_heap_histogram: n != 0, ..p },
        ConfigKey::HeapHistogramMaxEntries => AgentParameters {
            heap_histogram_max_entries: n,
            ..p
        },
        ConfigKey::PrintMemoryUsage => AgentParameters { print_memory_usage: n != 0, ..p },
    }
}

/// Parses `s` as an unsigned integer literal: an optional leading `+`, then
/// at least one decimal digit, with a value that fits in `usize`.
fn parse_usize_str(s: &str) -> (r: Option<usize>)
    ensures
        r == spec_parse_usize(s@),
{
    let m = s.unicode_len();
    let start: usize = if m > 0 && s.get_char(0) == '+' {
        1
    } else {
        0
    };
    let ghost t = s@.skip(start as int);
    proof {
        if start == 1 {
            assert(t =~= s@.drop_first());
        } else {
            assert(t =~= s@);
        }
    }
    if start == m {
        return None;
    }
    let mut val: usize = 0;
    let mut i: usize = start;
    while i < m
        invariant
            start <= i <= m,
            m == s@.len(),
            t == s@.skip(start as int),
            t == (if s@.len() > 0 && s@[0] == '+' {
                s@.drop_first()
            } else {
                s@
            }),
            t.len() == m - start,
            all_digits(t.take(i - start)),
            val == digits_val(t.take(i - start)),
        decreases m - i,
    {
        let c = s.get_char(i);
        let d: u32 = c as u32;
        let ghost k = i - start;
        proof {
            assert(t[k] == s@[i as int]);
        }
        if d < 48 || d > 57 {
            proof {
                assert(!is_digit(t[k]));
            }
            return None;
        }
        let dd: usize = (d - 48) as usize;
        proof {
            assert(is_digit(c));
            assert(digit_val(c) == dd as int);
            assert(t.take(k + 1).drop_last() =~= t.take(k));
            assert(t.take(k + 1).last() == t[k]);
            assert(digits_val(t.take(k + 1)) == 10 * (val as int) + dd as int);
            assert forall|j: int| 0 <= j < k + 1 implies is_digit(#[trigger] t.take(k + 1)[j]) by {
                if j < k {
                    assert(t.take(k + 1)[j] == t.take(k)[j]);
                } else {
                    assert(t.take(k + 1)[j] == t[k]);
                }
            }
        }
        let next = match val.checked_mul(10) {
            Some(v10) => v10.checked_add(dd),
            None => None,
        };
        match next {
            Some(nv) => {
                val = nv;
            },
            None => {
                proof {
                    assert(digits_val(t.take(k + 1)) > usize::MAX);
                    if all_digits(t) && digits_val(t) <= usize::MAX {
                        lemma_digits_val_prefix(t, k + 1);
                        assert(false);
                    }
                }
                return None;
            },
        }
        i = i + 1;
    }
    proof {
        assert(t.take(i - start) =~= t);
    }
    Some(val)
}

/// The effect of one comma-delimited entry on the record.
fn apply_entry_exec(p: AgentParameters, entry: &str) -> (r: Result<AgentParameters, ParseError>)
    ensures
        match r {
            Ok(p2) => apply_entry(p, entry@) == Ok::<AgentParameters, SpecError>(p2),
            Err(e) => apply_entry(p, entry@) == Err::<AgentParameters, SpecError>(e@),
        },
{
    let m = entry.unicode_len();
    if m == 0 {
        return Ok(p);
    }
    let mut eq: usize = 0;
    loop
        invariant
            0 <= eq <= m,
            m == entry@.len(),
            forall|j: int| 0 <= j < eq ==> entry@[j] != '=',
        ensures
            0 <= eq <= m,
            forall|j: int| 0 <= j < eq ==> entry@[j] != '=',
            eq == m || entry@[eq as int] == '=',
        decreases m - eq,
    {
        if eq == m {
            break;
        }
        if entry.get_char(eq) == '=' {
            break;
        }
        eq = eq + 1;
    }
    proof {
        lemma_first_index_spec(entry@, '=');
    }
    if eq == m {
        proof {
            assert(first_index(entry@, '=') == -1);
        }
        return Err(ParseError::MalformedEntry(entry.to_owned()));
    }
    proof {
        assert(first_index(entry@, '=') == eq);
    }
    let key = entry.substring_char(0, eq);
    let value = entry.substring_char(eq + 1, m);
    proof {
        assert(key@ =~= entry@.take(eq as int));
        assert(value@ =~= entry@.skip(eq + 1));
    }
    let k = match lookup_key(key) {
        Some(k) => k,
        None => {
            return Err(ParseError::UnknownKey(key.to_owned()));
        },
    };
    if value.unicode_len() == 0 {
        return Ok(p);
    }
    match parse_usize_str(value) {
        Some(n) => Ok(set_with(p, k, n)),
        None => Err(ParseError::InvalidNumber(value.to_owned())),
    }
}

impl AgentParameters {
    /// Parses a comma-separated `key=value` option string into a
    /// configuration record in one left-to-right pass, or reports the first
    /// failure. The result is exactly what the model assigns to the string:
    /// empty entries are skipped, recognized keys overwrite their field
    /// (last write wins), and any malformed entry, unknown key or invalid
    /// number aborts the whole parse.
    pub fn parse(options: &str) -> (r: Result<AgentParameters, ParseError>)
        ensures
            match r {
                Ok(p) => spec_parse(options@) == Ok::<AgentParameters, SpecError>(p),
                Err(e) => spec_parse(options@) == Err::<AgentParameters, SpecError>(e@),
            },
    {
        let n = options.unicode_len();
        let mut p = AgentParameters::default();
        let mut pos: usize = 0;
        proof {
            assert(options@.skip(0) =~= options@);
        }
        loop
            invariant
                n == options@.len(),
                pos <= n,
                spec_parse(options@) == parse_entries(p, split_on(options@.skip(pos as int), ',')),
            decreases n - pos,
        {
            let mut end: usize = pos;
            loop
                invariant
                    pos <= end <= n,
                    n == options@.len(),
                    forall|j: int| pos <= j < end ==> options@[j] != ',',
                ensures
                    pos <= end <= n,
                    forall|j: int| pos <= j < end ==> options@[j] != ',',
                    end == n || options@[end as int] == ',',
                decreases n - end,
            {
                if end == n {
                    break;
                }
                if options.get_char(end) == ',' {
                    break;
                }
                end = end + 1;
            }
            let ghost suffix = options@.skip(pos as int);
            let ghost fi = first_index(suffix, ',');
            proof {
                lemma_first_index_spec(suffix, ',');
                assert forall|j: int| 0 <= j < end - pos implies suffix[j] != ',' by {
                    assert(suffix[j] == options@[j + pos]);
                }
                if end < n {
                    assert(suffix[end - pos] == options@[end as int]);
                    assert(fi == end - pos);
                } else {
                    if fi >= 0 {
                        assert(suffix[fi] == options@[fi + pos]);
                        assert(false);
                    }
                }
            }
            let entry = options.substring_char(pos, end);
            proof {
                assert(entry@ =~= suffix.take(end - pos));
                if fi >= 0 {
                    assert(split_on(suffix, ',') == seq![suffix.take(fi)] + split_on(
                        suffix.skip(fi + 1),
                        ',',
                    ));
                    assert(split_on(suffix, ',')[0] == entry@);
                    assert(split_on(suffix, ',').drop_first() =~= split_on(
                        suffix.skip(fi + 1),
                        ',',
                    ));
                } else {
                    assert(split_on(suffix, ',') == seq![suffix]);
                    assert(entry@ =~= suffix);
                }
            }
            match apply_entry_exec(p, entry) {
                Err(e) => {
                    return Err(e);
                },
                Ok(p2) => {
                    if end == n {
                        proof {
                            let es = split_on(suffix, ',');
                            assert(es == seq![suffix]);
                            assert(es.len() == 1);
                            assert(es[0] == suffix);
                            assert(apply_entry(p, suffix) == Ok::<AgentParameters, SpecError>(p2));
                            assert(es.drop_first() =~= Seq::<Seq<char>>::empty());
                            assert(parse_entries(p2, es.drop_first()) == Ok::<
                                AgentParameters,
                                SpecError,
                            >(p2));
                            assert(parse_entries(p, es) == Ok::<AgentParameters, SpecError>(p2));
                        }
                        return Ok(p2);
                    }
                    proof {
                        assert(suffix.skip(fi + 1) =~= options@.skip(end + 1));
                    }
                    p = p2;
                    pos = end + 1;
                },
            }
        }
    }
}

} // verus!
