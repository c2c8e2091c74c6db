//! General properties of the model, stated and proved once for all inputs.

use vstd::prelude::*;

use crate::model::apply_entry;
use crate::model::first_index;
use crate::model::key_of;
use crate::model::lemma_first_index_spec;
use crate::model::parse_entries;
use crate::model::set_key;
use crate::model::spec_parse;
use crate::model::spec_parse_usize;
use crate::model::split_on;
use crate::params::AgentParameters;
use crate::params::SpecError;
use crate::params::default_parameters;

verus! {

/// A recognized wire key contains neither the key/value separator `=` nor
/// the entry separator `,`.
pub proof fn lemma_recognized_key_chars(k: Seq<char>)
    requires
        key_of(k) is Some,
    ensures
        forall|j: int| 0 <= j < k.len() ==> k[j] != '=',
        forall|j: int| 0 <= j < k.len() ==> k[j] != ',',
{
    reveal_strlit("time");
    reveal_strlit("count");
    reveal_strlit("printHeapHistogram");
    reveal_strlit("heapHistogramMaxEntries");
    reveal_strlit("printMemoryUsage");
}

/// A string without the separator splits into the single segment it is.
pub proof fn lemma_split_on_no_sep(s: Seq<char>, sep: char)
    requires
        forall|j: int| 0 <= j < s.len() ==> s[j] != sep,
    ensures
        split_on(s, sep) == seq![s],
{
    lemma_first_index_spec(s, sep);
    if first_index(s, sep) >= 0 {
        assert(s[first_index(s, sep)] == sep);
        assert(false);
    }
}

/// What an entry `key=value` with a recognized key and a non-empty value
/// does to the record: the value must be an unsigned integer literal, and it
/// overwrites the key's field, whatever the field held before.
pub proof fn lemma_apply_entry_set(p: AgentParameters, k: Seq<char>, v: Seq<char>)
    requires
        key_of(k) is Some,
        v.len() > 0,
    ensures
        apply_entry(p, k + seq!['='] + v) == (match spec_parse_usize(v) {
            Some(n) => Ok::<AgentParameters, SpecError>(set_key(p, key_of(k).unwrap(), n)),
            None => Err::<AgentParameters, SpecError>(SpecError::InvalidNumber(v)),
        }),
{
    let e = k + seq!['='] + v;
    lemma_recognized_key_chars(k);
    lemma_first_index_spec(e, '=');
    let fi = first_index(e, '=');
    assert(e[k.len() as int] == '=');
    assert(fi != -1);
    if fi < k.len() {
        assert(e[fi] == k[fi]);
        assert(false);
    }
    assert(fi == k.len());
    assert(e.take(fi) =~= k);
    assert(e.skip(fi + 1) =~= v);
}

/// Supplying a recognized key with an empty value changes nothing: the
/// record keeps whatever that field already held.
pub proof fn lemma_empty_value_keeps_record(p: AgentParameters, k: Seq<char>)
    requires
        key_of(k) is Some,
    ensures
        apply_entry(p, k + seq!['=']) == Ok::<AgentParameters, SpecError>(p),
{
    let e = k + seq!['='];
    lemma_recognized_key_chars(k);
    lemma_first_index_spec(e, '=');
    let fi = first_index(e, '=');
    assert(e[k.len() as int] == '=');
    assert(fi != -1);
    if fi < k.len() {
        assert(e[fi] == k[fi]);
        assert(false);
    }
    assert(fi == k.len());
    assert(e.take(fi) =~= k);
    assert(e.skip(fi + 1) =~= Seq::<char>::empty());
}

/// An option string consisting of one recognized key with an empty value
/// parses to the full default record: the empty value does not override the
/// default with zero or anything else.
pub proof fn lemma_empty_value_yields_default(k: Seq<char>)
    requires
        key_of(k) is Some,
    ensures
        spec_parse(k + seq!['=']) == Ok::<AgentParameters, SpecError>(default_parameters()),
{
    let e = k + seq!['='];
    lemma_recognized_key_chars(k);
    lemma_split_on_no_sep(e, ',');
    lemma_empty_value_keeps_record(default_parameters(), k);
    assert(seq![e].drop_first() =~= Seq::<Seq<char>>::empty());
    assert(parse_entries(default_parameters(), seq![e].drop_first()) == Ok::<
        AgentParameters,
        SpecError,
    >(default_parameters()));
}

/// Folding one more entry at the end applies it to the result of the fold
/// so far: entries take effect strictly left to right.
pub proof fn lemma_parse_entries_snoc(p: AgentParameters, es: Seq<Seq<char>>, e: Seq<char>)
    ensures
        parse_entries(p, es.push(e)) == (match parse_entries(p, es) {
            Ok(p2) => apply_entry(p2, e),
            Err(err) => Err::<AgentParameters, SpecError>(err),
        }),
    decreases es.len(),
{
    if es.len() == 0 {
        assert(es.push(e)[0] == e);
        assert(es.push(e).drop_first() =~= Seq::<Seq<char>>::empty());
        match apply_entry(p, e) {
            Ok(p2) => {
                assert(parse_entries(p2, es.push(e).drop_first()) == Ok::<
                    AgentParameters,
                    SpecError,
                >(p2));
            },
            Err(_) => {},
        }
    } else {
        assert(es.push(e)[0] == es[0]);
        assert(es.push(e).drop_first() =~= es.drop_first().push(e));
        match apply_entry(p, es[0]) {
            Ok(p2) => {
                lemma_parse_entries_snoc(p2, es.drop_first(), e);
            },
            Err(_) => {},
        }
    }
}

/// Later entries for the same key silently overwrite earlier ones: with a
/// non-empty final value, an earlier entry for the same key makes no
/// difference to the outcome.
pub proof fn lemma_last_write_wins(
    p: AgentParameters,
    es: Seq<Seq<char>>,
    k: Seq<char>,
    v1: Seq<char>,
    v2: Seq<char>,
)
    requires
        key_of(k) is Some,
        v1.len() == 0 || spec_parse_usize(v1) is Some,
        v2.len() > 0,
    ensures
        parse_entries(p, es.push(k + seq!['='] + v1).push(k + seq!['='] + v2)) == parse_entries(
            p,
            es.push(k + seq!['='] + v2),
        ),
{
    let e1 = k + seq!['='] + v1;
    let e2 = k + seq!['='] + v2;
    lemma_parse_entries_snoc(p, es.push(e1), e2);
    lemma_parse_entries_snoc(p, es, e1);
    lemma_parse_entries_snoc(p, es, e2);
    match parse_entries(p, es) {
        Ok(q) => {
            if v1.len() == 0 {
                assert(e1 =~= k + seq!['=']);
                lemma_empty_value_keeps_record(q, k);
                assert(apply_entry(q, e1) == Ok::<AgentParameters, SpecError>(q));
            } else {
                lemma_apply_entry_set(q, k, v1);
            }
            match apply_entry(q, e1) {
                Ok(q1) => {
                    lemma_apply_entry_set(q1, k, v2);
                    lemma_apply_entry_set(q, k, v2);
                },
                Err(_) => {
                    assert(false);
                },
            }
        },
        Err(_) => {},
    }
}

/// Parsing has no hidden state: the outcome is a function of the input
/// string alone, so parsing the same string twice yields structurally equal
/// results.
pub proof fn lemma_parse_deterministic(s1: Seq<char>, s2: Seq<char>)
    requires
        s1 == s2,
    ensures
        spec_parse(s1) == spec_parse(s2),
{
}

} // verus!
