//! Sample claims and sample paths, numbered from zero.

use crate::json::{with_entry, EntriesView, JsonMap, JsonValue, ValueView};
use crate::text::{decimal, decimal_string, joined, texts};
use vstd::prelude::*;

verus! {

/// The name of the sample claim `i`.
pub open spec fn sample_key(i: nat) -> Seq<char> {
    "Claim Key "@ + decimal(i)
}

/// The value of the sample claim `i`.
pub open spec fn sample_value(i: nat) -> Seq<char> {
    "Claim Value "@ + decimal(i)
}

/// The path that leads to the sample claim `i`.
pub open spec fn sample_path(i: nat) -> Seq<char> {
    "/Claim Key "@ + decimal(i)
}

/// The fields after the sample claims below `n` are put in, in their order.
pub open spec fn with_samples(entries: EntriesView, n: nat) -> EntriesView
    decreases n,
{
    if n == 0 {
        entries
    } else {
        with_entry(
            with_samples(entries, (n - 1) as nat),
            sample_key((n - 1) as nat),
            ValueView::Text(sample_value((n - 1) as nat)),
        )
    }
}

/// The paths that lead to the sample claims below `n`, in their order.
pub open spec fn sample_paths(n: nat) -> Seq<Seq<char>> {
    Seq::new(n, |i: int| sample_path(i as nat))
}

/// Puts the sample claims below `n_claims` into `claim_map`.
pub fn populate_map(claim_map: &mut JsonMap, n_claims: usize)
    ensures
        final(claim_map)@ == with_samples(old(claim_map)@, n_claims as nat),
{
    let mut i: usize = 0;
    while i < n_claims
        invariant
            i <= n_claims,
            claim_map@ == with_samples(old(claim_map)@, i as nat),
        decreases n_claims - i,
    {
        let number = decimal_string(i as u64);
        let key = joined("Claim Key ", number.as_str());
        let value = joined("Claim Value ", number.as_str());
        let _ = claim_map.insert(key, JsonValue::Text(value));
        i = i + 1;
    }
}

/// Puts the paths to the sample claims below `n_conceals` in front of what
/// `concealments` holds.
pub fn populate_concealments(concealments: &mut Vec<String>, n_conceals: usize)
    ensures
        texts(final(concealments)@) == sample_paths(n_conceals as nat) + texts(
            old(concealments)@,
        ),
{
    let ghost before = texts(concealments@);
    let mut i: usize = 0;
    while i < n_conceals
        invariant
            i <= n_conceals,
            texts(concealments@) == sample_paths(i as nat) + before,
        decreases n_conceals - i,
    {
        let number = decimal_string(i as u64);
        let path = joined("/Claim Key ", number.as_str());
        let ghost held = texts(concealments@);
        assert(held.len() == concealments@.len());
        concealments.insert(i, path);
        assert(texts(concealments@) =~= held.insert(i as int, path@));
        assert(held.insert(i as int, path@) =~= sample_paths((i + 1) as nat) + before);
        i = i + 1;
    }
}

} // verus!
