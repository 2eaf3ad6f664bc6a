//! Dora: the tile that an indicator points at, and counting dora in a hand.
use vstd::prelude::*;
use crate::tile::TileName;

verus! {

/// Index of the dora that the indicator with index `i` points at: the next
/// number of the same suit (9 wraps to 1), the next wind (North wraps to
/// East), and among the dragons Red -> White -> Green -> Red. Index 0 and
/// every other index give 0.
pub open spec fn dora_index_of(i: int) -> int {
    if 1 <= i <= 27 {
        if (i - 1) % 9 == 8 {
            i - 8
        } else {
            i + 1
        }
    } else if 28 <= i <= 30 {
        i + 1
    } else if i == 31 {
        28
    } else if i == 32 {
        34
    } else if i == 33 {
        32
    } else if i == 34 {
        33
    } else {
        0
    }
}

/// The dora that an indicator points at.
pub open spec fn spec_indicator_to_dora(indicator: TileName) -> TileName {
    TileName::spec_from_index(dora_index_of(indicator.id()))
}

/// The dora tile that `indicator` points at (`NoTile` for `NoTile`).
pub fn indicator_to_dora(indicator: TileName) -> (d: TileName)
    ensures
        d == spec_indicator_to_dora(indicator),
        d.id() == dora_index_of(indicator.id()),
{
    let i = indicator.index();
    let j: usize = if 1 <= i && i <= 27 {
        if (i - 1) % 9 == 8 {
            i - 8
        } else {
            i + 1
        }
    } else if 28 <= i && i <= 30 {
        i + 1
    } else if i == 31 {
        28
    } else if i == 32 {
        34
    } else if i == 33 {
        32
    } else if i == 34 {
        33
    } else {
        0
    };
    TileName::from_usize(j)
}

/// Number of dora in `counts` for the indicators `inds`: for each indicator,
/// the count of the tile it points at (an indicator given twice counts twice).
pub open spec fn dora_total(counts: Seq<u8>, inds: Seq<TileName>) -> int
    decreases inds.len(),
{
    if inds.len() == 0 {
        0
    } else {
        dora_total(counts, inds.drop_last()) + counts[dora_index_of(inds.last().id())] as int
    }
}

/// The dora total is at most 255 per indicator, and never negative.
pub proof fn lemma_dora_total_bound(counts: Seq<u8>, inds: Seq<TileName>)
    requires
        counts.len() == 35,
    ensures
        0 <= dora_total(counts, inds) <= 255 * inds.len(),
    decreases inds.len(),
{
    if inds.len() > 0 {
        lemma_dora_total_bound(counts, inds.drop_last());
    }
}

/// Counting dora is additive over the indicators: the dora of two lists of
/// indicators is the sum of the dora of each list.
pub proof fn lemma_dora_total_append(counts: Seq<u8>, a: Seq<TileName>, b: Seq<TileName>)
    ensures
        dora_total(counts, a + b) == dora_total(counts, a) + dora_total(counts, b),
    decreases b.len(),
{
    if b.len() == 0 {
        assert(a + b =~= a);
    } else {
        lemma_dora_total_append(counts, a, b.drop_last());
        assert((a + b).drop_last() =~= a + b.drop_last());
    }
}

/// Number of dora tiles in the hand counts (indices 1..=34) for the given
/// indicators.
pub fn count_dora(counts: &[u8; 35], dora_indicators: &[TileName]) -> (total: usize)
    requires
        dora_indicators@.len() * 255 <= usize::MAX,
    ensures
        total == dora_total(counts@, dora_indicators@),
{
    let mut total: usize = 0;
    let mut k: usize = 0;
    while k < dora_indicators.len()
        invariant
            k <= dora_indicators@.len(),
            dora_indicators@.len() * 255 <= usize::MAX,
            total == dora_total(counts@, dora_indicators@.subrange(0, k as int)),
            total <= 255 * k,
        decreases dora_indicators@.len() - k,
    {
        let d = indicator_to_dora(dora_indicators[k]);
        let c = counts[d.index()];
        proof {
            let s = dora_indicators@.subrange(0, k as int + 1);
            assert(s.drop_last() =~= dora_indicators@.subrange(0, k as int));
        }
        total = total + c as usize;
        k = k + 1;
    }
    assert(dora_indicators@.subrange(0, k as int) =~= dora_indicators@);
    total
}

} // verus!
