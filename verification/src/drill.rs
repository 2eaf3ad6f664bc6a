//! The engine of "what to discard" drills; its problems are drawn at random.
//!
//! A drill hand is built from randomly drawn shapes (runs, a pair, partial
//! sets) and then filled with random tiles up to fourteen; every tile is
//! taken only while fewer than four copies of it are held. The steps that
//! take the tiles are here; drawing the random numbers is left to the caller.
use vstd::prelude::*;
use crate::hand::Hand;
use crate::tile::TileName;

verus! {

/// Generates and grades "what to discard" problems.
///
/// The type holds no state. Making a problem draws random hands and grading
/// an answer compares expected values, which are floating point, so both are
/// methods that the application layer gives this type; the integer facts
/// that grading rests on come from `expectation::evaluate_discard_candidate`,
/// and the hands are built with the steps of this module.
pub struct DrillEngine;

/// The concealed tiles and counts after taking, in order, the tile of each
/// index of `idxs` that the counts then hold fewer than four copies of.
pub open spec fn add_available(tiles: Seq<TileName>, counts: Seq<u8>, idxs: Seq<usize>) -> (Seq<TileName>, Seq<u8>)
    decreases idxs.len(),
{
    if idxs.len() == 0 {
        (tiles, counts)
    } else {
        let prev = add_available(tiles, counts, idxs.drop_last());
        let i = idxs.last() as int;
        if prev.1[i] < 4 {
            (prev.0.push(TileName::spec_from_index(i)), prev.1.update(i, (prev.1[i] + 1) as u8))
        } else {
            prev
        }
    }
}

/// Takes the tile of each index of `idxs` in order, skipping one of which
/// four copies are held already.
pub fn add_tiles_if_available(hand: &mut Hand, idxs: &[usize])
    requires
        old(hand).wf(),
        old(hand).spec_tiles().len() + idxs@.len() <= 14,
        forall|k: int| 0 <= k < idxs@.len() ==> 1 <= #[trigger] idxs@[k] <= 34,
    ensures
        final(hand).wf(),
        (final(hand).spec_tiles(), final(hand).spec_counts())
            == add_available(old(hand).spec_tiles(), old(hand).spec_counts(), idxs@),
        final(hand).spec_melds() == old(hand).spec_melds(),
{
    let ghost t0 = hand.spec_tiles();
    let ghost c0 = hand.spec_counts();
    let mut k: usize = 0;
    proof {
        assert(idxs@.subrange(0, 0) =~= Seq::<usize>::empty());
    }
    while k < idxs.len()
        invariant
            k <= idxs@.len(),
            hand.wf(),
            t0.len() + idxs@.len() <= 14,
            forall|j: int| 0 <= j < idxs@.len() ==> 1 <= #[trigger] idxs@[j] <= 34,
            (hand.spec_tiles(), hand.spec_counts()) == add_available(t0, c0, idxs@.subrange(0, k as int)),
            hand.spec_tiles().len() <= t0.len() + k,
            hand.spec_melds() == old(hand).spec_melds(),
        decreases idxs@.len() - k,
    {
        let i = idxs[k];
        proof {
            assert(idxs@.subrange(0, k + 1).drop_last() =~= idxs@.subrange(0, k as int));
            assert(idxs@.subrange(0, k + 1).last() == i);
            hand.lemma_len();
        }
        let counts = hand.tile_counts();
        if counts[i] < 4 {
            let t = TileName::from_usize(i);
            hand.push(t);
        }
        k = k + 1;
    }
    proof {
        assert(idxs@.subrange(0, idxs@.len() as int) =~= idxs@);
    }
}

/// Takes the tile of index `idx` unless four copies are held already.
pub fn add_tile_if_available(hand: &mut Hand, idx: usize)
    requires
        old(hand).wf(),
        old(hand).spec_tiles().len() < 14,
        1 <= idx <= 34,
    ensures
        final(hand).wf(),
        (final(hand).spec_tiles(), final(hand).spec_counts())
            == add_available(old(hand).spec_tiles(), old(hand).spec_counts(), seq![idx]),
        final(hand).spec_melds() == old(hand).spec_melds(),
{
    let a = [idx];
    proof {
        assert(a@ =~= seq![idx]);
    }
    add_tiles_if_available(hand, a.as_slice());
}

/// Takes a run of suit `suit` (0 characters, 1 circles, 2 bamboos) from
/// rank `start`: the three tiles of ranks `start..start + 3`, each while
/// available.
pub fn add_run(hand: &mut Hand, suit: usize, start: usize)
    requires
        old(hand).wf(),
        old(hand).spec_tiles().len() <= 11,
        suit < 3,
        1 <= start <= 7,
    ensures
        final(hand).wf(),
        (final(hand).spec_tiles(), final(hand).spec_counts()) == add_available(
            old(hand).spec_tiles(),
            old(hand).spec_counts(),
            seq![(9 * suit + start) as usize, (9 * suit + start + 1) as usize, (9 * suit + start + 2) as usize],
        ),
        final(hand).spec_melds() == old(hand).spec_melds(),
{
    let i = 9 * suit + start;
    let a = [i, i + 1, i + 2];
    proof {
        assert(a@ =~= seq![i, (i + 1) as usize, (i + 2) as usize]);
    }
    add_tiles_if_available(hand, a.as_slice());
}

/// Takes a pair of the tile of index `idx`, each copy while available.
pub fn add_pair(hand: &mut Hand, idx: usize)
    requires
        old(hand).wf(),
        old(hand).spec_tiles().len() <= 12,
        1 <= idx <= 34,
    ensures
        final(hand).wf(),
        (final(hand).spec_tiles(), final(hand).spec_counts())
            == add_available(old(hand).spec_tiles(), old(hand).spec_counts(), seq![idx, idx]),
        final(hand).spec_melds() == old(hand).spec_melds(),
{
    let a = [idx, idx];
    proof {
        assert(a@ =~= seq![idx, idx]);
    }
    add_tiles_if_available(hand, a.as_slice());
}

/// Takes two neighbouring tiles of suit `suit` from rank `start` (a
/// two-sided wait), each while available.
pub fn add_two_sided(hand: &mut Hand, suit: usize, start: usize)
    requires
        old(hand).wf(),
        old(hand).spec_tiles().len() <= 12,
        suit < 3,
        1 <= start <= 8,
    ensures
        final(hand).wf(),
        (final(hand).spec_tiles(), final(hand).spec_counts()) == add_available(
            old(hand).spec_tiles(),
            old(hand).spec_counts(),
            seq![(9 * suit + start) as usize, (9 * suit + start + 1) as usize],
        ),
        final(hand).spec_melds() == old(hand).spec_melds(),
{
    let i = 9 * suit + start;
    let a = [i, i + 1];
    proof {
        assert(a@ =~= seq![i, (i + 1) as usize]);
    }
    add_tiles_if_available(hand, a.as_slice());
}

} // verus!
