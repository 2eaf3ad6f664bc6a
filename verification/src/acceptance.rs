//! Acceptance: the draws that lower the shanten of a hand, and how many of
//! each are left; and the discards of a fourteen-tile hand ranked by it.
use vstd::prelude::*;
use arrayvec::ArrayVec;
use crate::tile::TileName;
use crate::hand::Hand;
use crate::shanten::{ShantenResult, calculate_shanten_from_counts, shanten_result_ok, hand_size};

verus! {

#[verifier::external_type_specification]
#[verifier::external_body]
#[verifier::reject_recursive_types(T)]
pub struct ExArrayVec<T, const CAP: usize>(ArrayVec<T, CAP>);

/// One tile that lowers the shanten, and how many copies are left unseen.
#[derive(Debug, Clone, Copy, PartialEq, Eq, Structural)]
pub struct WaitTile {
    pub tile: TileName,
    pub remaining: u8,
}

/// What a list of waits holds, in order: each wait's tile index and the
/// copies left.
pub uninterp spec fn wait_items(v: ArrayVec<WaitTile, 34>) -> Seq<(int, int)>;

/// `ArrayVec::new`: a new vector holds nothing.
#[verifier::external_body]
fn new_waits() -> (v: ArrayVec<WaitTile, 34>)
    ensures
        wait_items(v) == Seq::<(int, int)>::empty(),
{
    ArrayVec::new()
}

/// `ArrayVec::push`: appends the wait at the end. It panics on a full
/// vector, which the precondition leaves out.
#[verifier::external_body]
fn push_wait(v: &mut ArrayVec<WaitTile, 34>, w: WaitTile)
    requires
        wait_items(*old(v)).len() < 34,
    ensures
        wait_items(*final(v)) == wait_items(*old(v)).push((w.tile.id(), w.remaining as int)),
{
    v.push(w);
}

/// Indexing an `ArrayVec` (through its slice): the wait at position `i`.
/// It panics past the end, which the precondition leaves out.
#[verifier::external_body]
pub(crate) fn wait_at(v: &ArrayVec<WaitTile, 34>, i: usize) -> (w: WaitTile)
    requires
        i < wait_items(*v).len(),
    ensures
        (w.tile.id(), w.remaining as int) == wait_items(*v)[i as int],
{
    v[i]
}

/// `ArrayVec::len`: the number of waits held, which never exceeds the
/// capacity.
#[verifier::external_body]
pub(crate) fn waits_len(v: &ArrayVec<WaitTile, 34>) -> (n: usize)
    ensures
        n == wait_items(*v).len(),
        n <= 34,
{
    v.len()
}

/// What a list of tiles holds, in order.
pub uninterp spec fn tile_items(v: ArrayVec<TileName, 34>) -> Seq<TileName>;

/// `ArrayVec::new`: a new list of tiles holds nothing.
#[verifier::external_body]
fn new_tiles() -> (v: ArrayVec<TileName, 34>)
    ensures
        tile_items(v) == Seq::<TileName>::empty(),
{
    ArrayVec::new()
}

/// `ArrayVec::push`: appends the tile at the end. It panics on a full
/// list, which the precondition leaves out.
#[verifier::external_body]
fn push_tile(v: &mut ArrayVec<TileName, 34>, t: TileName)
    requires
        tile_items(*old(v)).len() < 34,
    ensures
        tile_items(*final(v)) == tile_items(*old(v)).push(t),
{
    v.push(t);
}

/// `ArrayVec::as_slice`: the tiles held, in order, as a slice.
#[verifier::external_body]
pub(crate) fn tiles_as_slice(v: &ArrayVec<TileName, 34>) -> (s: &[TileName])
    ensures
        s@ == tile_items(*v),
{
    v.as_slice()
}

/// The acceptance of a hand.
#[derive(Debug, PartialEq, Eq)]
pub struct AcceptanceResult {
    /// The current shanten.
    pub current_shanten: i8,
    /// The tiles that lower it, by index.
    pub waits: ArrayVec<WaitTile, 34>,
    /// Copies of those tiles left unseen, together.
    pub total_remaining: usize,
    /// How many tiles lower it.
    pub tile_types_count: usize,
}

/// `s` is the least shanten of the counts, as `calculate_shanten_from_counts`
/// gives it.
pub open spec fn shanten_is(counts: Seq<u8>, open: int, s: int) -> bool {
    exists|r: ShantenResult| #[trigger] shanten_result_ok(counts, open, r) && r.min_shanten == s
}

/// Copies of a tile left unseen when `seen` are seen.
pub open spec fn unseen(seen: int) -> int {
    if seen >= 4 { 0 } else { 4 - seen }
}

/// The waits among the indices `1..n`: index `i` is one when the hand holds
/// fewer than four of it and drawing it gives the shanten `after[i]`, lower
/// than `cur`.
pub open spec fn waits_below(counts: Seq<u8>, vis: Seq<u8>, after: Seq<int>, cur: int, n: int) -> Seq<(int, int)>
    decreases n,
{
    if n <= 1 {
        Seq::empty()
    } else {
        let i = n - 1;
        let rest = waits_below(counts, vis, after, cur, i);
        if counts[i] < 4 && after[i] < cur {
            rest.push((i, unseen(vis[i] as int)))
        } else {
            rest
        }
    }
}

/// The unseen copies of the waits, together.
pub open spec fn total_unseen(w: Seq<(int, int)>) -> int
    decreases w.len(),
{
    if w.len() == 0 {
        0
    } else {
        total_unseen(w.drop_last()) + w.last().1
    }
}

/// The result is the acceptance of the counts with `open` melds, the tiles
/// seen being `vis`: the current shanten; no wait for a complete hand;
/// otherwise, for some shanten `after[i]` of the hand with one more tile
/// `i`, the waits among indices 1..=34 in order, their unseen copies
/// together, and how many they are.
pub open spec fn acceptance_ok(r: AcceptanceResult, counts: Seq<u8>, open: int, vis: Seq<u8>) -> bool {
    let cur = r.current_shanten as int;
    &&& shanten_is(counts, open, cur)
    &&& cur < 0 ==> wait_items(r.waits) == Seq::<(int, int)>::empty() && r.total_remaining == 0
        && r.tile_types_count == 0
    &&& cur >= 0 ==> exists|after: Seq<int>|
        {
            &&& after.len() == 35
            &&& forall|i: int|
                1 <= i < 35 && counts[i] < 4 ==> shanten_is(
                    counts.update(i, (counts[i] + 1) as u8),
                    open,
                    #[trigger] after[i],
                )
            &&& wait_items(r.waits) == waits_below(counts, vis, after, cur, 35)
            &&& r.total_remaining == total_unseen(waits_below(counts, vis, after, cur, 35))
            &&& r.tile_types_count == waits_below(counts, vis, after, cur, 35).len()
        }
}

proof fn lemma_waits_below_len(counts: Seq<u8>, vis: Seq<u8>, after: Seq<int>, cur: int, n: int)
    ensures
        waits_below(counts, vis, after, cur, n).len() <= if n <= 1 { 0 } else { n - 1 },
        0 <= total_unseen(waits_below(counts, vis, after, cur, n)) <= 4 * waits_below(counts, vis, after, cur, n).len(),
    decreases n,
{
    if n > 1 {
        lemma_waits_below_len(counts, vis, after, cur, n - 1);
        let rest = waits_below(counts, vis, after, cur, n - 1);
        if counts[n - 1] < 4 && after[n - 1] < cur {
            assert(rest.push((n - 1, unseen(vis[n - 1] as int))).drop_last() =~= rest);
        }
    }
}

/// The tiles whose draw lowers the shanten of a hand of thirteen tiles (or
/// counts), with the copies of each left unseen: `visible_counts` gives the
/// tiles seen (the hand, the rivers, the melds, the dora indicators); without
/// it only the hand's own tiles are seen.
pub fn calculate_acceptance(counts: &[u8; 35], open_melds_count: usize, visible_counts: Option<&[u8; 35]>) -> (r: AcceptanceResult)
    requires
        open_melds_count <= 4,
    ensures
        acceptance_ok(
            r,
            counts@,
            open_melds_count as int,
            match visible_counts {
                Some(v) => v@,
                None => counts@,
            },
        ),
{
    let current_res = calculate_shanten_from_counts(counts, open_melds_count);
    let current_shanten = current_res.min_shanten;
    let mut waits = new_waits();
    if current_shanten < 0 {
        return AcceptanceResult { current_shanten, waits, total_remaining: 0, tile_types_count: 0 };
    }
    let default_visible = *counts;
    let visible: &[u8; 35] = match visible_counts {
        Some(v) => v,
        None => &default_visible,
    };
    let ghost vis = visible@;
    let ghost cur = current_shanten as int;
    let ghost mut after: Seq<int> = Seq::new(35, |i: int| 0);
    let mut working = *counts;
    let mut total_remaining: usize = 0;
    let mut i: usize = 1;
    while i <= 34
        invariant
            1 <= i <= 35,
            working@ == counts@,
            open_melds_count <= 4,
            after.len() == 35,
            cur >= 0,
            cur == current_shanten as int,
            vis == visible@,
            forall|j: int| 1 <= j < i && counts@[j] < 4 ==> shanten_is(
                counts@.update(j, (counts@[j] + 1) as u8),
                open_melds_count as int,
                #[trigger] after[j],
            ),
            wait_items(waits) == waits_below(counts@, vis, after, cur, i as int),
            total_remaining == total_unseen(waits_below(counts@, vis, after, cur, i as int)),
        decreases 35 - i,
    {
        proof {
            lemma_waits_below_len(counts@, vis, after, cur, i as int);
        }
        let ghost rest = waits_below(counts@, vis, after, cur, i as int);
        if working[i] < 4 {
            working[i] = working[i] + 1;
            let next_res = calculate_shanten_from_counts(&working, open_melds_count);
            let ghost drawn = working@;
            working[i] = working[i] - 1;
            proof {
                assert(drawn == counts@.update(i as int, (counts@[i as int] + 1) as u8));
                let old_after = after;
                after = after.update(i as int, next_res.min_shanten as int);
                assert(shanten_is(drawn, open_melds_count as int, after[i as int]));
                assert(working@ =~= counts@);
                lemma_waits_below_frame(counts@, vis, old_after, after, cur, i as int);
                assert(waits_below(counts@, vis, after, cur, i as int) == rest);
            }
            if next_res.min_shanten < current_shanten {
                let seen = visible[i];
                let remaining: u8 = if seen >= 4 { 0 } else { 4 - seen };
                let tile = TileName::from_usize(i);
                proof {
                    crate::tile::lemma_tile_index(tile);
                    assert(remaining as int == unseen(vis[i as int] as int));
                }
                push_wait(&mut waits, WaitTile { tile, remaining });
                total_remaining = total_remaining + remaining as usize;
                proof {
                    let w = (i as int, unseen(vis[i as int] as int));
                    assert(waits_below(counts@, vis, after, cur, i + 1) == rest.push(w));
                    assert(rest.push(w).drop_last() =~= rest);
                    assert(total_unseen(rest.push(w)) == total_unseen(rest) + w.1);
                }
            } else {
                proof {
                    assert(waits_below(counts@, vis, after, cur, i + 1) == rest);
                }
            }
        } else {
            proof {
                assert(waits_below(counts@, vis, after, cur, i + 1) == rest);
            }
        }
        i = i + 1;
    }
    let tile_types_count = waits_len(&waits);
    let r = AcceptanceResult { current_shanten, waits, total_remaining, tile_types_count };
    proof {
        assert(shanten_result_ok(counts@, open_melds_count as int, current_res));
    }
    r
}

/// The waits below `n` depend only on the shanten after drawing the tiles
/// below `n`.
proof fn lemma_waits_below_frame(counts: Seq<u8>, vis: Seq<u8>, a: Seq<int>, b: Seq<int>, cur: int, n: int)
    requires
        forall|j: int| 1 <= j < n ==> a[j] == b[j],
    ensures
        waits_below(counts, vis, a, cur, n) == waits_below(counts, vis, b, cur, n),
    decreases n,
{
    if n > 1 {
        lemma_waits_below_frame(counts, vis, a, b, cur, n - 1);
    }
}

/// The evaluation of one discard of a fourteen-tile hand.
#[derive(Debug, PartialEq, Eq)]
pub struct DiscardAnalysis {
    /// The tile discarded.
    pub discard_tile: TileName,
    /// The shanten after the discard.
    pub shanten_after: i8,
    /// The acceptance after the discard.
    pub acceptance: AcceptanceResult,
}

/// What ranks a discard: its tile index, the shanten after it, the unseen
/// copies of its waits, and how many kinds its waits are.
pub open spec fn discard_view(d: DiscardAnalysis) -> (int, int, int, int) {
    (
        d.discard_tile.id(),
        d.shanten_after as int,
        d.acceptance.total_remaining as int,
        d.acceptance.tile_types_count as int,
    )
}

/// `a` ranks before `b`: a lower shanten, then more unseen copies of the
/// waits, then more kinds of waits, then (the order of the hand's tiles) the
/// lower tile index.
pub open spec fn ranks_before(a: (int, int, int, int), b: (int, int, int, int)) -> bool {
    ||| a.1 < b.1
    ||| a.1 == b.1 && a.2 > b.2
    ||| a.1 == b.1 && a.2 == b.2 && a.3 > b.3
    ||| a.1 == b.1 && a.2 == b.2 && a.3 == b.3 && a.0 < b.0
}

/// The tiles seen while the discards of a hand are weighed: the hand's own
/// tiles, and where other counts are given, the larger of the two at each
/// index 1..=34.
pub open spec fn discard_visible(counts: Seq<u8>, visible: Option<Seq<u8>>) -> Seq<u8> {
    match visible {
        Some(v) => Seq::new(
            35,
            |i: int|
                if 1 <= i <= 34 {
                    if v[i] >= counts[i] { v[i] } else { counts[i] }
                } else {
                    0u8
                },
        ),
        None => counts,
    }
}

/// How many of the kinds 1..n the counts hold.
pub open spec fn held_kinds(counts: Seq<u8>, n: int) -> int
    decreases n,
{
    if n <= 1 {
        0
    } else {
        held_kinds(counts, n - 1) + if counts[n - 1] > 0 { 1int } else { 0int }
    }
}

/// `d` evaluates discarding its tile from the counts: a tile the hand holds,
/// the acceptance of what is left, and that acceptance's shanten.
pub open spec fn discard_ok(d: DiscardAnalysis, counts: Seq<u8>, open: int, vis: Seq<u8>) -> bool {
    let t = d.discard_tile.id();
    &&& 1 <= t <= 34
    &&& counts[t] > 0
    &&& d.shanten_after == d.acceptance.current_shanten
    &&& acceptance_ok(d.acceptance, counts.update(t, (counts[t] - 1) as u8), open, vis)
}

/// Whether `a` ranks before `b`.
fn ranks_before_exec(a: &DiscardAnalysis, b: &DiscardAnalysis) -> (r: bool)
    ensures
        r == ranks_before(discard_view(*a), discard_view(*b)),
{
    if a.shanten_after != b.shanten_after {
        return a.shanten_after < b.shanten_after;
    }
    if a.acceptance.total_remaining != b.acceptance.total_remaining {
        return a.acceptance.total_remaining > b.acceptance.total_remaining;
    }
    if a.acceptance.tile_types_count != b.acceptance.tile_types_count {
        return a.acceptance.tile_types_count > b.acceptance.tile_types_count;
    }
    a.discard_tile.index() < b.discard_tile.index()
}

proof fn lemma_ranks_trans(a: (int, int, int, int), b: (int, int, int, int), c: (int, int, int, int))
    requires
        ranks_before(a, b),
        ranks_before(b, c),
    ensures
        ranks_before(a, c),
{
}

/// The ranking is total on distinct tiles.
proof fn lemma_ranks_total(a: (int, int, int, int), b: (int, int, int, int))
    requires
        a.0 != b.0,
    ensures
        ranks_before(a, b) || ranks_before(b, a),
{
}

/// Each discard of a fourteen-tile hand, with the shanten and the acceptance
/// after it (the hand's tiles counting as seen), one per kind held, ranked:
/// lower shanten first, then more unseen copies of the waits, then more kinds
/// of waits, then in tile order.
#[verifier::rlimit(40)]
pub fn analyze_all_discards(hand: &Hand, visible_counts: Option<&[u8; 35]>) -> (r: Vec<DiscardAnalysis>)
    requires
        hand.spec_melds().len() <= 4,
    ensures
        r.len() == held_kinds(hand.spec_counts(), 35),
        forall|j: int|
            0 <= j < r.len() ==> discard_ok(
                #[trigger] r@[j],
                hand.spec_counts(),
                hand.spec_melds().len() as int,
                discard_visible(
                    hand.spec_counts(),
                    match visible_counts {
                        Some(v) => Some(v@),
                        None => None,
                    },
                ),
            ),
        forall|j: int, k: int|
            0 <= j < k < r.len() ==> ranks_before(discard_view(#[trigger] r@[j]), discard_view(#[trigger] r@[k])),
{
    let open_melds_count = hand.melds().len();
    let hand_counts = hand.tile_counts();
    let ghost counts = hand.spec_counts();
    let ghost vis = discard_visible(
        counts,
        match visible_counts {
            Some(v) => Some(v@),
            None => None,
        },
    );
    let base_visible = visible_with_hand(hand_counts, visible_counts);
    let mut results: Vec<DiscardAnalysis> = Vec::new();
    let mut working = *hand_counts;
    let mut i: usize = 1;
    while i <= 34
        invariant
            1 <= i <= 35,
            working@ == counts,
            counts == hand_counts@,
            base_visible@ == vis,
            open_melds_count <= 4,
            results.len() == held_kinds(counts, i as int),
            held_kinds(counts, i as int) <= i - 1,
            forall|j: int|
                0 <= j < results.len() ==> discard_ok(#[trigger] results@[j], counts, open_melds_count as int, vis)
                    && discard_view(results@[j]).0 < i,
            forall|j: int, k: int|
                0 <= j < k < results.len() ==> ranks_before(
                    discard_view(#[trigger] results@[j]),
                    discard_view(#[trigger] results@[k]),
                ),
        decreases 35 - i,
    {
        if working[i] > 0 {
            let discard_tile = TileName::from_usize(i);
            working[i] = working[i] - 1;
            let acceptance = calculate_acceptance(&working, open_melds_count, Some(&base_visible));
            let shanten_after = acceptance.current_shanten;
            let d = DiscardAnalysis { discard_tile, shanten_after, acceptance };
            working[i] = working[i] + 1;
            proof {
                assert(working@ =~= counts);
            }
            let mut p: usize = 0;
            while p < results.len()
                invariant
                    0 <= p <= results.len(),
                    forall|q: int| 0 <= q < p ==> !ranks_before(discard_view(d), discard_view(#[trigger] results@[q])),
                ensures
                    0 <= p <= results.len(),
                    forall|q: int| 0 <= q < p ==> !ranks_before(discard_view(d), discard_view(#[trigger] results@[q])),
                    p < results.len() ==> ranks_before(discard_view(d), discard_view(results@[p as int])),
                decreases results.len() - p,
            {
                if ranks_before_exec(&d, &results[p]) {
                    break;
                }
                p = p + 1;
            }
            let ghost old_results = results@;
            let ghost dv = discard_view(d);
            proof {
                assert(dv.0 == i);
                assert(discard_ok(d, counts, open_melds_count as int, vis));
            }
            results.insert(p, d);
            proof {
                old_results.insert_ensures(p as int, d);
                assert forall|j: int| 0 <= j < results.len() implies discard_ok(#[trigger] results@[j], counts, open_melds_count as int, vis)
                    && discard_view(results@[j]).0 < i + 1 by {
                    if j < p {
                    } else if j > p {
                        assert(results@[j] == old_results[j - 1]);
                    }
                }
                assert forall|j: int, k: int| 0 <= j < k < results.len() implies ranks_before(
                    discard_view(#[trigger] results@[j]),
                    discard_view(#[trigger] results@[k]),
                ) by {
                    if k < p {
                    } else if k == p {
                        lemma_ranks_total(discard_view(old_results[j]), dv);
                    } else if j < p {
                        assert(results@[k] == old_results[k - 1]);
                        lemma_ranks_total(discard_view(old_results[j]), dv);
                        assert(ranks_before(dv, discard_view(old_results[p as int])));
                        if k - 1 > p {
                            lemma_ranks_trans(dv, discard_view(old_results[p as int]), discard_view(old_results[k - 1]));
                        }
                        lemma_ranks_trans(discard_view(old_results[j]), dv, discard_view(old_results[k - 1]));
                    } else if j == p {
                        assert(results@[k] == old_results[k - 1]);
                        assert(ranks_before(dv, discard_view(old_results[p as int])));
                        if k - 1 > p {
                            lemma_ranks_trans(dv, discard_view(old_results[p as int]), discard_view(old_results[k - 1]));
                        }
                    } else {
                        assert(results@[j] == old_results[j - 1]);
                        assert(results@[k] == old_results[k - 1]);
                    }
                }
            }
        }
        i = i + 1;
    }
    results
}

/// The tiles seen while a hand is weighed (see `discard_visible`).
pub fn visible_with_hand(counts: &[u8; 35], visible_counts: Option<&[u8; 35]>) -> (v: [u8; 35])
    ensures
        v@ == discard_visible(
            counts@,
            match visible_counts {
                Some(x) => Some(x@),
                None => None,
            },
        ),
{
    match visible_counts {
        Some(x) => {
            let ghost vis = discard_visible(counts@, Some(x@));
            let mut v = [0u8; 35];
            let mut i: usize = 1;
            while i <= 34
                invariant
                    1 <= i <= 35,
                    vis == discard_visible(counts@, Some(x@)),
                    forall|j: int| 0 <= j < 35 ==> #[trigger] v@[j] == if 1 <= j < i { vis[j] } else { 0u8 },
                decreases 35 - i,
            {
                let c = counts[i];
                v[i] = if x[i] >= c { x[i] } else { c };
                i = i + 1;
            }
            assert(v@ =~= vis);
            v
        },
        None => *counts,
    }
}

/// The tiles of the waits, in order.
pub fn wait_tiles(acc: &AcceptanceResult) -> (v: ArrayVec<TileName, 34>)
    ensures
        tile_items(v).len() == wait_items(acc.waits).len(),
        forall|j: int| 0 <= j < tile_items(v).len() ==> #[trigger] tile_items(v)[j].id() == wait_items(acc.waits)[j].0,
{
    let n = waits_len(&acc.waits);
    let mut v = new_tiles();
    let mut j: usize = 0;
    while j < n
        invariant
            0 <= j <= n,
            n == wait_items(acc.waits).len(),
            n <= 34,
            tile_items(v).len() == j,
            forall|k: int| 0 <= k < j ==> #[trigger] tile_items(v)[k].id() == wait_items(acc.waits)[k].0,
        decreases n - j,
    {
        let w = wait_at(&acc.waits, j);
        push_tile(&mut v, w.tile);
        j = j + 1;
    }
    v
}

/// A hand has one shanten.
pub proof fn lemma_shanten_is_unique(counts: Seq<u8>, open: int, s1: int, s2: int)
    requires
        shanten_is(counts, open, s1),
        shanten_is(counts, open, s2),
    ensures
        s1 == s2,
{
    let a = choose|r: ShantenResult| #[trigger] shanten_result_ok(counts, open, r) && r.min_shanten == s1;
    let b = choose|r: ShantenResult| #[trigger] shanten_result_ok(counts, open, r) && r.min_shanten == s2;
    crate::shanten::lemma_shanten_result_unique(counts, open, a, b);
}

proof fn lemma_waits_below_same(counts: Seq<u8>, vis: Seq<u8>, a: Seq<int>, b: Seq<int>, cur: int, n: int)
    requires
        forall|j: int| 1 <= j < n && counts[j] < 4 ==> a[j] == b[j],
    ensures
        waits_below(counts, vis, a, cur, n) == waits_below(counts, vis, b, cur, n),
    decreases n,
{
    if n > 1 {
        lemma_waits_below_same(counts, vis, a, b, cur, n - 1);
    }
}

/// The acceptance of a hand is determined by the hand: any two results that meet the contract of
/// `calculate_acceptance` agree on the shanten, the waits in order, their
/// unseen copies and how many they are.
pub proof fn lemma_acceptance_determined(
    r1: AcceptanceResult,
    r2: AcceptanceResult,
    counts: Seq<u8>,
    open: int,
    vis: Seq<u8>,
)
    requires
        acceptance_ok(r1, counts, open, vis),
        acceptance_ok(r2, counts, open, vis),
    ensures
        r1.current_shanten == r2.current_shanten,
        wait_items(r1.waits) == wait_items(r2.waits),
        r1.total_remaining == r2.total_remaining,
        r1.tile_types_count == r2.tile_types_count,
{
    lemma_shanten_is_unique(counts, open, r1.current_shanten as int, r2.current_shanten as int);
    let cur = r1.current_shanten as int;
    if cur >= 0 {
        let a1 = choose|after: Seq<int>|
            {
                &&& after.len() == 35
                &&& forall|i: int|
                    1 <= i < 35 && counts[i] < 4 ==> shanten_is(
                        counts.update(i, (counts[i] + 1) as u8),
                        open,
                        #[trigger] after[i],
                    )
                &&& wait_items(r1.waits) == waits_below(counts, vis, after, cur, 35)
                &&& r1.total_remaining == total_unseen(waits_below(counts, vis, after, cur, 35))
                &&& r1.tile_types_count == waits_below(counts, vis, after, cur, 35).len()
            };
        let a2 = choose|after: Seq<int>|
            {
                &&& after.len() == 35
                &&& forall|i: int|
                    1 <= i < 35 && counts[i] < 4 ==> shanten_is(
                        counts.update(i, (counts[i] + 1) as u8),
                        open,
                        #[trigger] after[i],
                    )
                &&& wait_items(r2.waits) == waits_below(counts, vis, after, cur, 35)
                &&& r2.total_remaining == total_unseen(waits_below(counts, vis, after, cur, 35))
                &&& r2.tile_types_count == waits_below(counts, vis, after, cur, 35).len()
            };
        assert forall|j: int| 1 <= j < 35 && counts[j] < 4 implies a1[j] == a2[j] by {
            let drawn = counts.update(j, (counts[j] + 1) as u8);
            assert(shanten_is(drawn, open, a1[j]));
            assert(shanten_is(drawn, open, a2[j]));
            lemma_shanten_is_unique(drawn, open, a1[j], a2[j]);
        }
        lemma_waits_below_same(counts, vis, a1, a2, cur, 35);
    }
}

} // verus!
