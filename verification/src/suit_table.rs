//! Per-suit analysis for the shanten of a standard hand: for the 9 counts of
//! one number suit, the largest number of partial sets (taatsu) that can be
//! kept beside each number of complete sets (melds), with or without a pair
//! set aside as the head.
use vstd::prelude::*;

verus! {

/// Number of count patterns of one suit (9 kinds, 0..=4 copies each): 5^9.
pub const SUIT_PATTERN_COUNT: usize = 1_953_125;

/// For each number of melds m (0..=4), the largest number of taatsu that the
/// suit can hold beside them, without a head and with a head; -1 where the
/// suit cannot hold m melds.
#[derive(Clone, Copy, Debug, PartialEq, Eq)]
pub struct SuitEntry {
    pub no_head: [i8; 5],
    pub with_head: [i8; 5],
}

impl SuitEntry {
    /// The entry of a pattern that holds nothing: -1 everywhere.
    pub fn empty() -> (e: SuitEntry)
        ensures
            forall|m: int| 0 <= m < 5 ==> e.no_head@[m] == -1 && e.with_head@[m] == -1,
    {
        SuitEntry { no_head: [-1i8; 5], with_head: [-1i8; 5] }
    }
}

impl Default for SuitEntry {
    fn default() -> (e: SuitEntry)
        ensures
            forall|m: int| 0 <= m < 5 ==> e.no_head@[m] == -1 && e.with_head@[m] == -1,
    {
        SuitEntry::empty()
    }
}

/// 5 to the power `n`.
pub open spec fn pow5(n: nat) -> nat
    decreases n,
{
    if n == 0 {
        1
    } else {
        5 * pow5((n - 1) as nat)
    }
}

/// The base-5 key of counts, each count capped at 4: sum of min(c_k, 4) * 5^k.
pub open spec fn suit_key(counts: Seq<u8>) -> int
    decreases counts.len(),
{
    if counts.len() == 0 {
        0
    } else {
        suit_key(counts.drop_last()) + (if counts.last() > 4 { 4 } else { counts.last() as int }) * pow5((counts.len() - 1) as nat)
    }
}

proof fn lemma_suit_key_bound(counts: Seq<u8>)
    ensures
        0 <= suit_key(counts) < pow5(counts.len()),
    decreases counts.len(),
{
    if counts.len() > 0 {
        lemma_suit_key_bound(counts.drop_last());
        let n = (counts.len() - 1) as nat;
        assert(pow5(counts.len()) == 5 * pow5(n));
        let d: int = if counts.last() > 4 { 4 } else { counts.last() as int };
        assert(d * pow5(n) <= 4 * pow5(n)) by (nonlinear_arith)
            requires d <= 4, pow5(n) >= 0;
        assert(0 <= d * pow5(n)) by (nonlinear_arith)
            requires 0 <= d, pow5(n) >= 0;
    }
}

proof fn lemma_pow5_mono(a: nat, b: nat)
    requires
        a <= b,
    ensures
        1 <= pow5(a) <= pow5(b),
    decreases b,
{
    if a < b {
        lemma_pow5_mono(a, (b - 1) as nat);
    } else if b > 0 {
        lemma_pow5_mono((a - 1) as nat, (b - 1) as nat);
    }
}

/// The base-5 key of a suit's counts (each count capped at 4).
pub fn encode_suit_key_scalar(counts: &[u8]) -> (key: usize)
    requires
        pow5(counts@.len()) <= usize::MAX,
    ensures
        key == suit_key(counts@),
{
    let mut key: usize = 0;
    let mut mult: usize = 1;
    let mut k: usize = 0;
    proof {
        lemma_pow5_mono(0, counts@.len());
    }
    while k < counts.len()
        invariant
            k <= counts@.len(),
            pow5(counts@.len()) <= usize::MAX,
            mult == pow5(k as nat),
            key == suit_key(counts@.subrange(0, k as int)),
        decreases counts@.len() - k,
    {
        let c = counts[k];
        let safe_c: usize = if c > 4 { 4 } else { c as usize };
        proof {
            assert(counts@.subrange(0, k as int + 1).drop_last() =~= counts@.subrange(0, k as int));
            lemma_suit_key_bound(counts@.subrange(0, k as int));
            lemma_pow5_mono(k as nat + 1, counts@.len());
            assert(safe_c * mult <= 4 * pow5(k as nat)) by (nonlinear_arith)
                requires safe_c <= 4, mult == pow5(k as nat);
        }
        key = key + safe_c * mult;
        mult = mult * 5;
        k = k + 1;
    }
    assert(counts@.subrange(0, k as int) =~= counts@);
    key
}

/// The base-5 key of a suit's counts (each count capped at 4).
pub fn encode_suit_key(counts: &[u8]) -> (key: usize)
    requires
        pow5(counts@.len()) <= usize::MAX,
    ensures
        key == suit_key(counts@),
{
    encode_suit_key_scalar(counts)
}

/// A block of a suit: `(kind, start)` with kind 0 a triplet (AAA), 1 a run
/// (ABC), 2 a pair (AA), 3 two neighbours (AB), 4 two with a gap (AC), and
/// `start` the index (0..=8) of its lowest tile.
pub open spec fn block_ok(b: (int, int)) -> bool {
    &&& 0 <= b.0 <= 4
    &&& 0 <= b.1 <= 8
    &&& (b.0 == 1 || b.0 == 4) ==> b.1 <= 6
    &&& b.0 == 3 ==> b.1 <= 7
}

/// Tiles of index `j` that block `b` uses.
pub open spec fn block_use(b: (int, int), j: int) -> int {
    let s = b.1;
    if b.0 == 0 {
        if j == s { 3 } else { 0 }
    } else if b.0 == 1 {
        if s <= j <= s + 2 { 1 } else { 0 }
    } else if b.0 == 2 {
        if j == s { 2 } else { 0 }
    } else if b.0 == 3 {
        if j == s || j == s + 1 { 1 } else { 0 }
    } else {
        if j == s || j == s + 2 { 1 } else { 0 }
    }
}

/// Whether a block is a complete set (triplet or run).
pub open spec fn is_meld_block(b: (int, int)) -> bool {
    b.0 <= 1
}

/// Tiles of index `j` that the blocks use together.
pub open spec fn usage(bs: Seq<(int, int)>, j: int) -> int
    decreases bs.len(),
{
    if bs.len() == 0 {
        0
    } else {
        usage(bs.drop_last(), j) + block_use(bs.last(), j)
    }
}

/// Number of complete sets among the blocks.
pub open spec fn n_melds(bs: Seq<(int, int)>) -> int
    decreases bs.len(),
{
    if bs.len() == 0 {
        0
    } else {
        n_melds(bs.drop_last()) + if is_meld_block(bs.last()) { 1int } else { 0int }
    }
}

/// Number of partial sets (pairs and two-tile waits) among the blocks.
pub open spec fn n_taatsu(bs: Seq<(int, int)>) -> int
    decreases bs.len(),
{
    if bs.len() == 0 {
        0
    } else {
        n_taatsu(bs.drop_last()) + if is_meld_block(bs.last()) { 0int } else { 1int }
    }
}

/// The blocks can be taken together out of the counts, and none starts below `lo`.
pub open spec fn fits(c: Seq<u8>, bs: Seq<(int, int)>, lo: int) -> bool {
    &&& forall|k: int| 0 <= k < bs.len() ==> block_ok(#[trigger] bs[k]) && bs[k].1 >= lo
    &&& forall|j: int| 0 <= j < 9 ==> #[trigger] usage(bs, j) <= c[j]
}

/// Total number of tiles in the nine counts.
pub open spec fn sum9(c: Seq<u8>) -> int {
    c[0] + c[1] + c[2] + c[3] + c[4] + c[5] + c[6] + c[7] + c[8]
}

/// The counts with the tiles of block `b` taken out.
pub open spec fn sub_block(c: Seq<u8>, b: (int, int)) -> Seq<u8> {
    Seq::new(9, |j: int| (c[j] - block_use(b, j)) as u8)
}

proof fn lemma_usage_push(bs: Seq<(int, int)>, b: (int, int), j: int)
    ensures
        usage(bs.push(b), j) == usage(bs, j) + block_use(b, j),
        n_melds(bs.push(b)) == n_melds(bs) + if is_meld_block(b) { 1int } else { 0int },
        n_taatsu(bs.push(b)) == n_taatsu(bs) + if is_meld_block(b) { 0int } else { 1int },
{
    assert(bs.push(b).drop_last() =~= bs);
}

proof fn lemma_usage_remove(bs: Seq<(int, int)>, k: int, j: int)
    requires
        0 <= k < bs.len(),
    ensures
        usage(bs, j) == usage(bs.remove(k), j) + block_use(bs[k], j),
        n_melds(bs) == n_melds(bs.remove(k)) + if is_meld_block(bs[k]) { 1int } else { 0int },
        n_taatsu(bs) == n_taatsu(bs.remove(k)) + if is_meld_block(bs[k]) { 0int } else { 1int },
    decreases bs.len(),
{
    if k == bs.len() - 1 {
        assert(bs.remove(k) =~= bs.drop_last());
    } else {
        lemma_usage_remove(bs.drop_last(), k, j);
        assert(bs.remove(k).drop_last() =~= bs.drop_last().remove(k));
        assert(bs.remove(k).last() == bs.last());
    }
}

proof fn lemma_usage_ge_block(bs: Seq<(int, int)>, k: int, j: int)
    requires
        0 <= k < bs.len(),
        forall|x: int| 0 <= x < bs.len() ==> block_ok(#[trigger] bs[x]),
    ensures
        usage(bs, j) >= block_use(bs[k], j),
        usage(bs.remove(k), j) >= 0,
{
    lemma_usage_remove(bs, k, j);
    lemma_usage_nonneg(bs.remove(k), j);
}

proof fn lemma_usage_nonneg(bs: Seq<(int, int)>, j: int)
    ensures
        usage(bs, j) >= 0,
        n_melds(bs) >= 0,
        n_taatsu(bs) >= 0,
        2 * n_taatsu(bs) + 3 * n_melds(bs) <= usage(bs, 0) + usage(bs, 1) + usage(bs, 2) + usage(bs, 3)
            + usage(bs, 4) + usage(bs, 5) + usage(bs, 6) + usage(bs, 7) + usage(bs, 8) || !(forall|x: int| 0 <= x < bs.len() ==> block_ok(#[trigger] bs[x])),
    decreases bs.len(),
{
    if bs.len() > 0 {
        lemma_usage_nonneg(bs.drop_last(), j);
        let b = bs.last();
        if forall|x: int| 0 <= x < bs.len() ==> block_ok(#[trigger] bs[x]) {
            assert forall|x: int| 0 <= x < bs.drop_last().len() implies block_ok(#[trigger] bs.drop_last()[x]) by {
                assert(bs.drop_last()[x] == bs[x]);
            }
            assert(block_ok(bs[bs.len() - 1]));
        }
    }
}

/// Whether block `b` can be taken out of the counts.
pub open spec fn block_fits(c: Seq<u8>, b: (int, int)) -> bool {
    block_ok(b) && forall|j: int| 0 <= j < 9 ==> block_use(b, j) <= #[trigger] c[j]
}

/// Searches the partial decompositions of the counts from index `idx` on,
/// starting from `melds` complete and `taatsu` partial sets already taken,
/// and raises `best[m]` to the most taatsu found beside `m` melds.
#[verifier::rlimit(100)]
fn search_suit(counts: &mut [u8; 9], idx: usize, melds: usize, taatsu: usize, best: &mut [i8; 5])
    requires
        idx <= 9,
        3 * melds + 2 * taatsu + sum9(old(counts)@) <= 100,
        forall|m: int| 0 <= m < 5 ==> #[trigger] old(best)@[m] >= -1,
    ensures
        final(counts)@ == old(counts)@,
        forall|m: int| 0 <= m < 5 ==> #[trigger] final(best)@[m] >= old(best)@[m],
        forall|m: int| 0 <= m < 5 ==> #[trigger] final(best)@[m] == old(best)@[m] || exists|bs: Seq<(int, int)>|
            fits(old(counts)@, bs, idx as int) && melds + n_melds(bs) == m && taatsu + n_taatsu(bs) == final(best)@[m],
        forall|bs: Seq<(int, int)>| fits(old(counts)@, bs, idx as int) && melds + n_melds(bs) <= 4 ==>
            final(best)@[melds + n_melds(bs)] >= taatsu + n_taatsu(bs),
    decreases sum9(old(counts)@), 9 - idx,
{
    let ghost c0 = counts@;
    let mut next = idx;
    while next < 9 && counts[next] == 0
        invariant
            idx <= next <= 9,
            counts@ == c0,
            forall|j: int| idx <= j < next ==> counts@[j] == 0,
        decreases 9 - next,
    {
        next = next + 1;
    }
    if next >= 9 {
        // Nothing left: the only decomposition is the empty one.
        let ghost empty = Seq::<(int, int)>::empty();
        proof {
            assert(fits(c0, empty, idx as int));
            assert forall|bs: Seq<(int, int)>| fits(c0, bs, idx as int) implies bs.len() == 0 by {
                if bs.len() > 0 {
                    lemma_usage_ge_block(bs, 0, bs[0].1);
                }
            }
        }
        if melds <= 4 && (taatsu as i8) > best[melds] {
            best[melds] = taatsu as i8;
        }
        proof {
            assert forall|bs: Seq<(int, int)>| fits(c0, bs, idx as int) && melds + n_melds(bs) <= 4 implies
                best@[melds + n_melds(bs)] >= taatsu + n_taatsu(bs) by {
                assert(bs =~= empty);
            }
        }
        return;
    }
    let i = next;
    let ghost b_start = best@;
    let mut kind: usize = 0;
    while kind < 5
        invariant
            kind <= 5,
            i < 9,
            idx <= i,
            counts@ == c0,
            c0 == old(counts)@,
            c0[i as int] > 0,
            forall|j: int| idx <= j < i ==> c0[j] == 0,
            3 * melds + 2 * taatsu + sum9(c0) <= 100,
            b_start == old(best)@,
            forall|m: int| 0 <= m < 5 ==> #[trigger] b_start[m] >= -1,
            forall|m: int| 0 <= m < 5 ==> #[trigger] best@[m] >= b_start[m],
            forall|m: int| 0 <= m < 5 ==> #[trigger] best@[m] == b_start[m] || exists|bs: Seq<(int, int)>|
                fits(c0, bs, idx as int) && melds + n_melds(bs) == m && taatsu + n_taatsu(bs) == best@[m],
            forall|bs: Seq<(int, int)>, k: int| fits(c0, bs, idx as int) && melds + n_melds(bs) <= 4
                && 0 <= k < bs.len() && bs[k].1 == i && bs[k].0 < kind ==>
                best@[melds + n_melds(bs)] >= taatsu + n_taatsu(bs),
        decreases 5 - kind,
    {
        let ghost b = (kind as int, i as int);
        let ok = if kind == 0 {
            counts[i] >= 3
        } else if kind == 1 {
            i <= 6 && counts[i + 1] > 0 && counts[i + 2] > 0
        } else if kind == 2 {
            counts[i] >= 2
        } else if kind == 3 {
            i <= 7 && counts[i + 1] > 0
        } else {
            i <= 6 && counts[i + 2] > 0
        };
        assert(ok == block_fits(c0, b));
        if ok {
            let ghost b_before = best@;
            take_block(counts, i, kind);
            let is_meld = kind <= 1;
            let (m2, t2) = if is_meld { (melds + 1, taatsu) } else { (melds, taatsu + 1) };
            proof {
                assert(counts@ == sub_block(c0, b));
                assert(sum9(counts@) + (if is_meld { 3int } else { 2int }) == sum9(c0));
                assert forall|m: int| 0 <= m < 5 implies #[trigger] best@[m] >= -1 by {
                    assert(best@[m] >= b_start[m]);
                }
            }
            search_suit(counts, i, m2, t2, best);
            put_block(counts, i, kind);
            proof {
                let cs = sub_block(c0, b);
                // Witnesses found below extend with `b`.
                assert forall|m: int| 0 <= m < 5 implies #[trigger] best@[m] == b_start[m] || exists|bs: Seq<(int, int)>|
                    fits(c0, bs, idx as int) && melds + n_melds(bs) == m && taatsu + n_taatsu(bs) == best@[m] by {
                    if best@[m] != b_before[m] {
                        let bs2 = choose|bs2: Seq<(int, int)>| fits(cs, bs2, i as int) && m2 + n_melds(bs2) == m && t2 + n_taatsu(bs2) == best@[m];
                        lemma_extend_witness(c0, b, bs2, idx as int);
                    }
                }
                // Decompositions with a block of this kind at `i` are covered.
                assert forall|bs: Seq<(int, int)>, k: int| fits(c0, bs, idx as int) && melds + n_melds(bs) <= 4
                    && 0 <= k < bs.len() && bs[k].1 == i && bs[k].0 < kind + 1 implies
                    best@[melds + n_melds(bs)] >= taatsu + n_taatsu(bs) by {
                    if bs[k].0 == kind {
                        lemma_remove_block(c0, bs, k, idx as int);
                    } else {
                        lemma_usage_nonneg(bs, 0);
                        assert(best@[melds + n_melds(bs)] >= b_before[melds + n_melds(bs)]);
                    }
                }
            }
        } else {
            proof {
                assert forall|bs: Seq<(int, int)>, k: int| fits(c0, bs, idx as int) && melds + n_melds(bs) <= 4
                    && 0 <= k < bs.len() && bs[k].1 == i && bs[k].0 < kind + 1 implies
                    best@[melds + n_melds(bs)] >= taatsu + n_taatsu(bs) by {
                    if bs[k].0 == kind {
                        assert(bs[k] == b);
                        assert forall|j: int| 0 <= j < 9 implies block_use(b, j) <= #[trigger] c0[j] by {
                            lemma_usage_ge_block(bs, k, j);
                        }
                        assert(block_fits(c0, b));
                    }
                }
            }
        }
        kind = kind + 1;
    }
    // Leave the rest of index `i` aside as isolated tiles.
    let ghost b_before = best@;
    proof {
        assert forall|m: int| 0 <= m < 5 implies #[trigger] best@[m] >= -1 by {
            assert(best@[m] >= b_start[m]);
        }
    }
    search_suit(counts, i + 1, melds, taatsu, best);
    proof {
        assert forall|m: int| 0 <= m < 5 implies #[trigger] best@[m] == b_start[m] || exists|bs: Seq<(int, int)>|
            fits(c0, bs, idx as int) && melds + n_melds(bs) == m && taatsu + n_taatsu(bs) == best@[m] by {
            if best@[m] != b_before[m] {
                let bs = choose|bs: Seq<(int, int)>| fits(c0, bs, i + 1) && melds + n_melds(bs) == m && taatsu + n_taatsu(bs) == best@[m];
                assert(fits(c0, bs, idx as int));
            }
        }
        assert forall|bs: Seq<(int, int)>| fits(c0, bs, idx as int) && melds + n_melds(bs) <= 4 implies
            best@[melds + n_melds(bs)] >= taatsu + n_taatsu(bs) by {
            if exists|k: int| 0 <= k < bs.len() && bs[k].1 == i {
                let k = choose|k: int| 0 <= k < bs.len() && bs[k].1 == i;
                assert(bs[k].0 < 5);
                lemma_usage_nonneg(bs, 0);
                assert(best@[melds + n_melds(bs)] >= b_before[melds + n_melds(bs)]);
            } else {
                assert forall|x: int| 0 <= x < bs.len() implies block_ok(#[trigger] bs[x]) && bs[x].1 >= i + 1 by {
                    assert(block_ok(bs[x]));
                    if bs[x].1 < i {
                        lemma_usage_ge_block(bs, x, bs[x].1);
                    }
                }
                assert(fits(c0, bs, i + 1));
            }
        }
    }
}

/// A tile of index `i` that the blocks use belongs to one of them.
proof fn lemma_usage_witness(bs: Seq<(int, int)>, i: int) -> (k: int)
    requires
        usage(bs, i) >= 1,
        forall|x: int| 0 <= x < bs.len() ==> block_ok(#[trigger] bs[x]),
    ensures
        0 <= k < bs.len(),
        block_use(bs[k], i) >= 1,
    decreases bs.len(),
{
    if bs.len() == 0 {
        0
    } else if block_use(bs.last(), i) >= 1 {
        bs.len() - 1
    } else {
        assert forall|x: int| 0 <= x < bs.drop_last().len() implies block_ok(#[trigger] bs.drop_last()[x]) by {
            assert(bs.drop_last()[x] == bs[x]);
        }
        let k = lemma_usage_witness(bs.drop_last(), i);
        assert(bs.drop_last()[k] == bs[k]);
        k
    }
}

/// The partial set left of a complete set `b` when its tile of index `i`
/// is taken out: a pair of a triplet, two neighbours or two with a gap of
/// a run.
pub open spec fn meld_less(b: (int, int), i: int) -> (int, int) {
    if b.0 == 0 {
        (2, b.1)
    } else if i == b.1 {
        (3, b.1 + 1)
    } else if i == b.1 + 1 {
        (4, b.1)
    } else {
        (3, b.1)
    }
}

/// Taking one tile of index `i` out of counts that the blocks `bs` fit:
/// other blocks fit what is left, with as many sets, or one partial set
/// less, or a complete set turned into a partial set.
pub proof fn lemma_fits_remove(c: Seq<u8>, bs: Seq<(int, int)>, i: int) -> (r: Seq<(int, int)>)
    requires
        c.len() == 9,
        0 <= i < 9,
        c[i] >= 1,
        fits(c, bs, 0),
    ensures
        fits(c.update(i, (c[i] - 1) as u8), r, 0),
        (n_melds(r) == n_melds(bs) && n_taatsu(r) == n_taatsu(bs))
            || (n_melds(r) == n_melds(bs) && n_taatsu(r) == n_taatsu(bs) - 1)
            || (n_melds(r) == n_melds(bs) - 1 && n_taatsu(r) == n_taatsu(bs) + 1),
{
    let c1 = c.update(i, (c[i] - 1) as u8);
    if usage(bs, i) < c[i] {
        assert(fits(c1, bs, 0));
        bs
    } else {
        let k = lemma_usage_witness(bs, i);
        let b = bs[k];
        let rest = bs.remove(k);
        assert forall|j: int| 0 <= j < 9 implies #[trigger] usage(bs, j) == usage(rest, j) + block_use(b, j)
            && usage(rest, j) >= 0 by {
            lemma_usage_remove(bs, k, j);
            lemma_usage_ge_block(bs, k, j);
        }
        lemma_usage_remove(bs, k, 0);
        assert forall|x: int| 0 <= x < rest.len() implies block_ok(#[trigger] rest[x]) && rest[x].1 >= 0 by {
            if x < k {
                assert(rest[x] == bs[x]);
            } else {
                assert(rest[x] == bs[x + 1]);
            }
        }
        if is_meld_block(b) {
            let nb = meld_less(b, i);
            let r = rest.push(nb);
            assert forall|j: int| 0 <= j < 9 implies #[trigger] usage(r, j) <= c1[j] by {
                lemma_usage_push(rest, nb, j);
                assert(usage(bs, j) == usage(rest, j) + block_use(b, j));
                assert(usage(bs, j) <= c[j]);
                assert(block_use(nb, j) <= block_use(b, j));
                if j == i {
                    assert(block_use(nb, j) == block_use(b, j) - 1);
                }
            }
            lemma_usage_push(rest, nb, 0);
            assert forall|x: int| 0 <= x < r.len() implies block_ok(#[trigger] r[x]) && r[x].1 >= 0 by {
                if x < rest.len() {
                    assert(r[x] == rest[x]);
                }
            }
            r
        } else {
            assert forall|j: int| 0 <= j < 9 implies #[trigger] usage(rest, j) <= c1[j] by {
                assert(usage(bs, j) == usage(rest, j) + block_use(b, j));
                assert(usage(bs, j) <= c[j]);
            }
            rest
        }
    }
}

/// Whether `m` melds and `t` taatsu can be taken together out of the counts:
/// with `head`, after a pair set aside as the head.
pub open spec fn achievable(c: Seq<u8>, head: bool, m: int, t: int) -> bool {
    if !head {
        exists|bs: Seq<(int, int)>| fits(c, bs, 0) && n_melds(bs) == m && n_taatsu(bs) == t
    } else {
        exists|h: int, bs: Seq<(int, int)>| 0 <= h < 9 && c[h] >= 2
            && fits(c.update(h, (c[h] - 2) as u8), bs, 0) && n_melds(bs) == m && n_taatsu(bs) == t
    }
}

/// `v` is the most taatsu achievable beside `m` melds, or -1 when `m` melds
/// cannot be taken at all.
pub open spec fn is_best(c: Seq<u8>, head: bool, m: int, v: int) -> bool {
    ||| v == -1 && forall|t: int| !achievable(c, head, m, t)
    ||| v >= 0 && achievable(c, head, m, v) && forall|t: int| achievable(c, head, m, t) ==> t <= v
}

/// The counts capped at 4 copies each.
pub open spec fn capped(counts: Seq<u8>) -> Seq<u8> {
    Seq::new(9, |j: int| if counts[j] > 4 { 4u8 } else { counts[j] })
}

/// The entry of a suit: for counts that hold more than 14 tiles (after
/// capping each count at 4) every value is -1; otherwise each value is the
/// best one for its number of melds, without and with a head.
pub open spec fn entry_of(counts: Seq<u8>, e: SuitEntry) -> bool {
    let c = capped(counts);
    if sum9(c) > 14 {
        forall|m: int| 0 <= m < 5 ==> e.no_head@[m] == -1 && e.with_head@[m] == -1
    } else {
        forall|m: int| 0 <= m < 5 ==> is_best(c, false, m, e.no_head@[m] as int) && is_best(c, true, m, e.with_head@[m] as int)
    }
}

proof fn lemma_achievable_nonneg(c: Seq<u8>, head: bool, m: int, t: int)
    requires
        achievable(c, head, m, t),
    ensures
        t >= 0,
        m >= 0,
{
    if !head {
        let bs = choose|bs: Seq<(int, int)>| fits(c, bs, 0) && n_melds(bs) == m && n_taatsu(bs) == t;
        lemma_usage_nonneg(bs, 0);
    } else {
        let (h, bs) = choose|h: int, bs: Seq<(int, int)>| 0 <= h < 9 && c[h] >= 2
            && fits(c.update(h, (c[h] - 2) as u8), bs, 0) && n_melds(bs) == m && n_taatsu(bs) == t;
        lemma_usage_nonneg(bs, 0);
    }
}

/// The best taatsu counts of a suit with at most 4 copies of each tile.
fn compute_suit_entry(counts: &mut [u8; 9]) -> (e: SuitEntry)
    requires
        forall|j: int| 0 <= j < 9 ==> #[trigger] old(counts)@[j] <= 4,
    ensures
        final(counts)@ == old(counts)@,
        forall|m: int| 0 <= m < 5 ==> is_best(old(counts)@, false, m, e.no_head@[m] as int)
            && is_best(old(counts)@, true, m, e.with_head@[m] as int),
{
    let ghost c = counts@;
    let mut no_head = [-1i8; 5];
    assert(sum9(c) <= 36);
    search_suit(counts, 0, 0, 0, &mut no_head);
    proof {
        assert forall|m: int| 0 <= m < 5 implies is_best(c, false, m, no_head@[m] as int) by {
            if no_head@[m] == -1 {
                assert forall|t: int| !achievable(c, false, m, t) by {
                    if achievable(c, false, m, t) {
                        let bs = choose|bs: Seq<(int, int)>| fits(c, bs, 0) && n_melds(bs) == m && n_taatsu(bs) == t;
                        lemma_usage_nonneg(bs, 0);
                    }
                }
            } else {
                let bs = choose|bs: Seq<(int, int)>| fits(c, bs, 0) && n_melds(bs) == m && n_taatsu(bs) == no_head@[m];
                assert(achievable(c, false, m, no_head@[m] as int));
                assert forall|t: int| achievable(c, false, m, t) implies t <= no_head@[m] by {
                    let bs2 = choose|bs2: Seq<(int, int)>| fits(c, bs2, 0) && n_melds(bs2) == m && n_taatsu(bs2) == t;
                }
            }
        }
    }
    let mut with_head = [-1i8; 5];
    let mut h: usize = 0;
    while h < 9
        invariant
            h <= 9,
            counts@ == c,
            forall|j: int| 0 <= j < 9 ==> #[trigger] c[j] <= 4,
            forall|m: int| 0 <= m < 5 ==> #[trigger] with_head@[m] >= -1,
            forall|m: int| 0 <= m < 5 ==> #[trigger] with_head@[m] == -1 || exists|hh: int, bs: Seq<(int, int)>| 0 <= hh < 9 && c[hh] >= 2
                && fits(c.update(hh, (c[hh] - 2) as u8), bs, 0) && n_melds(bs) == m && n_taatsu(bs) == with_head@[m],
            forall|hh: int, bs: Seq<(int, int)>| 0 <= hh < h && c[hh] >= 2 && fits(c.update(hh, (c[hh] - 2) as u8), bs, 0)
                && n_melds(bs) < 5 ==> with_head@[n_melds(bs)] >= n_taatsu(bs),
        decreases 9 - h,
    {
        if counts[h] >= 2 {
            counts[h] = counts[h] - 2;
            let ghost ch = counts@;
            assert(ch == c.update(h as int, (c[h as int] - 2) as u8));
            let mut temp = [-1i8; 5];
            assert(sum9(ch) <= 36);
            search_suit(counts, 0, 0, 0, &mut temp);
            counts[h] = counts[h] + 2;
            assert(counts@ =~= c);
            let ghost w_before = with_head@;
            let mut m: usize = 0;
            while m < 5
                invariant
                    m <= 5,
                    h < 9,
                    c[h as int] >= 2,
                    ch == c.update(h as int, (c[h as int] - 2) as u8),
                    forall|mm: int| 0 <= mm < 5 ==> #[trigger] temp@[mm] == -1 || exists|bs: Seq<(int, int)>|
                        fits(ch, bs, 0) && n_melds(bs) == mm && n_taatsu(bs) == temp@[mm],
                    forall|bs: Seq<(int, int)>| fits(ch, bs, 0) && n_melds(bs) <= 4 ==> temp@[n_melds(bs)] >= n_taatsu(bs),
                    forall|mm: int| 0 <= mm < 5 ==> #[trigger] with_head@[mm] >= w_before[mm],
                    forall|mm: int| 0 <= mm < m ==> #[trigger] with_head@[mm] >= temp@[mm],
                    forall|mm: int| 0 <= mm < 5 ==> #[trigger] with_head@[mm] == w_before[mm] || with_head@[mm] == temp@[mm],
                    forall|mm: int| m <= mm < 5 ==> #[trigger] with_head@[mm] == w_before[mm],
                decreases 5 - m,
            {
                if temp[m] > with_head[m] {
                    with_head[m] = temp[m];
                }
                m = m + 1;
            }
            proof {
                assert forall|mm: int| 0 <= mm < 5 implies #[trigger] with_head@[mm] == -1 || exists|hh: int, bs: Seq<(int, int)>| 0 <= hh < 9 && c[hh] >= 2
                    && fits(c.update(hh, (c[hh] - 2) as u8), bs, 0) && n_melds(bs) == mm && n_taatsu(bs) == with_head@[mm] by {
                    if with_head@[mm] != w_before[mm] && with_head@[mm] != -1 {
                        let bs = choose|bs: Seq<(int, int)>| fits(ch, bs, 0) && n_melds(bs) == mm && n_taatsu(bs) == temp@[mm];
                        assert(0 <= h < 9 && c[h as int] >= 2 && fits(c.update(h as int, (c[h as int] - 2) as u8), bs, 0));
                    }
                }
                assert forall|hh: int, bs: Seq<(int, int)>| 0 <= hh < h + 1 && c[hh] >= 2 && fits(c.update(hh, (c[hh] - 2) as u8), bs, 0)
                    && n_melds(bs) < 5 implies with_head@[n_melds(bs)] >= n_taatsu(bs) by {
                    lemma_usage_nonneg(bs, 0);
                    if hh == h {
                        assert(temp@[n_melds(bs)] >= n_taatsu(bs));
                    } else {
                        assert(w_before[n_melds(bs)] >= n_taatsu(bs));
                    }
                }
            }
        } else {
            proof {
                assert forall|hh: int, bs: Seq<(int, int)>| 0 <= hh < h + 1 && c[hh] >= 2 && fits(c.update(hh, (c[hh] - 2) as u8), bs, 0)
                    && n_melds(bs) < 5 implies with_head@[n_melds(bs)] >= n_taatsu(bs) by {
                }
            }
        }
        h = h + 1;
    }
    proof {
        assert forall|m: int| 0 <= m < 5 implies is_best(c, true, m, with_head@[m] as int) by {
            assert forall|t: int| achievable(c, true, m, t) implies t <= with_head@[m] by {
                let (hh, bs) = choose|hh: int, bs: Seq<(int, int)>| 0 <= hh < 9 && c[hh] >= 2
                    && fits(c.update(hh, (c[hh] - 2) as u8), bs, 0) && n_melds(bs) == m && n_taatsu(bs) == t;
            }
            if with_head@[m] == -1 {
                assert forall|t: int| !achievable(c, true, m, t) by {
                    if achievable(c, true, m, t) {
                        lemma_achievable_nonneg(c, true, m, t);
                    }
                }
            } else {
                assert(achievable(c, true, m, with_head@[m] as int));
            }
        }
    }
    SuitEntry { no_head, with_head }
}

/// The entry of a suit given by its nine counts.
pub fn suit_entry(counts: &[u8]) -> (e: SuitEntry)
    requires
        counts@.len() == 9,
    ensures
        entry_of(counts@, e),
{
    let mut c = [0u8; 9];
    let mut total: usize = 0;
    let mut j: usize = 0;
    while j < 9
        invariant
            j <= 9,
            counts@.len() == 9,
            forall|k: int| 0 <= k < j ==> #[trigger] c@[k] == capped(counts@)[k],
            forall|k: int| 0 <= k < 9 ==> #[trigger] c@[k] <= 4,
            total == sum_prefix(capped(counts@), j as int),
            total <= 4 * j,
        decreases 9 - j,
    {
        c[j] = if counts[j] > 4 { 4 } else { counts[j] };
        total = total + c[j] as usize;
        j = j + 1;
    }
    assert(c@ =~= capped(counts@));
    assert(sum_prefix(capped(counts@), 9) == sum9(capped(counts@))) by {
        reveal_with_fuel(sum_prefix, 10);
    }
    if total > 14 {
        return SuitEntry::empty();
    }
    compute_suit_entry(&mut c)
}

/// Sum of the first `n` counts.
pub open spec fn sum_prefix(c: Seq<u8>, n: int) -> int
    decreases n,
{
    if n <= 0 {
        0
    } else {
        sum_prefix(c, n - 1) + c[n - 1]
    }
}

/// Blocks that fit use at most the tiles there are: 2 per taatsu, 3 per meld.
pub proof fn lemma_fits_tiles(c: Seq<u8>, bs: Seq<(int, int)>)
    requires
        c.len() == 9,
        fits(c, bs, 0),
    ensures
        2 * n_taatsu(bs) + 3 * n_melds(bs) <= sum9(c),
        n_taatsu(bs) >= 0,
        n_melds(bs) >= 0,
{
    lemma_usage_nonneg(bs, 0);
}

proof fn lemma_extend_witness(c0: Seq<u8>, b: (int, int), bs2: Seq<(int, int)>, idx: int)
    requires
        c0.len() == 9,
        block_fits(c0, b),
        b.1 >= idx,
        fits(sub_block(c0, b), bs2, b.1),
    ensures
        fits(c0, bs2.push(b), idx),
        n_melds(bs2.push(b)) == n_melds(bs2) + if is_meld_block(b) { 1int } else { 0int },
        n_taatsu(bs2.push(b)) == n_taatsu(bs2) + if is_meld_block(b) { 0int } else { 1int },
{
    let bs = bs2.push(b);
    assert forall|j: int| 0 <= j < 9 implies #[trigger] usage(bs, j) <= c0[j] by {
        lemma_usage_push(bs2, b, j);
    }
    lemma_usage_push(bs2, b, 0);
    assert forall|k: int| 0 <= k < bs.len() implies block_ok(#[trigger] bs[k]) && bs[k].1 >= idx by {
        if k < bs2.len() {
            assert(bs[k] == bs2[k]);
        }
    }
}

proof fn lemma_remove_block(c0: Seq<u8>, bs: Seq<(int, int)>, k: int, idx: int)
    requires
        c0.len() == 9,
        fits(c0, bs, idx),
        0 <= k < bs.len(),
        idx <= bs[k].1,
        forall|j: int| idx <= j < bs[k].1 ==> c0[j] == 0,
    ensures
        fits(sub_block(c0, bs[k]), bs.remove(k), bs[k].1),
        n_melds(bs) == n_melds(bs.remove(k)) + if is_meld_block(bs[k]) { 1int } else { 0int },
        n_taatsu(bs) == n_taatsu(bs.remove(k)) + if is_meld_block(bs[k]) { 0int } else { 1int },
{
    let b = bs[k];
    let i = b.1;
    let bs2 = bs.remove(k);
    let cs = sub_block(c0, b);
    assert forall|j: int| 0 <= j < 9 implies #[trigger] usage(bs2, j) <= cs[j] by {
        lemma_usage_remove(bs, k, j);
    }
    lemma_usage_remove(bs, k, 0);
    assert forall|x: int| 0 <= x < bs2.len() implies block_ok(#[trigger] bs2[x]) && bs2[x].1 >= i by {
        let y = if x < k { x } else { x + 1 };
        assert(bs2[x] == bs[y]);
        assert(block_ok(bs[y]));
        if bs[y].1 < i {
            lemma_usage_ge_block(bs, y, bs[y].1);
        }
    }
}

/// Takes the tiles of block `(kind, i)` out of the counts.
fn take_block(counts: &mut [u8; 9], i: usize, kind: usize)
    requires
        i < 9,
        kind < 5,
        block_fits(old(counts)@, (kind as int, i as int)),
    ensures
        final(counts)@ == sub_block(old(counts)@, (kind as int, i as int)),
{
    let ghost b = (kind as int, i as int);
    assert(block_use(b, i as int) <= old(counts)@[i as int]);
    if kind == 0 {
        counts[i] = counts[i] - 3;
    } else if kind == 1 {
        assert(block_use(b, i + 1) <= old(counts)@[i + 1]);
        assert(block_use(b, i + 2) <= old(counts)@[i + 2]);
        counts[i] = counts[i] - 1;
        counts[i + 1] = counts[i + 1] - 1;
        counts[i + 2] = counts[i + 2] - 1;
    } else if kind == 2 {
        counts[i] = counts[i] - 2;
    } else if kind == 3 {
        assert(block_use(b, i + 1) <= old(counts)@[i + 1]);
        counts[i] = counts[i] - 1;
        counts[i + 1] = counts[i + 1] - 1;
    } else {
        assert(block_use(b, i + 2) <= old(counts)@[i + 2]);
        counts[i] = counts[i] - 1;
        counts[i + 2] = counts[i + 2] - 1;
    }
    assert(counts@ =~= sub_block(old(counts)@, b));
}

/// Puts the tiles of block `(kind, i)` back into the counts.
fn put_block(counts: &mut [u8; 9], i: usize, kind: usize)
    requires
        i < 9,
        kind < 5,
        block_ok((kind as int, i as int)),
        forall|j: int| 0 <= j < 9 ==> #[trigger] old(counts)@[j] + block_use((kind as int, i as int), j) <= 255,
    ensures
        forall|j: int| 0 <= j < 9 ==> #[trigger] final(counts)@[j] == old(counts)@[j] + block_use((kind as int, i as int), j),
{
    let ghost b = (kind as int, i as int);
    assert(old(counts)@[i as int] + block_use(b, i as int) <= 255);
    if kind == 0 {
        counts[i] = counts[i] + 3;
    } else if kind == 1 {
        assert(old(counts)@[i + 1] + block_use(b, i + 1) <= 255);
        assert(old(counts)@[i + 2] + block_use(b, i + 2) <= 255);
        counts[i] = counts[i] + 1;
        counts[i + 1] = counts[i + 1] + 1;
        counts[i + 2] = counts[i + 2] + 1;
    } else if kind == 2 {
        counts[i] = counts[i] + 2;
    } else if kind == 3 {
        assert(old(counts)@[i + 1] + block_use(b, i + 1) <= 255);
        counts[i] = counts[i] + 1;
        counts[i + 1] = counts[i + 1] + 1;
    } else {
        assert(old(counts)@[i + 2] + block_use(b, i + 2) <= 255);
        counts[i] = counts[i] + 1;
        counts[i + 2] = counts[i + 2] + 1;
    }
}

/// Kept for callers that warmed the table up before first use: the entries
/// are computed on demand, so there is nothing to prepare.
pub fn warmup_suit_table() {
}

} // verus!
