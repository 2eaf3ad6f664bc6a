//! Shanten: how many tiles a hand is away from ready (0) or complete (-1),
//! for the standard form (four sets and a pair), seven pairs, and thirteen orphans.
use vstd::prelude::*;
use crate::hand::Hand;
use crate::suit_table::{suit_entry, entry_of, is_best, capped, sum9, achievable, SuitEntry};

verus! {

/// The result of the shanten computation of a hand.
#[derive(Debug, Clone, Copy, PartialEq, Eq, Structural)]
pub struct ShantenResult {
    /// The least of the three forms (-1 complete, 0 ready, 1 one away, ...).
    pub min_shanten: i8,
    /// Standard form: four sets and a pair.
    pub normal: i8,
    /// Seven pairs (99 when the hand has open melds).
    pub chitoitsu: i8,
    /// Thirteen orphans (99 when the hand has open melds).
    pub kokushi: i8,
}

/// Whether index `i` is a terminal (1, 9 of a suit) or an honour.
pub open spec fn is_terminal_or_honor_index(i: int) -> bool {
    i == 1 || i == 9 || i == 10 || i == 18 || i == 19 || i == 27 || 28 <= i <= 34
}

/// Number of indices in `lo..hi` whose count satisfies `p`.
pub open spec fn count_where(counts: Seq<u8>, lo: int, hi: int, p: spec_fn(u8) -> bool) -> int
    decreases hi - lo,
{
    if hi <= lo {
        0
    } else {
        count_where(counts, lo, hi - 1, p) + if p(counts[hi - 1]) { 1int } else { 0int }
    }
}

/// Seven-pairs shanten: 6 - pairs, plus 7 - kinds when fewer than 7 kinds are held.
pub open spec fn spec_chitoitsu(counts: Seq<u8>) -> int {
    let pairs = count_where(counts, 1, 35, |c: u8| c >= 2);
    let kinds = count_where(counts, 1, 35, |c: u8| c >= 1);
    6 - pairs + if kinds < 7 { 7 - kinds } else { 0 }
}

/// Number of terminal and honour kinds held.
pub open spec fn orphan_kinds(counts: Seq<u8>, hi: int) -> int
    decreases hi,
{
    if hi <= 0 {
        0
    } else {
        orphan_kinds(counts, hi - 1) + if is_terminal_or_honor_index(hi - 1) && counts[hi - 1] >= 1 { 1int } else { 0int }
    }
}

/// Whether some terminal or honour is held twice or more.
pub open spec fn orphan_pair(counts: Seq<u8>) -> bool {
    exists|i: int| 0 <= i < 35 && is_terminal_or_honor_index(i) && counts[i] >= 2
}

/// Thirteen-orphans shanten: 13 - kinds of terminals and honours held - 1 if one is paired.
pub open spec fn spec_kokushi(counts: Seq<u8>) -> int {
    13 - orphan_kinds(counts, 35) - if orphan_pair(counts) { 1int } else { 0int }
}

proof fn lemma_count_where_bound(counts: Seq<u8>, lo: int, hi: int, p: spec_fn(u8) -> bool)
    requires
        lo <= hi,
    ensures
        0 <= count_where(counts, lo, hi, p) <= hi - lo,
    decreases hi - lo,
{
    if lo < hi {
        lemma_count_where_bound(counts, lo, hi - 1, p);
    }
}

proof fn lemma_orphan_kinds_bound(counts: Seq<u8>, hi: int)
    requires
        0 <= hi <= 35,
    ensures
        0 <= orphan_kinds(counts, hi) <= 13,
        orphan_kinds(counts, hi) <= hi,
    decreases hi,
{
    if hi > 0 {
        lemma_orphan_kinds_bound(counts, hi - 1);
        lemma_orphan_kinds_small(counts, hi);
    }
}

proof fn lemma_orphan_kinds_small(counts: Seq<u8>, hi: int)
    requires
        0 <= hi <= 35,
    ensures
        orphan_kinds(counts, hi) <= if hi <= 1 { 0 } else if hi <= 9 { 1 } else if hi <= 10 { 2 } else if hi <= 18 { 3 }
            else if hi <= 19 { 4 } else if hi <= 27 { 5 } else if hi <= 28 { 6 } else { hi - 22 },
    decreases hi,
{
    if hi > 0 {
        lemma_orphan_kinds_small(counts, hi - 1);
    }
}

/// Seven-pairs shanten of the counts of tiles 1..=34.
pub fn calculate_chitoitsu_shanten_scalar(counts: &[u8; 35]) -> (r: i8)
    ensures
        r == spec_chitoitsu(counts@),
{
    let mut pairs: i8 = 0;
    let mut kinds: i8 = 0;
    let mut i: usize = 1;
    while i < 35
        invariant
            1 <= i <= 35,
            pairs == count_where(counts@, 1, i as int, |c: u8| c >= 2),
            kinds == count_where(counts@, 1, i as int, |c: u8| c >= 1),
            0 <= pairs <= i,
            0 <= kinds <= i,
        decreases 35 - i,
    {
        let c = counts[i];
        if c >= 2 {
            pairs = pairs + 1;
            kinds = kinds + 1;
        } else if c == 1 {
            kinds = kinds + 1;
        }
        i = i + 1;
    }
    let mut shanten = 6 - pairs;
    if kinds < 7 {
        shanten = shanten + (7 - kinds);
    }
    shanten
}

/// Seven-pairs shanten of the counts of tiles 1..=34.
pub fn calculate_chitoitsu_shanten(counts: &[u8; 35]) -> (r: i8)
    ensures
        r == spec_chitoitsu(counts@),
{
    calculate_chitoitsu_shanten_scalar(counts)
}

/// Thirteen-orphans shanten of the counts of tiles 1..=34.
pub fn calculate_kokushi_shanten(counts: &[u8; 35]) -> (r: i8)
    ensures
        r == spec_kokushi(counts@),
{
    let mut kinds: i8 = 0;
    let mut has_pair = false;
    let mut i: usize = 0;
    while i < 35
        invariant
            0 <= i <= 35,
            kinds == orphan_kinds(counts@, i as int),
            0 <= kinds <= 13,
            has_pair <==> exists|j: int| 0 <= j < i && is_terminal_or_honor_index(j) && counts@[j] >= 2,
        decreases 35 - i,
    {
        proof {
            lemma_orphan_kinds_bound(counts@, i as int + 1);
        }
        let term = i == 1 || i == 9 || i == 10 || i == 18 || i == 19 || i == 27 || (28 <= i && i <= 34);
        if term {
            let c = counts[i];
            if c >= 1 {
                kinds = kinds + 1;
            }
            if c >= 2 {
                has_pair = true;
            }
        }
        i = i + 1;
    }
    13 - kinds - if has_pair { 1 } else { 0 }
}

/// The nine counts of suit `s` (0 characters, 1 circles, 2 bamboos).
pub open spec fn suit_counts(counts: Seq<u8>, s: int) -> Seq<u8> {
    counts.subrange(1 + 9 * s, 10 + 9 * s)
}

/// The best taatsu count of a suit's counts beside `m` melds (see `is_best`),
/// -1 for suits of more than 14 tiles.
pub open spec fn best9(c9: Seq<u8>, head: bool, m: int) -> int {
    let c = capped(c9);
    if sum9(c) > 14 {
        -1
    } else {
        choose|v: int| is_best(c, head, m, v)
    }
}

proof fn lemma_best_unique(c: Seq<u8>, head: bool, m: int, v1: int, v2: int)
    requires
        is_best(c, head, m, v1),
        is_best(c, head, m, v2),
    ensures
        v1 == v2,
{
    if v1 >= 0 && v2 >= 0 {
        assert(achievable(c, head, m, v1));
        assert(achievable(c, head, m, v2));
    }
}

proof fn lemma_entry_best(c9: Seq<u8>, e: SuitEntry)
    requires
        entry_of(c9, e),
    ensures
        forall|m: int| 0 <= m < 5 ==> #[trigger] e.no_head@[m] == best9(c9, false, m) && e.with_head@[m] == best9(c9, true, m),
        forall|m: int| 0 <= m < 5 ==> -1 <= #[trigger] e.no_head@[m] <= 7 && -1 <= e.with_head@[m] <= 7,
{
    let c = capped(c9);
    assert forall|m: int| 0 <= m < 5 implies #[trigger] e.no_head@[m] == best9(c9, false, m) && e.with_head@[m] == best9(c9, true, m)
        && -1 <= e.no_head@[m] <= 7 && -1 <= e.with_head@[m] <= 7 by {
        if sum9(c) <= 14 {
            let v = e.no_head@[m] as int;
            assert(is_best(c, false, m, v));
            let w = choose|w: int| is_best(c, false, m, w);
            lemma_best_unique(c, false, m, v, w);
            let v2 = e.with_head@[m] as int;
            assert(is_best(c, true, m, v2));
            let w2 = choose|w: int| is_best(c, true, m, w);
            lemma_best_unique(c, true, m, v2, w2);
            lemma_best_le_7(c, false, m, v);
            lemma_best_le_7(c, true, m, v2);
        }
    }
}

proof fn lemma_best_le_7(c: Seq<u8>, head: bool, m: int, v: int)
    requires
        c.len() == 9,
        sum9(c) <= 14,
        is_best(c, head, m, v),
    ensures
        -1 <= v <= 7,
{
    if v >= 0 {
        if !head {
            let bs = choose|bs: Seq<(int, int)>| crate::suit_table::fits(c, bs, 0) && crate::suit_table::n_melds(bs) == m
                && crate::suit_table::n_taatsu(bs) == v;
            crate::suit_table::lemma_fits_tiles(c, bs);
        } else {
            let (h, bs) = choose|h: int, bs: Seq<(int, int)>| 0 <= h < 9 && c[h] >= 2
                && crate::suit_table::fits(c.update(h, (c[h] - 2) as u8), bs, 0) && crate::suit_table::n_melds(bs) == m
                && crate::suit_table::n_taatsu(bs) == v;
            crate::suit_table::lemma_fits_tiles(c.update(h, (c[h] - 2) as u8), bs);
        }
    }
}

/// Honour kinds held three times or more (each counts as a set).
pub open spec fn honor_melds(counts: Seq<u8>) -> int {
    count_where(counts, 28, 35, |c: u8| c >= 3)
}

/// Honour kinds held exactly twice (each counts as a pair).
pub open spec fn honor_pairs(counts: Seq<u8>) -> int {
    count_where(counts, 28, 35, |c: u8| c == 2)
}

/// Shanten of a standard form with `melds` sets, `taatsu` partial sets (only
/// as many as fill the missing sets count) and a head or not, for `target` sets.
pub open spec fn eval_shanten(has_head: bool, melds: int, taatsu: int, target: int) -> int {
    let max_t = if target > melds { target - melds } else { 0 };
    let valid = if taatsu < max_t { taatsu } else { max_t };
    2 * target - 2 * melds - valid - if has_head { 1int } else { 0int }
}

/// Whether choice `(h, m0, m1, m2)` can be made: the head in suit h (0..=2),
/// an honour pair (3), an honour triplet broken into a pair (4), or no head
/// (5), and m0, m1, m2 sets taken from the three suits.
pub open spec fn choice_valid(counts: Seq<u8>, h: int, m0: int, m1: int, m2: int) -> bool {
    &&& 0 <= h < 6
    &&& 0 <= m0 && 0 <= m1 && 0 <= m2 && m0 + m1 + m2 <= 4
    &&& (h == 3 ==> honor_pairs(counts) > 0)
    &&& (h == 4 ==> honor_melds(counts) > 0)
    &&& best9(suit_counts(counts, 0), h == 0, m0) != -1
    &&& best9(suit_counts(counts, 1), h == 1, m1) != -1
    &&& best9(suit_counts(counts, 2), h == 2, m2) != -1
}

/// The shanten of choice `(h, m0, m1, m2)` with `open` melds already called.
pub open spec fn choice_value(counts: Seq<u8>, open: int, h: int, m0: int, m1: int, m2: int) -> int {
    let zm = honor_melds(counts);
    let zp = honor_pairs(counts);
    let cur_zm = if h == 4 { zm - 1 } else { zm };
    let cur_zt = if h == 3 { zp - 1 } else { zp };
    let t = best9(suit_counts(counts, 0), h == 0, m0) + best9(suit_counts(counts, 1), h == 1, m1)
        + best9(suit_counts(counts, 2), h == 2, m2);
    eval_shanten(h != 5, cur_zm + m0 + m1 + m2, cur_zt + t, 4 - open)
}

/// Choice `(h, a, b, c)` comes before choice `(h2, a2, b2, c2)` in the
/// order of the search: by head choice, then by the sets of each suit.
pub open spec fn choice_before(h: int, a: int, b: int, c: int, h2: int, a2: int, b2: int, c2: int) -> bool {
    ||| h < h2
    ||| h == h2 && a < a2
    ||| h == h2 && a == a2 && b < b2
    ||| h == h2 && a == a2 && b == b2 && c < c2
}

/// The search stops at -1 (complete): the first choice, in search order, of
/// shanten -1 or lower has shanten exactly -1.
pub open spec fn search_stops_early(counts: Seq<u8>, open: int) -> bool {
    exists|h: int, a: int, b: int, c: int| {
        &&& choice_valid(counts, h, a, b, c)
        &&& #[trigger] choice_value(counts, open, h, a, b, c) == -1
        &&& forall|h2: int, a2: int, b2: int, c2: int|
            choice_valid(counts, h2, a2, b2, c2) && choice_before(h2, a2, b2, c2, h, a, b, c)
                ==> #[trigger] choice_value(counts, open, h2, a2, b2, c2) >= -1
    }
}

/// `r` is the standard-form shanten of the counts: no more than 8 - 2 * open,
/// reached by a choice (or equal to 8 - 2 * open), and no choice lower, except
/// that the search stops as soon as it reaches -1 (complete); it is -1
/// exactly when the search stops there.
pub open spec fn normal_shanten_ok(counts: Seq<u8>, open: int, r: int) -> bool {
    &&& r <= 8 - 2 * open
    &&& r == 8 - 2 * open || exists|h: int, m0: int, m1: int, m2: int|
        choice_valid(counts, h, m0, m1, m2) && #[trigger] choice_value(counts, open, h, m0, m1, m2) == r
    &&& r == -1 || forall|h: int, m0: int, m1: int, m2: int|
        choice_valid(counts, h, m0, m1, m2) ==> #[trigger] choice_value(counts, open, h, m0, m1, m2) >= r
    &&& (r == -1) == search_stops_early(counts, open)
}

/// The standard-form shanten of the counts: the one value meeting
/// `normal_shanten_ok`.
pub open spec fn normal_shanten(counts: Seq<u8>, open: int) -> int {
    choose|r: int| normal_shanten_ok(counts, open, r)
}

/// The nine counts of suit `s`.
fn suit_slice(counts: &[u8; 35], s: usize) -> (c: [u8; 9])
    requires
        s < 3,
    ensures
        c@ == suit_counts(counts@, s as int),
{
    let mut c = [0u8; 9];
    let base = 1 + 9 * s;
    let mut j: usize = 0;
    while j < 9
        invariant
            j <= 9,
            base == 1 + 9 * s,
            s < 3,
            forall|k: int| 0 <= k < j ==> #[trigger] c@[k] == counts@[base + k],
        decreases 9 - j,
    {
        c[j] = counts[base + j];
        j = j + 1;
    }
    assert(c@ =~= suit_counts(counts@, s as int));
    c
}

/// The entry holds, for each number of melds, the best taatsu values of the
/// suit counts `c9`, all between -1 and 7.
#[verifier::opaque]
pub open spec fn entry_matches(e: SuitEntry, c9: Seq<u8>) -> bool {
    &&& forall|m: int| 0 <= m < 5 ==> #[trigger] e.no_head@[m] == best9(c9, false, m) && e.with_head@[m] == best9(c9, true, m)
    &&& forall|m: int| 0 <= m < 5 ==> -1 <= #[trigger] e.no_head@[m] <= 7 && -1 <= e.with_head@[m] <= 7
}

/// The taatsu value of an entry for a choice of head.
fn entry_value(e: &SuitEntry, head: bool, m: usize, Ghost(c9): Ghost<Seq<u8>>) -> (t: i8)
    requires
        m < 5,
        entry_matches(*e, c9),
    ensures
        t == best9(c9, head, m as int),
        -1 <= t <= 7,
{
    proof {
        reveal(entry_matches);
        assert(-1 <= e.no_head@[m as int] <= 7);
    }
    if head {
        e.with_head[m]
    } else {
        e.no_head[m]
    }
}

/// Shanten of a standard form from its sets, partial sets and head.
fn evaluate_normal_shanten(has_head: bool, melds: usize, taatsu: usize, target_melds: usize) -> (r: i8)
    requires
        melds <= 20,
        taatsu <= 40,
        target_melds <= 4,
    ensures
        r == eval_shanten(has_head, melds as int, taatsu as int, target_melds as int),
{
    let max_taatsu = if target_melds > melds { target_melds - melds } else { 0 };
    let valid_taatsu = if taatsu < max_taatsu { taatsu } else { max_taatsu };
    let base = (target_melds as i8) * 2;
    base - (melds as i8) * 2 - (valid_taatsu as i8) - if has_head { 1 } else { 0 }
}

/// Standard-form shanten of the counts of tiles 1..=34 with `open_melds_count`
/// melds already called: -1 complete, 0 ready, and so on.
#[verifier::rlimit(100)]
pub fn calculate_normal_shanten(counts: &[u8; 35], open_melds_count: usize) -> (r: i8)
    requires
        open_melds_count <= 4,
    ensures
        normal_shanten_ok(counts@, open_melds_count as int, r as int),
        r == normal_shanten(counts@, open_melds_count as int),
{
    let target_melds = 4 - open_melds_count;
    let c0 = suit_slice(counts, 0);
    let c1 = suit_slice(counts, 1);
    let c2 = suit_slice(counts, 2);
    let e0 = suit_entry(c0.as_slice());
    let e1 = suit_entry(c1.as_slice());
    let e2 = suit_entry(c2.as_slice());
    proof {
        lemma_entry_best(c0@, e0);
        lemma_entry_best(c1@, e1);
        lemma_entry_best(c2@, e2);
        reveal(entry_matches);
    }
    let mut z_melds: usize = 0;
    let mut z_pairs: usize = 0;
    let mut k: usize = 28;
    while k < 35
        invariant
            28 <= k <= 35,
            z_melds == count_where(counts@, 28, k as int, |c: u8| c >= 3),
            z_pairs == count_where(counts@, 28, k as int, |c: u8| c == 2),
            z_melds <= k - 28,
            z_pairs <= k - 28,
        decreases 35 - k,
    {
        let c = counts[k];
        if c >= 3 {
            z_melds = z_melds + 1;
        } else if c == 2 {
            z_pairs = z_pairs + 1;
        }
        k = k + 1;
    }
    let ghost cs = counts@;
    let ghost open = open_melds_count as int;
    let init: i8 = 8 - 2 * (open_melds_count as i8);
    let mut best: i8 = init;
    // The first choice, in search order, whose shanten fell below -1.
    let ghost mut fl: (int, int, int, int) = (0, 0, 0, 0);
    let mut h: usize = 0;
    while h < 6
        invariant
            h <= 6,
            open_melds_count <= 4,
            open == open_melds_count as int,
            target_melds == 4 - open_melds_count,
            init == 8 - 2 * open,
            cs == counts@,
            z_melds == honor_melds(cs),
            z_pairs == honor_pairs(cs),
            z_melds <= 7,
            z_pairs <= 7,
            c0@ == suit_counts(cs, 0),
            c1@ == suit_counts(cs, 1),
            c2@ == suit_counts(cs, 2),
            entry_matches(e0, c0@),
            entry_matches(e1, c1@),
            entry_matches(e2, c2@),
            best <= init,
            best != -1,
            best < -1 ==> choice_valid(cs, fl.0, fl.1, fl.2, fl.3) && choice_value(cs, open, fl.0, fl.1, fl.2, fl.3) < -1
                && forall|hh: int, a: int, b: int, c: int| choice_valid(cs, hh, a, b, c) && choice_before(hh, a, b, c, fl.0, fl.1, fl.2, fl.3)
                    ==> #[trigger] choice_value(cs, open, hh, a, b, c) >= 0,
            best == init || exists|hh: int, a: int, b: int, c: int|
                choice_valid(cs, hh, a, b, c) && #[trigger] choice_value(cs, open, hh, a, b, c) == best,
            forall|hh: int, a: int, b: int, c: int| choice_valid(cs, hh, a, b, c) && hh < h ==>
                #[trigger] choice_value(cs, open, hh, a, b, c) >= best,
        decreases 6 - h,
    {
        let allowed = if h == 3 { z_pairs > 0 } else if h == 4 { z_melds > 0 } else { true };
        let has_head = h != 5;
        let cur_z_melds = if h == 4 && z_melds > 0 { z_melds - 1 } else { z_melds };
        let cur_z_taatsu = if h == 3 && z_pairs > 0 { z_pairs - 1 } else { z_pairs };
        if allowed {
            let mut m0: usize = 0;
            while m0 <= 4
                invariant
                    h < 6,
                    allowed,
                    m0 <= 5,
                    open_melds_count <= 4,
                    open == open_melds_count as int,
                    target_melds == 4 - open_melds_count,
                    init == 8 - 2 * open,
                    cs == counts@,
                    z_melds == honor_melds(cs),
                    z_pairs == honor_pairs(cs),
                    z_melds <= 7,
                    z_pairs <= 7,
                    has_head == (h != 5),
                    h == 3 ==> z_pairs > 0,
                    h == 4 ==> z_melds > 0,
                    cur_z_melds == if h == 4 { z_melds - 1 } else { z_melds as int },
                    cur_z_taatsu == if h == 3 { z_pairs - 1 } else { z_pairs as int },
                    c0@ == suit_counts(cs, 0),
                    c1@ == suit_counts(cs, 1),
                    c2@ == suit_counts(cs, 2),
                    entry_matches(e0, c0@),
                    entry_matches(e1, c1@),
                    entry_matches(e2, c2@),
                    best <= init,
                    best != -1,
                    best < -1 ==> choice_valid(cs, fl.0, fl.1, fl.2, fl.3) && choice_value(cs, open, fl.0, fl.1, fl.2, fl.3) < -1
                        && forall|hh: int, a: int, b: int, c: int| choice_valid(cs, hh, a, b, c) && choice_before(hh, a, b, c, fl.0, fl.1, fl.2, fl.3)
                            ==> #[trigger] choice_value(cs, open, hh, a, b, c) >= 0,
                    best == init || exists|hh: int, a: int, b: int, c: int|
                        choice_valid(cs, hh, a, b, c) && #[trigger] choice_value(cs, open, hh, a, b, c) == best,
                    forall|hh: int, a: int, b: int, c: int| choice_valid(cs, hh, a, b, c) && (hh < h || (hh == h && a < m0)) ==>
                        #[trigger] choice_value(cs, open, hh, a, b, c) >= best,
                decreases 5 - m0,
            {
                let t0 = entry_value(&e0, h == 0, m0, Ghost(c0@));
                if t0 != -1 {
                    let mut m1: usize = 0;
                    while m1 <= 4 - m0
                        invariant
                            h < 6,
                            allowed,
                            m0 <= 4,
                            m1 <= 5 - m0,
                            t0 != -1,
                            t0 == best9(suit_counts(cs, 0), h == 0, m0 as int),
                            -1 <= t0 <= 7,
                            open_melds_count <= 4,
                            open == open_melds_count as int,
                            target_melds == 4 - open_melds_count,
                            init == 8 - 2 * open,
                            cs == counts@,
                            z_melds == honor_melds(cs),
                            z_pairs == honor_pairs(cs),
                            z_melds <= 7,
                            z_pairs <= 7,
                            has_head == (h != 5),
                            h == 3 ==> z_pairs > 0,
                            h == 4 ==> z_melds > 0,
                            cur_z_melds == if h == 4 { z_melds - 1 } else { z_melds as int },
                            cur_z_taatsu == if h == 3 { z_pairs - 1 } else { z_pairs as int },
                            c1@ == suit_counts(cs, 1),
                            c2@ == suit_counts(cs, 2),
                            entry_matches(e1, c1@),
                            entry_matches(e2, c2@),
                            best <= init,
                            best != -1,
                            best < -1 ==> choice_valid(cs, fl.0, fl.1, fl.2, fl.3) && choice_value(cs, open, fl.0, fl.1, fl.2, fl.3) < -1
                                && forall|hh: int, a: int, b: int, c: int| choice_valid(cs, hh, a, b, c) && choice_before(hh, a, b, c, fl.0, fl.1, fl.2, fl.3)
                                    ==> #[trigger] choice_value(cs, open, hh, a, b, c) >= 0,
                            best == init || exists|hh: int, a: int, b: int, c: int|
                                choice_valid(cs, hh, a, b, c) && #[trigger] choice_value(cs, open, hh, a, b, c) == best,
                            forall|hh: int, a: int, b: int, c: int| choice_valid(cs, hh, a, b, c)
                                && (hh < h || (hh == h && a < m0) || (hh == h && a == m0 && b < m1)) ==>
                                #[trigger] choice_value(cs, open, hh, a, b, c) >= best,
                        decreases 5 - m0 - m1,
                    {
                        let t1 = entry_value(&e1, h == 1, m1, Ghost(c1@));
                        if t1 != -1 {
                            let max_m2 = 4 - m0 - m1;
                            let mut m2: usize = 0;
                            while m2 <= max_m2
                                invariant
                                    h < 6,
                                    allowed,
                                    m0 + m1 <= 4,
                                    max_m2 == 4 - m0 - m1,
                                    m2 <= max_m2 + 1,
                                    t0 != -1,
                                    t1 != -1,
                                    t0 == best9(suit_counts(cs, 0), h == 0, m0 as int),
                                    t1 == best9(suit_counts(cs, 1), h == 1, m1 as int),
                                    -1 <= t0 <= 7,
                                    -1 <= t1 <= 7,
                                    open_melds_count <= 4,
                                    open == open_melds_count as int,
                                    target_melds == 4 - open_melds_count,
                                    init == 8 - 2 * open,
                                    cs == counts@,
                                    z_melds == honor_melds(cs),
                                    z_pairs == honor_pairs(cs),
                                    z_melds <= 7,
                                    z_pairs <= 7,
                                    has_head == (h != 5),
                                    h == 3 ==> z_pairs > 0,
                                    h == 4 ==> z_melds > 0,
                                    cur_z_melds == if h == 4 { z_melds - 1 } else { z_melds as int },
                                    cur_z_taatsu == if h == 3 { z_pairs - 1 } else { z_pairs as int },
                                    c2@ == suit_counts(cs, 2),
                                    entry_matches(e2, c2@),
                                    best <= init,
                                    best != -1,
                                    best < -1 ==> choice_valid(cs, fl.0, fl.1, fl.2, fl.3) && choice_value(cs, open, fl.0, fl.1, fl.2, fl.3) < -1
                                        && forall|hh: int, a: int, b: int, c: int| choice_valid(cs, hh, a, b, c) && choice_before(hh, a, b, c, fl.0, fl.1, fl.2, fl.3)
                                            ==> #[trigger] choice_value(cs, open, hh, a, b, c) >= 0,
                                    best == init || exists|hh: int, a: int, b: int, c: int|
                                        choice_valid(cs, hh, a, b, c) && #[trigger] choice_value(cs, open, hh, a, b, c) == best,
                                    forall|hh: int, a: int, b: int, c: int| choice_valid(cs, hh, a, b, c)
                                        && (hh < h || (hh == h && a < m0) || (hh == h && a == m0 && b < m1)
                                            || (hh == h && a == m0 && b == m1 && c < m2)) ==>
                                        #[trigger] choice_value(cs, open, hh, a, b, c) >= best,
                                decreases max_m2 + 1 - m2,
                            {
                                let t2 = entry_value(&e2, h == 2, m2, Ghost(c2@));
                                if t2 != -1 {
                                    let total_melds = cur_z_melds + m0 + m1 + m2;
                                    let total_taatsu = cur_z_taatsu + (t0 as usize) + (t1 as usize) + (t2 as usize);
                                    let shanten = evaluate_normal_shanten(has_head, total_melds, total_taatsu, target_melds);
                                    assert(choice_valid(cs, h as int, m0 as int, m1 as int, m2 as int));
                                    assert(t2 == best9(suit_counts(cs, 2), h == 2, m2 as int));
                                    assert(total_taatsu == cur_z_taatsu + best9(suit_counts(cs, 0), h == 0, m0 as int)
                                        + best9(suit_counts(cs, 1), h == 1, m1 as int) + best9(suit_counts(cs, 2), h == 2, m2 as int));
                                    assert(total_melds == cur_z_melds + m0 + m1 + m2);
                                    assert(target_melds == 4 - open);
                                    assert(shanten == choice_value(cs, open, h as int, m0 as int, m1 as int, m2 as int));
                                    if shanten < best {
                                        let ghost prev = best as int;
                                        proof {
                                            if shanten < -1 && prev >= 0 {
                                                fl = (h as int, m0 as int, m1 as int, m2 as int);
                                            }
                                        }
                                        best = shanten;
                                        if best == -1 {
                                            proof {
                                                assert forall|h2: int, a2: int, b2: int, c2: int|
                                                    choice_valid(cs, h2, a2, b2, c2)
                                                        && choice_before(h2, a2, b2, c2, h as int, m0 as int, m1 as int, m2 as int)
                                                    implies #[trigger] choice_value(cs, open, h2, a2, b2, c2) >= -1 by {}
                                                assert(search_stops_early(cs, open));
                                            }
                                            return -1;
                                        }
                                    }
                                }
                                m2 = m2 + 1;
                            }
                        }
                        m1 = m1 + 1;
                    }
                }
                m0 = m0 + 1;
            }
        }
        h = h + 1;
    }
    proof {
        if search_stops_early(cs, open) {
            let (xh, xa, xb, xc) = choose|xh: int, xa: int, xb: int, xc: int| {
                &&& choice_valid(cs, xh, xa, xb, xc)
                &&& #[trigger] choice_value(cs, open, xh, xa, xb, xc) == -1
                &&& forall|h2: int, a2: int, b2: int, c2: int|
                    choice_valid(cs, h2, a2, b2, c2) && choice_before(h2, a2, b2, c2, xh, xa, xb, xc)
                        ==> #[trigger] choice_value(cs, open, h2, a2, b2, c2) >= -1
            };
            assert(choice_value(cs, open, xh, xa, xb, xc) >= best);
            assert(best < -1);
            if choice_before(xh, xa, xb, xc, fl.0, fl.1, fl.2, fl.3) {
                assert(choice_value(cs, open, xh, xa, xb, xc) >= 0);
            } else if choice_before(fl.0, fl.1, fl.2, fl.3, xh, xa, xb, xc) {
                assert(choice_value(cs, open, fl.0, fl.1, fl.2, fl.3) >= -1);
            } else {
                assert(fl == (xh, xa, xb, xc));
            }
        }
    }
    best
}

/// The shanten result of counts with `open` melds called: the standard form
/// as `normal_shanten_ok` says, seven pairs and thirteen orphans for a closed
/// hand (99 otherwise), and the least of the three.
pub open spec fn shanten_result_ok(counts: Seq<u8>, open: int, r: ShantenResult) -> bool {
    &&& normal_shanten_ok(counts, open, r.normal as int)
    &&& r.normal == normal_shanten(counts, open)
    &&& r.chitoitsu == if open == 0 { spec_chitoitsu(counts) } else { 99 }
    &&& r.kokushi == if open == 0 { spec_kokushi(counts) } else { 99 }
    &&& r.min_shanten == min3(r.normal as int, r.chitoitsu as int, r.kokushi as int)
}

/// The least of three values.
pub open spec fn min3(a: int, b: int, c: int) -> int {
    let ab = if a <= b { a } else { b };
    if ab <= c { ab } else { c }
}

/// Shanten of the counts of tiles 1..=34 with `open_melds_count` melds called.
pub fn calculate_shanten_from_counts(counts: &[u8; 35], open_melds_count: usize) -> (r: ShantenResult)
    requires
        open_melds_count <= 4,
    ensures
        shanten_result_ok(counts@, open_melds_count as int, r),
{
    let is_closed = open_melds_count == 0;
    let normal = calculate_normal_shanten(counts, open_melds_count);
    let chitoitsu = if is_closed { calculate_chitoitsu_shanten(counts) } else { 99 };
    let kokushi = if is_closed { calculate_kokushi_shanten(counts) } else { 99 };
    let nc = if normal <= chitoitsu { normal } else { chitoitsu };
    let min_shanten = if nc <= kokushi { nc } else { kokushi };
    ShantenResult { min_shanten, normal, chitoitsu, kokushi }
}

/// Shanten of a hand (its counts and the number of its open melds).
pub fn calculate_shanten(hand: &Hand) -> (r: ShantenResult)
    requires
        hand.spec_melds().len() <= 4,
    ensures
        shanten_result_ok(hand.spec_counts(), hand.spec_melds().len() as int, r),
{
    let open = hand.melds().len();
    calculate_shanten_from_counts(hand.tile_counts(), open)
}

/// The least shanten is no more than any of the three forms, and a hand
/// with open melds counts only by the standard form.
pub proof fn lemma_min_shanten(counts: Seq<u8>, open: int, r: ShantenResult)
    requires
        shanten_result_ok(counts, open, r),
        0 < open <= 4,
    ensures
        r.min_shanten <= r.normal,
        r.min_shanten <= r.chitoitsu,
        r.min_shanten <= r.kokushi,
        r.min_shanten == r.normal,
{
}

/// Seven-pairs shanten is -1 exactly when seven kinds are held twice or
/// more; it is at most 13, and below -1 only with more than seven such kinds.
pub proof fn lemma_chitoitsu_range(counts: Seq<u8>)
    requires
        counts.len() == 35,
    ensures
        spec_chitoitsu(counts) == -1 <==> count_where(counts, 1, 35, |c: u8| c >= 2) == 7,
        spec_chitoitsu(counts) < -1 ==> count_where(counts, 1, 35, |c: u8| c >= 2) > 7,
        spec_chitoitsu(counts) <= 13,
{
    lemma_count_where_bound(counts, 1, 35, |c: u8| c >= 2);
    lemma_count_where_bound(counts, 1, 35, |c: u8| c >= 1);
    lemma_pairs_le_kinds(counts, 1, 35);
}

proof fn lemma_pairs_le_kinds(counts: Seq<u8>, lo: int, hi: int)
    requires
        lo <= hi,
    ensures
        count_where(counts, lo, hi, |c: u8| c >= 2) <= count_where(counts, lo, hi, |c: u8| c >= 1),
    decreases hi - lo,
{
    if lo < hi {
        lemma_pairs_le_kinds(counts, lo, hi - 1);
    }
}

/// Thirteen-orphans shanten lies between -1 and 13.
pub proof fn lemma_kokushi_range(counts: Seq<u8>)
    requires
        counts.len() == 35,
    ensures
        -1 <= spec_kokushi(counts) <= 13,
{
    lemma_orphan_kinds_bound(counts, 35);
    if orphan_pair(counts) {
        let i = choose|i: int| 0 <= i < 35 && is_terminal_or_honor_index(i) && counts[i] >= 2;
        lemma_orphan_kinds_positive(counts, 35, i);
    }
}

proof fn lemma_orphan_kinds_positive(counts: Seq<u8>, hi: int, i: int)
    requires
        0 <= i < hi <= 35,
        is_terminal_or_honor_index(i),
        counts[i] >= 1,
    ensures
        orphan_kinds(counts, hi) >= 1,
    decreases hi,
{
    if hi - 1 > i {
        lemma_orphan_kinds_positive(counts, hi - 1, i);
    } else {
        lemma_orphan_kinds_bound(counts, hi - 1);
    }
}

/// Tiles of the counts at indices `lo..hi`.
pub open spec fn tile_sum(c: Seq<u8>, lo: int, hi: int) -> int
    decreases hi - lo,
{
    if hi <= lo {
        0
    } else {
        tile_sum(c, lo, hi - 1) + c[hi - 1]
    }
}

/// The number of tiles the counts hold (indices 1..=34).
pub open spec fn hand_size(c: Seq<u8>) -> int {
    tile_sum(c, 1, 35)
}

proof fn lemma_tile_sum_split(c: Seq<u8>, lo: int, mid: int, hi: int)
    requires
        lo <= mid <= hi,
    ensures
        tile_sum(c, lo, hi) == tile_sum(c, lo, mid) + tile_sum(c, mid, hi),
    decreases hi - mid,
{
    if mid < hi {
        lemma_tile_sum_split(c, lo, mid, hi - 1);
    }
}

proof fn lemma_tile_sum_nonneg(c: Seq<u8>, lo: int, hi: int)
    ensures
        tile_sum(c, lo, hi) >= 0,
    decreases hi - lo,
{
    if lo < hi {
        lemma_tile_sum_nonneg(c, lo, hi - 1);
    }
}

/// Changing the count at index `i` changes the tiles of every range that
/// holds `i` by as much.
pub proof fn lemma_tile_sum_update(c: Seq<u8>, lo: int, hi: int, i: int, v: u8)
    requires
        0 <= i < c.len(),
        0 <= lo <= hi <= c.len(),
    ensures
        tile_sum(c.update(i, v), lo, hi) == tile_sum(c, lo, hi) + if lo <= i < hi { v - c[i] } else { 0 },
    decreases hi - lo,
{
    if lo < hi {
        lemma_tile_sum_update(c, lo, hi - 1, i, v);
    }
}

proof fn lemma_suit_sum(c: Seq<u8>, s: int)
    requires
        c.len() == 35,
        0 <= s < 3,
    ensures
        crate::suit_table::sum9(suit_counts(c, s)) == tile_sum(c, 1 + 9 * s, 10 + 9 * s),
{
    reveal_with_fuel(tile_sum, 10);
}

proof fn lemma_honor_melds_tiles(c: Seq<u8>, hi: int)
    requires
        28 <= hi,
    ensures
        3 * count_where(c, 28, hi, |x: u8| x >= 3) <= tile_sum(c, 28, hi),
    decreases hi - 28,
{
    if hi > 28 {
        lemma_honor_melds_tiles(c, hi - 1);
    }
}

proof fn lemma_best_from(c: Seq<u8>, head: bool, m: int, k: int)
    requires
        c.len() == 9,
        sum9(c) <= 14,
        0 <= k,
        exists|t: int| 0 <= t <= k && #[trigger] achievable(c, head, m, t),
        forall|t: int| t > k ==> !#[trigger] achievable(c, head, m, t),
    ensures
        exists|v: int| is_best(c, head, m, v),
    decreases k,
{
    if achievable(c, head, m, k) {
        assert(is_best(c, head, m, k));
    } else {
        let t = choose|t: int| 0 <= t <= k && #[trigger] achievable(c, head, m, t);
        assert(t < k);
        lemma_best_from(c, head, m, k - 1);
    }
}

/// Every suit of at most 14 tiles has a best taatsu count for each number
/// of melds.
proof fn lemma_best_exists(c: Seq<u8>, head: bool, m: int)
    requires
        c.len() == 9,
        sum9(c) <= 14,
    ensures
        exists|v: int| is_best(c, head, m, v),
{
    if exists|t: int| #[trigger] achievable(c, head, m, t) {
        let t0 = choose|t: int| #[trigger] achievable(c, head, m, t);
        assert forall|t: int| t > 7 implies !#[trigger] achievable(c, head, m, t) by {
            if achievable(c, head, m, t) {
                lemma_achievable_tiles(c, head, m, t);
            }
        }
        lemma_achievable_tiles(c, head, m, t0);
        lemma_best_from(c, head, m, 7);
    } else {
        assert(is_best(c, head, m, -1));
    }
}

proof fn lemma_achievable_tiles(c: Seq<u8>, head: bool, m: int, t: int)
    requires
        c.len() == 9,
        achievable(c, head, m, t),
    ensures
        3 * m + 2 * t + (if head { 2int } else { 0int }) <= sum9(c),
        m >= 0,
        t >= 0,
{
    if !head {
        let bs = choose|bs: Seq<(int, int)>| crate::suit_table::fits(c, bs, 0) && crate::suit_table::n_melds(bs) == m
            && crate::suit_table::n_taatsu(bs) == t;
        crate::suit_table::lemma_fits_tiles(c, bs);
    } else {
        let (h, bs) = choose|h: int, bs: Seq<(int, int)>| 0 <= h < 9 && c[h] >= 2
            && crate::suit_table::fits(c.update(h, (c[h] - 2) as u8), bs, 0) && crate::suit_table::n_melds(bs) == m
            && crate::suit_table::n_taatsu(bs) == t;
        crate::suit_table::lemma_fits_tiles(c.update(h, (c[h] - 2) as u8), bs);
    }
}

/// A suit that can give `m` melds holds at least `3 * m` tiles.
proof fn lemma_best9_melds(c9: Seq<u8>, head: bool, m: int)
    requires
        c9.len() == 9,
        best9(c9, head, m) != -1,
    ensures
        0 <= 3 * m <= sum9(c9),
        best9(c9, head, m) >= 0,
{
    let c = capped(c9);
    assert(sum9(c) <= sum9(c9));
    lemma_best_exists(c, head, m);
    let v = best9(c9, head, m);
    assert(is_best(c, head, m, v));
    lemma_achievable_tiles(c, head, m, v);
}

/// In a hand of at most `3 * (4 - open) + 2` tiles no choice of melds
/// gives a shanten below -1.
proof fn lemma_choice_floor(counts: Seq<u8>, open: int, h: int, m0: int, m1: int, m2: int)
    requires
        counts.len() == 35,
        0 <= open <= 4,
        choice_valid(counts, h, m0, m1, m2),
        hand_size(counts) <= 3 * (4 - open) + 2,
    ensures
        choice_value(counts, open, h, m0, m1, m2) >= -1,
        (if h == 4 { honor_melds(counts) - 1 } else { honor_melds(counts) }) + m0 + m1 + m2 <= 4 - open,
{
    let s0 = suit_counts(counts, 0);
    let s1 = suit_counts(counts, 1);
    let s2 = suit_counts(counts, 2);
    lemma_best9_melds(s0, h == 0, m0);
    lemma_best9_melds(s1, h == 1, m1);
    lemma_best9_melds(s2, h == 2, m2);
    lemma_suit_sum(counts, 0);
    lemma_suit_sum(counts, 1);
    lemma_suit_sum(counts, 2);
    lemma_honor_melds_tiles(counts, 35);
    lemma_tile_sum_split(counts, 1, 10, 35);
    lemma_tile_sum_split(counts, 10, 19, 35);
    lemma_tile_sum_split(counts, 19, 28, 35);
    lemma_count_where_bound(counts, 28, 35, |x: u8| x >= 3);
    lemma_count_where_bound(counts, 28, 35, |x: u8| x == 2);
    let zm = honor_melds(counts);
    let zp = honor_pairs(counts);
    let cur_zm = if h == 4 { zm - 1 } else { zm };
    let cur_zt = if h == 3 { zp - 1 } else { zp };
    let melds = cur_zm + m0 + m1 + m2;
    let taatsu = cur_zt + best9(s0, h == 0, m0) + best9(s1, h == 1, m1) + best9(s2, h == 2, m2);
    assert(3 * melds <= hand_size(counts));
    assert(melds <= 4 - open);
    assert(taatsu >= 0);
    assert(melds >= 0);
    lemma_eval_floor(h != 5, melds, taatsu, 4 - open);
}

proof fn lemma_eval_floor(has_head: bool, melds: int, taatsu: int, target: int)
    requires
        0 <= melds <= target,
        taatsu >= 0,
    ensures
        eval_shanten(has_head, melds, taatsu, target) >= -1,
{
}

/// The standard-form shanten is unique: two values meeting
/// `normal_shanten_ok` are equal.
pub proof fn lemma_normal_shanten_unique(counts: Seq<u8>, open: int, r1: int, r2: int)
    requires
        normal_shanten_ok(counts, open, r1),
        normal_shanten_ok(counts, open, r2),
    ensures
        r1 == r2,
{
    lemma_normal_not_below(counts, open, r1, r2);
    lemma_normal_not_below(counts, open, r2, r1);
}

proof fn lemma_normal_not_below(counts: Seq<u8>, open: int, lo: int, hi: int)
    requires
        normal_shanten_ok(counts, open, lo),
        normal_shanten_ok(counts, open, hi),
    ensures
        lo >= hi,
{
    if lo < hi {
        // `lo` is below the start, so some choice reaches it.
        let (h, a, b, c) = choose|h: int, a: int, b: int, c: int|
            choice_valid(counts, h, a, b, c) && #[trigger] choice_value(counts, open, h, a, b, c) == lo;
        if hi != -1 {
            assert(choice_value(counts, open, h, a, b, c) >= hi);
        }
    }
}

/// Adding tiles to a suit of at most 14 tiles (after capping) keeps every
/// number of melds reachable and never lowers its best taatsu count.
proof fn lemma_best9_mono(a: Seq<u8>, b: Seq<u8>, head: bool, m: int)
    requires
        a.len() == 9,
        b.len() == 9,
        forall|j: int| 0 <= j < 9 ==> #[trigger] a[j] <= b[j],
        sum9(capped(b)) <= 14,
        best9(a, head, m) != -1,
    ensures
        best9(b, head, m) != -1,
        best9(b, head, m) >= best9(a, head, m),
{
    let ca = capped(a);
    let cb = capped(b);
    assert(forall|j: int| 0 <= j < 9 ==> #[trigger] ca[j] <= cb[j]);
    assert(sum9(ca) <= sum9(cb));
    lemma_best_exists(ca, head, m);
    let v = best9(a, head, m);
    assert(is_best(ca, head, m, v));
    assert(achievable(ca, head, m, v));
    if !head {
        let bs = choose|bs: Seq<(int, int)>| crate::suit_table::fits(ca, bs, 0) && crate::suit_table::n_melds(bs) == m
            && crate::suit_table::n_taatsu(bs) == v;
        assert(crate::suit_table::fits(cb, bs, 0));
        assert(achievable(cb, head, m, v));
    } else {
        let (h, bs) = choose|h: int, bs: Seq<(int, int)>| 0 <= h < 9 && ca[h] >= 2
            && crate::suit_table::fits(ca.update(h, (ca[h] - 2) as u8), bs, 0) && crate::suit_table::n_melds(bs) == m
            && crate::suit_table::n_taatsu(bs) == v;
        let ra = ca.update(h, (ca[h] - 2) as u8);
        let rb = cb.update(h, (cb[h] - 2) as u8);
        assert(forall|j: int| 0 <= j < 9 ==> #[trigger] ra[j] <= rb[j]);
        assert(crate::suit_table::fits(rb, bs, 0));
        assert(achievable(cb, head, m, v));
    }
    lemma_best_exists(cb, head, m);
    let w = best9(b, head, m);
    assert(is_best(cb, head, m, w));
}

/// Changing the count at index `i` changes how many counts of a range meet
/// `p` by at most the change at `i`.
proof fn lemma_count_where_update(c: Seq<u8>, lo: int, hi: int, i: int, v: u8, p: spec_fn(u8) -> bool)
    requires
        0 <= i < c.len(),
        0 <= lo <= hi <= c.len(),
    ensures
        count_where(c.update(i, v), lo, hi, p) == count_where(c, lo, hi, p) + if lo <= i < hi {
            (if p(v) { 1int } else { 0int }) - (if p(c[i]) { 1int } else { 0int })
        } else {
            0int
        },
    decreases hi - lo,
{
    if lo < hi {
        lemma_count_where_update(c, lo, hi - 1, i, v, p);
    }
}

/// A meld made of a pair gives up a partial set for a set: the shanten
/// falls, when there was a partial set to give.
proof fn lemma_eval_pair_to_meld(has_head: bool, melds: int, taatsu: int, target: int)
    requires
        taatsu >= 1,
    ensures
        eval_shanten(has_head, melds + 1, taatsu - 1, target) <= eval_shanten(has_head, melds, taatsu, target),
{
}

/// After drawing tile `t` every choice of the hand before has a choice at
/// least as good.
proof fn lemma_choice_after_draw(counts: Seq<u8>, open: int, t: int, h: int, m0: int, m1: int, m2: int) -> (r: (int, int, int, int))
    requires
        counts.len() == 35,
        0 <= open <= 4,
        1 <= t <= 34,
        counts[t] < 4,
        hand_size(counts) + 3 * open <= 13,
        choice_valid(counts, h, m0, m1, m2),
    ensures
        choice_valid(counts.update(t, (counts[t] + 1) as u8), r.0, r.1, r.2, r.3),
        choice_value(counts.update(t, (counts[t] + 1) as u8), open, r.0, r.1, r.2, r.3)
            <= choice_value(counts, open, h, m0, m1, m2),
{
    let c2 = counts.update(t, (counts[t] + 1) as u8);
    let x = counts[t];
    lemma_tile_sum_update(counts, 1, 35, t, (x + 1) as u8);
    lemma_best9_melds(suit_counts(counts, 0), h == 0, m0);
    lemma_best9_melds(suit_counts(counts, 1), h == 1, m1);
    lemma_best9_melds(suit_counts(counts, 2), h == 2, m2);
    lemma_count_where_update(counts, 28, 35, t, (x + 1) as u8, |c: u8| c >= 3);
    lemma_count_where_update(counts, 28, 35, t, (x + 1) as u8, |c: u8| c == 2);
    lemma_count_where_bound(c2, 28, 35, |c: u8| c == 2);
    lemma_count_where_bound(c2, 28, 35, |c: u8| c >= 3);
    lemma_count_where_bound(counts, 28, 35, |c: u8| c >= 3);
    lemma_count_where_bound(counts, 28, 35, |c: u8| c == 2);
    assert(t < 28 ==> honor_melds(c2) == honor_melds(counts) && honor_pairs(c2) == honor_pairs(counts));
    if t < 28 {
        assert forall|s: int| 0 <= s < 3 implies sum9(capped(#[trigger] suit_counts(c2, s))) <= 14
            && forall|j: int| 0 <= j < 9 ==> #[trigger] suit_counts(counts, s)[j] <= suit_counts(c2, s)[j] by {
            lemma_suit_sum(c2, s);
            lemma_tile_sum_split(c2, 1, 1 + 9 * s, 35);
            lemma_tile_sum_split(c2, 1 + 9 * s, 10 + 9 * s, 35);
            lemma_tile_sum_nonneg(c2, 1, 1 + 9 * s);
            lemma_tile_sum_nonneg(c2, 10 + 9 * s, 35);
            assert(sum9(capped(suit_counts(c2, s))) <= sum9(suit_counts(c2, s)));
        }
        lemma_best9_mono(suit_counts(counts, 0), suit_counts(c2, 0), h == 0, m0);
        lemma_best9_mono(suit_counts(counts, 1), suit_counts(c2, 1), h == 1, m1);
        lemma_best9_mono(suit_counts(counts, 2), suit_counts(c2, 2), h == 2, m2);
        assert(choice_valid(c2, h, m0, m1, m2));
        (h, m0, m1, m2)
    } else {
        assert(suit_counts(c2, 0) =~= suit_counts(counts, 0));
        assert(suit_counts(c2, 1) =~= suit_counts(counts, 1));
        assert(suit_counts(c2, 2) =~= suit_counts(counts, 2));
        if x == 2 {
            let zm = honor_melds(counts);
            let zp = honor_pairs(counts);
            let cur_zm = if h == 4 { zm - 1 } else { zm };
            let cur_zt = if h == 3 { zp - 1 } else { zp };
            let tt = cur_zt + best9(suit_counts(counts, 0), h == 0, m0) + best9(suit_counts(counts, 1), h == 1, m1)
                + best9(suit_counts(counts, 2), h == 2, m2);
            if h == 3 && honor_pairs(c2) == 0 {
                assert(choice_valid(c2, 4, m0, m1, m2));
                (4, m0, m1, m2)
            } else {
                lemma_eval_pair_to_meld(h != 5, cur_zm + m0 + m1 + m2, tt, 4 - open);
                assert(choice_valid(c2, h, m0, m1, m2));
                (h, m0, m1, m2)
            }
        } else {
            assert(choice_valid(c2, h, m0, m1, m2));
            (h, m0, m1, m2)
        }
    }
}

/// Taking a tile out of a suit (of at most 4 copies at that index) costs its
/// best taatsu count at most one, or a set turned into a partial set, or
/// the head.
proof fn lemma_best9_remove(a2: Seq<u8>, i: int, head: bool, m: int)
    requires
        a2.len() == 9,
        0 <= i < 9,
        1 <= a2[i] <= 4,
        sum9(capped(a2)) <= 14,
        best9(a2, head, m) != -1,
    ensures
        ({
            let a = a2.update(i, (a2[i] - 1) as u8);
            let v = best9(a2, head, m);
            ||| best9(a, head, m) != -1 && best9(a, head, m) >= v - 1
            ||| m >= 1 && best9(a, head, m - 1) != -1 && best9(a, head, m - 1) >= v + 1
            ||| head && best9(a, false, m) != -1 && best9(a, false, m) >= v
        }),
{
    let a = a2.update(i, (a2[i] - 1) as u8);
    let ca2 = capped(a2);
    let ca = capped(a);
    assert(ca =~= ca2.update(i, (ca2[i] - 1) as u8));
    assert(sum9(ca) <= sum9(ca2));
    lemma_best_exists(ca2, head, m);
    let v = best9(a2, head, m);
    assert(is_best(ca2, head, m, v));
    assert(achievable(ca2, head, m, v));
    // (m', t', head') reached in the suit less the tile.
    let mut mm = m;
    let mut tt = v;
    let mut hh = head;
    if !head {
        let bs = choose|bs: Seq<(int, int)>| crate::suit_table::fits(ca2, bs, 0) && crate::suit_table::n_melds(bs) == m
            && crate::suit_table::n_taatsu(bs) == v;
        let r = crate::suit_table::lemma_fits_remove(ca2, bs, i);
        mm = crate::suit_table::n_melds(r);
        tt = crate::suit_table::n_taatsu(r);
        assert(achievable(ca, false, mm, tt));
    } else {
        let (h, bs) = choose|h: int, bs: Seq<(int, int)>| 0 <= h < 9 && ca2[h] >= 2
            && crate::suit_table::fits(ca2.update(h, (ca2[h] - 2) as u8), bs, 0) && crate::suit_table::n_melds(bs) == m
            && crate::suit_table::n_taatsu(bs) == v;
        let res2 = ca2.update(h, (ca2[h] - 2) as u8);
        if i == h {
            assert(forall|j: int| 0 <= j < 9 ==> #[trigger] res2[j] <= ca[j]);
            assert(crate::suit_table::fits(ca, bs, 0));
            assert(achievable(ca, false, m, v));
            hh = false;
        } else {
            let r = crate::suit_table::lemma_fits_remove(res2, bs, i);
            assert(res2.update(i, (res2[i] - 1) as u8) =~= ca.update(h, (ca[h] - 2) as u8));
            mm = crate::suit_table::n_melds(r);
            tt = crate::suit_table::n_taatsu(r);
            assert(achievable(ca, true, mm, tt));
        }
    }
    lemma_best_exists(ca, hh, mm);
    let w = best9(a, hh, mm);
    assert(is_best(ca, hh, mm, w));
    lemma_achievable_counts_nonneg(ca, hh, mm, tt);
}

proof fn lemma_achievable_counts_nonneg(c: Seq<u8>, head: bool, m: int, t: int)
    requires
        c.len() == 9,
        achievable(c, head, m, t),
    ensures
        m >= 0,
        t >= 0,
{
    lemma_achievable_tiles(c, head, m, t);
}

proof fn lemma_draw_not_raising(counts: Seq<u8>, open: int, t: int, s: int, s2: int)
    requires
        counts.len() == 35,
        0 <= open <= 4,
        1 <= t <= 34,
        counts[t] < 4,
        hand_size(counts) + 3 * open <= 13,
        normal_shanten_ok(counts, open, s),
        normal_shanten_ok(counts.update(t, (counts[t] + 1) as u8), open, s2),
    ensures
        s2 <= s,
{
    let c2 = counts.update(t, (counts[t] + 1) as u8);
    if s != 8 - 2 * open {
        let (h, a, b, c) = choose|h: int, a: int, b: int, c: int|
            choice_valid(counts, h, a, b, c) && #[trigger] choice_value(counts, open, h, a, b, c) == s;
        let r = lemma_choice_after_draw(counts, open, t, h, a, b, c);
        if s2 == -1 {
            lemma_choice_floor(counts, open, h, a, b, c);
        } else {
            assert(choice_value(c2, open, r.0, r.1, r.2, r.3) >= s2);
        }
    }
}

proof fn lemma_eval_taatsu_less(has_head: bool, melds: int, taatsu: int, taatsu2: int, target: int)
    requires
        taatsu2 >= taatsu - 1,
    ensures
        eval_shanten(has_head, melds, taatsu2, target) <= eval_shanten(has_head, melds, taatsu, target) + 1,
{
}

proof fn lemma_eval_meld_less(has_head: bool, melds: int, taatsu: int, taatsu2: int, target: int)
    requires
        1 <= melds <= target,
        taatsu2 >= taatsu + 1,
    ensures
        eval_shanten(has_head, melds - 1, taatsu2, target) <= eval_shanten(has_head, melds, taatsu, target) + 1,
{
}

proof fn lemma_eval_head_less(melds: int, taatsu: int, taatsu2: int, target: int)
    requires
        taatsu2 >= taatsu,
    ensures
        eval_shanten(false, melds, taatsu2, target) <= eval_shanten(true, melds, taatsu, target) + 1,
{
}

/// Before drawing the suit tile `t` the hand had, for every choice after
/// the draw, a choice at most one worse.
#[verifier::rlimit(100)]
#[verifier::spinoff_prover]
proof fn lemma_choice_before_suit_draw(counts: Seq<u8>, open: int, t: int, h: int, m0: int, m1: int, m2: int) -> (r: (int, int, int, int))
    requires
        counts.len() == 35,
        0 <= open <= 4,
        1 <= t <= 34,
        counts[t] < 4,
        hand_size(counts) + 3 * open <= 13,
        choice_valid(counts.update(t, (counts[t] + 1) as u8), h, m0, m1, m2),
        t < 28,
    ensures
        choice_valid(counts, r.0, r.1, r.2, r.3),
        choice_value(counts, open, r.0, r.1, r.2, r.3)
            <= choice_value(counts.update(t, (counts[t] + 1) as u8), open, h, m0, m1, m2) + 1,
{
    let c2 = counts.update(t, (counts[t] + 1) as u8);
    let x = counts[t];
    assert(c2.update(t, (c2[t] - 1) as u8) =~= counts);
    lemma_tile_sum_update(counts, 1, 35, t, (x + 1) as u8);
    lemma_choice_floor(c2, open, h, m0, m1, m2);
    lemma_best9_melds(suit_counts(c2, 0), h == 0, m0);
    lemma_best9_melds(suit_counts(c2, 1), h == 1, m1);
    lemma_best9_melds(suit_counts(c2, 2), h == 2, m2);
    lemma_count_where_update(counts, 28, 35, t, (x + 1) as u8, |c: u8| c >= 3);
    lemma_count_where_update(counts, 28, 35, t, (x + 1) as u8, |c: u8| c == 2);
    lemma_count_where_bound(c2, 28, 35, |c: u8| c == 2);
    lemma_count_where_bound(c2, 28, 35, |c: u8| c >= 3);
    lemma_count_where_bound(counts, 28, 35, |c: u8| c >= 3);
    lemma_count_where_bound(counts, 28, 35, |c: u8| c == 2);
    let zm2 = honor_melds(c2);
    let zp2 = honor_pairs(c2);
    let cur_zm2 = if h == 4 { zm2 - 1 } else { zm2 };
    let cur_zt2 = if h == 3 { zp2 - 1 } else { zp2 };
    let b0 = best9(suit_counts(c2, 0), h == 0, m0);
    let b1 = best9(suit_counts(c2, 1), h == 1, m1);
    let b2 = best9(suit_counts(c2, 2), h == 2, m2);
    let tg = 4 - open;
    assert(honor_melds(c2) == honor_melds(counts) && honor_pairs(c2) == honor_pairs(counts));
    let j = (t - 1) / 9;
    let i = t - 1 - 9 * j;
    assert(0 <= j < 3 && 0 <= i < 9);
    let a2 = suit_counts(c2, j);
    assert(suit_counts(counts, j) =~= a2.update(i, (a2[i] - 1) as u8));
    assert forall|q: int| 0 <= q < 3 && q != j implies #[trigger] suit_counts(counts, q) == suit_counts(c2, q) by {
        assert(suit_counts(counts, q) =~= suit_counts(c2, q));
    }
    lemma_suit_sum(c2, j);
    lemma_tile_sum_split(c2, 1, 1 + 9 * j, 35);
    lemma_tile_sum_split(c2, 1 + 9 * j, 10 + 9 * j, 35);
    lemma_tile_sum_nonneg(c2, 1, 1 + 9 * j);
    lemma_tile_sum_nonneg(c2, 10 + 9 * j, 35);
    assert(sum9(capped(a2)) <= sum9(a2));
    let mj = if j == 0 { m0 } else if j == 1 { m1 } else { m2 };
    lemma_best9_remove(a2, i, h == j, mj);
    let a = suit_counts(counts, j);
    let v = best9(a2, h == j, mj);
    let melds2 = cur_zm2 + m0 + m1 + m2;
    let taatsu2 = cur_zt2 + b0 + b1 + b2;
    if best9(a, h == j, mj) != -1 && best9(a, h == j, mj) >= v - 1 {
        lemma_eval_taatsu_less(h != 5, melds2, taatsu2,
            cur_zt2 + best9(suit_counts(counts, 0), h == 0, m0) + best9(suit_counts(counts, 1), h == 1, m1)
            + best9(suit_counts(counts, 2), h == 2, m2), tg);
        (h, m0, m1, m2)
    } else if mj >= 1 && best9(a, h == j, mj - 1) != -1 && best9(a, h == j, mj - 1) >= v + 1 {
        let n0 = if j == 0 { m0 - 1 } else { m0 };
        let n1 = if j == 1 { m1 - 1 } else { m1 };
        let n2 = if j == 2 { m2 - 1 } else { m2 };
        lemma_eval_meld_less(h != 5, melds2, taatsu2,
            cur_zt2 + best9(suit_counts(counts, 0), h == 0, n0) + best9(suit_counts(counts, 1), h == 1, n1)
            + best9(suit_counts(counts, 2), h == 2, n2), tg);
        (h, n0, n1, n2)
    } else {
        assert(h == j);
        lemma_eval_head_less(melds2, taatsu2,
            cur_zt2 + best9(suit_counts(counts, 0), false, m0) + best9(suit_counts(counts, 1), false, m1)
            + best9(suit_counts(counts, 2), false, m2), tg);
        (5, m0, m1, m2)
    }
}

/// Before drawing the honour tile `t` the hand had, for every choice after
/// the draw, a choice at most one worse.
#[verifier::rlimit(60)]
proof fn lemma_choice_before_honor_draw(counts: Seq<u8>, open: int, t: int, h: int, m0: int, m1: int, m2: int) -> (r: (int, int, int, int))
    requires
        counts.len() == 35,
        0 <= open <= 4,
        1 <= t <= 34,
        counts[t] < 4,
        hand_size(counts) + 3 * open <= 13,
        choice_valid(counts.update(t, (counts[t] + 1) as u8), h, m0, m1, m2),
        t >= 28,
    ensures
        choice_valid(counts, r.0, r.1, r.2, r.3),
        choice_value(counts, open, r.0, r.1, r.2, r.3)
            <= choice_value(counts.update(t, (counts[t] + 1) as u8), open, h, m0, m1, m2) + 1,
{
    let c2 = counts.update(t, (counts[t] + 1) as u8);
    let x = counts[t];
    assert(c2.update(t, (c2[t] - 1) as u8) =~= counts);
    lemma_tile_sum_update(counts, 1, 35, t, (x + 1) as u8);
    lemma_choice_floor(c2, open, h, m0, m1, m2);
    lemma_best9_melds(suit_counts(c2, 0), h == 0, m0);
    lemma_best9_melds(suit_counts(c2, 1), h == 1, m1);
    lemma_best9_melds(suit_counts(c2, 2), h == 2, m2);
    lemma_count_where_update(counts, 28, 35, t, (x + 1) as u8, |c: u8| c >= 3);
    lemma_count_where_update(counts, 28, 35, t, (x + 1) as u8, |c: u8| c == 2);
    lemma_count_where_bound(c2, 28, 35, |c: u8| c == 2);
    lemma_count_where_bound(c2, 28, 35, |c: u8| c >= 3);
    lemma_count_where_bound(counts, 28, 35, |c: u8| c >= 3);
    lemma_count_where_bound(counts, 28, 35, |c: u8| c == 2);
    let zm2 = honor_melds(c2);
    let zp2 = honor_pairs(c2);
    let cur_zm2 = if h == 4 { zm2 - 1 } else { zm2 };
    let cur_zt2 = if h == 3 { zp2 - 1 } else { zp2 };
    let b0 = best9(suit_counts(c2, 0), h == 0, m0);
    let b1 = best9(suit_counts(c2, 1), h == 1, m1);
    let b2 = best9(suit_counts(c2, 2), h == 2, m2);
    let tg = 4 - open;
    assert(suit_counts(c2, 0) =~= suit_counts(counts, 0));
    assert(suit_counts(c2, 1) =~= suit_counts(counts, 1));
    assert(suit_counts(c2, 2) =~= suit_counts(counts, 2));
    let melds2 = cur_zm2 + m0 + m1 + m2;
    let taatsu2 = cur_zt2 + b0 + b1 + b2;
    if x == 1 {
        if h == 3 && zp2 - 1 == 0 {
            lemma_eval_head_less(melds2, taatsu2, taatsu2, tg);
            (5, m0, m1, m2)
        } else {
            lemma_eval_taatsu_less(h != 5, melds2, taatsu2, taatsu2 - 1, tg);
            (h, m0, m1, m2)
        }
    } else if x == 2 {
        if h == 4 && zm2 - 1 == 0 {
            (3, m0, m1, m2)
        } else {
            lemma_eval_meld_less(h != 5, melds2, taatsu2, taatsu2 + 1, tg);
            (h, m0, m1, m2)
        }
    } else {
        (h, m0, m1, m2)
    }
}

/// Before drawing tile `t` the hand had, for every choice after the draw, a
/// choice at most one worse.
proof fn lemma_choice_before_draw(counts: Seq<u8>, open: int, t: int, h: int, m0: int, m1: int, m2: int) -> (r: (int, int, int, int))
    requires
        counts.len() == 35,
        0 <= open <= 4,
        1 <= t <= 34,
        counts[t] < 4,
        hand_size(counts) + 3 * open <= 13,
        choice_valid(counts.update(t, (counts[t] + 1) as u8), h, m0, m1, m2),
    ensures
        choice_valid(counts, r.0, r.1, r.2, r.3),
        choice_value(counts, open, r.0, r.1, r.2, r.3)
            <= choice_value(counts.update(t, (counts[t] + 1) as u8), open, h, m0, m1, m2) + 1,
{
    if t < 28 {
        lemma_choice_before_suit_draw(counts, open, t, h, m0, m1, m2)
    } else {
        lemma_choice_before_honor_draw(counts, open, t, h, m0, m1, m2)
    }
}

proof fn lemma_draw_lowers_at_most_one(counts: Seq<u8>, open: int, t: int, s: int, s2: int)
    requires
        counts.len() == 35,
        0 <= open <= 4,
        1 <= t <= 34,
        counts[t] < 4,
        hand_size(counts) + 3 * open <= 13,
        normal_shanten_ok(counts, open, s),
        normal_shanten_ok(counts.update(t, (counts[t] + 1) as u8), open, s2),
    ensures
        s - 1 <= s2,
{
    let c2 = counts.update(t, (counts[t] + 1) as u8);
    lemma_tile_sum_update(counts, 1, 35, t, (counts[t] + 1) as u8);
    if s2 != 8 - 2 * open {
        let (h, a, b, c) = choose|h: int, a: int, b: int, c: int|
            choice_valid(c2, h, a, b, c) && #[trigger] choice_value(c2, open, h, a, b, c) == s2;
        let r = lemma_choice_before_draw(counts, open, t, h, a, b, c);
        lemma_choice_floor(c2, open, h, a, b, c);
        if s != -1 {
            assert(choice_value(counts, open, r.0, r.1, r.2, r.3) >= s);
        }
    }
}

/// Drawing a tile into a hand of legal size (at most `13 - 3 * open` tiles
/// before the draw) never raises its standard-form shanten, and lowers it
/// by at most one.
pub proof fn law_draw_moves_normal_shanten_by_at_most_one(counts: Seq<u8>, open: int, t: int, s: int, s2: int)
    requires
        counts.len() == 35,
        0 <= open <= 4,
        1 <= t <= 34,
        counts[t] < 4,
        hand_size(counts) + 3 * open <= 13,
        normal_shanten_ok(counts, open, s),
        normal_shanten_ok(counts.update(t, (counts[t] + 1) as u8), open, s2),
    ensures
        s - 1 <= s2 <= s,
{
    lemma_draw_not_raising(counts, open, t, s, s2);
    lemma_draw_lowers_at_most_one(counts, open, t, s, s2);
}

/// The shanten result of a hand is unique.
pub proof fn lemma_shanten_result_unique(counts: Seq<u8>, open: int, a: ShantenResult, b: ShantenResult)
    requires
        shanten_result_ok(counts, open, a),
        shanten_result_ok(counts, open, b),
    ensures
        a == b,
{
    lemma_normal_shanten_unique(counts, open, a.normal as int, b.normal as int);
}

} // verus!
