//! Yaku: the scoring patterns of a winning hand, and how a hand is judged.
use vstd::prelude::*;
use vstd::multiset::Multiset;
use std::collections::HashSet;
use crate::tile::TileName;
use crate::hand::{Meld, is_open_meld, spec_has_open_meld, has_open_meld};
use crate::pattern::{all_readings, closed_kinds, generate_patterns, is_reading, open_kinds, split_melds};
pub use crate::pattern::{HandPattern, MeldKind, get_hand_patterns};
use crate::yaku_set::keep_yakuman;
pub use crate::yaku_set::{ALL_YAKU_IDS, VALID_YAKU_MASK, YAKUMAN_MASK, Yaku, YakuId, YakuSet, YakuSetIter, all_yaku};

verus! {


/// Suit (0, 1, 2) and rank (1..=9) of a number tile; `None` for honours and `NoTile`.
pub open spec fn spec_number_info(tile: TileName) -> Option<(usize, usize)> {
    let i = tile.id();
    if 1 <= i <= 27 {
        Some((((i - 1) / 9) as usize, ((i - 1) % 9 + 1) as usize))
    } else {
        None
    }
}

/// Suit (0: characters, 1: circles, 2: bamboos) and rank (1..=9) of a
/// number tile, `None` otherwise.
pub fn is_number_tile(tile: TileName) -> (r: Option<(usize, usize)>)
    ensures
        r == spec_number_info(tile),
{
    let idx = tile.index();
    if 1 <= idx && idx <= 27 {
        let z = idx - 1;
        Some((z / 9, z % 9 + 1))
    } else {
        None
    }
}

/// A 1 or a 9 of a suit.
pub open spec fn is_terminal_idx(k: int) -> bool {
    k == 1 || k == 9 || k == 10 || k == 18 || k == 19 || k == 27
}

/// A wind or a dragon.
pub open spec fn is_honor_idx(k: int) -> bool {
    28 <= k <= 34
}

/// A terminal or an honour.
pub open spec fn is_yaochu_idx(k: int) -> bool {
    is_terminal_idx(k) || is_honor_idx(k)
}

/// A 2 to 8 of a suit.
pub open spec fn is_simple_idx(k: int) -> bool {
    2 <= k <= 8 || 11 <= k <= 17 || 20 <= k <= 26
}

/// A dragon: red, green or white.
pub open spec fn is_dragon_idx(k: int) -> bool {
    32 <= k <= 34
}

/// The number tile of suit `s` (0..=2) and rank `r` (1..=9).
pub open spec fn suit_tile(s: int, r: int) -> TileName {
    TileName::spec_from_index(9 * s + r)
}

/// The situation of a win.
#[derive(Clone, Copy, Debug)]
pub struct WinContext {
    pub is_closed: bool,
    pub is_tsumo: bool,
    pub seat_wind: Option<TileName>,
    pub round_wind: Option<TileName>,
    pub riichi: bool,
    pub kan_count: usize,
    pub tenhou: bool,
    pub chiihou: bool,
    pub win_tile: Option<TileName>,
    pub is_rinshan: bool,
    pub is_chankan: bool,
    pub is_haitei: bool,
    pub is_houtei: bool,
    pub is_double_riichi: bool,
    pub is_ippatsu: bool,
}

impl Default for WinContext {
    /// A closed hand won by ron, with nothing else to note.
    fn default() -> (c: WinContext)
        ensures
            c.is_closed,
            !c.is_tsumo,
            c.seat_wind is None,
            c.round_wind is None,
            !c.riichi,
            c.kan_count == 0,
            !c.tenhou,
            !c.chiihou,
            c.win_tile is None,
            !c.is_rinshan,
            !c.is_chankan,
            !c.is_haitei,
            !c.is_houtei,
            !c.is_double_riichi,
            !c.is_ippatsu,
    {
        WinContext {
            is_closed: true,
            is_tsumo: false,
            seat_wind: None,
            round_wind: None,
            riichi: false,
            kan_count: 0,
            tenhou: false,
            chiihou: false,
            win_tile: None,
            is_rinshan: false,
            is_chankan: false,
            is_haitei: false,
            is_houtei: false,
            is_double_riichi: false,
            is_ippatsu: false,
        }
    }
}

// ---------------------------------------------------------------------
// Yaku that the counts of the whole hand decide.
// ---------------------------------------------------------------------

/// All simples (index 0 aside).
#[verifier::opaque]
pub open spec fn spec_tanyao(u: Seq<u8>) -> bool {
    forall|j: int| 1 <= j < 35 ==> #[trigger] u[j] == 0 || is_simple_idx(j)
}

/// All terminals and honours.
#[verifier::opaque]
pub open spec fn spec_honroutou(u: Seq<u8>) -> bool {
    forall|j: int| 1 <= j < 35 ==> #[trigger] u[j] == 0 || is_yaochu_idx(j)
}

/// All terminals.
#[verifier::opaque]
pub open spec fn spec_chinroutou(u: Seq<u8>) -> bool {
    forall|j: int| 1 <= j < 35 ==> #[trigger] u[j] == 0 || is_terminal_idx(j)
}

/// All honours.
#[verifier::opaque]
pub open spec fn spec_tsuuiisou(u: Seq<u8>) -> bool {
    forall|j: int| 1 <= j < 35 ==> #[trigger] u[j] == 0 || is_honor_idx(j)
}

/// The green tiles: 2s, 3s, 4s, 6s, 8s and the green dragon.
pub open spec fn is_green_idx(k: int) -> bool {
    k == 20 || k == 21 || k == 22 || k == 24 || k == 26 || k == 33
}

/// All green tiles.
#[verifier::opaque]
pub open spec fn spec_ryuuiisou(u: Seq<u8>) -> bool {
    forall|j: int| 1 <= j < 35 ==> #[trigger] u[j] == 0 || is_green_idx(j)
}

/// Number of indices in `k..35` that hold exactly two tiles.
pub open spec fn pairs_from(u: Seq<u8>, k: int) -> int
    decreases 35 - k,
{
    if k >= 35 || k < 0 {
        0
    } else {
        (if u[k] == 2 { 1int } else { 0int }) + pairs_from(u, k + 1)
    }
}

/// Seven indices with exactly two tiles each.
#[verifier::opaque]
pub open spec fn spec_chitoitsu(u: Seq<u8>) -> bool {
    pairs_from(u, 1) == 7
}

/// Every terminal and honour present, one of them at least twice.
#[verifier::opaque]
pub open spec fn spec_kokushi(u: Seq<u8>) -> bool {
    &&& forall|j: int| 1 <= j < 35 && is_yaochu_idx(j) ==> #[trigger] u[j] >= 1
    &&& exists|j: int| 1 <= j < 35 && is_yaochu_idx(j) && #[trigger] u[j] >= 2
}

/// Three of each dragon.
pub open spec fn spec_daisangen(u: Seq<u8>) -> bool {
    u[32] >= 3 && u[33] >= 3 && u[34] >= 3
}

/// Number of winds held at least `n` times.
pub open spec fn winds_with(u: Seq<u8>, n: int) -> int {
    (if u[28] >= n { 1int } else { 0int }) + (if u[29] >= n { 1int } else { 0int }) + (if u[30] >= n {
        1int
    } else {
        0int
    }) + (if u[31] >= n { 1int } else { 0int })
}

/// Three winds held three times and the fourth twice.
pub open spec fn spec_shousuushi(u: Seq<u8>) -> bool {
    winds_with(u, 3) == 3 && winds_with(u, 2) == 4
}

/// Every wind held three times.
pub open spec fn spec_daisuushi(u: Seq<u8>) -> bool {
    winds_with(u, 3) == 4
}

/// Some number tile present, and every number tile present of one suit.
#[verifier::opaque]
pub open spec fn one_suit(u: Seq<u8>) -> bool {
    &&& exists|j: int| 1 <= j <= 27 && #[trigger] u[j] > 0
    &&& forall|a: int, b: int|
        1 <= a <= 27 && 1 <= b <= 27 && #[trigger] u[a] > 0 && #[trigger] u[b] > 0 ==> (a - 1) / 9 == (b
            - 1) / 9
}

/// One suit, honours allowed (a hand of one suit alone counts too).
pub open spec fn spec_honitsu(u: Seq<u8>) -> bool {
    one_suit(u)
}

/// One suit and no honour.
pub open spec fn spec_chinitsu(u: Seq<u8>) -> bool {
    one_suit(u) && forall|j: int| 28 <= j < 35 ==> #[trigger] u[j] == 0
}

/// How many tiles of rank `r` the nine gates ask for.
pub open spec fn gate_need(r: int) -> int {
    if r == 1 || r == 9 { 3 } else { 1 }
}

/// Tiles of suit `s` above the nine gates, over ranks `r..=9`.
pub open spec fn gate_extra_from(u: Seq<u8>, s: int, r: int) -> int
    decreases 10 - r,
{
    if r > 9 || r < 1 {
        0
    } else {
        u[9 * s + r] - gate_need(r) + gate_extra_from(u, s, r + 1)
    }
}

/// Suit `s` holds 1112345678999 and one more tile of the suit.
pub open spec fn gates_in_suit(u: Seq<u8>, s: int) -> bool {
    &&& forall|r: int| 1 <= r <= 9 ==> #[trigger] u[9 * s + r] >= gate_need(r)
    &&& gate_extra_from(u, s, 1) == 1
}

/// The nine gates, in a hand of fourteen concealed tiles.
#[verifier::opaque]
pub open spec fn spec_chuuren(u: Seq<u8>, tiles_len: int) -> bool {
    tiles_len == 14 && (gates_in_suit(u, 0) || gates_in_suit(u, 1) || gates_in_suit(u, 2))
}

/// A wind that scores: held three times or more.
pub open spec fn wind_scores(u: Seq<u8>, w: Option<TileName>) -> bool {
    w is Some && u[w->0.id()] >= 3
}

/// The yakuman that the counts alone decide.
#[verifier::opaque]
pub open spec fn count_yakuman(u: Seq<u8>, tiles_len: int) -> Set<YakuId> {
    Set::new(
        |id: YakuId|
            match id {
                YakuId::KokushiMusou => spec_kokushi(u),
                YakuId::Chinroutou => spec_chinroutou(u),
                YakuId::Daisangen => spec_daisangen(u),
                YakuId::Daisuushi => spec_daisuushi(u),
                YakuId::Shousuushi => spec_shousuushi(u),
                YakuId::Tsuuiisou => spec_tsuuiisou(u),
                YakuId::Ryuuiisou => spec_ryuuiisou(u),
                YakuId::ChuurenPoutou => spec_chuuren(u, tiles_len),
                _ => false,
            },
    )
}

/// The yaku that the situation alone decides.
#[verifier::opaque]
pub open spec fn situational(ctx: WinContext) -> Set<YakuId> {
    Set::new(
        |id: YakuId|
            match id {
                YakuId::DoubleRiichi => ctx.is_double_riichi && ctx.is_closed,
                YakuId::Riichi => !(ctx.is_double_riichi && ctx.is_closed) && ctx.riichi && ctx.is_closed,
                YakuId::Ippatsu => ctx.is_ippatsu && ctx.is_closed && (ctx.riichi || ctx.is_double_riichi),
                YakuId::RinshanKaihou => ctx.is_rinshan && ctx.is_tsumo,
                YakuId::Chankan => ctx.is_chankan && !ctx.is_tsumo,
                YakuId::HaiteiRaoyue => ctx.is_haitei && ctx.is_tsumo,
                YakuId::HouteiRaoyui => ctx.is_houtei && !ctx.is_tsumo,
                YakuId::MenzenTsumo => ctx.is_closed && ctx.is_tsumo,
                YakuId::Tenhou => ctx.tenhou,
                YakuId::Chiihou => ctx.chiihou,
                _ => false,
            },
    )
}

fn all_present_simple(u: &[u8; 35]) -> (b: bool)
    ensures
        b == spec_tanyao(u@),
{
    proof {
        reveal(spec_tanyao);
    }
    let mut j: usize = 1;
    while j < 35
        invariant
            1 <= j <= 35,
            forall|k: int| 1 <= k < j ==> #[trigger] u@[k] == 0 || is_simple_idx(k),
        decreases 35 - j,
    {
        if u[j] != 0 && !((2 <= j && j <= 8) || (11 <= j && j <= 17) || (20 <= j && j <= 26)) {
            assert(!(u@[j as int] == 0 || is_simple_idx(j as int)));
            proof {
                reveal(spec_tanyao);
            }
            return false;
        }
        j = j + 1;
    }
    true
}

/// All simples.
fn is_tanyao(counts: &[u8; 35]) -> (b: bool)
    ensures
        b == spec_tanyao(counts@),
{
    all_present_simple(counts)
}

/// Whether index `j` is a terminal.
fn terminal_idx(j: usize) -> (b: bool)
    ensures
        b == is_terminal_idx(j as int),
{
    j == 1 || j == 9 || j == 10 || j == 18 || j == 19 || j == 27
}

/// All terminals and honours.
fn is_honroutou(counts: &[u8; 35]) -> (b: bool)
    ensures
        b == spec_honroutou(counts@),
{
    proof {
        reveal(spec_honroutou);
    }
    let mut j: usize = 1;
    while j < 35
        invariant
            1 <= j <= 35,
            forall|k: int| 1 <= k < j ==> #[trigger] counts@[k] == 0 || is_yaochu_idx(k),
        decreases 35 - j,
    {
        if counts[j] != 0 && !(terminal_idx(j) || 28 <= j) {
            assert(!(counts@[j as int] == 0 || is_yaochu_idx(j as int)));
            proof {
                reveal(spec_honroutou);
            }
            return false;
        }
        j = j + 1;
    }
    true
}

/// All terminals.
fn is_chinroutou(counts: &[u8; 35]) -> (b: bool)
    ensures
        b == spec_chinroutou(counts@),
{
    proof {
        reveal(spec_chinroutou);
    }
    let mut j: usize = 1;
    while j < 35
        invariant
            1 <= j <= 35,
            forall|k: int| 1 <= k < j ==> #[trigger] counts@[k] == 0 || is_terminal_idx(k),
        decreases 35 - j,
    {
        if counts[j] != 0 && !terminal_idx(j) {
            assert(!(counts@[j as int] == 0 || is_terminal_idx(j as int)));
            proof {
                reveal(spec_chinroutou);
            }
            return false;
        }
        j = j + 1;
    }
    true
}

/// All honours.
fn is_tsuuiisou(counts: &[u8; 35]) -> (b: bool)
    ensures
        b == spec_tsuuiisou(counts@),
{
    proof {
        reveal(spec_tsuuiisou);
    }
    let mut j: usize = 1;
    while j < 35
        invariant
            1 <= j <= 35,
            forall|k: int| 1 <= k < j ==> #[trigger] counts@[k] == 0 || is_honor_idx(k),
        decreases 35 - j,
    {
        if counts[j] != 0 && j < 28 {
            assert(!(counts@[j as int] == 0 || is_honor_idx(j as int)));
            proof {
                reveal(spec_tsuuiisou);
            }
            return false;
        }
        j = j + 1;
    }
    true
}

/// All green.
fn is_ryuuiisou(counts: &[u8; 35]) -> (b: bool)
    ensures
        b == spec_ryuuiisou(counts@),
{
    proof {
        reveal(spec_ryuuiisou);
    }
    let mut j: usize = 1;
    while j < 35
        invariant
            1 <= j <= 35,
            forall|k: int| 1 <= k < j ==> #[trigger] counts@[k] == 0 || is_green_idx(k),
        decreases 35 - j,
    {
        if counts[j] != 0 && !(j == 20 || j == 21 || j == 22 || j == 24 || j == 26 || j == 33) {
            assert(!(counts@[j as int] == 0 || is_green_idx(j as int)));
            proof {
                reveal(spec_ryuuiisou);
            }
            return false;
        }
        j = j + 1;
    }
    true
}

/// Seven pairs: exactly seven indices (index 0 aside) hold two tiles.
fn is_chitoitsu(counts: &[u8; 35]) -> (b: bool)
    ensures
        b == spec_chitoitsu(counts@),
{
    proof {
        reveal(spec_chitoitsu);
    }
    let mut n: usize = 0;
    let mut j: usize = 35;
    while j > 1
        invariant
            1 <= j <= 35,
            n == pairs_from(counts@, j as int),
            n <= 35 - j,
        decreases j,
    {
        j = j - 1;
        if counts[j] == 2 {
            n = n + 1;
        }
    }
    n == 7
}

/// Thirteen orphans: every terminal and honour, one of them twice.
fn is_kokushi(counts: &[u8; 35]) -> (b: bool)
    ensures
        b == spec_kokushi(counts@),
{
    proof {
        reveal(spec_kokushi);
    }
    let mut missing: usize = 0;
    let mut has_pair = false;
    let mut j: usize = 1;
    while j < 35
        invariant
            1 <= j <= 35,
            missing == 0 <==> forall|k: int| 1 <= k < j && is_yaochu_idx(k) ==> #[trigger] counts@[k] >= 1,
            missing <= j,
            has_pair <==> exists|k: int| 1 <= k < j && is_yaochu_idx(k) && #[trigger] counts@[k] >= 2,
        decreases 35 - j,
    {
        if terminal_idx(j) || 28 <= j {
            if counts[j] == 0 {
                missing = missing + 1;
            } else if counts[j] >= 2 {
                has_pair = true;
            }
        }
        j = j + 1;
    }
    missing == 0 && has_pair
}

/// Three of each dragon.
fn is_daisangen(counts: &[u8; 35]) -> (b: bool)
    ensures
        b == spec_daisangen(counts@),
{
    counts[32] >= 3 && counts[33] >= 3 && counts[34] >= 3
}

/// Number of winds held at least `n` times.
fn count_winds(counts: &[u8; 35], n: u8) -> (r: usize)
    ensures
        r == winds_with(counts@, n as int),
{
    let mut r: usize = 0;
    if counts[28] >= n {
        r = r + 1;
    }
    if counts[29] >= n {
        r = r + 1;
    }
    if counts[30] >= n {
        r = r + 1;
    }
    if counts[31] >= n {
        r = r + 1;
    }
    r
}

/// Whether the hand is the little four winds, and whether it is the big four winds.
fn detect_suushi(counts: &[u8; 35]) -> (r: Option<(bool, bool)>)
    ensures
        r == Some((spec_shousuushi(counts@), spec_daisuushi(counts@))),
{
    let triplets = count_winds(counts, 3);
    let pairs = count_winds(counts, 2);
    let small = triplets == 3 && pairs == 4;
    let all = triplets == 4;
    Some((small, all))
}

/// The suit of the number tiles present, all of one suit (honours allowed).
fn one_suit_of(counts: &[u8; 35]) -> (b: bool)
    ensures
        b == one_suit(counts@),
{
    proof {
        reveal(one_suit);
    }
    let mut suit_seen: Option<usize> = None;
    let mut j: usize = 1;
    while j <= 27
        invariant
            1 <= j <= 28,
            suit_seen is None <==> forall|k: int| 1 <= k < j ==> #[trigger] counts@[k] == 0,
            suit_seen is Some ==> {
                &&& suit_seen->0 <= 2
                &&& exists|k: int| 1 <= k < j && #[trigger] counts@[k] > 0 && (k - 1) / 9 == suit_seen->0
                &&& forall|k: int| 1 <= k < j && #[trigger] counts@[k] > 0 ==> (k - 1) / 9 == suit_seen->0
            },
        decreases 28 - j,
    {
        if counts[j] != 0 {
            let suit = (j - 1) / 9;
            match suit_seen {
                None => {
                    suit_seen = Some(suit);
                },
                Some(s) => {
                    if s != suit {
                        proof {
                            let k = choose|k: int| 1 <= k < j && #[trigger] counts@[k] > 0 && (k - 1) / 9 == s;
                            assert(counts@[j as int] > 0);
                        }
                        proof {
                reveal(one_suit);
            }
            return false;
                    }
                },
            }
        }
        j = j + 1;
    }
    proof {
        if suit_seen is None {
            assert forall|k: int| 1 <= k <= 27 implies #[trigger] counts@[k] == 0 by {
            }
        }
    }
    suit_seen.is_some()
}

/// One suit, honours allowed.
fn is_honitsu(counts: &[u8; 35]) -> (b: bool)
    ensures
        b == spec_honitsu(counts@),
{
    one_suit_of(counts)
}

/// One suit, no honour.
fn is_chinitsu(counts: &[u8; 35]) -> (b: bool)
    ensures
        b == spec_chinitsu(counts@),
{
    proof {
        reveal(one_suit);
    }
    let mut j: usize = 28;
    while j < 35
        invariant
            28 <= j <= 35,
            forall|k: int| 28 <= k < j ==> #[trigger] counts@[k] == 0,
        decreases 35 - j,
    {
        if counts[j] != 0 {
            return false;
        }
        j = j + 1;
    }
    one_suit_of(counts)
}

/// The nine gates in suit `s`.
fn gates_in(counts: &[u8; 35], s: usize) -> (b: bool)
    requires
        s <= 2,
    ensures
        b == gates_in_suit(counts@, s as int),
{
    let mut r: usize = 10;
    let mut extra: i64 = 0;
    let mut ok = true;
    while r > 1
        invariant
            1 <= r <= 10,
            s <= 2,
            ok <==> forall|q: int| r <= q <= 9 ==> #[trigger] counts@[9 * s + q] >= gate_need(q),
            ok ==> extra == gate_extra_from(counts@, s as int, r as int),
            0 <= extra <= (10 - r) * 255,
        decreases r,
    {
        r = r - 1;
        let need: u8 = if r == 1 || r == 9 { 3 } else { 1 };
        let c = counts[9 * s + r];
        if c < need {
            ok = false;
        } else {
            extra = extra + (c - need) as i64;
        }
        proof {
            if ok {
                assert(extra == gate_extra_from(counts@, s as int, r as int));
            }
        }
    }
    ok && extra == 1
}

/// The nine gates, in a hand of fourteen concealed tiles.
fn is_chuuren_poutou(counts: &[u8; 35], tiles_len: usize) -> (b: bool)
    ensures
        b == spec_chuuren(counts@, tiles_len as int),
{
    proof {
        reveal(spec_chuuren);
    }
    if tiles_len != 14 {
        return false;
    }
    gates_in(counts, 0) || gates_in(counts, 1) || gates_in(counts, 2)
}

// ---------------------------------------------------------------------
// Yaku that a reading of the hand as a pair and melds decides.
// ---------------------------------------------------------------------

/// The tile of index `k`.
pub open spec fn fi(k: int) -> TileName {
    TileName::spec_from_index(k)
}

/// Triplets and quads of a tile.
pub open spec fn sets_of(ms: Multiset<MeldKind>, t: TileName) -> int {
    (ms.count(MeldKind::Triplet(t)) + ms.count(MeldKind::Quad(t))) as int
}

/// Triplets and quads over the tiles of index below `n`.
pub open spec fn sets_below(ms: Multiset<MeldKind>, n: int) -> int
    decreases n,
{
    if n <= 0 {
        0
    } else {
        sets_below(ms, n - 1) + sets_of(ms, fi(n - 1))
    }
}

/// Pairs of identical runs over the tiles of index below `n`.
pub open spec fn run_pairs_below(ms: Multiset<MeldKind>, n: int) -> int
    decreases n,
{
    if n <= 0 {
        0
    } else {
        run_pairs_below(ms, n - 1) + ms.count(MeldKind::Sequence(fi(n - 1))) as int / 2
    }
}

/// No run: every meld is a triplet or a quad.
pub open spec fn no_runs(ms: Multiset<MeldKind>) -> bool {
    forall|t: TileName| ms.count(MeldKind::Sequence(t)) == 0
}

/// Only runs.
pub open spec fn only_runs(ms: Multiset<MeldKind>) -> bool {
    forall|t: TileName| sets_of(ms, t) == 0
}

/// All triplets (or quads).
pub open spec fn pat_toitoi(all: Multiset<MeldKind>) -> bool {
    no_runs(all)
}

/// Two identical runs.
pub open spec fn pat_ipeiko(all: Multiset<MeldKind>) -> bool {
    exists|t: TileName| all.count(MeldKind::Sequence(t)) >= 2
}

/// Only runs, and two pairs of identical runs.
pub open spec fn pat_ryanpeiko(all: Multiset<MeldKind>) -> bool {
    only_runs(all) && run_pairs_below(all, 35) >= 2
}

/// A ron on the tile of a concealed triplet or quad.
pub open spec fn ron_on_set(cm: Multiset<MeldKind>, ctx: WinContext) -> bool {
    !ctx.is_tsumo && ctx.win_tile is Some && sets_of(cm, ctx.win_tile->0) > 0
}

/// Three concealed triplets: the concealed triplets and quads, one less
/// where a ron completed one of them, number three or more.
pub open spec fn pat_sanankou(cm: Multiset<MeldKind>, ctx: WinContext) -> bool {
    sets_below(cm, 35) - (if ron_on_set(cm, ctx) { 1int } else { 0int }) >= 3
}

/// Dragon triplets and quads.
pub open spec fn dragon_sets(all: Multiset<MeldKind>) -> int {
    sets_of(all, TileName::Red) + sets_of(all, TileName::Green) + sets_of(all, TileName::White)
}

/// Two dragon triplets and a dragon pair.
pub open spec fn pat_shousangen(pair: TileName, all: Multiset<MeldKind>) -> bool {
    dragon_sets(all) == 2 && is_dragon_idx(pair.id())
}

/// A run that starts at rank 1 or 7 of a suit.
pub open spec fn is_edge_run_idx(k: int) -> bool {
    1 <= k <= 27 && ((k - 1) % 9 == 0 || (k - 1) % 9 == 6)
}

/// Every meld holds a terminal or an honour.
pub open spec fn chanta_meld(m: MeldKind) -> bool {
    match m {
        MeldKind::Sequence(t) => is_edge_run_idx(t.id()),
        MeldKind::Triplet(t) => is_yaochu_idx(t.id()),
        MeldKind::Quad(t) => is_yaochu_idx(t.id()),
    }
}

/// Every meld holds a terminal.
pub open spec fn junchan_meld(m: MeldKind) -> bool {
    match m {
        MeldKind::Sequence(t) => is_edge_run_idx(t.id()),
        MeldKind::Triplet(t) => is_terminal_idx(t.id()),
        MeldKind::Quad(t) => is_terminal_idx(t.id()),
    }
}

/// Terminal or honour in every meld and in the pair.
pub open spec fn pat_chantaiyao(pair: TileName, all: Multiset<MeldKind>) -> bool {
    is_yaochu_idx(pair.id()) && forall|m: MeldKind| all.count(m) > 0 ==> chanta_meld(m)
}

/// Terminal in every meld and in the pair.
pub open spec fn pat_junchan(pair: TileName, all: Multiset<MeldKind>) -> bool {
    is_terminal_idx(pair.id()) && forall|m: MeldKind| all.count(m) > 0 ==> junchan_meld(m)
}

/// A run of rank `r` in each suit.
pub open spec fn all_three_runs(all: Multiset<MeldKind>, r: int) -> bool {
    &&& all.count(MeldKind::Sequence(suit_tile(0, r))) > 0
    &&& all.count(MeldKind::Sequence(suit_tile(1, r))) > 0
    &&& all.count(MeldKind::Sequence(suit_tile(2, r))) > 0
}

/// A triplet or quad of rank `r` in each suit.
pub open spec fn all_three_sets(all: Multiset<MeldKind>, r: int) -> bool {
    &&& sets_of(all, suit_tile(0, r)) > 0
    &&& sets_of(all, suit_tile(1, r)) > 0
    &&& sets_of(all, suit_tile(2, r)) > 0
}

/// The same run in the three suits.
pub open spec fn pat_sanshoku_doujun(all: Multiset<MeldKind>) -> bool {
    exists|r: int| 1 <= r <= 9 && #[trigger] all_three_runs(all, r)
}

/// The same triplet in the three suits.
pub open spec fn pat_sanshoku_doukou(all: Multiset<MeldKind>) -> bool {
    exists|r: int| 1 <= r <= 9 && #[trigger] all_three_sets(all, r)
}

/// Four concealed triplets: the concealed melds are all triplets or quads,
/// unless a ron completed one of them away from a pair wait.
pub open spec fn pat_suuankou(pair: TileName, cm: Multiset<MeldKind>, ctx: WinContext) -> bool {
    no_runs(cm) && !(ron_on_set(cm, ctx) && pair != ctx.win_tile->0)
}

/// A dragon, or the seat or round wind.
pub open spec fn is_value_pair(tile: TileName, ctx: WinContext) -> bool {
    is_dragon_idx(tile.id()) || ctx.seat_wind == Some(tile) || ctx.round_wind == Some(tile)
}

/// The run starting at index `k` was completed by the number tile `w` on
/// an open-ended wait: `w` at its low end with room above, or at its high
/// end with room below.
pub open spec fn ryanmen_run(k: int, w: TileName) -> bool {
    let wi = w.id();
    1 <= k <= 27 && 1 <= wi <= 27 && (k - 1) / 9 == (wi - 1) / 9 && ((wi == k && (k - 1) % 9 + 1 < 7) || (wi
        == k + 2 && (k - 1) % 9 + 1 > 1))
}

/// Pinfu on this reading: only runs, a pair that scores nothing and is not
/// the winning tile, and a run that the winning tile completed open-ended.
pub open spec fn pat_pinfu(pair: TileName, all: Multiset<MeldKind>, ctx: WinContext) -> bool {
    &&& ctx.win_tile is Some
    &&& only_runs(all)
    &&& !is_value_pair(pair, ctx)
    &&& ctx.win_tile != Some(pair)
    &&& exists|t: TileName| all.count(MeldKind::Sequence(t)) > 0 && ryanmen_run(t.id(), ctx.win_tile->0)
}

/// A property of a reading: its pair, its concealed melds and its called melds.
pub type ReadingPred = spec_fn(TileName, Multiset<MeldKind>, Multiset<MeldKind>) -> bool;

/// Some reading of the concealed tiles `c`, with the closed kans `closed`
/// and the called melds `open`, has the property.
pub open spec fn some_reading(c: Seq<u8>, closed: Seq<MeldKind>, open: Seq<MeldKind>, pred: ReadingPred) -> bool {
    exists|p: int, f: Seq<MeldKind>|
        #[trigger] is_reading(c, p, f) && pred(fi(p), (closed + f).to_multiset(), open.to_multiset())
}

/// Some pattern among the first `n` of the list has the property.
pub open spec fn some_pattern_upto(ps: Seq<HandPattern>, n: int, pred: ReadingPred) -> bool {
    exists|j: int|
        0 <= j < n && pred(
            (#[trigger] ps[j]).pair,
            ps[j].melds@.to_multiset(),
            ps[j].open_melds@.to_multiset(),
        )
}

/// Some pattern of the list has the property.
pub open spec fn some_pattern(ps: Seq<HandPattern>, pred: ReadingPred) -> bool {
    some_pattern_upto(ps, ps.len() as int, pred)
}

/// Over a list of every reading, "some pattern" and "some reading" agree.
pub proof fn lemma_some_pattern(ps: Seq<HandPattern>, c: Seq<u8>, closed: Seq<MeldKind>, open: Seq<MeldKind>, pred: ReadingPred)
    requires
        all_readings(ps, c, closed, open, 35),
    ensures
        some_pattern(ps, pred) == some_reading(c, closed, open, pred),
{
    reveal(all_readings);
    if some_pattern(ps, pred) {
        let j = choose|j: int|
            0 <= j < ps.len() && pred(
                (#[trigger] ps[j]).pair,
                ps[j].melds@.to_multiset(),
                ps[j].open_melds@.to_multiset(),
            );
        assert(crate::pattern::reads(ps[j], c, closed, open));
        let f = choose|f: Seq<MeldKind>| #[trigger] is_reading(c, ps[j].pair.id(), f) && ps[j].melds@ == closed + f;
        crate::tile::lemma_tile_index(ps[j].pair);
        assert(is_reading(c, ps[j].pair.id(), f) && pred(fi(ps[j].pair.id()), (closed + f).to_multiset(), open.to_multiset()));
    }
    if some_reading(c, closed, open, pred) {
        let (p, f) = choose|p: int, f: Seq<MeldKind>|
            #[trigger] is_reading(c, p, f) && pred(fi(p), (closed + f).to_multiset(), open.to_multiset());
        let j = choose|j: int|
            0 <= j < ps.len() && (#[trigger] ps[j]).pair.id() == p
                && ps[j].melds@.to_multiset() == (closed + f).to_multiset();
        assert(crate::pattern::reads(ps[j], c, closed, open));
        crate::tile::lemma_tile_index(ps[j].pair);
        assert(pred(ps[j].pair, ps[j].melds@.to_multiset(), ps[j].open_melds@.to_multiset()));
    }
}

/// How many runs, triplets and quads of each tile a list of melds holds.
pub struct KindCounts {
    pub seq: [usize; 35],
    pub trip: [usize; 35],
    pub quad: [usize; 35],
}

/// The counts are those of the multiset.
pub open spec fn counts_of(kc: KindCounts, ms: Multiset<MeldKind>) -> bool {
    &&& forall|k: int| 0 <= k < 35 ==> #[trigger] kc.seq@[k] == ms.count(MeldKind::Sequence(fi(k)))
    &&& forall|k: int| 0 <= k < 35 ==> #[trigger] kc.trip@[k] == ms.count(MeldKind::Triplet(fi(k)))
    &&& forall|k: int| 0 <= k < 35 ==> #[trigger] kc.quad@[k] == ms.count(MeldKind::Quad(fi(k)))
}

/// Counts the runs, triplets and quads of each tile.
pub fn kind_counts(v: &Vec<MeldKind>) -> (kc: KindCounts)
    ensures
        counts_of(kc, v@.to_multiset()),
{
    let mut kc = KindCounts { seq: [0usize; 35], trip: [0usize; 35], quad: [0usize; 35] };
    let mut i: usize = 0;
    proof {
        broadcast use {vstd::seq_lib::group_to_multiset_ensures, vstd::seq_lib::lemma_multiset_commutative, vstd::multiset::group_multiset_axioms};
        assert(v@.subrange(0, 0) =~= Seq::<MeldKind>::empty());
        assert(v@.subrange(0, 0).to_multiset() =~= Multiset::<MeldKind>::empty());
    }
    while i < v.len()
        invariant
            i <= v.len(),
            counts_of(kc, v@.subrange(0, i as int).to_multiset()),
            forall|k: int| 0 <= k < 35 ==> #[trigger] kc.seq@[k] <= i,
            forall|k: int| 0 <= k < 35 ==> #[trigger] kc.trip@[k] <= i,
            forall|k: int| 0 <= k < 35 ==> #[trigger] kc.quad@[k] <= i,
        decreases v.len() - i,
    {
        let m = v[i];
        proof {
            assert(v@.subrange(0, i + 1) =~= v@.subrange(0, i as int).push(m));
        }
        let ghost old_kc = kc;
        match m {
            MeldKind::Sequence(t) => {
                let k = t.index();
                kc.seq[k] = kc.seq[k] + 1;
            },
            MeldKind::Triplet(t) => {
                let k = t.index();
                kc.trip[k] = kc.trip[k] + 1;
            },
            MeldKind::Quad(t) => {
                let k = t.index();
                kc.quad[k] = kc.quad[k] + 1;
            },
        }
        proof {
            broadcast use {vstd::seq_lib::group_to_multiset_ensures, vstd::seq_lib::lemma_multiset_commutative, vstd::multiset::group_multiset_axioms};
            let ms = v@.subrange(0, i + 1).to_multiset();
            assert forall|k: int| 0 <= k < 35 implies {
                &&& kc.seq@[k] == ms.count(MeldKind::Sequence(fi(k)))
                &&& kc.trip@[k] == ms.count(MeldKind::Triplet(fi(k)))
                &&& kc.quad@[k] == ms.count(MeldKind::Quad(fi(k)))
            } by {
                crate::tile::lemma_index_tile(k);
                match m {
                    MeldKind::Sequence(t) => {
                        crate::tile::lemma_tile_index(t);
                    },
                    MeldKind::Triplet(t) => {
                        crate::tile::lemma_tile_index(t);
                    },
                    MeldKind::Quad(t) => {
                        crate::tile::lemma_tile_index(t);
                    },
                }
                assert(old_kc.seq@[k] == v@.subrange(0, i as int).to_multiset().count(MeldKind::Sequence(fi(k))));
                assert(old_kc.trip@[k] == v@.subrange(0, i as int).to_multiset().count(MeldKind::Triplet(fi(k))));
                assert(old_kc.quad@[k] == v@.subrange(0, i as int).to_multiset().count(MeldKind::Quad(fi(k))));
            }
        }
        i = i + 1;
    }
    proof {
        assert(v@.subrange(0, v.len() as int) =~= v@);
    }
    kc
}

/// Reading a count of a meld kind off the table of counts.
proof fn lemma_counts_at(kc: KindCounts, ms: Multiset<MeldKind>, t: TileName)
    requires
        counts_of(kc, ms),
    ensures
        ms.count(MeldKind::Sequence(t)) == kc.seq@[t.id()],
        ms.count(MeldKind::Triplet(t)) == kc.trip@[t.id()],
        ms.count(MeldKind::Quad(t)) == kc.quad@[t.id()],
        0 <= t.id() < 35,
{
    crate::tile::lemma_tile_index(t);
    assert(kc.seq@[t.id()] == ms.count(MeldKind::Sequence(fi(t.id()))));
    assert(kc.trip@[t.id()] == ms.count(MeldKind::Triplet(fi(t.id()))));
    assert(kc.quad@[t.id()] == ms.count(MeldKind::Quad(fi(t.id()))));
}

/// No run.
fn no_runs_in(kc: &KindCounts, Ghost(ms): Ghost<Multiset<MeldKind>>) -> (b: bool)
    requires
        counts_of(*kc, ms),
    ensures
        b == no_runs(ms),
{
    let mut k: usize = 0;
    while k < 35
        invariant
            k <= 35,
            counts_of(*kc, ms),
            forall|j: int| 0 <= j < k ==> #[trigger] kc.seq@[j] == 0,
        decreases 35 - k,
    {
        if kc.seq[k] != 0 {
            proof {
                crate::tile::lemma_index_tile(k as int);
                assert(ms.count(MeldKind::Sequence(fi(k as int))) != 0);
            }
            return false;
        }
        k = k + 1;
    }
    proof {
        assert forall|t: TileName| ms.count(MeldKind::Sequence(t)) == 0 by {
            lemma_counts_at(*kc, ms, t);
        }
    }
    true
}

/// Only runs.
fn only_runs_in(kc: &KindCounts, Ghost(ms): Ghost<Multiset<MeldKind>>) -> (b: bool)
    requires
        counts_of(*kc, ms),
    ensures
        b == only_runs(ms),
{
    let mut k: usize = 0;
    while k < 35
        invariant
            k <= 35,
            counts_of(*kc, ms),
            forall|j: int| 0 <= j < k ==> #[trigger] kc.trip@[j] == 0,
            forall|j: int| 0 <= j < k ==> #[trigger] kc.quad@[j] == 0,
        decreases 35 - k,
    {
        if kc.trip[k] != 0 || kc.quad[k] != 0 {
            proof {
                crate::tile::lemma_index_tile(k as int);
                assert(kc.trip@[k as int] == ms.count(MeldKind::Triplet(fi(k as int))));
                assert(kc.quad@[k as int] == ms.count(MeldKind::Quad(fi(k as int))));
                assert(sets_of(ms, fi(k as int)) != 0);
            }
            return false;
        }
        k = k + 1;
    }
    proof {
        assert forall|t: TileName| sets_of(ms, t) == 0 by {
            lemma_counts_at(*kc, ms, t);
        }
    }
    true
}

/// Two identical runs.
fn ipeiko_in(kc: &KindCounts, Ghost(ms): Ghost<Multiset<MeldKind>>) -> (b: bool)
    requires
        counts_of(*kc, ms),
    ensures
        b == pat_ipeiko(ms),
{
    let mut k: usize = 0;
    while k < 35
        invariant
            k <= 35,
            counts_of(*kc, ms),
            forall|j: int| 0 <= j < k ==> #[trigger] kc.seq@[j] < 2,
        decreases 35 - k,
    {
        if kc.seq[k] >= 2 {
            proof {
                assert(kc.seq@[k as int] == ms.count(MeldKind::Sequence(fi(k as int))));
            }
            return true;
        }
        k = k + 1;
    }
    proof {
        assert forall|t: TileName| ms.count(MeldKind::Sequence(t)) < 2 by {
            lemma_counts_at(*kc, ms, t);
        }
    }
    false
}

/// Pairs of identical runs.
fn run_pairs(kc: &KindCounts, Ghost(ms): Ghost<Multiset<MeldKind>>) -> (n: usize)
    requires
        counts_of(*kc, ms),
        forall|k: int| 0 <= k < 35 ==> #[trigger] kc.seq@[k] <= 1000,
    ensures
        n == run_pairs_below(ms, 35),
{
    let mut n: usize = 0;
    let mut k: usize = 0;
    while k < 35
        invariant
            k <= 35,
            counts_of(*kc, ms),
            forall|j: int| 0 <= j < 35 ==> #[trigger] kc.seq@[j] <= 1000,
            n == run_pairs_below(ms, k as int),
            n <= 1000 * k,
        decreases 35 - k,
    {
        proof {
            assert(kc.seq@[k as int] == ms.count(MeldKind::Sequence(fi(k as int))));
        }
        n = n + kc.seq[k] / 2;
        k = k + 1;
    }
    n
}

/// Triplets and quads.
fn sets_count(kc: &KindCounts, Ghost(ms): Ghost<Multiset<MeldKind>>) -> (n: usize)
    requires
        counts_of(*kc, ms),
        forall|k: int| 0 <= k < 35 ==> #[trigger] kc.trip@[k] <= 1000,
        forall|k: int| 0 <= k < 35 ==> #[trigger] kc.quad@[k] <= 1000,
    ensures
        n == sets_below(ms, 35),
{
    let mut n: usize = 0;
    let mut k: usize = 0;
    while k < 35
        invariant
            k <= 35,
            counts_of(*kc, ms),
            forall|j: int| 0 <= j < 35 ==> #[trigger] kc.trip@[j] <= 1000,
            forall|j: int| 0 <= j < 35 ==> #[trigger] kc.quad@[j] <= 1000,
            n == sets_below(ms, k as int),
            n <= 2000 * k,
        decreases 35 - k,
    {
        proof {
            assert(kc.trip@[k as int] == ms.count(MeldKind::Triplet(fi(k as int))));
            assert(kc.quad@[k as int] == ms.count(MeldKind::Quad(fi(k as int))));
        }
        n = n + kc.trip[k] + kc.quad[k];
        k = k + 1;
    }
    n
}

/// Whether a meld of a kind count table stands for the meld kind at index `k`.
proof fn lemma_meld_cases(m: MeldKind, kc: KindCounts, ms: Multiset<MeldKind>)
    requires
        counts_of(kc, ms),
        ms.count(m) > 0,
    ensures
        m is Sequence ==> kc.seq@[m->Sequence_0.id()] > 0,
        m is Triplet ==> kc.trip@[m->Triplet_0.id()] > 0,
        m is Quad ==> kc.quad@[m->Quad_0.id()] > 0,
{
    match m {
        MeldKind::Sequence(t) => lemma_counts_at(kc, ms, t),
        MeldKind::Triplet(t) => lemma_counts_at(kc, ms, t),
        MeldKind::Quad(t) => lemma_counts_at(kc, ms, t),
    }
}

/// Every meld holds a terminal or an honour (`terminals_only`: a terminal).
fn edge_melds_in(kc: &KindCounts, Ghost(ms): Ghost<Multiset<MeldKind>>, terminals_only: bool) -> (b: bool)
    requires
        counts_of(*kc, ms),
    ensures
        !terminals_only ==> b == forall|m: MeldKind| ms.count(m) > 0 ==> chanta_meld(m),
        terminals_only ==> b == forall|m: MeldKind| ms.count(m) > 0 ==> junchan_meld(m),
{
    let mut k: usize = 0;
    while k < 35
        invariant
            k <= 35,
            counts_of(*kc, ms),
            forall|j: int| 0 <= j < k && #[trigger] kc.seq@[j] > 0 ==> is_edge_run_idx(j),
            forall|j: int|
                0 <= j < k && #[trigger] kc.trip@[j] > 0 ==> (if terminals_only {
                    is_terminal_idx(j)
                } else {
                    is_yaochu_idx(j)
                }),
            forall|j: int|
                0 <= j < k && #[trigger] kc.quad@[j] > 0 ==> (if terminals_only {
                    is_terminal_idx(j)
                } else {
                    is_yaochu_idx(j)
                }),
        decreases 35 - k,
    {
        let edge_run = 1 <= k && k <= 27 && ((k - 1) % 9 == 0 || (k - 1) % 9 == 6);
        let set_ok = if terminals_only { terminal_idx(k) } else { terminal_idx(k) || 28 <= k };
        if (kc.seq[k] > 0 && !edge_run) || ((kc.trip[k] > 0 || kc.quad[k] > 0) && !set_ok) {
            proof {
                crate::tile::lemma_index_tile(k as int);
                assert(kc.seq@[k as int] == ms.count(MeldKind::Sequence(fi(k as int))));
                assert(kc.trip@[k as int] == ms.count(MeldKind::Triplet(fi(k as int))));
                assert(kc.quad@[k as int] == ms.count(MeldKind::Quad(fi(k as int))));
                if kc.seq@[k as int] > 0 && !edge_run {
                    assert(!chanta_meld(MeldKind::Sequence(fi(k as int))));
                    assert(!junchan_meld(MeldKind::Sequence(fi(k as int))));
                } else if kc.trip@[k as int] > 0 {
                    assert(!terminals_only ==> !chanta_meld(MeldKind::Triplet(fi(k as int))));
                    assert(terminals_only ==> !junchan_meld(MeldKind::Triplet(fi(k as int))));
                } else {
                    assert(!terminals_only ==> !chanta_meld(MeldKind::Quad(fi(k as int))));
                    assert(terminals_only ==> !junchan_meld(MeldKind::Quad(fi(k as int))));
                }
            }
            return false;
        }
        k = k + 1;
    }
    proof {
        assert forall|m: MeldKind| ms.count(m) > 0 implies (if terminals_only {
            junchan_meld(m)
        } else {
            chanta_meld(m)
        }) by {
            lemma_meld_cases(m, *kc, ms);
            match m {
                MeldKind::Sequence(t) => crate::tile::lemma_tile_index(t),
                MeldKind::Triplet(t) => crate::tile::lemma_tile_index(t),
                MeldKind::Quad(t) => crate::tile::lemma_tile_index(t),
            }
        }
    }
    true
}

/// The same run in the three suits.
fn doujun_in(kc: &KindCounts, Ghost(ms): Ghost<Multiset<MeldKind>>) -> (b: bool)
    requires
        counts_of(*kc, ms),
    ensures
        b == pat_sanshoku_doujun(ms),
{
    let mut r: usize = 1;
    while r <= 9
        invariant
            1 <= r <= 10,
            counts_of(*kc, ms),
            forall|q: int| 1 <= q < r ==> !(#[trigger] kc.seq@[q] > 0 && kc.seq@[9 + q] > 0 && kc.seq@[18 + q] > 0),
        decreases 10 - r,
    {
        if kc.seq[r] > 0 && kc.seq[9 + r] > 0 && kc.seq[18 + r] > 0 {
            proof {
                assert(kc.seq@[r as int] == ms.count(MeldKind::Sequence(fi(r as int))));
                assert(kc.seq@[9 + r] == ms.count(MeldKind::Sequence(fi(9 + r))));
                assert(kc.seq@[18 + r] == ms.count(MeldKind::Sequence(fi(18 + r))));
                assert(suit_tile(0, r as int) == fi(r as int));
                assert(all_three_runs(ms, r as int));
            }
            return true;
        }
        r = r + 1;
    }
    proof {
        assert forall|q: int| 1 <= q <= 9 implies !all_three_runs(ms, q) by {
            assert(kc.seq@[q] == ms.count(MeldKind::Sequence(fi(q))));
            assert(kc.seq@[9 + q] == ms.count(MeldKind::Sequence(fi(9 + q))));
            assert(kc.seq@[18 + q] == ms.count(MeldKind::Sequence(fi(18 + q))));
            assert(suit_tile(0, q) == fi(q));
        }
    }
    false
}

/// The same triplet in the three suits.
fn doukou_in(kc: &KindCounts, Ghost(ms): Ghost<Multiset<MeldKind>>) -> (b: bool)
    requires
        counts_of(*kc, ms),
    ensures
        b == pat_sanshoku_doukou(ms),
{
    let mut r: usize = 1;
    while r <= 9
        invariant
            1 <= r <= 10,
            counts_of(*kc, ms),
            forall|q: int| 1 <= q < r ==> !all_three_sets(ms, q),
        decreases 10 - r,
    {
        proof {
            let q = r as int;
            assert(kc.trip@[q] == ms.count(MeldKind::Triplet(fi(q))));
            assert(kc.trip@[9 + q] == ms.count(MeldKind::Triplet(fi(9 + q))));
            assert(kc.trip@[18 + q] == ms.count(MeldKind::Triplet(fi(18 + q))));
            assert(kc.quad@[q] == ms.count(MeldKind::Quad(fi(q))));
            assert(kc.quad@[9 + q] == ms.count(MeldKind::Quad(fi(9 + q))));
            assert(kc.quad@[18 + q] == ms.count(MeldKind::Quad(fi(18 + q))));
            assert(suit_tile(0, q) == fi(q));
        }
        if (kc.trip[r] > 0 || kc.quad[r] > 0) && (kc.trip[9 + r] > 0 || kc.quad[9 + r] > 0) && (kc.trip[18
            + r] > 0 || kc.quad[18 + r] > 0) {
            assert(all_three_sets(ms, r as int));
            return true;
        }
        r = r + 1;
    }
    false
}

/// `x`, or 4 where it is larger.
pub open spec fn cap4(x: int) -> int {
    if x < 4 { x } else { 4 }
}

/// `x`, or 2 where it is larger.
pub open spec fn cap2(x: int) -> int {
    if x < 2 { x } else { 2 }
}

proof fn lemma_sets_below_nonneg(ms: Multiset<MeldKind>, n: int)
    ensures
        sets_below(ms, n) >= 0,
        run_pairs_below(ms, n) >= 0,
    decreases n,
{
    if n > 0 {
        lemma_sets_below_nonneg(ms, n - 1);
    }
}

/// Triplets and quads, counted up to four.
fn sets_count_capped(kc: &KindCounts, Ghost(ms): Ghost<Multiset<MeldKind>>) -> (n: usize)
    requires
        counts_of(*kc, ms),
    ensures
        n == cap4(sets_below(ms, 35)),
{
    let mut n: usize = 0;
    let mut k: usize = 0;
    while k < 35
        invariant
            k <= 35,
            counts_of(*kc, ms),
            n == cap4(sets_below(ms, k as int)),
        decreases 35 - k,
    {
        proof {
            assert(kc.trip@[k as int] == ms.count(MeldKind::Triplet(fi(k as int))));
            assert(kc.quad@[k as int] == ms.count(MeldKind::Quad(fi(k as int))));
            lemma_sets_below_nonneg(ms, k as int);
        }
        let a: usize = if kc.trip[k] < 4 { kc.trip[k] } else { 4 };
        let b: usize = if kc.quad[k] < 4 { kc.quad[k] } else { 4 };
        let s = n + a + b;
        n = if s < 4 { s } else { 4 };
        k = k + 1;
    }
    n
}

/// Pairs of identical runs, counted up to two.
fn run_pairs_capped(kc: &KindCounts, Ghost(ms): Ghost<Multiset<MeldKind>>) -> (n: usize)
    requires
        counts_of(*kc, ms),
    ensures
        n == cap2(run_pairs_below(ms, 35)),
{
    let mut n: usize = 0;
    let mut k: usize = 0;
    while k < 35
        invariant
            k <= 35,
            counts_of(*kc, ms),
            n == cap2(run_pairs_below(ms, k as int)),
        decreases 35 - k,
    {
        proof {
            assert(kc.seq@[k as int] == ms.count(MeldKind::Sequence(fi(k as int))));
            lemma_sets_below_nonneg(ms, k as int);
        }
        let half = kc.seq[k] / 2;
        let a: usize = if half < 2 { half } else { 2 };
        let s = n + a;
        n = if s < 2 { s } else { 2 };
        k = k + 1;
    }
    n
}

/// A run of the table completed open-ended by `w`.
fn ryanmen_in(kc: &KindCounts, Ghost(ms): Ghost<Multiset<MeldKind>>, w: TileName) -> (b: bool)
    requires
        counts_of(*kc, ms),
    ensures
        b == exists|t: TileName| ms.count(MeldKind::Sequence(t)) > 0 && ryanmen_run(t.id(), w),
{
    let wi = w.index();
    let mut k: usize = 1;
    while k <= 27
        invariant
            1 <= k <= 28,
            wi == w.id(),
            counts_of(*kc, ms),
            forall|j: int| 1 <= j < k ==> !(#[trigger] kc.seq@[j] > 0 && ryanmen_run(j, w)),
        decreases 28 - k,
    {
        let rank = (k - 1) % 9 + 1;
        let ryanmen = 1 <= wi && wi <= 27 && (k - 1) / 9 == (wi - 1) / 9 && ((wi == k && rank < 7) || (wi
            == k + 2 && rank > 1));
        if kc.seq[k] > 0 && ryanmen {
            proof {
                crate::tile::lemma_index_tile(k as int);
                assert(kc.seq@[k as int] == ms.count(MeldKind::Sequence(fi(k as int))));
                assert(ms.count(MeldKind::Sequence(fi(k as int))) > 0 && ryanmen_run(fi(k as int).id(), w));
            }
            return true;
        }
        k = k + 1;
    }
    proof {
        assert forall|t: TileName| !(ms.count(MeldKind::Sequence(t)) > 0 && ryanmen_run(t.id(), w)) by {
            lemma_counts_at(*kc, ms, t);
        }
    }
    false
}

/// A dragon, or the seat or round wind.
fn value_pair(tile: TileName, ctx: &WinContext) -> (b: bool)
    ensures
        b == is_value_pair(tile, *ctx),
{
    let k = tile.index();
    if 32 <= k && k <= 34 {
        return true;
    }
    let seat = match ctx.seat_wind {
        Some(w) => w == tile,
        None => false,
    };
    let round = match ctx.round_wind {
        Some(w) => w == tile,
        None => false,
    };
    seat || round
}

/// A ron on the tile of a concealed triplet or quad.
fn ron_on_set_in(kc: &KindCounts, Ghost(cm): Ghost<Multiset<MeldKind>>, ctx: &WinContext) -> (b: bool)
    requires
        counts_of(*kc, cm),
    ensures
        b == ron_on_set(cm, *ctx),
{
    if ctx.is_tsumo {
        return false;
    }
    match ctx.win_tile {
        Some(w) => {
            proof {
                lemma_counts_at(*kc, cm, w);
            }
            let k = w.index();
            kc.trip[k] > 0 || kc.quad[k] > 0
        },
        None => false,
    }
}

/// Exactly two dragon triplets or quads.
fn two_dragon_sets(kc: &KindCounts, Ghost(ms): Ghost<Multiset<MeldKind>>) -> (b: bool)
    requires
        counts_of(*kc, ms),
    ensures
        b == (dragon_sets(ms) == 2),
{
    proof {
        lemma_counts_at(*kc, ms, TileName::Red);
        lemma_counts_at(*kc, ms, TileName::Green);
        lemma_counts_at(*kc, ms, TileName::White);
    }
    let a32: usize = if kc.trip[32] < 3 { kc.trip[32] } else { 3 };
    let b32: usize = if kc.quad[32] < 3 { kc.quad[32] } else { 3 };
    let a33: usize = if kc.trip[33] < 3 { kc.trip[33] } else { 3 };
    let b33: usize = if kc.quad[33] < 3 { kc.quad[33] } else { 3 };
    let a34: usize = if kc.trip[34] < 3 { kc.trip[34] } else { 3 };
    let b34: usize = if kc.quad[34] < 3 { kc.quad[34] } else { 3 };
    let n = a32 + b32 + a33 + b33 + a34 + b34;
    n == 2
}

/// `x`, or 3 where it is larger.
pub open spec fn cap3(x: int) -> int {
    if x < 3 { x } else { 3 }
}

/// Any reading at all.
#[verifier::opaque]
pub open spec fn any_pred() -> ReadingPred {
    |p: TileName, cm: Multiset<MeldKind>, om: Multiset<MeldKind>| true
}

/// All triplets.
#[verifier::opaque]
pub open spec fn toitoi_pred() -> ReadingPred {
    |p: TileName, cm: Multiset<MeldKind>, om: Multiset<MeldKind>| pat_toitoi(cm.add(om))
}

/// Two identical runs.
#[verifier::opaque]
pub open spec fn ipeiko_pred() -> ReadingPred {
    |p: TileName, cm: Multiset<MeldKind>, om: Multiset<MeldKind>| pat_ipeiko(cm.add(om))
}

/// Two pairs of identical runs.
#[verifier::opaque]
pub open spec fn ryanpeiko_pred() -> ReadingPred {
    |p: TileName, cm: Multiset<MeldKind>, om: Multiset<MeldKind>| pat_ryanpeiko(cm.add(om))
}

/// Little three dragons.
#[verifier::opaque]
pub open spec fn shousangen_pred() -> ReadingPred {
    |p: TileName, cm: Multiset<MeldKind>, om: Multiset<MeldKind>| pat_shousangen(p, cm.add(om))
}

/// Terminal or honour everywhere.
#[verifier::opaque]
pub open spec fn chantaiyao_pred() -> ReadingPred {
    |p: TileName, cm: Multiset<MeldKind>, om: Multiset<MeldKind>| pat_chantaiyao(p, cm.add(om))
}

/// Mixed triple run.
#[verifier::opaque]
pub open spec fn doujun_pred() -> ReadingPred {
    |p: TileName, cm: Multiset<MeldKind>, om: Multiset<MeldKind>| pat_sanshoku_doujun(cm.add(om))
}

/// Triple triplets.
#[verifier::opaque]
pub open spec fn doukou_pred() -> ReadingPred {
    |p: TileName, cm: Multiset<MeldKind>, om: Multiset<MeldKind>| pat_sanshoku_doukou(cm.add(om))
}

/// Terminal everywhere.
#[verifier::opaque]
pub open spec fn junchan_pred() -> ReadingPred {
    |p: TileName, cm: Multiset<MeldKind>, om: Multiset<MeldKind>| pat_junchan(p, cm.add(om))
}

/// Three concealed triplets.
#[verifier::opaque]
pub open spec fn sanankou_pred(ctx: WinContext) -> ReadingPred {
    |p: TileName, cm: Multiset<MeldKind>, om: Multiset<MeldKind>| pat_sanankou(cm, ctx)
}

/// Four concealed triplets.
#[verifier::opaque]
pub open spec fn suuankou_pred(ctx: WinContext) -> ReadingPred {
    |p: TileName, cm: Multiset<MeldKind>, om: Multiset<MeldKind>| pat_suuankou(p, cm, ctx)
}

/// Pinfu on the reading.
#[verifier::opaque]
pub open spec fn pinfu_pred(ctx: WinContext) -> ReadingPred {
    |p: TileName, cm: Multiset<MeldKind>, om: Multiset<MeldKind>| pat_pinfu(p, cm.add(om), ctx)
}

/// What one reading, or some reading, gives.
struct ReadingFlags {
    toitoi: bool,
    ipeiko: bool,
    ryanpeiko: bool,
    chantaiyao: bool,
    doujun: bool,
    doukou: bool,
    junchan: bool,
    sanankou: bool,
    suuankou: bool,
    pinfu: bool,
}

/// The flags of one pattern.
spec fn flags_of_pattern(fl: ReadingFlags, pt: HandPattern, ctx: WinContext) -> bool {
    let p = pt.pair;
    let cm = pt.melds@.to_multiset();
    let om = pt.open_melds@.to_multiset();
    &&& fl.toitoi == toitoi_pred()(p, cm, om)
    &&& fl.ipeiko == ipeiko_pred()(p, cm, om)
    &&& fl.ryanpeiko == ryanpeiko_pred()(p, cm, om)
    &&& fl.chantaiyao == chantaiyao_pred()(p, cm, om)
    &&& fl.doujun == doujun_pred()(p, cm, om)
    &&& fl.doukou == doukou_pred()(p, cm, om)
    &&& fl.junchan == junchan_pred()(p, cm, om)
    &&& fl.sanankou == sanankou_pred(ctx)(p, cm, om)
    &&& fl.suuankou == suuankou_pred(ctx)(p, cm, om)
    &&& fl.pinfu == pinfu_pred(ctx)(p, cm, om)
}

/// The flags over the first `n` patterns.
spec fn flags_of_patterns(fl: ReadingFlags, ps: Seq<HandPattern>, n: int, ctx: WinContext) -> bool {
    &&& fl.toitoi == some_pattern_upto(ps, n, toitoi_pred())
    &&& fl.ipeiko == some_pattern_upto(ps, n, ipeiko_pred())
    &&& fl.ryanpeiko == some_pattern_upto(ps, n, ryanpeiko_pred())
    &&& fl.chantaiyao == some_pattern_upto(ps, n, chantaiyao_pred())
    &&& fl.doujun == some_pattern_upto(ps, n, doujun_pred())
    &&& fl.doukou == some_pattern_upto(ps, n, doukou_pred())
    &&& fl.junchan == some_pattern_upto(ps, n, junchan_pred())
    &&& fl.sanankou == some_pattern_upto(ps, n, sanankou_pred(ctx))
    &&& fl.suuankou == some_pattern_upto(ps, n, suuankou_pred(ctx))
    &&& fl.pinfu == some_pattern_upto(ps, n, pinfu_pred(ctx))
}

/// Evaluates every reading-level yaku on one pattern.
fn pattern_flags(pt: &HandPattern, ctx: &WinContext) -> (fl: ReadingFlags)
    ensures
        flags_of_pattern(fl, *pt, *ctx),
{
    let all = pt.all_melds();
    let kc = kind_counts(&all);
    let kcc = kind_counts(&pt.melds);
    let ghost am = all@.to_multiset();
    let ghost cm = pt.melds@.to_multiset();
    proof {
        broadcast use {vstd::seq_lib::group_to_multiset_ensures, vstd::seq_lib::lemma_multiset_commutative, vstd::multiset::group_multiset_axioms};
        assert(am == cm.add(pt.open_melds@.to_multiset()));
    }
    let no_runs_all = no_runs_in(&kc, Ghost(am));
    let only_runs_all = only_runs_in(&kc, Ghost(am));
    let toitoi = no_runs_all;
    let ipeiko = ipeiko_in(&kc, Ghost(am));
    let ryanpeiko = only_runs_all && run_pairs_capped(&kc, Ghost(am)) >= 2;
    let pair = pt.pair;
    let pk = pair.index();
    let chantaiyao = (terminal_idx(pk) || 28 <= pk) && edge_melds_in(&kc, Ghost(am), false);
    let junchan = terminal_idx(pk) && edge_melds_in(&kc, Ghost(am), true);
    let doujun = doujun_in(&kc, Ghost(am));
    let doukou = doukou_in(&kc, Ghost(am));
    let ron_set = ron_on_set_in(&kcc, Ghost(cm), ctx);
    let closed_sets = sets_count_capped(&kcc, Ghost(cm));
    let sanankou = if ron_set { closed_sets >= 4 } else { closed_sets >= 3 };
    let win_is_pair = match ctx.win_tile {
        Some(w) => w == pair,
        None => false,
    };
    let suuankou = no_runs_in(&kcc, Ghost(cm)) && !(ron_set && !win_is_pair);
    let pinfu = match ctx.win_tile {
        Some(w) => only_runs_all && !value_pair(pair, ctx) && w != pair && ryanmen_in(&kc, Ghost(am), w),
        None => false,
    };
    proof {
        lemma_sets_below_nonneg(cm, 35);
        lemma_sets_below_nonneg(am, 35);
        reveal(toitoi_pred);
        reveal(ipeiko_pred);
        reveal(ryanpeiko_pred);
        reveal(chantaiyao_pred);
        reveal(junchan_pred);
        reveal(doujun_pred);
        reveal(doukou_pred);
        reveal(sanankou_pred);
        reveal(suuankou_pred);
        reveal(pinfu_pred);
        let p = pt.pair;
        let om = pt.open_melds@.to_multiset();
        assert(toitoi == toitoi_pred()(p, cm, om));
        assert(ipeiko == ipeiko_pred()(p, cm, om));
        assert(ryanpeiko == ryanpeiko_pred()(p, cm, om));
        assert(chantaiyao == chantaiyao_pred()(p, cm, om));
        assert(junchan == junchan_pred()(p, cm, om));
        assert(doujun == doujun_pred()(p, cm, om));
        assert(doukou == doukou_pred()(p, cm, om));
        assert(sanankou == sanankou_pred(*ctx)(p, cm, om));
        assert(suuankou == suuankou_pred(*ctx)(p, cm, om));
        assert(pinfu == pinfu_pred(*ctx)(p, cm, om));
    }
    ReadingFlags { toitoi, ipeiko, ryanpeiko, chantaiyao, doujun, doukou, junchan, sanankou, suuankou, pinfu }
}

proof fn lemma_upto_step(ps: Seq<HandPattern>, i: int, pred: ReadingPred)
    requires
        0 <= i < ps.len(),
    ensures
        some_pattern_upto(ps, i + 1, pred) == (some_pattern_upto(ps, i, pred) || pred(
            ps[i].pair,
            ps[i].melds@.to_multiset(),
            ps[i].open_melds@.to_multiset(),
        )),
{
    if some_pattern_upto(ps, i + 1, pred) && !pred(ps[i].pair, ps[i].melds@.to_multiset(), ps[i].open_melds@.to_multiset()) {
        let j = choose|j: int|
            0 <= j < i + 1 && pred(
                (#[trigger] ps[j]).pair,
                ps[j].melds@.to_multiset(),
                ps[j].open_melds@.to_multiset(),
            );
        assert(j != i);
    }
}

/// Evaluates every reading-level yaku over all the patterns.
fn scan_patterns(ps: &Vec<HandPattern>, ctx: &WinContext) -> (fl: ReadingFlags)
    ensures
        flags_of_patterns(fl, ps@, ps@.len() as int, *ctx),
{
    let mut acc = ReadingFlags { toitoi: false, ipeiko: false, ryanpeiko: false, chantaiyao: false, doujun: false, doukou: false, junchan: false, sanankou: false, suuankou: false, pinfu: false };
    let mut i: usize = 0;
    while i < ps.len()
        invariant
            i <= ps.len(),
            flags_of_patterns(acc, ps@, i as int, *ctx),
        decreases ps.len() - i,
    {
        let fl = pattern_flags(&ps[i], ctx);
        proof {
            lemma_upto_step(ps@, i as int, toitoi_pred());
            lemma_upto_step(ps@, i as int, ipeiko_pred());
            lemma_upto_step(ps@, i as int, ryanpeiko_pred());
            lemma_upto_step(ps@, i as int, chantaiyao_pred());
            lemma_upto_step(ps@, i as int, doujun_pred());
            lemma_upto_step(ps@, i as int, doukou_pred());
            lemma_upto_step(ps@, i as int, junchan_pred());
            lemma_upto_step(ps@, i as int, sanankou_pred(*ctx));
            lemma_upto_step(ps@, i as int, suuankou_pred(*ctx));
            lemma_upto_step(ps@, i as int, pinfu_pred(*ctx));
        }
        acc.toitoi = acc.toitoi || fl.toitoi;
        acc.ipeiko = acc.ipeiko || fl.ipeiko;
        acc.ryanpeiko = acc.ryanpeiko || fl.ryanpeiko;
        acc.chantaiyao = acc.chantaiyao || fl.chantaiyao;
        acc.doujun = acc.doujun || fl.doujun;
        acc.doukou = acc.doukou || fl.doukou;
        acc.junchan = acc.junchan || fl.junchan;
        acc.sanankou = acc.sanankou || fl.sanankou;
        acc.suuankou = acc.suuankou || fl.suuankou;
        acc.pinfu = acc.pinfu || fl.pinfu;
        i = i + 1;
    }
    acc
}

/// Little three dragons on the first pattern.
fn first_shousangen(ps: &Vec<HandPattern>) -> (b: bool)
    ensures
        b == (ps@.len() > 0 && shousangen_pred()(ps@[0].pair, ps@[0].melds@.to_multiset(), ps@[0].open_melds@.to_multiset())),
{
    if ps.len() == 0 {
        return false;
    }
    let pt = &ps[0];
    let all = pt.all_melds();
    let kc = kind_counts(&all);
    let ghost am = all@.to_multiset();
    proof {
        broadcast use {vstd::seq_lib::group_to_multiset_ensures, vstd::seq_lib::lemma_multiset_commutative, vstd::multiset::group_multiset_axioms};
        assert(am == pt.melds@.to_multiset().add(pt.open_melds@.to_multiset()));
    }
    let k = pt.pair.index();
    proof {
        reveal(shousangen_pred);
    }
    two_dragon_sets(&kc, Ghost(am)) && 32 <= k && k <= 34
}

/// In concealed melds of a hand, a dragon appears only as triplets: the
/// tiles of the dragon that the melds take are three per triplet.
proof fn lemma_dragon_melds(f: Seq<MeldKind>, d: int)
    requires
        32 <= d <= 34,
        forall|i: int| 0 <= i < f.len() ==> crate::pattern::is_hand_meld(#[trigger] f[i]),
    ensures
        crate::pattern::melds_use(f, d) == 3 * f.to_multiset().count(MeldKind::Triplet(fi(d))),
        f.to_multiset().count(MeldKind::Quad(fi(d))) == 0,
    decreases f.len(),
{
    broadcast use {vstd::seq_lib::group_to_multiset_ensures, vstd::seq_lib::lemma_multiset_commutative, vstd::multiset::group_multiset_axioms};
    crate::tile::lemma_index_tile(d);
    if f.len() == 0 {
        assert(f.to_multiset() =~= Multiset::<MeldKind>::empty());
    } else {
        let g = f.drop_last();
        assert forall|i: int| 0 <= i < g.len() implies crate::pattern::is_hand_meld(#[trigger] g[i]) by {
            assert(g[i] == f[i]);
        }
        lemma_dragon_melds(g, d);
        assert(f =~= g.push(f.last()));
        assert(crate::pattern::is_hand_meld(f[f.len() - 1]));
        match f.last() {
            MeldKind::Triplet(t) => {
                crate::tile::lemma_tile_index(t);
            },
            MeldKind::Sequence(t) => {},
            MeldKind::Quad(t) => {},
        }
    }
}

/// In every reading the dragons take the same shape: the pair is the dragon
/// `d` exactly when its count leaves 2 over 3, and its triplets are the rest.
proof fn lemma_dragon_shape(c: Seq<u8>, p: int, f: Seq<MeldKind>, d: int)
    requires
        c.len() == 35,
        is_reading(c, p, f),
        32 <= d <= 34,
    ensures
        (p == d) == (c[d] % 3 == 2),
        sets_of(f.to_multiset(), fi(d)) == (c[d] - (if c[d] % 3 == 2 { 2int } else { 0int })) / 3,
{
    lemma_dragon_melds(f, d);
    assert(crate::pattern::melds_use(f, d) == crate::pattern::without_pair(c, p)[d] as int);
}

proof fn lemma_dragon_sets_add(a: Multiset<MeldKind>, b: Multiset<MeldKind>, c: Multiset<MeldKind>)
    ensures
        dragon_sets(a.add(b).add(c)) == dragon_sets(a) + dragon_sets(b) + dragon_sets(c),
{
    broadcast use {vstd::seq_lib::group_to_multiset_ensures, vstd::seq_lib::lemma_multiset_commutative, vstd::multiset::group_multiset_axioms};
}

/// The pair and dragon melds of a reading.
proof fn lemma_shousangen_reading(c: Seq<u8>, closed: Seq<MeldKind>, open: Seq<MeldKind>, p: int, f: Seq<MeldKind>)
    requires
        c.len() == 35,
        is_reading(c, p, f),
    ensures
        shousangen_pred()(fi(p), (closed + f).to_multiset(), open.to_multiset()) == (dragon_sets(
            closed.to_multiset(),
        ) + dragon_sets(open.to_multiset()) + (c[32] - (if c[32] % 3 == 2 { 2int } else { 0int })) / 3 + (c[33]
            - (if c[33] % 3 == 2 { 2int } else { 0int })) / 3 + (c[34] - (if c[34] % 3 == 2 { 2int } else {
            0int
        })) / 3 == 2 && (c[32] % 3 == 2 || c[33] % 3 == 2 || c[34] % 3 == 2)),
{
    broadcast use {vstd::seq_lib::group_to_multiset_ensures, vstd::seq_lib::lemma_multiset_commutative, vstd::multiset::group_multiset_axioms};
    reveal(shousangen_pred);
    lemma_dragon_shape(c, p, f, 32);
    lemma_dragon_shape(c, p, f, 33);
    lemma_dragon_shape(c, p, f, 34);
    crate::tile::lemma_index_tile(p);
    assert((closed + f).to_multiset() == closed.to_multiset().add(f.to_multiset()));
    lemma_dragon_sets_add(closed.to_multiset(), f.to_multiset(), open.to_multiset());
}

/// Little three dragons does not depend on the reading.
proof fn lemma_shousangen_any(ps: Seq<HandPattern>, c: Seq<u8>, closed: Seq<MeldKind>, open: Seq<MeldKind>)
    requires
        c.len() == 35,
        all_readings(ps, c, closed, open, 35),
        ps.len() > 0,
    ensures
        shousangen_pred()(ps[0].pair, ps[0].melds@.to_multiset(), ps[0].open_melds@.to_multiset()) == some_reading(
            c,
            closed,
            open,
            shousangen_pred(),
        ),
{
    reveal(all_readings);
    lemma_some_pattern(ps, c, closed, open, shousangen_pred());
    assert(crate::pattern::reads(ps[0], c, closed, open));
    let f1 = choose|f: Seq<MeldKind>| #[trigger] is_reading(c, ps[0].pair.id(), f) && ps[0].melds@ == closed + f;
    let p1 = ps[0].pair.id();
    crate::tile::lemma_tile_index(ps[0].pair);
    lemma_shousangen_reading(c, closed, open, p1, f1);
    if some_reading(c, closed, open, shousangen_pred()) {
        let (p2, f2) = choose|p: int, f: Seq<MeldKind>|
            #[trigger] is_reading(c, p, f) && shousangen_pred()(fi(p), (closed + f).to_multiset(), open.to_multiset());
        lemma_shousangen_reading(c, closed, open, p2, f2);
    }
}

// ---------------------------------------------------------------------
// Judging a winning hand.
// ---------------------------------------------------------------------

/// Tiles of index `k` that a meld holds: three for a chii (one each),
/// three for a pon, four for a kan.
pub open spec fn meld_tiles(m: Meld, k: int) -> int {
    match m {
        Meld::Chii { called, consumed } => (if called.id() == k { 1int } else { 0int }) + (if consumed[0].id()
            == k { 1int } else { 0int }) + (if consumed[1].id() == k { 1int } else { 0int }),
        Meld::Pon(t) => if t.id() == k { 3 } else { 0 },
        Meld::Daiminkan(t) => if t.id() == k { 4 } else { 0 },
        Meld::Ankan(t) => if t.id() == k { 4 } else { 0 },
        Meld::Kakan(t) => if t.id() == k { 4 } else { 0 },
    }
}

/// Tiles of index `k` that the melds hold together.
pub open spec fn melds_tiles(ms: Seq<Meld>, k: int) -> int
    decreases ms.len(),
{
    if ms.len() == 0 {
        0
    } else {
        melds_tiles(ms.drop_last(), k) + meld_tiles(ms.last(), k)
    }
}

/// The counts of the concealed tiles and of the melds fit in a byte.
pub open spec fn counts_fit(c: Seq<u8>, ms: Seq<Meld>) -> bool {
    forall|k: int| 0 <= k < 35 ==> c[k] + #[trigger] melds_tiles(ms, k) <= 255
}

/// The counts of the whole hand: the concealed tiles and the melds.
pub open spec fn full_counts(c: Seq<u8>, ms: Seq<Meld>) -> Seq<u8> {
    Seq::new(35, |k: int| (c[k] + melds_tiles(ms, k)) as u8)
}

/// The number of kans among the melds.
pub open spec fn kan_melds(ms: Seq<Meld>) -> int
    decreases ms.len(),
{
    if ms.len() == 0 {
        0
    } else {
        kan_melds(ms.drop_last()) + (if ms.last() is Chii || ms.last() is Pon { 0int } else { 1int })
    }
}

/// The number of tiles counted at indices below `n`.
pub open spec fn total_tiles(c: Seq<u8>, n: int) -> int
    decreases n,
{
    if n <= 0 {
        0
    } else {
        total_tiles(c, n - 1) + c[n - 1]
    }
}

/// The situation as the melds correct it: a hand with an open meld is not
/// closed, and the kans counted are at least those among the melds.
pub open spec fn judge_context(ms: Seq<Meld>, ctx: WinContext) -> WinContext {
    WinContext {
        is_closed: ctx.is_closed && !spec_has_open_meld(ms),
        kan_count: if kan_melds(ms) > ctx.kan_count { kan_melds(ms) as usize } else { ctx.kan_count },
        ..ctx
    }
}

/// Some reading of the concealed tiles `c` with the melds `ms` has the property.
#[verifier::opaque]
pub open spec fn rd(c: Seq<u8>, ms: Seq<Meld>, pred: ReadingPred) -> bool {
    some_reading(c, closed_kinds(ms), open_kinds(ms), pred)
}

/// Whether the hand has the yaku of code `k`, among the yaku other than
/// the situational ones and the yakuman of the counts, for concealed counts
/// `c`, melds `ms`, corrected situation `cx` and counts of the whole hand `u`.
pub open spec fn hand_flag(k: int, c: Seq<u8>, ms: Seq<Meld>, cx: WinContext, u: Seq<u8>) -> bool {
    let any = rd(c, ms, any_pred());
    let ryan = cx.is_closed && rd(c, ms, ryanpeiko_pred());
    if k == 15 {
        // Ryanpeiko
        ryan
    } else if k == 4 {
        // Ipeiko
        cx.is_closed && !ryan && rd(c, ms, ipeiko_pred())
    } else if k == 10 {
        // Chitoitsu
        spec_chitoitsu(u) && cx.is_closed && !ryan
    } else if k == 2 {
        // Tanyao
        spec_tanyao(u)
    } else if k == 3 {
        // Pinfu
        cx.is_closed && cx.win_tile is Some && spec_number_info(cx.win_tile->0) is Some && rd(c, ms, pinfu_pred(cx))
    } else if k == 5 {
        // YakuhaiHaku
        any && u[34] >= 3
    } else if k == 6 {
        // YakuhaiHatsu
        any && u[33] >= 3
    } else if k == 7 {
        // YakuhaiChun
        any && u[32] >= 3
    } else if k == 8 {
        // YakuhaiJikaze
        any && wind_scores(u, cx.seat_wind)
    } else if k == 9 {
        // YakuhaiBakaze
        any && wind_scores(u, cx.round_wind)
    } else if k == 11 {
        // Toitoi
        any && rd(c, ms, toitoi_pred())
    } else if k == 12 {
        // Sanankou
        any && rd(c, ms, sanankou_pred(cx))
    } else if k == 13 {
        // Shousangen
        any && rd(c, ms, shousangen_pred())
    } else if k == 14 {
        // Chantaiyao
        any && rd(c, ms, chantaiyao_pred())
    } else if k == 16 {
        // SanshokuDoujun
        any && rd(c, ms, doujun_pred())
    } else if k == 17 {
        // SanshokuDoukou
        any && rd(c, ms, doukou_pred())
    } else if k == 19 {
        // Junchan
        any && rd(c, ms, junchan_pred())
    } else if k == 23 {
        // Sankantsu
        any && cx.kan_count >= 3
    } else if k == 29 {
        // Suukantsu
        any && cx.kan_count >= 4
    } else if k == 25 {
        // Suuankou
        any && cx.is_closed && rd(c, ms, suuankou_pred(cx))
    } else if k == 18 {
        // Honitsu
        spec_honitsu(u)
    } else if k == 20 {
        // Chinitsu
        spec_chinitsu(u)
    } else if k == 22 {
        // Honroutou
        spec_honroutou(u)
    } else {
        false
    }
}

/// The yaku other than the situational ones and the yakuman of the counts.
pub open spec fn hand_yaku(c: Seq<u8>, ms: Seq<Meld>, cx: WinContext, u: Seq<u8>) -> Set<YakuId> {
    Set::new(|id: YakuId| hand_flag(id.spec_code(), c, ms, cx, u))
}

/// The yaku of a winning hand: none for a hand without concealed tiles;
/// otherwise the situational yaku with the yakuman of the counts where
/// there is one, else with the yaku of the hand; and the yakuman alone
/// wherever a yakuman is among them.
pub open spec fn judged_yaku(c: Seq<u8>, ms: Seq<Meld>, ctx: WinContext) -> Set<YakuId> {
    let n = total_tiles(c, 35);
    let cx = judge_context(ms, ctx);
    let u = full_counts(c, ms);
    let ym = count_yakuman(u, n);
    if n == 0 {
        Set::empty()
    } else if ym != Set::<YakuId>::empty() {
        keep_yakuman(situational(cx).union(ym))
    } else {
        keep_yakuman(situational(cx).union(hand_yaku(c, ms, cx, u)))
    }
}

/// The judged yaku are the situational ones and those of the hand (or the
/// yakuman of the counts), less the non-yakuman when a yakuman is among them.
proof fn lemma_judged_parts(c: Seq<u8>, ms: Seq<Meld>, ctx: WinContext, id: YakuId)
    requires
        judged_yaku(c, ms, ctx).contains(id),
    ensures
        situational(judge_context(ms, ctx)).contains(id)
            || hand_yaku(c, ms, judge_context(ms, ctx), full_counts(c, ms)).contains(id)
            || count_yakuman(full_counts(c, ms), total_tiles(c, 35)).contains(id),
        !id.spec_is_yakuman() ==> !count_yakuman(full_counts(c, ms), total_tiles(c, 35)).contains(id),
{
    reveal(count_yakuman);
}

/// Which situations a situational yaku needs: a closed hand with no open
/// meld for menzen tsumo, riichi, double riichi and ippatsu (and likewise
/// for pinfu, iipeikou, ryanpeikou, chiitoitsu and suuankou); a self-draw
/// for menzen tsumo, rinshan and haitei; a ron for chankan and houtei; a
/// declared riichi for riichi and ippatsu.
pub proof fn law_yaku_need_their_situation(c: Seq<u8>, ms: Seq<Meld>, ctx: WinContext, id: YakuId)
    requires
        judged_yaku(c, ms, ctx).contains(id),
    ensures
        (id == YakuId::MenzenTsumo || id == YakuId::Riichi || id == YakuId::DoubleRiichi || id == YakuId::Ippatsu
            || id == YakuId::Pinfu || id == YakuId::Ipeiko || id == YakuId::Ryanpeiko || id == YakuId::Chitoitsu
            || id == YakuId::Suuankou) ==> ctx.is_closed && !spec_has_open_meld(ms),
        (id == YakuId::MenzenTsumo || id == YakuId::RinshanKaihou || id == YakuId::HaiteiRaoyue) ==> ctx.is_tsumo,
        (id == YakuId::Chankan || id == YakuId::HouteiRaoyui) ==> !ctx.is_tsumo,
        id == YakuId::Riichi ==> ctx.riichi,
        id == YakuId::Ippatsu ==> ctx.riichi || ctx.is_double_riichi,
{
    lemma_judged_parts(c, ms, ctx, id);
    reveal(situational);
    reveal(count_yakuman);
}

/// A closed hand won by self-draw, with no open meld, is judged menzen
/// tsumo unless the judged yaku are yakuman.
pub proof fn law_menzen_tsumo_awarded(c: Seq<u8>, ms: Seq<Meld>, ctx: WinContext)
    requires
        total_tiles(c, 35) > 0,
        ctx.is_closed,
        ctx.is_tsumo,
        !spec_has_open_meld(ms),
        forall|id: YakuId| #[trigger] judged_yaku(c, ms, ctx).contains(id) ==> !id.spec_is_yakuman(),
    ensures
        judged_yaku(c, ms, ctx).contains(YakuId::MenzenTsumo),
{
    reveal(situational);
    let cx = judge_context(ms, ctx);
    let u = full_counts(c, ms);
    let ym = count_yakuman(u, total_tiles(c, 35));
    let s = if ym != Set::<YakuId>::empty() {
        situational(cx).union(ym)
    } else {
        situational(cx).union(hand_yaku(c, ms, cx, u))
    };
    assert(situational(cx).contains(YakuId::MenzenTsumo));
    assert(s.contains(YakuId::MenzenTsumo));
    if exists|id: YakuId| s.contains(id) && id.spec_is_yakuman() {
        let y = choose|id: YakuId| s.contains(id) && id.spec_is_yakuman();
        assert(judged_yaku(c, ms, ctx) == s.intersect(crate::yaku_set::yakuman_set()));
        assert(judged_yaku(c, ms, ctx).contains(y));
    }
}

/// The melds never hold fewer than no tiles of an index.
pub proof fn lemma_melds_tiles_nonneg(ms: Seq<Meld>, k: int)
    ensures
        melds_tiles(ms, k) >= 0,
    decreases ms.len(),
{
    if ms.len() > 0 {
        lemma_melds_tiles_nonneg(ms.drop_last(), k);
    }
}

/// The tiles of a prefix of the melds are at most those of all of them.
proof fn lemma_melds_tiles_prefix(ms: Seq<Meld>, i: int, k: int)
    requires
        0 <= i <= ms.len(),
    ensures
        melds_tiles(ms.subrange(0, i), k) <= melds_tiles(ms, k),
    decreases ms.len() - i,
{
    if i == ms.len() {
        assert(ms.subrange(0, i) =~= ms);
    } else {
        lemma_melds_tiles_prefix(ms, i + 1, k);
        assert(ms.subrange(0, i + 1).drop_last() =~= ms.subrange(0, i));
        assert(meld_tiles(ms[i], k) >= 0);
    }
}

/// Whether the counts of the concealed tiles and of the melds fit in a byte.
pub fn fits_counts(closed_counts: &[u8; 35], melds: &[Meld]) -> (b: bool)
    ensures
        b == counts_fit(closed_counts@, melds@),
{
    let mut totals: [usize; 35] = [0usize; 35];
    let mut i: usize = 0;
    while i < 35
        invariant
            i <= 35,
            forall|k: int| 0 <= k < i ==> #[trigger] totals@[k] == closed_counts@[k],
            forall|k: int| i <= k < 35 ==> #[trigger] totals@[k] == 0,
        decreases 35 - i,
    {
        totals[i] = closed_counts[i] as usize;
        i = i + 1;
    }
    let mut j: usize = 0;
    while j < melds.len()
        invariant
            j <= melds.len(),
            forall|k: int| 0 <= k < 35 ==> #[trigger] totals@[k] == closed_counts@[k] + melds_tiles(melds@.subrange(0, j as int), k),
            forall|k: int| 0 <= k < 35 ==> #[trigger] totals@[k] <= 255,
        decreases melds.len() - j,
    {
        proof {
            assert(melds@.subrange(0, j + 1).drop_last() =~= melds@.subrange(0, j as int));
            assert(melds@.subrange(0, j + 1).last() == melds@[j as int]);
        }
        match melds[j] {
            Meld::Chii { called, consumed } => {
                let a = called.index();
                totals[a] = totals[a] + 1;
                let b = consumed[0].index();
                totals[b] = totals[b] + 1;
                let c = consumed[1].index();
                totals[c] = totals[c] + 1;
            },
            Meld::Pon(t) => {
                let a = t.index();
                totals[a] = totals[a] + 3;
            },
            Meld::Daiminkan(t) | Meld::Ankan(t) | Meld::Kakan(t) => {
                let a = t.index();
                totals[a] = totals[a] + 4;
            },
        }
        let mut k: usize = 0;
        while k < 35
            invariant
                k <= 35,
                j < melds.len(),
                forall|q: int| 0 <= q < 35 ==> #[trigger] totals@[q] == closed_counts@[q] + melds_tiles(melds@.subrange(0, j + 1), q),
                forall|q: int| 0 <= q < k ==> #[trigger] totals@[q] <= 255,
            decreases 35 - k,
        {
            if totals[k] > 255 {
                proof {
                    lemma_melds_tiles_prefix(melds@, j + 1, k as int);
                    assert(closed_counts@[k as int] + melds_tiles(melds@, k as int) > 255);
                }
                return false;
            }
            k = k + 1;
        }
        j = j + 1;
    }
    proof {
        assert(melds@.subrange(0, melds.len() as int) =~= melds@);
        assert forall|k: int| 0 <= k < 35 implies closed_counts@[k] + #[trigger] melds_tiles(melds@, k) <= 255 by {
            assert(totals@[k] <= 255);
        }
    }
    true
}

/// The counts of the whole hand: the concealed counts with the tiles of the melds added.
fn hand_counts(closed_counts: &[u8; 35], melds: &[Meld]) -> (u: [u8; 35])
    requires
        counts_fit(closed_counts@, melds@),
    ensures
        u@ == full_counts(closed_counts@, melds@),
{
    let mut counts = *closed_counts;
    let mut j: usize = 0;
    proof {
        assert(melds@.subrange(0, 0) =~= Seq::<Meld>::empty());
    }
    while j < melds.len()
        invariant
            j <= melds.len(),
            counts_fit(closed_counts@, melds@),
            forall|k: int| 0 <= k < 35 ==> #[trigger] counts@[k] == closed_counts@[k] + melds_tiles(melds@.subrange(0, j as int), k),
        decreases melds.len() - j,
    {
        proof {
            assert(melds@.subrange(0, j + 1).drop_last() =~= melds@.subrange(0, j as int));
            assert(melds@.subrange(0, j + 1).last() == melds@[j as int]);
            assert forall|k: int| 0 <= k < 35 implies closed_counts@[k] + #[trigger] melds_tiles(melds@.subrange(0, j + 1), k) <= 255 by {
                lemma_melds_tiles_prefix(melds@, j + 1, k);
                assert(closed_counts@[k] + melds_tiles(melds@, k) <= 255);
            }
            assert forall|k: int| 0 <= k < 35 implies 0 <= #[trigger] meld_tiles(melds@[j as int], k) by {
            }
        }
        match melds[j] {
            Meld::Chii { called, consumed } => {
                let a = called.index();
                assert(counts@[a as int] + 1 <= 255) by {
                    assert(closed_counts@[a as int] + melds_tiles(melds@.subrange(0, j + 1), a as int) <= 255);
                }
                counts[a] = counts[a] + 1;
                let b = consumed[0].index();
                assert(counts@[b as int] + 1 <= 255) by {
                    assert(closed_counts@[b as int] + melds_tiles(melds@.subrange(0, j + 1), b as int) <= 255);
                }
                counts[b] = counts[b] + 1;
                let c = consumed[1].index();
                assert(counts@[c as int] + 1 <= 255) by {
                    assert(closed_counts@[c as int] + melds_tiles(melds@.subrange(0, j + 1), c as int) <= 255);
                }
                counts[c] = counts[c] + 1;
            },
            Meld::Pon(t) => {
                let a = t.index();
                assert(closed_counts@[a as int] + melds_tiles(melds@.subrange(0, j + 1), a as int) <= 255);
                counts[a] = counts[a] + 3;
            },
            Meld::Daiminkan(t) | Meld::Ankan(t) | Meld::Kakan(t) => {
                let a = t.index();
                assert(closed_counts@[a as int] + melds_tiles(melds@.subrange(0, j + 1), a as int) <= 255);
                counts[a] = counts[a] + 4;
            },
        }
        j = j + 1;
    }
    proof {
        assert(melds@.subrange(0, melds.len() as int) =~= melds@);
        assert(counts@ =~= full_counts(closed_counts@, melds@));
    }
    counts
}

/// The number of kans among the melds.
fn count_kans(melds: &[Meld]) -> (n: usize)
    ensures
        n == kan_melds(melds@),
        n <= melds.len(),
{
    let mut n: usize = 0;
    let mut j: usize = 0;
    while j < melds.len()
        invariant
            j <= melds.len(),
            n == kan_melds(melds@.subrange(0, j as int)),
            n <= j,
        decreases melds.len() - j,
    {
        proof {
            assert(melds@.subrange(0, j + 1).drop_last() =~= melds@.subrange(0, j as int));
        }
        match melds[j] {
            Meld::Chii { .. } | Meld::Pon(_) => {},
            _ => {
                n = n + 1;
            },
        }
        j = j + 1;
    }
    proof {
        assert(melds@.subrange(0, melds.len() as int) =~= melds@);
    }
    n
}

/// The number of concealed tiles.
fn count_tiles(counts: &[u8; 35]) -> (n: usize)
    ensures
        n == total_tiles(counts@, 35),
{
    let mut n: usize = 0;
    let mut k: usize = 0;
    while k < 35
        invariant
            k <= 35,
            n == total_tiles(counts@, k as int),
            n <= 255 * k,
        decreases 35 - k,
    {
        n = n + counts[k] as usize;
        k = k + 1;
    }
    n
}

/// The yaku that the situation alone decides.
fn check_situational_yaku(ctx: &WinContext) -> (y: YakuSet)
    ensures
        y@ == situational(*ctx),
{
    let mut yaku = YakuSet::empty();
    if ctx.is_double_riichi && ctx.is_closed {
        yaku.insert(YakuId::DoubleRiichi);
    } else if ctx.riichi && ctx.is_closed {
        yaku.insert(YakuId::Riichi);
    }
    if ctx.is_ippatsu && ctx.is_closed && (ctx.riichi || ctx.is_double_riichi) {
        yaku.insert(YakuId::Ippatsu);
    }
    if ctx.is_rinshan && ctx.is_tsumo {
        yaku.insert(YakuId::RinshanKaihou);
    }
    if ctx.is_chankan && !ctx.is_tsumo {
        yaku.insert(YakuId::Chankan);
    }
    if ctx.is_haitei && ctx.is_tsumo {
        yaku.insert(YakuId::HaiteiRaoyue);
    }
    if ctx.is_houtei && !ctx.is_tsumo {
        yaku.insert(YakuId::HouteiRaoyui);
    }
    if ctx.is_closed && ctx.is_tsumo {
        yaku.insert(YakuId::MenzenTsumo);
    }
    if ctx.tenhou {
        yaku.insert(YakuId::Tenhou);
    }
    if ctx.chiihou {
        yaku.insert(YakuId::Chiihou);
    }
    proof {
        reveal(situational);
        assert(yaku@ =~= situational(*ctx));
    }
    yaku
}

/// The yakuman that the counts of the whole hand decide.
fn check_yakuman_yaku(counts: &[u8; 35], tiles_len: usize) -> (y: YakuSet)
    ensures
        y@ == count_yakuman(counts@, tiles_len as int),
{
    let mut yaku = YakuSet::empty();
    if is_kokushi(counts) {
        yaku.insert(YakuId::KokushiMusou);
    }
    if is_chinroutou(counts) {
        yaku.insert(YakuId::Chinroutou);
    }
    if is_daisangen(counts) {
        yaku.insert(YakuId::Daisangen);
    }
    if let Some((small, big)) = detect_suushi(counts) {
        if big {
            yaku.insert(YakuId::Daisuushi);
        }
        if small {
            yaku.insert(YakuId::Shousuushi);
        }
    }
    if is_tsuuiisou(counts) {
        yaku.insert(YakuId::Tsuuiisou);
    }
    if is_ryuuiisou(counts) {
        yaku.insert(YakuId::Ryuuiisou);
    }
    if is_chuuren_poutou(counts, tiles_len) {
        yaku.insert(YakuId::ChuurenPoutou);
    }
    proof {
        reveal(count_yakuman);
        assert(yaku@ =~= count_yakuman(counts@, tiles_len as int));
    }
    yaku
}

/// The flags of some reading, for the concealed counts `c` and the melds `ms`.
spec fn flags_of_readings(fl: ReadingFlags, c: Seq<u8>, ms: Seq<Meld>, ctx: WinContext) -> bool {
    &&& fl.toitoi == rd(c, ms, toitoi_pred())
    &&& fl.ipeiko == rd(c, ms, ipeiko_pred())
    &&& fl.ryanpeiko == rd(c, ms, ryanpeiko_pred())
    &&& fl.chantaiyao == rd(c, ms, chantaiyao_pred())
    &&& fl.doujun == rd(c, ms, doujun_pred())
    &&& fl.doukou == rd(c, ms, doukou_pred())
    &&& fl.junchan == rd(c, ms, junchan_pred())
    &&& fl.sanankou == rd(c, ms, sanankou_pred(ctx))
    &&& fl.suuankou == rd(c, ms, suuankou_pred(ctx))
    &&& fl.pinfu == rd(c, ms, pinfu_pred(ctx))
}

/// Evaluates the reading-level yaku over every reading: whether there is a
/// reading at all, the flags of some reading, and little three dragons.
fn reading_yaku(patterns: &Vec<HandPattern>, ctx: &WinContext, Ghost(c): Ghost<Seq<u8>>, Ghost(ms): Ghost<Seq<Meld>>) -> (r: (
    bool,
    ReadingFlags,
    bool,
))
    requires
        c.len() == 35,
        all_readings(patterns@, c, closed_kinds(ms), open_kinds(ms), 35),
    ensures
        r.0 == rd(c, ms, any_pred()),
        flags_of_readings(r.1, c, ms, *ctx),
        r.2 == (r.0 && rd(c, ms, shousangen_pred())),
{
    proof {
        reveal(rd);
    }
    let ghost cl = closed_kinds(ms);
    let ghost op = open_kinds(ms);
    let fl = scan_patterns(patterns, ctx);
    let shousangen = first_shousangen(patterns);
    let any = patterns.len() > 0;
    proof {
        lemma_some_pattern(patterns@, c, cl, op, toitoi_pred());
        lemma_some_pattern(patterns@, c, cl, op, ipeiko_pred());
        lemma_some_pattern(patterns@, c, cl, op, ryanpeiko_pred());
        lemma_some_pattern(patterns@, c, cl, op, chantaiyao_pred());
        lemma_some_pattern(patterns@, c, cl, op, doujun_pred());
        lemma_some_pattern(patterns@, c, cl, op, doukou_pred());
        lemma_some_pattern(patterns@, c, cl, op, junchan_pred());
        lemma_some_pattern(patterns@, c, cl, op, sanankou_pred(*ctx));
        lemma_some_pattern(patterns@, c, cl, op, suuankou_pred(*ctx));
        lemma_some_pattern(patterns@, c, cl, op, pinfu_pred(*ctx));
        lemma_some_pattern(patterns@, c, cl, op, any_pred());
        lemma_some_pattern(patterns@, c, cl, op, shousangen_pred());
        if any {
            lemma_shousangen_any(patterns@, c, cl, op);
        }
        reveal(any_pred);
        if any {
            assert(any_pred()(patterns@[0].pair, patterns@[0].melds@.to_multiset(), patterns@[0].open_melds@.to_multiset()));
        }
    }
    (any, fl, shousangen)
}

/// The yaku of the hand other than the situational ones and the yakuman
/// of the counts, each already decided.
struct HandFacts {
    ryanpeiko: bool,
    ipeiko: bool,
    chitoitsu: bool,
    tanyao: bool,
    pinfu: bool,
    haku: bool,
    hatsu: bool,
    chun: bool,
    jikaze: bool,
    bakaze: bool,
    toitoi: bool,
    sanankou: bool,
    shousangen: bool,
    chantaiyao: bool,
    doujun: bool,
    doukou: bool,
    junchan: bool,
    sankantsu: bool,
    suukantsu: bool,
    suuankou: bool,
    honitsu: bool,
    chinitsu: bool,
    honroutou: bool,
}

/// The facts are those of the hand.
spec fn facts_ok(fa: HandFacts, c: Seq<u8>, ms: Seq<Meld>, cx: WinContext, u: Seq<u8>) -> bool {
    let any = rd(c, ms, any_pred());
    let ryan = cx.is_closed && rd(c, ms, ryanpeiko_pred());
    &&& fa.ryanpeiko == (ryan)
    &&& fa.ipeiko == (cx.is_closed && !ryan && rd(c, ms, ipeiko_pred()))
    &&& fa.chitoitsu == (spec_chitoitsu(u) && cx.is_closed && !ryan)
    &&& fa.tanyao == (spec_tanyao(u))
    &&& fa.pinfu == (cx.is_closed && cx.win_tile is Some && spec_number_info(cx.win_tile->0) is Some && rd(c, ms, pinfu_pred(cx)))
    &&& fa.haku == (any && u[34] >= 3)
    &&& fa.hatsu == (any && u[33] >= 3)
    &&& fa.chun == (any && u[32] >= 3)
    &&& fa.jikaze == (any && wind_scores(u, cx.seat_wind))
    &&& fa.bakaze == (any && wind_scores(u, cx.round_wind))
    &&& fa.toitoi == (any && rd(c, ms, toitoi_pred()))
    &&& fa.sanankou == (any && rd(c, ms, sanankou_pred(cx)))
    &&& fa.shousangen == (any && rd(c, ms, shousangen_pred()))
    &&& fa.chantaiyao == (any && rd(c, ms, chantaiyao_pred()))
    &&& fa.doujun == (any && rd(c, ms, doujun_pred()))
    &&& fa.doukou == (any && rd(c, ms, doukou_pred()))
    &&& fa.junchan == (any && rd(c, ms, junchan_pred()))
    &&& fa.sankantsu == (any && cx.kan_count >= 3)
    &&& fa.suukantsu == (any && cx.kan_count >= 4)
    &&& fa.suuankou == (any && cx.is_closed && rd(c, ms, suuankou_pred(cx)))
    &&& fa.honitsu == (spec_honitsu(u))
    &&& fa.chinitsu == (spec_chinitsu(u))
    &&& fa.honroutou == (spec_honroutou(u))
}

/// Decides the yaku of the hand other than the situational ones and the
/// yakuman of the counts.
fn hand_facts(
    closed_counts: &[u8; 35],
    counts: &[u8; 35],
    patterns: &Vec<HandPattern>,
    ctx: &WinContext,
    Ghost(ms): Ghost<Seq<Meld>>,
) -> (fa: HandFacts)
    requires
        all_readings(patterns@, closed_counts@, closed_kinds(ms), open_kinds(ms), 35),
    ensures
        facts_ok(fa, closed_counts@, ms, *ctx, counts@),
{
    let (any, fl, shousangen) = reading_yaku(patterns, ctx, Ghost(closed_counts@), Ghost(ms));
    let ryanpeiko = ctx.is_closed && fl.ryanpeiko;
    let pinfu = match ctx.win_tile {
        Some(w) => ctx.is_closed && is_number_tile(w).is_some() && fl.pinfu,
        None => false,
    };
    let jikaze = match ctx.seat_wind {
        Some(seat) => counts[seat.index()] >= 3,
        None => false,
    };
    let bakaze = match ctx.round_wind {
        Some(round) => counts[round.index()] >= 3,
        None => false,
    };
    HandFacts {
        ryanpeiko,
        ipeiko: ctx.is_closed && !fl.ryanpeiko && fl.ipeiko,
        chitoitsu: is_chitoitsu(counts) && ctx.is_closed && !ryanpeiko,
        tanyao: is_tanyao(counts),
        pinfu,
        haku: any && counts[34] >= 3,
        hatsu: any && counts[33] >= 3,
        chun: any && counts[32] >= 3,
        jikaze: any && jikaze,
        bakaze: any && bakaze,
        toitoi: any && fl.toitoi,
        sanankou: any && fl.sanankou,
        shousangen,
        chantaiyao: any && fl.chantaiyao,
        doujun: any && fl.doujun,
        doukou: any && fl.doukou,
        junchan: any && fl.junchan,
        sankantsu: any && ctx.kan_count >= 3,
        suukantsu: any && ctx.kan_count >= 4,
        suuankou: any && ctx.is_closed && fl.suuankou,
        honitsu: is_honitsu(counts),
        chinitsu: is_chinitsu(counts),
        honroutou: is_honroutou(counts),
    }
}

/// Whether the hand has the yaku of code `k`.
fn flag_value(k: u8, fa: &HandFacts, Ghost(c): Ghost<Seq<u8>>, Ghost(ms): Ghost<Seq<Meld>>, Ghost(cx): Ghost<WinContext>, Ghost(u): Ghost<Seq<u8>>) -> (b: bool)
    requires
        facts_ok(*fa, c, ms, cx, u),
    ensures
        b == hand_flag(k as int, c, ms, cx, u),
{
    if k == 15 {
        fa.ryanpeiko
    } else if k == 4 {
        fa.ipeiko
    } else if k == 10 {
        fa.chitoitsu
    } else if k == 2 {
        fa.tanyao
    } else if k == 3 {
        fa.pinfu
    } else if k == 5 {
        fa.haku
    } else if k == 6 {
        fa.hatsu
    } else if k == 7 {
        fa.chun
    } else if k == 8 {
        fa.jikaze
    } else if k == 9 {
        fa.bakaze
    } else if k == 11 {
        fa.toitoi
    } else if k == 12 {
        fa.sanankou
    } else if k == 13 {
        fa.shousangen
    } else if k == 14 {
        fa.chantaiyao
    } else if k == 16 {
        fa.doujun
    } else if k == 17 {
        fa.doukou
    } else if k == 19 {
        fa.junchan
    } else if k == 23 {
        fa.sankantsu
    } else if k == 29 {
        fa.suukantsu
    } else if k == 25 {
        fa.suuankou
    } else if k == 18 {
        fa.honitsu
    } else if k == 20 {
        fa.chinitsu
    } else if k == 22 {
        fa.honroutou
    } else {
        false
    }
}

/// The yaku of the hand other than the situational ones and the yakuman
/// of the counts, from every reading of the concealed tiles.
fn hand_yaku_set(
    closed_counts: &[u8; 35],
    counts: &[u8; 35],
    patterns: &Vec<HandPattern>,
    ctx: &WinContext,
    Ghost(ms): Ghost<Seq<Meld>>,
) -> (y: YakuSet)
    requires
        all_readings(patterns@, closed_counts@, closed_kinds(ms), open_kinds(ms), 35),
    ensures
        y@ == hand_yaku(closed_counts@, ms, *ctx, counts@),
{
    let fa = hand_facts(closed_counts, counts, patterns, ctx, Ghost(ms));
    let ghost c = closed_counts@;
    let ghost u = counts@;
    let mut s = YakuSet::empty();
    let mut k: u8 = 0;
    while k < 41
        invariant
            k <= 41,
            facts_ok(fa, c, ms, *ctx, u),
            forall|id: YakuId| #[trigger] s@.contains(id) == (id.spec_code() < k && hand_flag(id.spec_code(), c, ms, *ctx, u)),
        decreases 41 - k,
    {
        proof {
            crate::yaku_set::lemma_from_code(k as int);
        }
        let id = YakuId::from_u8(k).unwrap();
        if flag_value(k, &fa, Ghost(c), Ghost(ms), Ghost(*ctx), Ghost(u)) {
            s.insert(id);
        }
        proof {
            assert forall|x: YakuId| #[trigger] s@.contains(x) == (x.spec_code() < k + 1 && hand_flag(x.spec_code(), c, ms, *ctx, u)) by {
                crate::yaku_set::lemma_code_injective(x, id);
            }
        }
        k = k + 1;
    }
    proof {
        assert forall|x: YakuId| #[trigger] s@.contains(x) == hand_yaku(c, ms, *ctx, u).contains(x) by {
            crate::yaku_set::lemma_code(x);
        }
        assert(s@ =~= hand_yaku(c, ms, *ctx, u));
    }
    s
}

/// The yaku of a winning hand, from its concealed counts, its melds and the
/// situation of the win. A hand without concealed tiles has none. Where the
/// counts make a yakuman, only the yakuman are kept.
pub fn judge_yaku_set(closed_counts: &[u8; 35], open_melds_input: &[Meld], ctx: WinContext) -> (y: YakuSet)
    requires
        counts_fit(closed_counts@, open_melds_input@),
    ensures
        y@ == judged_yaku(closed_counts@, open_melds_input@, ctx),
{
    let tiles_len = count_tiles(closed_counts);
    if tiles_len == 0 {
        return YakuSet::empty();
    }
    let mut ctx = ctx;
    let ghost ctx0 = ctx;
    if has_open_meld(open_melds_input) {
        ctx.is_closed = false;
    }
    let counts = hand_counts(closed_counts, open_melds_input);
    let (open_melds, closed_melds) = split_melds(open_melds_input);
    let kan_count = count_kans(open_melds_input);
    if kan_count > ctx.kan_count {
        ctx.kan_count = kan_count;
    }
    proof {
        assert(ctx == judge_context(open_melds_input@, ctx0));
    }
    let patterns = generate_patterns(closed_counts, open_melds.as_slice(), closed_melds.as_slice());
    let mut result = check_situational_yaku(&ctx);
    let yakuman_set = check_yakuman_yaku(&counts, tiles_len);
    if !yakuman_set.is_empty() {
        result = result.union(yakuman_set);
        result.retain_yakuman_only();
        return result;
    }
    let hand = hand_yaku_set(closed_counts, &counts, &patterns, &ctx, Ghost(open_melds_input@));
    result = result.union(hand);
    result.retain_yakuman_only();
    result
}

/// The yaku of a winning hand as a hash set: those of `judge_yaku_set`.
/// What the set holds is stated where the standard hash set behaves as a
/// set for `YakuId` keys, which Verus takes as an assumption on the key type.
pub fn judge_yaku(closed_counts: &[u8; 35], open_melds_input: &[Meld], ctx: WinContext) -> (r: HashSet<YakuId>)
    requires
        counts_fit(closed_counts@, open_melds_input@),
    ensures
        vstd::std_specs::hash::obeys_key_model::<YakuId>() ==> r@ == judged_yaku(closed_counts@, open_melds_input@, ctx),
{
    let set = judge_yaku_set(closed_counts, open_melds_input, ctx);
    let ids = set.to_vec();
    let mut r: HashSet<YakuId> = HashSet::new();
    let mut i: usize = 0;
    while i < ids.len()
        invariant
            i <= ids.len(),
            vstd::std_specs::hash::obeys_key_model::<YakuId>() ==> r@ == ids@.subrange(0, i as int).to_set(),
        decreases ids.len() - i,
    {
        proof {
            broadcast use vstd::std_specs::hash::axiom_random_state_builds_valid_hashers;
            broadcast use vstd::seq_lib::group_seq_properties;
            assert(ids@.subrange(0, i + 1).to_set() =~= ids@.subrange(0, i as int).to_set().insert(ids@[i as int]));
        }
        r.insert(ids[i]);
        i = i + 1;
    }
    proof {
        assert(ids@.subrange(0, ids.len() as int) =~= ids@);
    }
    r
}

/// A judged hand that holds a yakuman holds nothing but yakuman.
pub proof fn lemma_yakuman_alone(c: Seq<u8>, ms: Seq<Meld>, ctx: WinContext, a: YakuId, b: YakuId)
    requires
        judged_yaku(c, ms, ctx).contains(a),
        judged_yaku(c, ms, ctx).contains(b),
        a.spec_is_yakuman(),
    ensures
        b.spec_is_yakuman(),
{
}

/// A hand without concealed tiles has no yaku.
pub proof fn lemma_no_tiles_no_yaku(c: Seq<u8>, ms: Seq<Meld>, ctx: WinContext)
    requires
        total_tiles(c, 35) == 0,
    ensures
        judged_yaku(c, ms, ctx) == Set::<YakuId>::empty(),
{
}

} // verus!
