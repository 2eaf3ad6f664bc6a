//! Scoring: fu and points from han and fu.
use vstd::prelude::*;
use crate::tile::TileName;
use crate::hand::Meld;


verus! {

/// Whether the winner is the dealer or not.
#[derive(Debug, Clone, Copy, PartialEq, Eq, Structural)]
pub enum PlayerSeat {
    East,
    Other,
}

/// Points of a win.
#[derive(Debug, Clone, Copy, PartialEq, Eq)]
pub struct ScoreResult {
    pub han: usize,
    pub fu: usize,
    pub total_points: usize,
    pub points_description: &'static str,
    /// On a self-draw, what each payer pays: for the dealer (each, each),
    /// for a non-dealer (each non-dealer, the dealer).
    pub tsumo_payments: Option<(usize, usize)>,
}

/// `val` rounded up to a multiple of 100.
pub open spec fn spec_ceil100(val: int) -> int {
    ((val + 99) / 100) * 100
}

/// `fu` rounded up to a multiple of 10.
pub open spec fn spec_ceil10(fu: int) -> int {
    ((fu + 9) / 10) * 10
}

/// Rounds up to a multiple of 100 (1120 -> 1200, 1000 -> 1000).
pub fn ceil100(val: usize) -> (r: usize)
    requires
        val <= (usize::MAX / 100) * 100,
    ensures
        r == spec_ceil100(val as int),
{
    let q = val / 100;
    if val % 100 == 0 {
        q * 100
    } else {
        (q + 1) * 100
    }
}

/// Rounds fu up to a multiple of 10 (22 -> 30, 30 -> 30).
pub fn ceil10_fu(fu: usize) -> (r: usize)
    requires
        fu <= (usize::MAX / 10) * 10,
    ensures
        r == spec_ceil10(fu as int),
{
    let q = fu / 10;
    if fu % 10 == 0 {
        q * 10
    } else {
        (q + 1) * 10
    }
}

/// 2 to the power `n`.
pub open spec fn pow2(n: nat) -> nat
    decreases n,
{
    if n == 0 {
        1
    } else {
        2 * pow2((n - 1) as nat)
    }
}

/// Base points of a hand below mangan: fu * 2^(2 + han).
pub open spec fn basic_points(han: int, fu: int) -> int {
    fu * pow2((2 + han) as nat)
}

/// The limit class of a hand: 0 below mangan, then mangan (1), haneman (2),
/// baiman (3), sanbaiman (4), counted yakuman (5), yakuman (6).
pub open spec fn limit_class(han: int, fu: int, is_yakuman: bool) -> int {
    if is_yakuman {
        6
    } else if han >= 13 {
        5
    } else if han >= 11 {
        4
    } else if han >= 8 {
        3
    } else if han >= 6 {
        2
    } else if han == 5 || basic_points(han, fu) >= 2000 {
        1
    } else {
        0
    }
}

/// Total points of a limit hand of class `c` (1..=6).
pub open spec fn limit_points(c: int, is_dealer: bool) -> int {
    let child: int = if c == 1 {
        8000
    } else if c == 2 {
        12000
    } else if c == 3 {
        16000
    } else if c == 4 {
        24000
    } else {
        32000
    };
    if is_dealer {
        child * 3 / 2
    } else {
        child
    }
}

/// The total points of a win.
pub open spec fn spec_total_points(han: int, fu: int, is_dealer: bool, is_tsumo: bool, is_yakuman: bool) -> int {
    let c = limit_class(han, fu, is_yakuman);
    let b = basic_points(han, fu);
    if c > 0 {
        limit_points(c, is_dealer)
    } else if is_dealer {
        if is_tsumo {
            spec_ceil100(b * 2) * 3
        } else {
            spec_ceil100(b * 6)
        }
    } else if is_tsumo {
        spec_ceil100(b) * 2 + spec_ceil100(b * 2)
    } else {
        spec_ceil100(b * 4)
    }
}

/// What each payer pays on a self-draw, `None` on a ron.
pub open spec fn spec_tsumo_payments(han: int, fu: int, is_dealer: bool, is_tsumo: bool, is_yakuman: bool) -> Option<(usize, usize)> {
    let c = limit_class(han, fu, is_yakuman);
    let b = basic_points(han, fu);
    if !is_tsumo {
        None
    } else if c > 0 {
        let t = limit_points(c, is_dealer);
        if is_dealer {
            Some(((t / 3) as usize, (t / 3) as usize))
        } else {
            Some(((t / 4) as usize, (t / 2) as usize))
        }
    } else if is_dealer {
        Some((spec_ceil100(b * 2) as usize, spec_ceil100(b * 2) as usize))
    } else {
        Some((spec_ceil100(b) as usize, spec_ceil100(b * 2) as usize))
    }
}

/// The description of the points of a win.
pub open spec fn spec_description(han: int, fu: int, is_dealer: bool, is_yakuman: bool) -> Seq<char> {
    let c = limit_class(han, fu, is_yakuman);
    if c == 6 {
        if is_dealer { "役満 (親: 48000点)"@ } else { "役満 (子: 32000点)"@ }
    } else if c == 5 {
        if is_dealer { "数え役満 (親: 48000点)"@ } else { "数え役満 (子: 32000点)"@ }
    } else if c == 4 {
        "三倍満"@
    } else if c == 3 {
        "倍満"@
    } else if c == 2 {
        "跳満"@
    } else if c == 1 {
        "満貫"@
    } else {
        "通常手"@
    }
}

/// The inputs on which computing the points cannot overflow: a hand that is
/// a limit hand by han, or whose base points fit in a `usize`.
pub open spec fn score_inputs_fit(han: int, fu: int, is_yakuman: bool) -> bool {
    is_yakuman || han >= 6 || basic_points(han, fu) <= usize::MAX
}

proof fn lemma_pow2_values()
    ensures
        pow2(2) == 4,
        pow2(3) == 8,
        pow2(4) == 16,
        pow2(5) == 32,
        pow2(6) == 64,
        pow2(7) == 128,
{
    reveal_with_fuel(pow2, 8);
}

/// Points from han (yaku and dora) and fu, for the dealer or not, on a
/// self-draw or a ron.
pub fn calculate_score(han: usize, fu: usize, is_dealer: bool, is_tsumo: bool, is_yakuman: bool) -> (r: ScoreResult)
    requires
        score_inputs_fit(han as int, fu as int, is_yakuman),
    ensures
        r.han == han,
        r.fu == fu,
        r.total_points == spec_total_points(han as int, fu as int, is_dealer, is_tsumo, is_yakuman),
        r.points_description@ == spec_description(han as int, fu as int, is_dealer, is_yakuman),
        r.tsumo_payments == spec_tsumo_payments(han as int, fu as int, is_dealer, is_tsumo, is_yakuman),
{
    proof {
        lemma_pow2_values();
    }
    if is_yakuman || han >= 13 {
        let total_points: usize = if is_dealer { 48000 } else { 32000 };
        let desc: &'static str = if is_yakuman {
            if is_dealer { "役満 (親: 48000点)" } else { "役満 (子: 32000点)" }
        } else if is_dealer {
            "数え役満 (親: 48000点)"
        } else {
            "数え役満 (子: 32000点)"
        };
        let tsumo_payments = if is_tsumo {
            if is_dealer { Some((16000usize, 16000usize)) } else { Some((8000usize, 16000usize)) }
        } else {
            None
        };
        return ScoreResult { han, fu, total_points, points_description: desc, tsumo_payments };
    }
    if han >= 11 {
        let total_points: usize = if is_dealer { 36000 } else { 24000 };
        let tsumo_payments = if is_tsumo {
            if is_dealer { Some((12000usize, 12000usize)) } else { Some((6000usize, 12000usize)) }
        } else {
            None
        };
        return ScoreResult { han, fu, total_points, points_description: "三倍満", tsumo_payments };
    }
    if han >= 8 {
        let total_points: usize = if is_dealer { 24000 } else { 16000 };
        let tsumo_payments = if is_tsumo {
            if is_dealer { Some((8000usize, 8000usize)) } else { Some((4000usize, 8000usize)) }
        } else {
            None
        };
        return ScoreResult { han, fu, total_points, points_description: "倍満", tsumo_payments };
    }
    if han >= 6 {
        let total_points: usize = if is_dealer { 18000 } else { 12000 };
        let tsumo_payments = if is_tsumo {
            if is_dealer { Some((6000usize, 6000usize)) } else { Some((3000usize, 6000usize)) }
        } else {
            None
        };
        return ScoreResult { han, fu, total_points, points_description: "跳満", tsumo_payments };
    }
    let mult: usize = if han == 0 {
        4
    } else if han == 1 {
        8
    } else if han == 2 {
        16
    } else if han == 3 {
        32
    } else if han == 4 {
        64
    } else {
        128
    };
    assert(mult == pow2((2 + han) as nat));
    assert(fu * mult <= usize::MAX);
    let basic = fu * mult;
    if han == 5 || basic >= 2000 {
        let total_points: usize = if is_dealer { 12000 } else { 8000 };
        let tsumo_payments = if is_tsumo {
            if is_dealer { Some((4000usize, 4000usize)) } else { Some((2000usize, 4000usize)) }
        } else {
            None
        };
        return ScoreResult { han, fu, total_points, points_description: "満貫", tsumo_payments };
    }
    if is_dealer {
        if is_tsumo {
            let each = ceil100(basic * 2);
            ScoreResult {
                han,
                fu,
                total_points: each * 3,
                points_description: "通常手",
                tsumo_payments: Some((each, each)),
            }
        } else {
            ScoreResult {
                han,
                fu,
                total_points: ceil100(basic * 6),
                points_description: "通常手",
                tsumo_payments: None,
            }
        }
    } else if is_tsumo {
        let child_pay = ceil100(basic);
        let dealer_pay = ceil100(basic * 2);
        ScoreResult {
            han,
            fu,
            total_points: child_pay * 2 + dealer_pay,
            points_description: "通常手",
            tsumo_payments: Some((child_pay, dealer_pay)),
        }
    } else {
        ScoreResult {
            han,
            fu,
            total_points: ceil100(basic * 4),
            points_description: "通常手",
            tsumo_payments: None,
        }
    }
}

/// On a self-draw the payments add up to the total: three equal payments
/// for the dealer, two non-dealer payments and one dealer payment otherwise.
pub proof fn lemma_tsumo_payments_sum(han: int, fu: int, is_dealer: bool, is_yakuman: bool)
    requires
        0 <= han,
        0 <= fu,
        score_inputs_fit(han, fu, is_yakuman),
    ensures
        spec_tsumo_payments(han, fu, is_dealer, true, is_yakuman) matches Some((a, b)) && (
            if is_dealer {
                a == b && 3 * a == spec_total_points(han, fu, is_dealer, true, is_yakuman)
            } else {
                2 * a + b == spec_total_points(han, fu, is_dealer, true, is_yakuman)
            }),
{
    lemma_pow2_values();
    if limit_class(han, fu, is_yakuman) == 0 {
        lemma_pow2_pos((2 + han) as nat);
        assert(basic_points(han, fu) >= 0) by (nonlinear_arith)
            requires fu >= 0, pow2((2 + han) as nat) > 0, basic_points(han, fu) == fu * pow2((2 + han) as nat);
        assert(basic_points(han, fu) < 2000);
    }
}

/// Rounding up to a multiple of 100 gives the least multiple of 100 that is
/// not below the value.
proof fn lemma_ceil100_bounds(x: int)
    requires
        x >= 0,
    ensures
        spec_ceil100(x) % 100 == 0,
        x <= spec_ceil100(x) < x + 100,
{
    let q = (x + 99) / 100;
    assert(spec_ceil100(x) == q * 100);
    assert((q * 100) % 100 == 0) by (nonlinear_arith);
    assert(q * 100 <= x + 99 < q * 100 + 100) by (nonlinear_arith)
        requires q == (x + 99) / 100, x >= 0;
}

/// Below mangan, with base points `b = fu * 2^(2 + han)`: a ron pays six
/// times `b` to a dealer and four times `b` to a non-dealer; a self-draw is
/// paid twice `b` by each player to a dealer, and by the dealer twice `b`
/// and by each other player `b` to a non-dealer; every payment is rounded up
/// to a multiple of 100 and the total is what the payments add up to.
pub proof fn law_points_below_mangan(han: int, fu: int, is_dealer: bool, is_tsumo: bool)
    requires
        0 <= han <= 4,
        0 <= fu,
        fu * pow2((2 + han) as nat) < 2000,
    ensures
        ({
            let b = fu * pow2((2 + han) as nat);
            let total = spec_total_points(han, fu, is_dealer, is_tsumo, false);
            let pay = spec_tsumo_payments(han, fu, is_dealer, is_tsumo, false);
            &&& !is_tsumo ==> pay is None && total % 100 == 0
            &&& !is_tsumo && is_dealer ==> 6 * b <= total < 6 * b + 100
            &&& !is_tsumo && !is_dealer ==> 4 * b <= total < 4 * b + 100
            &&& is_tsumo && is_dealer ==> (pay matches Some((x, y)) && x == y && x % 100 == 0 && 2 * b <= x < 2 * b + 100
                && total == 3 * x)
            &&& is_tsumo && !is_dealer ==> (pay matches Some((x, y)) && x % 100 == 0 && b <= x < b + 100 && y % 100 == 0
                && 2 * b <= y < 2 * b + 100 && total == 2 * x + y)
        }),
{
    lemma_pow2_values();
    let b = fu * pow2((2 + han) as nat);
    assert(b >= 0 && b <= 2000) by {
        assert(pow2((2 + han) as nat) <= 64);
        lemma_pow2_pos((2 + han) as nat);
        assert(b >= 0) by (nonlinear_arith)
            requires fu >= 0, pow2((2 + han) as nat) > 0, b == fu * pow2((2 + han) as nat);
    }
    assert(basic_points(han, fu) == b);
    assert(limit_class(han, fu, false) == 0);
    lemma_ceil100_bounds(b);
    lemma_ceil100_bounds(2 * b);
    lemma_ceil100_bounds(4 * b);
    lemma_ceil100_bounds(6 * b);
}

/// From mangan up a win is worth a fixed total: for a non-dealer 8000 for
/// mangan (5 han, or base points of 2000 or more), 12000 for 6-7 han, 16000
/// for 8-10, 24000 for 11-12 and 32000 for 13 or a yakuman; a dealer gets
/// half as much again. A self-draw splits it in three equal payments to a
/// dealer, and to a non-dealer in a half from the dealer and a quarter from
/// each other player.
pub proof fn law_limit_points(han: int, fu: int, is_dealer: bool, is_tsumo: bool, is_yakuman: bool)
    requires
        0 <= han,
        0 <= fu,
        is_yakuman || han >= 5 || fu * pow2((2 + han) as nat) >= 2000,
    ensures
        ({
            let child: int = if is_yakuman || han >= 13 {
                32000
            } else if han >= 11 {
                24000
            } else if han >= 8 {
                16000
            } else if han >= 6 {
                12000
            } else {
                8000
            };
            let total = spec_total_points(han, fu, is_dealer, is_tsumo, is_yakuman);
            let pay = spec_tsumo_payments(han, fu, is_dealer, is_tsumo, is_yakuman);
            &&& total == if is_dealer { child + child / 2 } else { child }
            &&& !is_tsumo ==> pay is None
            &&& is_tsumo && is_dealer ==> (pay matches Some((x, y)) && x == y && 3 * x == total)
            &&& is_tsumo && !is_dealer ==> (pay matches Some((x, y)) && 4 * x == total && 2 * y == total)
        }),
{
}

proof fn lemma_pow2_pos(n: nat)
    ensures
        pow2(n) > 0,
    decreases n,
{
    if n > 0 {
        lemma_pow2_pos((n - 1) as nat);
    }
}

/// Fu of the pair: two for a dragon, two more for the seat wind, two more
/// for the round wind.
pub open spec fn pair_fu(p: TileName, seat_wind: Option<TileName>, round_wind: Option<TileName>) -> int {
    (if 32 <= p.id() <= 34 { 2int } else { 0int }) + (if seat_wind == Some(p) { 2int } else { 0int }) + (
    if round_wind == Some(p) {
        2int
    } else {
        0int
    })
}

/// The fu of a hand from its parts: 25 for seven pairs, 20 for a closed
/// pinfu by self-draw; otherwise 20, plus 10 for a closed ron, 2 for a
/// self-draw without pinfu, 2 for a closed wait, the pair's fu and the
/// melds' fu, rounded up to ten and at least 30.
pub open spec fn spec_fu(
    is_pinfu: bool,
    is_chitoitsu: bool,
    is_closed: bool,
    is_tsumo: bool,
    pair: Option<TileName>,
    seat_wind: Option<TileName>,
    round_wind: Option<TileName>,
    wait_is_isolated: bool,
    meld_fu_sum: int,
) -> int {
    if is_chitoitsu {
        25
    } else if is_pinfu && is_closed && is_tsumo {
        20
    } else {
        let fu = 20 + (if is_closed && !is_tsumo { 10int } else { 0int }) + (if is_tsumo && !is_pinfu {
            2int
        } else {
            0int
        }) + (if wait_is_isolated { 2int } else { 0int }) + (match pair {
            Some(p) => pair_fu(p, seat_wind, round_wind),
            None => 0,
        }) + meld_fu_sum;
        if spec_ceil10(fu) > 30 { spec_ceil10(fu) } else { 30 }
    }
}

/// Fu of the pair tile.
fn pair_fu_of(p: TileName, seat_wind: Option<TileName>, round_wind: Option<TileName>) -> (r: usize)
    ensures
        r == pair_fu(p, seat_wind, round_wind),
{
    let mut fu: usize = 0;
    let k = p.index();
    if 32 <= k && k <= 34 {
        fu = fu + 2;
    }
    match seat_wind {
        Some(w) => {
            if w == p {
                fu = fu + 2;
            }
        },
        None => {},
    }
    match round_wind {
        Some(w) => {
            if w == p {
                fu = fu + 2;
            }
        },
        None => {},
    }
    fu
}

/// The fu of a hand from its parts (see `spec_fu`).
pub fn calculate_fu(
    is_pinfu: bool,
    is_chitoitsu: bool,
    is_closed: bool,
    is_tsumo: bool,
    pair: Option<TileName>,
    seat_wind: Option<TileName>,
    round_wind: Option<TileName>,
    wait_is_isolated: bool,
    meld_fu_sum: usize,
) -> (fu: usize)
    requires
        meld_fu_sum <= (usize::MAX / 10) * 10 - 50,
    ensures
        fu == spec_fu(is_pinfu, is_chitoitsu, is_closed, is_tsumo, pair, seat_wind, round_wind, wait_is_isolated, meld_fu_sum as int),
{
    if is_chitoitsu {
        return 25;
    }
    if is_pinfu && is_closed && is_tsumo {
        return 20;
    }
    let mut fu: usize = 20;
    if is_closed && !is_tsumo {
        fu = fu + 10;
    }
    if is_tsumo && !is_pinfu {
        fu = fu + 2;
    }
    if wait_is_isolated {
        fu = fu + 2;
    }
    match pair {
        Some(p) => {
            fu = fu + pair_fu_of(p, seat_wind, round_wind);
        },
        None => {},
    }
    fu = fu + meld_fu_sum;
    let r = ceil10_fu(fu);
    if r > 30 { r } else { 30 }
}

/// A terminal or an honour (index 1, 9, 10, 18, 19, 27, or 28 and above).
pub open spec fn is_yaojiu_idx(k: int) -> bool {
    k == 1 || k == 9 || k == 10 || k == 18 || k == 19 || k == 27 || k >= 28
}

/// Fu of a called or concealed meld: nothing for a chii; a pon 2 (4 for a
/// terminal or honour); an open kan 8 (16); a closed kan 16 (32).
pub open spec fn meld_fu(m: Meld) -> int {
    match m {
        Meld::Chii { .. } => 0,
        Meld::Pon(t) => if is_yaojiu_idx(t.id()) { 4 } else { 2 },
        Meld::Daiminkan(t) => if is_yaojiu_idx(t.id()) { 16 } else { 8 },
        Meld::Kakan(t) => if is_yaojiu_idx(t.id()) { 16 } else { 8 },
        Meld::Ankan(t) => if is_yaojiu_idx(t.id()) { 32 } else { 16 },
    }
}

/// Fu of the melds.
pub open spec fn melds_fu(ms: Seq<Meld>) -> int
    decreases ms.len(),
{
    if ms.len() == 0 {
        0
    } else {
        melds_fu(ms.drop_last()) + meld_fu(ms.last())
    }
}

/// Fu of the concealed triplets at indices `1..i`: a triplet completed by
/// ron counts as open (2, 4 for a terminal or honour), others as concealed
/// (4, 8).
pub open spec fn triplets_fu(counts: Seq<u8>, win_tile: TileName, is_tsumo: bool, i: int) -> int
    decreases i,
{
    if i <= 1 {
        0
    } else {
        let k = i - 1;
        triplets_fu(counts, win_tile, is_tsumo, k) + (if counts[k] >= 3 {
            if !is_tsumo && win_tile.id() == k {
                if is_yaojiu_idx(k) { 4int } else { 2int }
            } else {
                if is_yaojiu_idx(k) { 8int } else { 4int }
            }
        } else {
            0int
        })
    }
}

/// The lowest index in `i..35` that holds exactly two tiles.
pub open spec fn first_pair_from(counts: Seq<u8>, i: int) -> Option<int>
    decreases 35 - i,
{
    if i >= 35 || i < 1 {
        None
    } else if counts[i] == 2 {
        Some(i)
    } else {
        first_pair_from(counts, i + 1)
    }
}

/// The fu of a hand from its counts: 25 for seven pairs; 20 for a pinfu by
/// self-draw with no meld; otherwise 20, plus 10 for a ron with no meld, 2
/// for a self-draw without pinfu, the fu of the melds and of the concealed
/// triplets, the fu of the first index holding a pair, and 2 more when that
/// pair is the winning tile; rounded up to ten and at least 30.
pub open spec fn spec_hand_fu(
    counts: Seq<u8>,
    melds: Seq<Meld>,
    win_tile: TileName,
    is_tsumo: bool,
    is_pinfu: bool,
    is_chitoitsu: bool,
    seat_wind: Option<TileName>,
    round_wind: Option<TileName>,
) -> int {
    let is_closed = melds.len() == 0;
    if is_chitoitsu {
        25
    } else if is_pinfu && is_closed && is_tsumo {
        20
    } else {
        let pair = first_pair_from(counts, 1);
        let fu = 20 + (if is_closed && !is_tsumo { 10int } else { 0int }) + (if is_tsumo && !is_pinfu {
            2int
        } else {
            0int
        }) + melds_fu(melds) + triplets_fu(counts, win_tile, is_tsumo, 35) + (match pair {
            Some(p) => pair_fu(TileName::spec_from_index(p), seat_wind, round_wind) + (if p == win_tile.id() {
                2int
            } else {
                0int
            }),
            None => 0,
        });
        if spec_ceil10(fu) > 30 { spec_ceil10(fu) } else { 30 }
    }
}

proof fn lemma_melds_fu_bound(ms: Seq<Meld>)
    ensures
        0 <= melds_fu(ms) <= 32 * ms.len(),
    decreases ms.len(),
{
    if ms.len() > 0 {
        lemma_melds_fu_bound(ms.drop_last());
    }
}

/// The fu of a hand from its counts, its melds and how it was won (see
/// `spec_hand_fu`).
pub fn calculate_hand_fu(
    counts: &[u8; 35],
    open_melds: &[Meld],
    win_tile: TileName,
    is_tsumo: bool,
    is_pinfu: bool,
    is_chitoitsu: bool,
    seat_wind: Option<TileName>,
    round_wind: Option<TileName>,
) -> (fu: usize)
    requires
        open_melds.len() <= usize::MAX / 64,
    ensures
        fu == spec_hand_fu(counts@, open_melds@, win_tile, is_tsumo, is_pinfu, is_chitoitsu, seat_wind, round_wind),
{
    if is_chitoitsu {
        return 25;
    }
    let is_closed = open_melds.len() == 0;
    if is_pinfu && is_closed && is_tsumo {
        return 20;
    }
    let mut fu: usize = 20;
    if is_closed && !is_tsumo {
        fu = fu + 10;
    }
    if is_tsumo && !is_pinfu {
        fu = fu + 2;
    }
    let mut meld_fu_total: usize = 0;
    let mut j: usize = 0;
    while j < open_melds.len()
        invariant
            j <= open_melds.len(),
            open_melds.len() <= usize::MAX / 64,
            meld_fu_total == melds_fu(open_melds@.subrange(0, j as int)),
            meld_fu_total <= 32 * j,
        decreases open_melds.len() - j,
    {
        proof {
            assert(open_melds@.subrange(0, j + 1).drop_last() =~= open_melds@.subrange(0, j as int));
        }
        let add: usize = match open_melds[j] {
            Meld::Chii { .. } => 0,
            Meld::Pon(t) => {
                let k = t.index();
                if k == 1 || k == 9 || k == 10 || k == 18 || k == 19 || k == 27 || k >= 28 { 4 } else { 2 }
            },
            Meld::Daiminkan(t) | Meld::Kakan(t) => {
                let k = t.index();
                if k == 1 || k == 9 || k == 10 || k == 18 || k == 19 || k == 27 || k >= 28 { 16 } else { 8 }
            },
            Meld::Ankan(t) => {
                let k = t.index();
                if k == 1 || k == 9 || k == 10 || k == 18 || k == 19 || k == 27 || k >= 28 { 32 } else { 16 }
            },
        };
        meld_fu_total = meld_fu_total + add;
        j = j + 1;
    }
    proof {
        assert(open_melds@.subrange(0, open_melds.len() as int) =~= open_melds@);
        lemma_melds_fu_bound(open_melds@);
    }
    let wi = win_tile.index();
    let mut pair_tile: Option<usize> = None;
    let mut i: usize = 1;
    while i <= 34
        invariant
            1 <= i <= 35,
            meld_fu_total <= 32 * open_melds.len() + 8 * i,
            open_melds.len() <= usize::MAX / 64,
            wi == win_tile.id(),
            meld_fu_total == melds_fu(open_melds@) + triplets_fu(counts@, win_tile, is_tsumo, i as int),
            pair_tile is None ==> first_pair_from(counts@, 1) == first_pair_from(counts@, i as int),
            pair_tile is Some ==> first_pair_from(counts@, 1) == Some(pair_tile->0 as int),
        decreases 35 - i,
    {
        let c = counts[i];
        let yaojiu = i == 1 || i == 9 || i == 10 || i == 18 || i == 19 || i == 27 || i >= 28;
        if c >= 3 {
            let ron_tile = !is_tsumo && i == wi;
            let val: usize = if ron_tile {
                if yaojiu { 4 } else { 2 }
            } else {
                if yaojiu { 8 } else { 4 }
            };
            meld_fu_total = meld_fu_total + val;
        } else if c == 2 && pair_tile.is_none() {
            pair_tile = Some(i);
        }
        i = i + 1;
    }
    proof {
        lemma_melds_fu_bound(open_melds@);
    }
    match pair_tile {
        Some(p) => {
            let pt = TileName::from_usize(p);
            fu = fu + pair_fu_of(pt, seat_wind, round_wind);
            if p == wi {
                fu = fu + 2;
            }
        },
        None => {},
    }
    fu = fu + meld_fu_total;
    let r = ceil10_fu(fu);
    if r > 30 { r } else { 30 }
}

proof fn lemma_triplets_fu_bound(counts: Seq<u8>, win_tile: TileName, is_tsumo: bool, i: int)
    ensures
        0 <= triplets_fu(counts, win_tile, is_tsumo, i) <= 8 * (if i > 0 { i } else { 0 }),
    decreases i,
{
    if i > 1 {
        lemma_triplets_fu_bound(counts, win_tile, is_tsumo, i - 1);
    }
}

/// The fu of a hand with at most four melds is at most 480.
pub proof fn lemma_hand_fu_bound(
    counts: Seq<u8>,
    melds: Seq<Meld>,
    win_tile: TileName,
    is_tsumo: bool,
    is_pinfu: bool,
    is_chitoitsu: bool,
    seat_wind: Option<TileName>,
    round_wind: Option<TileName>,
)
    requires
        melds.len() <= 4,
    ensures
        20 <= spec_hand_fu(counts, melds, win_tile, is_tsumo, is_pinfu, is_chitoitsu, seat_wind, round_wind) <= 480,
{
    lemma_melds_fu_bound(melds);
    lemma_triplets_fu_bound(counts, win_tile, is_tsumo, 35);
}

/// Points never exceed a dealer's yakuman, once the score can be computed.
pub proof fn lemma_total_points_bound(han: int, fu: int, is_dealer: bool, is_tsumo: bool, is_yakuman: bool)
    requires
        0 <= fu,
        0 <= han,
    ensures
        0 <= spec_total_points(han, fu, is_dealer, is_tsumo, is_yakuman) <= 48000,
{
    let c = limit_class(han, fu, is_yakuman);
    let b = basic_points(han, fu);
    if c == 0 {
        assert(0 <= b < 2000) by {
            let p = pow2((2 + han) as nat);
            assert(0 <= fu * p) by (nonlinear_arith)
                requires
                    0 <= fu,
                    0 <= p,
            ;
        }
    }
}

/// A score can be computed for any han with at most 480 fu.
pub proof fn lemma_score_inputs_fit(han: int, fu: int, is_yakuman: bool)
    requires
        0 <= han,
        0 <= fu <= 480,
    ensures
        score_inputs_fit(han, fu, is_yakuman),
{
    lemma_pow2_values();
    if han < 6 {
        reveal_with_fuel(pow2, 8);
        assert(pow2((2 + han) as nat) <= 128);
        let p = pow2((2 + han) as nat);
        assert(fu * p <= 480 * 128) by (nonlinear_arith)
            requires
                0 <= fu <= 480,
                0 <= p <= 128,
        ;
    }
}

} // verus!
