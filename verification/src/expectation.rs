//! Evaluation of discards: the situation a hand is analysed in, the danger
//! of a discard, the value a hand can expect, and the threats of the other
//! players.
use vstd::prelude::*;
use crate::tile::TileName;
use crate::hand::Meld;
use crate::yaku_set::{YakuId, YakuSet};
use crate::yaku::{WinContext, judged_yaku, judge_yaku_set, counts_fit};
use crate::score::{calculate_score, calculate_hand_fu, spec_hand_fu, spec_total_points};
use crate::dora::{count_dora, dora_total};
use crate::hand::{is_menzen, spec_has_open_meld};
use crate::acceptance::{calculate_acceptance, acceptance_ok, wait_items, wait_at, waits_len, AcceptanceResult, tile_items, tiles_as_slice};
use arrayvec::ArrayVec;

verus! {

/// The situation a hand is analysed in.
#[derive(Debug, Clone, Copy)]
pub struct AnalysisContext<'a> {
    /// The turn (1..=18).
    pub turn_number: usize,
    /// Tiles left to draw in the wall.
    pub remaining_wall_tiles: usize,
    pub seat_wind: Option<TileName>,
    pub round_wind: Option<TileName>,
    pub dora_indicators: &'a [TileName],
    pub is_dealer: bool,
    /// The seat of the analysed player (0..4).
    pub target_player: usize,
    /// Which players have declared riichi.
    pub riichi_status: [bool; 4],
    /// Each player's discards (four lists, or none).
    pub player_rivers: &'a [&'a [TileName]],
    /// Each player's melds (four lists, or none).
    pub player_melds: &'a [&'a [Meld]],
    /// Which player is the dealer.
    pub player_is_dealer: [bool; 4],
}

impl Default for AnalysisContext<'static> {
    /// Turn 6 with 50 tiles left, east seat and round, the analysed player
    /// (seat 0) the dealer, nobody in riichi, nothing else known.
    fn default() -> (c: AnalysisContext<'static>)
        ensures
            c.turn_number == 6,
            c.remaining_wall_tiles == 50,
            c.seat_wind == Some(TileName::East),
            c.round_wind == Some(TileName::East),
            c.dora_indicators@.len() == 0,
            c.is_dealer,
            c.target_player == 0,
            c.riichi_status@ == seq![false, false, false, false],
            c.player_rivers@.len() == 0,
            c.player_melds@.len() == 0,
            c.player_is_dealer@ == seq![true, false, false, false],
    {
        let no_tiles: &'static [TileName] = &[];
        let no_rivers: &'static [&'static [TileName]] = &[];
        let no_melds: &'static [&'static [Meld]] = &[];
        AnalysisContext {
            turn_number: 6,
            remaining_wall_tiles: 50,
            seat_wind: Some(TileName::East),
            round_wind: Some(TileName::East),
            dora_indicators: no_tiles,
            is_dealer: true,
            target_player: 0,
            riichi_status: [false; 4],
            player_rivers: no_rivers,
            player_melds: no_melds,
            player_is_dealer: [true, false, false, false],
        }
    }
}

/// Player `p` is another player than the analysed one, in riichi.
pub open spec fn is_threat(status: Seq<bool>, target: int, p: int) -> bool {
    0 <= p < 4 && p != target && status[p]
}

/// Some other player is in riichi.
pub open spec fn any_threat(status: Seq<bool>, target: int) -> bool {
    exists|p: int| #[trigger] is_threat(status, target, p)
}

/// The context lists player `p`'s discards, and `t` is among them.
pub open spec fn river_holds(rivers: Seq<&[TileName]>, p: int, t: TileName) -> bool {
    p < rivers.len() && rivers[p]@.contains(t)
}

/// `t` is among the discards of every player in riichi.
pub open spec fn safe_against_all(status: Seq<bool>, target: int, rivers: Seq<&[TileName]>, t: TileName) -> bool {
    forall|p: int| #[trigger] is_threat(status, target, p) ==> river_holds(rivers, p, t)
}

/// `t` is among the discards of some player in riichi.
pub open spec fn safe_against_some(status: Seq<bool>, target: int, rivers: Seq<&[TileName]>, t: TileName) -> bool {
    exists|p: int| #[trigger] is_threat(status, target, p) && river_holds(rivers, p, t)
}

/// The suit of an index below 28 (0, 1, 2; index 0 counts as the first).
pub open spec fn suit_of_index(i: int) -> int {
    if i <= 9 { 0 } else if i <= 18 { 1 } else { 2 }
}

/// The rank of an index below 28 within its suit (1..=9; 0 for index 0).
pub open spec fn rank_in_suit(i: int) -> int {
    if i <= 9 { i } else if i <= 18 { i - 9 } else { i - 18 }
}

/// Tile `t` is the number tile of suit `s` and rank `r`.
pub open spec fn number_of(t: TileName, s: int, r: int) -> bool {
    1 <= t.id() <= 27 && suit_of_index(t.id()) == s && rank_in_suit(t.id()) == r
}

/// Among the first `n` discards is the number tile of suit `s` and rank `r`.
pub open spec fn river_has(river: Seq<TileName>, n: int, s: int, r: int) -> bool
    decreases n,
{
    if n <= 0 {
        false
    } else {
        river_has(river, n - 1, s, r) || number_of(river[n - 1], s, r)
    }
}

/// Among players 0..n, one in riichi has discarded the number tile of suit
/// `s` and rank `r`.
pub open spec fn threat_discarded_upto(status: Seq<bool>, target: int, rivers: Seq<&[TileName]>, n: int, s: int, r: int) -> bool
    decreases n,
{
    if n <= 0 {
        false
    } else {
        let p = n - 1;
        threat_discarded_upto(status, target, rivers, p, s, r) || (is_threat(status, target, p) && p < rivers.len()
            && river_has(rivers[p]@, rivers[p]@.len() as int, s, r))
    }
}

/// A player in riichi has discarded the number tile of suit `s` and rank `r`.
pub open spec fn threat_discarded(status: Seq<bool>, target: int, rivers: Seq<&[TileName]>, s: int, r: int) -> bool {
    threat_discarded_upto(status, target, rivers, 4, s, r)
}

/// A tile of rank `rank` is suji when the ranks that complete its two-sided
/// waits have been discarded (both, for 4, 5 and 6); `h` tells which ranks.
pub open spec fn is_suji(rank: int, h: spec_fn(int) -> bool) -> bool {
    if rank == 1 { h(4) }
    else if rank == 2 { h(5) }
    else if rank == 3 { h(6) }
    else if rank == 4 { h(1) && h(7) }
    else if rank == 5 { h(2) && h(8) }
    else if rank == 6 { h(3) && h(9) }
    else if rank == 7 { h(4) }
    else if rank == 8 { h(5) }
    else if rank == 9 { h(6) }
    else { false }
}

/// A middle tile (4, 5, 6) is half suji when one of its two sides is.
pub open spec fn is_half_suji(rank: int, h: spec_fn(int) -> bool) -> bool {
    if rank == 4 { h(1) || h(7) }
    else if rank == 5 { h(2) || h(8) }
    else if rank == 6 { h(3) || h(9) }
    else { false }
}

/// How dangerous a discard is: a base risk and a factor for the turn, both in
/// thousandths (the risk is their product), and whether it counts as safe.
#[derive(Debug, Clone, Copy, PartialEq, Eq, Structural)]
pub struct SafetyVerdict {
    pub base_risk: u32,
    pub turn_factor: u32,
    pub is_safe: bool,
}

/// A verdict with no turn factor.
pub open spec fn plain_verdict(risk: u32, safe: bool) -> SafetyVerdict {
    SafetyVerdict { base_risk: risk, turn_factor: 1000, is_safe: safe }
}

/// The verdict on discarding tile index `i` while someone is in riichi, `h`
/// telling which ranks of its suit they have discarded.
pub open spec fn riichi_verdict(all: bool, some: bool, i: int, vis: int, h: spec_fn(int) -> bool) -> SafetyVerdict {
    let rank = rank_in_suit(i);
    if all && some {
        plain_verdict(0, true)
    } else if some {
        plain_verdict(200, false)
    } else if i >= 28 {
        if vis == 4 {
            plain_verdict(0, true)
        } else if vis == 3 {
            plain_verdict(50, true)
        } else if vis == 2 {
            plain_verdict(120, true)
        } else {
            plain_verdict(350, false)
        }
    } else if is_suji(rank, h) {
        let risk: u32 = if rank == 1 || rank == 9 {
            80
        } else if rank == 2 || rank == 8 {
            180
        } else if 4 <= rank <= 6 {
            150
        } else {
            280
        };
        plain_verdict(risk, risk < 200)
    } else if is_half_suji(rank, h) {
        plain_verdict(350, false)
    } else {
        let risk: u32 = if rank == 1 || rank == 9 {
            250
        } else if rank == 2 || rank == 8 {
            450
        } else {
            750
        };
        plain_verdict(risk, false)
    }
}

/// The verdict on discarding tile index `i` when nobody is in riichi, on
/// turn `turn` (taken within 1..=18).
pub open spec fn calm_verdict(i: int, vis: int, turn: int) -> SafetyVerdict {
    if i >= 28 {
        plain_verdict(if vis >= 2 { 50 } else { 120 }, true)
    } else {
        let rank = (i - 1) % 9 + 1;
        let base: u32 = if rank == 1 || rank == 9 {
            100
        } else if rank == 2 || rank == 8 {
            200
        } else {
            350
        };
        let t = if turn < 1 { 1 } else if turn > 18 { 18 } else { turn };
        let factor: u32 = if t <= 6 { 500 } else if t <= 12 { 800 } else { 1000 };
        SafetyVerdict { base_risk: base, turn_factor: factor, is_safe: base * factor <= 150 * 1000 }
    }
}

/// The verdict on discarding `t`: against players in riichi, by their
/// discards (safe against all of them, against some), for an honor by its
/// visible copies, for a number tile by suji and half suji; otherwise by the
/// tile's kind and the turn.
pub open spec fn safety_verdict(t: TileName, ctx: AnalysisContext, visible: Seq<u8>) -> SafetyVerdict {
    let status = ctx.riichi_status@;
    let target = ctx.target_player as int;
    let rivers = ctx.player_rivers@;
    let i = t.id();
    if any_threat(status, target) {
        riichi_verdict(
            safe_against_all(status, target, rivers, t),
            safe_against_some(status, target, rivers, t),
            i,
            visible[i] as int,
            |r: int| threat_discarded(status, target, rivers, suit_of_index(i), r),
        )
    } else {
        calm_verdict(i, visible[i] as int, ctx.turn_number as int)
    }
}

/// Against players in riichi, a number tile that none of them discarded is
/// judged by suji, the ranks three apart in its suit: a 1, 2 or 3 by the
/// rank three above, a 7, 8 or 9 by the rank three below, a 4, 5 or 6 by
/// both. A suji tile is 80 (terminals), 180 (2, 8), 280 (3, 7) or 150
/// (4, 5, 6) and counts as safe below 200; a middle tile with one side
/// discarded is 350; any other is 250 (terminals), 450 (2, 8) or 750.
pub proof fn law_suji_verdict(t: TileName, ctx: AnalysisContext, visible: Seq<u8>)
    requires
        1 <= t.id() <= 27,
        any_threat(ctx.riichi_status@, ctx.target_player as int),
        !safe_against_some(ctx.riichi_status@, ctx.target_player as int, ctx.player_rivers@, t),
    ensures
        ({
            let i = t.id();
            let r = (i - 1) % 9 + 1;
            let s = (i - 1) / 9;
            let v = safety_verdict(t, ctx, visible);
            let low = threat_discarded(ctx.riichi_status@, ctx.target_player as int, ctx.player_rivers@, s, r - 3);
            let high = threat_discarded(ctx.riichi_status@, ctx.target_player as int, ctx.player_rivers@, s, r + 3);
            let suji = if r <= 3 { high } else if r >= 7 { low } else { low && high };
            let half = 4 <= r <= 6 && (low || high);
            &&& v.turn_factor == 1000
            &&& suji ==> v.base_risk == (if r == 1 || r == 9 { 80u32 } else if r == 2 || r == 8 { 180u32 } else if r == 3
                || r == 7 { 280u32 } else { 150u32 }) && (v.is_safe <==> v.base_risk < 200)
            &&& !suji && half ==> v.base_risk == 350 && !v.is_safe
            &&& !suji && !half ==> v.base_risk == (if r == 1 || r == 9 { 250u32 } else if r == 2 || r == 8 { 450u32 } else {
                750u32 }) && !v.is_safe
        }),
{
    let i = t.id();
    assert(suit_of_index(i) == (i - 1) / 9);
    assert(rank_in_suit(i) == (i - 1) % 9 + 1);
}

/// A tile that a player in riichi has discarded is safe against them: with
/// risk 0 when every player in riichi has discarded it, else risk 200 and
/// not counted as safe.
pub proof fn law_genbutsu_verdict(t: TileName, ctx: AnalysisContext, visible: Seq<u8>)
    requires
        safe_against_some(ctx.riichi_status@, ctx.target_player as int, ctx.player_rivers@, t),
    ensures
        ({
            let v = safety_verdict(t, ctx, visible);
            if safe_against_all(ctx.riichi_status@, ctx.target_player as int, ctx.player_rivers@, t) {
                v.base_risk == 0 && v.is_safe
            } else {
                v.base_risk == 200 && !v.is_safe
            }
        }),
{
}

proof fn lemma_river_has_step(river: Seq<TileName>, k: int, s: int, before: Seq<bool>, a: Seq<bool>, b: Seq<bool>)
    requires
        0 <= k < river.len(),
        forall|r: int| 1 <= r <= 9 ==> (a[r] <==> #[trigger] before[r] || river_has(river, k, s, r)),
        forall|r: int| 1 <= r <= 9 ==> (#[trigger] b[r] <==> a[r] || number_of(river[k], s, r)),
    ensures
        forall|r: int| 1 <= r <= 9 ==> (b[r] <==> #[trigger] before[r] || river_has(river, k + 1, s, r)),
{
    assert forall|r: int| 1 <= r <= 9 implies (b[r] <==> #[trigger] before[r] || river_has(river, k + 1, s, r)) by {
        assert(a[r] <==> before[r] || river_has(river, k, s, r));
        assert(b[r] <==> a[r] || number_of(river[k], s, r));
    }
}

/// Whether the tile is among the discards.
fn river_contains(river: &[TileName], t: TileName) -> (b: bool)
    ensures
        b == river@.contains(t),
{
    let mut k: usize = 0;
    while k < river.len()
        invariant
            0 <= k <= river.len(),
            forall|j: int| 0 <= j < k ==> river@[j] != t,
        decreases river.len() - k,
    {
        if river[k] == t {
            return true;
        }
        k = k + 1;
    }
    false
}

/// Suit and rank of an index below 28, as the riichi branch reads them.
fn suit_rank(i: usize) -> (r: (usize, usize))
    requires
        i < 28,
    ensures
        r.0 == suit_of_index(i as int),
        r.1 == rank_in_suit(i as int),
{
    if i <= 9 {
        (0, i)
    } else if i <= 18 {
        (1, i - 9)
    } else {
        (2, i - 18)
    }
}

/// The ranks of suit `suit` that players in riichi have discarded.
fn threat_ranks(ctx: &AnalysisContext, suit: usize) -> (seen: [bool; 10])
    ensures
        forall|r: int|
            1 <= r <= 9 ==> (seen@[r] <==> threat_discarded(
                ctx.riichi_status@,
                ctx.target_player as int,
                ctx.player_rivers@,
                suit as int,
                r,
            )),
{
    let ghost status = ctx.riichi_status@;
    let ghost target = ctx.target_player as int;
    let ghost rivers = ctx.player_rivers@;
    let mut seen = [false; 10];
    let mut p: usize = 0;
    while p < 4
        invariant
            0 <= p <= 4,
            status == ctx.riichi_status@,
            target == ctx.target_player as int,
            rivers == ctx.player_rivers@,
            forall|r: int| 1 <= r <= 9 ==> (seen@[r] <==> threat_discarded_upto(status, target, rivers, p as int, suit as int, r)),
        decreases 4 - p,
    {
        proof {
            assert(is_threat(status, target, p as int) == (p != ctx.target_player && ctx.riichi_status@[p as int]));
        }
        if p != ctx.target_player && ctx.riichi_status[p] && p < ctx.player_rivers.len() {
            let river: &[TileName] = ctx.player_rivers[p];
            let ghost before = seen@;
            let mut k: usize = 0;
            while k < river.len()
                invariant
                    0 <= k <= river.len(),
                    before.len() == 10,
                    forall|r: int| 1 <= r <= 9 ==> (seen@[r] <==> #[trigger] before[r] || river_has(river@, k as int, suit as int, r)),
                decreases river.len() - k,
            {
                let r_idx = river[k].index();
                let ghost old_seen = seen@;
                if 1 <= r_idx && r_idx <= 27 {
                    let (r_suit, r_rank) = suit_rank(r_idx);
                    if r_suit == suit {
                        seen[r_rank] = true;
                    }
                }
                proof {
                    assert forall|r: int| 1 <= r <= 9 implies (seen@[r] <==> old_seen[r] || number_of(river@[k as int], suit as int, r)) by {}
                    lemma_river_has_step(river@, k as int, suit as int, before, old_seen, seen@);
                }
                let ghost k_old = k as int;
                k = k + 1;
                proof {
                    assert(k as int == k_old + 1);
                    assert forall|r: int| 1 <= r <= 9 implies (seen@[r] <==> #[trigger] before[r] || river_has(river@, k as int, suit as int, r)) by {
                        assert(seen@[r] <==> before[r] || river_has(river@, k_old + 1, suit as int, r));
                    }
                }
            }
            proof {
                assert(river@ == rivers[p as int]@);
                assert forall|r: int| 1 <= r <= 9 implies (seen@[r] <==> threat_discarded_upto(status, target, rivers, p + 1, suit as int, r)) by {
                    assert(before[r] <==> threat_discarded_upto(status, target, rivers, p as int, suit as int, r));
                }
            }
        } else {
            proof {
                assert forall|r: int| 1 <= r <= 9 implies (seen@[r] <==> threat_discarded_upto(status, target, rivers, p + 1, suit as int, r)) by {
                    assert(seen@[r] <==> threat_discarded_upto(status, target, rivers, p as int, suit as int, r));
                }
            }
        }
        let ghost p_old = p as int;
        p = p + 1;
        proof {
            assert forall|r: int| 1 <= r <= 9 implies (seen@[r] <==> threat_discarded_upto(status, target, rivers, p as int, suit as int, r)) by {
                assert(seen@[r] <==> threat_discarded_upto(status, target, rivers, p_old + 1, suit as int, r));
            }
        }
    }
    seen
}

/// The verdict on discarding `tile`, the tiles seen being `visible_counts`.
pub fn tile_safety_verdict(tile: TileName, ctx: &AnalysisContext, visible_counts: &[u8; 35]) -> (v: SafetyVerdict)
    requires
        tile.id() >= 1 || any_threat(ctx.riichi_status@, ctx.target_player as int),
    ensures
        v == safety_verdict(tile, *ctx, visible_counts@),
{
    let ghost status = ctx.riichi_status@;
    let ghost target = ctx.target_player as int;
    let ghost rivers = ctx.player_rivers@;
    let idx = tile.index();
    let mut has_riichi = false;
    let mut p: usize = 0;
    while p < 4
        invariant
            0 <= p <= 4,
            status == ctx.riichi_status@,
            target == ctx.target_player as int,
            has_riichi <==> exists|q: int| 0 <= q < p && #[trigger] is_threat(status, target, q),
        decreases 4 - p,
    {
        proof {
            assert(is_threat(status, target, p as int) == (p != ctx.target_player && ctx.riichi_status@[p as int]));
        }
        if p != ctx.target_player && ctx.riichi_status[p] {
            has_riichi = true;
        }
        proof {
            assert(forall|q: int| 0 <= q < p + 1 && #[trigger] is_threat(status, target, q) ==> q < p || q == p);
        }
        p = p + 1;
    }
    if has_riichi {
        let mut all = true;
        let mut some = false;
        let mut p: usize = 0;
        while p < 4
            invariant
                0 <= p <= 4,
                status == ctx.riichi_status@,
                target == ctx.target_player as int,
                rivers == ctx.player_rivers@,
                all <==> forall|q: int| 0 <= q < p && #[trigger] is_threat(status, target, q) ==> river_holds(rivers, q, tile),
                some <==> exists|q: int| 0 <= q < p && #[trigger] is_threat(status, target, q) && river_holds(rivers, q, tile),
            decreases 4 - p,
        {
            proof {
                assert(is_threat(status, target, p as int) == (p != ctx.target_player && ctx.riichi_status@[p as int]));
            }
            if p != ctx.target_player && ctx.riichi_status[p] {
                if p < ctx.player_rivers.len() {
                    if river_contains(ctx.player_rivers[p], tile) {
                        some = true;
                    } else {
                        all = false;
                    }
                } else {
                    all = false;
                }
            }
            p = p + 1;
        }
        proof {
            assert(all <==> safe_against_all(status, target, rivers, tile));
            assert(some <==> safe_against_some(status, target, rivers, tile));
        }
        if all && some {
            return SafetyVerdict { base_risk: 0, turn_factor: 1000, is_safe: true };
        } else if some {
            return SafetyVerdict { base_risk: 200, turn_factor: 1000, is_safe: false };
        }
        if idx >= 28 {
            let vis = visible_counts[idx];
            return if vis == 4 {
                SafetyVerdict { base_risk: 0, turn_factor: 1000, is_safe: true }
            } else if vis == 3 {
                SafetyVerdict { base_risk: 50, turn_factor: 1000, is_safe: true }
            } else if vis == 2 {
                SafetyVerdict { base_risk: 120, turn_factor: 1000, is_safe: true }
            } else {
                SafetyVerdict { base_risk: 350, turn_factor: 1000, is_safe: false }
            };
        }
        let (suit, rank) = suit_rank(idx);
        let seen = threat_ranks(ctx, suit);
        let ghost h = |r: int| threat_discarded(status, target, rivers, suit_of_index(idx as int), r);
        proof {
            assert forall|r: int| 1 <= r <= 9 implies (seen@[r] == h(r)) by {}
        }
        let suji = if rank == 1 {
            seen[4]
        } else if rank == 2 {
            seen[5]
        } else if rank == 3 {
            seen[6]
        } else if rank == 4 {
            seen[1] && seen[7]
        } else if rank == 5 {
            seen[2] && seen[8]
        } else if rank == 6 {
            seen[3] && seen[9]
        } else if rank == 7 {
            seen[4]
        } else if rank == 8 {
            seen[5]
        } else if rank == 9 {
            seen[6]
        } else {
            false
        };
        let half_suji = if rank == 4 {
            seen[1] || seen[7]
        } else if rank == 5 {
            seen[2] || seen[8]
        } else if rank == 6 {
            seen[3] || seen[9]
        } else {
            false
        };
        proof {
            assert(suji == is_suji(rank as int, h));
            assert(half_suji == is_half_suji(rank as int, h));
        }
        if suji {
            let risk: u32 = if rank == 1 || rank == 9 {
                80
            } else if rank == 2 || rank == 8 {
                180
            } else if 4 <= rank && rank <= 6 {
                150
            } else {
                280
            };
            SafetyVerdict { base_risk: risk, turn_factor: 1000, is_safe: risk < 200 }
        } else if half_suji {
            SafetyVerdict { base_risk: 350, turn_factor: 1000, is_safe: false }
        } else {
            let risk: u32 = if rank == 1 || rank == 9 {
                250
            } else if rank == 2 || rank == 8 {
                450
            } else {
                750
            };
            SafetyVerdict { base_risk: risk, turn_factor: 1000, is_safe: false }
        }
    } else {
        proof {
            assert(!any_threat(status, target));
        }
        let turn = if ctx.turn_number < 1 {
            1
        } else if ctx.turn_number > 18 {
            18
        } else {
            ctx.turn_number
        };
        if idx >= 28 {
            let vis = visible_counts[idx];
            let risk: u32 = if vis >= 2 { 50 } else { 120 };
            SafetyVerdict { base_risk: risk, turn_factor: 1000, is_safe: true }
        } else {
            let rank = (idx - 1) % 9 + 1;
            let base: u32 = if rank == 1 || rank == 9 {
                100
            } else if rank == 2 || rank == 8 {
                200
            } else {
                350
            };
            let factor: u32 = if turn <= 6 {
                500
            } else if turn <= 12 {
                800
            } else {
                1000
            };
            let product = base * factor;
            SafetyVerdict { base_risk: base, turn_factor: factor, is_safe: product <= 150000 }
        }
    }
}

/// What an estimate of a hand's value counts on: a yaku, or a pair of value
/// honors in general.
#[derive(Debug, Clone, Copy, PartialEq, Eq, Structural)]
pub enum ValueLabel {
    Yaku(YakuId),
    Yakuhai,
}

/// What a list of labels holds, in order.
pub uninterp spec fn label_items(v: ArrayVec<ValueLabel, 10>) -> Seq<ValueLabel>;

/// `ArrayVec::new`: a new list of labels holds nothing.
#[verifier::external_body]
fn new_labels() -> (v: ArrayVec<ValueLabel, 10>)
    ensures
        label_items(v) == Seq::<ValueLabel>::empty(),
{
    ArrayVec::new()
}

/// `ArrayVec::push`: appends the label at the end. It panics on a full
/// list, which the precondition leaves out.
#[verifier::external_body]
fn push_label_item(v: &mut ArrayVec<ValueLabel, 10>, x: ValueLabel)
    requires
        label_items(*old(v)).len() < 10,
    ensures
        label_items(*final(v)) == label_items(*old(v)).push(x),
{
    v.push(x);
}

/// Indexing an `ArrayVec` (through its slice): the label at position `i`.
/// It panics past the end, which the precondition leaves out.
#[verifier::external_body]
fn label_at(v: &ArrayVec<ValueLabel, 10>, i: usize) -> (x: ValueLabel)
    requires
        i < label_items(*v).len(),
    ensures
        x == label_items(*v)[i as int],
{
    v[i]
}

/// `ArrayVec::len`: the number of labels held, which never exceeds the
/// capacity.
#[verifier::external_body]
fn labels_len(v: &ArrayVec<ValueLabel, 10>) -> (n: usize)
    ensures
        n == label_items(*v).len(),
        n <= 10,
{
    v.len()
}

/// The han of yaku `id`, for a closed hand or not, never below zero.
pub open spec fn yaku_han_of(id: YakuId, closed: bool) -> int {
    let h = if closed { id.spec_han_closed() } else { id.spec_han_open() };
    if h > 0 { h } else { 0 }
}

/// The han of the yaku of `ys` whose codes are below `n`.
pub open spec fn set_han(ys: Set<YakuId>, closed: bool, n: int) -> int
    decreases n,
{
    if n <= 0 {
        0
    } else {
        set_han(ys, closed, n - 1) + match YakuId::spec_from_code(n - 1) {
            Some(id) => if ys.contains(id) { yaku_han_of(id, closed) } else { 0 },
            None => 0,
        }
    }
}

/// Whether `ys` holds a yakuman.
pub open spec fn holds_yakuman(ys: Set<YakuId>) -> bool {
    exists|id: YakuId| #[trigger] ys.contains(id) && id.spec_is_yakuman()
}

/// The labels with `x` added at the end, unless it is there already or ten
/// are there.
pub open spec fn push_label(l: Seq<ValueLabel>, x: ValueLabel) -> Seq<ValueLabel> {
    if !l.contains(x) && l.len() < 10 { l.push(x) } else { l }
}

/// The labels with those of the yaku of `ys` whose codes are below `n`
/// added, in code order.
pub open spec fn add_yaku_labels(l: Seq<ValueLabel>, ys: Set<YakuId>, n: int) -> Seq<ValueLabel>
    decreases n,
{
    if n <= 0 {
        l
    } else {
        let l1 = add_yaku_labels(l, ys, n - 1);
        match YakuId::spec_from_code(n - 1) {
            Some(id) => if ys.contains(id) { push_label(l1, ValueLabel::Yaku(id)) } else { l1 },
            None => l1,
        }
    }
}

proof fn lemma_labels_len(l: Seq<ValueLabel>, ys: Set<YakuId>, n: int)
    requires
        l.len() <= 10,
    ensures
        add_yaku_labels(l, ys, n).len() <= 10,
    decreases n,
{
    if n > 0 {
        lemma_labels_len(l, ys, n - 1);
    }
}

proof fn lemma_set_han_bound(ys: Set<YakuId>, closed: bool, n: int)
    ensures
        0 <= set_han(ys, closed, n) <= 13 * (if n > 0 { n } else { 0 }),
    decreases n,
{
    if n > 0 {
        lemma_set_han_bound(ys, closed, n - 1);
    }
}

/// Adds `x` to the labels as `push_label` says.
fn push_label_exec(labels: &mut ArrayVec<ValueLabel, 10>, x: ValueLabel)
    ensures
        label_items(*final(labels)) == push_label(label_items(*old(labels)), x),
{
    let n = labels_len(labels);
    let mut k: usize = 0;
    while k < n
        invariant
            0 <= k <= n,
            n == label_items(*labels).len(),
            forall|j: int| 0 <= j < k ==> label_items(*labels)[j] != x,
        decreases n - k,
    {
        if label_at(labels, k) == x {
            proof {
                assert(label_items(*labels).contains(x));
            }
            return;
        }
        k = k + 1;
    }
    if n < 10 {
        push_label_item(labels, x);
    }
}

/// The han of the yaku in `ys`, whether one is a yakuman, and their labels
/// added to `labels` in code order.
fn tally_yaku(ys: &YakuSet, closed: bool, labels: &mut ArrayVec<ValueLabel, 10>) -> (r: (usize, bool))
    ensures
        r.0 == set_han(ys@, closed, 41),
        r.1 == holds_yakuman(ys@),
        label_items(*final(labels)) == add_yaku_labels(label_items(*old(labels)), ys@, 41),
{
    let mut han: usize = 0;
    let mut ym = false;
    let mut k: u8 = 0;
    while k < 41
        invariant
            0 <= k <= 41,
            han == set_han(ys@, closed, k as int),
            han <= 13 * k,
            ym <==> exists|id: YakuId| #[trigger] ys@.contains(id) && id.spec_is_yakuman() && id.spec_code() < k,
            label_items(*labels) == add_yaku_labels(label_items(*old(labels)), ys@, k as int),
        decreases 41 - k,
    {
        let id_opt = YakuId::from_u8(k);
        proof {
            crate::yaku_set::lemma_from_code(k as int);
        }
        let id = id_opt.unwrap();
        let ghost before = ym;
        if ys.contains(&id) {
            let info = id.info();
            let h = if closed { info.han_closed } else { info.han_open };
            if h > 0 {
                han = han + h as usize;
            }
            if info.yakuman {
                ym = true;
            }
            push_label_exec(labels, ValueLabel::Yaku(id));
        }
        proof {
            assert forall|x: YakuId| #[trigger] ys@.contains(x) && x.spec_is_yakuman() && x.spec_code() < k + 1
                implies (before || (ys@.contains(id) && id.spec_is_yakuman())) by {
                if x.spec_code() == k {
                    crate::yaku_set::lemma_code_injective(x, id);
                }
            }
        }
        k = k + 1;
    }
    proof {
        assert forall|x: YakuId| #[trigger] ys@.contains(x) && x.spec_is_yakuman() implies x.spec_code() < 41 by {
            crate::yaku_set::lemma_code(x);
        }
    }
    (han, ym)
}

/// The situation of a sampled self-draw win on `win`.
pub open spec fn value_context(closed: bool, ctx: AnalysisContext, riichi: bool, win: TileName) -> WinContext {
    WinContext {
        is_closed: closed,
        is_tsumo: true,
        seat_wind: ctx.seat_wind,
        round_wind: ctx.round_wind,
        riichi: riichi,
        kan_count: 0,
        tenhou: false,
        chiihou: false,
        win_tile: Some(win),
        is_rinshan: false,
        is_chankan: false,
        is_haitei: false,
        is_houtei: false,
        is_double_riichi: false,
        is_ippatsu: false,
    }
}

/// The counts with one more tile `t`.
pub open spec fn add_tile(c: Seq<u8>, t: TileName) -> Seq<u8> {
    c.update(t.id(), (c[t.id()] + 1) as u8)
}

/// A sampled self-draw win of a ready hand on `t`: its points, its han and
/// the labels after it. The yaku are judged without riichi; a closed hand
/// without yaku, or with three han or less, declares riichi for one han
/// more; a yakuman counts thirteen; otherwise at least one han.
pub open spec fn ready_win(
    counts: Seq<u8>,
    melds: Seq<Meld>,
    ctx: AnalysisContext,
    t: TileName,
    l: Seq<ValueLabel>,
) -> (int, int, Seq<ValueLabel>) {
    let w = add_tile(counts, t);
    let closed = !spec_has_open_meld(melds);
    let ys = judged_yaku(w, melds, value_context(closed, ctx, false, t));
    let base = set_han(ys, closed, 41);
    let ym = holds_yakuman(ys);
    let l1 = add_yaku_labels(l, ys, 41);
    let total_base = base + dora_total(w, ctx.dora_indicators@);
    let needs_riichi = closed && base == 0;
    let will_riichi = closed && (needs_riichi || total_base <= 3);
    let han = if ym {
        13
    } else if will_riichi {
        total_base + 1
    } else if total_base > 1 {
        total_base
    } else {
        1
    };
    let l2 = if !ym && will_riichi && needs_riichi { push_label(l1, ValueLabel::Yaku(YakuId::Riichi)) } else { l1 };
    let fu = spec_hand_fu(
        w,
        melds,
        t,
        true,
        ys.contains(YakuId::Pinfu),
        ys.contains(YakuId::Chitoitsu),
        ctx.seat_wind,
        ctx.round_wind,
    );
    (spec_total_points(han, fu, ctx.is_dealer, true, ym), han, l2)
}

/// The points and han of the first `n` sampled wins summed, and the labels
/// after them.
pub open spec fn ready_tally(
    counts: Seq<u8>,
    melds: Seq<Meld>,
    ctx: AnalysisContext,
    tiles: Seq<TileName>,
    n: int,
) -> (int, int, Seq<ValueLabel>)
    decreases n,
{
    if n <= 0 {
        (0, 0, Seq::empty())
    } else {
        let p = ready_tally(counts, melds, ctx, tiles, n - 1);
        let w = ready_win(counts, melds, ctx, tiles[n - 1], p.2);
        (p.0 + w.0, p.1 + w.1, w.2)
    }
}

/// No count, with the melds' tiles, comes near the top of a byte.
pub open spec fn value_counts_fit(counts: Seq<u8>, melds: Seq<Meld>) -> bool {
    forall|k: int| 0 <= k < 35 ==> counts[k] + #[trigger] crate::yaku::melds_tiles(melds, k) + 2 <= 255
}

/// The dora indicators are few enough to add up in a machine word.
pub open spec fn indicators_fit(ctx: AnalysisContext) -> bool {
    ctx.dora_indicators@.len() * 255 + 1000 <= usize::MAX
}

/// One sampled self-draw win of a ready hand on `t` (see `ready_win`).
fn ready_win_exec(counts: &[u8; 35], melds: &[Meld], ctx: &AnalysisContext, t: TileName, labels: &mut ArrayVec<ValueLabel, 10>) -> (r: (u32, usize))
    requires
        melds@.len() <= 4,
        value_counts_fit(counts@, melds@),
        indicators_fit(*ctx),
        label_items(*old(labels)).len() <= 10,
    ensures
        (r.0 as int, r.1 as int, label_items(*final(labels))) == ready_win(counts@, melds@, *ctx, t, label_items(*old(labels))),
        label_items(*final(labels)).len() <= 10,
        r.1 <= ctx.dora_indicators@.len() * 255 + 600,
{
    let closed = is_menzen(melds);
    let idx = t.index();
    let mut w = *counts;
    proof {
        crate::tile::lemma_tile_index(t);
        crate::yaku::lemma_melds_tiles_nonneg(melds@, idx as int);
        assert(counts@[idx as int] + crate::yaku::melds_tiles(melds@, idx as int) + 2 <= 255);
    }
    w[idx] = w[idx] + 1;
    proof {
        assert(w@ == add_tile(counts@, t));
        assert forall|k: int| 0 <= k < 35 implies w@[k] + #[trigger] crate::yaku::melds_tiles(melds@, k) <= 255 by {
            assert(counts@[k] + crate::yaku::melds_tiles(melds@, k) + 2 <= 255);
            crate::yaku::lemma_melds_tiles_nonneg(melds@, k);
        }
    }
    let wctx = WinContext {
        is_closed: closed,
        is_tsumo: true,
        seat_wind: ctx.seat_wind,
        round_wind: ctx.round_wind,
        riichi: false,
        kan_count: 0,
        tenhou: false,
        chiihou: false,
        win_tile: Some(t),
        is_rinshan: false,
        is_chankan: false,
        is_haitei: false,
        is_houtei: false,
        is_double_riichi: false,
        is_ippatsu: false,
    };
    let ys = judge_yaku_set(&w, melds, wctx);
    let ghost l0 = label_items(*labels);
    let (base, ym) = tally_yaku(&ys, closed, labels);
    proof {
        lemma_labels_len(l0, ys@, 41);
        lemma_set_han_bound(ys@, closed, 41);
        crate::dora::lemma_dora_total_bound(w@, ctx.dora_indicators@);
    }
    let dora = count_dora(&w, ctx.dora_indicators);
    let total_base = base + dora;
    let needs_riichi = closed && base == 0;
    let will_riichi = closed && (needs_riichi || total_base <= 3);
    let han: usize = if ym {
        13
    } else if will_riichi {
        if needs_riichi {
            push_label_exec(labels, ValueLabel::Yaku(YakuId::Riichi));
        }
        total_base + 1
    } else if total_base > 1 {
        total_base
    } else {
        1
    };
    let is_pinfu = ys.contains(&YakuId::Pinfu);
    let is_chitoitsu = ys.contains(&YakuId::Chitoitsu);
    let fu = calculate_hand_fu(&w, melds, t, true, is_pinfu, is_chitoitsu, ctx.seat_wind, ctx.round_wind);
    proof {
        crate::score::lemma_hand_fu_bound(w@, melds@, t, true, is_pinfu, is_chitoitsu, ctx.seat_wind, ctx.round_wind);
        crate::score::lemma_score_inputs_fit(han as int, fu as int, ym);
        crate::score::lemma_total_points_bound(han as int, fu as int, ctx.is_dealer, true, ym);
    }
    let score = calculate_score(han, fu, ctx.is_dealer, true, ym);
    (score.total_points as u32, han)
}

/// The counts with one tile of index `d` less.
pub open spec fn remove_index(c: Seq<u8>, d: int) -> Seq<u8> {
    c.update(d, (c[d] - 1) as u8)
}

/// A ready hand with at least one wait.
pub open spec fn ready_with_wait(r: AcceptanceResult) -> bool {
    r.current_shanten == 0 && wait_items(r.waits).len() > 0
}

/// Some acceptance of the hand without one tile `d` (its own tiles seen)
/// is not ready with a wait.
pub open spec fn not_ready_after(w: Seq<u8>, open: int, d: int) -> bool {
    exists|r: AcceptanceResult|
        acceptance_ok(r, remove_index(w, d), open, remove_index(w, d)) && !#[trigger] ready_with_wait(r)
}

/// Some acceptance of the hand without one tile `d` is ready with a wait,
/// the first of which is `t`.
pub open spec fn ready_after(w: Seq<u8>, open: int, d: int, t: int) -> bool {
    exists|r: AcceptanceResult|
        acceptance_ok(r, remove_index(w, d), open, remove_index(w, d)) && #[trigger] ready_with_wait(r)
            && wait_items(r.waits)[0].0 == t
}

/// `mv` is the discard that makes the hand ready, searched in tile order,
/// with the first wait it leaves; `None` when no discard does.
pub open spec fn ready_move_ok(w: Seq<u8>, open: int, mv: Option<(int, int)>) -> bool {
    match mv {
        None => forall|d: int| 1 <= d <= 34 && w[d] > 0 ==> #[trigger] not_ready_after(w, open, d),
        Some((d, t)) => {
            &&& 1 <= d <= 34
            &&& w[d] > 0
            &&& ready_after(w, open, d, t)
            &&& forall|e: int| 1 <= e < d && w[e] > 0 ==> #[trigger] not_ready_after(w, open, e)
        },
    }
}

/// The discard, in tile order, that leaves the hand ready, and the first
/// wait it leaves.
fn find_ready_discard(w: &[u8; 35], open: usize) -> (mv: Option<(usize, TileName)>)
    requires
        open <= 4,
    ensures
        ready_move_ok(
            w@,
            open as int,
            match mv {
                Some((d, t)) => Some((d as int, t.id())),
                None => None,
            },
        ),
{
    let mut working = *w;
    let mut d: usize = 1;
    while d <= 34
        invariant
            1 <= d <= 35,
            open <= 4,
            working@ == w@,
            forall|e: int| 1 <= e < d && w@[e] > 0 ==> #[trigger] not_ready_after(w@, open as int, e),
        decreases 35 - d,
    {
        if working[d] > 0 {
            working[d] = working[d] - 1;
            let acc = calculate_acceptance(&working, open, None);
            proof {
                assert(working@ == remove_index(w@, d as int));
            }
            working[d] = working[d] + 1;
            proof {
                assert(working@ =~= w@);
            }
            if acc.current_shanten == 0 && waits_len(&acc.waits) > 0 {
                let first = wait_at(&acc.waits, 0);
                proof {
                    assert(ready_with_wait(acc));
                }
                return Some((d, first.tile));
            }
            proof {
                assert(!ready_with_wait(acc));
                assert(not_ready_after(w@, open as int, d as int));
            }
        }
        d = d + 1;
    }
    None
}

/// A sampled win of a hand one tile from ready after drawing `adv`: where a
/// discard `d` leaves it ready with first wait `t`, the self-draw win on `t`
/// with riichi for a closed hand (its yaku and dora han, at least one; a
/// closed hand without them counts riichi); otherwise a flat 3,000 points
/// and two han closed, 1,500 and one han open.
pub open spec fn iishanten_win(
    counts: Seq<u8>,
    melds: Seq<Meld>,
    ctx: AnalysisContext,
    adv: TileName,
    mv: Option<(int, int)>,
    l: Seq<ValueLabel>,
) -> (int, int, Seq<ValueLabel>) {
    let closed = !spec_has_open_meld(melds);
    match mv {
        Some((d, t)) => {
            let tile = TileName::spec_from_index(t);
            let w = add_tile(remove_index(add_tile(counts, adv), d), tile);
            let ys = judged_yaku(w, melds, value_context(closed, ctx, closed, tile));
            let ym = holds_yakuman(ys);
            let l1 = add_yaku_labels(l, ys, 41);
            let han0 = set_han(ys, closed, 41) + dora_total(w, ctx.dora_indicators@);
            let han = if han0 == 0 { 1 } else { han0 };
            let l2 = if han0 == 0 && closed { push_label(l1, ValueLabel::Yaku(YakuId::Riichi)) } else { l1 };
            let fu = spec_hand_fu(
                w,
                melds,
                tile,
                true,
                ys.contains(YakuId::Pinfu),
                ys.contains(YakuId::Chitoitsu),
                ctx.seat_wind,
                ctx.round_wind,
            );
            (spec_total_points(han, fu, ctx.is_dealer, true, ym), han, l2)
        },
        None => (if closed { 3000 } else { 1500 }, if closed { 2 } else { 1 }, l),
    }
}

/// The points and han of the first `n` sampled wins after the draws
/// `tiles`, with the discards `moves`, summed, and the labels after them.
pub open spec fn iishanten_tally(
    counts: Seq<u8>,
    melds: Seq<Meld>,
    ctx: AnalysisContext,
    tiles: Seq<TileName>,
    moves: Seq<Option<(int, int)>>,
    n: int,
) -> (int, int, Seq<ValueLabel>)
    decreases n,
{
    if n <= 0 {
        (0, 0, Seq::empty())
    } else {
        let p = iishanten_tally(counts, melds, ctx, tiles, moves, n - 1);
        let w = iishanten_win(counts, melds, ctx, tiles[n - 1], moves[n - 1], p.2);
        (p.0 + w.0, p.1 + w.1, w.2)
    }
}

/// One sampled win after drawing `adv` (see `iishanten_win`); also gives
/// the discard taken.
fn iishanten_win_exec(
    counts: &[u8; 35],
    melds: &[Meld],
    ctx: &AnalysisContext,
    adv: TileName,
    labels: &mut ArrayVec<ValueLabel, 10>,
) -> (r: (u32, usize, Ghost<Option<(int, int)>>))
    requires
        melds@.len() <= 4,
        value_counts_fit(counts@, melds@),
        indicators_fit(*ctx),
        label_items(*old(labels)).len() <= 10,
    ensures
        ready_move_ok(add_tile(counts@, adv), melds@.len() as int, r.2@),
        (r.0 as int, r.1 as int, label_items(*final(labels))) == iishanten_win(counts@, melds@, *ctx, adv, r.2@, label_items(*old(labels))),
        label_items(*final(labels)).len() <= 10,
        r.1 <= ctx.dora_indicators@.len() * 255 + 600,
{
    let closed = is_menzen(melds);
    let ai = adv.index();
    let mut w = *counts;
    proof {
        crate::tile::lemma_tile_index(adv);
        crate::yaku::lemma_melds_tiles_nonneg(melds@, ai as int);
        assert(counts@[ai as int] + crate::yaku::melds_tiles(melds@, ai as int) + 2 <= 255);
    }
    w[ai] = w[ai] + 1;
    let mv = find_ready_discard(&w, melds.len());
    let ghost gmv = match mv {
        Some((d, t)) => Some((d as int, t.id())),
        None => None,
    };
    match mv {
        Some((d, tile)) => {
            let ti = tile.index();
            proof {
                crate::tile::lemma_tile_index(tile);
                assert(TileName::spec_from_index(tile.id()) == tile);
            }
            let ghost w1 = w@;
            w[d] = w[d] - 1;
            proof {
                crate::yaku::lemma_melds_tiles_nonneg(melds@, ti as int);
                assert(counts@[ti as int] + crate::yaku::melds_tiles(melds@, ti as int) + 2 <= 255);
            }
            w[ti] = w[ti] + 1;
            proof {
                assert(w@ == add_tile(remove_index(w1, d as int), tile));
                assert forall|k: int| 0 <= k < 35 implies w@[k] + #[trigger] crate::yaku::melds_tiles(melds@, k) <= 255 by {
                    assert(counts@[k] + crate::yaku::melds_tiles(melds@, k) + 2 <= 255);
                    crate::yaku::lemma_melds_tiles_nonneg(melds@, k);
                }
            }
            let wctx = WinContext {
                is_closed: closed,
                is_tsumo: true,
                seat_wind: ctx.seat_wind,
                round_wind: ctx.round_wind,
                riichi: closed,
                kan_count: 0,
                tenhou: false,
                chiihou: false,
                win_tile: Some(tile),
                is_rinshan: false,
                is_chankan: false,
                is_haitei: false,
                is_houtei: false,
                is_double_riichi: false,
                is_ippatsu: false,
            };
            let ys = judge_yaku_set(&w, melds, wctx);
            let ghost l0 = label_items(*labels);
            let (base, ym) = tally_yaku(&ys, closed, labels);
            proof {
                lemma_labels_len(l0, ys@, 41);
                lemma_set_han_bound(ys@, closed, 41);
                crate::dora::lemma_dora_total_bound(w@, ctx.dora_indicators@);
            }
            let dora = count_dora(&w, ctx.dora_indicators);
            let han0 = base + dora;
            let han: usize = if han0 == 0 {
                if closed {
                    push_label_exec(labels, ValueLabel::Yaku(YakuId::Riichi));
                }
                1
            } else {
                han0
            };
            let is_pinfu = ys.contains(&YakuId::Pinfu);
            let is_chitoitsu = ys.contains(&YakuId::Chitoitsu);
            let fu = calculate_hand_fu(&w, melds, tile, true, is_pinfu, is_chitoitsu, ctx.seat_wind, ctx.round_wind);
            proof {
                crate::score::lemma_hand_fu_bound(w@, melds@, tile, true, is_pinfu, is_chitoitsu, ctx.seat_wind, ctx.round_wind);
                crate::score::lemma_score_inputs_fit(han as int, fu as int, ym);
                crate::score::lemma_total_points_bound(han as int, fu as int, ctx.is_dealer, true, ym);
            }
            let score = calculate_score(han, fu, ctx.is_dealer, true, ym);
            (score.total_points as u32, han, Ghost(gmv))
        },
        None => {
            if closed {
                (3000, 2, Ghost(gmv))
            } else {
                (1500, 1, Ghost(gmv))
            }
        },
    }
}

/// The integer parts of an estimate of a hand's value: points and han
/// summed over the sampled wins, how many were sampled, the labels of what
/// it counts on, and whether the expected score (or, for a hand far from
/// ready, the han) is high.
pub struct ValueTally {
    pub total_score: u128,
    pub total_han: u128,
    pub samples: usize,
    pub labels: ArrayVec<ValueLabel, 10>,
    pub high_value: bool,
}

/// The value honors the rough estimate looks at: the three dragons, the
/// seat wind and the round wind (East when unknown).
pub open spec fn value_honors(ctx: AnalysisContext) -> Seq<TileName> {
    seq![
        TileName::White,
        TileName::Green,
        TileName::Red,
        match ctx.seat_wind { Some(t) => t, None => TileName::East },
        match ctx.round_wind { Some(t) => t, None => TileName::East },
    ]
}

/// How many of the first `n` value honors the counts hold twice or more.
pub open spec fn honor_pairs_held(counts: Seq<u8>, hs: Seq<TileName>, n: int) -> int
    decreases n,
{
    if n <= 0 {
        0
    } else {
        honor_pairs_held(counts, hs, n - 1) + if counts[hs[n - 1].id()] >= 2 { 1int } else { 0int }
    }
}

/// The rough value of a hand two or more tiles from ready: two han closed
/// (riichi and self-draw) or one open, plus its dora and a han for each
/// value honor pair; the points of that many han at 30 fu by self-draw.
pub open spec fn rough_value(counts: Seq<u8>, melds: Seq<Meld>, ctx: AnalysisContext) -> (int, int, Seq<ValueLabel>) {
    let closed = !spec_has_open_meld(melds);
    let pairs = honor_pairs_held(counts, value_honors(ctx), 5);
    let han = (if closed { 2int } else { 1int }) + dora_total(counts, ctx.dora_indicators@) + pairs;
    let l0 = if closed {
        seq![ValueLabel::Yaku(YakuId::Riichi), ValueLabel::Yaku(YakuId::MenzenTsumo)]
    } else {
        Seq::<ValueLabel>::empty()
    };
    let l = if pairs > 0 { push_label(l0, ValueLabel::Yakuhai) } else { l0 };
    (spec_total_points(han, 30, ctx.is_dealer, true, false), han, l)
}

/// The tally matches the sums, sample count and labels given, with the
/// expected score high from 5,000 points.
pub open spec fn tally_is(r: ValueTally, t: (int, int, Seq<ValueLabel>), n: int) -> bool {
    &&& r.samples == n
    &&& r.total_score == t.0
    &&& r.total_han == t.1
    &&& label_items(r.labels) == t.2
    &&& r.high_value == (t.0 >= 5000 * n)
}

/// `r` is the value estimate of a hand of shanten `shanten` with the given
/// counts, advancing tiles, melds and situation: for a ready hand, the wins
/// on its first six waits (a flat 1,000 points and one han with no wait);
/// for a hand one tile from ready with such tiles, the wins after drawing
/// each of the first eight, for the discards that make it ready; otherwise a
/// rough estimate.
pub open spec fn value_ok(
    r: ValueTally,
    counts: Seq<u8>,
    shanten: int,
    accepted: Seq<TileName>,
    melds: Seq<Meld>,
    ctx: AnalysisContext,
) -> bool {
    &&& (shanten == 0 && accepted.len() == 0 ==> tally_is(r, (1000, 1, Seq::empty()), 1))
    &&& (shanten == 0 && accepted.len() > 0 ==> {
        let n = if accepted.len() < 6 { accepted.len() as int } else { 6 };
        tally_is(r, ready_tally(counts, melds, ctx, accepted, n), n)
    })
    &&& (shanten == 1 && accepted.len() > 0 ==> {
        let n = if accepted.len() < 8 { accepted.len() as int } else { 8 };
        exists|moves: Seq<Option<(int, int)>>|
            {
                &&& moves.len() == n
                &&& forall|j: int|
                    0 <= j < n ==> ready_move_ok(add_tile(counts, #[trigger] accepted[j]), melds.len() as int, moves[j])
                &&& tally_is(r, iishanten_tally(counts, melds, ctx, accepted, moves, n), n)
            }
    })
    &&& (!(shanten == 0 || (shanten == 1 && accepted.len() > 0)) ==> {
        let v = rough_value(counts, melds, ctx);
        &&& r.samples == 1
        &&& r.total_score == v.0
        &&& r.total_han == v.1
        &&& label_items(r.labels) == v.2
        &&& r.high_value == (v.1 >= 4)
    })
}

/// The value a hand of shanten `shanten` can expect, from its counts, the
/// tiles that advance it, its melds and the situation: for a ready hand,
/// the wins on its first six waits (a flat 1,000 points and one han with no
/// wait); for a hand one tile from ready with such tiles, the wins after
/// drawing each of the first eight; otherwise a rough estimate.
pub fn estimate_hand_value(
    counts: &[u8; 35],
    shanten: i8,
    accepted_tiles: &[TileName],
    open_melds: &[Meld],
    ctx: &AnalysisContext,
) -> (r: ValueTally)
    requires
        open_melds@.len() <= 4,
        value_counts_fit(counts@, open_melds@),
        indicators_fit(*ctx),
    ensures
        value_ok(r, counts@, shanten as int, accepted_tiles@, open_melds@, *ctx),
{
    let closed = is_menzen(open_melds);
    if shanten == 0 {
        if accepted_tiles.len() == 0 {
            let labels = new_labels();
            return ValueTally { total_score: 1000, total_han: 1, samples: 1, labels, high_value: false };
        }
        let n: usize = if accepted_tiles.len() < 6 { accepted_tiles.len() } else { 6 };
        let mut total_score: u128 = 0;
        let mut total_han: u128 = 0;
        let mut labels = new_labels();
        let mut j: usize = 0;
        while j < n
            invariant
                0 <= j <= n,
                n <= accepted_tiles@.len(),
                n <= 6,
                open_melds@.len() <= 4,
                value_counts_fit(counts@, open_melds@),
                indicators_fit(*ctx),
                label_items(labels).len() <= 10,
                total_score <= 48000 * j,
                total_han <= (ctx.dora_indicators@.len() * 255 + 600) * j,
                (total_score as int, total_han as int, label_items(labels)) == ready_tally(counts@, open_melds@, *ctx, accepted_tiles@, j as int),
            decreases n - j,
        {
            let (pts, han) = ready_win_exec(counts, open_melds, ctx, accepted_tiles[j], &mut labels);
            proof {
                let cap = ctx.dora_indicators@.len() * 255 + 600;
                assert(cap * j + cap == cap * (j + 1)) by (nonlinear_arith);
                assert(cap * (j + 1) <= cap * 8) by (nonlinear_arith)
                    requires
                        j < 8,
                        cap >= 0,
                ;
            }
            total_score = total_score + pts as u128;
            total_han = total_han + han as u128;
            j = j + 1;
        }
        let high_value = total_score >= 5000 * (n as u128);
        return ValueTally { total_score, total_han, samples: n, labels, high_value };
    }
    if shanten == 1 && accepted_tiles.len() > 0 {
        let n: usize = if accepted_tiles.len() < 8 { accepted_tiles.len() } else { 8 };
        let mut total_score: u128 = 0;
        let mut total_han: u128 = 0;
        let mut labels = new_labels();
        let ghost mut moves: Seq<Option<(int, int)>> = Seq::empty();
        let mut j: usize = 0;
        while j < n
            invariant
                0 <= j <= n,
                n <= accepted_tiles@.len(),
                n <= 8,
                open_melds@.len() <= 4,
                value_counts_fit(counts@, open_melds@),
                indicators_fit(*ctx),
                label_items(labels).len() <= 10,
                moves.len() == j,
                forall|i: int|
                    0 <= i < j ==> ready_move_ok(
                        add_tile(counts@, #[trigger] accepted_tiles@[i]),
                        open_melds@.len() as int,
                        moves[i],
                    ),
                total_score <= 48000 * j,
                total_han <= (ctx.dora_indicators@.len() * 255 + 600) * j,
                (total_score as int, total_han as int, label_items(labels)) == iishanten_tally(
                    counts@,
                    open_melds@,
                    *ctx,
                    accepted_tiles@,
                    moves,
                    j as int,
                ),
            decreases n - j,
        {
            let (pts, han, Ghost(mv)) = iishanten_win_exec(counts, open_melds, ctx, accepted_tiles[j], &mut labels);
            proof {
                let cap = ctx.dora_indicators@.len() * 255 + 600;
                assert(cap * j + cap == cap * (j + 1)) by (nonlinear_arith);
                assert(cap * (j + 1) <= cap * 8) by (nonlinear_arith)
                    requires
                        j < 8,
                        cap >= 0,
                ;
            }
            proof {
                let old_moves = moves;
                moves = moves.push(mv);
                assert(moves.subrange(0, j as int) =~= old_moves);
                lemma_iishanten_tally_frame(counts@, open_melds@, *ctx, accepted_tiles@, old_moves, moves, j as int);
            }
            total_score = total_score + pts as u128;
            total_han = total_han + han as u128;
            j = j + 1;
        }
        let high_value = total_score >= 5000 * (n as u128);
        return ValueTally { total_score, total_han, samples: n, labels, high_value };
    }
    proof {
        crate::dora::lemma_dora_total_bound(counts@, ctx.dora_indicators@);
    }
    let dora = count_dora(counts, ctx.dora_indicators);
    let mut han: usize = if closed { 2 } else { 1 };
    han = han + dora;
    let mut labels = new_labels();
    if closed {
        push_label_item(&mut labels, ValueLabel::Yaku(YakuId::Riichi));
        push_label_item(&mut labels, ValueLabel::Yaku(YakuId::MenzenTsumo));
    }
    let ghost l0 = label_items(labels);
    let seat = match ctx.seat_wind {
        Some(t) => t,
        None => TileName::East,
    };
    let round = match ctx.round_wind {
        Some(t) => t,
        None => TileName::East,
    };
    let honors = [TileName::White, TileName::Green, TileName::Red, seat, round];
    proof {
        assert(honors@ == value_honors(*ctx));
    }
    let mut pairs: usize = 0;
    let mut k: usize = 0;
    while k < 5
        invariant
            0 <= k <= 5,
            honors@ == value_honors(*ctx),
            pairs == honor_pairs_held(counts@, honors@, k as int),
            pairs <= k,
            label_items(labels) == if pairs > 0 { push_label(l0, ValueLabel::Yakuhai) } else { l0 },
            l0.len() <= 2,
            !l0.contains(ValueLabel::Yakuhai),
        decreases 5 - k,
    {
        let h = honors[k];
        let c = counts[h.index()];
        proof {
            crate::tile::lemma_tile_index(h);
        }
        if c >= 2 {
            if pairs == 0 {
                push_label_exec(&mut labels, ValueLabel::Yakuhai);
            }
            pairs = pairs + 1;
        }
        k = k + 1;
    }
    han = han + pairs;
    proof {
        crate::score::lemma_score_inputs_fit(han as int, 30, false);
    }
    let score = calculate_score(han, 30, ctx.is_dealer, true, false);
    let r = ValueTally {
        total_score: score.total_points as u128,
        total_han: han as u128,
        samples: 1,
        labels,
        high_value: han >= 4,
    };
    proof {
        let v = rough_value(counts@, open_melds@, *ctx);
        assert(r.total_score == v.0 && r.total_han == v.1 && label_items(r.labels) == v.2);
    }
    r
}

proof fn lemma_iishanten_tally_frame(
    counts: Seq<u8>,
    melds: Seq<Meld>,
    ctx: AnalysisContext,
    tiles: Seq<TileName>,
    a: Seq<Option<(int, int)>>,
    b: Seq<Option<(int, int)>>,
    n: int,
)
    requires
        0 <= n <= a.len(),
        n <= b.len(),
        forall|i: int| 0 <= i < n ==> a[i] == b[i],
    ensures
        iishanten_tally(counts, melds, ctx, tiles, a, n) == iishanten_tally(counts, melds, ctx, tiles, b, n),
    decreases n,
{
    if n > 0 {
        lemma_iishanten_tally_frame(counts, melds, ctx, tiles, a, b, n - 1);
    }
}

/// The integer facts of one discard of a fourteen-tile hand: the tile, the
/// acceptance after it, its advancing tiles in order, the value estimate of
/// what is left and the danger of the discard.
pub struct CandidateFacts {
    pub discard_tile: TileName,
    pub acceptance: AcceptanceResult,
    pub accepted_tiles: ArrayVec<TileName, 34>,
    pub value: ValueTally,
    pub safety: SafetyVerdict,
}

/// The facts of discarding the tile of index `i` from the counts, the tiles
/// seen being `visible`.
pub fn evaluate_discard_candidate(
    counts: &[u8; 35],
    i: usize,
    open_melds: &[Meld],
    visible: &[u8; 35],
    ctx: &AnalysisContext,
) -> (r: CandidateFacts)
    requires
        1 <= i <= 34,
        counts@[i as int] > 0,
        open_melds@.len() <= 4,
        value_counts_fit(counts@, open_melds@),
        indicators_fit(*ctx),
    ensures
        r.discard_tile.id() == i,
        acceptance_ok(r.acceptance, remove_index(counts@, i as int), open_melds@.len() as int, visible@),
        tile_items(r.accepted_tiles).len() == wait_items(r.acceptance.waits).len(),
        forall|j: int|
            0 <= j < tile_items(r.accepted_tiles).len() ==> #[trigger] tile_items(r.accepted_tiles)[j].id()
                == wait_items(r.acceptance.waits)[j].0,
        value_ok(
            r.value,
            remove_index(counts@, i as int),
            r.acceptance.current_shanten as int,
            tile_items(r.accepted_tiles),
            open_melds@,
            *ctx,
        ),
        r.safety == safety_verdict(r.discard_tile, *ctx, visible@),
{
    let discard_tile = TileName::from_usize(i);
    let mut working = *counts;
    working[i] = working[i] - 1;
    proof {
        assert(working@ == remove_index(counts@, i as int));
        assert forall|k: int| 0 <= k < 35 implies working@[k] + #[trigger] crate::yaku::melds_tiles(open_melds@, k) + 2 <= 255 by {
            assert(counts@[k] + crate::yaku::melds_tiles(open_melds@, k) + 2 <= 255);
        }
    }
    let acceptance = calculate_acceptance(&working, open_melds.len(), Some(visible));
    let accepted_tiles = crate::acceptance::wait_tiles(&acceptance);
    let value = estimate_hand_value(&working, acceptance.current_shanten, tiles_as_slice(&accepted_tiles), open_melds, ctx);
    let safety = tile_safety_verdict(discard_tile, ctx, visible);
    CandidateFacts { discard_tile, acceptance, accepted_tiles, value, safety }
}

/// How many of players 0..n are in riichi, other than the analysed one.
pub open spec fn threats_upto(status: Seq<bool>, target: int, n: int) -> int
    decreases n,
{
    if n <= 0 {
        0
    } else {
        threats_upto(status, target, n - 1) + if is_threat(status, target, n - 1) { 1int } else { 0int }
    }
}

/// Player `p`, other than the analysed one, has called two melds or more,
/// one of them open.
pub open spec fn heavy_caller(melds: Seq<&[Meld]>, target: int, p: int) -> bool {
    p != target && p < melds.len() && spec_has_open_meld(melds[p]@) && melds[p]@.len() >= 2
}

/// How many of players 0..n are heavy callers.
pub open spec fn heavy_callers_upto(melds: Seq<&[Meld]>, target: int, n: int) -> int
    decreases n,
{
    if n <= 0 {
        0
    } else {
        heavy_callers_upto(melds, target, n - 1) + if heavy_caller(melds, target, n - 1) { 1int } else { 0int }
    }
}

/// What threatens the analysed player: how many others are in riichi,
/// whether one of them is a dealer, and how many others have called two
/// melds or more with one open.
pub struct ThreatSummary {
    pub riichi_count: usize,
    pub dealer_riichi: bool,
    pub heavy_callers: usize,
}

/// The threats to the analysed player.
pub fn threat_summary(ctx: &AnalysisContext) -> (r: ThreatSummary)
    ensures
        r.riichi_count == threats_upto(ctx.riichi_status@, ctx.target_player as int, 4),
        r.dealer_riichi == exists|p: int|
            #[trigger] is_threat(ctx.riichi_status@, ctx.target_player as int, p) && ctx.player_is_dealer@[p],
        r.heavy_callers == heavy_callers_upto(ctx.player_melds@, ctx.target_player as int, 4),
{
    let ghost status = ctx.riichi_status@;
    let ghost target = ctx.target_player as int;
    let mut riichi_count: usize = 0;
    let mut dealer_riichi = false;
    let mut heavy: usize = 0;
    let mut p: usize = 0;
    while p < 4
        invariant
            0 <= p <= 4,
            status == ctx.riichi_status@,
            target == ctx.target_player as int,
            riichi_count == threats_upto(status, target, p as int),
            riichi_count <= p,
            heavy == heavy_callers_upto(ctx.player_melds@, target, p as int),
            heavy <= p,
            dealer_riichi <==> exists|q: int| 0 <= q < p && #[trigger] is_threat(status, target, q) && ctx.player_is_dealer@[q],
        decreases 4 - p,
    {
        proof {
            assert(is_threat(status, target, p as int) == (p != ctx.target_player && ctx.riichi_status@[p as int]));
        }
        if p != ctx.target_player && ctx.riichi_status[p] {
            riichi_count = riichi_count + 1;
            if ctx.player_is_dealer[p] {
                dealer_riichi = true;
            }
        }
        if p != ctx.target_player && p < ctx.player_melds.len() {
            let m: &[Meld] = ctx.player_melds[p];
            if crate::hand::has_open_meld(m) && m.len() >= 2 {
                heavy = heavy + 1;
            }
        }
        proof {
            assert(forall|q: int| 0 <= q < p + 1 && #[trigger] is_threat(status, target, q) ==> q < p || q == p);
        }
        p = p + 1;
    }
    proof {
        assert forall|q: int| #[trigger] is_threat(status, target, q) implies 0 <= q < 4 by {}
    }
    ThreatSummary { riichi_count, dealer_riichi, heavy_callers: heavy }
}

/// A tile that every player in riichi has discarded is completely safe: no
/// risk at all.
pub proof fn lemma_genbutsu_safe(t: TileName, ctx: AnalysisContext, visible: Seq<u8>)
    requires
        any_threat(ctx.riichi_status@, ctx.target_player as int),
        safe_against_all(ctx.riichi_status@, ctx.target_player as int, ctx.player_rivers@, t),
    ensures
        safety_verdict(t, ctx, visible) == plain_verdict(0, true),
{
    let status = ctx.riichi_status@;
    let target = ctx.target_player as int;
    let p = choose|p: int| #[trigger] is_threat(status, target, p);
    assert(river_holds(ctx.player_rivers@, p, t));
    assert(safe_against_some(status, target, ctx.player_rivers@, t));
}

/// While nobody else is in riichi, an honor tile counts as safe.
pub proof fn lemma_calm_honor_safe(t: TileName, ctx: AnalysisContext, visible: Seq<u8>)
    requires
        !any_threat(ctx.riichi_status@, ctx.target_player as int),
        t.id() >= 28,
    ensures
        safety_verdict(t, ctx, visible).is_safe,
{
}

proof fn lemma_ready_agrees(w: Seq<u8>, open: int, d: int, r1: AcceptanceResult, r2: AcceptanceResult)
    requires
        w.len() == 35,
        1 <= d <= 34,
        w[d] > 0,
        acceptance_ok(r1, remove_index(w, d), open, remove_index(w, d)),
        acceptance_ok(r2, remove_index(w, d), open, remove_index(w, d)),
    ensures
        ready_with_wait(r1) == ready_with_wait(r2),
        wait_items(r1.waits) == wait_items(r2.waits),
{
    crate::acceptance::lemma_acceptance_determined(r1, r2, remove_index(w, d), open, remove_index(w, d));
}

/// The discard that makes a hand ready, and the first wait it leaves, are
/// determined: two answers that meet `ready_move_ok` are the same.
pub proof fn lemma_ready_move_determined(w: Seq<u8>, open: int, a: Option<(int, int)>, b: Option<(int, int)>)
    requires
        w.len() == 35,
        ready_move_ok(w, open, a),
        ready_move_ok(w, open, b),
    ensures
        a == b,
{
    match (a, b) {
        (None, None) => {},
        (None, Some((d, t))) => {
            lemma_ready_contradiction(w, open, d, t);
        },
        (Some((d, t)), None) => {
            lemma_ready_contradiction(w, open, d, t);
        },
        (Some((d1, t1)), Some((d2, t2))) => {
            if d1 < d2 {
                lemma_ready_contradiction(w, open, d1, t1);
            } else if d2 < d1 {
                lemma_ready_contradiction(w, open, d2, t2);
            } else {
                let r1 = choose|r: AcceptanceResult|
                    acceptance_ok(r, remove_index(w, d1), open, remove_index(w, d1)) && #[trigger] ready_with_wait(r)
                        && wait_items(r.waits)[0].0 == t1;
                let r2 = choose|r: AcceptanceResult|
                    acceptance_ok(r, remove_index(w, d1), open, remove_index(w, d1)) && #[trigger] ready_with_wait(r)
                        && wait_items(r.waits)[0].0 == t2;
                lemma_ready_agrees(w, open, d1, r1, r2);
            }
        },
    }
}

/// A discard cannot both leave the hand ready (with first wait `t`) and not.
proof fn lemma_ready_contradiction(w: Seq<u8>, open: int, d: int, t: int)
    requires
        w.len() == 35,
        1 <= d <= 34,
        w[d] > 0,
        ready_after(w, open, d, t),
    ensures
        !not_ready_after(w, open, d),
{
    if not_ready_after(w, open, d) {
        let r1 = choose|r: AcceptanceResult|
            acceptance_ok(r, remove_index(w, d), open, remove_index(w, d)) && #[trigger] ready_with_wait(r)
                && wait_items(r.waits)[0].0 == t;
        let r2 = choose|r: AcceptanceResult|
            acceptance_ok(r, remove_index(w, d), open, remove_index(w, d)) && !#[trigger] ready_with_wait(r);
        lemma_ready_agrees(w, open, d, r1, r2);
    }
}

} // verus!
