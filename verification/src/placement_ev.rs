//! Placement: ranking rules, the score situation of a match, the last-round
//! conditions to move up, and the expected loss when dealing in.
use vstd::prelude::*;
use crate::tile::TileName;
use crate::expectation::AnalysisContext;
use crate::text::{push_int, int_text};

verus! {

/// Placement rules: starting score, return score, placement bonus by rank
/// and the top bonus.
#[derive(Debug, Clone, Copy, PartialEq)]
pub struct RuleConfig {
    pub origin_score: i32,
    pub return_score: i32,
    pub uma: [i32; 4],
    pub oka: i32,
}

impl Default for RuleConfig {
    /// The M-League rules.
    fn default() -> (r: RuleConfig)
        ensures
            r.origin_score == 25000,
            r.return_score == 30000,
            r.uma@ == seq![50i32, 10i32, -10i32, -30i32],
            r.oka == 0,
    {
        RuleConfig::mleague()
    }
}

impl RuleConfig {
    /// M-League: +50 / +10 / -10 / -30, 25,000 to start, 30,000 returned,
    /// the top bonus inside the first placement bonus.
    pub fn mleague() -> (r: RuleConfig)
        ensures
            r.origin_score == 25000,
            r.return_score == 30000,
            r.uma@ == seq![50i32, 10i32, -10i32, -30i32],
            r.oka == 0,
    {
        let r = RuleConfig { origin_score: 25000, return_score: 30000, uma: [50, 10, -10, -30], oka: 0 };
        assert(r.uma@ =~= seq![50i32, 10i32, -10i32, -30i32]);
        r
    }

    /// Common rules: +20 / +10 / -10 / -20, 25,000 to start, 30,000
    /// returned, a top bonus of 20.
    pub fn general() -> (r: RuleConfig)
        ensures
            r.origin_score == 25000,
            r.return_score == 30000,
            r.uma@ == seq![20i32, 10i32, -10i32, -20i32],
            r.oka == 20,
    {
        let r = RuleConfig { origin_score: 25000, return_score: 30000, uma: [20, 10, -10, -20], oka: 20 };
        assert(r.uma@ =~= seq![20i32, 10i32, -10i32, -20i32]);
        r
    }

    /// Ranked rules that punish the last place: +45 / 0 / -45 / -90,
    /// 25,000 to start, 30,000 returned, a top bonus of 20.
    pub fn tenhou_dan() -> (r: RuleConfig)
        ensures
            r.origin_score == 25000,
            r.return_score == 30000,
            r.uma@ == seq![45i32, 0i32, -45i32, -90i32],
            r.oka == 20,
    {
        let r = RuleConfig { origin_score: 25000, return_score: 30000, uma: [45, 0, -45, -90], oka: 20 };
        assert(r.uma@ =~= seq![45i32, 0i32, -45i32, -90i32]);
        r
    }
}

/// The score situation of a match, seat 0 being the player.
#[derive(Debug, Clone, PartialEq)]
pub struct MatchContext {
    /// The four scores (0: the player, 1: right, 2: across, 3: left).
    pub scores: [i32; 4],
    /// East or South.
    pub round_wind: TileName,
    /// The hand within the round (1..=4).
    pub round_number: u8,
    pub honba: u8,
    pub riichi_sticks: u8,
    /// The dealer's seat (0..4).
    pub dealer_idx: usize,
    pub rule: RuleConfig,
}

impl Default for MatchContext {
    /// East 1, four players at 25,000, nothing on the table, seat 0 dealing,
    /// M-League rules.
    fn default() -> (c: MatchContext)
        ensures
            c.scores@ == seq![25000i32, 25000, 25000, 25000],
            c.round_wind == TileName::East,
            c.round_number == 1,
            c.honba == 0,
            c.riichi_sticks == 0,
            c.dealer_idx == 0,
            c.rule.origin_score == 25000,
            c.rule.return_score == 30000,
            c.rule.uma@ == seq![50i32, 10i32, -10i32, -30i32],
            c.rule.oka == 0,
    {
        let c = MatchContext {
            scores: [25000, 25000, 25000, 25000],
            round_wind: TileName::East,
            round_number: 1,
            honba: 0,
            riichi_sticks: 0,
            dealer_idx: 0,
            rule: RuleConfig::mleague(),
        };
        assert(c.scores@ =~= seq![25000i32, 25000, 25000, 25000]);
        c
    }
}

/// Player `q` stands above player `p`: a higher score, or the same score
/// and an earlier seat.
pub open spec fn above(s: Seq<i32>, q: int, p: int) -> bool {
    s[q] > s[p] || (s[q] == s[p] && q < p)
}

/// The rank (1..=4) of player `p`: one more than the players above.
pub open spec fn rank_of(s: Seq<i32>, p: int) -> int {
    1 + (if above(s, 0, p) { 1int } else { 0int }) + (if above(s, 1, p) { 1int } else { 0int }) + (if above(
        s,
        2,
        p,
    ) { 1int } else { 0int }) + (if above(s, 3, p) { 1int } else { 0int })
}

/// The first seat with rank `r`, or -1.
pub open spec fn seat_with_rank(s: Seq<i32>, r: int) -> int {
    if rank_of(s, 0) == r {
        0
    } else if rank_of(s, 1) == r {
        1
    } else if rank_of(s, 2) == r {
        2
    } else if rank_of(s, 3) == r {
        3
    } else {
        -1
    }
}

/// Ranks are 1 to 4 and no two players share one.
pub proof fn lemma_ranks_distinct(s: Seq<i32>, p: int, q: int)
    requires
        s.len() == 4,
        0 <= p < 4,
        0 <= q < 4,
        p != q,
    ensures
        1 <= rank_of(s, p) <= 4,
        rank_of(s, p) != rank_of(s, q),
{
}

/// Every rank from 1 to 4 is held by some seat.
pub proof fn lemma_rank_held(s: Seq<i32>, r: int)
    requires
        s.len() == 4,
        1 <= r <= 4,
    ensures
        0 <= seat_with_rank(s, r) < 4,
        rank_of(s, seat_with_rank(s, r)) == r,
{
    lemma_ranks_distinct(s, 0, 1);
    lemma_ranks_distinct(s, 0, 2);
    lemma_ranks_distinct(s, 0, 3);
    lemma_ranks_distinct(s, 1, 2);
    lemma_ranks_distinct(s, 1, 3);
    lemma_ranks_distinct(s, 2, 3);
    lemma_ranks_distinct(s, 3, 0);
}

/// The differences of the scores fit in an `i32`, with room for one more.
pub open spec fn scores_fit(s: Seq<i32>) -> bool {
    forall|i: int, j: int| 0 <= i < 4 && 0 <= j < 4 ==> i32::MIN < #[trigger] s[i] - #[trigger] s[j] < i32::MAX
}

impl MatchContext {
    /// Each player's current rank (1..=4); equal scores go to the earlier seat.
    pub fn current_ranks(&self) -> (r: [usize; 4])
        ensures
            forall|p: int| 0 <= p < 4 ==> #[trigger] r@[p] == rank_of(self.scores@, p),
    {
        let mut ranks = [0usize; 4];
        let mut p: usize = 0;
        while p < 4
            invariant
                p <= 4,
                forall|k: int| 0 <= k < p ==> #[trigger] ranks@[k] == rank_of(self.scores@, k),
            decreases 4 - p,
        {
            let mut r: usize = 1;
            let mut q: usize = 0;
            while q < 4
                invariant
                    q <= 4,
                    p < 4,
                    r == 1 + (if q > 0 && above(self.scores@, 0, p as int) { 1int } else { 0int }) + (if q > 1
                        && above(self.scores@, 1, p as int) { 1int } else { 0int }) + (if q > 2 && above(
                        self.scores@,
                        2,
                        p as int,
                    ) { 1int } else { 0int }) + (if q > 3 && above(self.scores@, 3, p as int) {
                        1int
                    } else {
                        0int
                    }),
                decreases 4 - q,
            {
                if self.scores[q] > self.scores[p] || (self.scores[q] == self.scores[p] && q < p) {
                    r = r + 1;
                }
                q = q + 1;
            }
            ranks[p] = r;
            p = p + 1;
        }
        ranks
    }

    /// The score of `target` minus that of `p`.
    pub fn score_diff(&self, p: usize, target: usize) -> (d: i32)
        requires
            p < 4,
            target < 4,
            i32::MIN <= self.scores[target as int] - self.scores[p as int] <= i32::MAX,
        ensures
            d == self.scores[target as int] - self.scores[p as int],
    {
        self.scores[target] - self.scores[p]
    }

    /// The last hand of the match: South 4.
    pub fn is_orasu(&self) -> (b: bool)
        ensures
            b == (self.round_wind == TileName::South && self.round_number == 4),
    {
        self.round_wind == TileName::South && self.round_number == 4
    }

    /// About how many hands are left: 8 less the hands played so far (East
    /// n counts n, South n counts 4 + n, any other wind 8), at least 1.
    pub fn remaining_rounds(&self) -> (n: usize)
        ensures
            n == ({
                let cur: int = if self.round_wind == TileName::East {
                    self.round_number as int
                } else if self.round_wind == TileName::South {
                    4 + self.round_number
                } else {
                    8
                };
                if 8 - cur > 1 { 8 - cur } else { 1 }
            }),
    {
        let current_index: usize = match self.round_wind {
            TileName::East => self.round_number as usize,
            TileName::South => 4 + self.round_number as usize,
            _ => 8,
        };
        let left: usize = if current_index < 8 { 8 - current_index } else { 0 };
        if left > 1 { left } else { 1 }
    }
}

/// A condition to move up at the last hand.
#[derive(Debug, Clone, PartialEq)]
pub struct WinCondition {
    /// The rank aimed at.
    pub target_rank: usize,
    /// The player to overtake.
    pub target_player: usize,
    /// Their score minus the player's.
    pub diff: i32,
    /// The least standard win that does it by ron from that player.
    pub ron_direct_req: Option<i32>,
    /// The least standard win that does it by self-draw.
    pub tsumo_req: Option<i32>,
    /// The least standard win that does it by ron from another player.
    pub ron_other_req: Option<i32>,
    /// A summary, in Japanese.
    pub summary: String,
}

/// What a win has to reach to overtake.
#[derive(Debug, Clone, Copy)]
pub enum Requirement {
    /// By ron from the player to overtake: they lose what the winner gains.
    Direct { need: i64, honba_bonus: i64, kyotaku: i64 },
    /// By self-draw: the player to overtake pays their share.
    Tsumo {
        need: i64,
        honba_bonus: i64,
        kyotaku: i64,
        honba: i64,
        is_dealer: bool,
        target_is_dealer: bool,
    },
    /// By ron from someone else.
    Other { need: i64, honba_bonus: i64, kyotaku: i64 },
}

/// What the player to overtake pays of a self-draw worth `total`: a third
/// when the winner deals, half when they deal, a quarter otherwise.
pub open spec fn tsumo_share(total: int, is_dealer: bool, target_is_dealer: bool) -> int {
    if is_dealer {
        total / 3
    } else if target_is_dealer {
        total / 2
    } else {
        total / 4
    }
}

/// The share the player to overtake pays of a self-draw.
fn estimate_tsumo_target_payment(total_score: i32, is_dealer: bool, target_is_dealer: bool) -> (r: i32)
    requires
        total_score >= 0,
    ensures
        r == tsumo_share(total_score as int, is_dealer, target_is_dealer),
{
    if is_dealer {
        total_score / 3
    } else if target_is_dealer {
        total_score / 2
    } else {
        total_score / 4
    }
}

/// The shares of a self-draw add up to its value: a dealer's win is paid
/// in three equal shares; a non-dealer's by the dealer paying half and the
/// two others a quarter each, so the dealer pays twice what another pays.
pub proof fn law_tsumo_shares_add_up(total: int, target_is_dealer: bool)
    requires
        total >= 0,
    ensures
        total % 3 == 0 ==> 3 * tsumo_share(total, true, target_is_dealer) == total,
        total % 4 == 0 ==> tsumo_share(total, false, true) + 2 * tsumo_share(total, false, false) == total,
        total % 4 == 0 ==> tsumo_share(total, false, true) == 2 * tsumo_share(total, false, false),
{
}

/// A self-draw worth `x` overtakes when the points the winner gains (the
/// win, 300 a honba and the riichi sticks) and those the overtaken player
/// pays (their share and 100 a honba) close the gap: the dealer pays half
/// of a non-dealer's win, another player a quarter, and each player a
/// third of the dealer's win.
pub proof fn law_tsumo_overtake(ctx: MatchContext, p: int, t: int, x: int)
    requires
        x >= 0,
    ensures
        ({
            let d = ctx.dealer_idx as int;
            let share = if p == d { x / 3 } else if t == d { x / 2 } else { x / 4 };
            meets(tsumo_requirement(ctx, p, t), x) <==> x + ctx.honba * 300 + ctx.riichi_sticks * 1000 + share
                + ctx.honba * 100 >= need_of(ctx.scores@, p, t)
        }),
{
}

/// The requirement a condition names is the least standard value that
/// meets it: the first value of the table that does, none if none does.
pub proof fn law_first_meeting_is_least(c: Seq<i32>, req: Requirement, i: int)
    requires
        0 <= i <= c.len(),
    ensures
        first_meeting(c, i, req) matches Some(v) ==> meets(req, v as int) && exists|k: int| i <= k < c.len() && c[k] == v
            && forall|j: int| i <= j < k ==> !meets(req, #[trigger] c[j] as int),
        first_meeting(c, i, req) is None ==> forall|j: int| i <= j < c.len() ==> !meets(req, #[trigger] c[j] as int),
    decreases c.len() - i,
{
    if i < c.len() {
        law_first_meeting_is_least(c, req, i + 1);
        if !meets(req, c[i] as int) {
            if let Some(v) = first_meeting(c, i + 1, req) {
                let k = choose|k: int| i + 1 <= k < c.len() && c[k] == v
                    && forall|j: int| i + 1 <= j < k ==> !meets(req, #[trigger] c[j] as int);
                assert forall|j: int| i <= j < k implies !meets(req, #[trigger] c[j] as int) by {
                    if j > i {
                    }
                }
            }
        } else {
            assert forall|j: int| i <= j < i implies !meets(req, #[trigger] c[j] as int) by {}
        }
    }
}

/// A win worth `x` meets the requirement.
pub open spec fn meets(req: Requirement, x: int) -> bool {
    match req {
        Requirement::Direct { need, honba_bonus, kyotaku } => 2 * x + 2 * honba_bonus + kyotaku >= need,
        Requirement::Tsumo { need, honba_bonus, kyotaku, honba, is_dealer, target_is_dealer } => x + honba_bonus
            + kyotaku + tsumo_share(x, is_dealer, target_is_dealer) + honba * 100 >= need,
        Requirement::Other { need, honba_bonus, kyotaku } => x + honba_bonus + kyotaku >= need,
    }
}

/// The bonuses of a requirement are small.
pub open spec fn requirement_small(req: Requirement) -> bool {
    match req {
        Requirement::Direct { need, honba_bonus, kyotaku } => 0 <= honba_bonus <= 100_000 && 0 <= kyotaku
            <= 300_000 && -10_000_000_000 <= need <= 10_000_000_000,
        Requirement::Tsumo { need, honba_bonus, kyotaku, honba, .. } => 0 <= honba_bonus <= 100_000 && 0
            <= kyotaku <= 300_000 && 0 <= honba <= 1000 && -10_000_000_000 <= need <= 10_000_000_000,
        Requirement::Other { need, honba_bonus, kyotaku } => 0 <= honba_bonus <= 100_000 && 0 <= kyotaku
            <= 300_000 && -10_000_000_000 <= need <= 10_000_000_000,
    }
}

fn meets_exec(req: &Requirement, x: i32) -> (b: bool)
    requires
        0 <= x <= 48000,
        requirement_small(*req),
    ensures
        b == meets(*req, x as int),
{
    match *req {
        Requirement::Direct { need, honba_bonus, kyotaku } => 2 * (x as i64) + 2 * honba_bonus + kyotaku >= need,
        Requirement::Tsumo { need, honba_bonus, kyotaku, honba, is_dealer, target_is_dealer } => {
            let share = estimate_tsumo_target_payment(x, is_dealer, target_is_dealer) as i64;
            (x as i64) + honba_bonus + kyotaku + share + honba * 100 >= need
        },
        Requirement::Other { need, honba_bonus, kyotaku } => (x as i64) + honba_bonus + kyotaku >= need,
    }
}

/// The standard win values: for a dealer; for a non-dealer by self-draw;
/// for a non-dealer by ron.
pub open spec fn standard_scores(is_dealer: bool, is_tsumo: bool) -> Seq<i32> {
    if is_dealer {
        seq![1500i32, 2000, 2400, 2900, 3900, 4800, 5800, 7700, 9600, 11600, 12000, 18000, 24000, 36000, 48000]
    } else if is_tsumo {
        seq![1000i32, 1500, 2000, 2600, 2700, 3900, 5200, 8000, 12000, 16000, 24000, 32000]
    } else {
        seq![1000i32, 1300, 1600, 2000, 2600, 3200, 3900, 5200, 6400, 7700, 8000, 12000, 16000, 24000, 32000]
    }
}

/// The first value of `c` from index `i` on that meets the requirement.
pub open spec fn first_meeting(c: Seq<i32>, i: int, req: Requirement) -> Option<i32>
    decreases c.len() - i,
{
    if i < 0 || i >= c.len() {
        None
    } else if meets(req, c[i] as int) {
        Some(c[i])
    } else {
        first_meeting(c, i + 1, req)
    }
}

fn standard_score_table(is_dealer: bool, is_tsumo: bool) -> (v: Vec<i32>)
    ensures
        v@ == standard_scores(is_dealer, is_tsumo),
{
    let v = if is_dealer {
        vec![1500i32, 2000, 2400, 2900, 3900, 4800, 5800, 7700, 9600, 11600, 12000, 18000, 24000, 36000, 48000]
    } else if is_tsumo {
        vec![1000i32, 1500, 2000, 2600, 2700, 3900, 5200, 8000, 12000, 16000, 24000, 32000]
    } else {
        vec![1000i32, 1300, 1600, 2000, 2600, 3200, 3900, 5200, 6400, 7700, 8000, 12000, 16000, 24000, 32000]
    };
    assert(v@ =~= standard_scores(is_dealer, is_tsumo));
    v
}

/// The least standard win value that meets the requirement, if any.
fn find_min_standard_score(req: &Requirement, is_dealer: bool, is_tsumo: bool) -> (r: Option<i32>)
    requires
        requirement_small(*req),
    ensures
        r == first_meeting(standard_scores(is_dealer, is_tsumo), 0, *req),
{
    let table = standard_score_table(is_dealer, is_tsumo);
    let mut i: usize = 0;
    while i < table.len()
        invariant
            i <= table.len(),
            table@ == standard_scores(is_dealer, is_tsumo),
            requirement_small(*req),
            first_meeting(table@, 0, *req) == first_meeting(table@, i as int, *req),
            forall|k: int| 0 <= k < table.len() ==> 0 <= #[trigger] table@[k] <= 48000,
        decreases table.len() - i,
    {
        if meets_exec(req, table[i]) {
            return Some(table[i]);
        }
        i = i + 1;
    }
    None
}

/// A win value in words: the limit names from mangan up, the points below.
pub open spec fn requirement_text(req: Option<i32>) -> Seq<char> {
    match req {
        Some(s) => if s >= 32000 {
            "役満"@
        } else if s >= 24000 {
            "三倍満"@
        } else if s >= 16000 {
            "倍満"@
        } else if s >= 12000 {
            "跳満"@
        } else if s >= 8000 {
            "満貫"@
        } else {
            int_text(s as int) + "点"@
        },
        None => "条件なし(不可)"@,
    }
}

/// A win value in words (see `requirement_text`).
fn format_score_requirement(req: Option<i32>) -> (s: String)
    ensures
        s@ == requirement_text(req),
{
    match req {
        Some(v) => {
            if v >= 32000 {
                "役満".to_owned()
            } else if v >= 24000 {
                "三倍満".to_owned()
            } else if v >= 16000 {
                "倍満".to_owned()
            } else if v >= 12000 {
                "跳満".to_owned()
            } else if v >= 8000 {
                "満貫".to_owned()
            } else {
                let mut s = String::new();
                push_int(&mut s, v as i64);
                s.append("点");
                proof {
                    assert(s@ =~= requirement_text(req));
                }
                s
            }
        },
        None => "条件なし(不可)".to_owned(),
    }
}

/// The summary for the player in the lead.
pub open spec fn top_summary(lead: int) -> Seq<char> {
    "👑 現在トップ目！ 2位と "@ + int_text(lead) + "点差のリード（局消化・守備優先）"@
}

/// The summary of a condition to move up.
pub open spec fn condition_summary(
    target_rank: int,
    diff: int,
    direct: Option<i32>,
    tsumo: Option<i32>,
    other: Option<i32>,
) -> Seq<char> {
    int_text(target_rank) + "位への逆転条件 (点差: "@ + int_text(diff) + "点) -> 直撃: "@ + requirement_text(direct)
        + " | ツモ: "@ + requirement_text(tsumo) + " | 脇: "@ + requirement_text(other)
}

fn build_top_summary(lead: i32) -> (s: String)
    ensures
        s@ == top_summary(lead as int),
{
    let mut s = String::new();
    s.append("👑 現在トップ目！ 2位と ");
    push_int(&mut s, lead as i64);
    s.append("点差のリード（局消化・守備優先）");
    assert(s@ =~= top_summary(lead as int));
    s
}

fn build_condition_summary(target_rank: usize, diff: i32, direct: Option<i32>, tsumo: Option<i32>, other: Option<i32>) -> (s: String)
    requires
        target_rank <= 4,
    ensures
        s@ == condition_summary(target_rank as int, diff as int, direct, tsumo, other),
{
    let mut s = String::new();
    push_int(&mut s, target_rank as i64);
    s.append("位への逆転条件 (点差: ");
    push_int(&mut s, diff as i64);
    s.append("点) -> 直撃: ");
    let d = format_score_requirement(direct);
    s.append(d.as_str());
    s.append(" | ツモ: ");
    let t = format_score_requirement(tsumo);
    s.append(t.as_str());
    s.append(" | 脇: ");
    let o = format_score_requirement(other);
    s.append(o.as_str());
    assert(s@ =~= condition_summary(target_rank as int, diff as int, direct, tsumo, other));
    s
}

/// The points the player needs to overtake seat `t`: the difference, one
/// more unless the player sits earlier (and so wins ties).
pub open spec fn need_of(s: Seq<i32>, p: int, t: int) -> int {
    if p < t { s[t] - s[p] } else { s[t] - s[p] + 1 }
}

/// Ron from the player to overtake.
pub open spec fn direct_requirement(ctx: MatchContext, p: int, t: int) -> Requirement {
    Requirement::Direct {
        need: need_of(ctx.scores@, p, t) as i64,
        honba_bonus: (ctx.honba * 300) as i64,
        kyotaku: (ctx.riichi_sticks * 1000) as i64,
    }
}

/// Self-draw.
pub open spec fn tsumo_requirement(ctx: MatchContext, p: int, t: int) -> Requirement {
    Requirement::Tsumo {
        need: need_of(ctx.scores@, p, t) as i64,
        honba_bonus: (ctx.honba * 300) as i64,
        kyotaku: (ctx.riichi_sticks * 1000) as i64,
        honba: ctx.honba as i64,
        is_dealer: p == ctx.dealer_idx,
        target_is_dealer: t == ctx.dealer_idx,
    }
}

/// Ron from another player.
pub open spec fn other_requirement(ctx: MatchContext, p: int, t: int) -> Requirement {
    Requirement::Other {
        need: need_of(ctx.scores@, p, t) as i64,
        honba_bonus: (ctx.honba * 300) as i64,
        kyotaku: (ctx.riichi_sticks * 1000) as i64,
    }
}

/// The condition to overtake the player of rank `tr`.
pub open spec fn condition_ok(c: WinCondition, ctx: MatchContext, p: int, tr: int) -> bool {
    let s = ctx.scores@;
    let t = seat_with_rank(s, tr);
    let is_dealer = p == ctx.dealer_idx;
    &&& c.target_rank == tr
    &&& c.target_player == t
    &&& c.diff == s[t] - s[p]
    &&& c.ron_direct_req == first_meeting(standard_scores(is_dealer, false), 0, direct_requirement(ctx, p, t))
    &&& c.tsumo_req == first_meeting(standard_scores(is_dealer, true), 0, tsumo_requirement(ctx, p, t))
    &&& c.ron_other_req == first_meeting(standard_scores(is_dealer, false), 0, other_requirement(ctx, p, t))
    &&& c.summary@ == condition_summary(tr, s[t] - s[p], c.ron_direct_req, c.tsumo_req, c.ron_other_req)
}

/// The last-hand conditions of the player at seat `player_idx`: for the
/// leader, one entry on the lead over second place; otherwise one entry for
/// each rank above, from first place down, with the least standard win
/// that overtakes by ron from that player, by self-draw and by ron from
/// another player.
pub fn calculate_orasu_conditions(ctx: &MatchContext, player_idx: usize) -> (r: Vec<WinCondition>)
    requires
        player_idx < 4,
        scores_fit(ctx.scores@),
    ensures
        rank_of(ctx.scores@, player_idx as int) == 1 ==> {
            let s = ctx.scores@;
            let second = seat_with_rank(s, 2);
            &&& r@.len() == 1
            &&& r@[0].target_rank == 1
            &&& r@[0].target_player == second
            &&& r@[0].diff == s[second] - s[player_idx as int]
            &&& r@[0].ron_direct_req is None
            &&& r@[0].tsumo_req is None
            &&& r@[0].ron_other_req is None
            &&& r@[0].summary@ == top_summary(s[player_idx as int] - s[second])
        },
        rank_of(ctx.scores@, player_idx as int) != 1 ==> {
            &&& r@.len() == rank_of(ctx.scores@, player_idx as int) - 1
            &&& forall|k: int| 0 <= k < r@.len() ==> condition_ok(#[trigger] r@[k], *ctx, player_idx as int, k + 1)
        },
{
    let ranks = ctx.current_ranks();
    let ghost s = ctx.scores@;
    let p = player_idx;
    let my_rank = ranks[p];
    proof {
        crate::placement_ev::lemma_ranks_distinct(s, p as int, if p == 0 { 1 } else { 0 });
    }
    let mut conditions: Vec<WinCondition> = Vec::new();
    if my_rank == 1 {
        let mut second: usize = 0;
        while second < 4 && ranks[second] != 2
            invariant
                second <= 4,
                forall|k: int| 0 <= k < second ==> rank_of(s, k) != 2,
                forall|k: int| 0 <= k < 4 ==> #[trigger] ranks@[k] == rank_of(s, k),
                s == ctx.scores@,
            decreases 4 - second,
        {
            second = second + 1;
        }
        proof {
            lemma_rank_held(s, 2);
        }
        assert(second as int == seat_with_rank(s, 2));
        let lead = ctx.scores[p] - ctx.scores[second];
        let summary = build_top_summary(lead);
        conditions.push(WinCondition {
            target_rank: 1,
            target_player: second,
            diff: -lead,
            ron_direct_req: None,
            tsumo_req: None,
            ron_other_req: None,
            summary,
        });
        return conditions;
    }
    let is_dealer = p == ctx.dealer_idx;
    let honba_bonus: i64 = (ctx.honba as i64) * 300;
    let kyotaku_bonus: i64 = (ctx.riichi_sticks as i64) * 1000;
    let mut target_rank: usize = 1;
    while target_rank < my_rank
        invariant
            1 <= target_rank <= my_rank,
            my_rank <= 4,
            my_rank == rank_of(s, p as int),
            s == ctx.scores@,
            p < 4,
            is_dealer == (p == ctx.dealer_idx),
            honba_bonus == ctx.honba * 300,
            kyotaku_bonus == ctx.riichi_sticks * 1000,
            scores_fit(s),
            forall|k: int| 0 <= k < 4 ==> #[trigger] ranks@[k] == rank_of(s, k),
            conditions@.len() == target_rank - 1,
            forall|k: int| 0 <= k < conditions@.len() ==> condition_ok(#[trigger] conditions@[k], *ctx, p as int, k + 1),
        decreases my_rank - target_rank,
    {
        let mut t: usize = 0;
        while t < 4 && ranks[t] != target_rank
            invariant
                t <= 4,
                forall|k: int| 0 <= k < t ==> rank_of(s, k) != target_rank,
                forall|k: int| 0 <= k < 4 ==> #[trigger] ranks@[k] == rank_of(s, k),
                s == ctx.scores@,
            decreases 4 - t,
        {
            t = t + 1;
        }
        proof {
            lemma_rank_held(s, target_rank as int);
        }
        assert(t as int == seat_with_rank(s, target_rank as int));
        assert(i32::MIN < s[t as int] - s[p as int] < i32::MAX);
        let diff: i32 = ctx.scores[t] - ctx.scores[p];
        let need: i64 = if p < t { diff as i64 } else { diff as i64 + 1 };
        let target_is_dealer = t == ctx.dealer_idx;
        let direct_req = Requirement::Direct { need, honba_bonus, kyotaku: kyotaku_bonus };
        let tsumo_req = Requirement::Tsumo {
            need,
            honba_bonus,
            kyotaku: kyotaku_bonus,
            honba: ctx.honba as i64,
            is_dealer,
            target_is_dealer,
        };
        let other_req = Requirement::Other { need, honba_bonus, kyotaku: kyotaku_bonus };
        let ron_direct = find_min_standard_score(&direct_req, is_dealer, false);
        let tsumo = find_min_standard_score(&tsumo_req, is_dealer, true);
        let ron_other = find_min_standard_score(&other_req, is_dealer, false);
        let summary = build_condition_summary(target_rank, diff, ron_direct, tsumo, ron_other);
        let cond = WinCondition {
            target_rank,
            target_player: t,
            diff,
            ron_direct_req: ron_direct,
            tsumo_req: tsumo,
            ron_other_req: ron_other,
            summary,
        };
        proof {
            assert(direct_req == direct_requirement(*ctx, p as int, t as int));
            assert(tsumo_req == tsumo_requirement(*ctx, p as int, t as int));
            assert(other_req == other_requirement(*ctx, p as int, t as int));
            assert(condition_ok(cond, *ctx, p as int, target_rank as int));
        }
        conditions.push(cond);
        target_rank = target_rank + 1;
    }
    conditions
}

/// Some other player than `p` has declared riichi.
pub open spec fn riichi_opponent(riichi: Seq<bool>, p: int) -> bool {
    exists|q: int| 0 <= q < 4 && q != p && #[trigger] riichi[q]
}

/// Some other player than `p` in riichi is the dealer.
pub open spec fn dealer_riichi(riichi: Seq<bool>, is_dealer: Seq<bool>, dealer_idx: int, p: int) -> bool {
    exists|q: int| 0 <= q < 4 && q != p && #[trigger] riichi[q] && (q == dealer_idx || is_dealer[q])
}

/// The points the player expects to lose when dealing in: 12,000 against a
/// dealer's riichi, 8,000 against another riichi, otherwise 9,600 when
/// someone else deals and 5,200 when the player deals; 300 more per honba.
pub fn estimate_expected_deal_loss(match_ctx: &MatchContext, analysis_ctx: &AnalysisContext, player_idx: usize) -> (loss: i32)
    ensures
        loss == (if dealer_riichi(analysis_ctx.riichi_status@, analysis_ctx.player_is_dealer@, match_ctx.dealer_idx as int, player_idx as int) {
            12000int
        } else if riichi_opponent(analysis_ctx.riichi_status@, player_idx as int) {
            8000int
        } else if match_ctx.dealer_idx != player_idx {
            9600int
        } else {
            5200int
        }) + match_ctx.honba * 300,
{
    let mut has_any_riichi = false;
    let mut has_dealer_riichi = false;
    let mut q: usize = 0;
    while q < 4
        invariant
            q <= 4,
            has_any_riichi == exists|j: int| 0 <= j < q && j != player_idx && #[trigger] analysis_ctx.riichi_status@[j],
            has_dealer_riichi == exists|j: int|
                0 <= j < q && j != player_idx && #[trigger] analysis_ctx.riichi_status@[j] && (j == match_ctx.dealer_idx
                    || analysis_ctx.player_is_dealer@[j]),
        decreases 4 - q,
    {
        if q != player_idx && analysis_ctx.riichi_status[q] {
            has_any_riichi = true;
            if q == match_ctx.dealer_idx || analysis_ctx.player_is_dealer[q] {
                has_dealer_riichi = true;
            }
        }
        q = q + 1;
    }
    let honba_pts = (match_ctx.honba as i32) * 300;
    let base_points: i32 = if has_dealer_riichi {
        12000
    } else if has_any_riichi {
        8000
    } else if match_ctx.dealer_idx != player_idx {
        9600
    } else {
        5200
    };
    base_points + honba_pts
}

/// The tactical note for a player at rank `current_rank` with `my_score`
/// points: in the last hand, by rank (leader, last, between); otherwise for
/// a leader with 35,000 or more (a riskless discard or not), for the last
/// with 15,000 or less, and for everyone else.
pub open spec fn situational_note_text(current_rank: int, is_orasu: bool, my_score: int, no_risk: bool) -> Seq<char> {
    if is_orasu {
        if current_rank == 1 {
            "【オーラス・トップ目】放銃による着落ちが最大の敗因となります。安手でもアガリきりによる逃げ切り、または完全現物による守備が絶対正義です。"@
        } else if current_rank == 4 {
            "【オーラス・ラス目】安手のアガリでは着順が浮上しません。逆転条件を満たす打点作り（役牌・ドラ・染め手・リーチ）に特化してください。"@
        } else {
            "【オーラス・着順浮上戦】直撃・ツモ条件を意識しつつ、下位からの逆転放銃を厳戒してください。"@
        }
    } else if current_rank == 1 && my_score >= 35000 {
        if no_risk {
            "【トップ目防衛】大きなリードを持っています。危険牌を抱え込まず、速度と安全度を最優先して局を消化します。"@
        } else {
            "【トップ目押し引き】失点リスクを極力抑えたい場面です。他家の動向に注意してください。"@
        }
    } else if current_rank == 4 && my_score <= 15000 {
        "【ラス目挽回】点差が開いているため、満貫以上の高打点ルートを強く意識します。"@
    } else {
        "【通常進行】素点効率とスピードのバランスを保ちつつ手を進めます。"@
    }
}

/// The tactical note for the player's standing (see
/// `situational_note_text`); `no_risk` tells whether the discard weighed
/// carries no risk at all.
pub fn situational_note(current_rank: usize, is_orasu: bool, my_score: i32, no_risk: bool) -> (s: String)
    ensures
        s@ == situational_note_text(current_rank as int, is_orasu, my_score as int, no_risk),
{
    if is_orasu {
        if current_rank == 1 {
            "【オーラス・トップ目】放銃による着落ちが最大の敗因となります。安手でもアガリきりによる逃げ切り、または完全現物による守備が絶対正義です。".to_owned()
        } else if current_rank == 4 {
            "【オーラス・ラス目】安手のアガリでは着順が浮上しません。逆転条件を満たす打点作り（役牌・ドラ・染め手・リーチ）に特化してください。".to_owned()
        } else {
            "【オーラス・着順浮上戦】直撃・ツモ条件を意識しつつ、下位からの逆転放銃を厳戒してください。".to_owned()
        }
    } else if current_rank == 1 && my_score >= 35000 {
        if no_risk {
            "【トップ目防衛】大きなリードを持っています。危険牌を抱え込まず、速度と安全度を最優先して局を消化します。".to_owned()
        } else {
            "【トップ目押し引き】失点リスクを極力抑えたい場面です。他家の動向に注意してください。".to_owned()
        }
    } else if current_rank == 4 && my_score <= 15000 {
        "【ラス目挽回】点差が開いているため、満貫以上の高打点ルートを強く意識します。".to_owned()
    } else {
        "【通常進行】素点効率とスピードのバランスを保ちつつ手を進めます。".to_owned()
    }
}

} // verus!
