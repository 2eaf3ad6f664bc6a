//! Calls on another player's discard: the actions, the calls a hand can make,
//! and how strongly one is advised.
use vstd::prelude::*;
use crate::tile::TileName;
use crate::hand::Meld;

verus! {

/// What to do with another player's discard.
#[derive(Debug, Clone, Copy, PartialEq, Eq, Structural)]
pub enum CallAction {
    /// Let it go by.
    Pass,
    /// Chii with the two tiles given, from the player to the left.
    Chii(TileName, TileName),
    /// Pon.
    Pon,
    /// Open kan.
    Kan,
}

/// The label of an action, in Japanese.
pub open spec fn call_action_label(a: CallAction) -> Seq<char> {
    match a {
        CallAction::Pass => "スルー (見逃し)"@,
        CallAction::Chii(x, y) => "チー ["@ + x.spec_text() + "-"@ + y.spec_text() + "]"@,
        CallAction::Pon => "ポン"@,
        CallAction::Kan => "カン (大明槓)"@,
    }
}

impl CallAction {
    /// The label of the action, in Japanese; a chii names its two tiles.
    pub fn label_ja(&self) -> (s: String)
        ensures
            s@ == call_action_label(*self),
    {
        match self {
            CallAction::Pass => "スルー (見逃し)".to_owned(),
            CallAction::Chii(a, b) => {
                let mut s = String::new();
                s.append("チー [");
                s.append(a.as_str());
                s.append("-");
                s.append(b.as_str());
                s.append("]");
                proof {
                    assert(s@ =~= call_action_label(*self));
                }
                s
            },
            CallAction::Pon => "ポン".to_owned(),
            CallAction::Kan => "カン (大明槓)".to_owned(),
        }
    }
}

/// How strongly a call is advised.
#[derive(Debug, Clone, Copy, PartialEq, Eq, Structural)]
pub enum CallRecommendation {
    /// Calling is clearly better.
    AggressiveCall,
    /// Calling is slightly better.
    LeanCall,
    /// Passing is slightly better.
    LeanPass,
    /// Passing is clearly better (no yaku, a large loss of value).
    StrictPass,
}

/// The label of a recommendation, in Japanese.
pub open spec fn recommendation_label(r: CallRecommendation) -> Seq<char> {
    match r {
        CallRecommendation::AggressiveCall => "【積極推奨】鳴き推奨"@,
        CallRecommendation::LeanCall => "【微有利】鳴き寄り"@,
        CallRecommendation::LeanPass => "【微有利】スルー寄り"@,
        CallRecommendation::StrictPass => "【厳禁/非推奨】スルー推奨"@,
    }
}

impl CallRecommendation {
    /// The label of the recommendation, in Japanese.
    pub fn label_ja(&self) -> (s: &'static str)
        ensures
            s@ == recommendation_label(*self),
    {
        match self {
            CallRecommendation::AggressiveCall => "【積極推奨】鳴き推奨",
            CallRecommendation::LeanCall => "【微有利】鳴き寄り",
            CallRecommendation::LeanPass => "【微有利】スルー寄り",
            CallRecommendation::StrictPass => "【厳禁/非推奨】スルー推奨",
        }
    }
}

/// The adviser on calls; its evaluation weighs expected values.
pub struct CallAdvisor;

/// A call that the hand can make on a discard: the action, the meld it
/// forms, and the indices of the two tiles it takes from the hand.
#[derive(Debug, Clone, Copy)]
pub struct CallOption {
    pub action: CallAction,
    pub meld: Meld,
    pub removed: (usize, usize),
}

/// The calls, as (action, first index taken, second index taken), that a
/// hand with counts `c` can make on discard `t`: a pon with two of it in
/// hand; then, from the player to the left and for a number tile, the chii
/// with the two below, with the one below and the one above, and with the
/// two above, each when the ranks exist and the hand holds both tiles.
pub open spec fn call_choices(c: Seq<u8>, t: TileName, is_kamicha: bool) -> Seq<(CallAction, int, int)> {
    let i = t.id();
    let pon = if c[i] >= 2 { seq![(CallAction::Pon, i, i)] } else { Seq::empty() };
    if is_kamicha && i < 28 {
        let rank = (i - 1) % 9 + 1;
        let a = if rank >= 3 && c[i - 2] > 0 && c[i - 1] > 0 { seq![chii_choice(i - 2, i - 1)] } else { Seq::empty() };
        let b = if 2 <= rank <= 8 && c[i - 1] > 0 && c[i + 1] > 0 { seq![chii_choice(i - 1, i + 1)] } else { Seq::empty() };
        let d = if rank <= 7 && c[i + 1] > 0 && c[i + 2] > 0 { seq![chii_choice(i + 1, i + 2)] } else { Seq::empty() };
        pon + a + b + d
    } else {
        pon
    }
}

/// The chii with the tiles of indices `x` and `y`.
pub open spec fn chii_choice(x: int, y: int) -> (CallAction, int, int) {
    (CallAction::Chii(TileName::spec_from_index(x), TileName::spec_from_index(y)), x, y)
}

/// The option makes the call `ch` on discard `t`, forming its meld.
pub open spec fn option_is(o: CallOption, ch: (CallAction, int, int), t: TileName) -> bool {
    &&& o.action == ch.0
    &&& o.removed.0 == ch.1
    &&& o.removed.1 == ch.2
    &&& match o.meld {
        Meld::Pon(x) => ch.0 == CallAction::Pon && x == t,
        Meld::Chii { called, consumed } => called == t && consumed[0] == TileName::spec_from_index(ch.1)
            && consumed[1] == TileName::spec_from_index(ch.2) && ch.0 is Chii,
        _ => false,
    }
}

/// The chii option with the tiles of indices `x` and `y` on discard `t`.
fn chii_option(t: TileName, x: usize, y: usize) -> (o: CallOption)
    ensures
        option_is(o, chii_choice(x as int, y as int), t),
{
    let t1 = TileName::from_usize(x);
    let t2 = TileName::from_usize(y);
    CallOption { action: CallAction::Chii(t1, t2), meld: Meld::Chii { called: t, consumed: [t1, t2] }, removed: (x, y) }
}

/// The calls the hand with counts `counts` can make on discard
/// `target_tile` (see `call_choices`), in that order.
pub fn call_options(counts: &[u8; 35], target_tile: TileName, is_kamicha: bool) -> (r: Vec<CallOption>)
    requires
        !(is_kamicha && target_tile.id() == 0),
    ensures
        r@.len() == call_choices(counts@, target_tile, is_kamicha).len(),
        forall|j: int|
            0 <= j < r@.len() ==> option_is(#[trigger] r@[j], call_choices(counts@, target_tile, is_kamicha)[j], target_tile),
{
    let ghost c = counts@;
    let ghost t = target_tile;
    let i = target_tile.index();
    proof {
        crate::tile::lemma_tile_index(target_tile);
    }
    let mut r: Vec<CallOption> = Vec::new();
    let ghost mut spec_r: Seq<(CallAction, int, int)> = Seq::empty();
    if counts[i] >= 2 {
        r.push(CallOption { action: CallAction::Pon, meld: Meld::Pon(target_tile), removed: (i, i) });
        proof {
            spec_r = seq![(CallAction::Pon, i as int, i as int)];
        }
    }
    assert(forall|j: int| 0 <= j < r@.len() ==> option_is(#[trigger] r@[j], spec_r[j], t));
    if is_kamicha && i < 28 {
        let rank = (i - 1) % 9 + 1;
        if rank >= 3 && counts[i - 2] > 0 && counts[i - 1] > 0 {
            r.push(chii_option(target_tile, i - 2, i - 1));
            proof {
                spec_r = spec_r.push(chii_choice(i - 2, i - 1));
            }
        }
        assert(forall|j: int| 0 <= j < r@.len() ==> option_is(#[trigger] r@[j], spec_r[j], t));
        if 2 <= rank && rank <= 8 && counts[i - 1] > 0 && counts[i + 1] > 0 {
            r.push(chii_option(target_tile, i - 1, i + 1));
            proof {
                spec_r = spec_r.push(chii_choice(i - 1, i + 1));
            }
        }
        assert(forall|j: int| 0 <= j < r@.len() ==> option_is(#[trigger] r@[j], spec_r[j], t));
        if rank <= 7 && counts[i + 1] > 0 && counts[i + 2] > 0 {
            r.push(chii_option(target_tile, i + 1, i + 2));
            proof {
                spec_r = spec_r.push(chii_choice(i + 1, i + 2));
            }
        }
        proof {
            assert(spec_r =~= call_choices(c, t, is_kamicha));
        }
    } else {
        proof {
            assert(spec_r =~= call_choices(c, t, is_kamicha));
        }
    }
    r
}

/// Every call the hand can make takes two tiles it holds: two of the
/// discard for a pon, one each of two other kinds for a chii.
pub proof fn lemma_call_takes_held(c: Seq<u8>, t: TileName, is_kamicha: bool, j: int)
    requires
        c.len() == 35,
        !(is_kamicha && t.id() == 0),
        0 <= j < call_choices(c, t, is_kamicha).len(),
    ensures
        ({
            let ch = call_choices(c, t, is_kamicha)[j];
            if ch.1 == ch.2 {
                ch.1 == t.id() && c[ch.1] >= 2
            } else {
                1 <= ch.1 <= 34 && 1 <= ch.2 <= 34 && c[ch.1] > 0 && c[ch.2] > 0
            }
        }),
{
    crate::tile::lemma_tile_index(t);
    let i = t.id();
    let pon: Seq<(CallAction, int, int)> = if c[i] >= 2 { seq![(CallAction::Pon, i, i)] } else { Seq::empty() };
    if is_kamicha && i < 28 {
        let rank = (i - 1) % 9 + 1;
        let a = if rank >= 3 && c[i - 2] > 0 && c[i - 1] > 0 { seq![chii_choice(i - 2, i - 1)] } else { Seq::empty() };
        let b = if 2 <= rank <= 8 && c[i - 1] > 0 && c[i + 1] > 0 { seq![chii_choice(i - 1, i + 1)] } else { Seq::empty() };
        let d = if rank <= 7 && c[i + 1] > 0 && c[i + 2] > 0 { seq![chii_choice(i + 1, i + 2)] } else { Seq::empty() };
        let all = pon + a + b + d;
        assert(call_choices(c, t, is_kamicha) == all);
        let k = j - pon.len();
        if j >= pon.len() {
            if k < a.len() {
                assert(all[j] == a[k]);
            } else if k < a.len() + b.len() {
                assert(all[j] == b[k - a.len()]);
            } else {
                assert(all[j] == d[k - a.len() - b.len()]);
            }
        } else {
            assert(all[j] == pon[j]);
        }
    }
}

/// Tiles of indices `x`, `y` and `z` are three consecutive ranks of one
/// suit, in some order.
pub open spec fn forms_run(x: int, y: int, z: int) -> bool {
    let lo = if x <= y && x <= z { x } else if y <= z { y } else { z };
    let hi = if x >= y && x >= z { x } else if y >= z { y } else { z };
    &&& 1 <= x <= 27 && 1 <= y <= 27 && 1 <= z <= 27
    &&& (x - 1) / 9 == (y - 1) / 9 && (y - 1) / 9 == (z - 1) / 9
    &&& x != y && y != z && x != z
    &&& hi - lo == 2
}

/// From the player to the left, every chii the hand can make on a number
/// tile is offered: two held tiles, the lower index first, that make a run
/// of one suit with the discard.
pub proof fn law_every_chii_offered(c: Seq<u8>, t: TileName, x: int, y: int)
    requires
        c.len() == 35,
        x < y,
        forms_run(x, y, t.id()),
        c[x] > 0,
        c[y] > 0,
    ensures
        call_choices(c, t, true).contains(chii_choice(x, y)),
{
    let i = t.id();
    let pon: Seq<(CallAction, int, int)> = if c[i] >= 2 { seq![(CallAction::Pon, i, i)] } else { Seq::empty() };
    let rank = (i - 1) % 9 + 1;
    let a = if rank >= 3 && c[i - 2] > 0 && c[i - 1] > 0 { seq![chii_choice(i - 2, i - 1)] } else { Seq::empty() };
    let b = if 2 <= rank <= 8 && c[i - 1] > 0 && c[i + 1] > 0 { seq![chii_choice(i - 1, i + 1)] } else { Seq::empty() };
    let d = if rank <= 7 && c[i + 1] > 0 && c[i + 2] > 0 { seq![chii_choice(i + 1, i + 2)] } else { Seq::empty() };
    let all = pon + a + b + d;
    assert(call_choices(c, t, true) == all);
    if y < i {
        assert(x == i - 2 && y == i - 1);
        assert(rank >= 3);
        assert(all[pon.len() as int] == chii_choice(x, y));
    } else if x < i {
        assert(x == i - 1 && y == i + 1);
        assert(2 <= rank <= 8);
        assert(all[(pon.len() + a.len()) as int] == chii_choice(x, y));
    } else {
        assert(x == i + 1 && y == i + 2);
        assert(rank <= 7);
        assert(all[(pon.len() + a.len() + b.len()) as int] == chii_choice(x, y));
    }
}

/// Every chii offered takes two tiles that make a run of one suit with the
/// discard, and is offered only from the player to the left; a pon takes
/// two of the discard, and is offered whenever the hand holds two.
pub proof fn law_calls_are_runs_or_pairs(c: Seq<u8>, t: TileName, is_kamicha: bool, j: int)
    requires
        c.len() == 35,
        !(is_kamicha && t.id() == 0),
        0 <= j < call_choices(c, t, is_kamicha).len(),
    ensures
        ({
            let ch = call_choices(c, t, is_kamicha)[j];
            ||| ch == (CallAction::Pon, t.id(), t.id()) && c[t.id()] >= 2
            ||| is_kamicha && ch == chii_choice(ch.1, ch.2) && ch.1 < ch.2 && forms_run(ch.1, ch.2, t.id())
        }),
        c[t.id()] >= 2 ==> call_choices(c, t, is_kamicha).contains((CallAction::Pon, t.id(), t.id())),
{
    crate::tile::lemma_tile_index(t);
    let i = t.id();
    let pon: Seq<(CallAction, int, int)> = if c[i] >= 2 { seq![(CallAction::Pon, i, i)] } else { Seq::empty() };
    if c[i] >= 2 {
        assert(call_choices(c, t, is_kamicha)[0] == (CallAction::Pon, i, i));
    }
    if is_kamicha && i < 28 {
        let rank = (i - 1) % 9 + 1;
        let a = if rank >= 3 && c[i - 2] > 0 && c[i - 1] > 0 { seq![chii_choice(i - 2, i - 1)] } else { Seq::empty() };
        let b = if 2 <= rank <= 8 && c[i - 1] > 0 && c[i + 1] > 0 { seq![chii_choice(i - 1, i + 1)] } else { Seq::empty() };
        let d = if rank <= 7 && c[i + 1] > 0 && c[i + 2] > 0 { seq![chii_choice(i + 1, i + 2)] } else { Seq::empty() };
        let all = pon + a + b + d;
        assert(call_choices(c, t, is_kamicha) == all);
        let k = j - pon.len();
        if j >= pon.len() {
            if k < a.len() {
                assert(all[j] == a[k]);
            } else if k < a.len() + b.len() {
                assert(all[j] == b[k - a.len()]);
            } else {
                assert(all[j] == d[k - a.len() - b.len()]);
            }
        } else {
            assert(all[j] == pon[j]);
        }
    }
}

} // verus!
