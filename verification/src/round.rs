//! A round: the wall, four hands, four rivers, and whose turn it is.
use vstd::prelude::*;
use crate::hand::{Hand, Meld, meld_tile, consumed_tiles, call_meld_error, count_of, lemma_count_of_le_len};
use crate::river::River;
use crate::tile::TileName;
use crate::wall::{Wall, live_limit};

verus! {

/// Number of players.
pub const PLAYER_NUMBER: usize = 4;

/// Tiles dealt to each player at the start.
const DEAL_BASE: usize = 13;

/// Number of tiles a meld lays on the table.
pub open spec fn meld_size(m: Meld) -> int {
    match m {
        Meld::Chii { .. } => 3,
        Meld::Pon(_) => 3,
        _ => 4,
    }
}

/// Tiles laid on the table by a list of melds.
pub open spec fn melds_size(ms: Seq<Meld>) -> int
    decreases ms.len(),
{
    if ms.len() == 0 {
        0
    } else {
        melds_size(ms.drop_last()) + meld_size(ms.last())
    }
}

pub proof fn lemma_melds_size_push(ms: Seq<Meld>, m: Meld)
    ensures
        melds_size(ms.push(m)) == melds_size(ms) + meld_size(m),
{
    assert(ms.push(m).drop_last() =~= ms);
}

pub proof fn lemma_melds_size_update(ms: Seq<Meld>, j: int, m: Meld)
    requires
        0 <= j < ms.len(),
    ensures
        melds_size(ms.update(j, m)) == melds_size(ms) - meld_size(ms[j]) + meld_size(m),
    decreases ms.len(),
{
    if j == ms.len() - 1 {
        assert(ms.update(j, m).drop_last() =~= ms.drop_last());
    } else {
        lemma_melds_size_update(ms.drop_last(), j, m);
        assert(ms.update(j, m).drop_last() =~= ms.drop_last().update(j, m));
    }
}

/// The error that `play_meld` gives before it looks at the caller's hand, if any.
pub open spec fn play_meld_turn_error(turn: int, player: int, meld: Meld, last_discard: Option<TileName>, kan_left: bool) -> Option<Seq<char>> {
    let self_meld = meld is Ankan || meld is Kakan;
    let is_kan = meld is Daiminkan || meld is Ankan || meld is Kakan;
    if self_meld && player != turn {
        Some("Ankan and Kakan can only be called on your own turn"@)
    } else if meld is Chii && player != turn {
        Some("Chii can only be called from the Kamicha (previous player)"@)
    } else if !self_meld && last_discard is None {
        Some("No tile in river to call"@)
    } else if !self_meld && last_discard.unwrap() != meld_tile(meld) {
        Some("Called tile does not match the last discarded tile"@)
    } else if is_kan && !kan_left {
        Some("No replacement tile available in wall"@)
    } else {
        None
    }
}

/// How many tiles player `q` is dealt by `rounds` rounds of the deal, one
/// tile each round while the wall, with `live` tiles left to draw, lasts.
pub open spec fn deal_share(live: int, q: int, rounds: int) -> int {
    if live <= q {
        0
    } else if (live - q + 3) / 4 < rounds {
        (live - q + 3) / 4
    } else {
        rounds
    }
}

/// How many tiles the deal draws from a wall with `live` tiles left.
pub open spec fn deal_total(live: int) -> int {
    if live < 52 { live } else { 52 }
}

proof fn lemma_deal_share_step(live: int, q: int, rounds: int)
    requires
        0 <= q < 4,
        0 <= rounds,
        live >= 0,
    ensures
        deal_share(live, q, rounds + 1) == deal_share(live, q, rounds) + if 4 * rounds + q < live { 1int } else { 0int },
{
}

proof fn lemma_deal_share_full(live: int, q: int)
    requires
        0 <= q < 4,
        live >= 52,
    ensures
        deal_share(live, q, 13) == 13,
{
}

/// One round: the wall, the hands and rivers of the four players, and the
/// player whose turn it is.
#[derive(Debug)]
pub struct Round {
    wall: Wall,
    hands: [Hand; 4],
    rivers: [River; 4],
    turn: usize,
}

impl Round {
    pub closed spec fn spec_wall(&self) -> Wall {
        self.wall
    }

    pub closed spec fn spec_hand(&self, p: int) -> Hand {
        self.hands[p]
    }

    pub closed spec fn spec_river(&self, p: int) -> Seq<TileName> {
        self.rivers[p]@
    }

    pub closed spec fn spec_turn(&self) -> int {
        self.turn as int
    }

    /// Tiles held by one player: concealed tiles, discards, and tiles laid in melds.
    pub open spec fn player_tiles(&self, p: int) -> int {
        self.spec_hand(p).spec_tiles().len() + self.spec_river(p).len() + melds_size(self.spec_hand(p).spec_melds())
    }

    /// Tiles taken out of the wall so far: the draws and the replacement tiles.
    pub open spec fn drawn(&self) -> int {
        self.spec_wall().spec_cursor() + self.spec_wall().spec_kan_count()
    }

    /// Tiles on the table: the sum over the four players.
    pub open spec fn in_play(&self) -> int {
        self.player_tiles(0) + self.player_tiles(1) + self.player_tiles(2) + self.player_tiles(3)
    }

    /// Tiles taken out of the wall before the round began: those drawn from
    /// it and not on the table.
    pub open spec fn taken_before(&self) -> int {
        self.drawn() - self.in_play()
    }

    /// Well-formed: every hand well-formed with at most 14 concealed tiles,
    /// the turn a seat, and every tile on the table was taken from the wall.
    pub open spec fn wf(&self) -> bool {
        &&& 0 <= self.spec_turn() < 4
        &&& forall|p: int| 0 <= p < 4 ==> (#[trigger] self.spec_hand(p)).wf()
        &&& self.in_play() <= self.drawn()
    }

    /// The two rounds hold the same tiles in the same places and the same turn.
    pub open spec fn same_as(&self, other: &Round) -> bool {
        &&& self.spec_turn() == other.spec_turn()
        &&& self.spec_wall().spec_tiles() == other.spec_wall().spec_tiles()
        &&& self.spec_wall().spec_cursor() == other.spec_wall().spec_cursor()
        &&& self.spec_wall().spec_kan_count() == other.spec_wall().spec_kan_count()
        &&& forall|p: int| 0 <= p < 4 ==> {
            &&& (#[trigger] self.spec_hand(p)).spec_tiles() == other.spec_hand(p).spec_tiles()
            &&& self.spec_hand(p).spec_counts() == other.spec_hand(p).spec_counts()
            &&& self.spec_hand(p).spec_melds() == other.spec_hand(p).spec_melds()
            &&& self.spec_river(p) == other.spec_river(p)
        }
    }

    /// The last discard of the player before the one on turn.
    pub open spec fn last_discard(&self) -> Option<TileName> {
        let prev = (self.spec_turn() + 3) % 4;
        if self.spec_river(prev).len() == 0 {
            None
        } else {
            Some(self.spec_river(prev).last())
        }
    }

    /// Starts a round from a wall: thirteen times over, each player in turn
    /// order draws a tile, while the wall has tiles left to draw.
    pub fn new(wall: Wall) -> (r: Round)
        ensures
            r.wf(),
            r.spec_turn() == 0,
            r.taken_before() == wall.spec_cursor() + wall.spec_kan_count(),
            r.spec_wall().spec_tiles() == wall.spec_tiles(),
            r.spec_wall().spec_kan_count() == wall.spec_kan_count(),
            r.spec_wall().spec_cursor() == wall.spec_cursor() + deal_total(wall.spec_live()),
            forall|p: int| 0 <= p < 4 ==> (#[trigger] r.spec_hand(p)).spec_tiles().len() == deal_share(wall.spec_live(), p, 13),
            forall|p: int| 0 <= p < 4 ==> (#[trigger] r.spec_hand(p)).spec_melds().len() == 0,
            forall|p: int| 0 <= p < 4 ==> (#[trigger] r.spec_river(p)).len() == 0,
            forall|p: int, k: int|
                0 <= p < 4 && 0 <= k < deal_share(wall.spec_live(), p, 13) ==> #[trigger] r.spec_hand(p).spec_tiles()[k]
                    == wall.spec_tiles()[wall.spec_cursor() + 4 * k + p],
    {
        let mut round = Round {
            wall,
            hands: [Hand::new(), Hand::new(), Hand::new(), Hand::new()],
            rivers: [River::new(), River::new(), River::new(), River::new()],
            turn: 0,
        };
        round.deal();
        round
    }

    fn deal(&mut self)
        requires
            old(self).spec_turn() == 0,
            forall|p: int| 0 <= p < 4 ==> (#[trigger] old(self).spec_hand(p)).wf()
                && old(self).spec_hand(p).spec_tiles().len() == 0
                && old(self).spec_hand(p).spec_melds().len() == 0,
            forall|p: int| 0 <= p < 4 ==> (#[trigger] old(self).spec_river(p)).len() == 0,
        ensures
            final(self).wf(),
            final(self).spec_turn() == 0,
            final(self).taken_before() == old(self).spec_wall().spec_cursor() + old(self).spec_wall().spec_kan_count(),
            final(self).spec_wall().spec_tiles() == old(self).spec_wall().spec_tiles(),
            final(self).spec_wall().spec_kan_count() == old(self).spec_wall().spec_kan_count(),
            final(self).spec_wall().spec_cursor() == old(self).spec_wall().spec_cursor() + deal_total(old(self).spec_wall().spec_live()),
            forall|p: int| 0 <= p < 4 ==> (#[trigger] final(self).spec_hand(p)).spec_tiles().len()
                == deal_share(old(self).spec_wall().spec_live(), p, 13),
            forall|p: int| 0 <= p < 4 ==> (#[trigger] final(self).spec_hand(p)).spec_melds().len() == 0,
            forall|p: int| 0 <= p < 4 ==> (#[trigger] final(self).spec_river(p)).len() == 0,
            forall|p: int, k: int|
                0 <= p < 4 && 0 <= k < deal_share(old(self).spec_wall().spec_live(), p, 13) ==> #[trigger] final(self).spec_hand(p).spec_tiles()[k]
                    == old(self).spec_wall().spec_tiles()[old(self).spec_wall().spec_cursor() + 4 * k + p],
    {
        let ghost live = self.spec_wall().spec_live();
        let ghost c0 = self.spec_wall().spec_cursor();
        let ghost k0 = self.spec_wall().spec_kan_count();
        let ghost w0 = self.spec_wall().spec_tiles();
        proof {
            self.spec_wall().lemma_taken_nonneg();
        }
        let mut round_no: usize = 0;
        while round_no < DEAL_BASE
            invariant
                round_no <= 13,
                live >= 0,
                self.spec_turn() == 0,
                self.spec_wall().spec_kan_count() == k0,
                self.spec_wall().spec_tiles() == w0,
                self.spec_wall().spec_live() == if live > 4 * round_no { live - 4 * round_no } else { 0 },
                self.spec_wall().spec_cursor() == c0 + if live > 4 * round_no { 4 * round_no } else { live },
                self.in_play() == if live > 4 * round_no { 4 * round_no } else { live },
                forall|p: int| 0 <= p < 4 ==> (#[trigger] self.spec_hand(p)).wf()
                    && self.spec_hand(p).spec_tiles().len() == deal_share(live, p, round_no as int)
                    && self.spec_hand(p).spec_melds().len() == 0,
                forall|p: int| 0 <= p < 4 ==> (#[trigger] self.spec_river(p)).len() == 0,
                forall|p: int, k: int|
                    0 <= p < 4 && 0 <= k < deal_share(live, p, round_no as int) ==> #[trigger] self.spec_hand(p).spec_tiles()[k]
                        == w0[c0 + 4 * k + p],
            decreases 13 - round_no,
        {
            let mut p: usize = 0;
            while p < 4
                invariant
                    p <= 4,
                    round_no < 13,
                    live >= 0,
                    self.spec_turn() == 0,
                    self.spec_wall().spec_kan_count() == k0,
                    self.spec_wall().spec_tiles() == w0,
                    self.spec_wall().spec_live() == if live > 4 * round_no + p { live - 4 * round_no - p } else { 0 },
                    self.spec_wall().spec_cursor() == c0 + if live > 4 * round_no + p { 4 * round_no + p } else { live },
                    self.in_play() == if live > 4 * round_no + p { 4 * round_no + p } else { live },
                    forall|q: int| 0 <= q < 4 ==> (#[trigger] self.spec_hand(q)).wf()
                        && self.spec_hand(q).spec_tiles().len() == deal_share(live, q, if q < p { round_no + 1 } else { round_no as int })
                        && self.spec_hand(q).spec_melds().len() == 0,
                    forall|q: int| 0 <= q < 4 ==> (#[trigger] self.spec_river(q)).len() == 0,
                    forall|q: int, k: int|
                        0 <= q < 4 && 0 <= k < deal_share(live, q, if q < p { round_no + 1 } else { round_no as int }) ==>
                        #[trigger] self.spec_hand(q).spec_tiles()[k] == w0[c0 + 4 * k + q],
                decreases 4 - p,
            {
                let ghost pre = *self;
                proof {
                    lemma_deal_share_step(live, p as int, round_no as int);
                    assert(self.spec_hand(p as int).wf());
                    assert(deal_share(live, p as int, round_no as int) <= round_no);
                }
                let t = self.wall.draw();
                assert(self.spec_hand(p as int).wf());
                match t {
                    Some(tile) => {
                        proof {
                            assert(self.spec_hand(p as int).wf());
                            lemma_count_of_le_len(self.hands[p as int].spec_tiles(), tile.id());
                            crate::tile::lemma_tile_index(tile);
                        }
                        self.hands[p].push(tile);
                    },
                    None => {},
                }
                assert forall|q: int| 0 <= q < 4 && q != p implies #[trigger] self.spec_hand(q) == pre.spec_hand(q) by {}
                assert forall|q: int| 0 <= q < 4 implies #[trigger] self.spec_river(q) == pre.spec_river(q) by {}
                p = p + 1;
            }
            round_no = round_no + 1;
        }
    }

    /// The concealed tiles of player `index`.
    pub fn hand(&self, index: usize) -> (s: &[TileName])
        requires
            self.wf(),
            index < 4,
        ensures
            s@ == self.spec_hand(index as int).spec_tiles(),
    {
        proof {
            assert(self.spec_hand(index as int).wf());
        }
        self.hands[index].tiles()
    }

    pub fn wall(&self) -> (w: &Wall)
        ensures
            *w == self.spec_wall(),
    {
        &self.wall
    }

    /// The river of player `index`.
    pub fn river(&self, index: usize) -> (r: &River)
        requires
            index < 4,
        ensures
            r@ == self.spec_river(index as int),
    {
        &self.rivers[index]
    }

    /// The player whose turn it is.
    pub fn turn(&self) -> (t: usize)
        ensures
            t == self.spec_turn(),
    {
        self.turn
    }

    /// The player on turn draws the next tile of the wall into the hand.
    pub fn draw_tile(&mut self) -> (t: Option<TileName>)
        requires
            old(self).wf(),
            old(self).spec_wall().spec_live() > 0 ==> old(self).spec_hand(old(self).spec_turn()).spec_tiles().len() < 14,
        ensures
            final(self).wf(),
            final(self).taken_before() == old(self).taken_before(),
            final(self).spec_turn() == old(self).spec_turn(),
            t is Some <==> old(self).spec_wall().spec_live() > 0,
            t is None ==> final(self).same_as(old(self)),
            t matches Some(x) ==> x == old(self).spec_wall().spec_tiles()[old(self).spec_wall().spec_cursor()]
                && final(self).spec_hand(old(self).spec_turn()).spec_tiles() == old(self).spec_hand(old(self).spec_turn()).spec_tiles().push(x)
                && final(self).spec_wall().spec_cursor() == old(self).spec_wall().spec_cursor() + 1,
            forall|p: int| 0 <= p < 4 && p != old(self).spec_turn() ==> #[trigger] final(self).spec_hand(p) == old(self).spec_hand(p),
            forall|p: int| 0 <= p < 4 ==> #[trigger] final(self).spec_river(p) == old(self).spec_river(p),
            final(self).spec_hand(old(self).spec_turn()).spec_melds() == old(self).spec_hand(old(self).spec_turn()).spec_melds(),
    {
        let drawn = match self.wall.draw() {
            Some(x) => x,
            None => {
                return None;
            },
        };
        let turn = self.turn;
        proof {
            assert(self.spec_hand(turn as int).wf());
            lemma_count_of_le_len(self.hands[turn as int].spec_tiles(), drawn.id());
            crate::tile::lemma_tile_index(drawn);
        }
        self.hands[turn].push(drawn);
        Some(drawn)
    }

    /// The player on turn discards the concealed tile at `discard_index`
    /// into the river, and the turn passes to the next player. The error
    /// "Discard Error" when there is no such tile.
    pub fn discard_tile(&mut self, discard_index: usize) -> (r: Result<TileName, &'static str>)
        requires
            old(self).wf(),
        ensures
            final(self).wf(),
            final(self).taken_before() == old(self).taken_before(),
            discard_index >= old(self).spec_hand(old(self).spec_turn()).spec_tiles().len() ==> (r matches Err(e)
                && e@ == "Discard Error"@ && final(self).same_as(old(self))),
            discard_index < old(self).spec_hand(old(self).spec_turn()).spec_tiles().len() ==> {
                let p = old(self).spec_turn();
                let x = old(self).spec_hand(p).spec_tiles()[discard_index as int];
                &&& r == Ok::<TileName, &'static str>(x)
                &&& final(self).spec_hand(p).spec_tiles() == old(self).spec_hand(p).spec_tiles().remove(discard_index as int)
                &&& final(self).spec_hand(p).spec_melds() == old(self).spec_hand(p).spec_melds()
                &&& final(self).spec_river(p) == old(self).spec_river(p).push(x)
                &&& final(self).spec_turn() == (p + 1) % 4
                &&& final(self).spec_wall() == old(self).spec_wall()
                &&& forall|q: int| 0 <= q < 4 && q != p ==> #[trigger] final(self).spec_hand(q) == old(self).spec_hand(q)
                    && final(self).spec_river(q) == old(self).spec_river(q)
            },
    {
        let turn = self.turn;
        proof {
            assert(self.spec_hand(turn as int).wf());
            let h = self.spec_hand(turn as int);
            if discard_index < h.spec_tiles().len() {
                let x = h.spec_tiles()[discard_index as int];
                crate::hand::lemma_count_of_positive(h.spec_tiles(), x.id());
            }
        }
        let res = self.hands[turn].discard(discard_index);
        match res {
            Ok(discarded) => {
                self.rivers[turn].push(discarded);
                self.turn = (turn + 1) % 4;
                Ok(discarded)
            },
            Err(_) => {
                Err("Discard Error")
            },
        }
    }

    /// The checks of `play_meld` on the turn and the table, in the order it makes them.
    pub open spec fn meld_turn_error(&self, player: int, meld: Meld) -> Option<Seq<char>> {
        play_meld_turn_error(self.spec_turn(), player, meld, self.last_discard(), self.spec_wall().spec_kan_count() < 4)
    }

    /// Player `player_index` takes a meld: a chii (only the player on turn,
    /// from the previous player's last discard), a pon or an open kan (from
    /// the previous player's last discard), or a closed or added kan (only on
    /// the player's own turn). The called discard leaves the river, a kan
    /// draws a replacement tile, and the turn passes to the caller. On an
    /// error nothing changes.
    #[verifier::rlimit(50)]
    pub fn play_meld(&mut self, player_index: usize, meld: Meld) -> (r: Result<(), &'static str>)
        requires
            old(self).wf(),
            player_index < 4 || old(self).meld_turn_error(player_index as int, meld) is Some,
        ensures
            final(self).wf(),
            final(self).taken_before() == old(self).taken_before(),
            old(self).meld_turn_error(player_index as int, meld) matches Some(msg) ==> (r matches Err(e) && e@ == msg
                && final(self).same_as(old(self))),
            old(self).meld_turn_error(player_index as int, meld) is None ==> {
                let p = player_index as int;
                let h = old(self).spec_hand(p);
                let is_kan = meld is Daiminkan || meld is Ankan || meld is Kakan;
                let self_meld = meld is Ankan || meld is Kakan;
                let prev = (old(self).spec_turn() + 3) % 4;
                let stripped = crate::hand::strip(h.spec_tiles(), h.spec_counts(), consumed_tiles(meld)).0;
                &&& call_meld_error(h.spec_counts(), h.spec_melds(), meld) matches Some(msg) ==> (r matches Err(e)
                    && e@ == msg && final(self).same_as(old(self)))
                &&& call_meld_error(h.spec_counts(), h.spec_melds(), meld) is None ==> {
                    &&& r is Ok
                    &&& final(self).spec_turn() == p
                    &&& (!is_kan ==> final(self).spec_hand(p).spec_tiles() == stripped)
                    &&& (is_kan ==> final(self).spec_hand(p).spec_tiles() == stripped.push(
                            old(self).spec_wall().spec_tiles()[135 - old(self).spec_wall().spec_kan_count()]))
                    &&& (is_kan ==> final(self).spec_wall().spec_kan_count() == old(self).spec_wall().spec_kan_count() + 1)
                    &&& (!is_kan ==> final(self).spec_wall().spec_kan_count() == old(self).spec_wall().spec_kan_count())
                    &&& final(self).spec_wall().spec_cursor() == old(self).spec_wall().spec_cursor()
                    &&& (!self_meld ==> final(self).spec_river(prev) == old(self).spec_river(prev).drop_last())
                    &&& forall|q: int| 0 <= q < 4 && (self_meld || q != prev) ==> #[trigger] final(self).spec_river(q) == old(self).spec_river(q)
                    &&& forall|q: int| 0 <= q < 4 && q != p ==> #[trigger] final(self).spec_hand(q) == old(self).spec_hand(q)
                }
            },
    {
        let is_self_meld = match meld {
            Meld::Ankan(_) | Meld::Kakan(_) => true,
            _ => false,
        };
        let is_kan = match meld {
            Meld::Daiminkan(_) | Meld::Ankan(_) | Meld::Kakan(_) => true,
            _ => false,
        };
        let is_chii = match meld {
            Meld::Chii { .. } => true,
            _ => false,
        };
        let called_tile = match meld {
            Meld::Chii { called, .. } => called,
            Meld::Pon(t) => t,
            Meld::Daiminkan(t) => t,
            Meld::Ankan(t) => t,
            Meld::Kakan(t) => t,
        };
        if is_self_meld && player_index != self.turn {
            return Err("Ankan and Kakan can only be called on your own turn");
        }
        let previous_player = (self.turn + 4 - 1) % 4;
        if is_chii && player_index != self.turn {
            return Err("Chii can only be called from the Kamicha (previous player)");
        }
        if !is_self_meld {
            let river = self.rivers[previous_player].tiles();
            if river.len() == 0 {
                return Err("No tile in river to call");
            }
            let last_discard = river[river.len() - 1];
            if last_discard != called_tile {
                return Err("Called tile does not match the last discarded tile");
            }
        }
        if is_kan && !self.wall.can_draw_replacement() {
            return Err("No replacement tile available in wall");
        }
        let ghost pre = *self;
        proof {
            assert(self.spec_hand(player_index as int).wf());
        }
        let res = self.hands[player_index].call_meld(meld);
        match res {
            Err(e) => {
                return Err(e);
            },
            Ok(()) => {},
        }
        proof {
            let h = pre.spec_hand(player_index as int);
            let h2 = self.spec_hand(player_index as int);
            h.lemma_len();
            assert(consumed_tiles(meld).len() >= 2 || meld is Kakan);
            assert(h2.spec_tiles().len() + consumed_tiles(meld).len() == h.spec_tiles().len());
            assert(is_kan ==> h2.spec_tiles().len() < 14);
            match meld {
                Meld::Kakan(t) => {
                    let j = choose|j: int| crate::hand::is_first_pon(h.spec_melds(), t, j)
                        && h2.spec_melds() == h.spec_melds().update(j, meld);
                    lemma_melds_size_update(h.spec_melds(), j, meld);
                },
                _ => {
                    lemma_melds_size_push(h.spec_melds(), meld);
                },
            }
        }
        if !is_self_meld {
            let _ = self.rivers[previous_player].pop();
        }
        if is_kan {
            let rep = self.wall.draw_replacement();
            match rep {
                Some(t) => {
                    proof {
                        assert(self.spec_hand(player_index as int).wf());
                        lemma_count_of_le_len(self.hands[player_index as int].spec_tiles(), t.id());
                        crate::tile::lemma_tile_index(t);
                    }
                    self.hands[player_index].push(t);
                },
                None => {},
            }
        }
        self.turn = player_index;
        proof {
            assert forall|q: int| 0 <= q < 4 implies (#[trigger] self.spec_hand(q)).wf() by {
                if q != player_index {
                    assert(self.spec_hand(q) == pre.spec_hand(q));
                    assert(pre.spec_hand(q).wf());
                }
            }
        }
        Ok(())
    }
}

} // verus!
