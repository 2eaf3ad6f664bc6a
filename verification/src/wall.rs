//! The wall: the shuffled tiles, the draw position, and the dead wall of 14 tiles.
use vstd::prelude::*;
use rand::rngs::StdRng;
use rand::seq::SliceRandom;
use crate::tile::TileName;
use crate::hand::count_of;

verus! {

#[verifier::external_type_specification]
#[verifier::external_body]
pub struct ExStdRng(StdRng);

/// Puts the tiles in a random order with `rand`'s `SliceRandom::shuffle`
/// (Fisher-Yates swaps driven by `rng`). Stated: the result is a
/// rearrangement of the same tiles. Not stated: which order comes out, since
/// it rests on the generator's state.
#[verifier::external_body]
fn shuffle_tiles(tiles: &mut [TileName; 136], rng: &mut StdRng)
    ensures
        final(tiles)@.to_multiset() == old(tiles)@.to_multiset(),
{
    tiles.shuffle(rng);
}

/// Number of tiles that can be drawn before the dead wall with no kan.
pub open spec fn live_limit(kan_count: int) -> int {
    136 - 14 - kan_count
}

/// The tile at position `k` of a fresh, unshuffled wall: four copies of
/// each kind in index order.
pub open spec fn fresh_tile(k: int) -> TileName {
    TileName::spec_from_index(k / 4 + 1)
}

/// The 136 tiles, the position of the next draw, and the number of
/// replacement tiles taken from the end of the dead wall.
#[derive(Debug)]
pub struct Wall {
    tiles: [TileName; 136],
    cursor: usize,
    kan_count: usize,
}

impl Wall {
    #[verifier::type_invariant]
    spec fn inv(self) -> bool {
        &&& self.kan_count <= 4
        &&& self.cursor <= 122
    }

    /// The tiles, in wall order.
    pub closed spec fn spec_tiles(&self) -> Seq<TileName> {
        self.tiles@
    }

    /// How many tiles have been drawn from the live wall.
    pub closed spec fn spec_cursor(&self) -> int {
        self.cursor as int
    }

    /// How many replacement tiles have been drawn.
    pub closed spec fn spec_kan_count(&self) -> int {
        self.kan_count as int
    }

    /// The draws and the replacement tiles taken are never negative.
    pub proof fn lemma_taken_nonneg(&self)
        ensures
            self.spec_cursor() >= 0,
            self.spec_kan_count() >= 0,
    {
    }

    /// Tiles still in the wall: the 136 less the draws and the replacement
    /// tiles taken (the dead wall counts).
    pub open spec fn spec_remaining(&self) -> int {
        136 - self.spec_cursor() - self.spec_kan_count()
    }

    /// Tiles left to draw: the live wall minus the draws.
    pub open spec fn spec_live(&self) -> int {
        if self.spec_cursor() <= live_limit(self.spec_kan_count()) {
            live_limit(self.spec_kan_count()) - self.spec_cursor()
        } else {
            0
        }
    }

    /// A fresh wall: four copies of each kind in index order, nothing drawn.
    pub fn new() -> (w: Wall)
        ensures
            w.spec_tiles().len() == 136,
            forall|k: int| 0 <= k < 136 ==> #[trigger] w.spec_tiles()[k] == fresh_tile(k),
            w.spec_cursor() == 0,
            w.spec_kan_count() == 0,
    {
        let mut tiles = [TileName::NoTile; 136];
        let mut name_index: usize = 1;
        while name_index <= 34
            invariant
                1 <= name_index <= 35,
                forall|k: int| 0 <= k < 4 * (name_index - 1) ==> #[trigger] tiles@[k] == fresh_tile(k),
            decreases 35 - name_index,
        {
            let t = TileName::from_usize(name_index);
            let offset = (name_index - 1) * 4;
            tiles[offset] = t;
            tiles[offset + 1] = t;
            tiles[offset + 2] = t;
            tiles[offset + 3] = t;
            proof {
                assert forall|k: int| 0 <= k < 4 * name_index implies #[trigger] tiles@[k] == fresh_tile(k) by {
                    if k >= 4 * (name_index - 1) {
                        assert(k / 4 + 1 == name_index);
                    }
                }
            }
            name_index = name_index + 1;
        }
        Wall { tiles, cursor: 0, kan_count: 0 }
    }

    /// Shuffles the tiles and starts drawing from the beginning again.
    pub fn shuffle(&mut self, rng: &mut StdRng)
        ensures
            final(self).spec_tiles().to_multiset() == old(self).spec_tiles().to_multiset(),
            final(self).spec_cursor() == 0,
            final(self).spec_kan_count() == 0,
    {
        proof {
            use_type_invariant(&*self);
        }
        let mut tiles = self.tiles;
        shuffle_tiles(&mut tiles, rng);
        self.tiles = tiles;
        self.cursor = 0;
        self.kan_count = 0;
    }

    /// Draws the next tile of the live wall (the 14 tiles of the dead wall,
    /// less the replacement tiles taken, cannot be drawn).
    pub fn draw(&mut self) -> (t: Option<TileName>)
        ensures
            final(self).spec_tiles() == old(self).spec_tiles(),
            final(self).spec_kan_count() == old(self).spec_kan_count(),
            old(self).spec_cursor() < live_limit(old(self).spec_kan_count()) ==> t == Some(old(self).spec_tiles()[old(self).spec_cursor()])
                && final(self).spec_cursor() == old(self).spec_cursor() + 1,
            old(self).spec_cursor() >= live_limit(old(self).spec_kan_count()) ==> t is None
                && final(self).spec_cursor() == old(self).spec_cursor(),
            t is Some <==> old(self).spec_live() > 0,
            final(self).spec_live() == if old(self).spec_live() > 0 { old(self).spec_live() - 1 } else { 0 },
            final(self).spec_remaining() == if t is Some { old(self).spec_remaining() - 1 } else { old(self).spec_remaining() },
    {
        proof {
            use_type_invariant(&*self);
        }
        let limit = 136 - 14 - self.kan_count;
        if self.cursor >= limit {
            return None;
        }
        let t = self.tiles[self.cursor];
        self.cursor = self.cursor + 1;
        Some(t)
    }

    /// Whether a replacement tile can still be drawn (fewer than four kans).
    pub fn can_draw_replacement(&self) -> (b: bool)
        ensures
            b <==> self.spec_kan_count() < 4,
    {
        self.kan_count < 4
    }

    /// Draws a replacement tile after a kan, from the end of the dead wall.
    pub fn draw_replacement(&mut self) -> (t: Option<TileName>)
        ensures
            final(self).spec_tiles() == old(self).spec_tiles(),
            final(self).spec_cursor() == old(self).spec_cursor(),
            old(self).spec_kan_count() < 4 ==> t == Some(old(self).spec_tiles()[135 - old(self).spec_kan_count()])
                && final(self).spec_kan_count() == old(self).spec_kan_count() + 1,
            old(self).spec_kan_count() >= 4 ==> t is None
                && final(self).spec_kan_count() == old(self).spec_kan_count(),
    {
        proof {
            use_type_invariant(&*self);
        }
        if self.kan_count >= 4 {
            return None;
        }
        let t = self.tiles[135 - self.kan_count];
        self.kan_count = self.kan_count + 1;
        Some(t)
    }

    /// Tiles still in the wall: 136 for a fresh wall, one fewer for each
    /// draw and each replacement tile taken.
    pub fn remaining(&self) -> (n: usize)
        ensures
            n == self.spec_remaining(),
            n > 14 <==> self.spec_live() > 0,
    {
        proof {
            use_type_invariant(self);
        }
        136 - self.cursor - self.kan_count
    }

    /// All 136 tiles, in wall order.
    pub fn tiles(&self) -> (s: &[TileName])
        ensures
            s@ == self.spec_tiles(),
            s@.len() == 136,
    {
        self.tiles.as_slice()
    }
}

impl Clone for Wall {
    fn clone(&self) -> (w: Wall)
        ensures
            w.spec_tiles() == self.spec_tiles(),
            w.spec_cursor() == self.spec_cursor(),
            w.spec_kan_count() == self.spec_kan_count(),
    {
        proof {
            use_type_invariant(self);
        }
        Wall { tiles: self.tiles, cursor: self.cursor, kan_count: self.kan_count }
    }
}

impl Default for Wall {
    fn default() -> (w: Wall)
        ensures
            w.spec_tiles().len() == 136,
            forall|k: int| 0 <= k < 136 ==> #[trigger] w.spec_tiles()[k] == fresh_tile(k),
            w.spec_cursor() == 0,
            w.spec_kan_count() == 0,
    {
        Wall::new()
    }
}

/// A fresh wall holds four copies of each of the 34 kinds and no `NoTile`.
pub proof fn lemma_fresh_wall_counts(tiles: Seq<TileName>)
    requires
        tiles.len() == 136,
        forall|k: int| 0 <= k < 136 ==> #[trigger] tiles[k] == fresh_tile(k),
    ensures
        forall|i: int| 1 <= i <= 34 ==> count_of(tiles, i) == 4,
        count_of(tiles, 0) == 0,
{
    assert(tiles.subrange(0, 136) =~= tiles);
    assert forall|i: int| 0 <= i <= 34 implies count_of(tiles, i) == if i == 0 { 0nat } else { 4nat } by {
        lemma_fresh_prefix_count(tiles, 136, i);
    }
}

proof fn lemma_fresh_prefix_count(tiles: Seq<TileName>, n: int, i: int)
    requires
        0 <= n <= 136,
        0 <= i <= 34,
        tiles.len() == 136,
        forall|k: int| 0 <= k < 136 ==> #[trigger] tiles[k] == fresh_tile(k),
    ensures
        count_of(tiles.subrange(0, n), i) == if i == 0 { 0 } else if 4 * i <= n { 4 } else if 4 * (i - 1) < n { n - 4 * (i - 1) } else { 0 },
    decreases n,
{
    if n == 0 {
        assert(tiles.subrange(0, 0).len() == 0);
    } else {
        lemma_fresh_prefix_count(tiles, n - 1, i);
        assert(tiles.subrange(0, n).drop_last() =~= tiles.subrange(0, n - 1));
        let t = tiles[n - 1];
        assert(t == fresh_tile(n - 1));
        assert(t.id() == (n - 1) / 4 + 1);
    }
    if n == 136 {
        assert(tiles.subrange(0, 136) =~= tiles);
    }
}

} // verus!
