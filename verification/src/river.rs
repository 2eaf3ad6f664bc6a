//! The river: the discards of one player, in order.
use vstd::prelude::*;
use crate::tile::TileName;

verus! {

/// The discards of one player, oldest first.
#[derive(Debug, Clone)]
pub struct River {
    tiles: Vec<TileName>,
}

impl View for River {
    type V = Seq<TileName>;

    closed spec fn view(&self) -> Seq<TileName> {
        self.tiles@
    }
}

impl Default for River {
    /// An empty river.
    fn default() -> (r: River)
        ensures
            r@ == Seq::<TileName>::empty(),
    {
        River::new()
    }
}

impl River {
    pub fn new() -> (r: River)
        ensures
            r@ == Seq::<TileName>::empty(),
    {
        River { tiles: Vec::new() }
    }

    pub fn tiles(&self) -> (s: &[TileName])
        ensures
            s@ == self@,
    {
        self.tiles.as_slice()
    }

    /// Appends a discard.
    pub fn push(&mut self, tile: TileName)
        ensures
            final(self)@ == old(self)@.push(tile),
    {
        self.tiles.push(tile);
    }

    /// Removes and returns the latest discard, if any.
    pub fn pop(&mut self) -> (t: Option<TileName>)
        ensures
            old(self)@.len() == 0 ==> t.is_none() && final(self)@ == old(self)@,
            old(self)@.len() > 0 ==> t == Some(old(self)@.last())
                && final(self)@ == old(self)@.drop_last(),
    {
        self.tiles.pop()
    }
}

/// Pushing a tile and popping it again gives back that tile and the river as it was.
pub proof fn lemma_push_then_pop(r: Seq<TileName>, t: TileName)
    ensures
        r.push(t).len() > 0,
        r.push(t).last() == t,
        r.push(t).drop_last() == r,
{
    assert(r.push(t).drop_last() =~= r);
}

} // verus!
