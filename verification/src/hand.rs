//! A player's hand: the concealed tiles, their per-kind counts, and the open melds.
use vstd::prelude::*;
use crate::tile::TileName;
use crate::yaku::{is_number_tile, spec_number_info};

verus! {

/// A call (meld) taken by a player.
#[derive(Clone, Copy, Debug, PartialEq, Eq)]
pub enum Meld {
    Chii { called: TileName, consumed: [TileName; 2] },
    Pon(TileName),
    Daiminkan(TileName),
    Ankan(TileName),
    Kakan(TileName),
}

/// The tile that names a meld (the called tile of a chii).
pub open spec fn meld_tile(m: Meld) -> TileName {
    match m {
        Meld::Chii { called, .. } => called,
        Meld::Pon(t) => t,
        Meld::Daiminkan(t) => t,
        Meld::Ankan(t) => t,
        Meld::Kakan(t) => t,
    }
}

/// Whether a meld exposes tiles to the table (every meld but a closed kan).
pub open spec fn is_open_meld(m: Meld) -> bool {
    !(m is Ankan)
}

/// Whether some meld of the list is open.
pub open spec fn spec_has_open_meld(melds: Seq<Meld>) -> bool {
    exists|j: int| 0 <= j < melds.len() && is_open_meld(#[trigger] melds[j])
}

/// Whether the list holds an open meld.
pub fn has_open_meld(melds: &[Meld]) -> (b: bool)
    ensures
        b == spec_has_open_meld(melds@),
{
    let mut k: usize = 0;
    while k < melds.len()
        invariant
            k <= melds@.len(),
            forall|j: int| 0 <= j < k ==> !is_open_meld(#[trigger] melds@[j]),
        decreases melds@.len() - k,
    {
        match melds[k] {
            Meld::Ankan(_) => {},
            _ => {
                return true;
            },
        }
        k = k + 1;
    }
    false
}

/// Whether the hand is concealed: no meld other than closed kans.
pub fn is_menzen(melds: &[Meld]) -> (b: bool)
    ensures
        b == !spec_has_open_meld(melds@),
{
    !has_open_meld(melds)
}

/// Number of occurrences of the tile with index `i` in `s`.
pub open spec fn count_of(s: Seq<TileName>, i: int) -> nat
    decreases s.len(),
{
    if s.len() == 0 {
        0
    } else {
        count_of(s.drop_last(), i) + if s.last().id() == i { 1nat } else { 0nat }
    }
}

/// `counts` holds, for every index 0..=34, the number of tiles of that index in `s`.
pub open spec fn counts_match(s: Seq<TileName>, counts: Seq<u8>) -> bool {
    &&& counts.len() == 35
    &&& forall|i: int| 0 <= i < 35 ==> #[trigger] counts[i] == count_of(s, i)
}

pub proof fn lemma_count_of_push(s: Seq<TileName>, t: TileName, i: int)
    ensures
        count_of(s.push(t), i) == count_of(s, i) + if t.id() == i { 1nat } else { 0nat },
{
    assert(s.push(t).drop_last() =~= s);
}

pub proof fn lemma_count_of_append(a: Seq<TileName>, b: Seq<TileName>, i: int)
    ensures
        count_of(a + b, i) == count_of(a, i) + count_of(b, i),
    decreases b.len(),
{
    if b.len() == 0 {
        assert(a + b =~= a);
    } else {
        lemma_count_of_append(a, b.drop_last(), i);
        assert((a + b).drop_last() =~= a + b.drop_last());
    }
}

pub proof fn lemma_count_of_remove(s: Seq<TileName>, k: int, i: int)
    requires
        0 <= k < s.len(),
    ensures
        count_of(s, i) == count_of(s.remove(k), i) + if s[k].id() == i { 1nat } else { 0nat },
{
    let a = s.subrange(0, k);
    let b = s.subrange(k + 1, s.len() as int);
    assert(s =~= a + seq![s[k]] + b);
    assert(s.remove(k) =~= a + b);
    lemma_count_of_append(a + seq![s[k]], b, i);
    lemma_count_of_append(a, seq![s[k]], i);
    lemma_count_of_append(a, b, i);
    assert(seq![s[k]] =~= Seq::<TileName>::empty().push(s[k]));
    lemma_count_of_push(Seq::<TileName>::empty(), s[k], i);
}

/// A hand made by `Hand::new` and changed only by pushes of tiles other
/// than `NoTile`, discards and calls stays sound (each of these keeps
/// `sound`); and a sound hand holds at most 14 concealed tiles, none of them
/// `NoTile`, and counts every kind as often as the tiles hold it.
pub proof fn law_sound_hand(h: Hand)
    requires
        h.sound(),
    ensures
        h.spec_tiles().len() <= 14,
        forall|k: int| 0 <= k < h.spec_tiles().len() ==> #[trigger] h.spec_tiles()[k] != TileName::NoTile,
        forall|i: int| 0 <= i < 35 ==> #[trigger] h.spec_counts()[i] == count_of(h.spec_tiles(), i),
{
    h.lemma_len();
    lemma_count_of_positive(h.spec_tiles(), 0);
    assert forall|k: int| 0 <= k < h.spec_tiles().len() implies #[trigger] h.spec_tiles()[k] != TileName::NoTile by {
        if h.spec_tiles()[k] == TileName::NoTile {
            assert(h.spec_tiles()[k].id() == 0);
        }
    }
}

pub proof fn lemma_count_of_le_len(s: Seq<TileName>, i: int)
    ensures
        count_of(s, i) <= s.len(),
    decreases s.len(),
{
    if s.len() > 0 {
        lemma_count_of_le_len(s.drop_last(), i);
    }
}

/// Counts of a sequence of tiles whose index is not `i` do not see `i`.
pub proof fn lemma_count_of_positive(s: Seq<TileName>, i: int)
    ensures
        count_of(s, i) > 0 <==> exists|k: int| 0 <= k < s.len() && (#[trigger] s[k]).id() == i,
    decreases s.len(),
{
    if s.len() > 0 {
        lemma_count_of_positive(s.drop_last(), i);
        if count_of(s.drop_last(), i) > 0 {
            let k = choose|k: int| 0 <= k < s.drop_last().len() && (#[trigger] s.drop_last()[k]).id() == i;
            assert(s[k] == s.drop_last()[k]);
        }
        if s.last().id() == i {
            assert(s[s.len() - 1].id() == i);
        }
        assert forall|k: int| 0 <= k < s.len() && (#[trigger] s[k]).id() == i implies count_of(s, i) > 0 by {
            if k < s.len() - 1 {
                assert(s.drop_last()[k] == s[k]);
            }
        }
    }
}

/// The tiles that a meld takes out of the concealed hand.
pub open spec fn consumed_tiles(m: Meld) -> Seq<TileName> {
    match m {
        Meld::Chii { called, consumed } => seq![consumed[0], consumed[1]],
        Meld::Pon(t) => seq![t, t],
        Meld::Daiminkan(t) => seq![t, t, t],
        Meld::Ankan(t) => seq![t, t, t, t],
        Meld::Kakan(t) => seq![t],
    }
}

/// `s` without its first tile equal to `t` (unchanged when there is none).
pub open spec fn remove_first(s: Seq<TileName>, t: TileName) -> Seq<TileName>
    decreases s.len(),
{
    if s.len() == 0 {
        s
    } else if s[0] == t {
        s.drop_first()
    } else {
        seq![s[0]] + remove_first(s.drop_first(), t)
    }
}

/// Takes the tiles `ts` one after the other out of the concealed tiles `s`
/// (first copy of each), lowering the count of each tile that was found.
pub open spec fn strip(s: Seq<TileName>, c: Seq<u8>, ts: Seq<TileName>) -> (Seq<TileName>, Seq<u8>)
    decreases ts.len(),
{
    if ts.len() == 0 {
        (s, c)
    } else {
        let prev = strip(s, c, ts.drop_last());
        let t = ts.last();
        if prev.0.contains(t) {
            (remove_first(prev.0, t), prev.1.update(t.id(), (prev.1[t.id()] - 1) as u8))
        } else {
            prev
        }
    }
}

/// Whether the ranks, sorted, follow each other (x, x+1, x+2).
pub open spec fn consecutive3(a: int, b: int, c: int) -> bool {
    let lo = if a <= b && a <= c { a } else if b <= c { b } else { c };
    let hi = if a >= b && a >= c { a } else if b >= c { b } else { c };
    let mid = a + b + c - lo - hi;
    mid == lo + 1 && hi == mid + 1
}

/// The reason why a chii of `called` with `consumed` is refused, if any.
pub open spec fn chii_error(called: TileName, consumed: [TileName; 2]) -> Option<Seq<char>> {
    let c0 = consumed[0];
    let c1 = consumed[1];
    if spec_number_info(called) is None {
        Some("Invalid tile for Chii"@)
    } else if spec_number_info(c0) is None {
        Some("Invalid consumed tile for Chii"@)
    } else if spec_number_info(c0).unwrap().0 != spec_number_info(called).unwrap().0 {
        Some("Cross-suit Chii is not allowed"@)
    } else if spec_number_info(c1) is None {
        Some("Invalid consumed tile for Chii"@)
    } else if spec_number_info(c1).unwrap().0 != spec_number_info(called).unwrap().0 {
        Some("Cross-suit Chii is not allowed"@)
    } else if !consecutive3(
        spec_number_info(called).unwrap().1 as int,
        spec_number_info(c0).unwrap().1 as int,
        spec_number_info(c1).unwrap().1 as int,
    ) {
        Some("Tiles do not form a consecutive sequence"@)
    } else {
        None
    }
}

/// Whether the melds hold a pon of `t`.
pub open spec fn has_pon_of(melds: Seq<Meld>, t: TileName) -> bool {
    exists|j: int| 0 <= j < melds.len() && melds[j] == Meld::Pon(t)
}

/// Whether `j` is the first position of a pon of `t` in the melds.
pub open spec fn is_first_pon(melds: Seq<Meld>, t: TileName, j: int) -> bool {
    &&& 0 <= j < melds.len()
    &&& melds[j] == Meld::Pon(t)
    &&& forall|k: int| 0 <= k < j ==> melds[k] != Meld::Pon(t)
}

/// Whether the counts hold every tile that the list `ts` needs.
pub open spec fn counts_cover(counts: Seq<u8>, ts: Seq<TileName>) -> bool {
    forall|i: int| 0 <= i < 35 ==> count_of(ts, i) <= #[trigger] counts[i]
}

/// The reason why calling `meld` with these counts and melds is refused, if any.
pub open spec fn call_meld_error(counts: Seq<u8>, melds: Seq<Meld>, meld: Meld) -> Option<Seq<char>> {
    match meld {
        Meld::Chii { called, consumed } => {
            if chii_error(called, consumed) is Some {
                chii_error(called, consumed)
            } else if !counts_cover(counts, consumed_tiles(meld)) {
                Some("Missing required tiles in hand to call meld"@)
            } else {
                None
            }
        },
        Meld::Kakan(t) => {
            if !has_pon_of(melds, t) {
                Some("Cannot call Kakan without an existing Pon"@)
            } else if !counts_cover(counts, consumed_tiles(meld)) {
                Some("Missing required tiles in hand to call meld"@)
            } else {
                None
            }
        },
        _ => {
            if !counts_cover(counts, consumed_tiles(meld)) {
                Some("Missing required tiles in hand to call meld"@)
            } else {
                None
            }
        },
    }
}

/// A player's hand: up to 14 concealed tiles in order, the count of each
/// kind among them, and the open melds.
#[derive(Clone, Debug)]
pub struct Hand {
    tiles: [TileName; 14],
    len: usize,
    pub open_melds: Vec<Meld>,
    pub counts: [u8; 35],
}

impl Default for Hand {
    /// An empty hand.
    fn default() -> (h: Hand)
        ensures
            h.wf(),
            h.spec_tiles() == Seq::<TileName>::empty(),
            h.spec_melds() == Seq::<Meld>::empty(),
            h.spec_counts() == Seq::new(35, |i: int| 0u8),
    {
        Hand::new()
    }
}

impl Hand {
    /// The concealed tiles, in order.
    pub closed spec fn spec_tiles(&self) -> Seq<TileName> {
        self.tiles@.subrange(0, self.len as int)
    }

    /// The count of each tile kind (indices 0..=34).
    pub closed spec fn spec_counts(&self) -> Seq<u8> {
        self.counts@
    }

    /// The open melds.
    pub closed spec fn spec_melds(&self) -> Seq<Meld> {
        self.open_melds@
    }

    /// The concealed tiles are at most 14.
    pub closed spec fn spec_len_ok(&self) -> bool {
        self.len <= 14
    }

    /// Well-formed: at most 14 concealed tiles, and `counts` counts them.
    pub open spec fn wf(&self) -> bool {
        &&& self.spec_len_ok()
        &&& counts_match(self.spec_tiles(), self.spec_counts())
    }

    /// Sound: well-formed and holding no blank (`NoTile`) tile.
    pub open spec fn sound(&self) -> bool {
        self.wf() && self.spec_counts()[0] == 0
    }

    pub proof fn lemma_len(&self)
        requires
            self.spec_len_ok(),
        ensures
            self.spec_tiles().len() <= 14,
    {
    }

    pub fn new() -> (h: Hand)
        ensures
            h.wf(),
            h.sound(),
            h.spec_tiles() == Seq::<TileName>::empty(),
            h.spec_melds() == Seq::<Meld>::empty(),
            h.spec_counts() == Seq::new(35, |i: int| 0u8),
    {
        let h = Hand {
            tiles: [TileName::NoTile; 14],
            len: 0,
            open_melds: Vec::new(),
            counts: [0u8; 35],
        };
        assert(h.spec_tiles() =~= Seq::<TileName>::empty());
        assert(h.spec_counts() =~= Seq::new(35, |i: int| 0u8));
        h
    }

    /// The concealed tiles, in order.
    pub fn tiles(&self) -> (s: &[TileName])
        requires
            self.spec_len_ok(),
        ensures
            s@ == self.spec_tiles(),
    {
        vstd::slice::slice_subrange(self.tiles.as_slice(), 0, self.len)
    }

    /// The open melds.
    pub fn melds(&self) -> (m: &Vec<Meld>)
        ensures
            m@ == self.spec_melds(),
    {
        &self.open_melds
    }

    /// The count of each tile kind among the concealed tiles.
    pub fn tile_counts(&self) -> (c: &[u8; 35])
        ensures
            c@ == self.spec_counts(),
    {
        &self.counts
    }

    /// Number of concealed tiles.
    pub fn len(&self) -> (n: usize)
        requires
            self.spec_len_ok(),
        ensures
            n == self.spec_tiles().len(),
    {
        self.len
    }

    /// Adds a concealed tile.
    pub fn push(&mut self, tile: TileName)
        requires
            old(self).spec_len_ok(),
            old(self).spec_tiles().len() < 14,
            old(self).spec_counts()[tile.id()] < 255,
        ensures
            final(self).spec_len_ok(),
            final(self).spec_tiles() == old(self).spec_tiles().push(tile),
            final(self).spec_counts() == old(self).spec_counts().update(tile.id(), (old(self).spec_counts()[tile.id()] + 1) as u8),
            final(self).spec_melds() == old(self).spec_melds(),
            old(self).wf() ==> final(self).wf(),
            tile != TileName::NoTile && old(self).wf() ==> final(self).spec_counts()[0] == old(self).spec_counts()[0],
            tile != TileName::NoTile && old(self).sound() ==> final(self).sound(),
    {
        let ghost old_tiles = self.spec_tiles();
        let i = self.len;
        self.tiles[i] = tile;
        self.len = i + 1;
        let k = tile.index();
        self.counts[k] = self.counts[k] + 1;
        assert(self.spec_tiles() =~= old_tiles.push(tile));
        proof {
            if old(self).wf() {
                assert forall|j: int| 0 <= j < 35 implies #[trigger] self.spec_counts()[j] == count_of(self.spec_tiles(), j) by {
                    lemma_count_of_push(old_tiles, tile, j);
                }
            }
        }
    }

    /// Removes the concealed tile at `index` and returns it; the error
    /// "Index out of bounds" when there is no such tile.
    pub fn discard(&mut self, index: usize) -> (r: Result<TileName, &'static str>)
        requires
            old(self).spec_len_ok(),
            index < old(self).spec_tiles().len() ==> old(self).spec_counts()[old(self).spec_tiles()[index as int].id()] > 0,
        ensures
            final(self).spec_len_ok(),
            final(self).spec_melds() == old(self).spec_melds(),
            index >= old(self).spec_tiles().len() ==> (r matches Err(e) && e@ == "Index out of bounds"@
                && final(self).spec_tiles() == old(self).spec_tiles() && final(self).spec_counts() == old(self).spec_counts()),
            index < old(self).spec_tiles().len() ==> r == Ok::<TileName, &'static str>(old(self).spec_tiles()[index as int])
                && final(self).spec_tiles() == old(self).spec_tiles().remove(index as int)
                && final(self).spec_counts() == old(self).spec_counts().update(
                    old(self).spec_tiles()[index as int].id(),
                    (old(self).spec_counts()[old(self).spec_tiles()[index as int].id()] - 1) as u8),
            old(self).wf() ==> final(self).wf(),
            old(self).wf() ==> final(self).spec_counts()[0] <= old(self).spec_counts()[0],
            old(self).sound() ==> final(self).sound(),
    {
        if index >= self.len {
            return Err("Index out of bounds");
        }
        let ghost old_tiles = self.spec_tiles();
        let ghost old_arr = self.tiles@;
        let removed = self.tiles[index];
        let n = self.len;
        let mut j = index;
        while j + 1 < n
            invariant
                index <= j < n,
                n == old(self).len,
                n <= 14,
                self.len == n,
                self.spec_melds() == old(self).spec_melds(),
                self.spec_counts() == old(self).spec_counts(),
                forall|k: int| 0 <= k < index ==> self.tiles@[k] == old_arr[k],
                forall|k: int| index <= k < j ==> self.tiles@[k] == old_arr[k + 1],
                forall|k: int| j <= k < 14 ==> self.tiles@[k] == old_arr[k],
            decreases n - j,
        {
            self.tiles[j] = self.tiles[j + 1];
            j = j + 1;
        }
        self.len = n - 1;
        let k = removed.index();
        self.counts[k] = self.counts[k] - 1;
        assert(self.spec_tiles() =~= old_tiles.remove(index as int));
        proof {
            if old(self).wf() {
                assert forall|i: int| 0 <= i < 35 implies #[trigger] self.spec_counts()[i] == count_of(self.spec_tiles(), i) by {
                    lemma_count_of_remove(old_tiles, index as int, i);
                }
            }
        }
        Ok(removed)
    }

    /// Takes a meld: checks it against the hand, removes the tiles it needs
    /// from the concealed tiles, and records it (a kakan turns the pon of the
    /// same tile into the kan). On a refusal the hand is left as it was.
    pub fn call_meld(&mut self, meld: Meld) -> (r: Result<(), &'static str>)
        requires
            old(self).spec_len_ok(),
        ensures
            final(self).spec_len_ok(),
            call_meld_error(old(self).spec_counts(), old(self).spec_melds(), meld) matches Some(msg) ==> (
                r matches Err(e) && e@ == msg
                && final(self).spec_tiles() == old(self).spec_tiles()
                && final(self).spec_counts() == old(self).spec_counts()
                && final(self).spec_melds() == old(self).spec_melds()),
            call_meld_error(old(self).spec_counts(), old(self).spec_melds(), meld) is None ==> {
                &&& r is Ok
                &&& final(self).spec_tiles() == strip(old(self).spec_tiles(), old(self).spec_counts(), consumed_tiles(meld)).0
                &&& final(self).spec_counts() == strip(old(self).spec_tiles(), old(self).spec_counts(), consumed_tiles(meld)).1
                &&& (meld is Kakan ==> exists|j: int| is_first_pon(old(self).spec_melds(), meld_tile(meld), j)
                        && final(self).spec_melds() == old(self).spec_melds().update(j, meld))
                &&& (!(meld is Kakan) ==> final(self).spec_melds() == old(self).spec_melds().push(meld))
            },
            old(self).wf() ==> final(self).wf(),
            old(self).wf() && r is Ok ==> final(self).spec_tiles().len() + consumed_tiles(meld).len() == old(self).spec_tiles().len(),
            old(self).wf() && r is Ok ==> forall|i: int| 0 <= i < 35 ==>
                #[trigger] final(self).spec_counts()[i] + count_of(consumed_tiles(meld), i) == old(self).spec_counts()[i],
            old(self).wf() ==> final(self).spec_counts()[0] <= old(self).spec_counts()[0],
            old(self).sound() ==> final(self).sound(),
    {
        let mut need: [TileName; 4] = [TileName::NoTile; 4];
        let need_len: usize;
        let ghost needed = consumed_tiles(meld);
        match meld {
            Meld::Chii { called, consumed } => {
                let info = match is_number_tile(called) {
                    Some(x) => x,
                    None => { return Err("Invalid tile for Chii"); },
                };
                let i0 = match is_number_tile(consumed[0]) {
                    Some(x) => x,
                    None => { return Err("Invalid consumed tile for Chii"); },
                };
                if i0.0 != info.0 {
                    return Err("Cross-suit Chii is not allowed");
                }
                let i1 = match is_number_tile(consumed[1]) {
                    Some(x) => x,
                    None => { return Err("Invalid consumed tile for Chii"); },
                };
                if i1.0 != info.0 {
                    return Err("Cross-suit Chii is not allowed");
                }
                let (a, b, c) = (info.1, i0.1, i1.1);
                let lo = if a <= b && a <= c { a } else if b <= c { b } else { c };
                let hi = if a >= b && a >= c { a } else if b >= c { b } else { c };
                let mid = a + b + c - lo - hi;
                if !(mid == lo + 1 && hi == mid + 1) {
                    return Err("Tiles do not form a consecutive sequence");
                }
                need[0] = consumed[0];
                need[1] = consumed[1];
                need_len = 2;
            },
            Meld::Pon(t) => {
                need[0] = t;
                need[1] = t;
                need_len = 2;
            },
            Meld::Daiminkan(t) => {
                need[0] = t;
                need[1] = t;
                need[2] = t;
                need_len = 3;
            },
            Meld::Ankan(t) => {
                need[0] = t;
                need[1] = t;
                need[2] = t;
                need[3] = t;
                need_len = 4;
            },
            Meld::Kakan(t) => {
                if find_pon(&self.open_melds, t).is_none() {
                    return Err("Cannot call Kakan without an existing Pon");
                }
                need[0] = t;
                need_len = 1;
            },
        }
        assert(need@.subrange(0, need_len as int) =~= needed);
        // Every needed tile must be in the counts, copies included.
        let mut avail = self.counts;
        let mut k: usize = 0;
        while k < need_len
            invariant
                k <= need_len <= 4,
                need@.subrange(0, need_len as int) =~= needed,
                forall|i: int| 0 <= i < 35 ==> #[trigger] avail@[i] + count_of(needed.subrange(0, k as int), i) == old(self).spec_counts()[i],
                needed == consumed_tiles(meld),
                meld is Chii ==> chii_error(meld->called, meld->consumed) is None,
                meld is Kakan ==> has_pon_of(old(self).spec_melds(), meld_tile(meld)),
                self.spec_counts() == old(self).spec_counts(),
                self.spec_melds() == old(self).spec_melds(),
                self.spec_tiles() == old(self).spec_tiles(),
                self.spec_len_ok(),
            decreases need_len - k,
        {
            let t = need[k];
            let ti = t.index();
            proof {
                assert(needed.subrange(0, k as int + 1) =~= needed.subrange(0, k as int).push(t));
                assert forall|i: int| 0 <= i < 35 implies count_of(needed.subrange(0, k as int + 1), i)
                    == count_of(needed.subrange(0, k as int), i) + if t.id() == i { 1nat } else { 0nat } by {
                    lemma_count_of_push(needed.subrange(0, k as int), t, i);
                }
            }
            if avail[ti] > 0 {
                avail[ti] = avail[ti] - 1;
            } else {
                proof {
                    assert(count_of(needed.subrange(0, k as int + 1), ti as int) > old(self).spec_counts()[ti as int]);
                    lemma_count_prefix_le(needed, k as int + 1, ti as int);
                }
                return Err("Missing required tiles in hand to call meld");
            }
            k = k + 1;
        }
        assert(needed.subrange(0, need_len as int) =~= needed);
        assert forall|i: int| 0 <= i < 35 implies count_of(needed, i) <= #[trigger] old(self).spec_counts()[i] by {
            assert(avail@[i] + count_of(needed.subrange(0, k as int), i) == old(self).spec_counts()[i]);
        }
        // Take the tiles out of the concealed hand.
        let mut m: usize = 0;
        while m < need_len
            invariant
                m <= need_len <= 4,
                need@.subrange(0, need_len as int) =~= needed,
                self.spec_len_ok(),
                (self.spec_tiles(), self.spec_counts()) == strip(old(self).spec_tiles(), old(self).spec_counts(), needed.subrange(0, m as int)),
                self.spec_melds() == old(self).spec_melds(),
                counts_cover(old(self).spec_counts(), needed),
                forall|i: int| 0 <= i < 35 ==> #[trigger] self.spec_counts()[i] + count_of(needed.subrange(0, m as int), i) >= old(self).spec_counts()[i],
                old(self).wf() ==> self.wf(),
                old(self).wf() ==> self.spec_tiles().len() + m == old(self).spec_tiles().len(),
                old(self).wf() ==> forall|i: int| 0 <= i < 35 ==> #[trigger] self.spec_counts()[i] + count_of(needed.subrange(0, m as int), i) == old(self).spec_counts()[i],
            decreases need_len - m,
        {
            let t = need[m];
            let ghost before = self.spec_tiles();
            let ghost before_counts = self.spec_counts();
            let ghost ti = t.id();
            proof {
                assert(needed.subrange(0, m as int + 1).drop_last() =~= needed.subrange(0, m as int));
                assert(needed.subrange(0, m as int + 1) =~= needed.subrange(0, m as int).push(t));
                assert forall|i: int| 0 <= i < 35 implies count_of(needed.subrange(0, m as int + 1), i)
                    == count_of(needed.subrange(0, m as int), i) + if t.id() == i { 1nat } else { 0nat } by {
                    lemma_count_of_push(needed.subrange(0, m as int), t, i);
                }
                lemma_count_prefix_le(needed, m as int + 1, ti);
                assert(before_counts[ti] > 0);
            }
            let pos = self.find_tile(t);
            match pos {
                Some(p) => {
                    proof {
                        lemma_remove_first_at(before, t, p as int);
                    }
                    let _ = self.discard(p);
                },
                None => {
                    proof {
                        lemma_remove_first_absent(before, t);
                        if old(self).wf() {
                            lemma_count_of_positive(before, ti);
                            let k = choose|k: int| 0 <= k < before.len() && (#[trigger] before[k]).id() == ti;
                            crate::tile::lemma_tile_index(before[k]);
                            crate::tile::lemma_tile_index(t);
                            assert(before[k] == t);
                            assert(before.contains(t));
                        }
                    }
                },
            }
            m = m + 1;
        }
        assert(needed.subrange(0, need_len as int) =~= needed);
        match meld {
            Meld::Kakan(t) => {
                match find_pon(&self.open_melds, t) {
                    Some(j) => {
                        self.open_melds.set(j, meld);
                    },
                    None => {},
                }
            },
            _ => {
                self.open_melds.push(meld);
            },
        }
        Ok(())
    }

    /// The position of the first concealed tile equal to `t`, if any.
    fn find_tile(&self, t: TileName) -> (r: Option<usize>)
        requires
            self.spec_len_ok(),
        ensures
            r matches Some(p) ==> (p < self.spec_tiles().len() && self.spec_tiles()[p as int] == t
                && forall|k: int| 0 <= k < p ==> self.spec_tiles()[k] != t),
            r is None ==> !self.spec_tiles().contains(t),
    {
        let mut j: usize = 0;
        while j < self.len
            invariant
                j <= self.len <= 14,
                forall|k: int| 0 <= k < j ==> self.spec_tiles()[k] != t,
            decreases self.len - j,
        {
            if self.tiles[j] == t {
                return Some(j);
            }
            j = j + 1;
        }
        None
    }
}

/// The position of the first pon of `t` among the melds, if any.
fn find_pon(melds: &Vec<Meld>, t: TileName) -> (r: Option<usize>)
    ensures
        r matches Some(j) ==> is_first_pon(melds@, t, j as int),
        r is None ==> !has_pon_of(melds@, t),
{
    let mut j: usize = 0;
    while j < melds.len()
        invariant
            j <= melds@.len(),
            forall|k: int| 0 <= k < j ==> melds@[k] != Meld::Pon(t),
        decreases melds@.len() - j,
    {
        if let Meld::Pon(p) = melds[j] {
            if p == t {
                return Some(j);
            }
        }
        j = j + 1;
    }
    None
}

proof fn lemma_count_prefix_le(s: Seq<TileName>, n: int, i: int)
    requires
        0 <= n <= s.len(),
    ensures
        count_of(s.subrange(0, n), i) <= count_of(s, i),
{
    lemma_count_of_append(s.subrange(0, n), s.subrange(n, s.len() as int), i);
    assert(s.subrange(0, n) + s.subrange(n, s.len() as int) =~= s);
}

/// Removing the first copy of `t` at position `p` is removing position `p`.
pub proof fn lemma_remove_first_at(s: Seq<TileName>, t: TileName, p: int)
    requires
        0 <= p < s.len(),
        s[p] == t,
        forall|k: int| 0 <= k < p ==> s[k] != t,
    ensures
        remove_first(s, t) == s.remove(p),
        s.contains(t),
    decreases p,
{
    if p == 0 {
        assert(s.drop_first() =~= s.remove(0));
    } else {
        lemma_remove_first_at(s.drop_first(), t, p - 1);
        assert(seq![s[0]] + s.drop_first().remove(p - 1) =~= s.remove(p));
    }
    assert(s[p] == t);
}

/// Removing a tile that is absent changes nothing.
pub proof fn lemma_remove_first_absent(s: Seq<TileName>, t: TileName)
    requires
        !s.contains(t),
    ensures
        remove_first(s, t) == s,
    decreases s.len(),
{
    if s.len() > 0 {
        assert(s[0] != t);
        assert(!s.drop_first().contains(t)) by {
            if s.drop_first().contains(t) {
                let k = choose|k: int| 0 <= k < s.drop_first().len() && s.drop_first()[k] == t;
                assert(s[k + 1] == t);
            }
        }
        lemma_remove_first_absent(s.drop_first(), t);
        assert(seq![s[0]] + s.drop_first() =~= s);
    }
}

} // verus!
