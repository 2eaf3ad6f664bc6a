//! Decompositions of a winning hand into a pair and melds.
use vstd::prelude::*;
use crate::tile::TileName;
use crate::hand::Meld;
use crate::yaku::{is_number_tile, spec_number_info};

verus! {

broadcast use {vstd::seq_lib::group_to_multiset_ensures, vstd::seq_lib::lemma_multiset_commutative, vstd::multiset::group_multiset_axioms};

/// A meld of a hand pattern. A sequence found in the concealed tiles is
/// named by its lowest tile; one that was called (a chii) is named by the
/// called tile. A triplet or a quad is named by its tile.
#[derive(Clone, Copy, PartialEq, Eq, Debug, Structural)]
pub enum MeldKind {
    Sequence(TileName),
    Triplet(TileName),
    Quad(TileName),
}

/// A pair and the melds around it: `melds` are the concealed ones (closed
/// kans first), `open_melds` the called ones.
#[derive(Clone, Debug)]
pub struct HandPattern {
    pub pair: TileName,
    pub melds: Vec<MeldKind>,
    pub open_melds: Vec<MeldKind>,
}

impl HandPattern {
    /// Every meld of the pattern: the concealed ones, then the called ones.
    pub open spec fn spec_all_melds(&self) -> Seq<MeldKind> {
        self.melds@ + self.open_melds@
    }

    /// Every meld of the pattern: the concealed ones, then the called ones.
    pub fn all_melds(&self) -> (v: Vec<MeldKind>)
        ensures
            v@ == self.spec_all_melds(),
    {
        concat_melds(self.melds.as_slice(), self.open_melds.as_slice())
    }
}

/// The copies of `a` then `b` in one vector.
pub fn concat_melds(a: &[MeldKind], b: &[MeldKind]) -> (v: Vec<MeldKind>)
    ensures
        v@ == a@ + b@,
{
    let mut v: Vec<MeldKind> = Vec::new();
    let mut i: usize = 0;
    while i < a.len()
        invariant
            i <= a.len(),
            v@ == a@.subrange(0, i as int),
        decreases a.len() - i,
    {
        v.push(a[i]);
        i = i + 1;
        proof {
            assert(v@ =~= a@.subrange(0, i as int));
        }
    }
    let mut j: usize = 0;
    while j < b.len()
        invariant
            j <= b.len(),
            v@ == a@ + b@.subrange(0, j as int),
        decreases b.len() - j,
    {
        v.push(b[j]);
        j = j + 1;
        proof {
            assert(v@ =~= a@ + b@.subrange(0, j as int));
        }
    }
    proof {
        assert(a@.subrange(0, a.len() as int) =~= a@);
        assert(b@.subrange(0, b.len() as int) =~= b@);
    }
    v
}

/// How many tiles of index `k` the meld takes.
pub open spec fn meld_use(m: MeldKind, k: int) -> int {
    match m {
        MeldKind::Sequence(t) => if t.id() <= k <= t.id() + 2 { 1 } else { 0 },
        MeldKind::Triplet(t) => if k == t.id() { 3 } else { 0 },
        MeldKind::Quad(t) => if k == t.id() { 4 } else { 0 },
    }
}

/// How many tiles of index `k` the melds take together.
pub open spec fn melds_use(s: Seq<MeldKind>, k: int) -> int
    decreases s.len(),
{
    if s.len() == 0 {
        0
    } else {
        melds_use(s.drop_last(), k) + meld_use(s.last(), k)
    }
}

/// A meld that concealed tiles can form: a triplet of a tile, or a run of
/// three in one suit starting at rank 7 or lower.
pub open spec fn is_hand_meld(m: MeldKind) -> bool {
    match m {
        MeldKind::Triplet(t) => 1 <= t.id() <= 34,
        MeldKind::Sequence(t) => 1 <= t.id() <= 27 && (t.id() - 1) % 9 <= 6,
        MeldKind::Quad(_) => false,
    }
}

/// `f` is a list of melds that takes exactly the tiles counted in `w`
/// (index 0 aside).
pub open spec fn decomposes(w: Seq<u8>, f: Seq<MeldKind>) -> bool {
    &&& forall|i: int| 0 <= i < f.len() ==> is_hand_meld(#[trigger] f[i])
    &&& forall|k: int| 1 <= k < 35 ==> #[trigger] melds_use(f, k) == w[k] as int
}

/// The counts with a pair of tile `p` set aside.
pub open spec fn without_pair(c: Seq<u8>, p: int) -> Seq<u8> {
    c.update(p, (c[p] - 2) as u8)
}

/// A way to read the concealed tiles `c` as the pair `p` and the melds `f`.
pub open spec fn is_reading(c: Seq<u8>, p: int, f: Seq<MeldKind>) -> bool {
    &&& 1 <= p < 35
    &&& c[p] >= 2
    &&& decomposes(without_pair(c, p), f)
}

/// The pattern reads the concealed tiles `c` as its pair and `prefix`
/// followed by melds that take the rest of the tiles, and holds `open` as
/// its called melds.
pub open spec fn pattern_reads(pt: HandPattern, c: Seq<u8>, prefix: Seq<MeldKind>, open: Seq<MeldKind>) -> bool {
    &&& pt.open_melds@ == open
    &&& exists|f: Seq<MeldKind>| #[trigger] is_reading(c, pt.pair.id(), f) && pt.melds@ == prefix + f
}

/// Tiles left at indices `k..35`.
pub open spec fn tiles_from(c: Seq<u8>, k: int) -> int
    decreases 35 - k,
{
    if k >= 35 || k < 0 {
        0
    } else {
        c[k] + tiles_from(c, k + 1)
    }
}

proof fn lemma_tiles_from_update(c: Seq<u8>, i: int, v: u8, k: int)
    requires
        c.len() == 35,
        1 <= k,
        0 <= i < 35,
    ensures
        k <= i ==> tiles_from(c.update(i, v), k) == tiles_from(c, k) - c[i] + v,
        i < k ==> tiles_from(c.update(i, v), k) == tiles_from(c, k),
    decreases 35 - k,
{
    if k < 35 {
        lemma_tiles_from_update(c, i, v, k + 1);
    }
}

proof fn lemma_tiles_from_nonneg(c: Seq<u8>, k: int)
    ensures
        tiles_from(c, k) >= 0,
    decreases 35 - k,
{
    if 0 <= k < 35 {
        lemma_tiles_from_nonneg(c, k + 1);
    }
}

proof fn lemma_melds_use_append(a: Seq<MeldKind>, b: Seq<MeldKind>, k: int)
    ensures
        melds_use(a + b, k) == melds_use(a, k) + melds_use(b, k),
    decreases b.len(),
{
    if b.len() == 0 {
        assert(a + b =~= a);
    } else {
        lemma_melds_use_append(a, b.drop_last(), k);
        assert((a + b).drop_last() =~= a + b.drop_last());
    }
}

proof fn lemma_melds_use_single(m: MeldKind, k: int)
    ensures
        melds_use(seq![m], k) == meld_use(m, k),
{
    assert(seq![m].drop_last() =~= Seq::<MeldKind>::empty());
    assert(melds_use(Seq::<MeldKind>::empty(), k) == 0);
    assert(seq![m].last() == m);
}

proof fn lemma_melds_use_remove(f: Seq<MeldKind>, q: int, k: int)
    requires
        0 <= q < f.len(),
    ensures
        melds_use(f, k) == melds_use(f.remove(q), k) + meld_use(f[q], k),
{
    let a = f.subrange(0, q);
    let b = f.subrange(q + 1, f.len() as int);
    assert(f =~= a + seq![f[q]] + b);
    assert(f.remove(q) =~= a + b);
    lemma_melds_use_append(a + seq![f[q]], b, k);
    lemma_melds_use_append(a, seq![f[q]], k);
    lemma_melds_use_append(a, b, k);
    lemma_melds_use_single(f[q], k);
}

proof fn lemma_melds_use_nonneg(f: Seq<MeldKind>, k: int)
    ensures
        melds_use(f, k) >= 0,
    decreases f.len(),
{
    if f.len() > 0 {
        lemma_melds_use_nonneg(f.drop_last(), k);
    }
}

/// A tile taken by the melds is taken by one of them.
proof fn lemma_melds_use_witness(f: Seq<MeldKind>, k: int) -> (q: int)
    requires
        melds_use(f, k) > 0,
    ensures
        0 <= q < f.len(),
        meld_use(f[q], k) > 0,
    decreases f.len(),
{
    if meld_use(f.last(), k) > 0 {
        (f.len() - 1) as int
    } else {
        lemma_melds_use_witness(f.drop_last(), k)
    }
}

/// Every meld of the list takes at most what the list takes together.
proof fn lemma_melds_use_ge(f: Seq<MeldKind>, q: int, k: int)
    requires
        0 <= q < f.len(),
    ensures
        melds_use(f, k) >= meld_use(f[q], k),
{
    lemma_melds_use_remove(f, q, k);
    lemma_melds_use_nonneg(f.remove(q), k);
}

/// With no tile left, the empty list is the only reading.
proof fn lemma_decomposes_empty(w: Seq<u8>, f: Seq<MeldKind>)
    requires
        w.len() == 35,
        decomposes(w, f),
        forall|k: int| 1 <= k < 35 ==> w[k] == 0,
    ensures
        f.len() == 0,
{
    if f.len() > 0 {
        let m = f[f.len() - 1];
        assert(is_hand_meld(f[f.len() - 1]));
        let k = match m {
            MeldKind::Triplet(t) => t.id(),
            MeldKind::Sequence(t) => t.id(),
            MeldKind::Quad(t) => t.id(),
        };
        lemma_melds_use_ge(f, f.len() - 1, k);
        assert(melds_use(f, k) == w[k] as int);
    }
}

/// Removing one meld from a reading of `w` leaves a reading of what the
/// meld does not take.
proof fn lemma_decomposes_remove(w: Seq<u8>, f: Seq<MeldKind>, q: int, w2: Seq<u8>)
    requires
        decomposes(w, f),
        0 <= q < f.len(),
        w2.len() == w.len(),
        forall|k: int| 1 <= k < 35 ==> w2[k] as int == w[k] as int - meld_use(f[q], k),
    ensures
        decomposes(w2, f.remove(q)),
{
    assert forall|i: int| 0 <= i < f.remove(q).len() implies is_hand_meld(#[trigger] f.remove(q)[i]) by {
        if i < q {
            assert(f.remove(q)[i] == f[i]);
        } else {
            assert(f.remove(q)[i] == f[i + 1]);
        }
    }
    assert forall|k: int| 1 <= k < 35 implies #[trigger] melds_use(f.remove(q), k) == w2[k] as int by {
        lemma_melds_use_remove(f, q, k);
        assert(melds_use(f, k) == w[k] as int);
    }
}

/// Prepending a meld to a reading of what it leaves gives a reading.
proof fn lemma_decomposes_prepend(w: Seq<u8>, m: MeldKind, f: Seq<MeldKind>, w2: Seq<u8>)
    requires
        decomposes(w2, f),
        is_hand_meld(m),
        forall|k: int| 1 <= k < 35 ==> w2[k] as int == w[k] as int - meld_use(m, k),
    ensures
        decomposes(w, seq![m] + f),
{
    assert forall|i: int| 0 <= i < (seq![m] + f).len() implies is_hand_meld(#[trigger] (seq![m] + f)[i]) by {
        if i > 0 {
            assert((seq![m] + f)[i] == f[i - 1]);
        }
    }
    assert forall|k: int| 1 <= k < 35 implies #[trigger] melds_use(seq![m] + f, k) == w[k] as int by {
        lemma_melds_use_append(seq![m], f, k);
        lemma_melds_use_single(m, k);
        assert(melds_use(f, k) == w2[k] as int);
    }
}

/// Every pattern of `ps` at an index in `start..end` has the pair `pair`,
/// the called melds `open`, and concealed melds made of `prefix` and a
/// reading of `w`.
pub open spec fn found_sound(
    ps: Seq<HandPattern>,
    start: int,
    end: int,
    pair: TileName,
    w: Seq<u8>,
    prefix: Seq<MeldKind>,
    open: Seq<MeldKind>,
) -> bool {
    forall|i: int|
        start <= i < end ==> {
            &&& (#[trigger] ps[i]).pair == pair
            &&& ps[i].open_melds@ == open
            &&& exists|f: Seq<MeldKind>| #[trigger] decomposes(w, f) && ps[i].melds@ == prefix + f
        }
}

/// Every reading of `w` appears, up to the order of the melds, after
/// `prefix` in a pattern of `ps` at an index in `start..end` with the pair
/// `pair`.
pub open spec fn found_complete(
    ps: Seq<HandPattern>,
    start: int,
    end: int,
    pair: TileName,
    w: Seq<u8>,
    prefix: Seq<MeldKind>,
) -> bool {
    forall|f: Seq<MeldKind>|
        #[trigger] decomposes(w, f) ==> exists|i: int|
            start <= i < end && (#[trigger] ps[i]).pair == pair
                && ps[i].melds@.to_multiset() == (prefix + f).to_multiset()
}

/// What one meld leaves of the counts `w`.
pub open spec fn leaves(w: Seq<u8>, m: MeldKind, w2: Seq<u8>) -> bool {
    &&& w2.len() == w.len()
    &&& forall|k: int| 1 <= k < 35 ==> #[trigger] w2[k] as int == w[k] as int - meld_use(m, k)
}

proof fn lemma_step_sound(
    ps: Seq<HandPattern>,
    start: int,
    end: int,
    pair: TileName,
    w: Seq<u8>,
    prefix: Seq<MeldKind>,
    open: Seq<MeldKind>,
    m: MeldKind,
    w2: Seq<u8>,
)
    requires
        found_sound(ps, start, end, pair, w2, prefix.push(m), open),
        is_hand_meld(m),
        leaves(w, m, w2),
    ensures
        found_sound(ps, start, end, pair, w, prefix, open),
{
    assert forall|k: int| start <= k < end implies {
        &&& (#[trigger] ps[k]).pair == pair
        &&& ps[k].open_melds@ == open
        &&& exists|f: Seq<MeldKind>| #[trigger] decomposes(w, f) && ps[k].melds@ == prefix + f
    } by {
        let f2 = choose|f: Seq<MeldKind>| #[trigger] decomposes(w2, f) && ps[k].melds@ == prefix.push(m) + f;
        lemma_decomposes_prepend(w, m, f2, w2);
        assert(ps[k].melds@ =~= prefix + (seq![m] + f2));
    }
}

proof fn lemma_sound_extend(
    ps: Seq<HandPattern>,
    qs: Seq<HandPattern>,
    start: int,
    end: int,
    pair: TileName,
    w: Seq<u8>,
    prefix: Seq<MeldKind>,
    open: Seq<MeldKind>,
)
    requires
        found_sound(ps, start, end, pair, w, prefix, open),
        0 <= start,
        end <= ps.len(),
        end <= qs.len(),
        forall|i: int| 0 <= i < ps.len() ==> qs[i] == ps[i],
    ensures
        found_sound(qs, start, end, pair, w, prefix, open),
{
    assert forall|k: int| start <= k < end implies {
        &&& (#[trigger] qs[k]).pair == pair
        &&& qs[k].open_melds@ == open
        &&& exists|f: Seq<MeldKind>| #[trigger] decomposes(w, f) && qs[k].melds@ == prefix + f
    } by {
        assert(ps[k] == qs[k]);
    }
}

/// The lowest tile left is taken either as a triplet or as the start of a
/// run, so the two searches below find every reading.
proof fn lemma_step_complete(
    ps: Seq<HandPattern>,
    start: int,
    mid: int,
    end: int,
    pair: TileName,
    c0: Seq<u8>,
    prefix: Seq<MeldKind>,
    i: int,
    w_t: Seq<u8>,
    w_s: Seq<u8>,
)
    requires
        c0.len() == 35,
        1 <= i < 35,
        c0[i] > 0,
        forall|j: int| 1 <= j < i ==> c0[j] == 0,
        start <= mid <= end,
        c0[i] >= 3 ==> leaves(c0, MeldKind::Triplet(TileName::spec_from_index(i)), w_t),
        (1 <= i <= 27 && (i - 1) % 9 <= 6 && c0[i + 1] > 0 && c0[i + 2] > 0) ==> leaves(
            c0,
            MeldKind::Sequence(TileName::spec_from_index(i)),
            w_s,
        ),
        c0[i] >= 3 ==> found_complete(ps, start, mid, pair, w_t, prefix.push(MeldKind::Triplet(TileName::spec_from_index(i)))),
        (1 <= i <= 27 && (i - 1) % 9 <= 6 && c0[i + 1] > 0 && c0[i + 2] > 0) ==> found_complete(
            ps,
            mid,
            end,
            pair,
            w_s,
            prefix.push(MeldKind::Sequence(TileName::spec_from_index(i))),
        ),
    ensures
        found_complete(ps, start, end, pair, c0, prefix),
{
    let tile = TileName::spec_from_index(i);
    let t = MeldKind::Triplet(tile);
    let s = MeldKind::Sequence(tile);
    assert forall|f: Seq<MeldKind>| #[trigger] decomposes(c0, f) implies exists|k: int|
        start <= k < end && (#[trigger] ps[k]).pair == pair
            && ps[k].melds@.to_multiset() == (prefix + f).to_multiset() by {
        assert(melds_use(f, i) == c0[i] as int);
        let q = lemma_melds_use_witness(f, i);
        let m = f[q];
        assert(is_hand_meld(f[q]));
        lemma_melds_use_ge(f, q, i);
        let f2 = f.remove(q);
        match m {
            MeldKind::Triplet(u) => {
                crate::tile::lemma_tile_index(u);
                assert(u == tile);
                lemma_decomposes_remove(c0, f, q, w_t);
                let k = choose|k: int|
                    start <= k < mid && (#[trigger] ps[k]).pair == pair
                        && ps[k].melds@.to_multiset() == (prefix.push(t) + f2).to_multiset();
                assert((prefix.push(t) + f2).to_multiset() =~= (prefix + f).to_multiset());
            }
            MeldKind::Sequence(u) => {
                if u.id() < i {
                    lemma_melds_use_ge(f, q, u.id());
                    assert(melds_use(f, u.id()) == c0[u.id()] as int);
                }
                crate::tile::lemma_tile_index(u);
                assert(u == tile);
                lemma_melds_use_ge(f, q, i + 1);
                lemma_melds_use_ge(f, q, i + 2);
                assert(melds_use(f, i + 1) == c0[i + 1] as int);
                assert(melds_use(f, i + 2) == c0[i + 2] as int);
                lemma_decomposes_remove(c0, f, q, w_s);
                let k = choose|k: int|
                    mid <= k < end && (#[trigger] ps[k]).pair == pair
                        && ps[k].melds@.to_multiset() == (prefix.push(s) + f2).to_multiset();
                assert((prefix.push(s) + f2).to_multiset() =~= (prefix + f).to_multiset());
            }
            MeldKind::Quad(_) => {}
        }
    }
}

/// Depth-first search of the ways to read the tiles counted in `counts` as
/// melds, taking at each step the lowest tile left as a triplet or as the
/// start of a run. Each way found is pushed as a pattern made of
/// `closed_melds`, the melds of `melds` and the melds found.
fn search_melds(
    counts: &mut [u8; 35],
    melds: &mut Vec<MeldKind>,
    patterns: &mut Vec<HandPattern>,
    pair: TileName,
    open_melds: &[MeldKind],
    closed_melds: &[MeldKind],
)
    ensures
        final(counts)@ == old(counts)@,
        final(melds)@ == old(melds)@,
        final(patterns)@.len() >= old(patterns)@.len(),
        forall|i: int| 0 <= i < old(patterns)@.len() ==> final(patterns)@[i] == old(patterns)@[i],
        found_sound(
            final(patterns)@,
            old(patterns)@.len() as int,
            final(patterns)@.len() as int,
            pair,
            old(counts)@,
            closed_melds@ + old(melds)@,
            open_melds@,
        ),
        found_complete(
            final(patterns)@,
            old(patterns)@.len() as int,
            final(patterns)@.len() as int,
            pair,
            old(counts)@,
            closed_melds@ + old(melds)@,
        ),
    decreases tiles_from(old(counts)@, 1),
{
    let ghost c0 = counts@;
    let ghost m0 = melds@;
    let ghost p0 = patterns@;
    let ghost prefix = closed_melds@ + melds@;
    let mut i: usize = 1;
    while i < 35 && counts[i] == 0
        invariant
            1 <= i <= 35,
            counts@ == c0,
            forall|j: int| 1 <= j < i ==> c0[j] == 0,
        decreases 35 - i,
    {
        i = i + 1;
    }
    if i == 35 {
        let all = concat_melds(closed_melds, melds.as_slice());
        let none: Vec<MeldKind> = Vec::new();
        let open = concat_melds(open_melds, none.as_slice());
        proof {
            assert(open_melds@ + Seq::<MeldKind>::empty() =~= open_melds@);
        }
        patterns.push(HandPattern { pair, melds: all, open_melds: open });
        proof {
            let ps = patterns@;
            let e = Seq::<MeldKind>::empty();
            assert(decomposes(c0, e));
            assert(ps[p0.len() as int].melds@ =~= prefix + e);
            assert(found_sound(ps, p0.len() as int, ps.len() as int, pair, c0, prefix, open_melds@));
            assert forall|f: Seq<MeldKind>| #[trigger] decomposes(c0, f) implies exists|k: int|
                p0.len() <= k < ps.len() && (#[trigger] ps[k]).pair == pair
                    && ps[k].melds@.to_multiset() == (prefix + f).to_multiset() by {
                lemma_decomposes_empty(c0, f);
                assert(f =~= e);
                assert(ps[p0.len() as int].melds@ =~= prefix + f);
            }
        }
        return;
    }
    let tile = TileName::from_usize(i);
    let ghost t = MeldKind::Triplet(tile);
    let ghost s = MeldKind::Sequence(tile);
    let ghost w_t = c0.update(i as int, (c0[i as int] - 3) as u8);
    let ghost w_s = c0.update(i as int, (c0[i as int] - 1) as u8).update(i + 1, (c0[i + 1] - 1) as u8).update(
        i + 2,
        (c0[i + 2] - 1) as u8,
    );
    if counts[i] >= 3 {
        counts[i] = counts[i] - 3;
        melds.push(MeldKind::Triplet(tile));
        proof {
            lemma_tiles_from_update(c0, i as int, (c0[i as int] - 3) as u8, 1);
            lemma_tiles_from_nonneg(w_t, 1);
            assert(counts@ == w_t);
        }
        search_melds(counts, melds, patterns, pair, open_melds, closed_melds);
        melds.pop();
        counts[i] = counts[i] + 3;
        proof {
            assert(counts@ =~= c0);
            assert(melds@ =~= m0);
            assert(closed_melds@ + m0.push(t) =~= prefix.push(t));
            crate::tile::lemma_tile_index(tile);
            lemma_step_sound(patterns@, p0.len() as int, patterns@.len() as int, pair, c0, prefix, open_melds@, t, w_t);
        }
    }
    let ghost p1 = patterns@;
    let number = is_number_tile(tile);
    match number {
        Some((_, rank)) => {
            if rank <= 7 && counts[i + 1] > 0 && counts[i + 2] > 0 {
                counts[i] = counts[i] - 1;
                counts[i + 1] = counts[i + 1] - 1;
                counts[i + 2] = counts[i + 2] - 1;
                melds.push(MeldKind::Sequence(tile));
                proof {
                    lemma_tiles_from_update(c0, i as int, (c0[i as int] - 1) as u8, 1);
                    let c1 = c0.update(i as int, (c0[i as int] - 1) as u8);
                    lemma_tiles_from_update(c1, i + 1, (c0[i + 1] - 1) as u8, 1);
                    let c2 = c1.update(i + 1, (c0[i + 1] - 1) as u8);
                    lemma_tiles_from_update(c2, i + 2, (c0[i + 2] - 1) as u8, 1);
                    assert(counts@ == w_s);
                    lemma_tiles_from_nonneg(w_s, 1);
                }
                search_melds(counts, melds, patterns, pair, open_melds, closed_melds);
                melds.pop();
                counts[i] = counts[i] + 1;
                counts[i + 1] = counts[i + 1] + 1;
                counts[i + 2] = counts[i + 2] + 1;
                proof {
                    assert(counts@ =~= c0);
                    assert(melds@ =~= m0);
                    assert(closed_melds@ + m0.push(s) =~= prefix.push(s));
                    crate::tile::lemma_tile_index(tile);
                    lemma_step_sound(patterns@, p1.len() as int, patterns@.len() as int, pair, c0, prefix, open_melds@, s, w_s);
                }
            }
        },
        None => {},
    }
    proof {
        let ps = patterns@;
        crate::tile::lemma_tile_index(tile);
        lemma_sound_extend(p1, ps, p0.len() as int, p1.len() as int, pair, c0, prefix, open_melds@);
        if c0[i as int] >= 3 {
            assert forall|k: int| 1 <= k < 35 implies #[trigger] w_t[k] as int == c0[k] as int - meld_use(t, k) by {
                if k == i {
                } else {
                }
            }
        }
        if 1 <= i <= 27 && (i - 1) % 9 <= 6 && c0[i + 1] > 0 && c0[i + 2] > 0 {
            assert forall|k: int| 1 <= k < 35 implies #[trigger] w_s[k] as int == c0[k] as int - meld_use(s, k) by {
                if k == i || k == i + 1 || k == i + 2 {
                } else {
                }
            }
        }
        lemma_step_complete(ps, p0.len() as int, p1.len() as int, ps.len() as int, pair, c0, prefix, i as int, w_t, w_s);
    }
}

/// The pattern reads the concealed counts `c` as its pair and `closed`
/// followed by melds that take the rest of the tiles, and holds `open` as
/// its called melds.
pub open spec fn reads(pt: HandPattern, c: Seq<u8>, closed: Seq<MeldKind>, open: Seq<MeldKind>) -> bool {
    &&& pt.open_melds@ == open
    &&& exists|f: Seq<MeldKind>| #[trigger] is_reading(c, pt.pair.id(), f) && pt.melds@ == closed + f
}

/// Every pattern of `ps` reads `c`, and every reading of `c` with a pair
/// below index `n` appears in one of them, up to the order of the melds.
#[verifier::opaque]
pub open spec fn all_readings(ps: Seq<HandPattern>, c: Seq<u8>, closed: Seq<MeldKind>, open: Seq<MeldKind>, n: int) -> bool {
    &&& forall|j: int| 0 <= j < ps.len() ==> reads(#[trigger] ps[j], c, closed, open)
    &&& forall|p: int, f: Seq<MeldKind>|
        #[trigger] is_reading(c, p, f) && p < n ==> exists|j: int|
            0 <= j < ps.len() && (#[trigger] ps[j]).pair.id() == p
                && ps[j].melds@.to_multiset() == (closed + f).to_multiset()
}

/// Every way to read the concealed counts as a pair and melds, each as a
/// pattern that also holds `closed_melds` (closed kans, first) and
/// `open_melds`. Pairs are tried from the lowest index up.
pub fn generate_patterns(counts: &[u8; 35], open_melds: &[MeldKind], closed_melds: &[MeldKind]) -> (r: Vec<HandPattern>)
    ensures
        all_readings(r@, counts@, closed_melds@, open_melds@, 35),
{
    let mut patterns: Vec<HandPattern> = Vec::new();
    let mut i: usize = 1;
    proof {
        reveal(all_readings);
    }
    while i < 35
        invariant
            1 <= i <= 35,
            all_readings(patterns@, counts@, closed_melds@, open_melds@, i as int),
            forall|j: int| 0 <= j < patterns@.len() ==> (#[trigger] patterns@[j]).pair.id() < i,
        decreases 35 - i,
    {
        proof {
            reveal(all_readings);
        }
        if counts[i] >= 2 {
            let mut working = *counts;
            working[i] = working[i] - 2;
            let pair = TileName::from_usize(i);
            let mut current: Vec<MeldKind> = Vec::new();
            let ghost p0 = patterns@;
            proof {
                assert(working@ =~= without_pair(counts@, i as int));
                assert(closed_melds@ + current@ =~= closed_melds@);
            }
            search_melds(&mut working, &mut current, &mut patterns, pair, open_melds, closed_melds);
            proof {
                let ps = patterns@;
                let c = counts@;
                assert forall|j: int| 0 <= j < ps.len() implies reads(#[trigger] ps[j], c, closed_melds@, open_melds@) by {
                    if j < p0.len() {
                        assert(ps[j] == p0[j]);
                    } else {
                        let f = choose|f: Seq<MeldKind>| #[trigger] decomposes(without_pair(c, i as int), f) && ps[j].melds@ == closed_melds@ + f;
                        assert(is_reading(c, ps[j].pair.id(), f));
                    }
                }
                assert forall|p: int, f: Seq<MeldKind>| #[trigger] is_reading(c, p, f) && p < i + 1 implies exists|j: int|
                    0 <= j < ps.len() && (#[trigger] ps[j]).pair.id() == p
                        && ps[j].melds@.to_multiset() == (closed_melds@ + f).to_multiset() by {
                    if p < i {
                        let j = choose|j: int|
                            0 <= j < p0.len() && (#[trigger] p0[j]).pair.id() == p
                                && p0[j].melds@.to_multiset() == (closed_melds@ + f).to_multiset();
                        assert(ps[j] == p0[j]);
                    } else {
                        assert(decomposes(without_pair(c, i as int), f));
                    }
                }
                assert forall|j: int| 0 <= j < ps.len() implies (#[trigger] ps[j]).pair.id() < i + 1 by {
                    if j < p0.len() {
                        assert(ps[j] == p0[j]);
                    }
                }
            }
        } else {
            proof {
                let c = counts@;
                assert forall|p: int, f: Seq<MeldKind>| #[trigger] is_reading(c, p, f) && p < i + 1 implies exists|j: int|
                    0 <= j < patterns@.len() && (#[trigger] patterns@[j]).pair.id() == p
                        && patterns@[j].melds@.to_multiset() == (closed_melds@ + f).to_multiset() by {
                    assert(p != i);
                }
            }
        }
        i = i + 1;
    }
    patterns
}

/// The meld kind that a called or concealed meld stands for: a chii by
/// its called tile, a pon as a triplet, every kan as a quad.
pub open spec fn meld_kind(m: Meld) -> MeldKind {
    match m {
        Meld::Chii { called, .. } => MeldKind::Sequence(called),
        Meld::Pon(t) => MeldKind::Triplet(t),
        Meld::Daiminkan(t) => MeldKind::Quad(t),
        Meld::Ankan(t) => MeldKind::Quad(t),
        Meld::Kakan(t) => MeldKind::Quad(t),
    }
}

/// The kinds of the open melds, in order.
pub open spec fn open_kinds(ms: Seq<Meld>) -> Seq<MeldKind>
    decreases ms.len(),
{
    if ms.len() == 0 {
        Seq::empty()
    } else if crate::hand::is_open_meld(ms.last()) {
        open_kinds(ms.drop_last()).push(meld_kind(ms.last()))
    } else {
        open_kinds(ms.drop_last())
    }
}

/// The kinds of the closed kans, in order.
pub open spec fn closed_kinds(ms: Seq<Meld>) -> Seq<MeldKind>
    decreases ms.len(),
{
    if ms.len() == 0 {
        Seq::empty()
    } else if !crate::hand::is_open_meld(ms.last()) {
        closed_kinds(ms.drop_last()).push(meld_kind(ms.last()))
    } else {
        closed_kinds(ms.drop_last())
    }
}

/// The kinds of the open melds and of the closed kans.
pub fn split_melds(ms: &[Meld]) -> (r: (Vec<MeldKind>, Vec<MeldKind>))
    ensures
        r.0@ == open_kinds(ms@),
        r.1@ == closed_kinds(ms@),
{
    let mut open: Vec<MeldKind> = Vec::new();
    let mut closed: Vec<MeldKind> = Vec::new();
    let mut k: usize = 0;
    while k < ms.len()
        invariant
            k <= ms.len(),
            open@ == open_kinds(ms@.subrange(0, k as int)),
            closed@ == closed_kinds(ms@.subrange(0, k as int)),
        decreases ms.len() - k,
    {
        proof {
            assert(ms@.subrange(0, k + 1).drop_last() =~= ms@.subrange(0, k as int));
        }
        match ms[k] {
            Meld::Chii { called, .. } => open.push(MeldKind::Sequence(called)),
            Meld::Pon(t) => open.push(MeldKind::Triplet(t)),
            Meld::Daiminkan(t) => open.push(MeldKind::Quad(t)),
            Meld::Kakan(t) => open.push(MeldKind::Quad(t)),
            Meld::Ankan(t) => closed.push(MeldKind::Quad(t)),
        }
        k = k + 1;
    }
    proof {
        assert(ms@.subrange(0, ms.len() as int) =~= ms@);
    }
    (open, closed)
}

/// Every way to read a winning hand as a pair and melds: the concealed
/// counts are read, the closed kans come first among the concealed melds,
/// the other calls are the open melds.
pub fn get_hand_patterns(closed_counts: &[u8; 35], open_melds_input: &[Meld]) -> (r: Vec<HandPattern>)
    ensures
        all_readings(r@, closed_counts@, closed_kinds(open_melds_input@), open_kinds(open_melds_input@), 35),
{
    let (open, closed) = split_melds(open_melds_input);
    generate_patterns(closed_counts, open.as_slice(), closed.as_slice())
}

} // verus!
