use mahjong::acceptance::{analyze_all_discards, calculate_acceptance, wait_tiles};
use mahjong::expectation::{estimate_hand_value, AnalysisContext};
use mahjong::call_advisor::{call_options, CallAction, CallRecommendation};
use mahjong::dora::count_dora;
use mahjong::drill::{add_pair, add_run, add_tile_if_available, add_tiles_if_available, add_two_sided};
use mahjong::hand::{Hand, Meld};
use mahjong::placement_ev::MatchContext;
use mahjong::review::BlunderSeverity;
use mahjong::river::River;
use mahjong::round::Round;
use mahjong::score::calculate_score;
use mahjong::shanten::{calculate_normal_shanten, calculate_shanten_from_counts};
use mahjong::tile::TileName;
use mahjong::wall::Wall;
use mahjong::yaku::{judge_yaku_set, WinContext, YakuId, YakuSet};
use rand::rngs::StdRng;
use rand::SeedableRng;

fn hand_of(tiles: &[TileName]) -> Hand {
    let mut hand = Hand::new();
    for &t in tiles {
        hand.push(t);
    }
    hand
}

#[test]
fn ranks_are_a_permutation_even_with_ties() {
    let ctx = MatchContext { scores: [25000, 25000, 25000, 25000], ..Default::default() };
    let mut ranks = ctx.current_ranks();
    assert_eq!(ranks, [1, 2, 3, 4]);
    let ctx = MatchContext { scores: [10000, 40000, 10000, 40000], ..Default::default() };
    ranks = ctx.current_ranks();
    assert_eq!(ranks, [3, 1, 4, 2]);
}

#[test]
fn no_tiles_no_yaku() {
    let counts = [0u8; 35];
    let ctx = WinContext { riichi: true, is_tsumo: true, ..Default::default() };
    assert!(judge_yaku_set(&counts, &[], ctx).is_empty());
}

#[test]
fn yakuman_stands_alone() {
    // four concealed triplets by self-draw with riichi: only the yakuman remains
    let mut counts = [0u8; 35];
    counts[1] = 3;
    counts[5] = 3;
    counts[12] = 3;
    counts[23] = 3;
    counts[28] = 2;
    let ctx = WinContext { riichi: true, is_tsumo: true, win_tile: Some(TileName::FiveM), ..Default::default() };
    let ys = judge_yaku_set(&counts, &[], ctx);
    assert!(ys.contains(&YakuId::Suuankou));
    assert!(!ys.contains(&YakuId::Riichi));
    assert!(!ys.contains(&YakuId::MenzenTsumo));
    for id in ys.to_vec() {
        assert!(id.info().yakuman);
    }
}

#[test]
fn self_draw_payments_add_up() {
    for han in 1..=13usize {
        for &fu in &[20usize, 30, 40, 70, 110] {
            let child = calculate_score(han, fu, false, true, false);
            let (a, b) = child.tsumo_payments.unwrap();
            assert_eq!(2 * a + b, child.total_points);
            let dealer = calculate_score(han, fu, true, true, false);
            let (c, d) = dealer.tsumo_payments.unwrap();
            assert_eq!(c, d);
            assert_eq!(3 * c, dealer.total_points);
        }
    }
    assert!(calculate_score(3, 30, false, false, false).tsumo_payments.is_none());
}

#[test]
fn dora_count_adds_over_indicators() {
    let mut counts = [0u8; 35];
    counts[TileName::TwoM as usize] = 2;
    counts[TileName::East as usize] = 3;
    counts[TileName::OneP as usize] = 1;
    let a = [TileName::OneM];
    let b = [TileName::North, TileName::NineP];
    let both = [TileName::OneM, TileName::North, TileName::NineP];
    assert_eq!(count_dora(&counts, &a), 2);
    assert_eq!(count_dora(&counts, &b), 4);
    assert_eq!(count_dora(&counts, &both), count_dora(&counts, &a) + count_dora(&counts, &b));
}

#[test]
fn river_pop_undoes_push() {
    let mut river = River::new();
    river.push(TileName::Red);
    let before: Vec<TileName> = river.tiles().to_vec();
    river.push(TileName::SixS);
    assert_eq!(river.pop(), Some(TileName::SixS));
    assert_eq!(river.tiles().to_vec(), before);
}

#[test]
fn walls_hold_four_of_each_before_and_after_shuffling() {
    let fresh = Wall::new();
    let mut shuffled = Wall::new();
    let mut rng = StdRng::seed_from_u64(7);
    shuffled.shuffle(&mut rng);
    let mut a = [0usize; 35];
    let mut b = [0usize; 35];
    for &t in fresh.tiles() {
        a[t as usize] += 1;
    }
    for &t in shuffled.tiles() {
        b[t as usize] += 1;
    }
    for k in 1..=34 {
        assert_eq!(a[k], 4);
        assert_eq!(b[k], 4);
    }
    assert_ne!(fresh.tiles().to_vec(), shuffled.tiles().to_vec());
    assert_eq!(shuffled.remaining(), 136);
}

#[test]
fn hand_discard_undoes_push() {
    let mut hand = hand_of(&[TileName::OneM, TileName::Green]);
    let counts = hand.counts;
    hand.push(TileName::FiveS);
    assert_eq!(hand.discard(2), Ok(TileName::FiveS));
    assert_eq!(hand.counts, counts);
    assert_eq!(hand.tiles().to_vec(), vec![TileName::OneM, TileName::Green]);
    assert_eq!(hand.discard(5), Err("Index out of bounds"));
}

#[test]
fn shanten_and_acceptance_depend_on_the_hand_alone() {
    let hand = hand_of(&[
        TileName::OneM,
        TileName::TwoM,
        TileName::ThreeM,
        TileName::FourP,
        TileName::FiveP,
        TileName::SixP,
        TileName::EightS,
        TileName::East,
        TileName::East,
        TileName::TwoS,
        TileName::ThreeS,
        TileName::West,
        TileName::NineP,
    ]);
    let a = calculate_shanten_from_counts(&hand.counts, 0);
    let b = calculate_shanten_from_counts(&hand.counts, 0);
    assert_eq!(a, b);
    let x = calculate_acceptance(&hand.counts, 0, None);
    let y = calculate_acceptance(&hand.counts, 0, None);
    assert_eq!(x, y);
    assert_eq!(x.current_shanten, a.min_shanten);
}

#[test]
fn discard_ranking_is_strict_and_covers_every_kind() {
    let hand = hand_of(&[
        TileName::OneM,
        TileName::OneM,
        TileName::TwoM,
        TileName::ThreeM,
        TileName::FiveP,
        TileName::SixP,
        TileName::SevenP,
        TileName::TwoS,
        TileName::FourS,
        TileName::SixS,
        TileName::East,
        TileName::South,
        TileName::White,
        TileName::White,
    ]);
    let ranking = analyze_all_discards(&hand, None);
    let kinds = (1..=34).filter(|&i| hand.counts[i] > 0).count();
    assert_eq!(ranking.len(), kinds);
    for w in ranking.windows(2) {
        let key = |d: &mahjong::acceptance::DiscardAnalysis| {
            (
                d.shanten_after,
                std::cmp::Reverse(d.acceptance.total_remaining),
                std::cmp::Reverse(d.acceptance.tile_types_count),
                d.discard_tile as usize,
            )
        };
        assert!(key(&w[0]) < key(&w[1]));
    }
}

#[test]
fn calls_only_take_held_tiles() {
    let hand = hand_of(&[TileName::ThreeP, TileName::ThreeP, TileName::FourP, TileName::FiveP, TileName::OneP]);
    for target in [TileName::TwoP, TileName::ThreeP, TileName::SixP, TileName::FourP] {
        for o in call_options(&hand.counts, target, true) {
            let (a, b) = o.removed;
            if a == b {
                assert!(hand.counts[a] >= 2);
                assert_eq!(o.action, CallAction::Pon);
            } else {
                assert!(hand.counts[a] > 0 && hand.counts[b] > 0);
            }
        }
    }
}

#[test]
fn yaku_sets_behave_as_sets() {
    let mut a = YakuSet::empty();
    a.insert(YakuId::Riichi);
    a.insert(YakuId::Tanyao);
    let mut b = YakuSet::empty();
    b.insert(YakuId::Tanyao);
    b.insert(YakuId::Daisangen);
    let u = a.union(b);
    let i = a.intersection(b);
    assert_eq!(u.len(), 3);
    assert_eq!(i.to_vec(), vec![YakuId::Tanyao]);
    assert!(i.is_subset(&a) && i.is_subset(&b));
    let mut k = u;
    k.retain_yakuman_only();
    assert_eq!(k.to_vec(), vec![YakuId::Daisangen]);
    a.remove(YakuId::Riichi);
    assert!(!a.contains(&YakuId::Riichi));
    assert!(YakuSet::from_raw_checked(1u64 << 41).is_none());
    assert!(YakuSet::from_raw_checked(u.as_raw()).is_some());
}

#[test]
fn labels_in_japanese() {
    assert_eq!(CallAction::Chii(TileName::TwoM, TileName::ThreeM).label_ja(), format!("チー [{}-{}]", TileName::TwoM.as_str(), TileName::ThreeM.as_str()));
    assert_eq!(CallAction::Pass.label_ja(), "スルー (見逃し)");
    assert_eq!(CallRecommendation::LeanCall.label_ja(), "【微有利】鳴き寄り");
    assert_eq!(BlunderSeverity::Blunder.label_ja(), "大悪手");
}

#[test]
fn one_shanten_value_estimate_is_determined() {
    let hand = hand_of(&[
        TileName::TwoM,
        TileName::ThreeM,
        TileName::FourM,
        TileName::TwoP,
        TileName::ThreeP,
        TileName::FourP,
        TileName::East,
        TileName::East,
        TileName::FourS,
        TileName::FiveS,
        TileName::SevenS,
        TileName::EightS,
        TileName::NineP,
    ]);
    let acc = calculate_acceptance(&hand.counts, 0, None);
    let tiles = wait_tiles(&acc);
    let ctx = AnalysisContext::default();
    let a = estimate_hand_value(&hand.counts, 1, &tiles, &[], &ctx);
    let b = estimate_hand_value(&hand.counts, 1, &tiles, &[], &ctx);
    assert_eq!((a.total_score, a.total_han, a.samples, a.high_value), (b.total_score, b.total_han, b.samples, b.high_value));
    assert_eq!(a.labels, b.labels);
}

#[test]
fn deal_gives_each_player_every_fourth_tile() {
    let fresh = Round::new(Wall::new());
    let expected = [
        TileName::OneM,
        TileName::TwoM,
        TileName::ThreeM,
        TileName::FourM,
        TileName::FiveM,
        TileName::SixM,
        TileName::SevenM,
        TileName::EightM,
        TileName::NineM,
        TileName::OneP,
        TileName::TwoP,
        TileName::ThreeP,
        TileName::FourP,
    ];
    for p in 0..4 {
        assert_eq!(fresh.hand(p), &expected[..]);
    }

    let mut wall = Wall::new();
    wall.shuffle(&mut StdRng::seed_from_u64(11));
    let tiles = wall.tiles().to_vec();
    let round = Round::new(wall);
    for p in 0..4 {
        for k in 0..13 {
            assert_eq!(round.hand(p)[k], tiles[4 * k + p]);
        }
    }
    assert_eq!(round.wall().remaining(), 136 - 52);
}

#[test]
fn raw_yaku_bits_stay_within_the_mask() {
    let full = YakuSet::from_ids(&mahjong::yaku::ALL_YAKU_IDS);
    assert_eq!(full.len(), 41);
    assert_eq!(full.as_raw().count_ones() as usize, full.len());
    assert_eq!(full.as_raw() & !mahjong::yaku::VALID_YAKU_MASK, 0);
    let mut s = YakuSet::from([YakuId::Riichi, YakuId::Daisangen, YakuId::Tanyao]);
    s.retain_yakuman_only();
    assert_eq!(s.as_raw(), YakuSet::from([YakuId::Daisangen]).as_raw());
    let mut t = YakuSet::from([YakuId::Riichi, YakuId::Tanyao]);
    let before = t.as_raw();
    t.retain_yakuman_only();
    assert_eq!(t.as_raw(), before);
}

#[test]
fn deal_from_a_drawn_wall_stops_when_the_wall_runs_out() {
    let mut wall = Wall::new();
    for _ in 0..100 {
        assert!(wall.draw().is_some());
    }
    let tiles = wall.tiles().to_vec();
    let round = Round::new(wall);
    let shares = [6, 6, 5, 5];
    for p in 0..4 {
        assert_eq!(round.hand(p).len(), shares[p]);
        for k in 0..shares[p] {
            assert_eq!(round.hand(p)[k], tiles[100 + 4 * k + p]);
        }
    }
    assert_eq!(round.wall().remaining(), 14);
    assert_eq!(round.turn(), 0);
}

#[test]
fn a_hand_never_comes_to_hold_the_blank_tile() {
    let mut hand = hand_of(&[
        TileName::TwoM,
        TileName::ThreeM,
        TileName::FiveP,
        TileName::FiveP,
        TileName::FiveP,
        TileName::East,
    ]);
    assert_eq!(hand.counts[0], 0);
    assert_eq!(hand.call_meld(Meld::Chii { called: TileName::OneM, consumed: [TileName::TwoM, TileName::ThreeM] }), Ok(()));
    assert_eq!(hand.counts[0], 0);
    assert_eq!(hand.call_meld(Meld::Pon(TileName::FiveP)), Ok(()));
    assert_eq!(hand.counts[0], 0);
    hand.push(TileName::Red);
    assert_eq!(hand.discard(0), Ok(TileName::FiveP));
    assert_eq!(hand.counts[0], 0);
    assert!(hand.tiles().iter().all(|t| *t != TileName::NoTile));
    assert_eq!(hand.tiles().to_vec(), vec![TileName::East, TileName::Red]);
}

#[test]
fn drawing_never_raises_the_standard_shanten() {
    let hand = hand_of(&[
        TileName::OneM,
        TileName::TwoM,
        TileName::FourP,
        TileName::FourP,
        TileName::SevenS,
        TileName::East,
        TileName::East,
        TileName::East,
        TileName::White,
        TileName::Green,
        TileName::NineS,
        TileName::ThreeS,
        TileName::FiveM,
    ]);
    let before = calculate_normal_shanten(&hand.counts, 0);
    for t in 1..=34usize {
        if hand.counts[t] < 4 {
            let mut c = hand.counts;
            c[t] += 1;
            let after = calculate_normal_shanten(&c, 0);
            assert!(after <= before, "tile {} raised the shanten", t);
            assert!(after >= before - 1);
        }
    }
}

#[test]
fn standard_shanten_is_one_value_even_for_oversized_counts() {
    // Seventeen tiles: five complete sets and a pair, more than a hand holds.
    let mut c = [0u8; 35];
    for i in 1..=9 {
        c[i] += 1;
    }
    for i in 10..=15 {
        c[i] += 1;
    }
    c[28] = 2;
    let normal = calculate_normal_shanten(&c, 0);
    let r = calculate_shanten_from_counts(&c, 0);
    assert_eq!(r.normal, normal);
    assert_eq!(normal, calculate_normal_shanten(&c, 0));
    assert_eq!(r.min_shanten, r.normal.min(r.chitoitsu).min(r.kokushi));
    let open = calculate_shanten_from_counts(&c, 1);
    assert_eq!(open.normal, calculate_normal_shanten(&c, 1));
    assert_eq!((open.chitoitsu, open.kokushi), (99, 99));
}

#[test]
fn drill_hand_steps_take_a_tile_only_while_copies_remain() {
    let mut hand = Hand::new();
    add_run(&mut hand, 1, 3);
    assert_eq!(hand.tiles().to_vec(), vec![TileName::ThreeP, TileName::FourP, TileName::FiveP]);
    add_pair(&mut hand, 12);
    add_two_sided(&mut hand, 2, 8);
    assert_eq!(
        hand.tiles().to_vec(),
        vec![
            TileName::ThreeP,
            TileName::FourP,
            TileName::FiveP,
            TileName::ThreeP,
            TileName::ThreeP,
            TileName::EightS,
            TileName::NineS,
        ]
    );
    // A fourth copy of 3p is taken, a fifth is not.
    add_tile_if_available(&mut hand, 12);
    assert_eq!(hand.counts[12], 4);
    add_tile_if_available(&mut hand, 12);
    assert_eq!(hand.counts[12], 4);
    assert_eq!(hand.tiles().len(), 8);
    add_tiles_if_available(&mut hand, &[12, 34, 34]);
    assert_eq!(hand.tiles().len(), 10);
    assert_eq!(hand.counts[34], 2);
}
