use mahjong::acceptance::{calculate_acceptance, visible_with_hand, wait_tiles};
use mahjong::call_advisor::{call_options, CallAction};
use mahjong::expectation::{
    estimate_hand_value, evaluate_discard_candidate, threat_summary, tile_safety_verdict, AnalysisContext,
    ValueLabel,
};
use mahjong::hand::{Hand, Meld};
use mahjong::tile::TileName;
use mahjong::yaku::YakuId;

fn hand_of(tiles: &[TileName]) -> Hand {
    let mut hand = Hand::new();
    for &t in tiles {
        hand.push(t);
    }
    hand
}

#[test]
fn tile_safety_genbutsu_suji_and_no_suji() {
    let river_opp = vec![TileName::FourM, TileName::East];
    let rivers: [&[TileName]; 4] = [&[], &river_opp, &[], &[]];
    let mut ctx = AnalysisContext::default();
    ctx.riichi_status[1] = true;
    ctx.player_rivers = &rivers;
    let visible = [0u8; 35];

    let genbutsu = tile_safety_verdict(TileName::FourM, &ctx, &visible);
    assert_eq!(genbutsu.base_risk, 0);
    assert_eq!(genbutsu.turn_factor, 1000);
    assert!(genbutsu.is_safe);

    let suji = tile_safety_verdict(TileName::OneM, &ctx, &visible);
    assert_eq!(suji.base_risk, 80);
    assert!(suji.is_safe);

    let danger = tile_safety_verdict(TileName::FiveM, &ctx, &visible);
    assert_eq!(danger.base_risk, 750);
    assert!(!danger.is_safe);

    // 7m: one side (4m) discarded
    let seven = tile_safety_verdict(TileName::SevenM, &ctx, &visible);
    assert_eq!(seven.base_risk, 280);
    assert!(!seven.is_safe);

    // an honor with nothing seen against riichi
    let honor = tile_safety_verdict(TileName::White, &ctx, &visible);
    assert_eq!(honor.base_risk, 350);
    assert!(!honor.is_safe);
}

#[test]
fn tile_safety_half_suji_and_partial_genbutsu() {
    let river1 = vec![TileName::OneP];
    let river2 = vec![TileName::NineS];
    let rivers: [&[TileName]; 4] = [&[], &river1, &river2, &[]];
    let mut ctx = AnalysisContext::default();
    ctx.riichi_status[1] = true;
    ctx.riichi_status[2] = true;
    ctx.player_rivers = &rivers;
    let mut visible = [0u8; 35];
    visible[TileName::Green as usize] = 3;

    // 4p: only 1p discarded, so half suji
    let half = tile_safety_verdict(TileName::FourP, &ctx, &visible);
    assert_eq!(half.base_risk, 350);
    assert!(!half.is_safe);

    // 9s: safe against player 2 only
    let partial = tile_safety_verdict(TileName::NineS, &ctx, &visible);
    assert_eq!(partial.base_risk, 200);
    assert!(!partial.is_safe);

    // green with three seen
    let green = tile_safety_verdict(TileName::Green, &ctx, &visible);
    assert_eq!(green.base_risk, 50);
    assert!(green.is_safe);
}

#[test]
fn tile_safety_without_riichi_depends_on_turn() {
    let visible = [1u8; 35];
    let mut ctx = AnalysisContext::default();
    ctx.turn_number = 4;
    let early = tile_safety_verdict(TileName::TwoM, &ctx, &visible);
    assert_eq!((early.base_risk, early.turn_factor, early.is_safe), (200, 500, true));
    ctx.turn_number = 9;
    let mid = tile_safety_verdict(TileName::TwoM, &ctx, &visible);
    assert_eq!((mid.base_risk, mid.turn_factor, mid.is_safe), (200, 800, false));
    ctx.turn_number = 30;
    let late = tile_safety_verdict(TileName::NineS, &ctx, &visible);
    assert_eq!((late.base_risk, late.turn_factor, late.is_safe), (100, 1000, true));
    let honor = tile_safety_verdict(TileName::North, &ctx, &visible);
    assert_eq!((honor.base_risk, honor.turn_factor, honor.is_safe), (120, 1000, true));
    // the analysed player's own riichi is no threat
    ctx.riichi_status[0] = true;
    let own = tile_safety_verdict(TileName::NineS, &ctx, &visible);
    assert_eq!(own, late);
}

#[test]
fn hand_value_ready_hand_exact() {
    let hand = hand_of(&[
        TileName::OneM,
        TileName::TwoM,
        TileName::ThreeM,
        TileName::FourP,
        TileName::FiveP,
        TileName::SixP,
        TileName::SevenS,
        TileName::EightS,
        TileName::NineS,
        TileName::East,
        TileName::East,
        TileName::TwoS,
        TileName::ThreeS,
    ]);
    let ctx = AnalysisContext::default();
    let v = estimate_hand_value(&hand.counts, 0, &[TileName::OneS, TileName::FourS], &[], &ctx);
    // menzen tsumo (1 han) + riichi declared: 2 han 30 fu, dealer self-draw 1000 all
    assert_eq!(v.samples, 2);
    assert_eq!(v.total_score, 6000);
    assert_eq!(v.total_han, 4);
    assert_eq!(v.labels.to_vec(), vec![ValueLabel::Yaku(YakuId::MenzenTsumo)]);
    assert!(!v.high_value);
}

#[test]
fn hand_value_ready_without_waits_is_flat() {
    let counts = [0u8; 35];
    let ctx = AnalysisContext::default();
    let v = estimate_hand_value(&counts, 0, &[], &[], &ctx);
    assert_eq!((v.total_score, v.total_han, v.samples, v.high_value), (1000, 1, 1, false));
    assert!(v.labels.is_empty());
}

#[test]
fn test_hand_value_accurate_fu_and_chitoitsu() {
    let hand = hand_of(&[
        TileName::OneM,
        TileName::OneM,
        TileName::ThreeM,
        TileName::ThreeM,
        TileName::FiveM,
        TileName::FiveM,
        TileName::SevenP,
        TileName::SevenP,
        TileName::NineP,
        TileName::NineP,
        TileName::TwoS,
        TileName::TwoS,
        TileName::FourS,
    ]);
    let ctx = AnalysisContext { is_dealer: false, ..Default::default() };
    let v = estimate_hand_value(&hand.counts, 0, &[TileName::FourS], &hand.open_melds, &ctx);
    assert!(v.labels.contains(&ValueLabel::Yaku(YakuId::Chitoitsu)));
    assert!(v.total_score >= 1600 * v.samples as u128);
}

#[test]
fn test_estimate_hand_value_ankan_preserves_menzen() {
    let mut counts = [0u8; 35];
    counts[TileName::TwoP as usize] = 1;
    counts[TileName::ThreeP as usize] = 1;
    counts[TileName::FourP as usize] = 2;
    counts[TileName::FiveP as usize] = 1;
    counts[TileName::SixP as usize] = 1;
    counts[TileName::SevenS as usize] = 1;
    counts[TileName::EightS as usize] = 1;
    counts[TileName::FiveM as usize] = 2;
    let open_melds = vec![Meld::Ankan(TileName::OneM)];
    let accepted = vec![TileName::SixS, TileName::NineS];
    let ctx = AnalysisContext {
        is_dealer: false,
        seat_wind: Some(TileName::South),
        round_wind: Some(TileName::East),
        ..Default::default()
    };
    let v = estimate_hand_value(&counts, 0, &accepted, &open_melds, &ctx);
    assert!(v.total_score >= 3000 * v.samples as u128);
    assert!(v.labels.contains(&ValueLabel::Yaku(YakuId::Riichi)) || v.total_han >= 2 * v.samples as u128);
}

#[test]
fn hand_value_one_shanten_simulates_wins() {
    // 2m3m4m 2p3p4p EE 4s5s 7s8s 9p: one from ready
    let hand = hand_of(&[
        TileName::TwoM,
        TileName::ThreeM,
        TileName::FourM,
        TileName::TwoP,
        TileName::ThreeP,
        TileName::FourP,
        TileName::East,
        TileName::East,
        TileName::FourS,
        TileName::FiveS,
        TileName::SevenS,
        TileName::EightS,
        TileName::NineP,
    ]);
    let acc = calculate_acceptance(&hand.counts, 0, None);
    assert_eq!(acc.current_shanten, 1);
    let tiles = wait_tiles(&acc);
    assert_eq!(tiles.len(), acc.tile_types_count);
    let ctx = AnalysisContext::default();
    let v = estimate_hand_value(&hand.counts, 1, &tiles, &[], &ctx);
    assert_eq!(v.samples, tiles.len().min(8));
    assert!(v.total_score >= 1000 * v.samples as u128);
    assert!(v.total_han >= v.samples as u128);
}

#[test]
fn hand_value_rough_estimate_far_from_ready() {
    let hand = hand_of(&[
        TileName::OneM,
        TileName::FiveM,
        TileName::NineM,
        TileName::TwoP,
        TileName::SixP,
        TileName::White,
        TileName::White,
        TileName::East,
        TileName::East,
        TileName::ThreeS,
        TileName::SevenS,
        TileName::North,
        TileName::Green,
    ]);
    let ctx = AnalysisContext::default();
    let v = estimate_hand_value(&hand.counts, 3, &[], &[], &ctx);
    // 2 (closed) + white pair + east (seat) + east (round) = 5 han: mangan for the dealer
    assert_eq!(v.samples, 1);
    assert_eq!(v.total_han, 5);
    assert_eq!(v.total_score, 12000);
    assert_eq!(
        v.labels.to_vec(),
        vec![ValueLabel::Yaku(YakuId::Riichi), ValueLabel::Yaku(YakuId::MenzenTsumo), ValueLabel::Yakuhai]
    );
    assert!(v.high_value);
}

#[test]
fn discard_candidate_facts() {
    let hand = hand_of(&[
        TileName::OneM,
        TileName::TwoM,
        TileName::ThreeM,
        TileName::FourP,
        TileName::FiveP,
        TileName::SixP,
        TileName::SevenS,
        TileName::EightS,
        TileName::NineS,
        TileName::East,
        TileName::East,
        TileName::TwoS,
        TileName::ThreeS,
        TileName::NineP,
    ]);
    let ctx = AnalysisContext::default();
    let visible = visible_with_hand(&hand.counts, None);
    assert_eq!(visible, hand.counts);
    let f = evaluate_discard_candidate(&hand.counts, TileName::NineP as usize, &[], &visible, &ctx);
    assert_eq!(f.discard_tile, TileName::NineP);
    assert_eq!(f.acceptance.current_shanten, 0);
    assert_eq!(f.accepted_tiles.to_vec(), vec![TileName::OneS, TileName::FourS]);
    assert_eq!(f.acceptance.total_remaining, 8);
    assert_eq!(f.value.total_score, 6000);
}

#[test]
fn visible_counts_take_the_larger() {
    let mut counts = [0u8; 35];
    counts[3] = 2;
    counts[7] = 1;
    let mut seen = [0u8; 35];
    seen[3] = 1;
    seen[7] = 3;
    seen[0] = 9;
    let v = visible_with_hand(&counts, Some(&seen));
    assert_eq!(v[3], 2);
    assert_eq!(v[7], 3);
    assert_eq!(v[0], 0);
}

#[test]
fn threats_are_counted_for_other_players() {
    let m1 = [Meld::Pon(TileName::White), Meld::Chii { called: TileName::TwoM, consumed: [TileName::ThreeM, TileName::FourM] }];
    let m2 = [Meld::Ankan(TileName::East), Meld::Ankan(TileName::South)];
    let melds: [&[Meld]; 4] = [&m1, &m1, &m2, &[]];
    let ctx = AnalysisContext {
        target_player: 0,
        riichi_status: [true, false, true, true],
        player_is_dealer: [false, false, true, false],
        player_melds: &melds,
        ..Default::default()
    };
    let t = threat_summary(&ctx);
    assert_eq!(t.riichi_count, 2);
    assert!(t.dealer_riichi);
    assert_eq!(t.heavy_callers, 1);
}

#[test]
fn test_call_advisor_pon_yakuhai_options() {
    let hand = hand_of(&[
        TileName::OneM,
        TileName::TwoM,
        TileName::ThreeM,
        TileName::FourP,
        TileName::FiveP,
        TileName::SixP,
        TileName::SevenS,
        TileName::EightS,
        TileName::White,
        TileName::White,
        TileName::East,
        TileName::South,
        TileName::West,
    ]);
    let opts = call_options(&hand.counts, TileName::White, false);
    assert_eq!(opts.len(), 1);
    assert_eq!(opts[0].action, CallAction::Pon);
    assert_eq!(opts[0].meld, Meld::Pon(TileName::White));
    assert_eq!(opts[0].removed, (TileName::White as usize, TileName::White as usize));
}

#[test]
fn call_options_chii_patterns_in_order() {
    let hand = hand_of(&[TileName::TwoS, TileName::ThreeS, TileName::FiveS, TileName::SixS, TileName::FourS]);
    // 4s from the left: 2s3s, 3s5s, 5s6s, plus pon with one 4s? no (only one)
    let opts = call_options(&hand.counts, TileName::FourS, true);
    let actions: Vec<CallAction> = opts.iter().map(|o| o.action).collect();
    assert_eq!(
        actions,
        vec![
            CallAction::Chii(TileName::TwoS, TileName::ThreeS),
            CallAction::Chii(TileName::ThreeS, TileName::FiveS),
            CallAction::Chii(TileName::FiveS, TileName::SixS),
        ]
    );
    // not from the left: no chii
    assert!(call_options(&hand.counts, TileName::FourS, false).is_empty());
    // honors: no chii
    assert!(call_options(&hand.counts, TileName::East, true).is_empty());
}
