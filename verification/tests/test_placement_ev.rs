use mahjong::expectation::AnalysisContext;
use mahjong::placement_ev::{
    calculate_orasu_conditions, estimate_expected_deal_loss, situational_note, MatchContext, RuleConfig,
};
use mahjong::tile::TileName;

#[test]
fn test_match_context_ranks() {
    let ctx = MatchContext {
        scores: [32000, 25000, 18000, 25000],
        round_wind: TileName::East,
        round_number: 1,
        honba: 0,
        riichi_sticks: 0,
        dealer_idx: 0,
        rule: RuleConfig::default(),
    };

    let ranks = ctx.current_ranks();
    // 0: 32000 (1st)
    // 1: 25000 (tied, but seat 1 before seat 3, so 2nd)
    // 3: 25000 (3rd)
    // 2: 18000 (4th)
    assert_eq!(ranks[0], 1);
    assert_eq!(ranks[1], 2);
    assert_eq!(ranks[3], 3);
    assert_eq!(ranks[2], 4);
}

#[test]
fn test_orasu_win_conditions() {
    // South 4 (all last), self (0: dealer, 28,000), across (2: 33,000, gap 5,000)
    let ctx = MatchContext {
        scores: [28000, 20000, 33000, 19000],
        round_wind: TileName::South,
        round_number: 4,
        honba: 0,
        riichi_sticks: 0,
        dealer_idx: 0,
        rule: RuleConfig::default(),
    };

    assert!(ctx.is_orasu());
    let conds = calculate_orasu_conditions(&ctx, 0);
    assert_eq!(conds.len(), 1);

    let cond1 = &conds[0];
    assert_eq!(cond1.target_rank, 1);
    assert_eq!(cond1.target_player, 2);
    assert_eq!(cond1.diff, 5000);

    assert!(cond1.ron_direct_req.is_some());
    let direct = cond1.ron_direct_req.unwrap();
    assert!(2 * direct >= 5000);

    assert!(cond1.ron_other_req.is_some());
    let other = cond1.ron_other_req.unwrap();
    assert!(other >= 5000);
}

#[test]
fn test_top_player_orasu_summary() {
    // South 4, self (0: 38,000, in the lead)
    let ctx = MatchContext {
        scores: [38000, 24000, 20000, 18000],
        round_wind: TileName::South,
        round_number: 4,
        honba: 0,
        riichi_sticks: 0,
        dealer_idx: 3,
        rule: RuleConfig::default(),
    };

    let conds = calculate_orasu_conditions(&ctx, 0);
    assert_eq!(conds.len(), 1);
    assert_eq!(conds[0].target_rank, 1);
    assert!(conds[0].summary.contains("トップ目"));
}

#[test]
fn test_estimate_expected_deal_loss_dealer_vs_child() {
    let match_ctx = MatchContext {
        dealer_idx: 1,
        honba: 1,
        ..Default::default()
    };

    let mut ctx_dealer_riichi = AnalysisContext::default();
    ctx_dealer_riichi.riichi_status[1] = true;
    let loss_dealer = estimate_expected_deal_loss(&match_ctx, &ctx_dealer_riichi, 0);
    assert_eq!(loss_dealer, 12300);

    let mut ctx_child_riichi = AnalysisContext::default();
    ctx_child_riichi.riichi_status[2] = true;
    let loss_child = estimate_expected_deal_loss(&match_ctx, &ctx_child_riichi, 0);
    assert_eq!(loss_child, 8300);

    assert!(
        loss_dealer > loss_child,
        "Dealer deal loss ({}) must be significantly larger than child ({})",
        loss_dealer,
        loss_child
    );
}

#[test]
fn test_estimate_expected_deal_loss_multiple_riichi_dealer_priority() {
    let match_ctx = MatchContext {
        dealer_idx: 2,
        honba: 1,
        ..Default::default()
    };

    let mut ctx_multi_riichi = AnalysisContext::default();
    ctx_multi_riichi.riichi_status[1] = true;
    ctx_multi_riichi.riichi_status[2] = true;

    let loss = estimate_expected_deal_loss(&match_ctx, &ctx_multi_riichi, 0);
    assert_eq!(loss, 12300);
}

#[test]
fn test_estimate_expected_deal_loss_dora_no_reduction() {
    let match_ctx = MatchContext {
        dealer_idx: 1,
        honba: 0,
        ..Default::default()
    };

    let doras = [TileName::OneM, TileName::TwoM, TileName::ThreeM];
    let mut riichi_status = [false; 4];
    riichi_status[1] = true;
    let ctx = AnalysisContext {
        dora_indicators: &doras,
        riichi_status,
        ..Default::default()
    };

    let loss = estimate_expected_deal_loss(&match_ctx, &ctx, 0);
    assert_eq!(loss, 12000);
}

#[test]
fn situational_notes_follow_the_standing() {
    assert!(situational_note(1, true, 30000, false).starts_with("【オーラス・トップ目】"));
    assert!(situational_note(4, true, 10000, false).starts_with("【オーラス・ラス目】"));
    assert!(situational_note(2, true, 25000, true).starts_with("【オーラス・着順浮上戦】"));
    assert!(situational_note(1, false, 40000, true).starts_with("【トップ目防衛】"));
    assert!(situational_note(1, false, 40000, false).starts_with("【トップ目押し引き】"));
    assert!(situational_note(4, false, 12000, false).starts_with("【ラス目挽回】"));
    assert!(situational_note(4, false, 20000, false).starts_with("【通常進行】"));
}
