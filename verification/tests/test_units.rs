//! Unit scenarios: dora, the river, scoring, shanten and the suit tables.
use mahjong::dora::{count_dora, indicator_to_dora};
use mahjong::hand::Hand;
use mahjong::river::River;
use mahjong::score::{calculate_hand_fu, calculate_score};
use mahjong::shanten::{calculate_shanten, calculate_shanten_from_counts};
use mahjong::suit_table::{encode_suit_key, suit_entry, SUIT_PATTERN_COUNT};
use mahjong::tile::TileName;

#[test]
fn test_indicator_to_dora() {
    assert_eq!(indicator_to_dora(TileName::OneM), TileName::TwoM);
    assert_eq!(indicator_to_dora(TileName::NineM), TileName::OneM);
    assert_eq!(indicator_to_dora(TileName::NineP), TileName::OneP);
    assert_eq!(indicator_to_dora(TileName::NineS), TileName::OneS);
    assert_eq!(indicator_to_dora(TileName::North), TileName::East);
    assert_eq!(indicator_to_dora(TileName::Red), TileName::White);
}

#[test]
fn test_count_dora() {
    let mut counts = [0u8; 35];
    counts[TileName::TwoM as usize] = 3;
    counts[TileName::White as usize] = 2;

    let indicators = [TileName::OneM, TileName::Red];
    let total = count_dora(&counts, &indicators);
    assert_eq!(total, 5);
}

#[test]
fn test_river_push() {
    let mut river = River::new();
    assert_eq!(river.tiles().len(), 0);

    river.push(TileName::OneM);
    assert_eq!(river.tiles().len(), 1);
    assert_eq!(river.tiles()[0], TileName::OneM);

    river.push(TileName::TwoP);
    assert_eq!(river.tiles().len(), 2);
    assert_eq!(river.tiles()[1], TileName::TwoP);
}

#[test]
fn test_river_pop() {
    let mut river = River::new();
    assert_eq!(river.pop(), None);

    river.push(TileName::OneM);
    river.push(TileName::TwoP);

    assert_eq!(river.pop(), Some(TileName::TwoP));
    assert_eq!(river.tiles().len(), 1);
    assert_eq!(river.tiles()[0], TileName::OneM);

    assert_eq!(river.pop(), Some(TileName::OneM));
    assert_eq!(river.tiles().len(), 0);

    assert_eq!(river.pop(), None);
}

#[test]
fn test_mangan_ron_child() {
    // 子の満貫ロン -> 8000点
    let res = calculate_score(5, 30, false, false, false);
    assert_eq!(res.total_points, 8000);
    assert_eq!(res.points_description, "満貫");
}

#[test]
fn test_mangan_tsumo_child() {
    // 子の満貫ツモ -> 8000点 (2000, 4000)
    let res = calculate_score(5, 30, false, true, false);
    assert_eq!(res.total_points, 8000);
    assert_eq!(res.tsumo_payments, Some((2000, 4000)));
}

#[test]
fn test_mangan_ron_dealer() {
    // 親の満貫ロン -> 12000点
    let res = calculate_score(5, 30, true, false, false);
    assert_eq!(res.total_points, 12000);
}

#[test]
fn test_haneman_child() {
    // 子の跳満 -> 12000点 (3000, 6000)
    let res = calculate_score(6, 30, false, true, false);
    assert_eq!(res.total_points, 12000);
    assert_eq!(res.tsumo_payments, Some((3000, 6000)));
}

#[test]
fn test_normal_score_child_ron() {
    // 子の1翻30符ロン -> 基本点 30 * 2^3 = 240 -> 240 * 4 = 960 -> 1000点
    let res = calculate_score(1, 30, false, false, false);
    assert_eq!(res.total_points, 1000);
}

#[test]
fn test_normal_score_pinfu_tsumo_child() {
    // 子の門前平和ツモ (2翻20符)
    // 基本点 20 * 2^4 = 320 -> 子払い 400点, 親払い 700点 -> 計 1500点
    let res = calculate_score(2, 20, false, true, false);
    assert_eq!(res.total_points, 1500);
    assert_eq!(res.tsumo_payments, Some((400, 700)));
}

#[test]
fn test_chitoitsu_score() {
    // 七対子 (2翻25符) ロン
    // 基本点 25 * 2^4 = 400 -> 子ロン: 400 * 4 = 1600点
    let res = calculate_score(2, 25, false, false, false);
    assert_eq!(res.total_points, 1600);
}

#[test]
fn test_calculate_hand_fu_pinfu_and_chitoitsu_and_anko() {
    let empty_melds = vec![];
    let counts = [0u8; 35];

    // 1. 七対子は25符
    let fu_chitoi = calculate_hand_fu(
        &counts,
        &empty_melds,
        TileName::East,
        false,
        false,
        true, // is_chitoitsu
        None,
        None,
    );
    assert_eq!(fu_chitoi, 25);

    // 2. 門前ピンフツモは20符
    let fu_pinfu_tsumo = calculate_hand_fu(
        &counts,
        &empty_melds,
        TileName::TwoM,
        true, // is_tsumo
        true, // is_pinfu
        false,
        None,
        None,
    );
    assert_eq!(fu_pinfu_tsumo, 20);

    // 3. 役牌暗刻（白暗刻 8符）+ 門前ロン（10符）+ 副底（20符） = 38符 -> 40符
    let mut counts_anko = [0u8; 35];
    counts_anko[TileName::White as usize] = 3;
    counts_anko[TileName::TwoM as usize] = 2; // 雀頭
    let fu_anko = calculate_hand_fu(
        &counts_anko,
        &empty_melds,
        TileName::FiveS,
        false, // is_tsumo
        false,
        false,
        None,
        None,
    );
    assert_eq!(fu_anko, 40);
}

#[test]
fn test_agari_normal() {
    // 1m2m3m 4p5p6p 7s8s9s 東東東 白白 (和了形: -1)
    let mut hand = Hand::new();
    for &t in &[
        TileName::OneM,
        TileName::TwoM,
        TileName::ThreeM,
        TileName::FourP,
        TileName::FiveP,
        TileName::SixP,
        TileName::SevenS,
        TileName::EightS,
        TileName::NineS,
        TileName::East,
        TileName::East,
        TileName::East,
        TileName::White,
        TileName::White,
    ] {
        hand.push(t);
    }
    let res = calculate_shanten(&hand);
    assert_eq!(res.normal, -1);
    assert_eq!(res.min_shanten, -1);
}

#[test]
fn test_tenpai_normal() {
    // 1m2m3m 4p5p6p 7s8s9s 東東東 白 (白単騎テンパイ: 0)
    let mut hand = Hand::new();
    for &t in &[
        TileName::OneM,
        TileName::TwoM,
        TileName::ThreeM,
        TileName::FourP,
        TileName::FiveP,
        TileName::SixP,
        TileName::SevenS,
        TileName::EightS,
        TileName::NineS,
        TileName::East,
        TileName::East,
        TileName::East,
        TileName::White,
    ] {
        hand.push(t);
    }
    let res = calculate_shanten(&hand);
    assert_eq!(res.normal, 0);
    assert_eq!(res.min_shanten, 0);
}

#[test]
fn test_ii_shanten_normal() {
    // 1m2m3m 4p5p6p 7s8s 東東東 白 (一向聴: 1)
    let mut hand = Hand::new();
    for &t in &[
        TileName::OneM,
        TileName::TwoM,
        TileName::ThreeM,
        TileName::FourP,
        TileName::FiveP,
        TileName::SixP,
        TileName::SevenS,
        TileName::EightS,
        TileName::East,
        TileName::East,
        TileName::East,
        TileName::White,
        TileName::South,
    ] {
        hand.push(t);
    }
    let res = calculate_shanten(&hand);
    assert_eq!(res.normal, 1);
    assert_eq!(res.min_shanten, 1);
}

#[test]
fn test_chitoitsu() {
    // 七対子テンパイ (6対子 + 1枚): 0向聴
    let mut hand = Hand::new();
    for &t in &[
        TileName::OneM,
        TileName::OneM,
        TileName::ThreeM,
        TileName::ThreeM,
        TileName::FiveP,
        TileName::FiveP,
        TileName::SevenP,
        TileName::SevenP,
        TileName::NineS,
        TileName::NineS,
        TileName::East,
        TileName::East,
        TileName::White,
    ] {
        hand.push(t);
    }
    let res = calculate_shanten(&hand);
    assert_eq!(res.chitoitsu, 0);
    assert_eq!(res.min_shanten, 0);

    // 七対子和了形 (-1向聴)
    hand.push(TileName::White);
    let res_agari = calculate_shanten(&hand);
    assert_eq!(res_agari.chitoitsu, -1);
    assert_eq!(res_agari.min_shanten, -1);
}

#[test]
fn test_kokushi() {
    // 国士無双テンパイ (13面待ち): 0向聴
    let mut hand = Hand::new();
    for &t in &[
        TileName::OneM,
        TileName::NineM,
        TileName::OneP,
        TileName::NineP,
        TileName::OneS,
        TileName::NineS,
        TileName::East,
        TileName::South,
        TileName::West,
        TileName::North,
        TileName::White,
        TileName::Green,
        TileName::Red,
    ] {
        hand.push(t);
    }
    let res = calculate_shanten(&hand);
    assert_eq!(res.kokushi, 0);
    assert_eq!(res.min_shanten, 0);

    // 国士無双和了形 (-1向聴)
    hand.push(TileName::OneM);
    let res_agari = calculate_shanten(&hand);
    assert_eq!(res_agari.kokushi, -1);
    assert_eq!(res_agari.min_shanten, -1);
}

#[test]
fn test_open_melds() {
    // チーした状態でのシャンテン数計算
    let mut hand = Hand::new();
    // 手牌10枚
    for &t in &[
        TileName::OneM,
        TileName::TwoM,
        TileName::ThreeM,
        TileName::FourP,
        TileName::FiveP,
        TileName::SixP,
        TileName::SevenS,
        TileName::EightS,
        TileName::East,
        TileName::East,
    ] {
        hand.push(t);
    }
    // 1面子副露
    hand.open_melds
        .push(mahjong::hand::Meld::Pon(TileName::White));

    let res = calculate_shanten(&hand);
    assert_eq!(res.normal, 0); // テンパイ (7s-8s の両面待ち)
    assert_eq!(res.chitoitsu, 99); // 鳴きがあるので七対子は不可
    assert_eq!(res.kokushi, 99); // 鳴きがあるので国士は不可
    assert_eq!(res.min_shanten, 0);
}

#[test]
fn test_chinitsu_chuuren_shanten() {
    // 1112345678999m (九蓮宝燈テンパイ: 0向聴)
    let mut hand = Hand::new();
    for &t in &[
        TileName::OneM,
        TileName::OneM,
        TileName::OneM,
        TileName::TwoM,
        TileName::ThreeM,
        TileName::FourM,
        TileName::FiveM,
        TileName::SixM,
        TileName::SevenM,
        TileName::EightM,
        TileName::NineM,
        TileName::NineM,
        TileName::NineM,
    ] {
        hand.push(t);
    }
    let res = calculate_shanten(&hand);
    assert_eq!(res.normal, 0);
    assert_eq!(res.min_shanten, 0);

    // 1mツモで和了形: -1向聴
    hand.push(TileName::OneM);
    let res_agari = calculate_shanten(&hand);
    assert_eq!(res_agari.normal, -1);
    assert_eq!(res_agari.min_shanten, -1);
}

#[test]
fn test_honor_pairs_as_taatsu() {
    // 東東(雀頭) 白白(搭子) 1m2m(搭子) 4p5p(搭子) 7s8s(搭子) -> 一向聴 (1)
    let mut hand = Hand::new();
    for &t in &[
        TileName::East,
        TileName::East,
        TileName::White,
        TileName::White,
        TileName::OneM,
        TileName::TwoM,
        TileName::FourP,
        TileName::FiveP,
        TileName::SevenS,
        TileName::EightS,
        TileName::ThreeS,
        TileName::ThreeS,
        TileName::ThreeS,
    ] {
        hand.push(t);
    }
    // 3s3s3s(1面子), 東東(雀頭), 白白/1m2m/4p5p/7s8s(搭子4組 -> 有効3組)
    // 向聴数 = 8 - 2*1 - 3 - 1 = 2 (向聴数 2)
    let res = calculate_shanten(&hand);
    assert_eq!(res.normal, 2);
}

#[test]
fn test_identical_tiles_overflow_does_not_panic() {
    // 同一牌が5枚以上の異常入力（例: 9mが5枚）でもパニック（out of bounds）せず安全に処理されること
    let mut counts = [0u8; 35];
    counts[TileName::NineM as usize] = 5;
    let res = calculate_shanten_from_counts(&counts, 0);
    // パニックせず結果が返ること
    assert!(res.min_shanten >= 0);
}

#[test]
fn test_encode_suit_key() {
    let counts = [0u8; 9];
    assert_eq!(encode_suit_key(&counts), 0);

    let mut counts2 = [0u8; 9];
    counts2[0] = 1;
    assert_eq!(encode_suit_key(&counts2), 1);

    counts2[1] = 1;
    assert_eq!(encode_suit_key(&counts2), 1 + 5);

    let max_counts = [4u8; 9];
    assert_eq!(encode_suit_key(&max_counts), SUIT_PATTERN_COUNT - 1);
}

#[test]
fn test_encode_suit_key_safety_with_overflow() {
    // 同一牌が5枚以上の異常入力でも panic せず、上限 4 に安全にクリップされること
    let mut overflow_counts = [0u8; 9];
    overflow_counts[0] = 5; // 5枚
    overflow_counts[8] = 10; // 10枚
    let key = encode_suit_key(&overflow_counts);
    assert!(key < SUIT_PATTERN_COUNT);

    let mut clamped_counts = [0u8; 9];
    clamped_counts[0] = 4;
    clamped_counts[8] = 4;
    assert_eq!(key, encode_suit_key(&clamped_counts));
}

#[test]
fn test_suit_entry_pure_sequence() {
            // 123m (1m:1, 2m:1, 3m:1)
    let mut counts = [0u8; 9];
    counts[0] = 1;
    counts[1] = 1;
    counts[2] = 1;
    let entry = suit_entry(&counts);
    // 雀頭なし: m=1 のとき t=0, m=0 のとき t=1 (12m/23m 等の搭子)
    assert_eq!(entry.no_head[1], 0);
    assert_eq!(entry.no_head[0], 1);
    // 雀頭あり: 対子がないので作れない
    assert_eq!(entry.with_head[0], -1);
}

#[test]
fn test_suit_entry_triplet_and_pair() {
            // 11122m (1m:3, 2m:2)
    let mut counts = [0u8; 9];
    counts[0] = 3;
    counts[1] = 2;
    let entry = suit_entry(&counts);
    // 雀頭なし: 111m(刻子1) + 22m(対子1) -> m=1, t=1
    assert_eq!(entry.no_head[1], 1);
    // 雀頭あり: 22mを雀頭固定 -> 111m(刻子1) -> m=1, t=0
    assert_eq!(entry.with_head[1], 0);
}
