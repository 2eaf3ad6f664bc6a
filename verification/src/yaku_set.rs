//! Yaku identifiers, the yaku table and sets of yaku.
use vstd::prelude::*;

verus! {

/// Identifier of a yaku; its code (0..=40) is its position in this list.
#[derive(Clone, Copy, PartialEq, Eq, Hash, Debug, Structural)]
pub enum YakuId {
    Riichi,
    MenzenTsumo,
    Tanyao,
    Pinfu,
    Ipeiko,
    YakuhaiHaku,
    YakuhaiHatsu,
    YakuhaiChun,
    YakuhaiJikaze,
    YakuhaiBakaze,
    Chitoitsu,
    Toitoi,
    Sanankou,
    Shousangen,
    Chantaiyao,
    Ryanpeiko,
    SanshokuDoujun,
    SanshokuDoukou,
    Honitsu,
    Junchan,
    Chinitsu,
    Chinroutou,
    Honroutou,
    Sankantsu,
    KokushiMusou,
    Suuankou,
    Daisangen,
    Shousuushi,
    Daisuushi,
    Suukantsu,
    Tsuuiisou,
    Ryuuiisou,
    ChuurenPoutou,
    Tenhou,
    Chiihou,
    RinshanKaihou,
    Chankan,
    HaiteiRaoyue,
    HouteiRaoyui,
    DoubleRiichi,
    Ippatsu,
}

impl YakuId {
    /// The code of the yaku: its position in the list of yaku.
    pub open spec fn spec_code(self) -> int {
        match self {
            YakuId::Riichi => 0,
            YakuId::MenzenTsumo => 1,
            YakuId::Tanyao => 2,
            YakuId::Pinfu => 3,
            YakuId::Ipeiko => 4,
            YakuId::YakuhaiHaku => 5,
            YakuId::YakuhaiHatsu => 6,
            YakuId::YakuhaiChun => 7,
            YakuId::YakuhaiJikaze => 8,
            YakuId::YakuhaiBakaze => 9,
            YakuId::Chitoitsu => 10,
            YakuId::Toitoi => 11,
            YakuId::Sanankou => 12,
            YakuId::Shousangen => 13,
            YakuId::Chantaiyao => 14,
            YakuId::Ryanpeiko => 15,
            YakuId::SanshokuDoujun => 16,
            YakuId::SanshokuDoukou => 17,
            YakuId::Honitsu => 18,
            YakuId::Junchan => 19,
            YakuId::Chinitsu => 20,
            YakuId::Chinroutou => 21,
            YakuId::Honroutou => 22,
            YakuId::Sankantsu => 23,
            YakuId::KokushiMusou => 24,
            YakuId::Suuankou => 25,
            YakuId::Daisangen => 26,
            YakuId::Shousuushi => 27,
            YakuId::Daisuushi => 28,
            YakuId::Suukantsu => 29,
            YakuId::Tsuuiisou => 30,
            YakuId::Ryuuiisou => 31,
            YakuId::ChuurenPoutou => 32,
            YakuId::Tenhou => 33,
            YakuId::Chiihou => 34,
            YakuId::RinshanKaihou => 35,
            YakuId::Chankan => 36,
            YakuId::HaiteiRaoyue => 37,
            YakuId::HouteiRaoyui => 38,
            YakuId::DoubleRiichi => 39,
            YakuId::Ippatsu => 40,
        }
    }

    /// The yaku whose code is `n`, if there is one.
    pub open spec fn spec_from_code(n: int) -> Option<YakuId> {
        if n == 0 {
            Some(YakuId::Riichi)
        } else if n == 1 {
            Some(YakuId::MenzenTsumo)
        } else if n == 2 {
            Some(YakuId::Tanyao)
        } else if n == 3 {
            Some(YakuId::Pinfu)
        } else if n == 4 {
            Some(YakuId::Ipeiko)
        } else if n == 5 {
            Some(YakuId::YakuhaiHaku)
        } else if n == 6 {
            Some(YakuId::YakuhaiHatsu)
        } else if n == 7 {
            Some(YakuId::YakuhaiChun)
        } else if n == 8 {
            Some(YakuId::YakuhaiJikaze)
        } else if n == 9 {
            Some(YakuId::YakuhaiBakaze)
        } else if n == 10 {
            Some(YakuId::Chitoitsu)
        } else if n == 11 {
            Some(YakuId::Toitoi)
        } else if n == 12 {
            Some(YakuId::Sanankou)
        } else if n == 13 {
            Some(YakuId::Shousangen)
        } else if n == 14 {
            Some(YakuId::Chantaiyao)
        } else if n == 15 {
            Some(YakuId::Ryanpeiko)
        } else if n == 16 {
            Some(YakuId::SanshokuDoujun)
        } else if n == 17 {
            Some(YakuId::SanshokuDoukou)
        } else if n == 18 {
            Some(YakuId::Honitsu)
        } else if n == 19 {
            Some(YakuId::Junchan)
        } else if n == 20 {
            Some(YakuId::Chinitsu)
        } else if n == 21 {
            Some(YakuId::Chinroutou)
        } else if n == 22 {
            Some(YakuId::Honroutou)
        } else if n == 23 {
            Some(YakuId::Sankantsu)
        } else if n == 24 {
            Some(YakuId::KokushiMusou)
        } else if n == 25 {
            Some(YakuId::Suuankou)
        } else if n == 26 {
            Some(YakuId::Daisangen)
        } else if n == 27 {
            Some(YakuId::Shousuushi)
        } else if n == 28 {
            Some(YakuId::Daisuushi)
        } else if n == 29 {
            Some(YakuId::Suukantsu)
        } else if n == 30 {
            Some(YakuId::Tsuuiisou)
        } else if n == 31 {
            Some(YakuId::Ryuuiisou)
        } else if n == 32 {
            Some(YakuId::ChuurenPoutou)
        } else if n == 33 {
            Some(YakuId::Tenhou)
        } else if n == 34 {
            Some(YakuId::Chiihou)
        } else if n == 35 {
            Some(YakuId::RinshanKaihou)
        } else if n == 36 {
            Some(YakuId::Chankan)
        } else if n == 37 {
            Some(YakuId::HaiteiRaoyue)
        } else if n == 38 {
            Some(YakuId::HouteiRaoyui)
        } else if n == 39 {
            Some(YakuId::DoubleRiichi)
        } else if n == 40 {
            Some(YakuId::Ippatsu)
        } else {
            None
        }
    }

    /// The code of the yaku (its position in the list of yaku).
    pub fn code(self) -> (c: u8)
        ensures
            c == self.spec_code(),
    {
        match self {
            YakuId::Riichi => 0,
            YakuId::MenzenTsumo => 1,
            YakuId::Tanyao => 2,
            YakuId::Pinfu => 3,
            YakuId::Ipeiko => 4,
            YakuId::YakuhaiHaku => 5,
            YakuId::YakuhaiHatsu => 6,
            YakuId::YakuhaiChun => 7,
            YakuId::YakuhaiJikaze => 8,
            YakuId::YakuhaiBakaze => 9,
            YakuId::Chitoitsu => 10,
            YakuId::Toitoi => 11,
            YakuId::Sanankou => 12,
            YakuId::Shousangen => 13,
            YakuId::Chantaiyao => 14,
            YakuId::Ryanpeiko => 15,
            YakuId::SanshokuDoujun => 16,
            YakuId::SanshokuDoukou => 17,
            YakuId::Honitsu => 18,
            YakuId::Junchan => 19,
            YakuId::Chinitsu => 20,
            YakuId::Chinroutou => 21,
            YakuId::Honroutou => 22,
            YakuId::Sankantsu => 23,
            YakuId::KokushiMusou => 24,
            YakuId::Suuankou => 25,
            YakuId::Daisangen => 26,
            YakuId::Shousuushi => 27,
            YakuId::Daisuushi => 28,
            YakuId::Suukantsu => 29,
            YakuId::Tsuuiisou => 30,
            YakuId::Ryuuiisou => 31,
            YakuId::ChuurenPoutou => 32,
            YakuId::Tenhou => 33,
            YakuId::Chiihou => 34,
            YakuId::RinshanKaihou => 35,
            YakuId::Chankan => 36,
            YakuId::HaiteiRaoyue => 37,
            YakuId::HouteiRaoyui => 38,
            YakuId::DoubleRiichi => 39,
            YakuId::Ippatsu => 40,
        }
    }

    /// The yaku whose code is `val`; `None` for codes above 40.
    pub fn from_u8(val: u8) -> (r: Option<YakuId>)
        ensures
            r == YakuId::spec_from_code(val as int),
    {
        match val {
            0 => Some(YakuId::Riichi),
            1 => Some(YakuId::MenzenTsumo),
            2 => Some(YakuId::Tanyao),
            3 => Some(YakuId::Pinfu),
            4 => Some(YakuId::Ipeiko),
            5 => Some(YakuId::YakuhaiHaku),
            6 => Some(YakuId::YakuhaiHatsu),
            7 => Some(YakuId::YakuhaiChun),
            8 => Some(YakuId::YakuhaiJikaze),
            9 => Some(YakuId::YakuhaiBakaze),
            10 => Some(YakuId::Chitoitsu),
            11 => Some(YakuId::Toitoi),
            12 => Some(YakuId::Sanankou),
            13 => Some(YakuId::Shousangen),
            14 => Some(YakuId::Chantaiyao),
            15 => Some(YakuId::Ryanpeiko),
            16 => Some(YakuId::SanshokuDoujun),
            17 => Some(YakuId::SanshokuDoukou),
            18 => Some(YakuId::Honitsu),
            19 => Some(YakuId::Junchan),
            20 => Some(YakuId::Chinitsu),
            21 => Some(YakuId::Chinroutou),
            22 => Some(YakuId::Honroutou),
            23 => Some(YakuId::Sankantsu),
            24 => Some(YakuId::KokushiMusou),
            25 => Some(YakuId::Suuankou),
            26 => Some(YakuId::Daisangen),
            27 => Some(YakuId::Shousuushi),
            28 => Some(YakuId::Daisuushi),
            29 => Some(YakuId::Suukantsu),
            30 => Some(YakuId::Tsuuiisou),
            31 => Some(YakuId::Ryuuiisou),
            32 => Some(YakuId::ChuurenPoutou),
            33 => Some(YakuId::Tenhou),
            34 => Some(YakuId::Chiihou),
            35 => Some(YakuId::RinshanKaihou),
            36 => Some(YakuId::Chankan),
            37 => Some(YakuId::HaiteiRaoyue),
            38 => Some(YakuId::HouteiRaoyui),
            39 => Some(YakuId::DoubleRiichi),
            40 => Some(YakuId::Ippatsu),
            _ => None,
        }
    }

    /// Whether the yaku is a yakuman.
    pub open spec fn spec_is_yakuman(self) -> bool {
        match self {
            YakuId::Chinroutou => true,
            YakuId::KokushiMusou => true,
            YakuId::Suuankou => true,
            YakuId::Daisangen => true,
            YakuId::Shousuushi => true,
            YakuId::Daisuushi => true,
            YakuId::Suukantsu => true,
            YakuId::Tsuuiisou => true,
            YakuId::Ryuuiisou => true,
            YakuId::ChuurenPoutou => true,
            YakuId::Tenhou => true,
            YakuId::Chiihou => true,
            _ => false,
        }
    }

    /// Han of the yaku with a closed hand (0 for the yakuman counted apart).
    pub open spec fn spec_han_closed(self) -> int {
        match self {
            YakuId::Riichi => 1,
            YakuId::MenzenTsumo => 1,
            YakuId::Tanyao => 1,
            YakuId::Pinfu => 1,
            YakuId::Ipeiko => 1,
            YakuId::YakuhaiHaku => 1,
            YakuId::YakuhaiHatsu => 1,
            YakuId::YakuhaiChun => 1,
            YakuId::YakuhaiJikaze => 1,
            YakuId::YakuhaiBakaze => 1,
            YakuId::Chitoitsu => 2,
            YakuId::Toitoi => 2,
            YakuId::Sanankou => 2,
            YakuId::Shousangen => 2,
            YakuId::Chantaiyao => 2,
            YakuId::Ryanpeiko => 3,
            YakuId::SanshokuDoujun => 2,
            YakuId::SanshokuDoukou => 2,
            YakuId::Honitsu => 3,
            YakuId::Junchan => 3,
            YakuId::Chinitsu => 6,
            YakuId::Chinroutou => 0,
            YakuId::Honroutou => 2,
            YakuId::Sankantsu => 2,
            YakuId::KokushiMusou => 13,
            YakuId::Suuankou => 13,
            YakuId::Daisangen => 13,
            YakuId::Shousuushi => 13,
            YakuId::Daisuushi => 13,
            YakuId::Suukantsu => 13,
            YakuId::Tsuuiisou => 13,
            YakuId::Ryuuiisou => 13,
            YakuId::ChuurenPoutou => 13,
            YakuId::Tenhou => 13,
            YakuId::Chiihou => 13,
            YakuId::RinshanKaihou => 1,
            YakuId::Chankan => 1,
            YakuId::HaiteiRaoyue => 1,
            YakuId::HouteiRaoyui => 1,
            YakuId::DoubleRiichi => 2,
            YakuId::Ippatsu => 1,
        }
    }

    /// Han of the yaku with an open hand (0 where the yaku needs a closed hand).
    pub open spec fn spec_han_open(self) -> int {
        match self {
            YakuId::Riichi => 0,
            YakuId::MenzenTsumo => 0,
            YakuId::Tanyao => 1,
            YakuId::Pinfu => 0,
            YakuId::Ipeiko => 0,
            YakuId::YakuhaiHaku => 1,
            YakuId::YakuhaiHatsu => 1,
            YakuId::YakuhaiChun => 1,
            YakuId::YakuhaiJikaze => 1,
            YakuId::YakuhaiBakaze => 1,
            YakuId::Chitoitsu => 0,
            YakuId::Toitoi => 2,
            YakuId::Sanankou => 2,
            YakuId::Shousangen => 2,
            YakuId::Chantaiyao => 1,
            YakuId::Ryanpeiko => 0,
            YakuId::SanshokuDoujun => 1,
            YakuId::SanshokuDoukou => 2,
            YakuId::Honitsu => 2,
            YakuId::Junchan => 2,
            YakuId::Chinitsu => 5,
            YakuId::Chinroutou => 0,
            YakuId::Honroutou => 2,
            YakuId::Sankantsu => 2,
            YakuId::KokushiMusou => 0,
            YakuId::Suuankou => 0,
            YakuId::Daisangen => 13,
            YakuId::Shousuushi => 13,
            YakuId::Daisuushi => 13,
            YakuId::Suukantsu => 13,
            YakuId::Tsuuiisou => 13,
            YakuId::Ryuuiisou => 13,
            YakuId::ChuurenPoutou => 0,
            YakuId::Tenhou => 0,
            YakuId::Chiihou => 0,
            YakuId::RinshanKaihou => 1,
            YakuId::Chankan => 1,
            YakuId::HaiteiRaoyue => 1,
            YakuId::HouteiRaoyui => 1,
            YakuId::DoubleRiichi => 0,
            YakuId::Ippatsu => 0,
        }
    }

    /// The table entry of the yaku: names, han and whether it is a yakuman.
    pub fn info(self) -> (y: Yaku)
        ensures
            y.id == self,
            y.han_closed == self.spec_han_closed(),
            y.han_open == self.spec_han_open(),
            y.yakuman == self.spec_is_yakuman(),
    {
        match self {
            YakuId::Riichi => Yaku { id: YakuId::Riichi, name_ja: "立直", name_kana: "リーチ", han_closed: 1, han_open: 0, yakuman: false },
            YakuId::MenzenTsumo => Yaku { id: YakuId::MenzenTsumo, name_ja: "門前清自摸和", name_kana: "メンゼンツモ", han_closed: 1, han_open: 0, yakuman: false },
            YakuId::Tanyao => Yaku { id: YakuId::Tanyao, name_ja: "断么九", name_kana: "タンヤオ", han_closed: 1, han_open: 1, yakuman: false },
            YakuId::Pinfu => Yaku { id: YakuId::Pinfu, name_ja: "平和", name_kana: "ピンフ", han_closed: 1, han_open: 0, yakuman: false },
            YakuId::Ipeiko => Yaku { id: YakuId::Ipeiko, name_ja: "一盃口", name_kana: "イーペーコー", han_closed: 1, han_open: 0, yakuman: false },
            YakuId::YakuhaiHaku => Yaku { id: YakuId::YakuhaiHaku, name_ja: "役牌 白", name_kana: "ハク", han_closed: 1, han_open: 1, yakuman: false },
            YakuId::YakuhaiHatsu => Yaku { id: YakuId::YakuhaiHatsu, name_ja: "役牌 發", name_kana: "ハツ", han_closed: 1, han_open: 1, yakuman: false },
            YakuId::YakuhaiChun => Yaku { id: YakuId::YakuhaiChun, name_ja: "役牌 中", name_kana: "チュン", han_closed: 1, han_open: 1, yakuman: false },
            YakuId::YakuhaiJikaze => Yaku { id: YakuId::YakuhaiJikaze, name_ja: "役牌 自風牌", name_kana: "ジカゼ", han_closed: 1, han_open: 1, yakuman: false },
            YakuId::YakuhaiBakaze => Yaku { id: YakuId::YakuhaiBakaze, name_ja: "役牌 場風牌", name_kana: "バカゼ", han_closed: 1, han_open: 1, yakuman: false },
            YakuId::Chitoitsu => Yaku { id: YakuId::Chitoitsu, name_ja: "七対子", name_kana: "チートイツ", han_closed: 2, han_open: 0, yakuman: false },
            YakuId::Toitoi => Yaku { id: YakuId::Toitoi, name_ja: "対々和", name_kana: "トイトイ", han_closed: 2, han_open: 2, yakuman: false },
            YakuId::Sanankou => Yaku { id: YakuId::Sanankou, name_ja: "三暗刻", name_kana: "サンアンコウ", han_closed: 2, han_open: 2, yakuman: false },
            YakuId::Shousangen => Yaku { id: YakuId::Shousangen, name_ja: "小三元", name_kana: "ショウサンゲン", han_closed: 2, han_open: 2, yakuman: false },
            YakuId::Chantaiyao => Yaku { id: YakuId::Chantaiyao, name_ja: "混全帯么九", name_kana: "チャンタ", han_closed: 2, han_open: 1, yakuman: false },
            YakuId::Ryanpeiko => Yaku { id: YakuId::Ryanpeiko, name_ja: "二盃口", name_kana: "リャンペーコー", han_closed: 3, han_open: 0, yakuman: false },
            YakuId::SanshokuDoujun => Yaku { id: YakuId::SanshokuDoujun, name_ja: "三色同順", name_kana: "サンショクドウジュン", han_closed: 2, han_open: 1, yakuman: false },
            YakuId::SanshokuDoukou => Yaku { id: YakuId::SanshokuDoukou, name_ja: "三色同刻", name_kana: "サンショクドウコウ", han_closed: 2, han_open: 2, yakuman: false },
            YakuId::Honitsu => Yaku { id: YakuId::Honitsu, name_ja: "混一色", name_kana: "ホンイツ", han_closed: 3, han_open: 2, yakuman: false },
            YakuId::Junchan => Yaku { id: YakuId::Junchan, name_ja: "純全帯么九", name_kana: "ジュンチャン", han_closed: 3, han_open: 2, yakuman: false },
            YakuId::Chinitsu => Yaku { id: YakuId::Chinitsu, name_ja: "清一色", name_kana: "チンイツ", han_closed: 6, han_open: 5, yakuman: false },
            YakuId::Chinroutou => Yaku { id: YakuId::Chinroutou, name_ja: "清老頭", name_kana: "チンロウトウ", han_closed: 0, han_open: 0, yakuman: true },
            YakuId::Honroutou => Yaku { id: YakuId::Honroutou, name_ja: "混老頭", name_kana: "ホンロウトウ", han_closed: 2, han_open: 2, yakuman: false },
            YakuId::Sankantsu => Yaku { id: YakuId::Sankantsu, name_ja: "三槓子", name_kana: "サンカンツ", han_closed: 2, han_open: 2, yakuman: false },
            YakuId::KokushiMusou => Yaku { id: YakuId::KokushiMusou, name_ja: "国士無双", name_kana: "コクシムソウ", han_closed: 13, han_open: 0, yakuman: true },
            YakuId::Suuankou => Yaku { id: YakuId::Suuankou, name_ja: "四暗刻", name_kana: "スーアンコウ", han_closed: 13, han_open: 0, yakuman: true },
            YakuId::Daisangen => Yaku { id: YakuId::Daisangen, name_ja: "大三元", name_kana: "ダイサンゲン", han_closed: 13, han_open: 13, yakuman: true },
            YakuId::Shousuushi => Yaku { id: YakuId::Shousuushi, name_ja: "小四喜", name_kana: "ショウスーシー", han_closed: 13, han_open: 13, yakuman: true },
            YakuId::Daisuushi => Yaku { id: YakuId::Daisuushi, name_ja: "大四喜", name_kana: "ダイスーシー", han_closed: 13, han_open: 13, yakuman: true },
            YakuId::Suukantsu => Yaku { id: YakuId::Suukantsu, name_ja: "四槓子", name_kana: "スーカンツ", han_closed: 13, han_open: 13, yakuman: true },
            YakuId::Tsuuiisou => Yaku { id: YakuId::Tsuuiisou, name_ja: "字一色", name_kana: "ツーイーソー", han_closed: 13, han_open: 13, yakuman: true },
            YakuId::Ryuuiisou => Yaku { id: YakuId::Ryuuiisou, name_ja: "緑一色", name_kana: "リューイーソー", han_closed: 13, han_open: 13, yakuman: true },
            YakuId::ChuurenPoutou => Yaku { id: YakuId::ChuurenPoutou, name_ja: "九蓮宝燈", name_kana: "チューレンポウトウ", han_closed: 13, han_open: 0, yakuman: true },
            YakuId::Tenhou => Yaku { id: YakuId::Tenhou, name_ja: "天和", name_kana: "テンホウ", han_closed: 13, han_open: 0, yakuman: true },
            YakuId::Chiihou => Yaku { id: YakuId::Chiihou, name_ja: "地和", name_kana: "チーホウ", han_closed: 13, han_open: 0, yakuman: true },
            YakuId::RinshanKaihou => Yaku { id: YakuId::RinshanKaihou, name_ja: "嶺上開花", name_kana: "リンシャンカイホウ", han_closed: 1, han_open: 1, yakuman: false },
            YakuId::Chankan => Yaku { id: YakuId::Chankan, name_ja: "槍槓", name_kana: "チャンカン", han_closed: 1, han_open: 1, yakuman: false },
            YakuId::HaiteiRaoyue => Yaku { id: YakuId::HaiteiRaoyue, name_ja: "海底撈月", name_kana: "ハイテイラオユエ", han_closed: 1, han_open: 1, yakuman: false },
            YakuId::HouteiRaoyui => Yaku { id: YakuId::HouteiRaoyui, name_ja: "河底撈魚", name_kana: "ホウテイラオユイ", han_closed: 1, han_open: 1, yakuman: false },
            YakuId::DoubleRiichi => Yaku { id: YakuId::DoubleRiichi, name_ja: "ダブル立直", name_kana: "ダブルリーチ", han_closed: 2, han_open: 0, yakuman: false },
            YakuId::Ippatsu => Yaku { id: YakuId::Ippatsu, name_ja: "一発", name_kana: "イッパツ", han_closed: 1, han_open: 0, yakuman: false },
        }
    }
}

/// Every yaku identifier, in code order.
pub const ALL_YAKU_IDS: [YakuId; 41] = [
    YakuId::Riichi,
    YakuId::MenzenTsumo,
    YakuId::Tanyao,
    YakuId::Pinfu,
    YakuId::Ipeiko,
    YakuId::YakuhaiHaku,
    YakuId::YakuhaiHatsu,
    YakuId::YakuhaiChun,
    YakuId::YakuhaiJikaze,
    YakuId::YakuhaiBakaze,
    YakuId::Chitoitsu,
    YakuId::Toitoi,
    YakuId::Sanankou,
    YakuId::Shousangen,
    YakuId::Chantaiyao,
    YakuId::Ryanpeiko,
    YakuId::SanshokuDoujun,
    YakuId::SanshokuDoukou,
    YakuId::Honitsu,
    YakuId::Junchan,
    YakuId::Chinitsu,
    YakuId::Chinroutou,
    YakuId::Honroutou,
    YakuId::Sankantsu,
    YakuId::KokushiMusou,
    YakuId::Suuankou,
    YakuId::Daisangen,
    YakuId::Shousuushi,
    YakuId::Daisuushi,
    YakuId::Suukantsu,
    YakuId::Tsuuiisou,
    YakuId::Ryuuiisou,
    YakuId::ChuurenPoutou,
    YakuId::Tenhou,
    YakuId::Chiihou,
    YakuId::RinshanKaihou,
    YakuId::Chankan,
    YakuId::HaiteiRaoyue,
    YakuId::HouteiRaoyui,
    YakuId::DoubleRiichi,
    YakuId::Ippatsu,
];

/// A row of the yaku table.
#[derive(Clone, Copy, Debug)]
pub struct Yaku {
    pub id: YakuId,
    pub name_ja: &'static str,
    pub name_kana: &'static str,
    pub han_closed: i8,
    pub han_open: i8,
    pub yakuman: bool,
}

/// The yaku table, one row per yaku in code order.
pub fn all_yaku() -> (v: Vec<Yaku>)
    ensures
        v.len() == 41,
        forall|i: int| 0 <= i < 41 ==> (#[trigger] v[i]).id.spec_code() == i,
{
    let mut v: Vec<Yaku> = Vec::new();
    let mut k: u8 = 0;
    while k < 41
        invariant
            k <= 41,
            v.len() == k,
            forall|i: int| 0 <= i < k ==> (#[trigger] v[i]).id.spec_code() == i,
        decreases 41 - k,
    {
        proof {
            lemma_from_code(k as int);
        }
        let id = YakuId::from_u8(k).unwrap();
        v.push(id.info());
        k = k + 1;
    }
    v
}

/// Bits of the yakuman in a yaku bitmask.
pub const YAKUMAN_MASK: u64 = 0x7_FF20_0000;

/// The 41 bits that stand for a yaku.
pub const VALID_YAKU_MASK: u64 = 0x1FF_FFFF_FFFF;

/// Bit `k` of `x` is set.
pub open spec fn bit(x: u64, k: int) -> bool {
    0 <= k < 64 && (x >> (k as u64)) & 1u64 == 1u64
}

/// How many of the bits `0..n` of `x` are set; for `n == 64`, the number of
/// ones in the binary form of `x`.
pub open spec fn bits_set(x: u64, n: int) -> int
    decreases n,
{
    if n <= 0 {
        0
    } else {
        bits_set(x, n - 1) + if bit(x, n - 1) { 1int } else { 0int }
    }
}

/// No bit from 41 up is set in a valid bitmask, so counting them adds nothing.
proof fn lemma_bits_set_high(x: u64, n: int)
    requires
        x <= 0x1FF_FFFF_FFFFu64,
        41 <= n <= 64,
    ensures
        bits_set(x, n) == bits_set(x, 41),
    decreases n,
{
    if n > 41 {
        lemma_high_bits_clear(x, (n - 1) as u64);
        lemma_bits_set_high(x, n - 1);
    }
}

/// Every code below 41 names a yaku, whose code it is.
pub proof fn lemma_from_code(n: int)
    requires
        0 <= n < 41,
    ensures
        YakuId::spec_from_code(n) is Some,
        YakuId::spec_from_code(n)->0.spec_code() == n,
{
}

/// Every yaku has a code below 41 that gives it back.
pub proof fn lemma_code(id: YakuId)
    ensures
        0 <= id.spec_code() < 41,
        YakuId::spec_from_code(id.spec_code()) == Some(id),
{
}

/// Two yaku with the same code are the same yaku.
pub proof fn lemma_code_injective(a: YakuId, b: YakuId)
    ensures
        a.spec_code() == b.spec_code() <==> a == b,
{
    lemma_code(a);
    lemma_code(b);
}

proof fn lemma_bit_or(x: u64, y: u64, j: u64)
    by (bit_vector)
    requires
        j < 64,
    ensures
        ((x | y) >> j) & 1u64 == 1u64 <==> ((x >> j) & 1u64 == 1u64 || (y >> j) & 1u64 == 1u64),
{
}

proof fn lemma_bit_and(x: u64, y: u64, j: u64)
    by (bit_vector)
    requires
        j < 64,
    ensures
        ((x & y) >> j) & 1u64 == 1u64 <==> ((x >> j) & 1u64 == 1u64 && (y >> j) & 1u64 == 1u64),
{
}

proof fn lemma_bit_and_not(x: u64, y: u64, j: u64)
    by (bit_vector)
    requires
        j < 64,
    ensures
        ((x & !y) >> j) & 1u64 == 1u64 <==> ((x >> j) & 1u64 == 1u64 && (y >> j) & 1u64 != 1u64),
{
}

proof fn lemma_bit_single(k: u64, j: u64)
    by (bit_vector)
    requires
        k < 64,
        j < 64,
    ensures
        ((1u64 << k) >> j) & 1u64 == 1u64 <==> j == k,
{
}

proof fn lemma_valid_or(x: u64, y: u64)
    by (bit_vector)
    requires
        x <= 0x1FF_FFFF_FFFFu64,
        y <= 0x1FF_FFFF_FFFFu64,
    ensures
        x | y <= 0x1FF_FFFF_FFFFu64,
{
}

proof fn lemma_valid_and(x: u64, y: u64)
    by (bit_vector)
    requires
        x <= 0x1FF_FFFF_FFFFu64,
    ensures
        x & y <= 0x1FF_FFFF_FFFFu64,
        y & x <= 0x1FF_FFFF_FFFFu64,
{
}

proof fn lemma_valid_single(k: u64)
    by (bit_vector)
    requires
        k < 41,
    ensures
        1u64 << k <= 0x1FF_FFFF_FFFFu64,
{
}

proof fn lemma_mask_valid(x: u64)
    by (bit_vector)
    ensures
        x & 0x1FF_FFFF_FFFFu64 <= 0x1FF_FFFF_FFFFu64,
        x & !0x1FF_FFFF_FFFFu64 == 0u64 <==> x <= 0x1FF_FFFF_FFFFu64,
{
}

proof fn lemma_high_bits_clear(x: u64, j: u64)
    by (bit_vector)
    requires
        x <= 0x1FF_FFFF_FFFFu64,
        41 <= j < 64,
    ensures
        (x >> j) & 1u64 != 1u64,
{
}

proof fn lemma_mask_bits(x: u64, j: u64)
    by (bit_vector)
    requires
        j < 64,
    ensures
        ((x & 0x1FF_FFFF_FFFFu64) >> j) & 1u64 == 1u64 <==> (j < 41 && (x >> j) & 1u64 == 1u64),
{
}

/// Step of the extensionality argument: two values that agree above bit
/// `k` and on bit `k - 1` agree above bit `k - 1`.
proof fn lemma_shift_step(x: u64, y: u64, k: u64)
    by (bit_vector)
    requires
        1 <= k <= 41,
        x >> k == y >> k,
        ((x >> ((k - 1) as u64)) & 1u64 == 1u64) == ((y >> ((k - 1) as u64)) & 1u64 == 1u64),
    ensures
        x >> ((k - 1) as u64) == y >> ((k - 1) as u64),
{
}

proof fn lemma_valid_top(x: u64)
    by (bit_vector)
    requires
        x <= 0x1FF_FFFF_FFFFu64,
    ensures
        x >> 41u64 == 0u64,
        x >> 0u64 == x,
{
}

/// Two valid bitmasks with the same bits below `k`... and none above 40 are equal.
proof fn lemma_bits_ext_from(x: u64, y: u64, k: u64)
    requires
        k <= 41,
        x <= 0x1FF_FFFF_FFFFu64,
        y <= 0x1FF_FFFF_FFFFu64,
        forall|j: int| 0 <= j < 41 ==> bit(x, j) == bit(y, j),
    ensures
        x >> k == y >> k,
    decreases 41 - k,
{
    if k == 41 {
        lemma_valid_top(x);
        lemma_valid_top(y);
    } else {
        lemma_bits_ext_from(x, y, (k + 1) as u64);
        assert(bit(x, k as int) == bit(y, k as int));
        lemma_shift_step(x, y, (k + 1) as u64);
    }
}

/// Two valid bitmasks with the same bits are equal.
proof fn lemma_bits_ext(x: u64, y: u64)
    requires
        x <= 0x1FF_FFFF_FFFFu64,
        y <= 0x1FF_FFFF_FFFFu64,
        forall|j: int| 0 <= j < 41 ==> bit(x, j) == bit(y, j),
    ensures
        x == y,
{
    lemma_bits_ext_from(x, y, 0);
    lemma_valid_top(x);
    lemma_valid_top(y);
}

proof fn lemma_zero_bits(j: u64)
    by (bit_vector)
    requires
        j < 64,
    ensures
        (0u64 >> j) & 1u64 != 1u64,
{
}

/// Which bits of the yakuman mask are set: exactly those of the yakuman.
proof fn lemma_yakuman_mask_bits()
    by (bit_vector)
    ensures
        (0x7_FF20_0000u64 >> 0u64) & 1u64 == 0u64,
        (0x7_FF20_0000u64 >> 1u64) & 1u64 == 0u64,
        (0x7_FF20_0000u64 >> 2u64) & 1u64 == 0u64,
        (0x7_FF20_0000u64 >> 3u64) & 1u64 == 0u64,
        (0x7_FF20_0000u64 >> 4u64) & 1u64 == 0u64,
        (0x7_FF20_0000u64 >> 5u64) & 1u64 == 0u64,
        (0x7_FF20_0000u64 >> 6u64) & 1u64 == 0u64,
        (0x7_FF20_0000u64 >> 7u64) & 1u64 == 0u64,
        (0x7_FF20_0000u64 >> 8u64) & 1u64 == 0u64,
        (0x7_FF20_0000u64 >> 9u64) & 1u64 == 0u64,
        (0x7_FF20_0000u64 >> 10u64) & 1u64 == 0u64,
        (0x7_FF20_0000u64 >> 11u64) & 1u64 == 0u64,
        (0x7_FF20_0000u64 >> 12u64) & 1u64 == 0u64,
        (0x7_FF20_0000u64 >> 13u64) & 1u64 == 0u64,
        (0x7_FF20_0000u64 >> 14u64) & 1u64 == 0u64,
        (0x7_FF20_0000u64 >> 15u64) & 1u64 == 0u64,
        (0x7_FF20_0000u64 >> 16u64) & 1u64 == 0u64,
        (0x7_FF20_0000u64 >> 17u64) & 1u64 == 0u64,
        (0x7_FF20_0000u64 >> 18u64) & 1u64 == 0u64,
        (0x7_FF20_0000u64 >> 19u64) & 1u64 == 0u64,
        (0x7_FF20_0000u64 >> 20u64) & 1u64 == 0u64,
        (0x7_FF20_0000u64 >> 21u64) & 1u64 == 1u64,
        (0x7_FF20_0000u64 >> 22u64) & 1u64 == 0u64,
        (0x7_FF20_0000u64 >> 23u64) & 1u64 == 0u64,
        (0x7_FF20_0000u64 >> 24u64) & 1u64 == 1u64,
        (0x7_FF20_0000u64 >> 25u64) & 1u64 == 1u64,
        (0x7_FF20_0000u64 >> 26u64) & 1u64 == 1u64,
        (0x7_FF20_0000u64 >> 27u64) & 1u64 == 1u64,
        (0x7_FF20_0000u64 >> 28u64) & 1u64 == 1u64,
        (0x7_FF20_0000u64 >> 29u64) & 1u64 == 1u64,
        (0x7_FF20_0000u64 >> 30u64) & 1u64 == 1u64,
        (0x7_FF20_0000u64 >> 31u64) & 1u64 == 1u64,
        (0x7_FF20_0000u64 >> 32u64) & 1u64 == 1u64,
        (0x7_FF20_0000u64 >> 33u64) & 1u64 == 1u64,
        (0x7_FF20_0000u64 >> 34u64) & 1u64 == 1u64,
        (0x7_FF20_0000u64 >> 35u64) & 1u64 == 0u64,
        (0x7_FF20_0000u64 >> 36u64) & 1u64 == 0u64,
        (0x7_FF20_0000u64 >> 37u64) & 1u64 == 0u64,
        (0x7_FF20_0000u64 >> 38u64) & 1u64 == 0u64,
        (0x7_FF20_0000u64 >> 39u64) & 1u64 == 0u64,
        (0x7_FF20_0000u64 >> 40u64) & 1u64 == 0u64,
{
}

/// The yakuman mask has the bit of a yaku set exactly when it is a yakuman.
proof fn lemma_yakuman_mask(id: YakuId)
    ensures
        bit(YAKUMAN_MASK, id.spec_code()) == id.spec_is_yakuman(),
{
    lemma_yakuman_mask_bits();
}

/// The set of all yakuman.
pub open spec fn yakuman_set() -> Set<YakuId> {
    Set::new(|id: YakuId| id.spec_is_yakuman())
}

/// What `retain_yakuman_only` leaves of a set of yaku: the yakuman alone
/// where there is one, the set unchanged otherwise.
pub open spec fn keep_yakuman(s: Set<YakuId>) -> Set<YakuId> {
    if exists|id: YakuId| s.contains(id) && id.spec_is_yakuman() {
        s.intersect(yakuman_set())
    } else {
        s
    }
}

/// The yaku whose codes are below `n` and whose bits are set in `x`.
pub open spec fn ids_below(x: u64, n: int) -> Set<YakuId> {
    Set::new(|id: YakuId| id.spec_code() < n && bit(x, id.spec_code()))
}

/// A set of yaku held as a bitmask: bit `k` stands for the yaku of code `k`.
#[derive(Clone, Copy, PartialEq, Eq, Hash, Debug, Structural)]
pub struct YakuSet(u64);

impl View for YakuSet {
    type V = Set<YakuId>;

    open spec fn view(&self) -> Set<YakuId> {
        Set::new(|id: YakuId| bit(self.raw(), id.spec_code()))
    }
}

impl YakuSet {
    #[verifier::type_invariant]
    spec fn inv(self) -> bool {
        self.0 <= 0x1FF_FFFF_FFFFu64
    }

    /// The bitmask.
    pub closed spec fn raw(self) -> u64 {
        self.0
    }


    /// The empty set.
    pub fn empty() -> (s: YakuSet)
        ensures
            s@ == Set::<YakuId>::empty(),
            s.raw() == 0,
    {
        proof {
            assert forall|id: YakuId| !bit(0u64, id.spec_code()) by {
                lemma_code(id);
                lemma_zero_bits(id.spec_code() as u64);
            }
        }
        let s = YakuSet(0);
        assert(s@ =~= Set::<YakuId>::empty());
        s
    }

    /// The set of the bitmask with every bit above 40 cleared.
    pub fn from_raw(bits: u64) -> (s: YakuSet)
        ensures
            s.raw() == bits & VALID_YAKU_MASK,
            forall|id: YakuId| s@.contains(id) == bit(bits, id.spec_code()),
    {
        proof {
            lemma_mask_valid(bits);
            assert forall|id: YakuId| bit(bits & VALID_YAKU_MASK, id.spec_code()) == bit(bits, id.spec_code()) by {
                lemma_code(id);
                lemma_mask_bits(bits, id.spec_code() as u64);
            }
        }
        YakuSet(bits & VALID_YAKU_MASK)
    }

    /// The set of the bitmask, or `None` where a bit above 40 is set.
    pub fn from_raw_checked(bits: u64) -> (r: Option<YakuSet>)
        ensures
            r is Some <==> bits <= VALID_YAKU_MASK,
            r is Some ==> r->0.raw() == bits,
    {
        proof {
            lemma_mask_valid(bits);
        }
        if (bits & !VALID_YAKU_MASK) == 0 {
            Some(YakuSet(bits))
        } else {
            None
        }
    }

    /// The set of the yaku whose flags are set, flag `k` standing for the yaku of code `k`.
    pub fn from_flags(flags: &[bool; 41]) -> (s: YakuSet)
        ensures
            forall|id: YakuId| #[trigger] s@.contains(id) == flags@[id.spec_code()],
    {
        let mut s = YakuSet::empty();
        let mut k: u8 = 0;
        while k < 41
            invariant
                k <= 41,
                forall|id: YakuId| #[trigger] s@.contains(id) == (id.spec_code() < k && flags@[id.spec_code()]),
            decreases 41 - k,
        {
            proof {
                lemma_from_code(k as int);
            }
            let id = YakuId::from_u8(k).unwrap();
            if flags[k as usize] {
                s.insert(id);
            }
            proof {
                assert forall|x: YakuId| #[trigger] s@.contains(x) == (x.spec_code() < k + 1 && flags@[x.spec_code()]) by {
                    lemma_code_injective(x, id);
                }
            }
            k = k + 1;
        }
        proof {
            assert forall|x: YakuId| #[trigger] s@.contains(x) == flags@[x.spec_code()] by {
                lemma_code(x);
            }
        }
        s
    }

    /// The bitmask.
    pub fn as_raw(&self) -> (r: u64)
        ensures
            r == self.raw(),
            r & !VALID_YAKU_MASK == 0,
            r <= VALID_YAKU_MASK,
            forall|k: int|
                0 <= k < 64 ==> (bit(r, k) <==> (k < 41 && self@.contains(YakuId::spec_from_code(k)->0))),
    {
        proof {
            use_type_invariant(self);
            lemma_mask_valid(self.0);
            assert forall|k: int| 0 <= k < 64 implies (bit(self.0, k) <==> (k < 41 && self@.contains(YakuId::spec_from_code(k)->0))) by {
                if k < 41 {
                    lemma_from_code(k);
                } else {
                    lemma_high_bits_clear(self.0, k as u64);
                }
            }
        }
        self.0
    }

    /// Adds a yaku.
    pub fn insert(&mut self, id: YakuId)
        ensures
            final(self)@ == old(self)@.insert(id),
            final(self).raw() == old(self).raw() | (1u64 << (id.spec_code() as u64)),
    {
        proof {
            use_type_invariant(&*self);
            lemma_code(id);
            lemma_valid_single(id.spec_code() as u64);
            lemma_valid_or(self.0, 1u64 << (id.spec_code() as u64));
        }
        let k: u64 = id.code() as u64;
        let old_bits = self.0;
        self.0 = self.0 | (1u64 << k);
        proof {
            assert forall|x: YakuId| bit(self.0, x.spec_code()) == (bit(old_bits, x.spec_code()) || x == id) by {
                lemma_code(x);
                lemma_code_injective(x, id);
                lemma_bit_or(old_bits, 1u64 << k, x.spec_code() as u64);
                lemma_bit_single(k, x.spec_code() as u64);
            }
            assert(self@ =~= old(self)@.insert(id));
        }
    }

    /// Removes a yaku.
    pub fn remove(&mut self, id: YakuId)
        ensures
            final(self)@ == old(self)@.remove(id),
    {
        proof {
            use_type_invariant(&*self);
            lemma_code(id);
            lemma_valid_and(self.0, !(1u64 << (id.spec_code() as u64)));
        }
        let k: u64 = id.code() as u64;
        let old_bits = self.0;
        self.0 = self.0 & !(1u64 << k);
        proof {
            assert forall|x: YakuId| bit(self.0, x.spec_code()) == (bit(old_bits, x.spec_code()) && x != id) by {
                lemma_code(x);
                lemma_code_injective(x, id);
                lemma_bit_and_not(old_bits, 1u64 << k, x.spec_code() as u64);
                lemma_bit_single(k, x.spec_code() as u64);
            }
            assert(self@ =~= old(self)@.remove(id));
        }
    }

    /// Whether the yaku is in the set.
    pub fn contains(&self, id: &YakuId) -> (b: bool)
        ensures
            b == self@.contains(*id),
    {
        proof {
            lemma_code(*id);
            lemma_and_zero(self.0, id.spec_code() as u64);
        }
        let k: u64 = id.code() as u64;
        (self.0 & (1u64 << k)) != 0
    }

    /// Whether the set is empty.
    pub fn is_empty(&self) -> (b: bool)
        ensures
            b == (self@ == Set::<YakuId>::empty()),
    {
        proof {
            use_type_invariant(self);
            if self@ == Set::<YakuId>::empty() {
                assert forall|j: int| 0 <= j < 41 implies bit(self.0, j) == bit(0u64, j) by {
                    lemma_from_code(j);
                    let id = YakuId::spec_from_code(j)->0;
                    assert(!self@.contains(id));
                    lemma_zero_bits(j as u64);
                }
                lemma_bits_ext(self.0, 0u64);
            }
            if self.0 == 0 {
                assert forall|id: YakuId| !self@.contains(id) by {
                    lemma_code(id);
                    lemma_zero_bits(id.spec_code() as u64);
                }
                assert(self@ =~= Set::<YakuId>::empty());
            }
        }
        self.0 == 0
    }

    /// The number of yaku in the set: the number of ones in the bitmask.
    pub fn len(&self) -> (n: usize)
        ensures
            self@.finite(),
            n == self@.len(),
            n == bits_set(self.raw(), 64),
            n <= 41,
    {
        proof {
            use_type_invariant(self);
            lemma_mask_valid(self.0);
            lemma_bits_set_high(self.0, 64);
        }
        count_bits(self.0)
    }

    /// The yaku in either set.
    pub fn union(self, other: YakuSet) -> (s: YakuSet)
        ensures
            s@ == self@.union(other@),
            s.raw() == self.raw() | other.raw(),
    {
        proof {
            use_type_invariant(self);
            use_type_invariant(other);
            lemma_valid_or(self.0, other.0);
        }
        let s = YakuSet(self.0 | other.0);
        proof {
            assert forall|x: YakuId| s@.contains(x) == (self@.contains(x) || other@.contains(x)) by {
                lemma_code(x);
                lemma_bit_or(self.0, other.0, x.spec_code() as u64);
            }
            assert(s@ =~= self@.union(other@));
        }
        s
    }

    /// The yaku in both sets.
    pub fn intersection(self, other: YakuSet) -> (s: YakuSet)
        ensures
            s@ == self@.intersect(other@),
            s.raw() == self.raw() & other.raw(),
    {
        proof {
            use_type_invariant(self);
            lemma_valid_and(self.0, other.0);
        }
        let s = YakuSet(self.0 & other.0);
        proof {
            assert forall|x: YakuId| s@.contains(x) == (self@.contains(x) && other@.contains(x)) by {
                lemma_code(x);
                lemma_bit_and(self.0, other.0, x.spec_code() as u64);
            }
            assert(s@ =~= self@.intersect(other@));
        }
        s
    }

    /// Whether every yaku of this set is in `other`.
    pub fn is_subset(&self, other: &YakuSet) -> (b: bool)
        ensures
            b == self@.subset_of(other@),
    {
        proof {
            use_type_invariant(self);
            lemma_valid_and(self.0, !other.0);
            assert forall|j: int| 0 <= j < 41 implies bit(self.0 & !other.0, j) == (bit(self.0, j) && !bit(other.0, j)) by {
                lemma_bit_and_not(self.0, other.0, j as u64);
            }
            if self@.subset_of(other@) {
                assert forall|j: int| 0 <= j < 41 implies bit(self.0 & !other.0, j) == bit(0u64, j) by {
                    lemma_from_code(j);
                    let id = YakuId::spec_from_code(j)->0;
                    assert(self@.contains(id) ==> other@.contains(id));
                    lemma_zero_bits(j as u64);
                }
                lemma_bits_ext(self.0 & !other.0, 0u64);
            }
            if self.0 & !other.0 == 0 {
                assert forall|id: YakuId| self@.contains(id) implies other@.contains(id) by {
                    lemma_code(id);
                    lemma_zero_bits(id.spec_code() as u64);
                }
            }
        }
        (self.0 & !other.0) == 0
    }

    /// Keeps the yakuman alone where the set holds one.
    pub fn retain_yakuman_only(&mut self)
        ensures
            final(self)@ == keep_yakuman(old(self)@),
            final(self).raw() == if old(self).raw() & YAKUMAN_MASK != 0 {
                old(self).raw() & YAKUMAN_MASK
            } else {
                old(self).raw()
            },
    {
        proof {
            use_type_invariant(&*self);
            lemma_valid_and(self.0, YAKUMAN_MASK);
        }
        let old_bits = self.0;
        let kept = self.0 & YAKUMAN_MASK;
        proof {
            assert forall|x: YakuId| bit(kept, x.spec_code()) == (bit(old_bits, x.spec_code()) && x.spec_is_yakuman()) by {
                lemma_code(x);
                lemma_bit_and(old_bits, YAKUMAN_MASK, x.spec_code() as u64);
                lemma_yakuman_mask(x);
            }
            if kept == 0 {
                assert forall|x: YakuId| !(old(self)@.contains(x) && x.spec_is_yakuman()) by {
                    lemma_code(x);
                    lemma_zero_bits(x.spec_code() as u64);
                }
            } else {
                if !(exists|id: YakuId| old(self)@.contains(id) && id.spec_is_yakuman()) {
                    assert forall|j: int| 0 <= j < 41 implies bit(kept, j) == bit(0u64, j) by {
                        lemma_from_code(j);
                        let id = YakuId::spec_from_code(j)->0;
                        lemma_code(id);
                        lemma_bit_and(old_bits, YAKUMAN_MASK, id.spec_code() as u64);
                        lemma_yakuman_mask(id);
                        assert(!(old(self)@.contains(id) && id.spec_is_yakuman()));
                        lemma_zero_bits(j as u64);
                    }
                    lemma_bits_ext(kept, 0u64);
                }
            }
        }
        if kept != 0 {
            self.0 = kept;
            proof {
                assert forall|x: YakuId| #[trigger] self@.contains(x) == old(self)@.intersect(yakuman_set()).contains(x) by {
                    assert(yakuman_set().contains(x) == x.spec_is_yakuman());
                    lemma_code(x);
                    lemma_bit_and(old_bits, YAKUMAN_MASK, x.spec_code() as u64);
                    lemma_yakuman_mask(x);
                }
                assert(self@ =~= old(self)@.intersect(yakuman_set()));
            }
        }
    }

    /// An iterator over the yaku of the set, in code order.
    pub fn iter(&self) -> (it: YakuSetIter)
        ensures
            it@ == self@,
    {
        proof {
            use_type_invariant(self);
        }
        YakuSetIter { bits: self.0 }
    }

    /// The yaku of the set, in code order.
    pub fn to_vec(&self) -> (v: Vec<YakuId>)
        ensures
            v@.to_set() == self@,
            v.len() == self@.len(),
            forall|i: int, j: int| 0 <= i < j < v.len() ==> v[i].spec_code() < v[j].spec_code(),
    {
        proof {
            use_type_invariant(self);
        }
        let bits = self.0;
        let mut v: Vec<YakuId> = Vec::new();
        let mut k: u8 = 0;
        proof {
            assert(ids_below(bits, 0) =~= Set::<YakuId>::empty());
            assert(v@.to_set() =~= ids_below(bits, 0));
        }
        while k < 41
            invariant
                k <= 41,
                v@.to_set() == ids_below(bits, k as int),
                ids_below(bits, k as int).finite(),
                v.len() == ids_below(bits, k as int).len(),
                forall|i: int| 0 <= i < v.len() ==> (#[trigger] v[i]).spec_code() < k,
                forall|i: int, j: int| 0 <= i < j < v.len() ==> v[i].spec_code() < v[j].spec_code(),
            decreases 41 - k,
        {
            proof {
                lemma_from_code(k as int);
            }
            let idk = YakuId::from_u8(k).unwrap();
            proof {
                assert forall|x: YakuId| x.spec_code() == k <==> x == idk by {
                    lemma_code_injective(x, idk);
                }
            }
            if (bits >> (k as u64)) & 1 == 1 {
                proof {
                    assert(ids_below(bits, k + 1) =~= ids_below(bits, k as int).insert(idk));
                    broadcast use vstd::seq_lib::group_seq_properties;
                    assert(v@.push(idk).to_set() =~= v@.to_set().insert(idk));
                }
                v.push(idk);
            } else {
                proof {
                    assert(ids_below(bits, k + 1) =~= ids_below(bits, k as int));
                }
            }
            k = k + 1;
        }
        proof {
            assert forall|x: YakuId| ids_below(bits, 41).contains(x) == self@.contains(x) by {
                lemma_code(x);
            }
            assert(ids_below(bits, 41) =~= self@);
        }
        v
    }
}

proof fn lemma_and_zero(x: u64, k: u64)
    by (bit_vector)
    requires
        k < 64,
    ensures
        (x & (1u64 << k)) != 0u64 <==> (x >> k) & 1u64 == 1u64,
{
}

impl Default for YakuSet {
    fn default() -> (s: YakuSet)
        ensures
            s@ == Set::<YakuId>::empty(),
    {
        YakuSet::empty()
    }
}

/// Walks the yaku of a set in code order.
#[derive(Clone, Copy, Debug)]
pub struct YakuSetIter {
    bits: u64,
}

impl View for YakuSetIter {
    type V = Set<YakuId>;

    /// The yaku not yet handed out.
    open spec fn view(&self) -> Set<YakuId> {
        Set::new(|id: YakuId| bit(self.remaining(), id.spec_code()))
    }
}

impl YakuSetIter {
    #[verifier::type_invariant]
    spec fn inv(self) -> bool {
        self.bits <= 0x1FF_FFFF_FFFFu64
    }

    /// The bits not yet handed out.
    pub closed spec fn remaining(self) -> u64 {
        self.bits
    }

    /// The yaku of lowest code among those left, which is then taken out;
    /// `None` once every yaku has been handed out.
    pub fn next(&mut self) -> (r: Option<YakuId>)
        ensures
            old(self)@.finite(),
            r is None <==> old(self)@ == Set::<YakuId>::empty(),
            r is Some ==> {
                &&& old(self)@.contains(r->0)
                &&& final(self)@ == old(self)@.remove(r->0)
                &&& forall|x: YakuId| #[trigger] old(self)@.contains(x) ==> r->0.spec_code() <= x.spec_code()
            },
            r is None ==> final(self)@ == old(self)@,
    {
        proof {
            use_type_invariant(&*self);
            lemma_view_finite(self.bits);
            assert(old(self)@ =~= Set::new(|id: YakuId| bit(self.bits, id.spec_code())));
        }
        let bits = self.bits;
        let mut k: u64 = 0;
        while k < 41
            invariant
                k <= 41,
                bits == self.bits,
                *self == *old(self),
                old(self)@.finite(),
                bits <= 0x1FF_FFFF_FFFFu64,
                forall|j: int| 0 <= j < k ==> !bit(bits, j),
            decreases 41 - k,
        {
            if (bits >> k) & 1 == 1 {
                proof {
                    lemma_from_code(k as int);
                }
                let id = YakuId::from_u8(k as u8).unwrap();
                proof {
                    lemma_valid_and(bits, !(1u64 << k));
                }
                self.bits = bits & !(1u64 << k);
                proof {
                    assert forall|x: YakuId| bit(self.bits, x.spec_code()) == (bit(bits, x.spec_code()) && x != id) by {
                        lemma_code(x);
                        lemma_code_injective(x, id);
                        lemma_bit_and_not(bits, 1u64 << k, x.spec_code() as u64);
                        lemma_bit_single(k, x.spec_code() as u64);
                    }
                    assert forall|x: YakuId| self@.contains(x) == (old(self)@.contains(x) && x != id) by {
                        assert(bit(self.bits, x.spec_code()) == (bit(bits, x.spec_code()) && x != id));
                    }
                    assert(self@ =~= old(self)@.remove(id));
                    assert forall|x: YakuId| #[trigger] old(self)@.contains(x) implies id.spec_code() <= x.spec_code() by {
                        lemma_code(x);
                    }
                    assert(old(self)@.contains(id));
                    assert(old(self)@ != Set::<YakuId>::empty());
                }
                return Some(id);
            }
            k = k + 1;
        }
        proof {
            assert forall|x: YakuId| !old(self)@.contains(x) by {
                lemma_code(x);
            }
            assert(old(self)@ =~= Set::<YakuId>::empty());
        }
        None
    }

    /// How many yaku are left.
    pub fn len(&self) -> (n: usize)
        ensures
            self@.finite(),
            n == self@.len(),
    {
        proof {
            use_type_invariant(self);
        }
        count_bits(self.bits)
    }

    /// How many yaku are left; the iterator is used up.
    pub fn count(self) -> (n: usize)
        ensures
            self@.finite(),
            n == self@.len(),
    {
        self.len()
    }
}

/// The yaku with a set bit below code `n` form a finite set.
proof fn lemma_ids_below_finite(bits: u64, n: int)
    requires
        0 <= n <= 41,
    ensures
        ids_below(bits, n).finite(),
    decreases n,
{
    if n == 0 {
        assert(ids_below(bits, 0) =~= Set::<YakuId>::empty());
    } else {
        lemma_ids_below_finite(bits, n - 1);
        lemma_from_code(n - 1);
        let idk = YakuId::spec_from_code(n - 1)->0;
        assert forall|x: YakuId| x.spec_code() == n - 1 <==> x == idk by {
            lemma_code_injective(x, idk);
        }
        assert(ids_below(bits, n).subset_of(ids_below(bits, n - 1).insert(idk)));
        vstd::set_lib::lemma_set_subset_finite(ids_below(bits, n - 1).insert(idk), ids_below(bits, n));
    }
}

/// The yaku of a bitmask form a finite set.
proof fn lemma_view_finite(bits: u64)
    ensures
        Set::new(|id: YakuId| bit(bits, id.spec_code())).finite(),
{
    lemma_ids_below_finite(bits, 41);
    assert forall|x: YakuId| ids_below(bits, 41).contains(x) == bit(bits, x.spec_code()) by {
        lemma_code(x);
    }
    assert(ids_below(bits, 41) =~= Set::new(|id: YakuId| bit(bits, id.spec_code())));
}

/// The yaku whose bits are set, for a valid bitmask, counted.
fn count_bits(bits: u64) -> (n: usize)
    requires
        bits <= 0x1FF_FFFF_FFFFu64,
    ensures
        Set::new(|id: YakuId| bit(bits, id.spec_code())).finite(),
        n == Set::new(|id: YakuId| bit(bits, id.spec_code())).len(),
        n == bits_set(bits, 41),
        n <= 41,
{
    let mut n: usize = 0;
    let mut k: u64 = 0;
    proof {
        assert(ids_below(bits, 0) =~= Set::<YakuId>::empty());
    }
    while k < 41
        invariant
            k <= 41,
            ids_below(bits, k as int).finite(),
            n == ids_below(bits, k as int).len(),
            n == bits_set(bits, k as int),
            n <= k,
        decreases 41 - k,
    {
        proof {
            lemma_from_code(k as int);
            let idk = YakuId::spec_from_code(k as int)->0;
            assert forall|x: YakuId| x.spec_code() == k <==> x == idk by {
                lemma_code_injective(x, idk);
            }
            if bit(bits, k as int) {
                assert(ids_below(bits, k + 1) =~= ids_below(bits, k as int).insert(idk));
            } else {
                assert(ids_below(bits, k + 1) =~= ids_below(bits, k as int));
            }
        }
        if (bits >> k) & 1 == 1 {
            n = n + 1;
        }
        k = k + 1;
    }
    proof {
        assert forall|x: YakuId| ids_below(bits, 41).contains(x) == bit(bits, x.spec_code()) by {
            lemma_code(x);
        }
        assert(ids_below(bits, 41) =~= Set::new(|id: YakuId| bit(bits, id.spec_code())));
    }
    n
}


/// The bitmask of the yaku of a list: the bit of each one set.
pub open spec fn ids_bits(ids: Seq<YakuId>) -> u64
    decreases ids.len(),
{
    if ids.len() == 0 {
        0
    } else {
        ids_bits(ids.drop_last()) | (1u64 << (ids.last().spec_code() as u64))
    }
}

impl YakuSet {
    /// The set of the yaku of a list.
    pub fn from_ids(ids: &[YakuId]) -> (s: YakuSet)
        ensures
            s.raw() == ids_bits(ids@),
            forall|id: YakuId| #[trigger] s@.contains(id) <==> ids@.contains(id),
    {
        let mut s = YakuSet::empty();
        let mut k: usize = 0;
        while k < ids.len()
            invariant
                0 <= k <= ids.len(),
                s.raw() == ids_bits(ids@.subrange(0, k as int)),
                forall|id: YakuId| #[trigger] s@.contains(id) <==> ids@.subrange(0, k as int).contains(id),
            decreases ids.len() - k,
        {
            let ghost before = ids@.subrange(0, k as int);
            s.insert(ids[k]);
            proof {
                let after = ids@.subrange(0, k + 1);
                assert(after.drop_last() =~= before);
                assert(after.last() == ids@[k as int]);
                assert forall|id: YakuId| #[trigger] s@.contains(id) <==> after.contains(id) by {
                    if after.contains(id) && id != ids@[k as int] {
                        let j = choose|j: int| 0 <= j < after.len() && after[j] == id;
                        assert(before[j] == id);
                    }
                    if before.contains(id) {
                        let j = choose|j: int| 0 <= j < before.len() && before[j] == id;
                        assert(after[j] == id);
                    }
                    if id == ids@[k as int] {
                        assert(after[k as int] == id);
                    }
                }
            }
            k = k + 1;
        }
        proof {
            assert(ids@.subrange(0, ids@.len() as int) =~= ids@);
        }
        s
    }

    /// Adds the yaku of a list.
    pub fn extend_from(&mut self, ids: &[YakuId])
        ensures
            final(self).raw() == old(self).raw() | ids_bits(ids@),
            forall|id: YakuId| #[trigger] final(self)@.contains(id) <==> old(self)@.contains(id) || ids@.contains(id),
    {
        let other = YakuSet::from_ids(ids);
        *self = self.union(other);
    }
}

impl<'a> From<&'a [YakuId]> for YakuSet {
    /// The set of the yaku of a list.
    fn from(ids: &'a [YakuId]) -> (s: YakuSet)
        ensures
            s.raw() == ids_bits(ids@),
            forall|id: YakuId| #[trigger] s@.contains(id) <==> ids@.contains(id),
    {
        YakuSet::from_ids(ids)
    }
}

impl<'a> vstd::std_specs::convert::FromSpecImpl<&'a [YakuId]> for YakuSet {
    open spec fn obeys_from_spec() -> bool {
        true
    }

    closed spec fn from_spec(v: &'a [YakuId]) -> YakuSet {
        YakuSet(ids_bits(v@))
    }
}

impl core::ops::BitOr for YakuSet {
    type Output = YakuSet;

    /// The union.
    fn bitor(self, rhs: YakuSet) -> (s: YakuSet)
        ensures
            s@ == self@.union(rhs@),
            s.raw() == self.raw() | rhs.raw(),
    {
        self.union(rhs)
    }
}

impl vstd::std_specs::ops::BitOrSpecImpl for YakuSet {
    open spec fn obeys_bitor_spec() -> bool {
        true
    }

    open spec fn bitor_req(self, rhs: YakuSet) -> bool {
        true
    }

    closed spec fn bitor_spec(self, rhs: YakuSet) -> YakuSet {
        YakuSet(self.0 | rhs.0)
    }
}

impl core::ops::BitAnd for YakuSet {
    type Output = YakuSet;

    /// The intersection.
    fn bitand(self, rhs: YakuSet) -> (s: YakuSet)
        ensures
            s@ == self@.intersect(rhs@),
            s.raw() == self.raw() & rhs.raw(),
    {
        self.intersection(rhs)
    }
}

impl vstd::std_specs::ops::BitAndSpecImpl for YakuSet {
    open spec fn obeys_bitand_spec() -> bool {
        true
    }

    open spec fn bitand_req(self, rhs: YakuSet) -> bool {
        true
    }

    closed spec fn bitand_spec(self, rhs: YakuSet) -> YakuSet {
        YakuSet(self.0 & rhs.0)
    }
}

impl core::ops::BitOrAssign for YakuSet {
    /// Adds the yaku of another set.
    fn bitor_assign(&mut self, rhs: YakuSet)
        ensures
            final(self)@ == old(self)@.union(rhs@),
            final(self).raw() == old(self).raw() | rhs.raw(),
    {
        *self = self.union(rhs);
    }
}

impl core::ops::BitAndAssign for YakuSet {
    /// Keeps the yaku that another set holds too.
    fn bitand_assign(&mut self, rhs: YakuSet)
        ensures
            final(self)@ == old(self)@.intersect(rhs@),
            final(self).raw() == old(self).raw() & rhs.raw(),
    {
        *self = self.intersection(rhs);
    }
}

impl<const N: usize> From<[YakuId; N]> for YakuSet {
    /// The set of the yaku of an array.
    fn from(ids: [YakuId; N]) -> (s: YakuSet)
        ensures
            s.raw() == ids_bits(ids@),
            forall|id: YakuId| #[trigger] s@.contains(id) <==> ids@.contains(id),
    {
        YakuSet::from_ids(ids.as_slice())
    }
}

impl<const N: usize> vstd::std_specs::convert::FromSpecImpl<[YakuId; N]> for YakuSet {
    open spec fn obeys_from_spec() -> bool {
        true
    }

    closed spec fn from_spec(v: [YakuId; N]) -> YakuSet {
        YakuSet(ids_bits(v@))
    }
}

} // verus!
