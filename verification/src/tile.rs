//! Tiles: the 34 kinds of the game, their suits and categories.
use vstd::prelude::*;

verus! {

/// Number of tile kinds.
pub const TILE_NAME_NUMBER: usize = 34;

/// Copies of each kind in a full set.
pub const TILE_PER_KIND: usize = 4;

/// Tiles in a full set (34 kinds, 4 copies each).
pub const TILE_WALL_CAPACITY: usize = 136;

/// The kind of a tile. `NoTile` (index 0) stands for "no tile"; the 34 kinds
/// follow in index order: 1m..9m, 1p..9p, 1s..9s, East, South, West, North,
/// Red, Green, White.
#[derive(Clone, Copy, PartialEq, Eq, PartialOrd, Ord, Debug, Hash, Structural)]
pub enum TileName {
    NoTile,
    OneM,
    TwoM,
    ThreeM,
    FourM,
    FiveM,
    SixM,
    SevenM,
    EightM,
    NineM,
    OneP,
    TwoP,
    ThreeP,
    FourP,
    FiveP,
    SixP,
    SevenP,
    EightP,
    NineP,
    OneS,
    TwoS,
    ThreeS,
    FourS,
    FiveS,
    SixS,
    SevenS,
    EightS,
    NineS,
    East,
    South,
    West,
    North,
    Red,
    Green,
    White,
}

/// Suit of a tile.
#[derive(Clone, Copy, PartialEq, Eq, PartialOrd, Ord, Debug, Structural)]
pub enum TileType {
    NoType,
    Characters,
    Circles,
    Bamboos,
    Winds,
    Dragons,
}

/// Category of a tile: number tiles or honours.
#[derive(Clone, Copy, PartialEq, Eq, PartialOrd, Ord, Debug, Structural)]
pub enum TileCategory {
    NoCategory,
    Simples,
    Honors,
}

/// The suit that a tile index belongs to.
pub open spec fn type_of_index(i: int) -> TileType {
    if 1 <= i <= 9 {
        TileType::Characters
    } else if 10 <= i <= 18 {
        TileType::Circles
    } else if 19 <= i <= 27 {
        TileType::Bamboos
    } else if 28 <= i <= 31 {
        TileType::Winds
    } else if 32 <= i <= 34 {
        TileType::Dragons
    } else {
        TileType::NoType
    }
}

/// The category that a tile index belongs to.
pub open spec fn category_of_index(i: int) -> TileCategory {
    if 1 <= i <= 27 {
        TileCategory::Simples
    } else if 28 <= i <= 34 {
        TileCategory::Honors
    } else {
        TileCategory::NoCategory
    }
}

impl TileName {
    pub open spec fn id(self) -> int {
        match self {
            TileName::NoTile => 0,
            TileName::OneM => 1,
            TileName::TwoM => 2,
            TileName::ThreeM => 3,
            TileName::FourM => 4,
            TileName::FiveM => 5,
            TileName::SixM => 6,
            TileName::SevenM => 7,
            TileName::EightM => 8,
            TileName::NineM => 9,
            TileName::OneP => 10,
            TileName::TwoP => 11,
            TileName::ThreeP => 12,
            TileName::FourP => 13,
            TileName::FiveP => 14,
            TileName::SixP => 15,
            TileName::SevenP => 16,
            TileName::EightP => 17,
            TileName::NineP => 18,
            TileName::OneS => 19,
            TileName::TwoS => 20,
            TileName::ThreeS => 21,
            TileName::FourS => 22,
            TileName::FiveS => 23,
            TileName::SixS => 24,
            TileName::SevenS => 25,
            TileName::EightS => 26,
            TileName::NineS => 27,
            TileName::East => 28,
            TileName::South => 29,
            TileName::West => 30,
            TileName::North => 31,
            TileName::Red => 32,
            TileName::Green => 33,
            TileName::White => 34,
        }
    }

    /// The tile whose index is `n`, `NoTile` for 0 and for every index above 34.
    pub open spec fn spec_from_index(n: int) -> TileName {
        if n == 0 {
            TileName::NoTile
        } else if n == 1 {
            TileName::OneM
        } else if n == 2 {
            TileName::TwoM
        } else if n == 3 {
            TileName::ThreeM
        } else if n == 4 {
            TileName::FourM
        } else if n == 5 {
            TileName::FiveM
        } else if n == 6 {
            TileName::SixM
        } else if n == 7 {
            TileName::SevenM
        } else if n == 8 {
            TileName::EightM
        } else if n == 9 {
            TileName::NineM
        } else if n == 10 {
            TileName::OneP
        } else if n == 11 {
            TileName::TwoP
        } else if n == 12 {
            TileName::ThreeP
        } else if n == 13 {
            TileName::FourP
        } else if n == 14 {
            TileName::FiveP
        } else if n == 15 {
            TileName::SixP
        } else if n == 16 {
            TileName::SevenP
        } else if n == 17 {
            TileName::EightP
        } else if n == 18 {
            TileName::NineP
        } else if n == 19 {
            TileName::OneS
        } else if n == 20 {
            TileName::TwoS
        } else if n == 21 {
            TileName::ThreeS
        } else if n == 22 {
            TileName::FourS
        } else if n == 23 {
            TileName::FiveS
        } else if n == 24 {
            TileName::SixS
        } else if n == 25 {
            TileName::SevenS
        } else if n == 26 {
            TileName::EightS
        } else if n == 27 {
            TileName::NineS
        } else if n == 28 {
            TileName::East
        } else if n == 29 {
            TileName::South
        } else if n == 30 {
            TileName::West
        } else if n == 31 {
            TileName::North
        } else if n == 32 {
            TileName::Red
        } else if n == 33 {
            TileName::Green
        } else if n == 34 {
            TileName::White
        } else {
            TileName::NoTile
        }
    }

    /// Builds a tile from its index; indices above 34 give `NoTile`.
    pub fn from_usize(n: usize) -> (t: TileName)
        ensures
            t == TileName::spec_from_index(n as int),
            n <= 34 ==> t.id() == n,
            n > 34 ==> t == TileName::NoTile,
    {
        match n {
            0 => TileName::NoTile,
            1 => TileName::OneM,
            2 => TileName::TwoM,
            3 => TileName::ThreeM,
            4 => TileName::FourM,
            5 => TileName::FiveM,
            6 => TileName::SixM,
            7 => TileName::SevenM,
            8 => TileName::EightM,
            9 => TileName::NineM,
            10 => TileName::OneP,
            11 => TileName::TwoP,
            12 => TileName::ThreeP,
            13 => TileName::FourP,
            14 => TileName::FiveP,
            15 => TileName::SixP,
            16 => TileName::SevenP,
            17 => TileName::EightP,
            18 => TileName::NineP,
            19 => TileName::OneS,
            20 => TileName::TwoS,
            21 => TileName::ThreeS,
            22 => TileName::FourS,
            23 => TileName::FiveS,
            24 => TileName::SixS,
            25 => TileName::SevenS,
            26 => TileName::EightS,
            27 => TileName::NineS,
            28 => TileName::East,
            29 => TileName::South,
            30 => TileName::West,
            31 => TileName::North,
            32 => TileName::Red,
            33 => TileName::Green,
            34 => TileName::White,
            _ => TileName::NoTile,
        }
    }

    /// The index of the tile (0 for `NoTile`, 1..=34 for the tiles).
    pub fn index(self) -> (r: usize)
        ensures
            r == self.id(),
    {
        match self {
            TileName::NoTile => 0,
            TileName::OneM => 1,
            TileName::TwoM => 2,
            TileName::ThreeM => 3,
            TileName::FourM => 4,
            TileName::FiveM => 5,
            TileName::SixM => 6,
            TileName::SevenM => 7,
            TileName::EightM => 8,
            TileName::NineM => 9,
            TileName::OneP => 10,
            TileName::TwoP => 11,
            TileName::ThreeP => 12,
            TileName::FourP => 13,
            TileName::FiveP => 14,
            TileName::SixP => 15,
            TileName::SevenP => 16,
            TileName::EightP => 17,
            TileName::NineP => 18,
            TileName::OneS => 19,
            TileName::TwoS => 20,
            TileName::ThreeS => 21,
            TileName::FourS => 22,
            TileName::FiveS => 23,
            TileName::SixS => 24,
            TileName::SevenS => 25,
            TileName::EightS => 26,
            TileName::NineS => 27,
            TileName::East => 28,
            TileName::South => 29,
            TileName::West => 30,
            TileName::North => 31,
            TileName::Red => 32,
            TileName::Green => 33,
            TileName::White => 34,
        }
    }

    /// The short text of the tile ("1m" .. "9s", the kanji of the honours, a space for `NoTile`).
    pub open spec fn spec_text(self) -> Seq<char> {
        match self {
            TileName::NoTile => " "@,
            TileName::OneM => "1m"@,
            TileName::TwoM => "2m"@,
            TileName::ThreeM => "3m"@,
            TileName::FourM => "4m"@,
            TileName::FiveM => "5m"@,
            TileName::SixM => "6m"@,
            TileName::SevenM => "7m"@,
            TileName::EightM => "8m"@,
            TileName::NineM => "9m"@,
            TileName::OneP => "1p"@,
            TileName::TwoP => "2p"@,
            TileName::ThreeP => "3p"@,
            TileName::FourP => "4p"@,
            TileName::FiveP => "5p"@,
            TileName::SixP => "6p"@,
            TileName::SevenP => "7p"@,
            TileName::EightP => "8p"@,
            TileName::NineP => "9p"@,
            TileName::OneS => "1s"@,
            TileName::TwoS => "2s"@,
            TileName::ThreeS => "3s"@,
            TileName::FourS => "4s"@,
            TileName::FiveS => "5s"@,
            TileName::SixS => "6s"@,
            TileName::SevenS => "7s"@,
            TileName::EightS => "8s"@,
            TileName::NineS => "9s"@,
            TileName::East => "東"@,
            TileName::South => "南"@,
            TileName::West => "西"@,
            TileName::North => "北"@,
            TileName::Red => "中"@,
            TileName::Green => "発"@,
            TileName::White => "白"@,
        }
    }

    pub fn as_str(&self) -> (s: &'static str)
        ensures
            s@ == self.spec_text(),
    {
        match self {
            TileName::NoTile => " ",
            TileName::OneM => "1m",
            TileName::TwoM => "2m",
            TileName::ThreeM => "3m",
            TileName::FourM => "4m",
            TileName::FiveM => "5m",
            TileName::SixM => "6m",
            TileName::SevenM => "7m",
            TileName::EightM => "8m",
            TileName::NineM => "9m",
            TileName::OneP => "1p",
            TileName::TwoP => "2p",
            TileName::ThreeP => "3p",
            TileName::FourP => "4p",
            TileName::FiveP => "5p",
            TileName::SixP => "6p",
            TileName::SevenP => "7p",
            TileName::EightP => "8p",
            TileName::NineP => "9p",
            TileName::OneS => "1s",
            TileName::TwoS => "2s",
            TileName::ThreeS => "3s",
            TileName::FourS => "4s",
            TileName::FiveS => "5s",
            TileName::SixS => "6s",
            TileName::SevenS => "7s",
            TileName::EightS => "8s",
            TileName::NineS => "9s",
            TileName::East => "東",
            TileName::South => "南",
            TileName::West => "西",
            TileName::North => "北",
            TileName::Red => "中",
            TileName::Green => "発",
            TileName::White => "白",
        }
    }


    pub fn tile_type(&self) -> (t: TileType)
        ensures
            t == type_of_index(self.id()),
    {
        let i = self.index();
        if 1 <= i && i <= 9 {
            TileType::Characters
        } else if 10 <= i && i <= 18 {
            TileType::Circles
        } else if 19 <= i && i <= 27 {
            TileType::Bamboos
        } else if 28 <= i && i <= 31 {
            TileType::Winds
        } else if 32 <= i && i <= 34 {
            TileType::Dragons
        } else {
            TileType::NoType
        }
    }

    pub fn category(&self) -> (c: TileCategory)
        ensures
            c == category_of_index(self.id()),
    {
        let i = self.index();
        if 1 <= i && i <= 27 {
            TileCategory::Simples
        } else if 28 <= i && i <= 34 {
            TileCategory::Honors
        } else {
            TileCategory::NoCategory
        }
    }
}

/// Every tile has an index in 0..=34, and the index determines the tile.
pub proof fn lemma_tile_index(t: TileName)
    ensures
        0 <= t.id() <= 34,
        TileName::spec_from_index(t.id()) == t,
{
}

/// Every index in 0..=34 names the tile of that index.
pub proof fn lemma_index_tile(k: int)
    requires
        0 <= k <= 34,
    ensures
        TileName::spec_from_index(k).id() == k,
{
}

/// A tile kind.
#[derive(Clone, Copy, PartialEq, Eq, PartialOrd, Ord, Debug, Structural)]
pub struct Tile {
    name: TileName,
}

impl Tile {
    pub closed spec fn spec_name(self) -> TileName {
        self.name
    }

    pub fn new(name: TileName) -> (t: Tile)
        ensures
            t.spec_name() == name,
    {
        Tile { name }
    }

    pub fn name(self) -> (n: TileName)
        ensures
            n == self.spec_name(),
    {
        self.name
    }

    pub fn tile_type(self) -> (t: TileType)
        ensures
            t == type_of_index(self.spec_name().id()),
    {
        self.name.tile_type()
    }

    pub fn category(self) -> (c: TileCategory)
        ensures
            c == category_of_index(self.spec_name().id()),
    {
        self.name.category()
    }

    /// Whether the tile is one of the three dragons.
    pub fn is_red(self) -> (b: bool)
        ensures
            b <==> (self.spec_name() == TileName::Red || self.spec_name() == TileName::Green
                || self.spec_name() == TileName::White),
    {
        match self.name {
            TileName::Red | TileName::Green | TileName::White => true,
            _ => false,
        }
    }
}

} // verus!
