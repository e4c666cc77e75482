//! Data model of the planner: shops, skill levels, the upgrade cost table,
//! the planner's input and the plan it produces.
use vstd::prelude::*;

verus! {

/// Number of shops.
pub const SHOP_COUNT: usize = 5;

/// Number of skill levels, from 1星 up to 天5.
pub const LEVEL_COUNT: usize = 14;

/// Index of the highest level (天5).
pub const MAX_LEVEL_INDEX: usize = 13;

/// Pages in one batch: a conversion moves one batch, and skill income comes in batches.
pub const PAGES_PER_UNIT: u32 = 40;

/// The shop a skill's pages are bought from.
#[derive(Debug, Clone, Copy, PartialEq, Eq, Structural, Hash)]
pub enum Shop {
    LunJian,
    ZhuTian,
    ZongMen,
    DaoYun,
    BaiZu,
}

impl Shop {
    pub open spec fn spec_rarity(self) -> u32 {
        match self {
            Shop::LunJian => 1,
            Shop::ZhuTian => 2,
            Shop::ZongMen => 2,
            Shop::DaoYun => 3,
            Shop::BaiZu => 4,
        }
    }

    /// Preciousness weight: the lower it is, the earlier the shop's pages are spent.
    #[verifier::when_used_as_spec(spec_rarity)]
    pub fn rarity(self) -> (r: u32)
        ensures
            r == self.spec_rarity(),
    {
        match self {
            Shop::LunJian => 1,
            Shop::ZhuTian => 2,
            Shop::ZongMen => 2,
            Shop::DaoYun => 3,
            Shop::BaiZu => 4,
        }
    }

    pub open spec fn spec_index(self) -> usize {
        match self {
            Shop::LunJian => 0,
            Shop::ZhuTian => 1,
            Shop::ZongMen => 2,
            Shop::DaoYun => 3,
            Shop::BaiZu => 4,
        }
    }

    /// Position of the shop in the fixed shop order.
    #[verifier::when_used_as_spec(spec_index)]
    pub fn index(self) -> (r: usize)
        ensures
            r == self.spec_index(),
            r < SHOP_COUNT,
    {
        match self {
            Shop::LunJian => 0,
            Shop::ZhuTian => 1,
            Shop::ZongMen => 2,
            Shop::DaoYun => 3,
            Shop::BaiZu => 4,
        }
    }

    pub open spec fn spec_from_index(i: int) -> Shop {
        if i == 0 {
            Shop::LunJian
        } else if i == 1 {
            Shop::ZhuTian
        } else if i == 2 {
            Shop::ZongMen
        } else if i == 3 {
            Shop::DaoYun
        } else {
            Shop::BaiZu
        }
    }

    /// The shop at position `i` of the fixed shop order.
    pub fn from_index(i: usize) -> (s: Shop)
        requires
            i < SHOP_COUNT,
        ensures
            s == Shop::spec_from_index(i as int),
            s.index() == i,
    {
        if i == 0 {
            Shop::LunJian
        } else if i == 1 {
            Shop::ZhuTian
        } else if i == 2 {
            Shop::ZongMen
        } else if i == 3 {
            Shop::DaoYun
        } else {
            Shop::BaiZu
        }
    }
}

/// `index` and `from_index` are inverse to each other.
pub proof fn lemma_shop_index_roundtrip(s: Shop)
    ensures
        Shop::spec_from_index(s.index() as int) == s,
        s.index() < SHOP_COUNT,
{
}

/// A skill level; the order of the variants is the order of the levels.
#[derive(Debug, Clone, Copy, PartialEq, Eq, PartialOrd, Ord, Structural, Hash)]
pub enum SkillLevel {
    Star1,
    Star2,
    Star3,
    Xuan1,
    Xuan2,
    Xuan3,
    Di1,
    Di2,
    Di3,
    Tian1,
    Tian2,
    Tian3,
    Tian4,
    Tian5,
}

impl SkillLevel {
    pub open spec fn spec_index(self) -> usize {
        match self {
            SkillLevel::Star1 => 0,
            SkillLevel::Star2 => 1,
            SkillLevel::Star3 => 2,
            SkillLevel::Xuan1 => 3,
            SkillLevel::Xuan2 => 4,
            SkillLevel::Xuan3 => 5,
            SkillLevel::Di1 => 6,
            SkillLevel::Di2 => 7,
            SkillLevel::Di3 => 8,
            SkillLevel::Tian1 => 9,
            SkillLevel::Tian2 => 10,
            SkillLevel::Tian3 => 11,
            SkillLevel::Tian4 => 12,
            SkillLevel::Tian5 => 13,
        }
    }

    /// Position of the level, 0 for 1星 up to 13 for 天5.
    #[verifier::when_used_as_spec(spec_index)]
    pub fn index(self) -> (r: usize)
        ensures
            r == self.spec_index(),
            r < LEVEL_COUNT,
    {
        match self {
            SkillLevel::Star1 => 0,
            SkillLevel::Star2 => 1,
            SkillLevel::Star3 => 2,
            SkillLevel::Xuan1 => 3,
            SkillLevel::Xuan2 => 4,
            SkillLevel::Xuan3 => 5,
            SkillLevel::Di1 => 6,
            SkillLevel::Di2 => 7,
            SkillLevel::Di3 => 8,
            SkillLevel::Tian1 => 9,
            SkillLevel::Tian2 => 10,
            SkillLevel::Tian3 => 11,
            SkillLevel::Tian4 => 12,
            SkillLevel::Tian5 => 13,
        }
    }

    pub open spec fn spec_from_index(i: int) -> SkillLevel {
        if i <= 0 {
            SkillLevel::Star1
        } else if i == 1 {
            SkillLevel::Star2
        } else if i == 2 {
            SkillLevel::Star3
        } else if i == 3 {
            SkillLevel::Xuan1
        } else if i == 4 {
            SkillLevel::Xuan2
        } else if i == 5 {
            SkillLevel::Xuan3
        } else if i == 6 {
            SkillLevel::Di1
        } else if i == 7 {
            SkillLevel::Di2
        } else if i == 8 {
            SkillLevel::Di3
        } else if i == 9 {
            SkillLevel::Tian1
        } else if i == 10 {
            SkillLevel::Tian2
        } else if i == 11 {
            SkillLevel::Tian3
        } else if i == 12 {
            SkillLevel::Tian4
        } else {
            SkillLevel::Tian5
        }
    }

    /// The level at position `i`.
    pub fn from_index(i: usize) -> (l: SkillLevel)
        requires
            i < LEVEL_COUNT,
        ensures
            l == SkillLevel::spec_from_index(i as int),
            l.index() == i,
    {
        if i == 0 {
            SkillLevel::Star1
        } else if i == 1 {
            SkillLevel::Star2
        } else if i == 2 {
            SkillLevel::Star3
        } else if i == 3 {
            SkillLevel::Xuan1
        } else if i == 4 {
            SkillLevel::Xuan2
        } else if i == 5 {
            SkillLevel::Xuan3
        } else if i == 6 {
            SkillLevel::Di1
        } else if i == 7 {
            SkillLevel::Di2
        } else if i == 8 {
            SkillLevel::Di3
        } else if i == 9 {
            SkillLevel::Tian1
        } else if i == 10 {
            SkillLevel::Tian2
        } else if i == 11 {
            SkillLevel::Tian3
        } else if i == 12 {
            SkillLevel::Tian4
        } else {
            SkillLevel::Tian5
        }
    }

    pub open spec fn spec_display_name(self) -> Seq<char> {
        match self {
            SkillLevel::Star1 => "1星"@,
            SkillLevel::Star2 => "2星"@,
            SkillLevel::Star3 => "3星"@,
            SkillLevel::Xuan1 => "玄1"@,
            SkillLevel::Xuan2 => "玄2"@,
            SkillLevel::Xuan3 => "玄3"@,
            SkillLevel::Di1 => "地1"@,
            SkillLevel::Di2 => "地2"@,
            SkillLevel::Di3 => "地3"@,
            SkillLevel::Tian1 => "天1"@,
            SkillLevel::Tian2 => "天2"@,
            SkillLevel::Tian3 => "天3"@,
            SkillLevel::Tian4 => "天4"@,
            SkillLevel::Tian5 => "天5"@,
        }
    }

    /// The level's name as the game shows it.
    pub fn display_name(self) -> (r: &'static str)
        ensures
            r@ == self.spec_display_name(),
    {
        match self {
            SkillLevel::Star1 => "1星",
            SkillLevel::Star2 => "2星",
            SkillLevel::Star3 => "3星",
            SkillLevel::Xuan1 => "玄1",
            SkillLevel::Xuan2 => "玄2",
            SkillLevel::Xuan3 => "玄3",
            SkillLevel::Di1 => "地1",
            SkillLevel::Di2 => "地2",
            SkillLevel::Di3 => "地3",
            SkillLevel::Tian1 => "天1",
            SkillLevel::Tian2 => "天2",
            SkillLevel::Tian3 => "天3",
            SkillLevel::Tian4 => "天4",
            SkillLevel::Tian5 => "天5",
        }
    }

    /// The level right above this one; `None` at 天5.
    pub fn next(self) -> (r: Option<SkillLevel>)
        ensures
            self.index() < MAX_LEVEL_INDEX ==> (r matches Some(l) && l.index() == self.index() + 1),
            self.index() == MAX_LEVEL_INDEX ==> r is None,
    {
        let i = self.index();
        if i + 1 < LEVEL_COUNT {
            Some(SkillLevel::from_index(i + 1))
        } else {
            None
        }
    }
}

/// `index` and `from_index` are inverse to each other.
pub proof fn lemma_level_index_roundtrip(l: SkillLevel)
    ensures
        SkillLevel::spec_from_index(l.index() as int) == l,
        l.index() < LEVEL_COUNT,
{
}

/// Two levels with the same index are the same level.
pub proof fn lemma_level_index_injective(a: SkillLevel, b: SkillLevel)
    ensures
        a.index() == b.index() <==> a == b,
{
}

/// Materials needed to reach a level from the level below it.
#[derive(Debug, Clone, Copy)]
pub struct UpgradeCost {
    pub self_pages: u32,
    pub other_pages: u32,
    pub purple_pages: u32,
    pub blue_pages: u32,
}

/// The cost of reaching the level at position `k` (position 0 is acquiring the skill at 1星);
/// all zero outside the table.
pub open spec fn cost_of(k: int) -> UpgradeCost {
    if k == 0 {
        UpgradeCost { self_pages: 40, other_pages: 0, purple_pages: 0, blue_pages: 0 }
    } else if k == 1 {
        UpgradeCost { self_pages: 40, other_pages: 0, purple_pages: 100, blue_pages: 200 }
    } else if k == 2 {
        UpgradeCost { self_pages: 0, other_pages: 120, purple_pages: 100, blue_pages: 200 }
    } else if k == 3 {
        UpgradeCost { self_pages: 40, other_pages: 120, purple_pages: 150, blue_pages: 350 }
    } else if k == 4 {
        UpgradeCost { self_pages: 80, other_pages: 120, purple_pages: 200, blue_pages: 500 }
    } else if k == 5 {
        UpgradeCost { self_pages: 80, other_pages: 160, purple_pages: 250, blue_pages: 650 }
    } else if k == 6 {
        UpgradeCost { self_pages: 120, other_pages: 200, purple_pages: 350, blue_pages: 900 }
    } else if k == 7 {
        UpgradeCost { self_pages: 120, other_pages: 240, purple_pages: 500, blue_pages: 1200 }
    } else if k == 8 {
        UpgradeCost { self_pages: 160, other_pages: 280, purple_pages: 600, blue_pages: 1500 }
    } else if k == 9 {
        UpgradeCost { self_pages: 200, other_pages: 360, purple_pages: 700, blue_pages: 1800 }
    } else if k == 10 {
        UpgradeCost { self_pages: 240, other_pages: 440, purple_pages: 800, blue_pages: 2100 }
    } else if k == 11 {
        UpgradeCost { self_pages: 280, other_pages: 520, purple_pages: 1000, blue_pages: 2400 }
    } else if k == 12 {
        UpgradeCost { self_pages: 320, other_pages: 600, purple_pages: 1000, blue_pages: 2400 }
    } else if k == 13 {
        UpgradeCost { self_pages: 360, other_pages: 680, purple_pages: 1000, blue_pages: 2400 }
    } else {
        UpgradeCost { self_pages: 0, other_pages: 0, purple_pages: 0, blue_pages: 0 }
    }
}

/// The cost of reaching `level` from the level right below it.
pub fn upgrade_cost(level: SkillLevel) -> (c: UpgradeCost)
    ensures
        c == cost_of(level.index() as int),
{
    match level {
        SkillLevel::Star1 => UpgradeCost { self_pages: 40, other_pages: 0, purple_pages: 0, blue_pages: 0 },
        SkillLevel::Star2 => UpgradeCost { self_pages: 40, other_pages: 0, purple_pages: 100, blue_pages: 200 },
        SkillLevel::Star3 => UpgradeCost { self_pages: 0, other_pages: 120, purple_pages: 100, blue_pages: 200 },
        SkillLevel::Xuan1 => UpgradeCost { self_pages: 40, other_pages: 120, purple_pages: 150, blue_pages: 350 },
        SkillLevel::Xuan2 => UpgradeCost { self_pages: 80, other_pages: 120, purple_pages: 200, blue_pages: 500 },
        SkillLevel::Xuan3 => UpgradeCost { self_pages: 80, other_pages: 160, purple_pages: 250, blue_pages: 650 },
        SkillLevel::Di1 => UpgradeCost { self_pages: 120, other_pages: 200, purple_pages: 350, blue_pages: 900 },
        SkillLevel::Di2 => UpgradeCost { self_pages: 120, other_pages: 240, purple_pages: 500, blue_pages: 1200 },
        SkillLevel::Di3 => UpgradeCost { self_pages: 160, other_pages: 280, purple_pages: 600, blue_pages: 1500 },
        SkillLevel::Tian1 => UpgradeCost { self_pages: 200, other_pages: 360, purple_pages: 700, blue_pages: 1800 },
        SkillLevel::Tian2 => UpgradeCost { self_pages: 240, other_pages: 440, purple_pages: 800, blue_pages: 2100 },
        SkillLevel::Tian3 => UpgradeCost { self_pages: 280, other_pages: 520, purple_pages: 1000, blue_pages: 2400 },
        SkillLevel::Tian4 => UpgradeCost { self_pages: 320, other_pages: 600, purple_pages: 1000, blue_pages: 2400 },
        SkillLevel::Tian5 => UpgradeCost { self_pages: 360, other_pages: 680, purple_pages: 1000, blue_pages: 2400 },
    }
}

/// One of the four materials of a cost: 0 self pages, 1 other pages, 2 purple, 3 blue.
pub open spec fn cost_field(c: UpgradeCost, f: int) -> int {
    if f == 0 {
        c.self_pages as int
    } else if f == 1 {
        c.other_pages as int
    } else if f == 2 {
        c.purple_pages as int
    } else {
        c.blue_pages as int
    }
}

/// Material `f` needed to go from the level at position `lo` to the one at `hi`:
/// the sum of the table's entries `lo + 1 ..= hi` (zero when `hi <= lo`).
pub open spec fn range_cost(lo: int, hi: int, f: int) -> int
    decreases hi - lo,
{
    if hi <= lo {
        0
    } else {
        range_cost(lo, hi - 1, f) + cost_field(cost_of(hi), f)
    }
}

/// Every entry of the table is at most 2400 of any material.
pub proof fn lemma_cost_of_bounded(k: int, f: int)
    ensures
        0 <= cost_field(cost_of(k), f) <= 2400,
{
}

/// A range of levels costs between 0 and 2400 per level of any material.
pub proof fn lemma_range_cost_bounded(lo: int, hi: int, f: int)
    ensures
        0 <= range_cost(lo, hi, f),
        hi > lo ==> range_cost(lo, hi, f) <= 2400 * (hi - lo),
        hi <= lo ==> range_cost(lo, hi, f) == 0,
    decreases hi - lo,
{
    if hi > lo {
        lemma_range_cost_bounded(lo, hi - 1, f);
        lemma_cost_of_bounded(hi, f);
    }
}

/// Going one level further never costs less: from 2星 on each level needs at least the other,
/// purple and blue pages of the level below it, and from 玄1 on at least its own pages too.
proof fn lemma_cost_step_rises(k: int)
    requires
        2 <= k <= MAX_LEVEL_INDEX,
    ensures
        cost_of(k - 1).other_pages <= cost_of(k).other_pages,
        cost_of(k - 1).purple_pages <= cost_of(k).purple_pages,
        cost_of(k - 1).blue_pages <= cost_of(k).blue_pages,
        k >= 4 ==> cost_of(k - 1).self_pages <= cost_of(k).self_pages,
{
}

/// The higher the level, the dearer it is to reach: for levels from 2星 up, a higher level
/// needs at least as many other, purple and blue pages as a lower one, and from 玄1 up at least
/// as many own pages.
pub proof fn lemma_costs_rise_with_level(a: int, b: int)
    requires
        1 <= a <= b <= MAX_LEVEL_INDEX,
    ensures
        cost_of(a).other_pages <= cost_of(b).other_pages,
        cost_of(a).purple_pages <= cost_of(b).purple_pages,
        cost_of(a).blue_pages <= cost_of(b).blue_pages,
        a >= 3 ==> cost_of(a).self_pages <= cost_of(b).self_pages,
    decreases b - a,
{
    if a < b {
        lemma_costs_rise_with_level(a, b - 1);
        lemma_cost_step_rises(b);
    }
}

/// Own and other pages are paid in whole batches of 40 pages, purple and blue pages in fifties.
pub proof fn lemma_costs_in_batches(k: int)
    ensures
        cost_of(k).self_pages % 40 == 0,
        cost_of(k).other_pages % 40 == 0,
        cost_of(k).purple_pages % 50 == 0,
        cost_of(k).blue_pages % 50 == 0,
{
}

/// What it takes, from 1星, to reach the first level of each realm and each 天 level: 玄1 80
/// own, 240 other, 350 purple and 750 blue pages; 地1 360, 720, 1150, 2800; 天1 840, 1600,
/// 2950, 7300; 天2 1080, 2040, 3750, 9400; 天3 1360, 2560, 4750, 11800; 天4 1680, 3160, 5750,
/// 14200; 天5 2040, 3840, 6750, 16600.
pub proof fn lemma_climb_totals()
    ensures
        range_cost(0, 3, 0) == 80,
        range_cost(0, 3, 1) == 240,
        range_cost(0, 3, 2) == 350,
        range_cost(0, 3, 3) == 750,
        range_cost(0, 9, 0) == 840,
        range_cost(0, 9, 1) == 1600,
        range_cost(0, 9, 2) == 2950,
        range_cost(0, 9, 3) == 7300,
        range_cost(0, 10, 0) == 1080,
        range_cost(0, 10, 1) == 2040,
        range_cost(0, 10, 2) == 3750,
        range_cost(0, 10, 3) == 9400,
        range_cost(0, 11, 0) == 1360,
        range_cost(0, 11, 1) == 2560,
        range_cost(0, 11, 2) == 4750,
        range_cost(0, 11, 3) == 11800,
        range_cost(0, 12, 0) == 1680,
        range_cost(0, 12, 1) == 3160,
        range_cost(0, 12, 2) == 5750,
        range_cost(0, 12, 3) == 14200,
        range_cost(0, 6, 0) == 360,
        range_cost(0, 6, 1) == 720,
        range_cost(0, 6, 2) == 1150,
        range_cost(0, 6, 3) == 2800,
        range_cost(0, 13, 0) == 2040,
        range_cost(0, 13, 1) == 3840,
        range_cost(0, 13, 2) == 6750,
        range_cost(0, 13, 3) == 16600,
{
    reveal_with_fuel(range_cost, 14);
}

/// Going up in two steps costs what going up in one does.
pub proof fn lemma_range_cost_split(lo: int, mid: int, hi: int, f: int)
    requires
        lo <= mid <= hi,
    ensures
        range_cost(lo, hi, f) == range_cost(lo, mid, f) + range_cost(mid, hi, f),
    decreases hi - mid,
{
    if hi > mid {
        lemma_range_cost_split(lo, mid, hi - 1, f);
    }
}

/// The materials needed to go from `from` up to `to`; all zero when `to` is not above `from`.
pub fn total_cost_between(from: SkillLevel, to: SkillLevel) -> (c: UpgradeCost)
    ensures
        c.self_pages == range_cost(from.index() as int, to.index() as int, 0),
        c.other_pages == range_cost(from.index() as int, to.index() as int, 1),
        c.purple_pages == range_cost(from.index() as int, to.index() as int, 2),
        c.blue_pages == range_cost(from.index() as int, to.index() as int, 3),
{
    let fi = from.index();
    let ti = to.index();
    let mut result = UpgradeCost { self_pages: 0, other_pages: 0, purple_pages: 0, blue_pages: 0 };
    let mut i = fi + 1;
    while i <= ti
        invariant
            fi + 1 <= i,
            fi < LEVEL_COUNT,
            ti < LEVEL_COUNT,
            i <= ti + 1 || i == fi + 1,
            result.self_pages == range_cost(fi as int, i - 1, 0),
            result.other_pages == range_cost(fi as int, i - 1, 1),
            result.purple_pages == range_cost(fi as int, i - 1, 2),
            result.blue_pages == range_cost(fi as int, i - 1, 3),
        decreases ti + 1 - i,
    {
        proof {
            lemma_range_cost_bounded(fi as int, i as int, 0);
            lemma_range_cost_bounded(fi as int, i as int, 1);
            lemma_range_cost_bounded(fi as int, i as int, 2);
            lemma_range_cost_bounded(fi as int, i as int, 3);
        }
        let c = upgrade_cost(SkillLevel::from_index(i));
        result.self_pages = result.self_pages + c.self_pages;
        result.other_pages = result.other_pages + c.other_pages;
        result.purple_pages = result.purple_pages + c.purple_pages;
        result.blue_pages = result.blue_pages + c.blue_pages;
        i = i + 1;
    }
    proof {
        if ti <= fi {
            lemma_range_cost_bounded(fi as int, ti as int, 0);
            lemma_range_cost_bounded(fi as int, ti as int, 1);
            lemma_range_cost_bounded(fi as int, ti as int, 2);
            lemma_range_cost_bounded(fi as int, ti as int, 3);
        }
    }
    result
}

// --- planner input ---

/// One combat skill as the player describes it.
#[derive(Debug, Clone)]
pub struct CombatSkillInput {
    pub shop: Shop,
    pub current_level: SkillLevel,
    pub remaining_pages: u32,
    pub target_level: SkillLevel,
    pub label: String,
    /// The skill receives pages every this many weeks (never when 0).
    pub income_cycle_weeks: u32,
    /// Batches of pages received each time.
    pub income_batch_count: u32,
}

/// An amount per shop.
#[derive(Debug, Clone, Copy, PartialEq, Eq, Structural)]
pub struct ShopMap {
    pub lun_jian: u32,
    pub zhu_tian: u32,
    pub zong_men: u32,
    pub dao_yun: u32,
    pub bai_zu: u32,
}

impl ShopMap {
    pub open spec fn spec_get(&self, shop: Shop) -> u32 {
        match shop {
            Shop::LunJian => self.lun_jian,
            Shop::ZhuTian => self.zhu_tian,
            Shop::ZongMen => self.zong_men,
            Shop::DaoYun => self.dao_yun,
            Shop::BaiZu => self.bai_zu,
        }
    }

    /// The amount of `shop`.
    #[verifier::when_used_as_spec(spec_get)]
    pub fn get(&self, shop: Shop) -> (r: u32)
        ensures
            r == self.spec_get(shop),
    {
        match shop {
            Shop::LunJian => self.lun_jian,
            Shop::ZhuTian => self.zhu_tian,
            Shop::ZongMen => self.zong_men,
            Shop::DaoYun => self.dao_yun,
            Shop::BaiZu => self.bai_zu,
        }
    }

    /// Replaces the amount of `shop` by `val`, leaving the others.
    pub fn set(&mut self, shop: Shop, val: u32)
        ensures
            final(self).get(shop) == val,
            forall|s: Shop| s != shop ==> final(self).get(s) == old(self).get(s),
    {
        match shop {
            Shop::LunJian => self.lun_jian = val,
            Shop::ZhuTian => self.zhu_tian = val,
            Shop::ZongMen => self.zong_men = val,
            Shop::DaoYun => self.dao_yun = val,
            Shop::BaiZu => self.bai_zu = val,
        }
    }

    /// Adds `val` to the amount of `shop`.
    pub fn add(&mut self, shop: Shop, val: u32)
        requires
            old(self).get(shop) + val <= u32::MAX,
        ensures
            final(self).get(shop) == old(self).get(shop) + val,
            forall|s: Shop| s != shop ==> final(self).get(s) == old(self).get(s),
    {
        let cur = self.get(shop);
        self.set(shop, cur + val);
    }

    /// Takes `val` from the amount of `shop`, stopping at zero.
    pub fn sub_clamped(&mut self, shop: Shop, val: u32)
        ensures
            final(self).get(shop) == (if old(self).get(shop) >= val {
                old(self).get(shop) - val
            } else {
                0
            }),
            forall|s: Shop| s != shop ==> final(self).get(s) == old(self).get(s),
    {
        let cur = self.get(shop);
        self.set(shop, cur.saturating_sub(val));
    }

    /// All amounts zero.
    pub fn zero() -> (m: Self)
        ensures
            forall|s: Shop| m.get(s) == 0,
    {
        ShopMap { lun_jian: 0, zhu_tian: 0, zong_men: 0, dao_yun: 0, bai_zu: 0 }
    }

    pub open spec fn spec_total(&self) -> int {
        self.lun_jian + self.zhu_tian + self.zong_men + self.dao_yun + self.bai_zu
    }

    /// The sum over all shops.
    pub fn total(&self) -> (t: u32)
        requires
            self.spec_total() <= u32::MAX,
        ensures
            t == self.spec_total(),
    {
        self.lun_jian + self.zhu_tian + self.zong_men + self.dao_yun + self.bai_zu
    }
}

/// Settings shared by all skills.
#[derive(Debug, Clone)]
pub struct AdvancedSettings {
    pub conversion_stones: u32,
    /// Pages of each shop held outside the combat skills (the fodder pool) at the start.
    pub non_combat_pools: ShopMap,
    /// Pages that flow into each shop's fodder pool per income event.
    pub weekly_shop_income: ShopMap,
    /// 道蕴 pays its income every this many weeks (never when 0).
    pub daoyun_cycle_weeks: u32,
    /// 百族 pays its income every this many weeks (never when 0).
    pub baizu_cycle_weeks: u32,
    pub free_conversions_per_week: u32,
    pub weekly_purple_income: u32,
    pub weekly_blue_income: u32,
}

/// Everything the planner is given.
#[derive(Debug, Clone)]
pub struct PlannerInput {
    pub combat_skills: Vec<CombatSkillInput>,
    pub purple_pages: u32,
    pub blue_pages: u32,
    pub advanced: AdvancedSettings,
}

// --- planner output ---

/// Marks a conversion whose pages come from the shop's fodder pool.
pub const FROM_POOL: usize = usize::MAX;

/// Converting one batch of a shop's pages into pages of a target skill.
#[derive(Debug, Clone, Copy, PartialEq, Eq, Structural)]
pub struct ConversionAction {
    pub shop: Shop,
    pub target_skill_index: usize,
    /// The skill that gives the pages, or `FROM_POOL`.
    pub from_skill_index: usize,
    pub used_stone: bool,
    pub pages: u32,
}

/// Where pages spent as 金色 (other pages) come from.
#[derive(Debug, Clone, Copy, PartialEq, Eq, Structural)]
pub enum GoldSource {
    Pool(Shop),
    Skill(usize),
}

/// Pages taken from one source for an upgrade.
#[derive(Debug, Clone, Copy, PartialEq, Eq, Structural)]
pub struct GoldDraw {
    pub source: GoldSource,
    pub pages: u32,
}

/// Raising one skill by one level.
#[derive(Debug, Clone)]
pub struct UpgradeAction {
    pub skill_index: usize,
    pub from_level: SkillLevel,
    pub to_level: SkillLevel,
    pub self_pages_used: u32,
    /// The other pages spent, source by source, in the order they were taken.
    pub other_pages_consumed: Vec<GoldDraw>,
    pub purple_pages_used: u32,
    pub blue_pages_used: u32,
}

/// Pages received in a week: by a skill (`Some` index) or by a shop's fodder pool (`None`).
#[derive(Debug, Clone, Copy, PartialEq, Eq, Structural)]
pub struct ShopAcquisition {
    pub shop: Shop,
    pub target_skill_index: Option<usize>,
    pub pages: u32,
}

/// The state after a week's actions.
#[derive(Debug, Clone)]
pub struct StateSnapshot {
    pub skill_levels: Vec<SkillLevel>,
    pub skill_pages: Vec<u32>,
    pub non_combat_pools: ShopMap,
    pub purple_pages: u32,
    pub blue_pages: u32,
    pub conversion_stones_left: u32,
}

/// What happens in one week.
#[derive(Debug, Clone)]
pub struct WeekPlan {
    pub week: u32,
    pub acquisitions: Vec<ShopAcquisition>,
    pub conversions: Vec<ConversionAction>,
    pub upgrades: Vec<UpgradeAction>,
    pub snapshot: StateSnapshot,
}

/// The planner's answer.
#[derive(Debug, Clone)]
pub struct PlannerOutput {
    pub feasible: bool,
    pub weeks: Vec<WeekPlan>,
    pub unreachable_reasons: Vec<String>,
    pub final_levels: Vec<SkillLevel>,
}

} // verus!
