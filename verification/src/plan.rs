//! What a weekly plan does to the resources: the effect of each recorded action, summed over
//! the actions of a week, and when a plan is a faithful record of its weeks.
use vstd::prelude::*;
use crate::models::{
    cost_of, ConversionAction, GoldDraw, GoldSource, PlannerInput, Shop, ShopAcquisition, SkillLevel,
    StateSnapshot, UpgradeAction, WeekPlan, FROM_POOL, MAX_LEVEL_INDEX, PAGES_PER_UNIT, SHOP_COUNT,
};
use crate::income::skill_income_in_week;

verus! {

// --- the effect of gold draws ---

/// Pages drawn from skill `j`.
pub open spec fn draws_from_skill(d: Seq<GoldDraw>, j: int) -> int
    decreases d.len(),
{
    if d.len() == 0 {
        0
    } else {
        draws_from_skill(d.drop_last(), j) + match d.last().source {
            GoldSource::Skill(x) => if x == j {
                d.last().pages as int
            } else {
                0
            },
            GoldSource::Pool(_) => 0,
        }
    }
}

/// Pages drawn from the fodder pool of the shop at position `k`.
pub open spec fn draws_from_pool(d: Seq<GoldDraw>, k: int) -> int
    decreases d.len(),
{
    if d.len() == 0 {
        0
    } else {
        draws_from_pool(d.drop_last(), k) + match d.last().source {
            GoldSource::Pool(s) => if s.index() == k {
                d.last().pages as int
            } else {
                0
            },
            GoldSource::Skill(_) => 0,
        }
    }
}

/// Pages drawn in all.
pub open spec fn draws_total(d: Seq<GoldDraw>) -> int
    decreases d.len(),
{
    if d.len() == 0 {
        0
    } else {
        draws_total(d.drop_last()) + d.last().pages
    }
}

/// Every draw takes some pages, and never from the skill being upgraded or a skill that
/// does not exist.
pub open spec fn draws_ok(d: Seq<GoldDraw>, n: int, skill: int) -> bool {
    forall|e: int|
        0 <= e < d.len() ==> #[trigger] d[e].pages > 0 && match d[e].source {
            GoldSource::Skill(j) => j < n && j != skill,
            GoldSource::Pool(_) => true,
        }
}

/// The order of a draw's source: the fodder pools first, in shop order (which is by rarity),
/// then the skills, those of cheaper shops first.
pub open spec fn draw_rank(d: GoldDraw, shops: Seq<Shop>) -> int {
    match d.source {
        GoldSource::Pool(s) => s.index() as int,
        GoldSource::Skill(j) => 5 + shops[j as int].rarity(),
    }
}

/// The least precious sources are drawn from first.
pub open spec fn draws_cheapest_first(d: Seq<GoldDraw>, shops: Seq<Shop>) -> bool {
    forall|a: int, b: int| 0 <= a < b < d.len() ==> draw_rank(d[a], shops) <= draw_rank(d[b], shops)
}

// --- the effect of one action ---

/// Pages of skill `j` spent by an upgrade: its own pages if it is the upgraded skill, and
/// whatever was drawn from it as other pages.
pub open spec fn upgrade_page_use(u: UpgradeAction, j: int) -> int {
    (if u.skill_index == j {
        u.self_pages_used as int
    } else {
        0
    }) + draws_from_skill(u.other_pages_consumed@, j)
}

/// Pages of the shop at position `k`'s fodder pool spent by an upgrade.
pub open spec fn upgrade_pool_use(u: UpgradeAction, k: int) -> int {
    draws_from_pool(u.other_pages_consumed@, k)
}

/// An upgrade raises one existing skill by exactly one level and pays exactly the table's
/// cost of the new level, its other pages from sources other than the skill itself.
pub open spec fn upgrade_ok(u: UpgradeAction, n: int) -> bool {
    let c = cost_of(u.to_level.index() as int);
    &&& u.skill_index < n
    &&& u.to_level.index() == u.from_level.index() + 1
    &&& u.self_pages_used == c.self_pages
    &&& u.purple_pages_used == c.purple_pages
    &&& u.blue_pages_used == c.blue_pages
    &&& draws_total(u.other_pages_consumed@) == c.other_pages
    &&& draws_ok(u.other_pages_consumed@, n, u.skill_index as int)
}

/// Net pages a conversion moves into skill `j`.
pub open spec fn conversion_page_delta(c: ConversionAction, j: int) -> int {
    (if c.target_skill_index == j {
        c.pages as int
    } else {
        0
    }) - (if c.from_skill_index == j {
        c.pages as int
    } else {
        0
    })
}

/// Pages a conversion takes from the fodder pool of the shop at position `k`.
pub open spec fn conversion_pool_use(c: ConversionAction, k: int) -> int {
    if c.from_skill_index == FROM_POOL && c.shop.index() == k {
        c.pages as int
    } else {
        0
    }
}

/// A conversion moves one batch of a shop's pages, from its pool or from another skill of the
/// shop, into a skill of that shop.
pub open spec fn conversion_ok(c: ConversionAction, shops: Seq<Shop>) -> bool {
    &&& c.pages == PAGES_PER_UNIT
    &&& c.target_skill_index < shops.len()
    &&& shops[c.target_skill_index as int] == c.shop
    &&& (c.from_skill_index == FROM_POOL || (c.from_skill_index < shops.len()
        && c.from_skill_index != c.target_skill_index && shops[c.from_skill_index as int] == c.shop))
}

// --- sums over a week's actions ---

pub open spec fn upgrades_count(us: Seq<UpgradeAction>, j: int) -> int
    decreases us.len(),
{
    if us.len() == 0 {
        0
    } else {
        upgrades_count(us.drop_last(), j) + (if us.last().skill_index == j {
            1int
        } else {
            0
        })
    }
}

pub open spec fn upgrades_page_use(us: Seq<UpgradeAction>, j: int) -> int
    decreases us.len(),
{
    if us.len() == 0 {
        0
    } else {
        upgrades_page_use(us.drop_last(), j) + upgrade_page_use(us.last(), j)
    }
}

pub open spec fn upgrades_pool_use(us: Seq<UpgradeAction>, k: int) -> int
    decreases us.len(),
{
    if us.len() == 0 {
        0
    } else {
        upgrades_pool_use(us.drop_last(), k) + upgrade_pool_use(us.last(), k)
    }
}

pub open spec fn upgrades_purple(us: Seq<UpgradeAction>) -> int
    decreases us.len(),
{
    if us.len() == 0 {
        0
    } else {
        upgrades_purple(us.drop_last()) + us.last().purple_pages_used
    }
}

pub open spec fn upgrades_blue(us: Seq<UpgradeAction>) -> int
    decreases us.len(),
{
    if us.len() == 0 {
        0
    } else {
        upgrades_blue(us.drop_last()) + us.last().blue_pages_used
    }
}

pub open spec fn conversions_page_delta(cs: Seq<ConversionAction>, j: int) -> int
    decreases cs.len(),
{
    if cs.len() == 0 {
        0
    } else {
        conversions_page_delta(cs.drop_last(), j) + conversion_page_delta(cs.last(), j)
    }
}

pub open spec fn conversions_pool_use(cs: Seq<ConversionAction>, k: int) -> int
    decreases cs.len(),
{
    if cs.len() == 0 {
        0
    } else {
        conversions_pool_use(cs.drop_last(), k) + conversion_pool_use(cs.last(), k)
    }
}

/// Conversions paid with a conversion stone.
pub open spec fn stone_uses(cs: Seq<ConversionAction>) -> int
    decreases cs.len(),
{
    if cs.len() == 0 {
        0
    } else {
        stone_uses(cs.drop_last()) + (if cs.last().used_stone {
            1int
        } else {
            0
        })
    }
}

/// Conversions paid with a free conversion.
pub open spec fn free_uses(cs: Seq<ConversionAction>) -> int
    decreases cs.len(),
{
    if cs.len() == 0 {
        0
    } else {
        free_uses(cs.drop_last()) + (if cs.last().used_stone {
            0
        } else {
            1int
        })
    }
}

/// Free conversions used before conversion stones each week; the rest come after the stones.
pub const PRIORITY_FREE_CONV: u32 = 3;

/// The conversion slots were taken in order: the first `p` conversions (at most) used free
/// ones, the next ones stones, and any after those the remaining free ones.
pub open spec fn slots_in_order(cs: Seq<ConversionAction>, p: int) -> bool {
    forall|k: int| 0 <= k < cs.len() ==> (#[trigger] cs[k].used_stone <==> p <= k < p + stone_uses(cs))
}

/// A count of stone uses is never negative.
pub proof fn lemma_stone_uses_nonneg(cs: Seq<ConversionAction>)
    ensures
        stone_uses(cs) >= 0,
    decreases cs.len(),
{
    if cs.len() > 0 {
        lemma_stone_uses_nonneg(cs.drop_last());
    }
}

/// A conversion taken at its place in the slot order keeps the slots in order.
pub proof fn lemma_slot_push(cs: Seq<ConversionAction>, c: ConversionAction, p: int)
    requires
        slots_in_order(cs, p),
        cs.len() == stone_uses(cs) + free_uses(cs),
        c.used_stone ==> cs.len() == p + stone_uses(cs),
        !c.used_stone ==> (cs.len() < p && stone_uses(cs) == 0) || cs.len() >= p + stone_uses(cs),
    ensures
        slots_in_order(cs.push(c), p),
        cs.push(c).len() == stone_uses(cs.push(c)) + free_uses(cs.push(c)),
{
    lemma_conversions_push(cs, c);
    lemma_stone_uses_nonneg(cs);
    let su = stone_uses(cs);
    let su1 = stone_uses(cs.push(c));
    assert(su1 == su + (if c.used_stone { 1int } else { 0 }));
    assert forall|k: int| 0 <= k < cs.push(c).len() implies (#[trigger] cs.push(c)[k].used_stone <==> p <= k
        < p + su1) by {
        if k < cs.len() {
            assert(cs.push(c)[k] == cs[k]);
            assert(cs[k].used_stone <==> p <= k < p + su);
        } else {
            assert(k == cs.len());
            assert(cs.push(c)[k] == c);
            if c.used_stone {
                assert(p <= k < p + su1);
            } else {
                assert(!(p <= k < p + su1));
            }
        }
    }
}

/// Pages received by skill `j`.
pub open spec fn acquired_by_skill(acqs: Seq<ShopAcquisition>, j: int) -> int
    decreases acqs.len(),
{
    if acqs.len() == 0 {
        0
    } else {
        acquired_by_skill(acqs.drop_last(), j) + (if acqs.last().target_skill_index == Some(
            j as usize,
        ) && 0 <= j {
            acqs.last().pages as int
        } else {
            0
        })
    }
}

/// Pages received by the fodder pool of the shop at position `k`.
pub open spec fn acquired_by_pool(acqs: Seq<ShopAcquisition>, k: int) -> int
    decreases acqs.len(),
{
    if acqs.len() == 0 {
        0
    } else {
        acquired_by_pool(acqs.drop_last(), k) + (if acqs.last().target_skill_index is None
            && acqs.last().shop.index() == k {
            acqs.last().pages as int
        } else {
            0
        })
    }
}

/// Every upgrade of the list is valid, starts from the level its skill has reached by then,
/// and stays within the skill's target.
pub open spec fn upgrades_chain_ok(
    us: Seq<UpgradeAction>,
    start: Seq<SkillLevel>,
    targets: Seq<SkillLevel>,
) -> bool {
    forall|k: int|
        0 <= k < us.len() ==> {
            &&& upgrade_ok(#[trigger] us[k], start.len() as int)
            &&& us[k].from_level.index() == start[us[k].skill_index as int].index() + upgrades_count(
                us.take(k),
                us[k].skill_index as int,
            )
            &&& us[k].to_level.index() <= targets[us[k].skill_index as int].index()
        }
}

// --- the incomes of a week ---

/// The skill incomes of week `week` for the first `m` skills, in skill order, zero ones left out.
pub open spec fn skill_acquisitions(input: PlannerInput, week: int, m: int) -> Seq<ShopAcquisition>
    decreases m,
{
    if m <= 0 {
        Seq::empty()
    } else {
        let s = input.combat_skills@[m - 1];
        let p = skill_income_in_week(s, week);
        let prev = skill_acquisitions(input, week, m - 1);
        if p > 0 {
            prev.push(ShopAcquisition { shop: s.shop, target_skill_index: Some((m - 1) as usize), pages: p as u32 })
        } else {
            prev
        }
    }
}

/// The fodder pool incomes of week `week` for the first `m` shops, in shop order, zero ones
/// left out.
pub open spec fn pool_acquisitions(input: PlannerInput, week: int, m: int) -> Seq<ShopAcquisition>
    decreases m,
{
    if m <= 0 {
        Seq::empty()
    } else {
        let shop = Shop::spec_from_index(m - 1);
        let p = input.advanced.spec_fodder_in_week(shop, week);
        let prev = pool_acquisitions(input, week, m - 1);
        if p > 0 {
            prev.push(ShopAcquisition { shop, target_skill_index: None, pages: p as u32 })
        } else {
            prev
        }
    }
}

/// All incomes of week `week`: the skills' first, then the fodder pools'.
pub open spec fn week_acquisitions(input: PlannerInput, week: int) -> Seq<ShopAcquisition> {
    skill_acquisitions(input, week, input.combat_skills@.len() as int) + pool_acquisitions(
        input,
        week,
        SHOP_COUNT as int,
    )
}

// --- a faithful record ---

/// The pools of a snapshot, by shop position.
pub open spec fn snapshot_pools(s: StateSnapshot) -> Seq<u32> {
    Seq::new(SHOP_COUNT as nat, |k: int| s.non_combat_pools.get(Shop::spec_from_index(k)))
}

/// The skills' shops.
pub open spec fn input_shops(input: PlannerInput) -> Seq<Shop> {
    input.combat_skills@.map_values(|s: crate::models::CombatSkillInput| s.shop)
}

pub open spec fn input_levels(input: PlannerInput) -> Seq<SkillLevel> {
    input.combat_skills@.map_values(|s: crate::models::CombatSkillInput| s.current_level)
}

pub open spec fn input_pages(input: PlannerInput) -> Seq<u32> {
    input.combat_skills@.map_values(|s: crate::models::CombatSkillInput| s.remaining_pages)
}

pub open spec fn input_pools(input: PlannerInput) -> Seq<u32> {
    Seq::new(SHOP_COUNT as nat, |k: int| input.advanced.non_combat_pools.get(Shop::spec_from_index(k)))
}

/// Week `wp` is exactly what its actions do to the state (`levels`, `pages`, `pools`,
/// `purple`, `blue`, `stones`) it starts from: its incomes are the schedules' incomes of that
/// week, every action is valid, at most the weekly free conversions are used, upgrades stay
/// within `targets`, and its snapshot is the start plus incomes plus conversions minus what
/// the upgrades spent.
pub open spec fn week_follows(
    input: PlannerInput,
    targets: Seq<SkillLevel>,
    levels: Seq<SkillLevel>,
    pages: Seq<u32>,
    pools: Seq<u32>,
    purple: int,
    blue: int,
    stones: int,
    wp: WeekPlan,
) -> bool {
    let n = input.combat_skills@.len() as int;
    let cs = wp.conversions@;
    let us = wp.upgrades@;
    let acqs = wp.acquisitions@;
    let snap = wp.snapshot;
    let adv = input.advanced;
    let inc_purple = if wp.week > 0 {
        adv.weekly_purple_income as int
    } else {
        0
    };
    let inc_blue = if wp.week > 0 {
        adv.weekly_blue_income as int
    } else {
        0
    };
    &&& acqs == (if wp.week > 0 {
        week_acquisitions(input, wp.week as int)
    } else {
        Seq::empty()
    })
    &&& forall|c: int| 0 <= c < cs.len() ==> conversion_ok(#[trigger] cs[c], input_shops(input))
    &&& free_uses(cs) <= adv.free_conversions_per_week
    &&& slots_in_order(cs, vstd::math::min(adv.free_conversions_per_week as int, PRIORITY_FREE_CONV as int))
    &&& free_uses(cs) > vstd::math::min(adv.free_conversions_per_week as int, PRIORITY_FREE_CONV as int)
        ==> snap.conversion_stones_left == 0
    &&& upgrades_chain_ok(us, levels, targets)
    &&& forall|k: int|
        0 <= k < us.len() ==> draws_cheapest_first(#[trigger] us[k].other_pages_consumed@, input_shops(input))
    &&& snap.skill_levels@.len() == n
    &&& snap.skill_pages@.len() == n
    &&& forall|j: int|
        0 <= j < n ==> #[trigger] snap.skill_levels@[j].index() == levels[j].index() + upgrades_count(
            us,
            j,
        )
    &&& forall|j: int|
        0 <= j < n ==> #[trigger] snap.skill_pages@[j] == pages[j] + acquired_by_skill(acqs, j)
            + conversions_page_delta(cs, j) - upgrades_page_use(us, j)
    &&& forall|k: int|
        0 <= k < SHOP_COUNT ==> #[trigger] snapshot_pools(snap)[k] == pools[k] + acquired_by_pool(
            acqs,
            k,
        ) - conversions_pool_use(cs, k) - upgrades_pool_use(us, k)
    &&& snap.purple_pages == purple + inc_purple - upgrades_purple(us)
    &&& snap.blue_pages == blue + inc_blue - upgrades_blue(us)
    &&& snap.conversion_stones_left == stones - stone_uses(cs)
}

/// Week `k` of `weeks` follows from the state the previous week left (the input's state for
/// the first week).
pub open spec fn plan_week_follows(
    input: PlannerInput,
    targets: Seq<SkillLevel>,
    weeks: Seq<WeekPlan>,
    k: int,
) -> bool {
    if k == 0 {
        week_follows(
            input,
            targets,
            input_levels(input),
            input_pages(input),
            input_pools(input),
            input.purple_pages as int,
            input.blue_pages as int,
            input.advanced.conversion_stones as int,
            weeks[0],
        )
    } else {
        let prev = weeks[k - 1].snapshot;
        week_follows(
            input,
            targets,
            prev.skill_levels@,
            prev.skill_pages@,
            snapshot_pools(prev),
            prev.purple_pages as int,
            prev.blue_pages as int,
            prev.conversion_stones_left as int,
            weeks[k],
        )
    }
}

/// `weeks` is a faithful week-by-week record, numbered consecutively from week 0 or week 1:
/// replaying its actions from the input's state gives every snapshot.
pub open spec fn plan_follows(input: PlannerInput, targets: Seq<SkillLevel>, weeks: Seq<WeekPlan>) -> bool {
    &&& forall|k: int| 0 <= k < weeks.len() ==> #[trigger] plan_week_follows(input, targets, weeks, k)
    &&& forall|k: int|
        0 <= k < weeks.len() ==> #[trigger] weeks[k].week == weeks[0].week + k
    &&& weeks.len() > 0 ==> weeks[0].week <= 1
}

/// The levels a plan ends on: the last snapshot's, or the input's when nothing happens.
pub open spec fn plan_final_levels(input: PlannerInput, weeks: Seq<WeekPlan>) -> Seq<SkillLevel> {
    if weeks.len() == 0 {
        input_levels(input)
    } else {
        weeks.last().snapshot.skill_levels@
    }
}

// --- appending to the sums ---

pub proof fn lemma_upgrades_push(us: Seq<UpgradeAction>, u: UpgradeAction)
    ensures
        forall|j: int| #[trigger] upgrades_count(us.push(u), j) == upgrades_count(us, j) + (if u.skill_index
            == j {
            1int
        } else {
            0
        }),
        forall|j: int| #[trigger] upgrades_page_use(us.push(u), j) == upgrades_page_use(us, j) + upgrade_page_use(u, j),
        forall|k: int| #[trigger] upgrades_pool_use(us.push(u), k) == upgrades_pool_use(us, k) + upgrade_pool_use(u, k),
        upgrades_purple(us.push(u)) == upgrades_purple(us) + u.purple_pages_used,
        upgrades_blue(us.push(u)) == upgrades_blue(us) + u.blue_pages_used,
{
    assert(us.push(u).drop_last() =~= us);
}

pub proof fn lemma_conversions_push(cs: Seq<ConversionAction>, c: ConversionAction)
    ensures
        forall|j: int| #[trigger] conversions_page_delta(cs.push(c), j) == conversions_page_delta(cs, j) + conversion_page_delta(c, j),
        forall|k: int| #[trigger] conversions_pool_use(cs.push(c), k) == conversions_pool_use(cs, k) + conversion_pool_use(c, k),
        stone_uses(cs.push(c)) == stone_uses(cs) + (if c.used_stone {
            1int
        } else {
            0
        }),
        free_uses(cs.push(c)) == free_uses(cs) + (if c.used_stone {
            0
        } else {
            1int
        }),
{
    assert(cs.push(c).drop_last() =~= cs);
}

pub proof fn lemma_draws_push(d: Seq<GoldDraw>, e: GoldDraw)
    ensures
        forall|j: int| #[trigger] draws_from_skill(d.push(e), j) == draws_from_skill(d, j) + match e.source {
            GoldSource::Skill(x) => if x == j {
                e.pages as int
            } else {
                0
            },
            GoldSource::Pool(_) => 0,
        },
        forall|k: int| #[trigger] draws_from_pool(d.push(e), k) == draws_from_pool(d, k) + match e.source {
            GoldSource::Pool(s) => if s.index() == k {
                e.pages as int
            } else {
                0
            },
            GoldSource::Skill(_) => 0,
        },
        draws_total(d.push(e)) == draws_total(d) + e.pages,
{
    assert(d.push(e).drop_last() =~= d);
}

pub proof fn lemma_acquisitions_push(a: Seq<ShopAcquisition>, x: ShopAcquisition)
    ensures
        forall|j: int| #[trigger] acquired_by_skill(a.push(x), j) == acquired_by_skill(a, j) + (if x.target_skill_index
            == Some(j as usize) && 0 <= j {
            x.pages as int
        } else {
            0
        }),
        forall|k: int| #[trigger] acquired_by_pool(a.push(x), k) == acquired_by_pool(a, k) + (if x.target_skill_index is None
            && x.shop.index() == k {
            x.pages as int
        } else {
            0
        }),
{
    assert(a.push(x).drop_last() =~= a);
}

} // verus!
