//! Whether a set of target levels can be reached within a number of weeks,
//! judged on the resource totals, and the least such number of weeks.
use vstd::prelude::*;
use vstd::arithmetic::mul::{lemma_mul_upper_bound, lemma_mul_inequality};
use vstd::arithmetic::div_mod::lemma_div_is_ordered;
use crate::models::{
    range_cost, lemma_range_cost_bounded, lemma_shop_index_roundtrip, CombatSkillInput,
    AdvancedSettings, PlannerInput, Shop, SkillLevel, PAGES_PER_UNIT, SHOP_COUNT,
};
use crate::income::{
    skill_income, skill_income_pages, lemma_periodic_total_bounded, lemma_periodic_total_monotone,
    HORIZON_WEEKS,
};

verus! {

/// The longest planning horizon the minimum-weeks search considers.
pub const MAX_WEEKS: u32 = 500;

/// Largest page total a single skill can hold within the horizon (a bound used for overflow).
pub open spec fn page_bound() -> int {
    0x1_0000_0000_0000
}

/// Bound on a sum over all skills.
pub open spec fn sum_bound() -> int {
    0x2_0000_0000_0000_0000_0000_0000_0000
}

/// Largest amount of one material a single skill can need.
pub open spec fn need_bound() -> int {
    0x8000
}

/// Material `f` that skill `s` needs to reach level `t`.
pub open spec fn skill_need(s: CombatSkillInput, t: SkillLevel, f: int) -> int {
    range_cost(s.current_level.index() as int, t.index() as int, f)
}

/// Pages skill `s` holds in all within `w` weeks: what it has plus its own income.
pub open spec fn skill_total_pages(s: CombatSkillInput, w: int) -> int {
    s.remaining_pages + skill_income(s, w)
}

/// Pages, within `w` weeks, of the first `k` skills that belong to `shop`.
pub open spec fn shop_pages_upto(skills: Seq<CombatSkillInput>, shop: Shop, w: int, k: int) -> int
    decreases k,
{
    if k <= 0 {
        0
    } else {
        shop_pages_upto(skills, shop, w, k - 1) + (if skills[k - 1].shop == shop {
            skill_total_pages(skills[k - 1], w)
        } else {
            0
        })
    }
}

/// Own pages needed by the first `k` skills that belong to `shop`.
pub open spec fn shop_self_upto(
    skills: Seq<CombatSkillInput>,
    t: Seq<SkillLevel>,
    shop: Shop,
    k: int,
) -> int
    decreases k,
{
    if k <= 0 {
        0
    } else {
        shop_self_upto(skills, t, shop, k - 1) + (if skills[k - 1].shop == shop {
            skill_need(skills[k - 1], t[k - 1], 0)
        } else {
            0
        })
    }
}

/// Material `f` needed by the first `k` skills together.
pub open spec fn need_upto(skills: Seq<CombatSkillInput>, t: Seq<SkillLevel>, f: int, k: int) -> int
    decreases k,
{
    if k <= 0 {
        0
    } else {
        need_upto(skills, t, f, k - 1) + skill_need(skills[k - 1], t[k - 1], f)
    }
}

/// Conversions a skill needs: its shortfall of own pages in batches, rounded up.
pub open spec fn conversions_for(s: CombatSkillInput, t: SkillLevel, w: int) -> int {
    let d = skill_need(s, t, 0) - skill_total_pages(s, w);
    if d > 0 {
        (d + 39) / 40
    } else {
        0
    }
}

/// Conversions the first `k` skills need.
pub open spec fn conversions_upto(
    skills: Seq<CombatSkillInput>,
    t: Seq<SkillLevel>,
    w: int,
    k: int,
) -> int
    decreases k,
{
    if k <= 0 {
        0
    } else {
        conversions_upto(skills, t, w, k - 1) + conversions_for(skills[k - 1], t[k - 1], w)
    }
}

pub open spec fn max0(x: int) -> int {
    if x > 0 {
        x
    } else {
        0
    }
}

/// What a shop holds within `w` weeks beyond its skills' own needs.
pub open spec fn shop_surplus(input: PlannerInput, t: Seq<SkillLevel>, shop: Shop, w: int) -> int {
    let skills = input.combat_skills@;
    let n = skills.len() as int;
    max0(
        shop_pages_upto(skills, shop, w, n) + input.advanced.spec_fodder_total(shop, w)
            - shop_self_upto(skills, t, shop, n),
    )
}

/// The surplus of the first `k` shops.
pub open spec fn surplus_upto(input: PlannerInput, t: Seq<SkillLevel>, w: int, k: int) -> int
    decreases k,
{
    if k <= 0 {
        0
    } else {
        surplus_upto(input, t, w, k - 1) + shop_surplus(input, t, Shop::spec_from_index(k - 1), w)
    }
}

/// The surplus of all shops.
pub open spec fn total_surplus(input: PlannerInput, t: Seq<SkillLevel>, w: int) -> int {
    surplus_upto(input, t, w, SHOP_COUNT as int)
}

/// Other pages (金色) skill `i` can draw on: the other shops' surplus, and its own shop's
/// surplus left once skill `i` is set aside (it cannot feed itself).
pub open spec fn gold_available_for(input: PlannerInput, t: Seq<SkillLevel>, w: int, i: int) -> int {
    let skills = input.combat_skills@;
    let n = skills.len() as int;
    let s = skills[i];
    let sh = s.shop;
    (total_surplus(input, t, w) - shop_surplus(input, t, sh, w)) + max0(
        shop_pages_upto(skills, sh, w, n) - skill_total_pages(s, w)
            + input.advanced.spec_fodder_total(sh, w) - (shop_self_upto(skills, t, sh, n)
            - skill_need(s, t[i], 0)),
    )
}

/// The targets `t` pass every resource check for a horizon of `w` weeks.
pub open spec fn feasible(input: PlannerInput, t: Seq<SkillLevel>, w: int) -> bool {
    let skills = input.combat_skills@;
    let n = skills.len() as int;
    let adv = input.advanced;
    &&& input.purple_pages + adv.weekly_purple_income * w >= need_upto(skills, t, 2, n)
    &&& input.blue_pages + adv.weekly_blue_income * w >= need_upto(skills, t, 3, n)
    &&& forall|shop: Shop|
        shop_pages_upto(skills, shop, w, n) + adv.spec_fodder_total(shop, w) >= #[trigger] shop_self_upto(
            skills,
            t,
            shop,
            n,
        )
    &&& conversions_upto(skills, t, w, n) <= adv.free_conversions_per_week * (w + 1)
        + adv.conversion_stones
    &&& total_surplus(input, t, w) >= need_upto(skills, t, 1, n)
    &&& forall|i: int|
        0 <= i < n && skills[i].current_level.index() < t[i].index() ==> #[trigger] gold_available_for(
            input,
            t,
            w,
            i,
        ) >= skill_need(skills[i], t[i], 1)
}

/// The targets the player gave.
pub open spec fn input_targets(input: PlannerInput) -> Seq<SkillLevel> {
    input.combat_skills@.map_values(|s: CombatSkillInput| s.target_level)
}

// --- bounds used to rule out overflow ---

proof fn lemma_skill_bounds(s: CombatSkillInput, t: SkillLevel, w: int, f: int)
    requires
        w <= HORIZON_WEEKS,
    ensures
        0 <= skill_total_pages(s, w) <= page_bound(),
        0 <= skill_need(s, t, f) <= need_bound(),
        0 <= conversions_for(s, t, w) <= need_bound(),
{
    lemma_periodic_total_bounded(
        s.income_cycle_weeks as int,
        s.income_batch_count * PAGES_PER_UNIT,
        w,
    );
    assert(s.income_batch_count * PAGES_PER_UNIT <= 0xffff_ffff * 40);
    lemma_range_cost_bounded(s.current_level.index() as int, t.index() as int, f);
    lemma_range_cost_bounded(s.current_level.index() as int, t.index() as int, 0);
}

/// The bounds on one skill's pages and needs within the horizon.
pub proof fn lemma_skill_amounts_bounded(s: CombatSkillInput, t: SkillLevel, w: int)
    requires
        w <= HORIZON_WEEKS,
    ensures
        0 <= skill_total_pages(s, w) <= page_bound(),
        forall|f: int| 0 <= #[trigger] skill_need(s, t, f) <= need_bound(),
{
    lemma_skill_bounds(s, t, w, 0);
    assert forall|f: int| 0 <= #[trigger] skill_need(s, t, f) <= need_bound() by {
        lemma_skill_bounds(s, t, w, f);
    }
}

proof fn lemma_shop_pages_upto_ge(skills: Seq<CombatSkillInput>, shop: Shop, w: int, k: int, i: int)
    requires
        0 <= i < k <= skills.len(),
        0 <= w <= HORIZON_WEEKS,
        skills[i].shop == shop,
    ensures
        shop_pages_upto(skills, shop, w, k) >= skill_total_pages(skills[i], w),
    decreases k,
{
    lemma_shop_pages_upto_nonneg(skills, shop, w, k - 1);
    lemma_skill_bounds(skills[k - 1], SkillLevel::Star1, w, 0);
    if i < k - 1 {
        lemma_shop_pages_upto_ge(skills, shop, w, k - 1, i);
    }
}

proof fn lemma_shop_pages_upto_nonneg(skills: Seq<CombatSkillInput>, shop: Shop, w: int, k: int)
    requires
        k <= skills.len(),
        w <= HORIZON_WEEKS,
    ensures
        shop_pages_upto(skills, shop, w, k) >= 0,
    decreases k,
{
    if k > 0 {
        lemma_shop_pages_upto_nonneg(skills, shop, w, k - 1);
        lemma_skill_bounds(skills[k - 1], SkillLevel::Star1, w, 0);
    }
}

proof fn lemma_shop_self_upto_ge(
    skills: Seq<CombatSkillInput>,
    t: Seq<SkillLevel>,
    shop: Shop,
    k: int,
    i: int,
)
    requires
        0 <= i < k <= skills.len(),
        skills[i].shop == shop,
    ensures
        shop_self_upto(skills, t, shop, k) >= skill_need(skills[i], t[i], 0),
    decreases k,
{
    lemma_shop_self_upto_nonneg(skills, t, shop, k - 1);
    lemma_skill_bounds(skills[k - 1], t[k - 1], 0, 0);
    if i < k - 1 {
        lemma_shop_self_upto_ge(skills, t, shop, k - 1, i);
    }
}

proof fn lemma_shop_self_upto_nonneg(skills: Seq<CombatSkillInput>, t: Seq<SkillLevel>, shop: Shop, k: int)
    requires
        k <= skills.len(),
    ensures
        shop_self_upto(skills, t, shop, k) >= 0,
    decreases k,
{
    if k > 0 {
        lemma_shop_self_upto_nonneg(skills, t, shop, k - 1);
        lemma_skill_bounds(skills[k - 1], t[k - 1], 0, 0);
    }
}

proof fn lemma_surplus_upto_ge(input: PlannerInput, t: Seq<SkillLevel>, w: int, k: int, j: int)
    requires
        0 <= j < k,
    ensures
        surplus_upto(input, t, w, k) >= shop_surplus(input, t, Shop::spec_from_index(j), w),
        surplus_upto(input, t, w, k) >= 0,
    decreases k,
{
    lemma_surplus_upto_nonneg(input, t, w, k - 1);
    if j < k - 1 {
        lemma_surplus_upto_ge(input, t, w, k - 1, j);
    }
}

proof fn lemma_surplus_upto_nonneg(input: PlannerInput, t: Seq<SkillLevel>, w: int, k: int)
    ensures
        surplus_upto(input, t, w, k) >= 0,
    decreases k,
{
    if k > 0 {
        lemma_surplus_upto_nonneg(input, t, w, k - 1);
    }
}

/// Runs every resource check on `targets` for a horizon of `weeks` weeks.
pub fn check_feasibility(input: &PlannerInput, targets: &Vec<SkillLevel>, weeks: u32) -> (r: bool)
    requires
        targets.len() == input.combat_skills.len(),
        weeks <= HORIZON_WEEKS,
    ensures
        r == feasible(*input, targets@, weeks as int),
{
    let adv = &input.advanced;
    let n = input.combat_skills.len();
    let ghost skills = input.combat_skills@;
    let ghost t = targets@;
    let ghost w = weeks as int;

    // Per-skill totals and per-shop sums
    let mut total_pages: Vec<u128> = Vec::new();
    let mut self_needed: Vec<u128> = Vec::new();
    let mut total_other: u128 = 0;
    let mut total_purple: u128 = 0;
    let mut total_blue: u128 = 0;
    let mut shop_pages_sum: Vec<u128> = vec![0, 0, 0, 0, 0];
    let mut shop_self_sum: Vec<u128> = vec![0, 0, 0, 0, 0];

    let mut i: usize = 0;
    while i < n
        invariant
            n == skills.len(),
            skills == input.combat_skills@,
            t == targets@,
            t.len() == n,
            w == weeks,
            weeks <= HORIZON_WEEKS,
            i <= n,
            total_pages@.len() == i,
            self_needed@.len() == i,
            shop_pages_sum@.len() == SHOP_COUNT,
            shop_self_sum@.len() == SHOP_COUNT,
            forall|j: int| 0 <= j < i ==> #[trigger] total_pages@[j] == skill_total_pages(skills[j], w),
            forall|j: int| 0 <= j < i ==> #[trigger] self_needed@[j] == skill_need(skills[j], t[j], 0),
            total_other == need_upto(skills, t, 1, i as int),
            total_purple == need_upto(skills, t, 2, i as int),
            total_blue == need_upto(skills, t, 3, i as int),
            total_other <= need_bound() * i,
            total_purple <= need_bound() * i,
            total_blue <= need_bound() * i,
            forall|k: int|
                0 <= k < SHOP_COUNT ==> #[trigger] shop_pages_sum@[k] == shop_pages_upto(
                    skills,
                    Shop::spec_from_index(k),
                    w,
                    i as int,
                ) && shop_pages_sum@[k] <= page_bound() * i,
            forall|k: int|
                0 <= k < SHOP_COUNT ==> #[trigger] shop_self_sum@[k] == shop_self_upto(
                    skills,
                    t,
                    Shop::spec_from_index(k),
                    i as int,
                ) && shop_self_sum@[k] <= need_bound() * i,
        decreases n - i,
    {
        let s = &input.combat_skills[i];
        let tgt = targets[i];
        proof {
            lemma_skill_bounds(*s, tgt, w, 0);
            lemma_skill_bounds(*s, tgt, w, 1);
            lemma_skill_bounds(*s, tgt, w, 2);
            lemma_skill_bounds(*s, tgt, w, 3);
        }
        let tp = s.remaining_pages as u128 + skill_income_pages(s, weeks) as u128;
        let cost = crate::models::total_cost_between(s.current_level, tgt);
        total_pages.push(tp);
        self_needed.push(cost.self_pages as u128);
        total_other = total_other + cost.other_pages as u128;
        total_purple = total_purple + cost.purple_pages as u128;
        total_blue = total_blue + cost.blue_pages as u128;
        let si = s.shop.index();
        let old_pages = shop_pages_sum[si];
        let old_self = shop_self_sum[si];
        shop_pages_sum.set(si, old_pages + tp);
        shop_self_sum.set(si, old_self + cost.self_pages as u128);
        proof {
            lemma_shop_index_roundtrip(s.shop);
            assert forall|k: int| 0 <= k < SHOP_COUNT implies #[trigger] shop_pages_sum@[k]
                == shop_pages_upto(skills, Shop::spec_from_index(k), w, i + 1) && shop_pages_sum@[k]
                <= page_bound() * (i + 1) by {
                if k != si as int {
                    assert(Shop::spec_from_index(k).index() == k);
                }
            }
            assert forall|k: int| 0 <= k < SHOP_COUNT implies #[trigger] shop_self_sum@[k]
                == shop_self_upto(skills, t, Shop::spec_from_index(k), i + 1) && shop_self_sum@[k]
                <= need_bound() * (i + 1) by {
                if k != si as int {
                    assert(Shop::spec_from_index(k).index() == k);
                }
            }
        }
        i = i + 1;
    }

    // Purple/blue check
    proof {
        lemma_mul_upper_bound(adv.weekly_purple_income as int, 0xffff_ffff, weeks as int, HORIZON_WEEKS as int);
        lemma_mul_upper_bound(adv.weekly_blue_income as int, 0xffff_ffff, weeks as int, HORIZON_WEEKS as int);
    }
    let avail_purple = input.purple_pages as u128 + (adv.weekly_purple_income as u128) * (weeks as u128);
    let avail_blue = input.blue_pages as u128 + (adv.weekly_blue_income as u128) * (weeks as u128);
    if avail_purple < total_purple || avail_blue < total_blue {
        return false;
    }

    // Fodder pool per shop over the horizon
    let mut fodder_pool: Vec<u128> = Vec::new();
    let mut k: usize = 0;
    while k < SHOP_COUNT
        invariant
            k <= SHOP_COUNT,
            weeks <= HORIZON_WEEKS,
            adv == input.advanced,
            fodder_pool@.len() == k,
            forall|j: int|
                0 <= j < k ==> #[trigger] fodder_pool@[j] == adv.spec_fodder_total(
                    Shop::spec_from_index(j),
                    weeks as int,
                ),
        decreases SHOP_COUNT - k,
    {
        let shop = Shop::from_index(k);
        fodder_pool.push(adv.fodder_total_pages(shop, weeks) as u128);
        k = k + 1;
    }
    proof {
        assert forall|j: int| 0 <= j < SHOP_COUNT implies #[trigger] fodder_pool@[j] <= page_bound() by {
            let shop = Shop::spec_from_index(j);
            lemma_periodic_total_bounded(
                adv.shop_cycle(shop) as int,
                adv.weekly_shop_income.get(shop) as int,
                w,
            );
        }
    }

    // Per shop: skill pages and fodder pool together must cover the own pages needed
    let mut k: usize = 0;
    while k < SHOP_COUNT
        invariant
            k <= SHOP_COUNT,
            n == skills.len(),
            skills == input.combat_skills@,
            t == targets@,
            t.len() == n,
            w == weeks,
            adv == input.advanced,
            shop_pages_sum@.len() == SHOP_COUNT,
            shop_self_sum@.len() == SHOP_COUNT,
            fodder_pool@.len() == SHOP_COUNT,
            forall|j: int| 0 <= j < SHOP_COUNT ==> #[trigger] fodder_pool@[j] <= page_bound(),
            forall|j: int|
                0 <= j < SHOP_COUNT ==> #[trigger] fodder_pool@[j] == adv.spec_fodder_total(
                    Shop::spec_from_index(j),
                    w,
                ),
            forall|j: int|
                0 <= j < SHOP_COUNT ==> #[trigger] shop_pages_sum@[j] == shop_pages_upto(
                    skills,
                    Shop::spec_from_index(j),
                    w,
                    n as int,
                ) && shop_pages_sum@[j] <= page_bound() * n,
            forall|j: int|
                0 <= j < SHOP_COUNT ==> #[trigger] shop_self_sum@[j] == shop_self_upto(
                    skills,
                    t,
                    Shop::spec_from_index(j),
                    n as int,
                ),
            forall|j: int|
                0 <= j < k ==> shop_pages_upto(skills, Shop::spec_from_index(j), w, n as int)
                    + adv.spec_fodder_total(Shop::spec_from_index(j), w) >= #[trigger] shop_self_upto(
                    skills,
                    t,
                    Shop::spec_from_index(j),
                    n as int,
                ),
        decreases SHOP_COUNT - k,
    {
        if shop_pages_sum[k] + fodder_pool[k] < shop_self_sum[k] {
            return false;
        }
        k = k + 1;
    }
    proof {
        assert forall|shop: Shop|
            shop_pages_upto(skills, shop, w, n as int) + adv.spec_fodder_total(shop, w)
                >= #[trigger] shop_self_upto(skills, t, shop, n as int) by {
            lemma_shop_index_roundtrip(shop);
            let j = shop.index() as int;
            assert(shop_pages_upto(skills, Shop::spec_from_index(j), w, n as int)
                + adv.spec_fodder_total(Shop::spec_from_index(j), w) >= shop_self_upto(
                skills,
                t,
                Shop::spec_from_index(j),
                n as int,
            ));
        }
    }

    // Conversion capacity: shortfalls not covered by a skill's own pages need conversions
    let mut total_conversions_needed: u128 = 0;
    let mut i: usize = 0;
    while i < n
        invariant
            i <= n,
            n == skills.len(),
            skills == input.combat_skills@,
            t == targets@,
            t.len() == n,
            w == weeks,
            weeks <= HORIZON_WEEKS,
            total_pages@.len() == n,
            self_needed@.len() == n,
            forall|j: int| 0 <= j < n ==> #[trigger] total_pages@[j] == skill_total_pages(skills[j], w),
            forall|j: int| 0 <= j < n ==> #[trigger] self_needed@[j] == skill_need(skills[j], t[j], 0),
            total_conversions_needed == conversions_upto(skills, t, w, i as int),
            total_conversions_needed <= need_bound() * i,
        decreases n - i,
    {
        proof {
            lemma_skill_bounds(skills[i as int], t[i as int], w, 0);
        }
        if total_pages[i] < self_needed[i] {
            let deficit = self_needed[i] - total_pages[i];
            total_conversions_needed = total_conversions_needed + (deficit + 39) / 40;
        }
        i = i + 1;
    }
    proof {
        lemma_mul_upper_bound(
            adv.free_conversions_per_week as int,
            0xffff_ffff,
            weeks as int + 1,
            HORIZON_WEEKS as int + 1,
        );
    }
    // weeks + 1 batches of free conversions: week 0 and each of weeks 1..=weeks
    let conv_capacity = (adv.free_conversions_per_week as u128) * (weeks as u128 + 1)
        + adv.conversion_stones as u128;
    if total_conversions_needed > conv_capacity {
        return false;
    }

    // Per-shop surplus and total surplus
    let mut shop_surplus_v: Vec<u128> = Vec::new();
    let mut total_surplus_v: u128 = 0;
    let mut k: usize = 0;
    while k < SHOP_COUNT
        invariant
            k <= SHOP_COUNT,
            n == skills.len(),
            skills == input.combat_skills@,
            t == targets@,
            t.len() == n,
            w == weeks,
            adv == input.advanced,
            shop_pages_sum@.len() == SHOP_COUNT,
            shop_self_sum@.len() == SHOP_COUNT,
            fodder_pool@.len() == SHOP_COUNT,
            forall|j: int| 0 <= j < SHOP_COUNT ==> #[trigger] fodder_pool@[j] <= page_bound(),
            forall|j: int|
                0 <= j < SHOP_COUNT ==> #[trigger] fodder_pool@[j] == adv.spec_fodder_total(
                    Shop::spec_from_index(j),
                    w,
                ),
            forall|j: int|
                0 <= j < SHOP_COUNT ==> #[trigger] shop_pages_sum@[j] == shop_pages_upto(
                    skills,
                    Shop::spec_from_index(j),
                    w,
                    n as int,
                ) && shop_pages_sum@[j] <= page_bound() * n,
            forall|j: int|
                0 <= j < SHOP_COUNT ==> #[trigger] shop_self_sum@[j] == shop_self_upto(
                    skills,
                    t,
                    Shop::spec_from_index(j),
                    n as int,
                ),
            shop_surplus_v@.len() == k,
            forall|j: int|
                0 <= j < k ==> #[trigger] shop_surplus_v@[j] == shop_surplus(
                    *input,
                    t,
                    Shop::spec_from_index(j),
                    w,
                ) && shop_surplus_v@[j] <= sum_bound(),
            total_surplus_v == surplus_upto(*input, t, w, k as int),
            total_surplus_v <= sum_bound() * k,
        decreases SHOP_COUNT - k,
    {
        let a = shop_pages_sum[k] + fodder_pool[k];
        let b = shop_self_sum[k];
        let sur = if a > b {
            a - b
        } else {
            0
        };
        shop_surplus_v.push(sur);
        total_surplus_v = total_surplus_v + sur;
        k = k + 1;
    }
    if total_surplus_v < total_other {
        return false;
    }

    // Per-skill 金色 check: a skill cannot use its own surplus as its own other pages
    let mut i: usize = 0;
    while i < n
        invariant
            i <= n,
            n == skills.len(),
            skills == input.combat_skills@,
            t == targets@,
            t.len() == n,
            w == weeks,
            weeks <= HORIZON_WEEKS,
            adv == input.advanced,
            total_pages@.len() == n,
            self_needed@.len() == n,
            forall|j: int| 0 <= j < n ==> #[trigger] total_pages@[j] == skill_total_pages(skills[j], w),
            forall|j: int| 0 <= j < n ==> #[trigger] self_needed@[j] == skill_need(skills[j], t[j], 0),
            shop_pages_sum@.len() == SHOP_COUNT,
            shop_self_sum@.len() == SHOP_COUNT,
            fodder_pool@.len() == SHOP_COUNT,
            forall|j: int| 0 <= j < SHOP_COUNT ==> #[trigger] fodder_pool@[j] <= page_bound(),
            forall|j: int|
                0 <= j < SHOP_COUNT ==> #[trigger] fodder_pool@[j] == adv.spec_fodder_total(
                    Shop::spec_from_index(j),
                    w,
                ),
            forall|j: int|
                0 <= j < SHOP_COUNT ==> #[trigger] shop_pages_sum@[j] == shop_pages_upto(
                    skills,
                    Shop::spec_from_index(j),
                    w,
                    n as int,
                ) && shop_pages_sum@[j] <= page_bound() * n,
            forall|j: int|
                0 <= j < SHOP_COUNT ==> #[trigger] shop_self_sum@[j] == shop_self_upto(
                    skills,
                    t,
                    Shop::spec_from_index(j),
                    n as int,
                ),
            shop_surplus_v@.len() == SHOP_COUNT,
            forall|j: int|
                0 <= j < SHOP_COUNT ==> #[trigger] shop_surplus_v@[j] == shop_surplus(
                    *input,
                    t,
                    Shop::spec_from_index(j),
                    w,
                ),
            total_surplus_v == total_surplus(*input, t, w),
            total_surplus_v <= sum_bound() * SHOP_COUNT,
            forall|j: int|
                0 <= j < i && skills[j].current_level.index() < t[j].index()
                    ==> #[trigger] gold_available_for(*input, t, w, j) >= skill_need(skills[j], t[j], 1),
        decreases n - i,
    {
        let s = &input.combat_skills[i];
        let tgt = targets[i];
        if s.current_level.index() < tgt.index() {
            let cost = crate::models::total_cost_between(s.current_level, tgt);
            let si = s.shop.index();
            proof {
                lemma_shop_index_roundtrip(s.shop);
                lemma_shop_pages_upto_ge(skills, s.shop, w, n as int, i as int);
                lemma_shop_self_upto_ge(skills, t, s.shop, n as int, i as int);
                lemma_surplus_upto_ge(*input, t, w, SHOP_COUNT as int, si as int);
            }
            let a = shop_pages_sum[si] - total_pages[i] + fodder_pool[si];
            let b = shop_self_sum[si] - self_needed[i];
            let shop_surplus_without_i = if a > b {
                a - b
            } else {
                0
            };
            let available_for_i = (total_surplus_v - shop_surplus_v[si]) + shop_surplus_without_i;
            if available_for_i < cost.other_pages as u128 {
                proof {
                    assert(Shop::spec_from_index(si as int) == s.shop);
                    assert(available_for_i == gold_available_for(*input, t, w, i as int));
                    assert(gold_available_for(*input, t, w, i as int) < skill_need(skills[i as int], t[i as int], 1));
                }
                return false;
            }
            proof {
                assert(Shop::spec_from_index(si as int) == s.shop);
                assert(available_for_i == gold_available_for(*input, t, w, i as int));
            }
        }
        i = i + 1;
    }
    true
}


// --- monotonicity in the number of weeks ---

/// Pages of the first `k` skills of `shop`, skill `i` left out.
pub open spec fn shop_pages_excl(skills: Seq<CombatSkillInput>, shop: Shop, w: int, k: int, i: int) -> int
    decreases k,
{
    if k <= 0 {
        0
    } else {
        shop_pages_excl(skills, shop, w, k - 1, i) + (if skills[k - 1].shop == shop && k - 1 != i {
            skill_total_pages(skills[k - 1], w)
        } else {
            0
        })
    }
}

proof fn lemma_shop_pages_excl_split(skills: Seq<CombatSkillInput>, shop: Shop, w: int, k: int, i: int)
    ensures
        shop_pages_upto(skills, shop, w, k) == shop_pages_excl(skills, shop, w, k, i) + (if 0 <= i < k
            && skills[i].shop == shop {
            skill_total_pages(skills[i], w)
        } else {
            0
        }),
    decreases k,
{
    if k > 0 {
        lemma_shop_pages_excl_split(skills, shop, w, k - 1, i);
    }
}

proof fn lemma_skill_total_pages_monotone(s: CombatSkillInput, w1: int, w2: int)
    requires
        w1 <= w2,
    ensures
        0 <= skill_total_pages(s, w1) <= skill_total_pages(s, w2),
{
    lemma_periodic_total_monotone(
        s.income_cycle_weeks as int,
        s.income_batch_count * PAGES_PER_UNIT,
        w1,
        w2,
    );
}

proof fn lemma_shop_pages_excl_monotone(
    skills: Seq<CombatSkillInput>,
    shop: Shop,
    w1: int,
    w2: int,
    k: int,
    i: int,
)
    requires
        w1 <= w2,
    ensures
        0 <= shop_pages_excl(skills, shop, w1, k, i) <= shop_pages_excl(skills, shop, w2, k, i),
    decreases k,
{
    if k > 0 {
        lemma_shop_pages_excl_monotone(skills, shop, w1, w2, k - 1, i);
        lemma_skill_total_pages_monotone(skills[k - 1], w1, w2);
    }
}

proof fn lemma_fodder_total_monotone(input: PlannerInput, shop: Shop, w1: int, w2: int)
    requires
        w1 <= w2,
    ensures
        0 <= input.advanced.spec_fodder_total(shop, w1) <= input.advanced.spec_fodder_total(shop, w2),
{
    lemma_periodic_total_monotone(
        input.advanced.shop_cycle(shop) as int,
        input.advanced.weekly_shop_income.get(shop) as int,
        w1,
        w2,
    );
}

proof fn lemma_shop_pages_monotone(input: PlannerInput, shop: Shop, w1: int, w2: int)
    requires
        w1 <= w2,
    ensures
        0 <= shop_pages_upto(input.combat_skills@, shop, w1, input.combat_skills@.len() as int)
            <= shop_pages_upto(input.combat_skills@, shop, w2, input.combat_skills@.len() as int),
{
    let skills = input.combat_skills@;
    let n = skills.len() as int;
    lemma_shop_pages_excl_split(skills, shop, w1, n, -1);
    lemma_shop_pages_excl_split(skills, shop, w2, n, -1);
    lemma_shop_pages_excl_monotone(skills, shop, w1, w2, n, -1);
}

proof fn lemma_shop_surplus_monotone(input: PlannerInput, t: Seq<SkillLevel>, shop: Shop, w1: int, w2: int)
    requires
        w1 <= w2,
    ensures
        0 <= shop_surplus(input, t, shop, w1) <= shop_surplus(input, t, shop, w2),
{
    lemma_shop_pages_monotone(input, shop, w1, w2);
    lemma_fodder_total_monotone(input, shop, w1, w2);
}

/// The surplus of the first `k` shops, shop `sh` left out.
pub open spec fn surplus_excl(input: PlannerInput, t: Seq<SkillLevel>, w: int, k: int, sh: Shop) -> int
    decreases k,
{
    if k <= 0 {
        0
    } else {
        surplus_excl(input, t, w, k - 1, sh) + (if Shop::spec_from_index(k - 1) != sh {
            shop_surplus(input, t, Shop::spec_from_index(k - 1), w)
        } else {
            0
        })
    }
}

proof fn lemma_surplus_excl_split(input: PlannerInput, t: Seq<SkillLevel>, w: int, k: int, sh: Shop)
    requires
        0 <= k <= SHOP_COUNT,
    ensures
        surplus_upto(input, t, w, k) == surplus_excl(input, t, w, k, sh) + (if sh.index() < k {
            shop_surplus(input, t, sh, w)
        } else {
            0
        }),
    decreases k,
{
    lemma_shop_index_roundtrip(sh);
    if k > 0 {
        lemma_surplus_excl_split(input, t, w, k - 1, sh);
        assert(Shop::spec_from_index(k - 1).index() == k - 1);
    }
}

proof fn lemma_surplus_excl_monotone(
    input: PlannerInput,
    t: Seq<SkillLevel>,
    w1: int,
    w2: int,
    k: int,
    sh: Shop,
)
    requires
        w1 <= w2,
    ensures
        0 <= surplus_excl(input, t, w1, k, sh) <= surplus_excl(input, t, w2, k, sh),
    decreases k,
{
    if k > 0 {
        lemma_surplus_excl_monotone(input, t, w1, w2, k - 1, sh);
        lemma_shop_surplus_monotone(input, t, Shop::spec_from_index(k - 1), w1, w2);
    }
}

proof fn lemma_conversions_antitone(
    skills: Seq<CombatSkillInput>,
    t: Seq<SkillLevel>,
    w1: int,
    w2: int,
    k: int,
)
    requires
        w1 <= w2,
    ensures
        conversions_upto(skills, t, w2, k) <= conversions_upto(skills, t, w1, k),
    decreases k,
{
    if k > 0 {
        lemma_conversions_antitone(skills, t, w1, w2, k - 1);
        let s = skills[k - 1];
        lemma_skill_total_pages_monotone(s, w1, w2);
        let d1 = skill_need(s, t[k - 1], 0) - skill_total_pages(s, w1);
        let d2 = skill_need(s, t[k - 1], 0) - skill_total_pages(s, w2);
        if d2 > 0 {
            lemma_div_is_ordered(d2 + 39, d1 + 39, 40);
        }
    }
}

/// More weeks never hurt: targets that meet the resource conditions for `w1` weeks meet them for any
/// longer horizon. (This is what makes the binary search for the least number of weeks exact.)
pub proof fn lemma_feasible_monotone(input: PlannerInput, t: Seq<SkillLevel>, w1: int, w2: int)
    requires
        0 <= w1 <= w2,
        feasible(input, t, w1),
    ensures
        feasible(input, t, w2),
{
    let skills = input.combat_skills@;
    let n = skills.len() as int;
    let adv = input.advanced;
    lemma_mul_inequality(w1, w2, adv.weekly_purple_income as int);
    lemma_mul_inequality(w1, w2, adv.weekly_blue_income as int);
    assert(adv.weekly_purple_income * w1 <= adv.weekly_purple_income * w2) by (nonlinear_arith)
        requires
            w1 <= w2,
    ;
    assert(adv.weekly_blue_income * w1 <= adv.weekly_blue_income * w2) by (nonlinear_arith)
        requires
            w1 <= w2,
    ;
    assert(adv.free_conversions_per_week * (w1 + 1) <= adv.free_conversions_per_week * (w2 + 1))
        by (nonlinear_arith)
        requires
            w1 <= w2,
    ;
    assert forall|shop: Shop|
        shop_pages_upto(skills, shop, w2, n) + adv.spec_fodder_total(shop, w2)
            >= #[trigger] shop_self_upto(skills, t, shop, n) by {
        assert(shop_pages_upto(skills, shop, w1, n) + adv.spec_fodder_total(shop, w1)
            >= shop_self_upto(skills, t, shop, n));
        lemma_shop_pages_monotone(input, shop, w1, w2);
        lemma_fodder_total_monotone(input, shop, w1, w2);
    }
    lemma_conversions_antitone(skills, t, w1, w2, n);
    assert(total_surplus(input, t, w1) <= total_surplus(input, t, w2)) by {
        lemma_surplus_excl_split(input, t, w1, SHOP_COUNT as int, Shop::LunJian);
        lemma_surplus_excl_split(input, t, w2, SHOP_COUNT as int, Shop::LunJian);
        lemma_surplus_excl_monotone(input, t, w1, w2, SHOP_COUNT as int, Shop::LunJian);
        lemma_shop_surplus_monotone(input, t, Shop::LunJian, w1, w2);
    }
    assert forall|i: int|
        0 <= i < n && skills[i].current_level.index() < t[i].index() implies #[trigger] gold_available_for(
        input,
        t,
        w2,
        i,
    ) >= skill_need(skills[i], t[i], 1) by {
        assert(gold_available_for(input, t, w1, i) >= skill_need(skills[i], t[i], 1));
        let sh = skills[i].shop;
        lemma_surplus_excl_split(input, t, w1, SHOP_COUNT as int, sh);
        lemma_surplus_excl_split(input, t, w2, SHOP_COUNT as int, sh);
        lemma_surplus_excl_monotone(input, t, w1, w2, SHOP_COUNT as int, sh);
        lemma_shop_index_roundtrip(sh);
        lemma_shop_pages_excl_split(skills, sh, w1, n, i);
        lemma_shop_pages_excl_split(skills, sh, w2, n, i);
        lemma_shop_pages_excl_monotone(skills, sh, w1, w2, n, i);
        lemma_fodder_total_monotone(input, sh, w1, w2);
    }
}

/// The targets the player gave, one per skill.
pub fn input_target_levels(input: &PlannerInput) -> (t: Vec<SkillLevel>)
    ensures
        t@ == input_targets(*input),
        t.len() == input.combat_skills.len(),
{
    let n = input.combat_skills.len();
    let mut t: Vec<SkillLevel> = Vec::new();
    let mut i: usize = 0;
    while i < n
        invariant
            i <= n,
            n == input.combat_skills.len(),
            t@ == input_targets(*input).take(i as int),
        decreases n - i,
    {
        t.push(input.combat_skills[i].target_level);
        i = i + 1;
        proof {
            assert(t@ =~= input_targets(*input).take(i as int));
        }
    }
    proof {
        assert(input_targets(*input).take(n as int) =~= input_targets(*input));
    }
    t
}

/// The least number of weeks, up to `MAX_WEEKS`, within which the player's targets pass
/// every resource check; `None` when even `MAX_WEEKS` weeks are not enough.
pub fn find_minimum_weeks(input: &PlannerInput) -> (r: Option<u32>)
    ensures
        r matches Some(w) ==> {
            &&& w <= MAX_WEEKS
            &&& feasible(*input, input_targets(*input), w as int)
            &&& forall|v: int| 0 <= v < w ==> !feasible(*input, input_targets(*input), v)
        },
        r is None <==> !feasible(*input, input_targets(*input), MAX_WEEKS as int),
        r is None ==> forall|v: int|
            0 <= v <= MAX_WEEKS ==> !#[trigger] feasible(*input, input_targets(*input), v),
{
    let targets = input_target_levels(input);
    let ghost t = targets@;
    if check_feasibility(input, &targets, 0) {
        proof {
            lemma_feasible_monotone(*input, t, 0, MAX_WEEKS as int);
        }
        return Some(0);
    }
    if !check_feasibility(input, &targets, MAX_WEEKS) {
        proof {
            assert forall|v: int| 0 <= v <= MAX_WEEKS implies !#[trigger] feasible(*input, t, v) by {
                if feasible(*input, t, v) {
                    lemma_feasible_monotone(*input, t, v, MAX_WEEKS as int);
                }
            }
        }
        return None;
    }
    let mut lo: u32 = 0;
    let mut hi: u32 = MAX_WEEKS;
    while lo < hi
        invariant
            lo <= hi <= MAX_WEEKS,
            t == targets@,
            targets.len() == input.combat_skills.len(),
            feasible(*input, t, hi as int),
            forall|v: int| 0 <= v < lo ==> !#[trigger] feasible(*input, t, v),
        decreases hi - lo,
    {
        let mid = (lo + hi) / 2;
        proof {
            lemma_feasible_monotone(*input, t, hi as int, MAX_WEEKS as int);
        }
        if check_feasibility(input, &targets, mid) {
            hi = mid;
        } else {
            proof {
                assert forall|v: int| 0 <= v < mid + 1 implies !#[trigger] feasible(*input, t, v) by {
                    if feasible(*input, t, v) {
                        lemma_feasible_monotone(*input, t, v, mid as int);
                    }
                }
            }
            lo = mid + 1;
        }
    }
    Some(lo)
}

// --- laws of the resource checks ---

/// Pages, within `w` weeks, of the first `k` skills, whatever their shop.
pub open spec fn pages_of_all(skills: Seq<CombatSkillInput>, w: int, k: int) -> int
    decreases k,
{
    if k <= 0 {
        0
    } else {
        pages_of_all(skills, w, k - 1) + skill_total_pages(skills[k - 1], w)
    }
}

/// Pages all five fodder pools hold within `w` weeks.
pub open spec fn fodder_of_all(adv: AdvancedSettings, w: int) -> int {
    adv.spec_fodder_total(Shop::LunJian, w) + adv.spec_fodder_total(Shop::ZhuTian, w) + adv.spec_fodder_total(
        Shop::ZongMen,
        w,
    ) + adv.spec_fodder_total(Shop::DaoYun, w) + adv.spec_fodder_total(Shop::BaiZu, w)
}

/// A shop's pages and pool within `w` weeks beyond what its skills need of their own pages
/// for targets `t`, and never below zero.
pub open spec fn shop_spare(input: PlannerInput, t: Seq<SkillLevel>, shop: Shop, w: int) -> int {
    let skills = input.combat_skills@;
    let n = skills.len() as int;
    let x = shop_pages_upto(skills, shop, w, n) + input.advanced.spec_fodder_total(shop, w) - shop_self_upto(
        skills,
        t,
        shop,
        n,
    );
    if x > 0 {
        x
    } else {
        0
    }
}

/// The spare pages of all five shops.
pub open spec fn spare_of_all(input: PlannerInput, t: Seq<SkillLevel>, w: int) -> int {
    shop_spare(input, t, Shop::LunJian, w) + shop_spare(input, t, Shop::ZhuTian, w) + shop_spare(
        input,
        t,
        Shop::ZongMen,
        w,
    ) + shop_spare(input, t, Shop::DaoYun, w) + shop_spare(input, t, Shop::BaiZu, w)
}

/// Targets that pass the resource checks need in all no more other pages (金色) than all
/// shops together hold beyond their own skills' own-page needs.
pub proof fn lemma_feasible_other_pages_within_spare(input: PlannerInput, t: Seq<SkillLevel>, w: int)
    requires
        feasible(input, t, w),
    ensures
        need_upto(input.combat_skills@, t, 1, input.combat_skills@.len() as int) <= spare_of_all(input, t, w),
{
    reveal_with_fuel(surplus_upto, 6);
}

/// Targets that pass the resource checks give every skill below its target the other pages it
/// needs out of the other shops' spare pages plus what its own shop holds beyond its other
/// skills' own needs, the skill's own pages and needs left out: a skill never feeds itself.
pub proof fn lemma_feasible_other_pages_from_others(input: PlannerInput, t: Seq<SkillLevel>, w: int, i: int)
    requires
        feasible(input, t, w),
        0 <= i < input.combat_skills@.len(),
        input.combat_skills@[i].current_level.index() < t[i].index(),
    ensures
        ({
            let skills = input.combat_skills@;
            let n = skills.len() as int;
            let s = skills[i];
            let sh = s.shop;
            let own_shop_rest = shop_pages_upto(skills, sh, w, n) - skill_total_pages(s, w)
                + input.advanced.spec_fodder_total(sh, w) - (shop_self_upto(skills, t, sh, n) - skill_need(s, t[i], 0));
            skill_need(s, t[i], 1) <= spare_of_all(input, t, w) - shop_spare(input, t, sh, w) + (if own_shop_rest > 0 {
                own_shop_rest
            } else {
                0
            })
        }),
{
    reveal_with_fuel(surplus_upto, 6);
    assert(gold_available_for(input, t, w, i) >= skill_need(input.combat_skills@[i], t[i], 1));
}

proof fn lemma_skill_pages_nonneg(s: CombatSkillInput, w: int)
    requires
        w >= 0,
    ensures
        skill_total_pages(s, w) >= 0,
{
    lemma_periodic_total_monotone(s.income_cycle_weeks as int, s.income_batch_count * PAGES_PER_UNIT, 0, w);
}

proof fn lemma_fodder_nonneg(adv: AdvancedSettings, shop: Shop, w: int)
    requires
        w >= 0,
    ensures
        adv.spec_fodder_total(shop, w) >= 0,
{
    lemma_periodic_total_monotone(adv.shop_cycle(shop) as int, adv.weekly_shop_income.get(shop) as int, 0, w);
}

proof fn lemma_pages_by_shop(skills: Seq<CombatSkillInput>, w: int, k: int)
    requires
        0 <= k <= skills.len(),
        w >= 0,
    ensures
        shop_pages_upto(skills, Shop::LunJian, w, k) + shop_pages_upto(skills, Shop::ZhuTian, w, k)
            + shop_pages_upto(skills, Shop::ZongMen, w, k) + shop_pages_upto(skills, Shop::DaoYun, w, k)
            + shop_pages_upto(skills, Shop::BaiZu, w, k) == pages_of_all(skills, w, k),
        forall|shop: Shop| #[trigger] shop_pages_upto(skills, shop, w, k) >= 0,
    decreases k,
{
    if k > 0 {
        lemma_pages_by_shop(skills, w, k - 1);
        lemma_skill_pages_nonneg(skills[k - 1], w);
    }
}

proof fn lemma_shop_pages_contains(skills: Seq<CombatSkillInput>, shop: Shop, w: int, k: int, i: int)
    requires
        0 <= i < k <= skills.len(),
        w >= 0,
        skills[i].shop == shop,
    ensures
        shop_pages_upto(skills, shop, w, k) >= skill_total_pages(skills[i], w),
    decreases k,
{
    lemma_pages_by_shop(skills, w, k - 1);
    lemma_skill_pages_nonneg(skills[k - 1], w);
    if i < k - 1 {
        lemma_shop_pages_contains(skills, shop, w, k - 1, i);
    }
}

/// A skill never supplies its own other pages: what it needs of them is covered by the pages
/// of all the other skills and the fodder pools within the horizon. In particular a skill whose
/// only pages are its own never passes the checks when its target needs other pages.
pub proof fn lemma_feasible_other_pages_not_own(input: PlannerInput, t: Seq<SkillLevel>, w: int, i: int)
    requires
        feasible(input, t, w),
        w >= 0,
        0 <= i < input.combat_skills@.len(),
        input.combat_skills@[i].current_level.index() < t[i].index(),
    ensures
        skill_need(input.combat_skills@[i], t[i], 1) <= pages_of_all(
            input.combat_skills@,
            w,
            input.combat_skills@.len() as int,
        ) - skill_total_pages(input.combat_skills@[i], w) + fodder_of_all(input.advanced, w),
{
    let skills = input.combat_skills@;
    let n = skills.len() as int;
    let adv = input.advanced;
    lemma_feasible_other_pages_from_others(input, t, w, i);
    lemma_pages_by_shop(skills, w, n);
    lemma_shop_pages_contains(skills, skills[i].shop, w, n, i);
    lemma_shop_self_upto_ge(skills, t, skills[i].shop, n, i);
    assert forall|shop: Shop| #[trigger] shop_self_upto(skills, t, shop, n) >= 0 by {
        lemma_shop_self_upto_nonneg(skills, t, shop, n);
    }
    assert forall|shop: Shop| #[trigger] adv.spec_fodder_total(shop, w) >= 0 by {
        lemma_fodder_nonneg(adv, shop, w);
    }
    assert forall|shop: Shop| #[trigger] shop_spare(input, t, shop, w) <= shop_pages_upto(skills, shop, w, n)
        + adv.spec_fodder_total(shop, w) by {
        assert(shop_self_upto(skills, t, shop, n) >= 0);
        assert(shop_pages_upto(skills, shop, w, n) >= 0);
        assert(adv.spec_fodder_total(shop, w) >= 0);
    }
    assert(shop_spare(input, t, Shop::LunJian, w) <= shop_pages_upto(skills, Shop::LunJian, w, n) + adv.spec_fodder_total(Shop::LunJian, w));
    assert(shop_spare(input, t, Shop::ZhuTian, w) <= shop_pages_upto(skills, Shop::ZhuTian, w, n) + adv.spec_fodder_total(Shop::ZhuTian, w));
    assert(shop_spare(input, t, Shop::ZongMen, w) <= shop_pages_upto(skills, Shop::ZongMen, w, n) + adv.spec_fodder_total(Shop::ZongMen, w));
    assert(shop_spare(input, t, Shop::DaoYun, w) <= shop_pages_upto(skills, Shop::DaoYun, w, n) + adv.spec_fodder_total(Shop::DaoYun, w));
    assert(shop_spare(input, t, Shop::BaiZu, w) <= shop_pages_upto(skills, Shop::BaiZu, w, n) + adv.spec_fodder_total(Shop::BaiZu, w));
    lemma_skill_bounds(skills[i], t[i], 0, 0);
}

} // verus!
