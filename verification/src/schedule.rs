//! Running the simulation week by week and recording the plan.
use vstd::prelude::*;
use crate::models::{
    CombatSkillInput, AdvancedSettings, PlannerInput, Shop, ShopAcquisition, SkillLevel,
    WeekPlan, ConversionAction, UpgradeAction, SHOP_COUNT,
};
use crate::income::{
    skill_income, skill_income_in_week, skill_gets_income, skill_income_pages, periodic_total,
    periodic_sum, lemma_periodic_sum_closed_form, lemma_periodic_total_monotone,
    lemma_periodic_total_bounded, HORIZON_WEEKS,
};
use crate::plan::{
    acquired_by_pool, acquired_by_skill, input_levels, input_pages, input_pools, input_shops,
    lemma_acquisitions_push, plan_final_levels, plan_follows, plan_week_follows, pool_acquisitions,
    skill_acquisitions, snapshot_pools, upgrades_count, week_acquisitions, week_follows, free_uses,
    upgrades_purple, upgrades_blue,
};
use crate::simulate::{
    actions_applied, do_conversions_and_upgrades, lemma_sum_u32_elem, lemma_sum_u32_nonneg,
    lemma_sum_u32_update, sum_u32, run_of, upgrades_spent, SimState,
};

verus! {

// --- what the schedules pay ---

/// What the first `k` skills receive over weeks `1..=w`.
pub open spec fn skills_received(skills: Seq<CombatSkillInput>, w: int, k: int) -> int
    decreases k,
{
    if k <= 0 {
        0
    } else {
        skills_received(skills, w, k - 1) + skill_income(skills[k - 1], w)
    }
}

/// What the first `k` skills receive in week `w`.
pub open spec fn skills_in_week(skills: Seq<CombatSkillInput>, w: int, k: int) -> int
    decreases k,
{
    if k <= 0 {
        0
    } else {
        skills_in_week(skills, w, k - 1) + skill_income_in_week(skills[k - 1], w)
    }
}

/// What the first `k` fodder pools receive over weeks `1..=w`.
pub open spec fn pools_received(adv: AdvancedSettings, w: int, k: int) -> int
    decreases k,
{
    if k <= 0 {
        0
    } else {
        let shop = Shop::spec_from_index(k - 1);
        pools_received(adv, w, k - 1) + periodic_total(
            adv.shop_cycle(shop) as int,
            adv.weekly_shop_income.get(shop) as int,
            w,
        )
    }
}

/// What the first `k` fodder pools receive in week `w`.
pub open spec fn pools_in_week(adv: AdvancedSettings, w: int, k: int) -> int
    decreases k,
{
    if k <= 0 {
        0
    } else {
        pools_in_week(adv, w, k - 1) + adv.spec_fodder_in_week(Shop::spec_from_index(k - 1), w)
    }
}

/// All pages received over weeks `1..=w`.
pub open spec fn received(input: PlannerInput, w: int) -> int {
    skills_received(input.combat_skills@, w, input.combat_skills@.len() as int) + pools_received(
        input.advanced,
        w,
        SHOP_COUNT as int,
    )
}

/// All pages received in week `w`.
pub open spec fn week_income(input: PlannerInput, w: int) -> int {
    skills_in_week(input.combat_skills@, w, input.combat_skills@.len() as int) + pools_in_week(
        input.advanced,
        w,
        SHOP_COUNT as int,
    )
}

/// All pages held at the start, by the skills and in the pools.
pub open spec fn initial_page_total(input: PlannerInput) -> int {
    sum_u32(input_pages(input)) + sum_u32(input_pools(input))
}

/// Every amount the simulation can reach by the end of week `w` fits in 32 bits: all pages
/// held plus all pages received, and the purple and blue pages with their income.
pub open spec fn amounts_fit(input: PlannerInput, w: int) -> bool {
    &&& initial_page_total(input) + received(input, w) <= u32::MAX
    &&& input.purple_pages + input.advanced.weekly_purple_income * w <= u32::MAX
    &&& input.blue_pages + input.advanced.weekly_blue_income * w <= u32::MAX
}

proof fn lemma_periodic_step(cycle: int, amount: int, w: int)
    requires
        w >= 1,
    ensures
        periodic_total(cycle, amount, w) == periodic_total(cycle, amount, w - 1) + crate::income::periodic_in_week(
            cycle,
            amount,
            w,
        ),
{
    lemma_periodic_sum_closed_form(cycle, amount, w);
    lemma_periodic_sum_closed_form(cycle, amount, w - 1);
}

proof fn lemma_skills_received_step(skills: Seq<CombatSkillInput>, w: int, k: int)
    requires
        w >= 1,
    ensures
        skills_received(skills, w, k) == skills_received(skills, w - 1, k) + skills_in_week(skills, w, k),
    decreases k,
{
    if k > 0 {
        lemma_skills_received_step(skills, w, k - 1);
        let s = skills[k - 1];
        lemma_periodic_step(s.income_cycle_weeks as int, s.income_batch_count * 40, w);
    }
}

proof fn lemma_pools_received_step(adv: AdvancedSettings, w: int, k: int)
    requires
        w >= 1,
    ensures
        pools_received(adv, w, k) == pools_received(adv, w - 1, k) + pools_in_week(adv, w, k),
    decreases k,
{
    if k > 0 {
        lemma_pools_received_step(adv, w, k - 1);
        let shop = Shop::spec_from_index(k - 1);
        lemma_periodic_step(adv.shop_cycle(shop) as int, adv.weekly_shop_income.get(shop) as int, w);
    }
}

proof fn lemma_skills_received_monotone(skills: Seq<CombatSkillInput>, w1: int, w2: int, k: int)
    requires
        w1 <= w2,
    ensures
        0 <= skills_received(skills, w1, k) <= skills_received(skills, w2, k),
    decreases k,
{
    if k > 0 {
        lemma_skills_received_monotone(skills, w1, w2, k - 1);
        let s = skills[k - 1];
        lemma_periodic_total_monotone(s.income_cycle_weeks as int, s.income_batch_count * 40, w1, w2);
    }
}

proof fn lemma_pools_received_monotone(adv: AdvancedSettings, w1: int, w2: int, k: int)
    requires
        w1 <= w2,
    ensures
        0 <= pools_received(adv, w1, k) <= pools_received(adv, w2, k),
    decreases k,
{
    if k > 0 {
        lemma_pools_received_monotone(adv, w1, w2, k - 1);
        let shop = Shop::spec_from_index(k - 1);
        lemma_periodic_total_monotone(
            adv.shop_cycle(shop) as int,
            adv.weekly_shop_income.get(shop) as int,
            w1,
            w2,
        );
    }
}

/// The pages received over `w` weeks are those received over `w - 1` weeks plus week `w`'s,
/// and never shrink as the horizon grows.
pub proof fn lemma_received_step(input: PlannerInput, w: int)
    requires
        1 <= w,
    ensures
        received(input, w) == received(input, w - 1) + week_income(input, w),
        0 <= received(input, w - 1) <= received(input, w),
{
    lemma_skills_received_step(input.combat_skills@, w, input.combat_skills@.len() as int);
    lemma_pools_received_step(input.advanced, w, SHOP_COUNT as int);
    lemma_received_monotone(input, w - 1, w);
}

pub proof fn lemma_received_monotone(input: PlannerInput, w1: int, w2: int)
    requires
        w1 <= w2,
    ensures
        0 <= received(input, w1) <= received(input, w2),
{
    lemma_skills_received_monotone(input.combat_skills@, w1, w2, input.combat_skills@.len() as int);
    lemma_pools_received_monotone(input.advanced, w1, w2, SHOP_COUNT as int);
}

proof fn lemma_skills_in_week_prefix(skills: Seq<CombatSkillInput>, w: int, k: int, m: int)
    requires
        0 <= k <= m,
    ensures
        0 <= skills_in_week(skills, w, k) <= skills_in_week(skills, w, m),
    decreases m,
{
    if m > k {
        lemma_skills_in_week_prefix(skills, w, k, m - 1);
    } else if k > 0 {
        lemma_skills_in_week_nonneg(skills, w, k);
    }
}

proof fn lemma_skills_in_week_nonneg(skills: Seq<CombatSkillInput>, w: int, k: int)
    ensures
        0 <= skills_in_week(skills, w, k),
    decreases k,
{
    if k > 0 {
        lemma_skills_in_week_nonneg(skills, w, k - 1);
    }
}

proof fn lemma_pools_in_week_prefix(adv: AdvancedSettings, w: int, k: int, m: int)
    requires
        0 <= k <= m,
    ensures
        0 <= pools_in_week(adv, w, k) <= pools_in_week(adv, w, m),
    decreases m,
{
    if m > k {
        lemma_pools_in_week_prefix(adv, w, k, m - 1);
    } else if k > 0 {
        lemma_pools_in_week_nonneg(adv, w, k);
    }
}

proof fn lemma_pools_in_week_nonneg(adv: AdvancedSettings, w: int, k: int)
    ensures
        0 <= pools_in_week(adv, w, k),
    decreases k,
{
    if k > 0 {
        lemma_pools_in_week_nonneg(adv, w, k - 1);
    }
}

proof fn lemma_upgrades_materials_nonneg(us: Seq<UpgradeAction>)
    ensures
        crate::plan::upgrades_purple(us) >= 0,
        crate::plan::upgrades_blue(us) >= 0,
    decreases us.len(),
{
    if us.len() > 0 {
        lemma_upgrades_materials_nonneg(us.drop_last());
    }
}

proof fn lemma_upgrades_count_nonneg(us: Seq<UpgradeAction>, j: int)
    ensures
        upgrades_count(us, j) >= 0,
    decreases us.len(),
{
    if us.len() > 0 {
        lemma_upgrades_count_nonneg(us.drop_last(), j);
    }
}

/// The state corresponds to the input: same skills, shops, free conversions.
pub open spec fn state_of(state: &SimState, input: PlannerInput) -> bool {
    &&& state.wf()
    &&& state.n() == input.combat_skills@.len()
    &&& state.shops@ == input_shops(input)
    &&& state.free_conv == input.advanced.free_conversions_per_week
}

/// Some skill is still below its target.
pub open spec fn levels_unfinished(levels: Seq<SkillLevel>, targets: Seq<SkillLevel>) -> bool {
    exists|i: int| 0 <= i < levels.len() && #[trigger] levels[i].index() < targets[i].index()
}

/// Some skill of the snapshot is still below its target.
pub open spec fn snapshot_unfinished(snap: crate::models::StateSnapshot, targets: Seq<SkillLevel>) -> bool {
    exists|i: int|
        0 <= i < snap.skill_levels@.len() && #[trigger] snap.skill_levels@[i].index() < targets[i].index()
}

/// State `s1` is `s0` with a week's acquisitions `acqs` and the weekly purple and blue income
/// added.
pub open spec fn income_applied(s0: &SimState, s1: &SimState, input: PlannerInput, acqs: Seq<ShopAcquisition>) -> bool {
    &&& s1.wf()
    &&& s1.same_frame(s0)
    &&& s1.levels@ == s0.levels@
    &&& s1.stones == s0.stones
    &&& s1.purple == s0.purple + input.advanced.weekly_purple_income
    &&& s1.blue == s0.blue + input.advanced.weekly_blue_income
    &&& forall|j: int| 0 <= j < s0.n() ==> #[trigger] s1.pages@[j] == s0.pages@[j] + acquired_by_skill(acqs, j)
    &&& forall|m: int|
        0 <= m < SHOP_COUNT ==> #[trigger] s1.fodder_pools@[m] == s0.fodder_pools@[m] + acquired_by_pool(acqs, m)
}

/// `s` is the state week `k` of `weeks` starts from: the input's for the first week, else the
/// one the previous week's snapshot records.
pub open spec fn starts_from(
    s: SimState,
    input: PlannerInput,
    targets: Seq<SkillLevel>,
    weeks: Seq<WeekPlan>,
    k: int,
) -> bool {
    &&& state_of(&s, input)
    &&& s.targets@ == targets
    &&& if k == 0 {
        &&& s.levels@ == input_levels(input)
        &&& s.pages@ == input_pages(input)
        &&& s.fodder_pools@ == input_pools(input)
        &&& s.purple == input.purple_pages
        &&& s.blue == input.blue_pages
        &&& s.stones == input.advanced.conversion_stones
    } else {
        let snap = weeks[k - 1].snapshot;
        &&& s.levels@ == snap.skill_levels@
        &&& s.pages@ == snap.skill_pages@
        &&& s.fodder_pools@ == snapshot_pools(snap)
        &&& s.purple == snap.purple_pages
        &&& s.blue == snap.blue_pages
        &&& s.stones == snap.conversion_stones_left
    }
}

/// Week `k` of `weeks` is a week of the simulation: from the state it starts from, its
/// incomes arrive (from week 1 on), then its upgrades and conversions are taken as `run_of`
/// describes, each choice made as the simulation makes it.
pub open spec fn week_runs(input: PlannerInput, targets: Seq<SkillLevel>, weeks: Seq<WeekPlan>, k: int) -> bool {
    exists|s: SimState, mid: SimState, fin: SimState, pre: Seq<SimState>, post: Seq<SimState>, kinds: Seq<bool>|
        #![trigger starts_from(s, input, targets, weeks, k), run_of(mid, fin, pre, post, kinds, weeks[k].conversions@, weeks[k].upgrades@)]
        starts_from(s, input, targets, weeks, k) && (if weeks[k].week > 0 {
            income_applied(&s, &mid, input, weeks[k].acquisitions@)
        } else {
            mid.same_contents(&s)
        }) && run_of(mid, fin, pre, post, kinds, weeks[k].conversions@, weeks[k].upgrades@) && ((free_uses(
            weeks[k].conversions@,
        ) == input.advanced.free_conversions_per_week && fin.stones == 0) || fin.conversions_exhausted())
}

/// Every week of `weeks` is a week of the simulation.
pub open spec fn plan_runs(input: PlannerInput, targets: Seq<SkillLevel>, weeks: Seq<WeekPlan>) -> bool {
    forall|k: int| 0 <= k < weeks.len() ==> #[trigger] week_runs(input, targets, weeks, k)
}

proof fn lemma_plan_runs_push(input: PlannerInput, targets: Seq<SkillLevel>, weeks: Seq<WeekPlan>, wp: WeekPlan)
    requires
        plan_runs(input, targets, weeks),
        week_runs(input, targets, weeks.push(wp), weeks.len() as int),
    ensures
        plan_runs(input, targets, weeks.push(wp)),
{
    let w2 = weeks.push(wp);
    assert forall|k: int| 0 <= k < w2.len() implies #[trigger] week_runs(input, targets, w2, k) by {
        if k < weeks.len() {
            assert(week_runs(input, targets, weeks, k));
            let (s, mid, fin, pre, post, kinds) = choose|s: SimState, mid: SimState, fin: SimState, pre: Seq<SimState>, post: Seq<SimState>, kinds: Seq<bool>|
                #![trigger starts_from(s, input, targets, weeks, k), run_of(mid, fin, pre, post, kinds, weeks[k].conversions@, weeks[k].upgrades@)]
                starts_from(s, input, targets, weeks, k) && (if weeks[k].week > 0 {
                    income_applied(&s, &mid, input, weeks[k].acquisitions@)
                } else {
                    mid.same_contents(&s)
                }) && run_of(mid, fin, pre, post, kinds, weeks[k].conversions@, weeks[k].upgrades@) && ((
                    free_uses(weeks[k].conversions@) == input.advanced.free_conversions_per_week && fin.stones == 0)
                    || fin.conversions_exhausted());
            assert(w2[k] == weeks[k]);
            if k > 0 {
                assert(w2[k - 1] == weeks[k - 1]);
            }
            assert(starts_from(s, input, targets, w2, k));
            assert(run_of(mid, fin, pre, post, kinds, w2[k].conversions@, w2[k].upgrades@));
        }
    }
}

/// One week: the week's incomes arrive, then conversions and upgrades as long as they help;
/// at the end of the week no skill can go up any more.
pub fn simulate_week(state: &mut SimState, input: &PlannerInput, week: u32) -> (wp: WeekPlan)
    requires
        state_of(&*old(state), *input),
        1 <= week,
        old(state).page_total() + week_income(*input, week as int) <= u32::MAX,
        old(state).purple + input.advanced.weekly_purple_income <= u32::MAX,
        old(state).blue + input.advanced.weekly_blue_income <= u32::MAX,
    ensures
        wp.week == week,
        week_follows(
            *input,
            old(state).targets@,
            old(state).levels@,
            old(state).pages@,
            old(state).fodder_pools@,
            old(state).purple as int,
            old(state).blue as int,
            old(state).stones as int,
            wp,
        ),
        state_of(&*final(state), *input),
        final(state).targets@ == old(state).targets@,
        final(state).levels@ == wp.snapshot.skill_levels@,
        final(state).pages@ == wp.snapshot.skill_pages@,
        final(state).fodder_pools@ == snapshot_pools(wp.snapshot),
        final(state).purple == wp.snapshot.purple_pages,
        final(state).blue == wp.snapshot.blue_pages,
        final(state).stones == wp.snapshot.conversion_stones_left,
        final(state).page_total() <= old(state).page_total() + week_income(*input, week as int),
        final(state).purple <= old(state).purple + input.advanced.weekly_purple_income,
        final(state).blue <= old(state).blue + input.advanced.weekly_blue_income,
        forall|j: int|
            0 <= j < old(state).n() ==> old(state).levels@[j].index() <= #[trigger] final(state).levels@[j].index()
                && (final(state).levels@[j].index() <= old(state).levels@[j].index()
                || final(state).levels@[j].index() <= old(state).targets@[j].index()),
        forall|x: int| 0 <= x < final(state).n() ==> !#[trigger] final(state).can_upgrade(x),
        exists|mid: SimState, pre: Seq<SimState>, post: Seq<SimState>, kinds: Seq<bool>|
            #[trigger] run_of(mid, *final(state), pre, post, kinds, wp.conversions@, wp.upgrades@)
                && income_applied(&*old(state), &mid, *input, wp.acquisitions@),
        final(state).page_total() == old(state).page_total() + week_income(*input, week as int) - upgrades_spent(
            wp.upgrades@,
        ),
        final(state).purple == old(state).purple + input.advanced.weekly_purple_income - upgrades_purple(wp.upgrades@),
        final(state).blue == old(state).blue + input.advanced.weekly_blue_income - upgrades_blue(wp.upgrades@),
        free_uses(wp.conversions@) <= input.advanced.free_conversions_per_week,
        (free_uses(wp.conversions@) == input.advanced.free_conversions_per_week && final(state).stones == 0)
            || final(state).conversions_exhausted(),
{
    let ghost s0 = *state;
    let ghost skills = input.combat_skills@;
    let n = state.levels.len();
    let mut acquisitions: Vec<ShopAcquisition> = Vec::new();

    // Step 1: income (combat skills, fodder pools, purple and blue)
    state.purple = state.purple + input.advanced.weekly_purple_income;
    state.blue = state.blue + input.advanced.weekly_blue_income;
    proof {
        lemma_skills_in_week_prefix(skills, week as int, 0, n as int);
        lemma_pools_in_week_prefix(input.advanced, week as int, 0, SHOP_COUNT as int);
        lemma_sum_u32_nonneg(s0.fodder_pools@);
        assert(acquisitions@ =~= skill_acquisitions(*input, week as int, 0));
    }
    let mut i: usize = 0;
    while i < n
        invariant
            i <= n,
            n == s0.n(),
            n == skills.len(),
            skills == input.combat_skills@,
            state.wf(),
            state.levels@ == s0.levels@,
            state.shops@ == s0.shops@,
            state.targets@ == s0.targets@,
            state.free_conv == s0.free_conv,
            state.stones == s0.stones,
            state.fodder_pools@ == s0.fodder_pools@,
            state.purple == s0.purple + input.advanced.weekly_purple_income,
            state.blue == s0.blue + input.advanced.weekly_blue_income,
            s0.page_total() + week_income(*input, week as int) <= u32::MAX,
            sum_u32(state.pages@) == sum_u32(s0.pages@) + skills_in_week(skills, week as int, i as int),
            acquisitions@ == skill_acquisitions(*input, week as int, i as int),
            forall|j: int|
                0 <= j < n ==> #[trigger] state.pages@[j] == s0.pages@[j] + acquired_by_skill(acquisitions@, j),
            forall|k: int| #[trigger] acquired_by_pool(acquisitions@, k) == 0,
        decreases n - i,
    {
        let pages = skill_gets_income(&input.combat_skills[i], week);
        proof {
            lemma_skills_in_week_prefix(skills, week as int, i + 1, n as int);
            lemma_pools_in_week_nonneg(input.advanced, week as int, SHOP_COUNT as int);
            lemma_sum_u32_nonneg(s0.fodder_pools@);
            lemma_sum_u32_elem(state.pages@, i as int);
        }
        if pages > 0 {
            let cur = state.pages[i];
            let ghost before = state.pages@;
            state.pages.set(i, cur + pages as u32);
            let x = ShopAcquisition {
                shop: input.combat_skills[i].shop,
                target_skill_index: Some(i),
                pages: pages as u32,
            };
            let ghost a0 = acquisitions@;
            acquisitions.push(x);
            proof {
                lemma_sum_u32_update(before, i as int, (cur + pages) as u32);
                lemma_acquisitions_push(a0, x);
                assert forall|j: int| 0 <= j < n implies #[trigger] state.pages@[j] == s0.pages@[j]
                    + acquired_by_skill(acquisitions@, j) by {
                    if j == i as int {
                        assert(x.target_skill_index == Some(j as usize));
                    } else {
                        assert(x.target_skill_index != Some(j as usize));
                    }
                }
            }
        }
        i = i + 1;
    }
    let ghost skill_part = acquisitions@;
    proof {
        assert(acquisitions@ =~= skill_part + pool_acquisitions(*input, week as int, 0));
    }
    let mut k: usize = 0;
    while k < SHOP_COUNT
        invariant
            k <= SHOP_COUNT,
            n == s0.n(),
            n == skills.len(),
            skills == input.combat_skills@,
            state.wf(),
            state.levels@ == s0.levels@,
            state.shops@ == s0.shops@,
            state.targets@ == s0.targets@,
            state.free_conv == s0.free_conv,
            state.stones == s0.stones,
            state.purple == s0.purple + input.advanced.weekly_purple_income,
            state.blue == s0.blue + input.advanced.weekly_blue_income,
            s0.page_total() + week_income(*input, week as int) <= u32::MAX,
            sum_u32(state.pages@) == sum_u32(s0.pages@) + skills_in_week(skills, week as int, n as int),
            sum_u32(state.fodder_pools@) == sum_u32(s0.fodder_pools@) + pools_in_week(
                input.advanced,
                week as int,
                k as int,
            ),
            skill_part == skill_acquisitions(*input, week as int, n as int),
            acquisitions@ == skill_part + pool_acquisitions(*input, week as int, k as int),
            forall|j: int|
                0 <= j < n ==> #[trigger] state.pages@[j] == s0.pages@[j] + acquired_by_skill(acquisitions@, j),
            forall|m: int|
                0 <= m < SHOP_COUNT ==> #[trigger] state.fodder_pools@[m] == s0.fodder_pools@[m]
                    + acquired_by_pool(acquisitions@, m),
        decreases SHOP_COUNT - k,
    {
        let shop = Shop::from_index(k);
        let pages = input.advanced.fodder_pages_in_week(shop, week);
        proof {
            lemma_pools_in_week_prefix(input.advanced, week as int, k + 1, SHOP_COUNT as int);
            lemma_sum_u32_nonneg(state.pages@);
            lemma_sum_u32_elem(state.fodder_pools@, k as int);
        }
        if pages > 0 {
            let cur = state.fodder_pools[k];
            let ghost before = state.fodder_pools@;
            state.fodder_pools.set(k, cur + pages);
            let x = ShopAcquisition { shop, target_skill_index: None, pages };
            let ghost a0 = acquisitions@;
            acquisitions.push(x);
            proof {
                lemma_sum_u32_update(before, k as int, (cur + pages) as u32);
                lemma_acquisitions_push(a0, x);
                assert(acquisitions@ =~= skill_part + pool_acquisitions(*input, week as int, k + 1));
                assert forall|m: int| 0 <= m < SHOP_COUNT implies #[trigger] state.fodder_pools@[m]
                    == s0.fodder_pools@[m] + acquired_by_pool(acquisitions@, m) by {
                    if m != k as int {
                        assert(shop.index() == k);
                    }
                }
                assert forall|j: int| 0 <= j < n implies #[trigger] state.pages@[j] == s0.pages@[j]
                    + acquired_by_skill(acquisitions@, j) by {
                    assert(acquired_by_skill(acquisitions@, j) == acquired_by_skill(a0, j));
                }
            }
        } else {
            proof {
                assert(acquisitions@ =~= skill_part + pool_acquisitions(*input, week as int, k + 1));
            }
        }
        k = k + 1;
    }

    // Step 2 and 3: interleave conversions and upgrades
    let ghost s1 = *state;
    proof {
        assert(s1.page_total() == s0.page_total() + week_income(*input, week as int));
    }
    let free_conv = state.free_conv;
    let (conversions, upgrades) = do_conversions_and_upgrades(state, free_conv);
    let snapshot = state.snapshot();
    let wp = WeekPlan { week, acquisitions, conversions, upgrades, snapshot };
    proof {
        assert(income_applied(&s0, &s1, *input, wp.acquisitions@));
        let (pre, post, kinds) = choose|pre: Seq<SimState>, post: Seq<SimState>, kinds: Seq<bool>|
            #[trigger] run_of(s1, *state, pre, post, kinds, wp.conversions@, wp.upgrades@);
        assert(run_of(s1, *state, pre, post, kinds, wp.conversions@, wp.upgrades@)
            && income_applied(&s0, &s1, *input, wp.acquisitions@));
        assert(wp.acquisitions@ =~= week_acquisitions(*input, week as int));
        lemma_upgrades_materials_nonneg(wp.upgrades@);
        assert forall|j: int| 0 <= j < s0.n() implies s0.levels@[j].index() <= #[trigger] state.levels@[j].index()
            && (state.levels@[j].index() <= s0.levels@[j].index() || state.levels@[j].index()
            <= s0.targets@[j].index()) by {
            lemma_upgrades_count_nonneg(wp.upgrades@, j);
        }
    }
    wp
}


proof fn lemma_plan_push(input: PlannerInput, targets: Seq<SkillLevel>, weeks: Seq<WeekPlan>, wp: WeekPlan)
    requires
        plan_follows(input, targets, weeks),
        weeks.len() == 0 ==> wp.week == 1 && week_follows(
            input,
            targets,
            input_levels(input),
            input_pages(input),
            input_pools(input),
            input.purple_pages as int,
            input.blue_pages as int,
            input.advanced.conversion_stones as int,
            wp,
        ),
        weeks.len() > 0 ==> wp.week == weeks.last().week + 1 && week_follows(
            input,
            targets,
            weeks.last().snapshot.skill_levels@,
            weeks.last().snapshot.skill_pages@,
            snapshot_pools(weeks.last().snapshot),
            weeks.last().snapshot.purple_pages as int,
            weeks.last().snapshot.blue_pages as int,
            weeks.last().snapshot.conversion_stones_left as int,
            wp,
        ),
    ensures
        plan_follows(input, targets, weeks.push(wp)),
{
    let w2 = weeks.push(wp);
    assert forall|k: int| 0 <= k < w2.len() implies #[trigger] plan_week_follows(input, targets, w2, k) by {
        if k < weeks.len() {
            assert(plan_week_follows(input, targets, weeks, k));
            assert(w2[k] == weeks[k]);
            if k > 0 {
                assert(w2[k - 1] == weeks[k - 1]);
            }
        } else if k > 0 {
            assert(w2[k - 1] == weeks.last());
        }
    }
    assert forall|k: int| 0 <= k < w2.len() implies #[trigger] w2[k].week == w2[0].week + k by {
        if k < weeks.len() {
            assert(w2[k] == weeks[k]);
            assert(weeks[k].week == weeks[0].week + k);
        } else if weeks.len() > 0 {
            assert(weeks[weeks.len() - 1].week == weeks[0].week + weeks.len() - 1);
        }
    }
}

/// Run the weekly simulation towards `targets`: week 0 spends the starting resources (and is
/// recorded only when something happens), then one week at a time until every skill has
/// reached its target, the horizon is over, or the next week's amounts would not fit in 32 bits. Returns the plan, the last simulated week and
/// the levels reached.
pub fn simulate_plan(input: &PlannerInput, targets: &Vec<SkillLevel>) -> (r: (Vec<WeekPlan>, u32, Vec<SkillLevel>))
    requires
        targets.len() == input.combat_skills.len(),
        amounts_fit(*input, 0),
    ensures
        plan_follows(*input, targets@, r.0@),
        r.2@ == plan_final_levels(*input, r.0@),
        r.2@.len() == input.combat_skills@.len(),
        r.1 == (if r.0@.len() > 0 {
            r.0@.last().week
        } else {
            0
        }),
        r.1 <= HORIZON_WEEKS,
        forall|k: int| 0 <= k < r.0@.len() - 1 ==> snapshot_unfinished(#[trigger] r.0@[k].snapshot, targets@),
        r.0@.len() > 0 && r.0@[0].week == 0 ==> r.0@[0].conversions@.len() + r.0@[0].upgrades@.len() > 0,
        r.0@.len() > 0 && r.0@[0].week == 1 ==> levels_unfinished(input_levels(*input), targets@),
        plan_runs(*input, targets@, r.0@),
        r.1 < HORIZON_WEEKS && amounts_fit(*input, r.1 + 1) ==> forall|i: int|
            0 <= i < r.2@.len() ==> targets@[i].index() <= #[trigger] r.2@[i].index(),
        forall|i: int|
            0 <= i < r.2@.len() ==> input_levels(*input)[i].index() <= #[trigger] r.2@[i].index() && (
            r.2@[i].index() <= input_levels(*input)[i].index() || r.2@[i].index()
                <= targets@[i].index()),
{
    let mut state = SimState::from_input(input, targets);
    let ghost s0 = state;
    let mut weeks: Vec<WeekPlan> = Vec::new();
    let mut last_week: u32 = 0;
    proof {
        lemma_received_monotone(*input, 0, 0);
    }

    // Week 0: conversions and upgrades with the starting resources
    let free_conv = state.free_conv;
    let (conversions, upgrades) = do_conversions_and_upgrades(&mut state, free_conv);
    proof {
        assert forall|j: int| 0 <= j < s0.n() implies s0.levels@[j].index() <= #[trigger] state.levels@[j].index()
            && (state.levels@[j].index() <= s0.levels@[j].index() || state.levels@[j].index()
            <= s0.targets@[j].index()) by {
            lemma_upgrades_count_nonneg(upgrades@, j);
        }
    }
    if conversions.len() > 0 || upgrades.len() > 0 {
        let snapshot = state.snapshot();
        let wp = WeekPlan {
            week: 0,
            acquisitions: Vec::new(),
            conversions,
            upgrades,
            snapshot,
        };
        proof {
            assert(wp.acquisitions@ =~= Seq::<ShopAcquisition>::empty());
            assert(acquired_by_skill(wp.acquisitions@, 0) == 0);
            assert(forall|j: int| #[trigger] acquired_by_skill(wp.acquisitions@, j) == 0);
            assert(forall|k: int| #[trigger] acquired_by_pool(wp.acquisitions@, k) == 0);
            assert(plan_week_follows(*input, targets@, seq![wp], 0));
            let (pre, post, kinds) = choose|pre: Seq<SimState>, post: Seq<SimState>, kinds: Seq<bool>|
                #[trigger] run_of(s0, state, pre, post, kinds, wp.conversions@, wp.upgrades@);
            assert(starts_from(s0, *input, targets@, seq![wp], 0));
            assert(seq![wp][0] == wp);
            assert(run_of(s0, state, pre, post, kinds, seq![wp][0].conversions@, seq![wp][0].upgrades@));
            assert(week_runs(*input, targets@, seq![wp], 0));
        }
        weeks.push(wp);
        proof {
            assert(weeks@ =~= seq![wp]);
        }
    } else {
        proof {
            assert forall|j: int| 0 <= j < s0.n() implies #[trigger] state.levels@[j] == s0.levels@[j] by {
                crate::models::lemma_level_index_injective(state.levels@[j], s0.levels@[j]);
            }
            assert(state.levels@ =~= s0.levels@);
            assert(state.pages@ =~= s0.pages@);
            assert(state.fodder_pools@ =~= s0.fodder_pools@);
        }
    }

    let mut w: u32 = 1;
    let mut done = state.all_done();
    proof {
        lemma_upgrades_materials_nonneg(upgrades@);
        assert(input.advanced.weekly_purple_income * (w - 1) == 0);
        assert(input.advanced.weekly_blue_income * (w - 1) == 0);
    }
    let mut fits = amounts_fit_check(input, 1);
    while !done && w <= HORIZON_WEEKS && fits
        invariant
            1 <= w <= HORIZON_WEEKS + 1,
            fits ==> w <= HORIZON_WEEKS && amounts_fit(*input, w as int),
            w <= HORIZON_WEEKS ==> fits == amounts_fit(*input, w as int),
            state_of(&state, *input),
            state.targets@ == targets@,
            s0.levels@ == input_levels(*input),
            s0.targets@ == targets@,
            last_week == w - 1,
            done == forall|i: int| 0 <= i < state.n() ==> !#[trigger] state.below_target(i),
            plan_follows(*input, targets@, weeks@),
            forall|k: int| 0 <= k < weeks@.len() - 1 ==> snapshot_unfinished(#[trigger] weeks@[k].snapshot, targets@),
            weeks@.len() > 0 && weeks@[0].week == 0 ==> weeks@[0].conversions@.len() + weeks@[0].upgrades@.len() > 0,
            weeks@.len() > 0 && weeks@[0].week == 1 ==> levels_unfinished(input_levels(*input), targets@),
            plan_runs(*input, targets@, weeks@),
            weeks@.len() == 0 ==> {
                &&& w == 1
                &&& state.levels@ == input_levels(*input)
                &&& state.pages@ == input_pages(*input)
                &&& state.fodder_pools@ == input_pools(*input)
                &&& state.purple == input.purple_pages
                &&& state.blue == input.blue_pages
                &&& state.stones == input.advanced.conversion_stones
            },
            weeks@.len() > 0 ==> {
                let snap = weeks@.last().snapshot;
                &&& weeks@.last().week == w - 1
                &&& state.levels@ == snap.skill_levels@
                &&& state.pages@ == snap.skill_pages@
                &&& state.fodder_pools@ == snapshot_pools(snap)
                &&& state.purple == snap.purple_pages
                &&& state.blue == snap.blue_pages
                &&& state.stones == snap.conversion_stones_left
            },
            state.page_total() <= initial_page_total(*input) + received(*input, w - 1),
            state.purple <= input.purple_pages + input.advanced.weekly_purple_income * (w - 1),
            state.blue <= input.blue_pages + input.advanced.weekly_blue_income * (w - 1),
            forall|j: int|
                0 <= j < state.n() ==> s0.levels@[j].index() <= #[trigger] state.levels@[j].index() && (
                state.levels@[j].index() <= s0.levels@[j].index() || state.levels@[j].index()
                    <= s0.targets@[j].index()),
        decreases HORIZON_WEEKS + 1 - w,
    {
        proof {
            lemma_received_step(*input, w as int);
            lemma_received_monotone(*input, w as int, w as int);
            let wp_ = input.advanced.weekly_purple_income as int;
            let wb_ = input.advanced.weekly_blue_income as int;
            assert(wp_ * (w - 1) + wp_ == wp_ * w) by (nonlinear_arith);
            assert(wb_ * (w - 1) + wb_ == wb_ * w) by (nonlinear_arith);
        }
        let ghost before = state;
        let ghost weeks_before = weeks@;
        proof {
            if weeks@.len() == 0 {
                let i = choose|i: int| 0 <= i < state.n() && #[trigger] state.below_target(i);
                assert(input_levels(*input)[i].index() < targets@[i].index());
            }
            if weeks@.len() > 0 {
                let i = choose|i: int| 0 <= i < state.n() && #[trigger] state.below_target(i);
                assert(weeks@.last().snapshot.skill_levels@[i].index() < targets@[i].index());
                assert(snapshot_unfinished(weeks@.last().snapshot, targets@));
            }
        }
        let wp = simulate_week(&mut state, input, w);
        proof {
            lemma_plan_push(*input, targets@, weeks_before, wp);
            let k = weeks_before.len() as int;
            let w2 = weeks_before.push(wp);
            let (mid, pre, post, kinds) = choose|mid: SimState, pre: Seq<SimState>, post: Seq<SimState>, kinds: Seq<bool>|
                #[trigger] run_of(mid, state, pre, post, kinds, wp.conversions@, wp.upgrades@)
                    && income_applied(&before, &mid, *input, wp.acquisitions@);
            assert(w2[k] == wp);
            if k > 0 {
                assert(w2[k - 1] == weeks_before[k - 1]);
            }
            assert(starts_from(before, *input, targets@, w2, k));
            assert(run_of(mid, state, pre, post, kinds, w2[k].conversions@, w2[k].upgrades@));
            assert(week_runs(*input, targets@, w2, k));
            lemma_plan_runs_push(*input, targets@, weeks_before, wp);
        }
        weeks.push(wp);
        proof {
            assert forall|k: int| 0 <= k < weeks@.len() - 1 implies snapshot_unfinished(
                #[trigger] weeks@[k].snapshot,
                targets@,
            ) by {
                assert(weeks@[k] == weeks_before[k]);
            }
            if weeks_before.len() > 0 {
                assert(weeks@[0] == weeks_before[0]);
            }
        }
        last_week = w;
        w = w + 1;
        done = state.all_done();
        fits = if w <= HORIZON_WEEKS {
            amounts_fit_check(input, w)
        } else {
            false
        };
    }
    let final_levels = crate::simulate::copy_vec(&state.levels);
    proof {
        if last_week < HORIZON_WEEKS && amounts_fit(*input, last_week + 1) {
            assert(fits);
            assert(done);
            assert forall|i: int| 0 <= i < final_levels@.len() implies targets@[i].index()
                <= #[trigger] final_levels@[i].index() by {
                assert(!state.below_target(i));
            }
        }
    }
    (weeks, last_week, final_levels)
}


/// Whether every amount the simulation can reach by the end of week `weeks` fits in 32 bits.
pub fn amounts_fit_check(input: &PlannerInput, weeks: u32) -> (r: bool)
    requires
        weeks <= HORIZON_WEEKS,
    ensures
        r == amounts_fit(*input, weeks as int),
{
    let n = input.combat_skills.len();
    let adv = &input.advanced;
    let ghost skills = input.combat_skills@;
    let mut held: u128 = 0;
    let mut got: u128 = 0;
    let mut i: usize = 0;
    while i < n
        invariant
            i <= n,
            weeks <= HORIZON_WEEKS,
            n == skills.len(),
            skills == input.combat_skills@,
            held == sum_u32(input_pages(*input).take(i as int)),
            got == skills_received(skills, weeks as int, i as int),
            held <= 0xffff_ffff * i,
            got <= 0x1_0000_0000_0000 * i,
        decreases n - i,
    {
        let s = &input.combat_skills[i];
        proof {
            lemma_periodic_total_bounded(
                s.income_cycle_weeks as int,
                s.income_batch_count * 40,
                weeks as int,
            );
            assert(input_pages(*input).take(i + 1).drop_last() =~= input_pages(*input).take(i as int));
        }
        held = held + s.remaining_pages as u128;
        got = got + skill_income_pages(s, weeks) as u128;
        i = i + 1;
    }
    proof {
        assert(input_pages(*input).take(n as int) =~= input_pages(*input));
    }
    let mut k: usize = 0;
    while k < SHOP_COUNT
        invariant
            k <= SHOP_COUNT,
            weeks <= HORIZON_WEEKS,
            adv == input.advanced,
            held == sum_u32(input_pages(*input)) + sum_u32(input_pools(*input).take(k as int)),
            got == skills_received(skills, weeks as int, n as int) + pools_received(
                *adv,
                weeks as int,
                k as int,
            ),
            held <= 0xffff_ffff * (n + k),
            got <= 0x1_0000_0000_0000 * (n + k),
        decreases SHOP_COUNT - k,
    {
        let shop = Shop::from_index(k);
        proof {
            lemma_periodic_total_bounded(
                adv.shop_cycle(shop) as int,
                adv.weekly_shop_income.get(shop) as int,
                weeks as int,
            );
            assert(input_pools(*input).take(k + 1).drop_last() =~= input_pools(*input).take(k as int));
        }
        let initial = adv.fodder_initial_pages(shop);
        let total = adv.fodder_total_pages(shop, weeks);
        held = held + initial as u128;
        got = got + (total - initial as u64) as u128;
        k = k + 1;
    }
    proof {
        assert(input_pools(*input).take(SHOP_COUNT as int) =~= input_pools(*input));
        vstd::arithmetic::mul::lemma_mul_upper_bound(
            adv.weekly_purple_income as int,
            0xffff_ffff,
            weeks as int,
            HORIZON_WEEKS as int,
        );
        vstd::arithmetic::mul::lemma_mul_upper_bound(
            adv.weekly_blue_income as int,
            0xffff_ffff,
            weeks as int,
            HORIZON_WEEKS as int,
        );
    }
    let purple = input.purple_pages as u128 + (adv.weekly_purple_income as u128) * (weeks as u128);
    let blue = input.blue_pages as u128 + (adv.weekly_blue_income as u128) * (weeks as u128);
    held + got <= 0xffff_ffff && purple <= 0xffff_ffff && blue <= 0xffff_ffff
}

} // verus!
