//! The planner's entry point: the least number of weeks, raised targets, the weekly plan, or
//! the reasons why the targets cannot be reached.
use vstd::prelude::*;
use crate::models::{
    lemma_shop_index_roundtrip, total_cost_between, PlannerInput, PlannerOutput, Shop, SkillLevel,
    SHOP_COUNT,
};
use crate::income::{skill_income_pages, lemma_periodic_total_bounded, HORIZON_WEEKS};
use crate::feasibility::{
    feasible, find_minimum_weeks, input_target_levels, input_targets, need_upto, shop_pages_upto,
    shop_self_upto, shop_surplus, skill_need, skill_total_pages, surplus_upto, total_surplus,
    page_bound, need_bound, sum_bound, MAX_WEEKS,
};
use crate::bonus::{bonus_optimal, find_bonus_levels};
use crate::plan::{input_levels, plan_final_levels, plan_follows};
use crate::models::WeekPlan;
use crate::feasibility::lemma_feasible_monotone;
use crate::schedule::{amounts_fit, levels_unfinished, plan_runs, simulate_plan, snapshot_unfinished};
use crate::text::{decimal, decimal_string};

verus! {

// --- the reasons given when the targets cannot be reached ---

pub open spec fn shop_name(shop: Shop) -> Seq<char> {
    match shop {
        Shop::LunJian => "论剑"@,
        Shop::ZhuTian => "诸天"@,
        Shop::ZongMen => "宗门"@,
        Shop::DaoYun => "道蕴"@,
        Shop::BaiZu => "百族"@,
    }
}

fn shop_name_str(shop: Shop) -> (r: &'static str)
    ensures
        r@ == shop_name(shop),
{
    match shop {
        Shop::LunJian => "论剑",
        Shop::ZhuTian => "诸天",
        Shop::ZongMen => "宗门",
        Shop::DaoYun => "道蕴",
        Shop::BaiZu => "百族",
    }
}

/// What follows the current amount in a purple/blue message.
pub open spec fn income_suffix(weekly: u32) -> Seq<char> {
    if weekly > 0 {
        "（每周+"@ + decimal(weekly as nat) + "，仍不够）"@
    } else {
        "，且无每周收入"@
    }
}

pub open spec fn purple_short(input: PlannerInput) -> bool {
    input.purple_pages + input.advanced.weekly_purple_income * MAX_WEEKS < need_upto(
        input.combat_skills@,
        input_targets(input),
        2,
        input.combat_skills@.len() as int,
    )
}

pub open spec fn purple_reason(input: PlannerInput) -> Seq<char> {
    "紫色书页不足：合计需要 "@ + decimal(
        need_upto(input.combat_skills@, input_targets(input), 2, input.combat_skills@.len() as int) as nat,
    ) + "，当前 "@ + decimal(input.purple_pages as nat) + income_suffix(input.advanced.weekly_purple_income)
}

pub open spec fn blue_short(input: PlannerInput) -> bool {
    input.blue_pages + input.advanced.weekly_blue_income * MAX_WEEKS < need_upto(
        input.combat_skills@,
        input_targets(input),
        3,
        input.combat_skills@.len() as int,
    )
}

pub open spec fn blue_reason(input: PlannerInput) -> Seq<char> {
    "蓝色书页不足：合计需要 "@ + decimal(
        need_upto(input.combat_skills@, input_targets(input), 3, input.combat_skills@.len() as int) as nat,
    ) + "，当前 "@ + decimal(input.blue_pages as nat) + income_suffix(input.advanced.weekly_blue_income)
}

/// Own pages the skills of `shop` can hold within `MAX_WEEKS` weeks.
pub open spec fn shop_pages_max(input: PlannerInput, shop: Shop) -> int {
    shop_pages_upto(input.combat_skills@, shop, MAX_WEEKS as int, input.combat_skills@.len() as int)
}

/// Own pages the skills of `shop` need for the player's targets.
pub open spec fn shop_self_need(input: PlannerInput, shop: Shop) -> int {
    shop_self_upto(input.combat_skills@, input_targets(input), shop, input.combat_skills@.len() as int)
}

pub open spec fn shop_short(input: PlannerInput, shop: Shop) -> bool {
    shop_pages_max(input, shop) + input.advanced.spec_fodder_total(shop, MAX_WEEKS as int)
        < shop_self_need(input, shop)
}

pub open spec fn shop_reason(input: PlannerInput, shop: Shop) -> Seq<char> {
    "「"@ + shop_name(shop) + "」商店本体书页不足：该商店技能合计需要 "@ + decimal(
        shop_self_need(input, shop) as nat,
    ) + "，技能收入最多 "@ + decimal(shop_pages_max(input, shop) as nat) + " + 狗粮池最多 "@
        + decimal(input.advanced.spec_fodder_total(shop, MAX_WEEKS as int) as nat)
}

/// The messages of the first `k` shops whose own pages fall short.
pub open spec fn shop_reasons(input: PlannerInput, k: int) -> Seq<Seq<char>>
    decreases k,
{
    if k <= 0 {
        Seq::empty()
    } else {
        let shop = Shop::spec_from_index(k - 1);
        shop_reasons(input, k - 1) + (if shop_short(input, shop) {
            seq![shop_reason(input, shop)]
        } else {
            Seq::empty()
        })
    }
}

pub open spec fn gold_short(input: PlannerInput) -> bool {
    total_surplus(input, input_targets(input), MAX_WEEKS as int) < need_upto(
        input.combat_skills@,
        input_targets(input),
        1,
        input.combat_skills@.len() as int,
    )
}

pub open spec fn gold_reason(input: PlannerInput) -> Seq<char> {
    "仙品（狗粮）不足：合计需要 "@ + decimal(
        need_upto(input.combat_skills@, input_targets(input), 1, input.combat_skills@.len() as int) as nat,
    ) + "，所有来源最多可提供 "@ + decimal(total_surplus(input, input_targets(input), MAX_WEEKS as int) as nat)
}

pub open spec fn conversion_reason() -> Seq<char> {
    "转换次数不足，无法在合理时间内完成本体书页的跨技能调配"@
}

pub open spec fn optional(c: bool, x: Seq<char>) -> Seq<Seq<char>> {
    if c {
        seq![x]
    } else {
        Seq::empty()
    }
}

/// The shortfalls within `MAX_WEEKS` weeks, in order: purple, blue, each shop's own pages,
/// other pages; when none applies, the conversions are what falls short.
pub open spec fn unreachable_reasons(input: PlannerInput) -> Seq<Seq<char>> {
    let r = optional(purple_short(input), purple_reason(input)) + optional(
        blue_short(input),
        blue_reason(input),
    ) + shop_reasons(input, SHOP_COUNT as int) + optional(gold_short(input), gold_reason(input));
    if r.len() == 0 {
        seq![conversion_reason()]
    } else {
        r
    }
}

pub open spec fn texts(v: Seq<String>) -> Seq<Seq<char>> {
    v.map_values(|s: String| s@)
}

fn push_text(v: &mut Vec<String>, s: String)
    ensures
        texts(final(v)@) == texts(old(v)@).push(s@),
{
    v.push(s);
    proof {
        assert(texts(v@) =~= texts(old(v)@).push(s@));
    }
}

/// Why the player's targets cannot be reached within `MAX_WEEKS` weeks.
pub fn generate_reasons(input: &PlannerInput) -> (reasons: Vec<String>)
    ensures
        texts(reasons@) == unreachable_reasons(*input),
{
    let adv = &input.advanced;
    let n = input.combat_skills.len();
    let targets = input_target_levels(input);
    let ghost skills = input.combat_skills@;
    let ghost t = targets@;
    let ghost w = MAX_WEEKS as int;

    let mut total_purple_need: u128 = 0;
    let mut total_blue_need: u128 = 0;
    let mut total_other_need: u128 = 0;
    let mut shop_pages_sum: Vec<u128> = vec![0, 0, 0, 0, 0];
    let mut shop_self_sum: Vec<u128> = vec![0, 0, 0, 0, 0];
    let mut i: usize = 0;
    while i < n
        invariant
            i <= n,
            n == skills.len(),
            skills == input.combat_skills@,
            t == targets@,
            t == input_targets(*input),
            t.len() == n,
            w == MAX_WEEKS,
            shop_pages_sum@.len() == SHOP_COUNT,
            shop_self_sum@.len() == SHOP_COUNT,
            total_other_need == need_upto(skills, t, 1, i as int),
            total_purple_need == need_upto(skills, t, 2, i as int),
            total_blue_need == need_upto(skills, t, 3, i as int),
            total_other_need <= need_bound() * i,
            total_purple_need <= need_bound() * i,
            total_blue_need <= need_bound() * i,
            forall|k: int|
                0 <= k < SHOP_COUNT ==> #[trigger] shop_pages_sum@[k] == shop_pages_upto(
                    skills,
                    Shop::spec_from_index(k),
                    w,
                    i as int,
                ) && shop_pages_sum@[k] <= page_bound() * i,
            forall|k: int|
                0 <= k < SHOP_COUNT ==> #[trigger] shop_self_sum@[k] == shop_self_upto(
                    skills,
                    t,
                    Shop::spec_from_index(k),
                    i as int,
                ) && shop_self_sum@[k] <= need_bound() * i,
        decreases n - i,
    {
        let s = &input.combat_skills[i];
        let tgt = targets[i];
        proof {
            crate::feasibility::lemma_skill_amounts_bounded(*s, tgt, w);
            assert(skill_need(*s, tgt, 0) <= need_bound());
            assert(skill_need(*s, tgt, 1) <= need_bound());
            assert(skill_need(*s, tgt, 2) <= need_bound());
            assert(skill_need(*s, tgt, 3) <= need_bound());
        }
        let tp = s.remaining_pages as u128 + skill_income_pages(s, MAX_WEEKS) as u128;
        let cost = total_cost_between(s.current_level, tgt);
        total_other_need = total_other_need + cost.other_pages as u128;
        total_purple_need = total_purple_need + cost.purple_pages as u128;
        total_blue_need = total_blue_need + cost.blue_pages as u128;
        let si = s.shop.index();
        let old_pages = shop_pages_sum[si];
        let old_self = shop_self_sum[si];
        shop_pages_sum.set(si, old_pages + tp);
        shop_self_sum.set(si, old_self + cost.self_pages as u128);
        proof {
            lemma_shop_index_roundtrip(s.shop);
            assert forall|k: int| 0 <= k < SHOP_COUNT implies #[trigger] shop_pages_sum@[k]
                == shop_pages_upto(skills, Shop::spec_from_index(k), w, i + 1) && shop_pages_sum@[k]
                <= page_bound() * (i + 1) by {
                if k != si as int {
                    assert(Shop::spec_from_index(k).index() == k);
                }
            }
            assert forall|k: int| 0 <= k < SHOP_COUNT implies #[trigger] shop_self_sum@[k]
                == shop_self_upto(skills, t, Shop::spec_from_index(k), i + 1) && shop_self_sum@[k]
                <= need_bound() * (i + 1) by {
                if k != si as int {
                    assert(Shop::spec_from_index(k).index() == k);
                }
            }
        }
        i = i + 1;
    }

    let mut reasons: Vec<String> = Vec::new();
    proof {
        assert(texts(reasons@) =~= Seq::<Seq<char>>::empty());
        vstd::arithmetic::mul::lemma_mul_upper_bound(
            adv.weekly_purple_income as int,
            0xffff_ffff,
            MAX_WEEKS as int,
            MAX_WEEKS as int,
        );
        vstd::arithmetic::mul::lemma_mul_upper_bound(
            adv.weekly_blue_income as int,
            0xffff_ffff,
            MAX_WEEKS as int,
            MAX_WEEKS as int,
        );
    }
    let max_purple = input.purple_pages as u128 + (adv.weekly_purple_income as u128) * (MAX_WEEKS as u128);
    let max_blue = input.blue_pages as u128 + (adv.weekly_blue_income as u128) * (MAX_WEEKS as u128);
    if max_purple < total_purple_need {
        let mut msg = String::from_str("紫色书页不足：合计需要 ");
        msg.append(decimal_string(total_purple_need).as_str());
        msg.append("，当前 ");
        msg.append(decimal_string(input.purple_pages as u128).as_str());
        msg.append(income_suffix_string(adv.weekly_purple_income).as_str());
        push_text(&mut reasons, msg);
    }
    let ghost after_purple = texts(reasons@);
    if max_blue < total_blue_need {
        let mut msg = String::from_str("蓝色书页不足：合计需要 ");
        msg.append(decimal_string(total_blue_need).as_str());
        msg.append("，当前 ");
        msg.append(decimal_string(input.blue_pages as u128).as_str());
        msg.append(income_suffix_string(adv.weekly_blue_income).as_str());
        push_text(&mut reasons, msg);
    }
    let ghost after_blue = texts(reasons@);
    proof {
        assert(after_purple == optional(purple_short(*input), purple_reason(*input)));
        assert(after_blue == optional(purple_short(*input), purple_reason(*input)) + optional(
            blue_short(*input),
            blue_reason(*input),
        ));
        assert(texts(reasons@) =~= after_blue + shop_reasons(*input, 0));
    }

    // Per shop: skill pages and fodder pool must cover the own pages needed
    let mut shop_surplus_sum: u128 = 0;
    let mut k: usize = 0;
    while k < SHOP_COUNT
        invariant
            k <= SHOP_COUNT,
            n == skills.len(),
            skills == input.combat_skills@,
            t == input_targets(*input),
            w == MAX_WEEKS,
            adv == input.advanced,
            shop_pages_sum@.len() == SHOP_COUNT,
            shop_self_sum@.len() == SHOP_COUNT,
            forall|j: int|
                0 <= j < SHOP_COUNT ==> #[trigger] shop_pages_sum@[j] == shop_pages_upto(
                    skills,
                    Shop::spec_from_index(j),
                    w,
                    n as int,
                ) && shop_pages_sum@[j] <= page_bound() * n,
            forall|j: int|
                0 <= j < SHOP_COUNT ==> #[trigger] shop_self_sum@[j] == shop_self_upto(
                    skills,
                    t,
                    Shop::spec_from_index(j),
                    n as int,
                ),
            texts(reasons@) == after_blue + shop_reasons(*input, k as int),
            shop_surplus_sum == surplus_upto(*input, t, w, k as int),
            shop_surplus_sum <= sum_bound() * k,
        decreases SHOP_COUNT - k,
    {
        let shop = Shop::from_index(k);
        proof {
            lemma_periodic_total_bounded(
                adv.shop_cycle(shop) as int,
                adv.weekly_shop_income.get(shop) as int,
                w,
            );
        }
        let fodder = adv.fodder_total_pages(shop, MAX_WEEKS) as u128;
        let shop_pages = shop_pages_sum[k];
        let shop_self = shop_self_sum[k];
        let ghost before = texts(reasons@);
        if shop_pages + fodder < shop_self {
            let mut msg = String::from_str("「");
            msg.append(shop_name_str(shop));
            msg.append("」商店本体书页不足：该商店技能合计需要 ");
            msg.append(decimal_string(shop_self).as_str());
            msg.append("，技能收入最多 ");
            msg.append(decimal_string(shop_pages).as_str());
            msg.append(" + 狗粮池最多 ");
            msg.append(decimal_string(fodder).as_str());
            push_text(&mut reasons, msg);
        }
        proof {
            assert(texts(reasons@) =~= after_blue + shop_reasons(*input, k + 1));
        }
        let a = shop_pages + fodder;
        let sur: u128 = if a > shop_self {
            a - shop_self
        } else {
            0
        };
        shop_surplus_sum = shop_surplus_sum + sur;
        k = k + 1;
    }

    // Other pages (金色): the skills' surplus and the fodder pools
    let ghost before_gold = texts(reasons@);
    if shop_surplus_sum < total_other_need {
        let mut msg = String::from_str("仙品（狗粮）不足：合计需要 ");
        msg.append(decimal_string(total_other_need).as_str());
        msg.append("，所有来源最多可提供 ");
        msg.append(decimal_string(shop_surplus_sum).as_str());
        push_text(&mut reasons, msg);
    }
    proof {
        assert(texts(reasons@) =~= before_gold + optional(gold_short(*input), gold_reason(*input)));
    }

    if reasons.len() == 0 {
        push_text(&mut reasons, String::from_str("转换次数不足，无法在合理时间内完成本体书页的跨技能调配"));
        proof {
            assert(texts(reasons@) =~= seq![conversion_reason()]);
        }
    }
    reasons
}

fn income_suffix_string(weekly: u32) -> (s: String)
    ensures
        s@ == income_suffix(weekly),
{
    if weekly > 0 {
        let mut s = String::from_str("（每周+");
        s.append(decimal_string(weekly as u128).as_str());
        s.append("，仍不够）");
        s
    } else {
        String::from_str("，且无每周收入")
    }
}


// --- the plan ---

/// The last week a plan covers (0 when it has none).
pub open spec fn plan_last_week(weeks: Seq<WeekPlan>) -> int {
    if weeks.len() > 0 {
        weeks.last().week as int
    } else {
        0
    }
}

/// `w` is the fewest weeks within which the player's targets meet the resource conditions.
pub open spec fn least_weeks(input: PlannerInput, w: int) -> bool {
    &&& 0 <= w <= MAX_WEEKS
    &&& feasible(input, input_targets(input), w)
    &&& forall|v: int| 0 <= v < w ==> !#[trigger] feasible(input, input_targets(input), v)
}

/// `ws` is a simulation towards targets `t`: each week follows from the last and makes its
/// choices as the simulation does, week 0 appears only when something happens in it, a later
/// week only while some skill is below its target, and it stays within the horizon.
pub open spec fn simulation_towards(input: PlannerInput, t: Seq<SkillLevel>, ws: Seq<WeekPlan>) -> bool {
    &&& plan_follows(input, t, ws)
    &&& plan_runs(input, t, ws)
    &&& plan_last_week(ws) <= HORIZON_WEEKS
    &&& forall|k: int| 0 <= k < ws.len() - 1 ==> snapshot_unfinished(#[trigger] ws[k].snapshot, t)
    &&& ws.len() > 0 && ws[0].week == 0 ==> ws[0].conversions@.len() + ws[0].upgrades@.len() > 0
    &&& ws.len() > 0 && ws[0].week == 1 ==> levels_unfinished(input_levels(input), t)
}

/// The rounds of choosing the targets: horizon `hs[i]` with targets `ts[i]` in round `i`. The
/// first horizon is the fewest weeks within which the player's targets meet the resource
/// conditions; the targets of each round are raised as far as its horizon allows; and a round
/// follows when the simulation `wss[i]` towards the previous round's targets ran past its
/// horizon to week `hs[i + 1]`, and the targets chosen for that week differ.
pub open spec fn replan_rounds(
    input: PlannerInput,
    hs: Seq<int>,
    ts: Seq<Seq<SkillLevel>>,
    wss: Seq<Seq<WeekPlan>>,
) -> bool {
    &&& hs.len() >= 1
    &&& ts.len() == hs.len()
    &&& wss.len() == hs.len() - 1
    &&& least_weeks(input, hs[0])
    &&& forall|i: int| 0 <= i < hs.len() ==> #[trigger] bonus_optimal(input, ts[i], hs[i])
    &&& forall|i: int|
        0 <= i < hs.len() - 1 ==> #[trigger] simulation_towards(input, ts[i], wss[i]) && plan_last_week(wss[i])
            == hs[i + 1] && hs[i] < hs[i + 1] && !same_targets(ts[i + 1], ts[i])
}

/// The same targets, skill by skill.
pub open spec fn same_targets(a: Seq<SkillLevel>, b: Seq<SkillLevel>) -> bool {
    a == b
}

/// The plan `ws`, ending on levels `fin`, is simulated towards targets `t`, chosen for a
/// horizon of `w` weeks: `w` is the horizon of the last of at most eleven rounds of choosing
/// the targets (`replan_rounds`), and the rounds stopped because the simulation ended within `w` weeks, or the
/// targets chosen for its last week are `t` again, or ten rounds were used; the player's
/// targets meet the resource conditions within `w` weeks and `t` raises them as far as those
/// conditions allow; the weekly plan is a faithful record of the simulation towards `t` (week
/// 0 appears only when something happens in it, a later week only while some skill is below
/// its target) that stops once every target is reached, its final levels are where the plan
/// ends, and every target is reached unless the horizon ran out or the next week's amounts
/// would not fit in 32 bits.
pub open spec fn planned_towards(
    input: PlannerInput,
    t: Seq<SkillLevel>,
    w: int,
    ws: Seq<WeekPlan>,
    fin: Seq<SkillLevel>,
) -> bool {
    let last = plan_last_week(ws);
    &&& 0 <= w <= HORIZON_WEEKS
    &&& exists|hs: Seq<int>, ts: Seq<Seq<SkillLevel>>, wss: Seq<Seq<WeekPlan>>|
        #[trigger] replan_rounds(input, hs, ts, wss) && hs.len() <= 11 && hs.last() == w && ts.last() == t && (last
            <= w || bonus_optimal(input, t, last) || hs.len() == 11)
    &&& feasible(input, input_targets(input), w)
    &&& bonus_optimal(input, t, w)
    &&& simulation_towards(input, t, ws)
    &&& fin == plan_final_levels(input, ws)
    &&& fin.len() == input.combat_skills@.len()
    &&& last < HORIZON_WEEKS && amounts_fit(input, last + 1) ==> forall|i: int|
        0 <= i < fin.len() ==> t[i].index() <= #[trigger] fin[i].index()
    &&& forall|i: int|
        0 <= i < fin.len() ==> input_levels(input)[i].index() <= #[trigger] fin[i].index() && (
        fin[i].index() <= input_levels(input)[i].index() || fin[i].index() <= t[i].index())
}

/// Every skill of `fin` is at or above the player's target.
pub open spec fn reaches_targets(input: PlannerInput, fin: Seq<SkillLevel>) -> bool {
    forall|i: int| 0 <= i < fin.len() ==> input_targets(input)[i].index() <= #[trigger] fin[i].index()
}

fn input_current_levels(input: &PlannerInput) -> (r: Vec<SkillLevel>)
    ensures
        r@ == input_levels(*input),
{
    let n = input.combat_skills.len();
    let mut r: Vec<SkillLevel> = Vec::new();
    let mut i: usize = 0;
    while i < n
        invariant
            i <= n,
            n == input.combat_skills.len(),
            r@ == input_levels(*input).take(i as int),
        decreases n - i,
    {
        r.push(input.combat_skills[i].current_level);
        i = i + 1;
        proof {
            assert(r@ =~= input_levels(*input).take(i as int));
        }
    }
    proof {
        assert(input_levels(*input).take(n as int) =~= input_levels(*input));
    }
    r
}

fn same_levels(a: &Vec<SkillLevel>, b: &Vec<SkillLevel>) -> (r: bool)
    ensures
        r == (a@ == b@),
{
    if a.len() != b.len() {
        return false;
    }
    let mut i: usize = 0;
    while i < a.len()
        invariant
            i <= a.len(),
            a.len() == b.len(),
            forall|j: int| 0 <= j < i ==> a@[j] == b@[j],
        decreases a.len() - i,
    {
        if a[i] != b[i] {
            return false;
        }
        i = i + 1;
    }
    proof {
        assert(a@ =~= b@);
    }
    true
}

/// Whether every skill of `fin` is at or above the player's target.
fn targets_reached(input: &PlannerInput, fin: &Vec<SkillLevel>) -> (r: bool)
    requires
        fin.len() == input.combat_skills.len(),
    ensures
        r == reaches_targets(*input, fin@),
{
    let mut i: usize = 0;
    while i < fin.len()
        invariant
            i <= fin.len(),
            fin.len() == input.combat_skills.len(),
            forall|j: int| 0 <= j < i ==> input_targets(*input)[j].index() <= #[trigger] fin@[j].index(),
        decreases fin.len() - i,
    {
        if fin[i].index() < input.combat_skills[i].target_level.index() {
            return false;
        }
        i = i + 1;
    }
    true
}

/// Raise the targets for the fewest weeks `min_weeks` and simulate; when the simulation needs
/// more weeks than the horizon and the targets for its last week differ, choose them again for
/// that longer horizon and simulate again, at most ten times.
fn plan_with_rounds(input: &PlannerInput, min_weeks: u32) -> (r: (Vec<WeekPlan>, Vec<SkillLevel>))
    requires
        amounts_fit(*input, 0),
        least_weeks(*input, min_weeks as int),
    ensures
        exists|t: Seq<SkillLevel>, w: int| #[trigger] planned_towards(*input, t, w, r.0@, r.1@),
{
    let mut effective_weeks = min_weeks;
    let mut final_targets = find_bonus_levels(input, effective_weeks);
    proof {
        lemma_feasible_monotone(*input, input_targets(*input), min_weeks as int, MAX_WEEKS as int);
    }
    // The resource conditions count conversions over the whole horizon, the simulation week by week, so it
    // may need more weeks; their extra income may allow higher targets.
    let mut round: u32 = 0;
    let ghost mut hs: Seq<int> = seq![min_weeks as int];
    let ghost mut ts: Seq<Seq<SkillLevel>> = seq![final_targets@];
    let ghost mut wss: Seq<Seq<WeekPlan>> = Seq::empty();
    proof {
        assert(replan_rounds(*input, hs, ts, wss));
    }
    while round < 10
        invariant
            round <= 10,
            effective_weeks <= HORIZON_WEEKS,
            feasible(*input, input_targets(*input), effective_weeks as int),
            bonus_optimal(*input, final_targets@, effective_weeks as int),
            amounts_fit(*input, 0),
            replan_rounds(*input, hs, ts, wss),
            hs.len() == round + 1,
            hs.last() == effective_weeks,
            ts.last() == final_targets@,
        decreases 10 - round,
    {
        let (weeks, actual_weeks, final_levels) = simulate_plan(input, &final_targets);
        let ghost ws = weeks@;
        proof {
            assert(simulation_towards(*input, final_targets@, ws));
        }
        if actual_weeks <= effective_weeks {
            proof {
            }
            let r = (weeks, final_levels);
            proof {
                assert(planned_towards(*input, final_targets@, effective_weeks as int, r.0@, r.1@));
            }
            return r;
        }
        proof {
            lemma_feasible_monotone(*input, input_targets(*input), effective_weeks as int, actual_weeks as int);
        }
        let new_targets = find_bonus_levels(input, actual_weeks);
        if same_levels(&new_targets, &final_targets) {
            proof {
            }
            let r = (weeks, final_levels);
            proof {
                assert(planned_towards(*input, final_targets@, effective_weeks as int, r.0@, r.1@));
            }
            return r;
        }
        proof {
            assert(plan_last_week(ws) == actual_weeks);
            assert(!same_targets(new_targets@, final_targets@));
            let hs2 = hs.push(actual_weeks as int);
            let ts2 = ts.push(new_targets@);
            let wss2 = wss.push(ws);
            assert forall|i: int| 0 <= i < hs2.len() implies #[trigger] bonus_optimal(*input, ts2[i], hs2[i]) by {
                if i < hs.len() {
                    assert(bonus_optimal(*input, ts[i], hs[i]));
                }
            }
            assert forall|i: int| 0 <= i < hs2.len() - 1 implies #[trigger] simulation_towards(*input, ts2[i], wss2[i])
                && plan_last_week(wss2[i]) == hs2[i + 1] && hs2[i] < hs2[i + 1] && !same_targets(ts2[i + 1], ts2[i]) by {
                if i < hs.len() - 1 {
                    assert(simulation_towards(*input, ts[i], wss[i]) && plan_last_week(wss[i]) == hs[i + 1]
                        && hs[i] < hs[i + 1] && !same_targets(ts[i + 1], ts[i]));
                }
            }
            assert(replan_rounds(*input, hs2, ts2, wss2));
            hs = hs2;
            ts = ts2;
            wss = wss2;
        }
        effective_weeks = actual_weeks;
        final_targets = new_targets;
        round = round + 1;
    }
    // The rounds are used up: keep the last targets
    let (weeks, _, final_levels) = simulate_plan(input, &final_targets);
    proof {
    }
    let r = (weeks, final_levels);
    proof {
        assert(planned_towards(*input, final_targets@, effective_weeks as int, r.0@, r.1@));
    }
    r
}

/// Plan the upgrades: find the least number of weeks within which the player's targets can be
/// reached, raise the targets as far as that horizon allows, and simulate week by week. When
/// the simulation needs more weeks than expected, the extra weeks' income may allow higher
/// targets: the targets are chosen again for the longer horizon (at most ten times). A plan is
/// returned only when it reaches every one of the player's targets; otherwise, or when the
/// targets cannot be reached within `MAX_WEEKS` weeks, say why.
pub fn run_planner(input: &PlannerInput) -> (out: PlannerOutput)
    requires
        amounts_fit(*input, 0),
    ensures
        out.feasible ==> {
            &&& feasible(*input, input_targets(*input), MAX_WEEKS as int)
            &&& out.unreachable_reasons@.len() == 0
            &&& exists|t: Seq<SkillLevel>, w: int| #[trigger] planned_towards(*input, t, w, out.weeks@, out.final_levels@)
            &&& reaches_targets(*input, out.final_levels@)
        },
        !out.feasible ==> {
            &&& out.weeks@.len() == 0
            &&& out.final_levels@ == input_levels(*input)
            &&& texts(out.unreachable_reasons@) == unreachable_reasons(*input)
        },
        !out.feasible && feasible(*input, input_targets(*input), MAX_WEEKS as int) ==> exists|
            t: Seq<SkillLevel>,
            w: int,
            ws: Seq<WeekPlan>,
            fin: Seq<SkillLevel>,
        | #[trigger] planned_towards(*input, t, w, ws, fin) && !reaches_targets(*input, fin),
{
    let min_weeks = match find_minimum_weeks(input) {
        Some(w) => w,
        None => {
            return PlannerOutput {
                feasible: false,
                weeks: Vec::new(),
                unreachable_reasons: generate_reasons(input),
                final_levels: input_current_levels(input),
            };
        },
    };
    proof {
        assert(least_weeks(*input, min_weeks as int));
        lemma_feasible_monotone(*input, input_targets(*input), min_weeks as int, MAX_WEEKS as int);
    }
    let (weeks, final_levels) = plan_with_rounds(input, min_weeks);
    let ghost t_w = choose|t: Seq<SkillLevel>, w: int| #[trigger] planned_towards(*input, t, w, weeks@, final_levels@);
    if !targets_reached(input, &final_levels) {
        proof {
            assert(planned_towards(*input, t_w.0, t_w.1, weeks@, final_levels@) && !reaches_targets(*input, final_levels@));
        }
        return PlannerOutput {
            feasible: false,
            weeks: Vec::new(),
            unreachable_reasons: generate_reasons(input),
            final_levels: input_current_levels(input),
        };
    }
    let out = PlannerOutput { feasible: true, weeks, unreachable_reasons: Vec::new(), final_levels };
    proof {
        assert(planned_towards(*input, t_w.0, t_w.1, out.weeks@, out.final_levels@));
    }
    out
}

} // verus!
