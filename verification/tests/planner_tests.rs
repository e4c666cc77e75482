use wenjian_skill::bonus::find_bonus_levels;
use wenjian_skill::feasibility::{check_feasibility, find_minimum_weeks};
use wenjian_skill::income::{skill_gets_income, skill_income_pages};
use wenjian_skill::models::{
    upgrade_cost, AdvancedSettings, CombatSkillInput, ConversionAction, GoldDraw, GoldSource,
    PlannerInput, PlannerOutput, Shop, ShopAcquisition, ShopMap, SkillLevel, FROM_POOL,
};
use wenjian_skill::planner::{generate_reasons, run_planner};

fn skill(shop: Shop, cur: SkillLevel, pages: u32, tgt: SkillLevel, cycle: u32, batch: u32) -> CombatSkillInput {
    CombatSkillInput {
        shop,
        current_level: cur,
        remaining_pages: pages,
        target_level: tgt,
        label: String::from("skill"),
        income_cycle_weeks: cycle,
        income_batch_count: batch,
    }
}

fn settings(stones: u32, pools: ShopMap, free: u32) -> AdvancedSettings {
    AdvancedSettings {
        conversion_stones: stones,
        non_combat_pools: pools,
        weekly_shop_income: ShopMap::zero(),
        daoyun_cycle_weeks: 0,
        baizu_cycle_weeks: 0,
        free_conversions_per_week: free,
        weekly_purple_income: 0,
        weekly_blue_income: 0,
    }
}

fn input(skills: Vec<CombatSkillInput>, purple: u32, blue: u32, advanced: AdvancedSettings) -> PlannerInput {
    PlannerInput { combat_skills: skills, purple_pages: purple, blue_pages: blue, advanced }
}

fn targets(inp: &PlannerInput) -> Vec<SkillLevel> {
    inp.combat_skills.iter().map(|s| s.target_level).collect()
}

fn pools_of(m: &ShopMap) -> [i64; 5] {
    [m.lun_jian as i64, m.zhu_tian as i64, m.zong_men as i64, m.dao_yun as i64, m.bai_zu as i64]
}

/// Replays a plan from the input and checks every snapshot and every action.
fn check_replay(inp: &PlannerInput, out: &PlannerOutput) {
    let n = inp.combat_skills.len();
    let mut levels: Vec<usize> = inp.combat_skills.iter().map(|s| s.current_level.index()).collect();
    let mut pages: Vec<i64> = inp.combat_skills.iter().map(|s| s.remaining_pages as i64).collect();
    let mut pools = pools_of(&inp.advanced.non_combat_pools);
    let mut purple = inp.purple_pages as i64;
    let mut blue = inp.blue_pages as i64;
    let mut stones = inp.advanced.conversion_stones as i64;
    for (k, wp) in out.weeks.iter().enumerate() {
        assert_eq!(wp.week, out.weeks[0].week + k as u32);
        if wp.week > 0 {
            purple += inp.advanced.weekly_purple_income as i64;
            blue += inp.advanced.weekly_blue_income as i64;
        }
        for a in &wp.acquisitions {
            match a.target_skill_index {
                Some(i) => {
                    assert_eq!(a.shop, inp.combat_skills[i].shop);
                    pages[i] += a.pages as i64;
                }
                None => pools[a.shop.index()] += a.pages as i64,
            }
        }
        let mut free_used = 0;
        for c in &wp.conversions {
            assert_eq!(c.pages, 40);
            assert_eq!(inp.combat_skills[c.target_skill_index].shop, c.shop);
            if c.from_skill_index == FROM_POOL {
                pools[c.shop.index()] -= 40;
            } else {
                assert!(c.from_skill_index < n);
                assert_ne!(c.from_skill_index, c.target_skill_index);
                assert_eq!(inp.combat_skills[c.from_skill_index].shop, c.shop);
                pages[c.from_skill_index] -= 40;
            }
            pages[c.target_skill_index] += 40;
            if c.used_stone {
                stones -= 1;
            } else {
                free_used += 1;
            }
        }
        assert!(free_used <= inp.advanced.free_conversions_per_week);
        // slots: first up to three free conversions, then stones, then the other free ones
        let prio = inp.advanced.free_conversions_per_week.min(3) as usize;
        let stones_used = wp.conversions.iter().filter(|c| c.used_stone).count();
        for (k, c) in wp.conversions.iter().enumerate() {
            assert_eq!(c.used_stone, prio <= k && k < prio + stones_used);
        }
        for u in &wp.upgrades {
            let i = u.skill_index;
            assert_eq!(u.from_level.index(), levels[i]);
            assert_eq!(u.to_level.index(), levels[i] + 1);
            let cost = upgrade_cost(u.to_level);
            assert_eq!(u.self_pages_used, cost.self_pages);
            assert_eq!(u.purple_pages_used, cost.purple_pages);
            assert_eq!(u.blue_pages_used, cost.blue_pages);
            let drawn: u32 = u.other_pages_consumed.iter().map(|d| d.pages).sum();
            assert_eq!(drawn, cost.other_pages);
            pages[i] -= u.self_pages_used as i64;
            for d in &u.other_pages_consumed {
                assert!(d.pages > 0);
                match d.source {
                    GoldSource::Pool(s) => pools[s.index()] -= d.pages as i64,
                    GoldSource::Skill(j) => {
                        assert_ne!(j, i);
                        pages[j] -= d.pages as i64;
                    }
                }
            }
            purple -= u.purple_pages_used as i64;
            blue -= u.blue_pages_used as i64;
            levels[i] += 1;
        }
        let snap = &wp.snapshot;
        let snap_levels: Vec<usize> = snap.skill_levels.iter().map(|l| l.index()).collect();
        assert_eq!(snap_levels, levels);
        let snap_pages: Vec<i64> = snap.skill_pages.iter().map(|p| *p as i64).collect();
        assert_eq!(snap_pages, pages);
        assert_eq!(pools_of(&snap.non_combat_pools), pools);
        assert_eq!(snap.purple_pages as i64, purple);
        assert_eq!(snap.blue_pages as i64, blue);
        assert_eq!(snap.conversion_stones_left as i64, stones);
    }
    let fin: Vec<usize> = out.final_levels.iter().map(|l| l.index()).collect();
    assert_eq!(fin, levels);
}

// One 论剑 skill from 1星 to 2星 that receives 40 pages every week.
fn one_week_input() -> PlannerInput {
    input(
        vec![skill(Shop::LunJian, SkillLevel::Star1, 0, SkillLevel::Star2, 1, 1)],
        100,
        200,
        settings(0, ShopMap::zero(), 0),
    )
}

#[test]
fn income_schedule_values() {
    let s = skill(Shop::LunJian, SkillLevel::Star1, 0, SkillLevel::Star2, 3, 2);
    assert_eq!(skill_income_pages(&s, 0), 0);
    assert_eq!(skill_income_pages(&s, 2), 0);
    assert_eq!(skill_income_pages(&s, 3), 80);
    assert_eq!(skill_income_pages(&s, 10), 240);
    assert_eq!(skill_gets_income(&s, 0), 0);
    assert_eq!(skill_gets_income(&s, 3), 80);
    assert_eq!(skill_gets_income(&s, 4), 0);
    let never = skill(Shop::LunJian, SkillLevel::Star1, 0, SkillLevel::Star2, 0, 5);
    assert_eq!(skill_income_pages(&never, 10), 0);
    assert_eq!(skill_gets_income(&never, 10), 0);
}

#[test]
fn income_over_weeks_is_sum_of_weekly_income() {
    let s = skill(Shop::ZongMen, SkillLevel::Star1, 0, SkillLevel::Star2, 3, 2);
    let mut sum = 0u128;
    for w in 1..=20u32 {
        sum += skill_gets_income(&s, w) as u128;
        assert_eq!(sum, skill_income_pages(&s, w));
    }
}

#[test]
fn fodder_schedule_values() {
    let mut adv = settings(0, ShopMap::zero(), 0);
    adv.non_combat_pools.set(Shop::DaoYun, 5);
    adv.weekly_shop_income.set(Shop::DaoYun, 30);
    adv.weekly_shop_income.set(Shop::LunJian, 7);
    adv.daoyun_cycle_weeks = 4;
    assert_eq!(adv.shop_cycle(Shop::LunJian), 1);
    assert_eq!(adv.shop_cycle(Shop::DaoYun), 4);
    assert_eq!(adv.shop_cycle(Shop::BaiZu), 0);
    assert_eq!(adv.fodder_initial_pages(Shop::DaoYun), 5);
    assert_eq!(adv.fodder_pages_in_week(Shop::DaoYun, 4), 30);
    assert_eq!(adv.fodder_pages_in_week(Shop::DaoYun, 5), 0);
    assert_eq!(adv.fodder_pages_in_week(Shop::LunJian, 5), 7);
    assert_eq!(adv.fodder_pages_in_week(Shop::BaiZu, 5), 0);
    assert_eq!(adv.fodder_total_pages(Shop::DaoYun, 10), 65);
    assert_eq!(adv.fodder_total_pages(Shop::LunJian, 10), 70);
    let mut sum = adv.fodder_initial_pages(Shop::DaoYun) as u64;
    for w in 1..=12u32 {
        sum += adv.fodder_pages_in_week(Shop::DaoYun, w) as u64;
        assert_eq!(sum, adv.fodder_total_pages(Shop::DaoYun, w));
    }
}

#[test]
fn feasibility_needs_a_week_of_income() {
    let inp = one_week_input();
    let t = targets(&inp);
    assert!(!check_feasibility(&inp, &t, 0));
    assert!(check_feasibility(&inp, &t, 1));
    assert_eq!(find_minimum_weeks(&inp), Some(1));
}

#[test]
fn feasibility_is_monotone_in_weeks() {
    let inp = input(
        vec![
            skill(Shop::LunJian, SkillLevel::Star1, 0, SkillLevel::Xuan2, 2, 1),
            skill(Shop::ZhuTian, SkillLevel::Star3, 100, SkillLevel::Xuan1, 3, 2),
        ],
        1000,
        2000,
        AdvancedSettings {
            conversion_stones: 1,
            non_combat_pools: ShopMap::zero(),
            weekly_shop_income: ShopMap { lun_jian: 20, zhu_tian: 0, zong_men: 0, dao_yun: 0, bai_zu: 0 },
            daoyun_cycle_weeks: 0,
            baizu_cycle_weeks: 0,
            free_conversions_per_week: 1,
            weekly_purple_income: 0,
            weekly_blue_income: 0,
        },
    );
    let t = targets(&inp);
    let mut seen = false;
    for w in 0..60u32 {
        let f = check_feasibility(&inp, &t, w);
        if seen {
            assert!(f);
        }
        seen = seen || f;
    }
    assert!(seen);
    let m = find_minimum_weeks(&inp).unwrap();
    assert!(check_feasibility(&inp, &t, m));
    if m > 0 {
        assert!(!check_feasibility(&inp, &t, m - 1));
    }
}

#[test]
fn minimum_weeks_none_when_never_enough() {
    let inp = input(
        vec![skill(Shop::LunJian, SkillLevel::Star1, 0, SkillLevel::Star2, 0, 0)],
        100,
        200,
        settings(0, ShopMap::zero(), 0),
    );
    assert_eq!(find_minimum_weeks(&inp), None);
}

#[test]
fn bonus_raises_to_the_top_with_plenty() {
    let mut pools = ShopMap::zero();
    pools.set(Shop::ZhuTian, 100000);
    let inp = input(
        vec![skill(Shop::LunJian, SkillLevel::Star1, 100000, SkillLevel::Star1, 0, 0)],
        10000,
        20000,
        settings(0, pools, 0),
    );
    assert_eq!(find_bonus_levels(&inp, 0), vec![SkillLevel::Tian5]);
}

#[test]
fn bonus_keeps_targets_when_nothing_more_fits() {
    let inp = one_week_input();
    assert_eq!(find_bonus_levels(&inp, 1), vec![SkillLevel::Star2]);
}

#[test]
fn bonus_shares_scarce_purple_pages() {
    // Purple pages for exactly one extra level: the first skill gets it
    let inp = input(
        vec![
            skill(Shop::LunJian, SkillLevel::Star1, 1000, SkillLevel::Star1, 0, 0),
            skill(Shop::LunJian, SkillLevel::Star1, 1000, SkillLevel::Star1, 0, 0),
        ],
        100,
        100000,
        settings(0, ShopMap::zero(), 0),
    );
    assert_eq!(find_bonus_levels(&inp, 0), vec![SkillLevel::Star2, SkillLevel::Star1]);
}

#[test]
fn bonus_total_is_maximal() {
    // Whatever extra levels meet the resource conditions, the chosen ones add at least as many
    let inp = input(
        vec![
            skill(Shop::LunJian, SkillLevel::Star1, 200, SkillLevel::Star2, 1, 1),
            skill(Shop::ZhuTian, SkillLevel::Xuan1, 300, SkillLevel::Xuan1, 2, 1),
        ],
        800,
        2000,
        settings(0, ShopMap { lun_jian: 0, zhu_tian: 400, zong_men: 0, dao_yun: 0, bai_zu: 0 }, 2),
    );
    let w = 3;
    let best = find_bonus_levels(&inp, w);
    let gain: usize = best.iter().zip(inp.combat_skills.iter()).map(|(b, s)| b.index() - s.target_level.index()).sum();
    for a in 0..=12usize {
        for b in 0..=10usize {
            let t = vec![SkillLevel::from_index(1 + a), SkillLevel::from_index(3 + b)];
            if check_feasibility(&inp, &t, w) {
                assert!(a + b <= gain);
            }
        }
    }
    if gain > 0 {
        assert!(check_feasibility(&inp, &best, w));
    }
}

#[test]
fn plan_one_week_of_income() {
    let inp = one_week_input();
    let out = run_planner(&inp);
    assert!(out.feasible);
    assert!(out.unreachable_reasons.is_empty());
    assert_eq!(out.final_levels, vec![SkillLevel::Star2]);
    assert_eq!(out.weeks.len(), 1);
    let wp = &out.weeks[0];
    assert_eq!(wp.week, 1);
    assert_eq!(wp.acquisitions, vec![ShopAcquisition { shop: Shop::LunJian, target_skill_index: Some(0), pages: 40 }]);
    assert!(wp.conversions.is_empty());
    assert_eq!(wp.upgrades.len(), 1);
    let u = &wp.upgrades[0];
    assert_eq!(u.skill_index, 0);
    assert_eq!(u.from_level, SkillLevel::Star1);
    assert_eq!(u.to_level, SkillLevel::Star2);
    assert_eq!(u.self_pages_used, 40);
    assert_eq!(u.purple_pages_used, 100);
    assert_eq!(u.blue_pages_used, 200);
    assert!(u.other_pages_consumed.is_empty());
    assert_eq!(wp.snapshot.skill_pages, vec![0]);
    assert_eq!(wp.snapshot.purple_pages, 0);
    assert_eq!(wp.snapshot.blue_pages, 0);
    check_replay(&inp, &out);
}

#[test]
fn plan_converts_from_pool_in_week_zero() {
    let mut pools = ShopMap::zero();
    pools.set(Shop::LunJian, 40);
    let inp = input(
        vec![skill(Shop::LunJian, SkillLevel::Star1, 0, SkillLevel::Star2, 0, 0)],
        100,
        200,
        settings(0, pools, 1),
    );
    let out = run_planner(&inp);
    assert!(out.feasible);
    assert_eq!(out.weeks.len(), 1);
    let wp = &out.weeks[0];
    assert_eq!(wp.week, 0);
    assert!(wp.acquisitions.is_empty());
    assert_eq!(
        wp.conversions,
        vec![ConversionAction {
            shop: Shop::LunJian,
            target_skill_index: 0,
            from_skill_index: FROM_POOL,
            used_stone: false,
            pages: 40,
        }]
    );
    assert_eq!(wp.upgrades.len(), 1);
    assert_eq!(wp.snapshot.non_combat_pools, ShopMap::zero());
    assert_eq!(out.final_levels, vec![SkillLevel::Star2]);
    check_replay(&inp, &out);
}

#[test]
fn plan_converts_from_donor_with_stone() {
    let inp = input(
        vec![
            skill(Shop::LunJian, SkillLevel::Star1, 0, SkillLevel::Star2, 0, 0),
            skill(Shop::LunJian, SkillLevel::Star2, 80, SkillLevel::Star2, 0, 0),
        ],
        100,
        200,
        settings(1, ShopMap::zero(), 0),
    );
    let out = run_planner(&inp);
    assert!(out.feasible);
    assert_eq!(out.weeks.len(), 1);
    let wp = &out.weeks[0];
    assert_eq!(
        wp.conversions,
        vec![ConversionAction {
            shop: Shop::LunJian,
            target_skill_index: 0,
            from_skill_index: 1,
            used_stone: true,
            pages: 40,
        }]
    );
    assert_eq!(wp.snapshot.skill_pages, vec![0, 40]);
    assert_eq!(wp.snapshot.conversion_stones_left, 0);
    assert_eq!(out.final_levels, vec![SkillLevel::Star2, SkillLevel::Star2]);
    check_replay(&inp, &out);
}

#[test]
fn plan_draws_other_pages_from_pool_then_skill() {
    let mut pools = ShopMap::zero();
    pools.set(Shop::ZhuTian, 100);
    let inp = input(
        vec![
            skill(Shop::LunJian, SkillLevel::Star2, 0, SkillLevel::Star3, 0, 0),
            skill(Shop::ZhuTian, SkillLevel::Tian5, 50, SkillLevel::Tian5, 0, 0),
        ],
        100,
        200,
        settings(0, pools, 0),
    );
    let out = run_planner(&inp);
    assert!(out.feasible);
    assert_eq!(out.weeks.len(), 1);
    let u = &out.weeks[0].upgrades[0];
    assert_eq!(u.to_level, SkillLevel::Star3);
    assert_eq!(
        u.other_pages_consumed,
        vec![
            GoldDraw { source: GoldSource::Pool(Shop::ZhuTian), pages: 100 },
            GoldDraw { source: GoldSource::Skill(1), pages: 20 },
        ]
    );
    assert_eq!(out.weeks[0].snapshot.skill_pages, vec![0, 30]);
    check_replay(&inp, &out);
}

#[test]
fn plan_over_many_weeks_replays() {
    let inp = input(
        vec![
            skill(Shop::LunJian, SkillLevel::Star1, 0, SkillLevel::Xuan2, 1, 1),
            skill(Shop::ZhuTian, SkillLevel::Star2, 40, SkillLevel::Xuan1, 2, 1),
            skill(Shop::LunJian, SkillLevel::Di1, 0, SkillLevel::Di1, 1, 2),
            skill(Shop::DaoYun, SkillLevel::Star1, 0, SkillLevel::Star3, 3, 1),
        ],
        300,
        600,
        AdvancedSettings {
            conversion_stones: 2,
            non_combat_pools: ShopMap { lun_jian: 100, zhu_tian: 0, zong_men: 50, dao_yun: 0, bai_zu: 0 },
            weekly_shop_income: ShopMap { lun_jian: 10, zhu_tian: 20, zong_men: 0, dao_yun: 40, bai_zu: 15 },
            daoyun_cycle_weeks: 2,
            baizu_cycle_weeks: 4,
            free_conversions_per_week: 1,
            weekly_purple_income: 100,
            weekly_blue_income: 250,
        },
    );
    let out = run_planner(&inp);
    assert!(out.feasible);
    assert!(!out.weeks.is_empty());
    check_replay(&inp, &out);
    for (fin, s) in out.final_levels.iter().zip(inp.combat_skills.iter()) {
        assert!(fin.index() >= s.current_level.index());
    }
}

#[test]
fn reasons_purple_and_blue_without_income() {
    let inp = input(
        vec![skill(Shop::LunJian, SkillLevel::Star1, 0, SkillLevel::Star2, 1, 1)],
        0,
        0,
        settings(0, ShopMap::zero(), 0),
    );
    let out = run_planner(&inp);
    assert!(!out.feasible);
    assert!(out.weeks.is_empty());
    assert_eq!(out.final_levels, vec![SkillLevel::Star1]);
    assert_eq!(
        out.unreachable_reasons,
        vec![
            String::from("紫色书页不足：合计需要 100，当前 0，且无每周收入"),
            String::from("蓝色书页不足：合计需要 200，当前 0，且无每周收入"),
        ]
    );
}

#[test]
fn reasons_purple_with_income() {
    let mut adv = settings(0, ShopMap::zero(), 0);
    adv.weekly_purple_income = 10;
    adv.weekly_blue_income = 100;
    let inp = input(vec![skill(Shop::LunJian, SkillLevel::Star1, 0, SkillLevel::Tian5, 1, 1)], 10, 0, adv);
    assert_eq!(
        generate_reasons(&inp),
        vec![String::from("紫色书页不足：合计需要 6750，当前 10（每周+10，仍不够）")]
    );
}

#[test]
fn reasons_shop_and_other_pages() {
    let inp = input(
        vec![skill(Shop::ZhuTian, SkillLevel::Star1, 0, SkillLevel::Star3, 0, 0)],
        1000,
        1000,
        settings(0, ShopMap::zero(), 0),
    );
    let out = run_planner(&inp);
    assert!(!out.feasible);
    assert_eq!(
        out.unreachable_reasons,
        vec![
            String::from("「诸天」商店本体书页不足：该商店技能合计需要 40，技能收入最多 0 + 狗粮池最多 0"),
            String::from("仙品（狗粮）不足：合计需要 120，所有来源最多可提供 0"),
        ]
    );
}

#[test]
fn reasons_fall_back_to_conversions() {
    let mut pools = ShopMap::zero();
    pools.set(Shop::LunJian, 40);
    let inp = input(
        vec![skill(Shop::LunJian, SkillLevel::Star1, 0, SkillLevel::Star2, 0, 0)],
        100,
        200,
        settings(0, pools, 0),
    );
    let out = run_planner(&inp);
    assert!(!out.feasible);
    assert_eq!(
        out.unreachable_reasons,
        vec![String::from("转换次数不足，无法在合理时间内完成本体书页的跨技能调配")]
    );
}

#[test]
fn nothing_to_do_gives_empty_plan() {
    let inp = input(
        vec![skill(Shop::BaiZu, SkillLevel::Tian5, 0, SkillLevel::Tian5, 0, 0)],
        0,
        0,
        settings(0, ShopMap::zero(), 0),
    );
    let out = run_planner(&inp);
    assert!(out.feasible);
    assert!(out.weeks.is_empty());
    assert_eq!(out.final_levels, vec![SkillLevel::Tian5]);
}

#[test]
fn plan_uses_conversion_slots_in_order() {
    // 1星 → 地1 needs 360 own pages (9 conversions); the purple pages allow no level more.
    // Week 0 has 5 free conversions and 2 stones: three free ones, the stones, then the
    // other two free ones.
    let mut pools = ShopMap::zero();
    pools.set(Shop::LunJian, 2000);
    let inp = input(
        vec![skill(Shop::LunJian, SkillLevel::Star1, 0, SkillLevel::Di1, 0, 0)],
        1150,
        100000,
        settings(2, pools, 5),
    );
    let out = run_planner(&inp);
    assert!(out.feasible);
    let wp = &out.weeks[0];
    assert_eq!(wp.week, 0);
    let pattern: Vec<bool> = wp.conversions.iter().map(|c| c.used_stone).collect();
    assert_eq!(pattern, vec![false, false, false, true, true, false, false]);
    assert_eq!(wp.snapshot.skill_levels, vec![SkillLevel::Xuan3]);
    assert_eq!(wp.snapshot.conversion_stones_left, 0);
    assert_eq!(out.final_levels, vec![SkillLevel::Di1]);
    check_replay(&inp, &out);
}

#[test]
fn no_skills_gives_an_empty_plan() {
    let inp = input(vec![], 0, 0, settings(0, ShopMap::zero(), 0));
    let out = run_planner(&inp);
    assert!(out.feasible);
    assert!(out.weeks.is_empty());
    assert!(out.unreachable_reasons.is_empty());
    assert!(out.final_levels.is_empty());
}

#[test]
fn large_weekly_income_is_still_answered() {
    // 5,000,000 purple pages a week: 1000 weeks of it do not fit in 32 bits, 500 do; the
    // blue pages can never be enough, so the answer is the reasons.
    let mut adv = settings(0, ShopMap::zero(), 0);
    adv.weekly_purple_income = 5_000_000;
    let inp = input(vec![skill(Shop::LunJian, SkillLevel::Star1, 40, SkillLevel::Star2, 0, 0)], 0, 0, adv);
    let out = run_planner(&inp);
    assert!(!out.feasible);
    assert!(out.weeks.is_empty());
    assert_eq!(out.final_levels, vec![SkillLevel::Star1]);
    assert_eq!(out.unreachable_reasons, generate_reasons(&inp));
    assert!(!out.unreachable_reasons.is_empty());
}

#[test]
fn plan_short_of_a_target_is_reported() {
    // The resource checks count conversions over the whole horizon, the simulation spends
    // them week by week in its own order: with two stones and no free conversions, the 道蕴
    // skill (no income of its own) never reaches 天1 within the horizon, although the
    // resource checks pass. No plan is returned; the reason given is the conversions.
    let mut pools = ShopMap::zero();
    pools.set(Shop::LunJian, 160);
    pools.set(Shop::ZhuTian, 120);
    pools.set(Shop::ZongMen, 240);
    pools.set(Shop::DaoYun, 80);
    pools.set(Shop::BaiZu, 240);
    let mut adv = settings(2, pools, 0);
    adv.weekly_shop_income.set(Shop::ZhuTian, 80);
    adv.weekly_shop_income.set(Shop::ZongMen, 40);
    adv.weekly_shop_income.set(Shop::DaoYun, 80);
    adv.daoyun_cycle_weeks = 2;
    adv.baizu_cycle_weeks = 2;
    adv.weekly_purple_income = 100;
    adv.weekly_blue_income = 250;
    let inp = input(
        vec![
            skill(Shop::LunJian, SkillLevel::Star2, 160, SkillLevel::Star2, 1, 2),
            skill(Shop::LunJian, SkillLevel::Star2, 0, SkillLevel::Xuan3, 1, 1),
            skill(Shop::LunJian, SkillLevel::Star3, 440, SkillLevel::Xuan2, 2, 2),
            skill(Shop::BaiZu, SkillLevel::Di1, 600, SkillLevel::Tian1, 2, 2),
            skill(Shop::DaoYun, SkillLevel::Di1, 400, SkillLevel::Tian1, 0, 2),
        ],
        2100,
        7200,
        adv,
    );
    assert!(find_minimum_weeks(&inp).is_some());
    let out = run_planner(&inp);
    assert!(!out.feasible);
    assert!(out.weeks.is_empty());
    let current: Vec<SkillLevel> = inp.combat_skills.iter().map(|s| s.current_level).collect();
    assert_eq!(out.final_levels, current);
    assert_eq!(
        out.unreachable_reasons,
        vec![String::from("转换次数不足，无法在合理时间内完成本体书页的跨技能调配")]
    );
}

#[test]
fn incomes_over_the_longest_week_counts() {
    let s = skill(Shop::ZongMen, SkillLevel::Star1, 0, SkillLevel::Star2, 3, 2);
    assert_eq!(skill_income_pages(&s, u32::MAX), 1_431_655_765u128 * 80);
    let big = skill(Shop::ZongMen, SkillLevel::Star1, 0, SkillLevel::Star2, 1, u32::MAX);
    assert_eq!(skill_income_pages(&big, u32::MAX), (u32::MAX as u128) * (u32::MAX as u128) * 40);
    let mut adv = settings(0, ShopMap::zero(), 0);
    adv.non_combat_pools.set(Shop::LunJian, u32::MAX);
    adv.weekly_shop_income.set(Shop::LunJian, u32::MAX);
    assert_eq!(
        adv.fodder_total_pages(Shop::LunJian, u32::MAX),
        (u32::MAX as u64) * (u32::MAX as u64) + u32::MAX as u64
    );
}
