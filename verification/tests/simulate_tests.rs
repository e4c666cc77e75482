use wenjian_skill::models::{ConversionAction, GoldDraw, GoldSource, Shop, SkillLevel, FROM_POOL};
use wenjian_skill::simulate::{do_conversions_and_upgrades, sort_by_key, SimState};

fn state(
    levels: Vec<SkillLevel>,
    pages: Vec<u32>,
    shops: Vec<Shop>,
    targets: Vec<SkillLevel>,
    pools: Vec<u32>,
) -> SimState {
    SimState {
        levels,
        pages,
        shops,
        targets,
        fodder_pools: pools,
        purple: 1000,
        blue: 1000,
        stones: 0,
        free_conv: 0,
    }
}

#[test]
fn upgrade_draws_pool_then_other_skill() {
    // Skill 0 goes 玄1 → 玄2: 80 own, 120 other, 200 purple, 500 blue pages.
    // Its shop's pool can spare 40 (the rest covers its own later need), a finished
    // skill of another shop gives the other 80.
    let mut s = state(
        vec![SkillLevel::Xuan1, SkillLevel::Di1],
        vec![80, 100],
        vec![Shop::LunJian, Shop::ZhuTian],
        vec![SkillLevel::Xuan3, SkillLevel::Di1],
        vec![200, 0, 0, 0, 0],
    );
    let a = s.try_upgrade(0).expect("the upgrade is possible");
    assert_eq!(a.skill_index, 0);
    assert_eq!(a.from_level, SkillLevel::Xuan1);
    assert_eq!(a.to_level, SkillLevel::Xuan2);
    assert_eq!(a.self_pages_used, 80);
    assert_eq!(a.purple_pages_used, 200);
    assert_eq!(a.blue_pages_used, 500);
    assert_eq!(
        a.other_pages_consumed,
        vec![
            GoldDraw { source: GoldSource::Pool(Shop::LunJian), pages: 40 },
            GoldDraw { source: GoldSource::Skill(1), pages: 80 },
        ]
    );
    assert_eq!(s.levels, vec![SkillLevel::Xuan2, SkillLevel::Di1]);
    assert_eq!(s.pages, vec![0, 20]);
    assert_eq!(s.fodder_pools, vec![160, 0, 0, 0, 0]);
    assert_eq!(s.purple, 800);
    assert_eq!(s.blue, 500);
}

#[test]
fn upgrade_refused_when_pool_is_reserved() {
    // The shop's budget (120) covers the other pages, but once skill 0 has paid its own
    // 80 pages the pool must keep 160 for its next level: only 40 can go, so nothing happens.
    let mut s = state(
        vec![SkillLevel::Xuan1],
        vec![80],
        vec![Shop::LunJian],
        vec![SkillLevel::Xuan3],
        vec![200, 0, 0, 0, 0],
    );
    assert!(s.try_upgrade(0).is_none());
    assert_eq!(s.levels, vec![SkillLevel::Xuan1]);
    assert_eq!(s.pages, vec![80]);
    assert_eq!(s.fodder_pools, vec![200, 0, 0, 0, 0]);
    assert_eq!(s.purple, 1000);
    assert_eq!(s.blue, 1000);
}

#[test]
fn upgrade_refused_at_target_or_short_of_materials() {
    let mut s = state(
        vec![SkillLevel::Star1, SkillLevel::Star1],
        vec![100, 100],
        vec![Shop::DaoYun, Shop::BaiZu],
        vec![SkillLevel::Star1, SkillLevel::Star2],
        vec![0, 0, 0, 0, 0],
    );
    // skill 0 is at its target
    assert!(s.try_upgrade(0).is_none());
    // skill 1 (星1 → 星2: 40 own, 100 purple, 200 blue pages) lacks blue pages
    s.blue = 199;
    assert!(s.try_upgrade(1).is_none());
    s.blue = 200;
    let a = s.try_upgrade(1).expect("now it fits");
    assert!(a.other_pages_consumed.is_empty());
    assert_eq!(s.pages, vec![100, 60]);
    assert_eq!(s.blue, 0);
    assert_eq!(s.purple, 900);
}

#[test]
fn sort_by_key_is_stable() {
    let items = vec![(5u64, 0usize), (1, 1), (5, 2), (0, 3), (1, 4)];
    let out = sort_by_key(&items);
    assert_eq!(out, vec![(0, 3), (1, 1), (1, 4), (5, 0), (5, 2)]);
}

#[test]
fn conversions_stop_once_the_next_level_is_paid() {
    // 地3 → 天1 needs 200 own pages and 700 purple pages; there are no purple pages, so no
    // upgrade happens, and the pool converts exactly the 200 own pages: three free
    // conversions, the stone, then one more free one.
    let mut s = SimState {
        levels: vec![SkillLevel::Di3],
        pages: vec![0],
        shops: vec![Shop::LunJian],
        targets: vec![SkillLevel::Tian1],
        fodder_pools: vec![400, 0, 0, 0, 0],
        purple: 0,
        blue: 0,
        stones: 1,
        free_conv: 5,
    };
    let (cs, us) = do_conversions_and_upgrades(&mut s, 5);
    assert!(us.is_empty());
    let flags: Vec<bool> = cs.iter().map(|c| c.used_stone).collect();
    assert_eq!(flags, vec![false, false, false, true, false]);
    for c in &cs {
        assert_eq!(
            *c,
            ConversionAction {
                shop: Shop::LunJian,
                target_skill_index: 0,
                from_skill_index: FROM_POOL,
                used_stone: c.used_stone,
                pages: 40,
            }
        );
    }
    assert_eq!(s.pages, vec![200]);
    assert_eq!(s.fodder_pools, vec![200, 0, 0, 0, 0]);
    assert_eq!(s.stones, 0);
    assert_eq!(s.levels, vec![SkillLevel::Di3]);
}

#[test]
fn conversion_takes_from_the_richest_donor() {
    // No pool pages: the batch comes from the same-shop skill with the most spare pages.
    let mut s = SimState {
        levels: vec![SkillLevel::Star1, SkillLevel::Star2, SkillLevel::Star2],
        pages: vec![0, 50, 90],
        shops: vec![Shop::ZongMen, Shop::ZongMen, Shop::ZongMen],
        targets: vec![SkillLevel::Star2, SkillLevel::Star2, SkillLevel::Star2],
        fodder_pools: vec![0, 0, 0, 0, 0],
        purple: 0,
        blue: 0,
        stones: 0,
        free_conv: 1,
    };
    let (cs, us) = do_conversions_and_upgrades(&mut s, 1);
    assert!(us.is_empty());
    assert_eq!(cs.len(), 1);
    assert_eq!(cs[0].from_skill_index, 2);
    assert_eq!(cs[0].target_skill_index, 0);
    assert_eq!(s.pages, vec![40, 50, 50]);
}
