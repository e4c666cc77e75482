use wenjian_skill::models::{
    total_cost_between, upgrade_cost, Shop, ShopMap, SkillLevel, LEVEL_COUNT,
};
use wenjian_skill::text::decimal_string;

#[test]
fn shop_rarity_and_index() {
    assert_eq!(Shop::LunJian.rarity(), 1);
    assert_eq!(Shop::ZhuTian.rarity(), 2);
    assert_eq!(Shop::ZongMen.rarity(), 2);
    assert_eq!(Shop::DaoYun.rarity(), 3);
    assert_eq!(Shop::BaiZu.rarity(), 4);
    assert_eq!(Shop::LunJian.index(), 0);
    assert_eq!(Shop::ZhuTian.index(), 1);
    assert_eq!(Shop::ZongMen.index(), 2);
    assert_eq!(Shop::DaoYun.index(), 3);
    assert_eq!(Shop::BaiZu.index(), 4);
    for i in 0..5 {
        assert_eq!(Shop::from_index(i).index(), i);
    }
}

#[test]
fn level_index_and_names() {
    assert_eq!(SkillLevel::Star1.index(), 0);
    assert_eq!(SkillLevel::Xuan1.index(), 3);
    assert_eq!(SkillLevel::Tian5.index(), 13);
    assert_eq!(SkillLevel::Star1.display_name(), "1星");
    assert_eq!(SkillLevel::Xuan2.display_name(), "玄2");
    assert_eq!(SkillLevel::Di3.display_name(), "地3");
    assert_eq!(SkillLevel::Tian5.display_name(), "天5");
    for i in 0..LEVEL_COUNT {
        assert_eq!(SkillLevel::from_index(i).index(), i);
    }
}

#[test]
fn level_next() {
    assert_eq!(SkillLevel::Star1.next(), Some(SkillLevel::Star2));
    assert_eq!(SkillLevel::Star3.next(), Some(SkillLevel::Xuan1));
    assert_eq!(SkillLevel::Di3.next(), Some(SkillLevel::Tian1));
    assert_eq!(SkillLevel::Tian4.next(), Some(SkillLevel::Tian5));
    assert_eq!(SkillLevel::Tian5.next(), None);
}

#[test]
fn cost_of_single_levels() {
    let c = upgrade_cost(SkillLevel::Star2);
    assert_eq!((c.self_pages, c.other_pages, c.purple_pages, c.blue_pages), (40, 0, 100, 200));
    let c = upgrade_cost(SkillLevel::Star3);
    assert_eq!((c.self_pages, c.other_pages, c.purple_pages, c.blue_pages), (0, 120, 100, 200));
    let c = upgrade_cost(SkillLevel::Tian5);
    assert_eq!((c.self_pages, c.other_pages, c.purple_pages, c.blue_pages), (360, 680, 1000, 2400));
}

#[test]
fn cost_between_levels() {
    let c = total_cost_between(SkillLevel::Star1, SkillLevel::Tian5);
    assert_eq!(c.self_pages, 2040);
    assert_eq!(c.other_pages, 3840);
    assert_eq!(c.purple_pages, 6750);
    assert_eq!(c.blue_pages, 16600);

    let c = total_cost_between(SkillLevel::Star1, SkillLevel::Star3);
    assert_eq!((c.self_pages, c.other_pages, c.purple_pages, c.blue_pages), (40, 120, 200, 400));

    let c = total_cost_between(SkillLevel::Xuan1, SkillLevel::Xuan3);
    assert_eq!((c.self_pages, c.other_pages, c.purple_pages, c.blue_pages), (160, 280, 450, 1150));
}

#[test]
fn cost_between_is_zero_when_not_going_up() {
    let c = total_cost_between(SkillLevel::Di1, SkillLevel::Di1);
    assert_eq!((c.self_pages, c.other_pages, c.purple_pages, c.blue_pages), (0, 0, 0, 0));
    let c = total_cost_between(SkillLevel::Tian2, SkillLevel::Star2);
    assert_eq!((c.self_pages, c.other_pages, c.purple_pages, c.blue_pages), (0, 0, 0, 0));
}

#[test]
fn cost_between_splits() {
    // Going up in two steps costs what going up in one does
    let a = total_cost_between(SkillLevel::Star2, SkillLevel::Di2);
    let b = total_cost_between(SkillLevel::Di2, SkillLevel::Tian3);
    let c = total_cost_between(SkillLevel::Star2, SkillLevel::Tian3);
    assert_eq!(a.self_pages + b.self_pages, c.self_pages);
    assert_eq!(a.other_pages + b.other_pages, c.other_pages);
    assert_eq!(a.purple_pages + b.purple_pages, c.purple_pages);
    assert_eq!(a.blue_pages + b.blue_pages, c.blue_pages);
}

#[test]
fn shop_map_operations() {
    let mut m = ShopMap::zero();
    for i in 0..5 {
        assert_eq!(m.get(Shop::from_index(i)), 0);
    }
    m.set(Shop::DaoYun, 7);
    assert_eq!(m.get(Shop::DaoYun), 7);
    assert_eq!(m.get(Shop::BaiZu), 0);
    m.add(Shop::DaoYun, 5);
    assert_eq!(m.dao_yun, 12);
    m.add(Shop::LunJian, 3);
    assert_eq!(m.total(), 15);
    m.sub_clamped(Shop::DaoYun, 20);
    assert_eq!(m.get(Shop::DaoYun), 0);
    m.sub_clamped(Shop::LunJian, 1);
    assert_eq!(m.get(Shop::LunJian), 2);
    assert_eq!(m.total(), 2);
}

#[test]
fn decimal_numbers() {
    assert_eq!(decimal_string(0), "0");
    assert_eq!(decimal_string(7), "7");
    assert_eq!(decimal_string(10), "10");
    assert_eq!(decimal_string(16500), "16500");
    assert_eq!(decimal_string(4294967295), "4294967295");
}
