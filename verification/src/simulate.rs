//! The week-by-week simulation that turns chosen targets into a concrete plan.
use vstd::prelude::*;
use crate::models::{
    cost_of, range_cost, total_cost_between, upgrade_cost, lemma_range_cost_bounded, lemma_range_cost_split,
    lemma_shop_index_roundtrip, GoldDraw, GoldSource, PlannerInput, Shop, ShopMap, SkillLevel,
    StateSnapshot, UpgradeAction, ConversionAction, FROM_POOL, MAX_LEVEL_INDEX, PAGES_PER_UNIT,
    SHOP_COUNT,
};
use crate::feasibility::max0;
use crate::plan::{
    conversion_ok, conversions_page_delta, conversions_pool_use, draws_from_pool, draws_from_skill,
    draws_ok, draws_total, free_uses, input_levels, input_pages, input_pools, input_shops,
    lemma_conversions_push, lemma_draws_push, lemma_upgrades_push, snapshot_pools, stone_uses,
    upgrade_ok, upgrade_page_use, upgrade_pool_use, upgrades_blue, upgrades_chain_ok,
    upgrades_count, upgrades_page_use, upgrades_pool_use, upgrades_purple, draw_rank,
    draws_cheapest_first, slots_in_order, lemma_slot_push, PRIORITY_FREE_CONV, conversion_page_delta,
    conversion_pool_use,
};

verus! {

/// A copy of a vector of plain values.
pub fn copy_vec<T: Copy>(v: &Vec<T>) -> (r: Vec<T>)
    ensures
        r@ == v@,
{
    let mut r: Vec<T> = Vec::new();
    let mut i: usize = 0;
    while i < v.len()
        invariant
            i <= v.len(),
            r@ == v@.take(i as int),
        decreases v.len() - i,
    {
        r.push(v[i]);
        i = i + 1;
        proof {
            assert(r@ =~= v@.take(i as int));
        }
    }
    proof {
        assert(v@.take(v.len() as int) =~= v@);
    }
    r
}

/// The simulation's state: per skill its level, pages, shop and target; per shop its fodder
/// pool; the shared materials.
pub struct SimState {
    pub levels: Vec<SkillLevel>,
    pub pages: Vec<u32>,
    pub shops: Vec<Shop>,
    pub targets: Vec<SkillLevel>,
    pub fodder_pools: Vec<u32>,
    pub purple: u32,
    pub blue: u32,
    pub stones: u32,
    pub free_conv: u32,
}

impl SimState {
    pub open spec fn n(&self) -> int {
        self.levels@.len() as int
    }

    /// The per-skill vectors have one entry per skill, and there is one pool per shop.
    pub open spec fn wf(&self) -> bool {
        &&& self.pages@.len() == self.n()
        &&& self.shops@.len() == self.n()
        &&& self.targets@.len() == self.n()
        &&& self.fodder_pools@.len() == SHOP_COUNT
    }

    /// Skill `i` is below its target.
    pub open spec fn below_target(&self, i: int) -> bool {
        self.levels@[i].index() < self.targets@[i].index()
    }

    /// Own pages skill `i` still needs to reach its target.
    pub open spec fn spec_target_cost(&self, i: int) -> int {
        range_cost(self.levels@[i].index() as int, self.targets@[i].index() as int, 0)
    }

    /// Own pages skill `i` still lacks for its target.
    pub open spec fn spec_self_remaining_need(&self, i: int) -> int {
        if !self.below_target(i) {
            0
        } else {
            max0(self.spec_target_cost(i) - self.pages@[i])
        }
    }

    /// Pages of skill `i` beyond what it still needs itself.
    pub open spec fn spec_donatable(&self, i: int) -> int {
        if !self.below_target(i) {
            self.pages@[i] as int
        } else {
            max0(self.pages@[i] - self.spec_target_cost(i))
        }
    }

    /// What the first `k` skills of `shop` still lack of own pages.
    pub open spec fn deficit_upto(&self, shop: Shop, k: int) -> int
        decreases k,
    {
        if k <= 0 {
            0
        } else {
            self.deficit_upto(shop, k - 1) + (if self.shops@[k - 1] == shop && self.below_target(k - 1) {
                self.spec_self_remaining_need(k - 1)
            } else {
                0
            })
        }
    }

    /// What the first `k` skills of `shop`, skill `exclude` set aside, can give.
    pub open spec fn donatable_upto(&self, shop: Shop, exclude: int, k: int) -> int
        decreases k,
    {
        if k <= 0 {
            0
        } else {
            self.donatable_upto(shop, exclude, k - 1) + (if k - 1 != exclude && self.shops@[k - 1]
                == shop {
                self.spec_donatable(k - 1)
            } else {
                0
            })
        }
    }

    /// Pool pages of `shop` that can go to other pages without leaving the shop's own
    /// shortfalls uncovered.
    pub open spec fn spec_fodder_available(&self, shop: Shop, exclude: int) -> int {
        max0(
            self.fodder_pools@[shop.index() as int] - max0(
                self.deficit_upto(shop, self.n()) - self.donatable_upto(shop, exclude, self.n()),
            ),
        )
    }

    /// Pages held by the first `k` skills of `shop`.
    pub open spec fn pages_upto(&self, shop: Shop, k: int) -> int
        decreases k,
    {
        if k <= 0 {
            0
        } else {
            self.pages_upto(shop, k - 1) + (if self.shops@[k - 1] == shop {
                self.pages@[k - 1] as int
            } else {
                0
            })
        }
    }

    /// Own pages the first `k` skills of `shop` still need for their targets.
    pub open spec fn target_cost_upto(&self, shop: Shop, k: int) -> int
        decreases k,
    {
        if k <= 0 {
            0
        } else {
            self.target_cost_upto(shop, k - 1) + (if self.shops@[k - 1] == shop && self.below_target(k - 1) {
                self.spec_target_cost(k - 1)
            } else {
                0
            })
        }
    }

    /// Other pages `shop` can give without starving its own upgrades, skill `exclude`'s
    /// surplus set aside.
    pub open spec fn spec_gold_budget(&self, shop: Shop, exclude: int) -> int {
        let total_surplus = max0(
            self.pages_upto(shop, self.n()) + self.fodder_pools@[shop.index() as int]
                - self.target_cost_upto(shop, self.n()),
        );
        let exclude_surplus = if self.shops@[exclude] == shop {
            self.spec_donatable(exclude)
        } else {
            0
        };
        max0(total_surplus - exclude_surplus)
    }

    /// The simulation's starting state.
    pub fn from_input(input: &PlannerInput, targets: &Vec<SkillLevel>) -> (s: SimState)
        requires
            targets.len() == input.combat_skills.len(),
        ensures
            s.wf(),
            s.levels@ == input_levels(*input),
            s.pages@ == input_pages(*input),
            s.shops@ == input_shops(*input),
            s.targets@ == targets@,
            s.fodder_pools@ == input_pools(*input),
            s.purple == input.purple_pages,
            s.blue == input.blue_pages,
            s.stones == input.advanced.conversion_stones,
            s.free_conv == input.advanced.free_conversions_per_week,
    {
        let n = input.combat_skills.len();
        let mut levels: Vec<SkillLevel> = Vec::new();
        let mut pages: Vec<u32> = Vec::new();
        let mut shops: Vec<Shop> = Vec::new();
        let mut i: usize = 0;
        while i < n
            invariant
                i <= n,
                n == input.combat_skills.len(),
                levels@ == input_levels(*input).take(i as int),
                pages@ == input_pages(*input).take(i as int),
                shops@ == input_shops(*input).take(i as int),
            decreases n - i,
        {
            levels.push(input.combat_skills[i].current_level);
            pages.push(input.combat_skills[i].remaining_pages);
            shops.push(input.combat_skills[i].shop);
            i = i + 1;
            proof {
                assert(levels@ =~= input_levels(*input).take(i as int));
                assert(pages@ =~= input_pages(*input).take(i as int));
                assert(shops@ =~= input_shops(*input).take(i as int));
            }
        }
        proof {
            assert(input_levels(*input).take(n as int) =~= input_levels(*input));
            assert(input_pages(*input).take(n as int) =~= input_pages(*input));
            assert(input_shops(*input).take(n as int) =~= input_shops(*input));
        }
        let mut pools: Vec<u32> = Vec::new();
        let mut k: usize = 0;
        while k < SHOP_COUNT
            invariant
                k <= SHOP_COUNT,
                pools@ == input_pools(*input).take(k as int),
            decreases SHOP_COUNT - k,
        {
            pools.push(input.advanced.fodder_initial_pages(Shop::from_index(k)));
            k = k + 1;
            proof {
                assert(pools@ =~= input_pools(*input).take(k as int));
            }
        }
        proof {
            assert(input_pools(*input).take(SHOP_COUNT as int) =~= input_pools(*input));
        }
        SimState {
            levels,
            pages,
            shops,
            targets: copy_vec(targets),
            fodder_pools: pools,
            purple: input.purple_pages,
            blue: input.blue_pages,
            stones: input.advanced.conversion_stones,
            free_conv: input.advanced.free_conversions_per_week,
        }
    }

    /// The state as recorded in a week's plan.
    pub fn snapshot(&self) -> (s: StateSnapshot)
        requires
            self.wf(),
        ensures
            s.skill_levels@ == self.levels@,
            s.skill_pages@ == self.pages@,
            snapshot_pools(s) == self.fodder_pools@,
            s.purple_pages == self.purple,
            s.blue_pages == self.blue,
            s.conversion_stones_left == self.stones,
    {
        let pools = ShopMap {
            lun_jian: self.fodder_pools[0],
            zhu_tian: self.fodder_pools[1],
            zong_men: self.fodder_pools[2],
            dao_yun: self.fodder_pools[3],
            bai_zu: self.fodder_pools[4],
        };
        let s = StateSnapshot {
            skill_levels: copy_vec(&self.levels),
            skill_pages: copy_vec(&self.pages),
            non_combat_pools: pools,
            purple_pages: self.purple,
            blue_pages: self.blue,
            conversion_stones_left: self.stones,
        };
        proof {
            assert(snapshot_pools(s) =~= self.fodder_pools@);
        }
        s
    }

    /// Every skill has reached its target.
    pub fn all_done(&self) -> (r: bool)
        requires
            self.wf(),
        ensures
            r == forall|i: int| 0 <= i < self.n() ==> !#[trigger] self.below_target(i),
    {
        let n = self.levels.len();
        let mut i: usize = 0;
        while i < n
            invariant
                i <= n,
                n == self.n(),
                self.wf(),
                forall|j: int| 0 <= j < i ==> !#[trigger] self.below_target(j),
            decreases n - i,
        {
            if self.levels[i].index() < self.targets[i].index() {
                proof {
                    assert(self.below_target(i as int));
                }
                return false;
            }
            i = i + 1;
        }
        true
    }

    /// Own pages skill `i` still lacks for its target.
    pub fn self_remaining_need(&self, i: usize) -> (r: u32)
        requires
            self.wf(),
            i < self.n(),
        ensures
            r == self.spec_self_remaining_need(i as int),
            r <= 0x8000,
    {
        if self.levels[i].index() >= self.targets[i].index() {
            return 0;
        }
        let cost = total_cost_between(self.levels[i], self.targets[i]);
        proof {
            lemma_range_cost_bounded(self.levels@[i as int].index() as int, self.targets@[i as int].index() as int, 0);
        }
        cost.self_pages.saturating_sub(self.pages[i])
    }

    /// Pages of skill `i` beyond what it still needs for its own upgrades: all of them once it
    /// has reached its target.
    pub fn donatable(&self, i: usize) -> (r: u32)
        requires
            self.wf(),
            i < self.n(),
        ensures
            r == self.spec_donatable(i as int),
            r <= self.pages@[i as int],
    {
        if self.levels[i].index() >= self.targets[i].index() {
            return self.pages[i];
        }
        let cost = total_cost_between(self.levels[i], self.targets[i]);
        self.pages[i].saturating_sub(cost.self_pages)
    }

    /// Fodder pool pages of `shop` that are safe to use as other pages without starving the
    /// shop's own-page conversions; `exclude` is the skill being upgraded, which cannot donate
    /// to itself.
    pub fn fodder_available_as_other(&self, shop: Shop, exclude: usize) -> (r: u32)
        requires
            self.wf(),
            exclude < self.n(),
        ensures
            r == self.spec_fodder_available(shop, exclude as int),
            r <= self.fodder_pools@[shop.index() as int],
    {
        let n = self.levels.len();
        let si = shop.index();
        let pool = self.fodder_pools[si];
        let mut deficit: u128 = 0;
        let mut skill_surplus: u128 = 0;
        let mut j: usize = 0;
        while j < n
            invariant
                j <= n,
                n == self.n(),
                self.wf(),
                deficit == self.deficit_upto(shop, j as int),
                skill_surplus == self.donatable_upto(shop, exclude as int, j as int),
                deficit <= 0x8000 * j,
                skill_surplus <= 0xffff_ffff * j,
            decreases n - j,
        {
            if self.shops[j] == shop && self.levels[j].index() < self.targets[j].index() {
                let need = self.self_remaining_need(j);
                deficit = deficit + need as u128;
            }
            if j != exclude && self.shops[j] == shop {
                let d = self.donatable(j);
                skill_surplus = skill_surplus + d as u128;
            }
            j = j + 1;
        }
        let needed_from_pool: u128 = if deficit > skill_surplus {
            deficit - skill_surplus
        } else {
            0
        };
        if needed_from_pool >= pool as u128 {
            0
        } else {
            pool - needed_from_pool as u32
        }
    }

    /// Per shop, the most other pages it can give without starving its own upgrades; uses the
    /// full own-page cost of each skill (as the resource checks do), and sets the excluded
    /// skill's surplus aside.
    pub fn shop_gold_budgets(&self, exclude: usize) -> (b: Vec<u128>)
        requires
            self.wf(),
            exclude < self.n(),
        ensures
            b@.len() == SHOP_COUNT,
            forall|k: int| 0 <= k < SHOP_COUNT ==> #[trigger] b@[k] <= 0x10_0000_0000_0000_0000_0000_0000,
            forall|k: int|
                0 <= k < SHOP_COUNT ==> #[trigger] b@[k] == self.spec_gold_budget(
                    Shop::spec_from_index(k),
                    exclude as int,
                ),
    {
        let n = self.levels.len();
        let mut budgets: Vec<u128> = Vec::new();
        let mut k: usize = 0;
        while k < SHOP_COUNT
            invariant
                k <= SHOP_COUNT,
                n == self.n(),
                self.wf(),
                exclude < n,
                budgets@.len() == k,
                forall|m: int| 0 <= m < k ==> #[trigger] budgets@[m] <= 0x10_0000_0000_0000_0000_0000_0000,
                forall|m: int|
                    0 <= m < k ==> #[trigger] budgets@[m] == self.spec_gold_budget(
                        Shop::spec_from_index(m),
                        exclude as int,
                    ),
            decreases SHOP_COUNT - k,
        {
            let shop = Shop::from_index(k);
            let mut total_pages: u128 = 0;
            let mut total_self_cost: u128 = 0;
            let mut j: usize = 0;
            while j < n
                invariant
                    j <= n,
                    n == self.n(),
                    self.wf(),
                    total_pages == self.pages_upto(shop, j as int),
                    total_self_cost == self.target_cost_upto(shop, j as int),
                    total_pages <= 0xffff_ffff * j,
                    total_self_cost <= 0x8000 * j,
                decreases n - j,
            {
                if self.shops[j] == shop {
                    total_pages = total_pages + self.pages[j] as u128;
                    if self.levels[j].index() < self.targets[j].index() {
                        let cost = total_cost_between(self.levels[j], self.targets[j]);
                        proof {
                            lemma_range_cost_bounded(
                                self.levels@[j as int].index() as int,
                                self.targets@[j as int].index() as int,
                                0,
                            );
                        }
                        total_self_cost = total_self_cost + cost.self_pages as u128;
                    }
                }
                j = j + 1;
            }
            let a = total_pages + self.fodder_pools[k] as u128;
            let total_surplus: u128 = if a > total_self_cost {
                a - total_self_cost
            } else {
                0
            };
            let exclude_surplus: u128 = if self.shops[exclude] == shop {
                self.donatable(exclude) as u128
            } else {
                0
            };
            let budget: u128 = if total_surplus > exclude_surplus {
                total_surplus - exclude_surplus
            } else {
                0
            };
            budgets.push(budget);
            k = k + 1;
        }
        budgets
    }

    /// The parts of the state no upgrade or conversion touches.
    pub open spec fn same_frame(&self, other: &SimState) -> bool {
        &&& self.levels@.len() == other.levels@.len()
        &&& self.shops@ == other.shops@
        &&& self.targets@ == other.targets@
        &&& self.free_conv == other.free_conv
    }

    /// Try to raise skill `i` by one level, drawing its other pages (金色) first from the
    /// fodder pools and then from other skills' surplus, cheapest shops first, within each
    /// shop's budget. It succeeds exactly when the skill can go up now; on failure nothing
    /// changes.
    #[verifier::spinoff_prover]
    #[verifier::rlimit(40)]
    pub fn try_upgrade(&mut self, i: usize) -> (r: Option<UpgradeAction>)
        requires
            old(self).wf(),
            i < old(self).n(),
        ensures
            final(self).wf(),
            final(self).same_frame(&*old(self)),
            final(self).stones == old(self).stones,
            r is Some <==> old(self).can_upgrade(i as int),
            r is None ==> {
                &&& final(self).levels@ == old(self).levels@
                &&& final(self).pages@ == old(self).pages@
                &&& final(self).fodder_pools@ == old(self).fodder_pools@
                &&& final(self).purple == old(self).purple
                &&& final(self).blue == old(self).blue
            },
            r matches Some(a) ==> a.skill_index == i && upgrade_applied(&*old(self), &*final(self), a)
                && draws_cheapest_first(a.other_pages_consumed@, old(self).shops@)
                && a.other_pages_consumed@ == old(self).greedy_draws(i as int),
            r is Some ==> forall|shop: Shop| #[trigger] final(self).shop_slack(shop) >= vstd::math::min(
                old(self).shop_slack(shop),
                old(self).kept_for(i as int, shop),
            ),
    {
        let ghost s0 = *self;
        let n = self.levels.len();
        if self.levels[i].index() >= self.targets[i].index() {
            return None;
        }
        let next = match self.levels[i].next() {
            Some(l) => l,
            None => {
                return None;
            },
        };
        let cost = upgrade_cost(next);
        let from = self.levels[i];
        if self.pages[i] < cost.self_pages {
            return None;
        }
        if self.purple < cost.purple_pages || self.blue < cost.blue_pages {
            return None;
        }
        // Check 金色: per-shop budgets keep same-shop conversions from being starved
        let mut gold_budgets = self.shop_gold_budgets(i);
        let ghost b: Seq<int> = s0.budgets_of(i as int);
        let mut total_gold_available: u128 = 0;
        let mut k: usize = 0;
        while k < SHOP_COUNT
            invariant
                k <= SHOP_COUNT,
                gold_budgets@.len() == SHOP_COUNT,
                forall|m: int| 0 <= m < SHOP_COUNT ==> #[trigger] gold_budgets@[m] <= 0x10_0000_0000_0000_0000_0000_0000,
                forall|m: int|
                    0 <= m < SHOP_COUNT ==> #[trigger] gold_budgets@[m] == self.spec_gold_budget(
                        Shop::spec_from_index(m),
                        i as int,
                    ),
                total_gold_available == self.budgets_upto(i as int, k as int),
                total_gold_available <= k * 0x10_0000_0000_0000_0000_0000_0000,
            decreases SHOP_COUNT - k,
        {
            total_gold_available = total_gold_available + gold_budgets[k];
            k = k + 1;
        }
        if total_gold_available < cost.other_pages as u128 {
            proof {
                lemma_share_within_budgets(s0, i as int);
            }
            return None;
        }
        // Execute, keeping the state to fall back to
        let saved_pages = copy_vec(&self.pages);
        let saved_pools = copy_vec(&self.fodder_pools);
        let self_after = self.pages[i] - cost.self_pages;
        self.pages.set(i, self_after);
        let ghost p1 = self.pages@;
        let ghost pools0 = self.fodder_pools@;
        let mut draws: Vec<GoldDraw> = Vec::new();
        let mut remaining: u32 = cost.other_pages;
        // Per shop: what its sources seen so far could give, and what was drawn from it
        let ghost mut cap: Seq<int> = seq![0int, 0int, 0int, 0int, 0int];
        let ghost mut taken: Seq<int> = seq![0int, 0int, 0int, 0int, 0int];
        let ghost mut left: Seq<int> = b;
        let ghost c_self = cost.self_pages as int;
        proof {
            lemma_pages_upto_set(s0, *self, i as int, n as int);
            assert(drawn_from_shops(s0, *self, i as int, c_self, taken));
            assert(Seq::<GoldDraw>::empty() + s0.pool_draws(i as int, 0, left, remaining as int) =~= s0.pool_draws(
                i as int,
                0,
                left,
                remaining as int,
            ));
        }
        // From the fodder pools, cheapest shop first (the shop order is by rarity)
        let mut k: usize = 0;
        while k < SHOP_COUNT
            invariant
                k <= SHOP_COUNT,
                n == self.n(),
                i < n,
                s0.wf(),
                n == s0.n(),
                self.wf(),
                self.levels@ == s0.levels@,
                self.shops@ == s0.shops@,
                self.targets@ == s0.targets@,
                self.free_conv == s0.free_conv,
                self.stones == s0.stones,
                self.purple == s0.purple,
                self.blue == s0.blue,
                self.pages@ == p1,
                p1 == s0.pages@.update(i as int, (s0.pages@[i as int] - s0.next_self_cost(i as int)) as u32),
                s0.pages@[i as int] >= s0.next_self_cost(i as int),
                pools0 == s0.fodder_pools@,
                gold_budgets@.len() == SHOP_COUNT,
                draws_ok(draws@, n as int, i as int),
                draws_cheapest_first(draws@, self.shops@),
                forall|e: int| 0 <= e < draws@.len() ==> draw_rank(#[trigger] draws@[e], self.shops@) < k,
                draws_total(draws@) + remaining == cost.other_pages,
                forall|j: int| #[trigger] draws_from_skill(draws@, j) == 0,
                forall|m: int|
                    0 <= m < SHOP_COUNT ==> #[trigger] self.fodder_pools@[m] == pools0[m] - draws_from_pool(
                        draws@,
                        m,
                    ),
                forall|m: int| k <= m < SHOP_COUNT ==> #[trigger] draws_from_pool(draws@, m) == 0,
                greedy_ok(b, cap, taken, gold_budgets@, draws_total(draws@), remaining as int),
                drawn_from_shops(s0, *self, i as int, c_self, taken),
                c_self == s0.next_self_cost(i as int),
                left.len() == SHOP_COUNT,
                forall|m: int| 0 <= m < SHOP_COUNT ==> #[trigger] gold_budgets@[m] == left[m],
                draws@ + s0.pool_draws(i as int, k as int, left, remaining as int) == s0.greedy_draws(i as int),
                forall|m: int|
                    0 <= m < SHOP_COUNT ==> #[trigger] cap[m] == (if m < k {
                        s0.pool_share(Shop::spec_from_index(m), i as int)
                    } else {
                        0
                    }),
            decreases SHOP_COUNT - k,
        {
            let shop = Shop::from_index(k);
            let ghost st0 = *self;
            let ghost taken0 = taken;
            let safe = self.fodder_available_as_other(shop, i);
            proof {
                lemma_after_paying(s0, *self, i as int, shop, n as int);
                assert(draws_from_pool(draws@, k as int) == 0);
                assert(safe == s0.pool_share(shop, i as int));
            }
            let mut take: u32 = if safe < remaining {
                safe
            } else {
                remaining
            };
            if take as u128 > gold_budgets[k] {
                take = gold_budgets[k] as u32;
            }
            let ghost gb0 = gold_budgets@;
            let ghost dt0 = draws_total(draws@);
            let ghost rem0 = remaining as int;
            let ghost dd0 = draws@;
            if take > 0 {
                let cur = self.fodder_pools[k];
                self.fodder_pools.set(k, cur - take);
                let bk = gold_budgets[k];
                gold_budgets.set(k, bk - take as u128);
                let ghost d0 = draws@;
                draws.push(GoldDraw { source: GoldSource::Pool(shop), pages: take });
                remaining = remaining - take;
                proof {
                    lemma_draws_push(d0, GoldDraw { source: GoldSource::Pool(shop), pages: take });
                    assert forall|m: int|
                        0 <= m < SHOP_COUNT implies #[trigger] self.fodder_pools@[m] == pools0[m]
                        - draws_from_pool(draws@, m) by {
                        if m != k as int {
                            assert(shop.index() == k);
                        }
                    }
                    assert forall|m: int| k + 1 <= m < SHOP_COUNT implies #[trigger] draws_from_pool(draws@, m) == 0 by {
                        assert(shop.index() == k);
                    }
                    assert forall|e: int| 0 <= e < draws@.len() implies #[trigger] draws@[e].pages > 0
                        && match draws@[e].source {
                        GoldSource::Skill(j) => j < n && j != i,
                        GoldSource::Pool(_) => true,
                    } by {
                        if e < d0.len() {
                            assert(draws@[e] == d0[e]);
                        }
                    }
                    assert forall|a: int, b: int| 0 <= a < b < draws@.len() implies draw_rank(draws@[a], self.shops@)
                        <= draw_rank(draws@[b], self.shops@) by {
                        assert(draws@[a] == d0[a]);
                        if b < d0.len() {
                            assert(draws@[b] == d0[b]);
                        }
                    }
                    assert forall|e: int| 0 <= e < draws@.len() implies draw_rank(#[trigger] draws@[e], self.shops@)
                        < k + 1 by {
                        if e < d0.len() {
                            assert(draws@[e] == d0[e]);
                        }
                    }
                }
            }
            proof {
                lemma_greedy_step(b, cap, taken, gb0, gold_budgets@, dt0, draws_total(draws@), rem0,
                    remaining as int, k as int, safe as int, take as int);
                cap = cap.update(k as int, cap[k as int] + safe);
                assert forall|m: int| 0 <= m < SHOP_COUNT implies #[trigger] self.fodder_pools@[m] == st0.fodder_pools@[m]
                    - (if m == k { take as int } else { 0 }) by {
                    assert(shop.index() == k);
                }
                lemma_pool_draw(st0, *self, k as int, take as int);
                lemma_drawn_step(s0, st0, *self, i as int, c_self, taken0, taken.update(k as int, taken[k as int] + take),
                    k as int, take as int);
                taken = taken.update(k as int, taken[k as int] + take);
                let left1 = left.update(k as int, left[k as int] - take);
                let rest = s0.pool_draws(i as int, k + 1, left1, remaining as int);
                let dr = GoldDraw { source: GoldSource::Pool(shop), pages: take };
                assert(s0.pool_draws(i as int, k as int, left, rem0) == if take > 0 {
                    seq![dr] + rest
                } else {
                    rest
                });
                if take > 0 {
                    assert(draws@ + rest =~= dd0 + (seq![dr] + rest));
                } else {
                    assert(draws@ == dd0);
                }
                left = left1;
            }
            k = k + 1;
        }
        // Then from other skills' surplus, skills of cheaper shops first
        proof {
            assert(s0.pool_draws(i as int, SHOP_COUNT as int, left, remaining as int) == s0.skill_draws(
                i as int,
                1,
                0,
                left,
                remaining as int,
            ));
        }
        let ghost pools1 = self.fodder_pools@;
        let ghost d1 = draws@;
        let mut r: u32 = 1;
        while r <= 4
            invariant
                1 <= r <= 5,
                n == self.n(),
                i < n,
                s0.wf(),
                n == s0.n(),
                self.wf(),
                self.levels@ == s0.levels@,
                self.shops@ == s0.shops@,
                self.targets@ == s0.targets@,
                self.free_conv == s0.free_conv,
                self.stones == s0.stones,
                self.purple == s0.purple,
                self.blue == s0.blue,
                self.fodder_pools@ == pools1,
                p1 == s0.pages@.update(i as int, (s0.pages@[i as int] - s0.next_self_cost(i as int)) as u32),
                gold_budgets@.len() == SHOP_COUNT,
                draws_ok(draws@, n as int, i as int),
                draws_cheapest_first(draws@, self.shops@),
                forall|e: int| 0 <= e < draws@.len() ==> draw_rank(#[trigger] draws@[e], self.shops@) <= 4 + r,
                draws_total(draws@) + remaining == cost.other_pages,
                forall|m: int| #[trigger] draws_from_pool(draws@, m) == draws_from_pool(d1, m),
                forall|j: int|
                    0 <= j < n ==> #[trigger] self.pages@[j] == p1[j] - draws_from_skill(draws@, j),
                forall|x: int|
                    0 <= x < n && self.shops@[x].spec_rarity() >= r ==> #[trigger] draws_from_skill(draws@, x) == 0,
                greedy_ok(b, cap, taken, gold_budgets@, draws_total(draws@), remaining as int),
                drawn_from_shops(s0, *self, i as int, c_self, taken),
                c_self == s0.next_self_cost(i as int),
                left.len() == SHOP_COUNT,
                forall|m: int| 0 <= m < SHOP_COUNT ==> #[trigger] gold_budgets@[m] == left[m],
                draws@ + s0.skill_draws(i as int, r as int, 0, left, remaining as int) == s0.greedy_draws(i as int),
                forall|m: int|
                    0 <= m < SHOP_COUNT ==> #[trigger] cap[m] == s0.pool_share(Shop::spec_from_index(m), i as int)
                        + (if Shop::spec_from_index(m).spec_rarity() < r {
                        s0.donatable_upto(Shop::spec_from_index(m), i as int, n as int)
                    } else {
                        0
                    }),
            decreases 5 - r,
        {
            let mut j: usize = 0;
            while j < n
                invariant
                    j <= n,
                    1 <= r <= 4,
                    n == self.n(),
                    i < n,
                    s0.wf(),
                    n == s0.n(),
                    self.wf(),
                    self.levels@ == s0.levels@,
                    self.shops@ == s0.shops@,
                    self.targets@ == s0.targets@,
                    self.free_conv == s0.free_conv,
                    self.stones == s0.stones,
                    self.purple == s0.purple,
                    self.blue == s0.blue,
                    self.fodder_pools@ == pools1,
                    p1 == s0.pages@.update(i as int, (s0.pages@[i as int] - s0.next_self_cost(i as int)) as u32),
                    gold_budgets@.len() == SHOP_COUNT,
                    draws_ok(draws@, n as int, i as int),
                    draws_cheapest_first(draws@, self.shops@),
                    forall|e: int| 0 <= e < draws@.len() ==> draw_rank(#[trigger] draws@[e], self.shops@) <= 5 + r,
                    draws_total(draws@) + remaining == cost.other_pages,
                    forall|m: int| #[trigger] draws_from_pool(draws@, m) == draws_from_pool(d1, m),
                    forall|x: int|
                        0 <= x < n ==> #[trigger] self.pages@[x] == p1[x] - draws_from_skill(draws@, x),
                    forall|x: int|
                        0 <= x < n && (self.shops@[x].spec_rarity() > r || (self.shops@[x].spec_rarity() == r
                            && x >= j)) ==> #[trigger] draws_from_skill(draws@, x) == 0,
                    greedy_ok(b, cap, taken, gold_budgets@, draws_total(draws@), remaining as int),
                    drawn_from_shops(s0, *self, i as int, c_self, taken),
                    c_self == s0.next_self_cost(i as int),
                    left.len() == SHOP_COUNT,
                    forall|m: int| 0 <= m < SHOP_COUNT ==> #[trigger] gold_budgets@[m] == left[m],
                    draws@ + s0.skill_draws(i as int, r as int, j as int, left, remaining as int) == s0.greedy_draws(
                        i as int,
                    ),
                    forall|m: int|
                        0 <= m < SHOP_COUNT ==> #[trigger] cap[m] == s0.pool_share(Shop::spec_from_index(m), i as int)
                            + (if Shop::spec_from_index(m).spec_rarity() < r {
                            s0.donatable_upto(Shop::spec_from_index(m), i as int, n as int)
                        } else if Shop::spec_from_index(m).spec_rarity() == r {
                            s0.donatable_upto(Shop::spec_from_index(m), i as int, j as int)
                        } else {
                            0
                        }),
                decreases n - j,
            {
                let ghost st0 = *self;
                if j != i && self.shops[j].rarity() == r {
                    let si = self.shops[j].index();
                    let d = self.donatable(j);
                    proof {
                        lemma_shop_index_roundtrip(self.shops@[j as int]);
                        assert(d == s0.spec_donatable(j as int));
                    }
                    let mut give: u32 = if d < remaining {
                        d
                    } else {
                        remaining
                    };
                    if give as u128 > gold_budgets[si] {
                        give = gold_budgets[si] as u32;
                    }
                    let ghost gb0 = gold_budgets@;
                    let ghost dt0 = draws_total(draws@);
                    let ghost rem0 = remaining as int;
                    let ghost dd0 = draws@;
                    if give > 0 {
                        let cur = self.pages[j];
                        self.pages.set(j, cur - give);
                        let bk = gold_budgets[si];
                        gold_budgets.set(si, bk - give as u128);
                        let ghost d0 = draws@;
                        draws.push(GoldDraw { source: GoldSource::Skill(j), pages: give });
                        remaining = remaining - give;
                        proof {
                            lemma_draws_push(d0, GoldDraw { source: GoldSource::Skill(j), pages: give });
                            assert forall|x: int|
                                0 <= x < n implies #[trigger] self.pages@[x] == p1[x] - draws_from_skill(
                                draws@,
                                x,
                            ) by {
                                if x != j as int {
                                }
                            }
                            assert forall|e: int| 0 <= e < draws@.len() implies #[trigger] draws@[e].pages
                                > 0 && match draws@[e].source {
                                GoldSource::Skill(x) => x < n && x != i,
                                GoldSource::Pool(_) => true,
                            } by {
                                if e < d0.len() {
                                    assert(draws@[e] == d0[e]);
                                }
                            }
                            assert forall|a: int, b: int| 0 <= a < b < draws@.len() implies draw_rank(
                                draws@[a],
                                self.shops@,
                            ) <= draw_rank(draws@[b], self.shops@) by {
                                assert(draws@[a] == d0[a]);
                                if b < d0.len() {
                                    assert(draws@[b] == d0[b]);
                                }
                            }
                            assert forall|e: int| 0 <= e < draws@.len() implies draw_rank(
                                #[trigger] draws@[e],
                                self.shops@,
                            ) <= 5 + r by {
                                if e < d0.len() {
                                    assert(draws@[e] == d0[e]);
                                }
                            }
                        }
                    }
                    proof {
                        lemma_greedy_step(b, cap, taken, gb0, gold_budgets@, dt0, draws_total(draws@),
                            rem0, remaining as int, si as int, d as int, give as int);
                        cap = cap.update(si as int, cap[si as int] + d);
                        assert(self.pages@ =~= st0.pages@.update(j as int, self.pages@[j as int]));
                        lemma_skill_draw(st0, *self, j as int, si as int, give as int);
                        lemma_drawn_step(s0, st0, *self, i as int, c_self, taken, taken.update(si as int, taken[si as int]
                            + give), si as int, give as int);
                        taken = taken.update(si as int, taken[si as int] + give);
                        let left1 = left.update(si as int, left[si as int] - give);
                        let rest = s0.skill_draws(i as int, r as int, j + 1, left1, remaining as int);
                        let dr = GoldDraw { source: GoldSource::Skill(j), pages: give };
                        assert(s0.skill_draws(i as int, r as int, j as int, left, rem0) == if give > 0 {
                            seq![dr] + rest
                        } else {
                            rest
                        });
                        if give > 0 {
                            assert(draws@ + rest =~= dd0 + (seq![dr] + rest));
                        } else {
                            assert(draws@ == dd0);
                        }
                        left = left1;
                    }
                } else {
                    proof {
                        assert(s0.skill_draws(i as int, r as int, j as int, left, remaining as int) == s0.skill_draws(
                            i as int,
                            r as int,
                            j + 1,
                            left,
                            remaining as int,
                        ));
                    }
                }
                proof {
                    assert forall|m: int|
                        0 <= m < SHOP_COUNT implies #[trigger] cap[m] == s0.pool_share(Shop::spec_from_index(m), i as int)
                            + (if Shop::spec_from_index(m).spec_rarity() < r {
                            s0.donatable_upto(Shop::spec_from_index(m), i as int, n as int)
                        } else if Shop::spec_from_index(m).spec_rarity() == r {
                            s0.donatable_upto(Shop::spec_from_index(m), i as int, j + 1)
                        } else {
                            0
                        }) by {
                        lemma_shop_index_roundtrip(self.shops@[j as int]);
                        assert(Shop::spec_from_index(m).index() == m);
                    }
                }
                j = j + 1;
            }
            proof {
                assert(s0.skill_draws(i as int, r as int, n as int, left, remaining as int) == s0.skill_draws(
                    i as int,
                    r + 1,
                    0,
                    left,
                    remaining as int,
                ));
            }
            r = r + 1;
        }
        proof {
            assert(s0.skill_draws(i as int, 5, 0, left, remaining as int) == Seq::<GoldDraw>::empty());
            assert(draws@ + Seq::<GoldDraw>::empty() =~= draws@);
        }
        proof {
            assert forall|m: int| 0 <= m < SHOP_COUNT implies #[trigger] cap[m] == s0.pool_share(
                Shop::spec_from_index(m),
                i as int,
            ) + s0.donatable_upto(Shop::spec_from_index(m), i as int, n as int) by {
            }
            assert(capped_total(b, cap) == s0.total_share(i as int)) by {
                assert(cap[0] == s0.pool_share(Shop::LunJian, i as int) + s0.donatable_upto(Shop::LunJian, i as int, n as int));
                assert(cap[1] == s0.pool_share(Shop::ZhuTian, i as int) + s0.donatable_upto(Shop::ZhuTian, i as int, n as int));
                assert(cap[2] == s0.pool_share(Shop::ZongMen, i as int) + s0.donatable_upto(Shop::ZongMen, i as int, n as int));
                assert(cap[3] == s0.pool_share(Shop::DaoYun, i as int) + s0.donatable_upto(Shop::DaoYun, i as int, n as int));
                assert(cap[4] == s0.pool_share(Shop::BaiZu, i as int) + s0.donatable_upto(Shop::BaiZu, i as int, n as int));
            }
        }
        // The sources could not cover the other pages: undo
        if remaining > 0 {
            self.pages = saved_pages;
            self.fodder_pools = saved_pools;
            return None;
        }
        let ghost s_drawn = *self;
        self.purple = self.purple - cost.purple_pages;
        self.blue = self.blue - cost.blue_pages;
        self.levels.set(i, next);
        let a = UpgradeAction {
            skill_index: i,
            from_level: from,
            to_level: next,
            self_pages_used: cost.self_pages,
            other_pages_consumed: draws,
            purple_pages_used: cost.purple_pages,
            blue_pages_used: cost.blue_pages,
        };
        proof {
            assert forall|j: int| 0 <= j < s0.n() implies #[trigger] self.pages@[j] == s0.pages@[j]
                - upgrade_page_use(a, j) by {
            }
            assert forall|m: int| 0 <= m < SHOP_COUNT implies #[trigger] self.fodder_pools@[m]
                == s0.fodder_pools@[m] - upgrade_pool_use(a, m) by {
                assert(draws_from_pool(draws@, m) == draws_from_pool(d1, m));
            }
            assert forall|m: int| 0 <= m < SHOP_COUNT implies #[trigger] taken[m] <= s0.spec_gold_budget(
                Shop::spec_from_index(m),
                i as int,
            ) by {
                assert(b[m] == s0.spec_gold_budget(Shop::spec_from_index(m), i as int));
            }
            lemma_slack_after_upgrade(s0, s_drawn, *self, i as int, c_self, taken);
        }
        Some(a)
    }
}

impl SimState {
    /// Other pages all shops can give for an upgrade of `exclude`, over the first `k` shops.
    pub open spec fn budgets_upto(&self, exclude: int, k: int) -> int
        decreases k,
    {
        if k <= 0 {
            0
        } else {
            self.budgets_upto(exclude, k - 1) + self.spec_gold_budget(Shop::spec_from_index(k - 1), exclude)
        }
    }

    /// Own pages skill `i` needs for its next level.
    pub open spec fn next_self_cost(&self, i: int) -> int {
        cost_of(self.levels@[i].index() + 1).self_pages as int
    }

    /// What the first `k` skills of `shop` still lack of own pages once skill `i` has paid
    /// the own pages of its next level.
    pub open spec fn deficit_after_upto(&self, shop: Shop, i: int, k: int) -> int
        decreases k,
    {
        if k <= 0 {
            0
        } else {
            self.deficit_after_upto(shop, i, k - 1) + (if self.shops@[k - 1] == shop && self.below_target(
                k - 1,
            ) {
                if k - 1 == i {
                    max0(self.spec_target_cost(i) - (self.pages@[i] - self.next_self_cost(i)))
                } else {
                    self.spec_self_remaining_need(k - 1)
                }
            } else {
                0
            })
        }
    }

    /// Pool pages of `shop` that can go to skill `i`'s other pages once `i` has paid its own
    /// pages, without leaving the shop's own shortfalls uncovered.
    pub open spec fn pool_share(&self, shop: Shop, i: int) -> int {
        max0(
            self.fodder_pools@[shop.index() as int] - max0(
                self.deficit_after_upto(shop, i, self.n()) - self.donatable_upto(shop, i, self.n()),
            ),
        )
    }

    /// Other pages `shop` can give to skill `i`'s next level: its pool share and the spare pages
    /// of its other skills, within the shop's budget.
    pub open spec fn shop_share(&self, shop: Shop, i: int) -> int {
        vstd::math::min(
            self.spec_gold_budget(shop, i),
            self.pool_share(shop, i) + self.donatable_upto(shop, i, self.n()),
        )
    }

    /// Other pages all five shops can give to skill `i`'s next level.
    pub open spec fn total_share(&self, i: int) -> int {
        self.shop_share(Shop::LunJian, i) + self.shop_share(Shop::ZhuTian, i) + self.shop_share(
            Shop::ZongMen,
            i,
        ) + self.shop_share(Shop::DaoYun, i) + self.shop_share(Shop::BaiZu, i)
    }

    /// Skill `i` can go up one level now: it is below its target, holds the own pages of its
    /// next level, the purple and blue pages are there, and the shops can give its other pages.
    pub open spec fn can_upgrade(&self, i: int) -> bool {
        let c = cost_of(self.levels@[i].index() + 1);
        &&& self.below_target(i)
        &&& self.pages@[i] >= c.self_pages
        &&& self.purple >= c.purple_pages
        &&& self.blue >= c.blue_pages
        &&& self.total_share(i) >= c.other_pages
    }

    /// The shops' budgets for skill `i`'s next level, in shop order.
    pub open spec fn budgets_of(&self, i: int) -> Seq<int> {
        Seq::new(SHOP_COUNT as nat, |m: int| self.spec_gold_budget(Shop::spec_from_index(m), i))
    }

    /// Draws from the other skills' spare pages for skill `i`: the skills of rarity `r` from
    /// position `j` on, then those of the dearer rarities; each gives what it can, within its
    /// shop's budget left (`left`), until nothing is missing (`rem`).
    pub open spec fn skill_draws(&self, i: int, r: int, j: int, left: Seq<int>, rem: int) -> Seq<GoldDraw>
        decreases 5 - r, self.n() - j,
    {
        if r > 4 || r < 1 {
            Seq::empty()
        } else if j >= self.n() || j < 0 {
            if j >= self.n() {
                self.skill_draws(i, r + 1, 0, left, rem)
            } else {
                Seq::empty()
            }
        } else if j != i && self.shops@[j].spec_rarity() == r {
            let m = self.shops@[j].index() as int;
            let take = vstd::math::min(vstd::math::min(self.spec_donatable(j), rem), left[m]);
            let rest = self.skill_draws(i, r, j + 1, left.update(m, left[m] - take), rem - take);
            if take > 0 {
                seq![GoldDraw { source: GoldSource::Skill(j as usize), pages: take as u32 }] + rest
            } else {
                rest
            }
        } else {
            self.skill_draws(i, r, j + 1, left, rem)
        }
    }

    /// Draws from the fodder pools for skill `i`, from shop `k` on, then from the other skills.
    pub open spec fn pool_draws(&self, i: int, k: int, left: Seq<int>, rem: int) -> Seq<GoldDraw>
        decreases SHOP_COUNT - k,
    {
        if k >= SHOP_COUNT || k < 0 {
            if k >= SHOP_COUNT {
                self.skill_draws(i, 1, 0, left, rem)
            } else {
                Seq::empty()
            }
        } else {
            let shop = Shop::spec_from_index(k);
            let take = vstd::math::min(vstd::math::min(self.pool_share(shop, i), rem), left[k]);
            let rest = self.pool_draws(i, k + 1, left.update(k, left[k] - take), rem - take);
            if take > 0 {
                seq![GoldDraw { source: GoldSource::Pool(shop), pages: take as u32 }] + rest
            } else {
                rest
            }
        }
    }

    /// The other pages drawn for skill `i`'s next level: the fodder pools shop by shop, then
    /// the other skills' spare pages, cheaper shops first and then by position; each source
    /// gives what it can, within its shop's budget left, until nothing is missing.
    pub open spec fn greedy_draws(&self, i: int) -> Seq<GoldDraw> {
        self.pool_draws(
            i,
            0,
            self.budgets_of(i),
            cost_of(self.levels@[i].index() + 1).other_pages as int,
        )
    }

    /// Skill `i` is below its target and lacks own pages for its next level.
    pub open spec fn wants_pages(&self, i: int) -> bool {
        self.below_target(i) && self.pages@[i] < self.next_self_cost(i)
    }

    /// A full batch for skill `i` is available in its shop: in the fodder pool or as spare
    /// pages of another skill of the shop.
    pub open spec fn has_batch_source(&self, i: int) -> bool {
        ||| self.fodder_pools@[self.shops@[i].index() as int] >= PAGES_PER_UNIT
        ||| exists|j: int|
            0 <= j < self.n() && j != i && self.shops@[j] == self.shops@[i] && #[trigger] self.spec_donatable(j)
                >= PAGES_PER_UNIT
    }

    /// No skill that lacks own pages for its next level can get a batch by conversion.
    pub open spec fn conversions_exhausted(&self) -> bool {
        forall|i: int| 0 <= i < self.n() && #[trigger] self.wants_pages(i) ==> !self.has_batch_source(i)
    }

    /// Same contents, field by field.
    pub open spec fn same_contents(&self, other: &SimState) -> bool {
        &&& self.levels@ == other.levels@
        &&& self.pages@ == other.pages@
        &&& self.shops@ == other.shops@
        &&& self.targets@ == other.targets@
        &&& self.fodder_pools@ == other.fodder_pools@
        &&& self.purple == other.purple
        &&& self.blue == other.blue
        &&& self.stones == other.stones
        &&& self.free_conv == other.free_conv
    }
}

impl SimState {
    /// What shop `shop`'s skills and pool hold beyond the own pages its skills below their
    /// targets still need to reach them (negative when they hold less).
    pub open spec fn shop_slack(&self, shop: Shop) -> int {
        self.pages_upto(shop, self.n()) + self.fodder_pools@[shop.index() as int] - self.target_cost_upto(
            shop,
            self.n(),
        )
    }

    /// What shop `shop` keeps back for skill `i`'s own later upgrades when `i` goes up: the
    /// pages of `i` beyond its own needs, when `i` belongs to the shop.
    pub open spec fn kept_for(&self, i: int, shop: Shop) -> int {
        if self.shops@[i] == shop {
            self.spec_donatable(i)
        } else {
            0
        }
    }
}

/// What the draws so far took from each shop: the skills' pages and the pools of `s` are those
/// of `s0`, less the own pages `c` skill `i` paid in its shop, less `taken[m]` in shop `m`.
spec fn drawn_from_shops(s0: SimState, s: SimState, i: int, c: int, taken: Seq<int>) -> bool {
    forall|m: int|
        0 <= m < SHOP_COUNT ==> #[trigger] s.pages_upto(Shop::spec_from_index(m), s.n()) + s.fodder_pools@[m]
            == s0.pages_upto(Shop::spec_from_index(m), s0.n()) + s0.fodder_pools@[m] - (if s0.shops@[i]
            == Shop::spec_from_index(m) {
            c
        } else {
            0
        }) - taken[m]
}

proof fn lemma_pages_upto_same(a: SimState, b: SimState, k: int)
    requires
        a.pages@ == b.pages@,
        a.shops@ == b.shops@,
    ensures
        forall|shop: Shop| #[trigger] a.pages_upto(shop, k) == b.pages_upto(shop, k),
    decreases k,
{
    if k > 0 {
        lemma_pages_upto_same(a, b, k - 1);
        assert forall|shop: Shop| #[trigger] a.pages_upto(shop, k) == b.pages_upto(shop, k) by {
            assert(a.pages_upto(shop, k - 1) == b.pages_upto(shop, k - 1));
        }
    }
}

proof fn lemma_pages_upto_set(a: SimState, b: SimState, j: int, k: int)
    requires
        a.shops@ == b.shops@,
        0 <= j < a.pages@.len(),
        0 <= k <= a.pages@.len(),
        a.shops@.len() == a.pages@.len(),
        b.pages@ == a.pages@.update(j, b.pages@[j]),
    ensures
        forall|shop: Shop| #[trigger] b.pages_upto(shop, k) == a.pages_upto(shop, k) + (if j < k && a.shops@[j] == shop {
            b.pages@[j] - a.pages@[j]
        } else {
            0
        }),
    decreases k,
{
    if k > 0 {
        lemma_pages_upto_set(a, b, j, k - 1);
        assert forall|shop: Shop| #[trigger] b.pages_upto(shop, k) == a.pages_upto(shop, k) + (if j < k && a.shops@[j]
            == shop {
            b.pages@[j] - a.pages@[j]
        } else {
            0
        }) by {
            assert(b.pages_upto(shop, k - 1) == a.pages_upto(shop, k - 1) + (if j < k - 1 && a.shops@[j] == shop {
                b.pages@[j] - a.pages@[j]
            } else {
                0
            }));
            if k - 1 != j {
                assert(b.pages@[k - 1] == a.pages@[k - 1]);
            }
        }
    }
}

proof fn lemma_target_cost_after_step(a: SimState, b: SimState, i: int, k: int)
    requires
        a.wf(),
        b.shops@ == a.shops@,
        b.targets@ == a.targets@,
        0 <= i < a.n(),
        0 <= k <= a.n(),
        a.below_target(i),
        b.levels@ == a.levels@.update(i, b.levels@[i]),
        b.levels@[i].index() == a.levels@[i].index() + 1,
    ensures
        forall|shop: Shop| #[trigger] b.target_cost_upto(shop, k) == a.target_cost_upto(shop, k) - (if i < k
            && a.shops@[i] == shop {
            cost_of(a.levels@[i].index() + 1).self_pages as int
        } else {
            0
        }),
    decreases k,
{
    if k > 0 {
        lemma_target_cost_after_step(a, b, i, k - 1);
        let l = a.levels@[i].index() as int;
        let t = a.targets@[i].index() as int;
        lemma_range_cost_split(l, l + 1, t, 0);
        assert(range_cost(l, l + 1, 0) == cost_of(l + 1).self_pages) by {
            assert(range_cost(l, l, 0) == 0);
        }
        assert forall|shop: Shop| #[trigger] b.target_cost_upto(shop, k) == a.target_cost_upto(shop, k) - (if i < k
            && a.shops@[i] == shop {
            cost_of(a.levels@[i].index() + 1).self_pages as int
        } else {
            0
        }) by {
            assert(b.target_cost_upto(shop, k - 1) == a.target_cost_upto(shop, k - 1) - (if i < k - 1
                && a.shops@[i] == shop {
                cost_of(a.levels@[i].index() + 1).self_pages as int
            } else {
                0
            }));
            if k - 1 != i {
                assert(b.levels@[k - 1] == a.levels@[k - 1]);
            } else {
                if l + 1 == t {
                    assert(range_cost(l + 1, t, 0) == 0);
                }
            }
        }
    }
}

proof fn lemma_drawn_step(
    s0: SimState,
    st0: SimState,
    st1: SimState,
    i: int,
    c: int,
    taken0: Seq<int>,
    taken1: Seq<int>,
    m0: int,
    amt: int,
)
    requires
        drawn_from_shops(s0, st0, i, c, taken0),
        0 <= m0 < SHOP_COUNT,
        taken0.len() == SHOP_COUNT,
        taken1 == taken0.update(m0, taken0[m0] + amt),
        forall|m: int|
            0 <= m < SHOP_COUNT ==> #[trigger] st1.pages_upto(Shop::spec_from_index(m), st1.n()) + st1.fodder_pools@[m]
                == st0.pages_upto(Shop::spec_from_index(m), st0.n()) + st0.fodder_pools@[m] - (if m == m0 {
                amt
            } else {
                0
            }),
    ensures
        drawn_from_shops(s0, st1, i, c, taken1),
{
    assert forall|m: int| 0 <= m < SHOP_COUNT implies #[trigger] st1.pages_upto(Shop::spec_from_index(m), st1.n())
        + st1.fodder_pools@[m] == s0.pages_upto(Shop::spec_from_index(m), s0.n()) + s0.fodder_pools@[m] - (if s0.shops@[i]
        == Shop::spec_from_index(m) {
        c
    } else {
        0
    }) - taken1[m] by {
        assert(st0.pages_upto(Shop::spec_from_index(m), st0.n()) + st0.fodder_pools@[m] == s0.pages_upto(
            Shop::spec_from_index(m),
            s0.n(),
        ) + s0.fodder_pools@[m] - (if s0.shops@[i] == Shop::spec_from_index(m) {
            c
        } else {
            0
        }) - taken0[m]);
    }
}

/// A pool draw of `amt` pages from shop `k`'s pool.
proof fn lemma_pool_draw(st0: SimState, st1: SimState, k: int, amt: int)
    requires
        st0.wf(),
        st1.pages@ == st0.pages@,
        st1.shops@ == st0.shops@,
        st1.levels@ == st0.levels@,
        0 <= k < SHOP_COUNT,
        st1.fodder_pools@.len() == SHOP_COUNT,
        forall|m: int| 0 <= m < SHOP_COUNT ==> #[trigger] st1.fodder_pools@[m] == st0.fodder_pools@[m] - (if m == k {
            amt
        } else {
            0
        }),
    ensures
        forall|m: int|
            0 <= m < SHOP_COUNT ==> #[trigger] st1.pages_upto(Shop::spec_from_index(m), st1.n()) + st1.fodder_pools@[m]
                == st0.pages_upto(Shop::spec_from_index(m), st0.n()) + st0.fodder_pools@[m] - (if m == k {
                amt
            } else {
                0
            }),
{
    lemma_pages_upto_same(st0, st1, st0.n());
}

/// A draw of `amt` pages from skill `j`, of shop `m0`.
proof fn lemma_skill_draw(st0: SimState, st1: SimState, j: int, m0: int, amt: int)
    requires
        st0.wf(),
        st1.shops@ == st0.shops@,
        st1.levels@ == st0.levels@,
        st1.fodder_pools@ == st0.fodder_pools@,
        0 <= j < st0.n(),
        m0 == st0.shops@[j].index(),
        st1.pages@ == st0.pages@.update(j, st1.pages@[j]),
        st1.pages@[j] == st0.pages@[j] - amt,
    ensures
        forall|m: int|
            0 <= m < SHOP_COUNT ==> #[trigger] st1.pages_upto(Shop::spec_from_index(m), st1.n()) + st1.fodder_pools@[m]
                == st0.pages_upto(Shop::spec_from_index(m), st0.n()) + st0.fodder_pools@[m] - (if m == m0 {
                amt
            } else {
                0
            }),
{
    lemma_pages_upto_set(st0, st1, j, st0.n());
    lemma_shop_index_roundtrip(st0.shops@[j]);
    assert forall|m: int|
        0 <= m < SHOP_COUNT implies #[trigger] st1.pages_upto(Shop::spec_from_index(m), st1.n()) + st1.fodder_pools@[m]
        == st0.pages_upto(Shop::spec_from_index(m), st0.n()) + st0.fodder_pools@[m] - (if m == m0 {
        amt
    } else {
        0
    }) by {
        assert(Shop::spec_from_index(m).index() == m);
    }
}

/// After the upgrade each shop's slack is its slack before less what was drawn from it, and
/// what was drawn stays within the shop's budget.
proof fn lemma_slack_after_upgrade(s0: SimState, s_drawn: SimState, s1: SimState, i: int, c: int, taken: Seq<int>)
    requires
        s0.wf(),
        s1.wf(),
        0 <= i < s0.n(),
        s0.below_target(i),
        c == s0.next_self_cost(i),
        drawn_from_shops(s0, s_drawn, i, c, taken),
        taken.len() == SHOP_COUNT,
        forall|m: int| 0 <= m < SHOP_COUNT ==> #[trigger] taken[m] <= s0.spec_gold_budget(Shop::spec_from_index(m), i),
        s_drawn.n() == s0.n(),
        s1.pages@ == s_drawn.pages@,
        s1.shops@ == s0.shops@,
        s_drawn.shops@ == s0.shops@,
        s1.targets@ == s0.targets@,
        s1.fodder_pools@ == s_drawn.fodder_pools@,
        s1.levels@ == s0.levels@.update(i, s1.levels@[i]),
        s1.levels@[i].index() == s0.levels@[i].index() + 1,
    ensures
        forall|shop: Shop| #[trigger] s1.shop_slack(shop) >= vstd::math::min(s0.shop_slack(shop), s0.kept_for(i, shop)),
{
    lemma_pages_upto_same(s_drawn, s1, s0.n());
    lemma_target_cost_after_step(s0, s1, i, s0.n());
    assert forall|shop: Shop| #[trigger] s1.shop_slack(shop) >= vstd::math::min(s0.shop_slack(shop), s0.kept_for(i, shop)) by {
        let m = shop.index() as int;
        lemma_shop_index_roundtrip(shop);
        assert(Shop::spec_from_index(m) == shop);
        assert(taken[m] <= s0.spec_gold_budget(shop, i));
        assert(s0.kept_for(i, shop) >= 0);
        assert(s_drawn.pages_upto(shop, s_drawn.n()) + s_drawn.fodder_pools@[m] == s0.pages_upto(shop, s0.n())
            + s0.fodder_pools@[m] - (if s0.shops@[i] == shop { c } else { 0 }) - taken[m]);
    }
}

/// The five per-shop entries of `s` added up.
spec fn total5(s: Seq<int>) -> int {
    s[0] + s[1] + s[2] + s[3] + s[4]
}

/// Per shop the smaller of its budget `b` and what its sources could give `c`, added up.
spec fn capped_total(b: Seq<int>, c: Seq<int>) -> int {
    vstd::math::min(b[0], c[0]) + vstd::math::min(b[1], c[1]) + vstd::math::min(b[2], c[2])
        + vstd::math::min(b[3], c[3]) + vstd::math::min(b[4], c[4])
}

/// The bookkeeping of drawing other pages shop by shop: what was taken from a shop stays
/// within its budget `b` and what its sources seen so far could give (`cap`); the budgets
/// left are what was not taken; and while pages are still missing, every shop has given all
/// it could.
spec fn greedy_ok(
    b: Seq<int>,
    cap: Seq<int>,
    taken: Seq<int>,
    left: Seq<u128>,
    drawn: int,
    remaining: int,
) -> bool {
    &&& b.len() == SHOP_COUNT
    &&& cap.len() == SHOP_COUNT
    &&& taken.len() == SHOP_COUNT
    &&& left.len() == SHOP_COUNT
    &&& forall|m: int| 0 <= m < SHOP_COUNT ==> 0 <= #[trigger] taken[m] <= vstd::math::min(b[m], cap[m])
    &&& forall|m: int| 0 <= m < SHOP_COUNT ==> #[trigger] left[m] == b[m] - taken[m]
    &&& drawn == total5(taken)
    &&& remaining >= 0
    &&& remaining > 0 ==> forall|m: int| 0 <= m < SHOP_COUNT ==> #[trigger] taken[m] == vstd::math::min(b[m], cap[m])
}

/// One source of shop `m` that could give `c` pages gives `take`, the least of `c`, what is
/// still missing and the shop's budget left: the bookkeeping stays right.
proof fn lemma_greedy_step(
    b: Seq<int>,
    cap: Seq<int>,
    taken: Seq<int>,
    left0: Seq<u128>,
    left1: Seq<u128>,
    drawn0: int,
    drawn1: int,
    rem0: int,
    rem1: int,
    m: int,
    c: int,
    take: int,
)
    requires
        greedy_ok(b, cap, taken, left0, drawn0, rem0),
        0 <= m < SHOP_COUNT,
        c >= 0,
        take == vstd::math::min(vstd::math::min(c, rem0), left0[m] as int),
        left1.len() == SHOP_COUNT,
        forall|x: int| 0 <= x < SHOP_COUNT ==> #[trigger] left1[x] == if x == m {
            left0[m] - take
        } else {
            left0[x] as int
        },
        drawn1 == drawn0 + take,
        rem1 == rem0 - take,
    ensures
        greedy_ok(b, cap.update(m, cap[m] + c), taken.update(m, taken[m] + take), left1, drawn1, rem1),
{
    let cap1 = cap.update(m, cap[m] + c);
    let taken1 = taken.update(m, taken[m] + take);
    assert(taken[m] == b[m] - left0[m]);
    assert forall|x: int| 0 <= x < SHOP_COUNT implies 0 <= #[trigger] taken1[x] <= vstd::math::min(b[x], cap1[x]) by {
    }
    assert forall|x: int| 0 <= x < SHOP_COUNT implies #[trigger] left1[x] == b[x] - taken1[x] by {
    }
    assert(total5(taken1) == total5(taken) + take);
    if rem1 > 0 {
        assert forall|x: int| 0 <= x < SHOP_COUNT implies #[trigger] taken1[x] == vstd::math::min(b[x], cap1[x]) by {
            if x == m {
                assert(taken[m] == vstd::math::min(b[m], cap[m]));
            }
        }
    }
}

/// What the shops can give to skill `i`'s next level is within the sum of their budgets.
proof fn lemma_share_within_budgets(s: SimState, i: int)
    ensures
        s.total_share(i) <= s.budgets_upto(i, SHOP_COUNT as int),
{
    reveal_with_fuel(SimState::budgets_upto, 6);
}

/// Once skill `i` has paid the own pages of its next level, the shortfalls of a shop are
/// those computed ahead by `deficit_after_upto`, and the other skills' spare pages are
/// unchanged.
proof fn lemma_after_paying(s0: SimState, s1: SimState, i: int, shop: Shop, k: int)
    requires
        s0.wf(),
        s1.wf(),
        s1.levels@ == s0.levels@,
        s1.shops@ == s0.shops@,
        s1.targets@ == s0.targets@,
        0 <= i < s0.n(),
        0 <= k <= s0.n(),
        s0.pages@[i] >= s0.next_self_cost(i),
        s1.pages@ == s0.pages@.update(i, (s0.pages@[i] - s0.next_self_cost(i)) as u32),
    ensures
        s1.deficit_upto(shop, k) == s0.deficit_after_upto(shop, i, k),
        s1.donatable_upto(shop, i, k) == s0.donatable_upto(shop, i, k),
    decreases k,
{
    if k > 0 {
        lemma_after_paying(s0, s1, i, shop, k - 1);
        assert(s1.spec_target_cost(k - 1) == s0.spec_target_cost(k - 1));
    }
}

/// Upgrade `a` took the state from `s0` to `s1`: it is valid, starts from the skill's level,
/// stays within the skill's target, and the levels, pages, pools, purple and blue pages change
/// by exactly what it records.
pub open spec fn upgrade_applied(s0: &SimState, s1: &SimState, a: UpgradeAction) -> bool {
    let i = a.skill_index as int;
    &&& upgrade_ok(a, s0.n())
    &&& a.from_level == s0.levels@[i]
    &&& a.to_level.index() <= s0.targets@[i].index()
    &&& s1.levels@ == s0.levels@.update(i, a.to_level)
    &&& forall|j: int| 0 <= j < s0.n() ==> #[trigger] s1.pages@[j] == s0.pages@[j] - upgrade_page_use(a, j)
    &&& forall|k: int|
        0 <= k < SHOP_COUNT ==> #[trigger] s1.fodder_pools@[k] == s0.fodder_pools@[k] - upgrade_pool_use(a, k)
    &&& s1.purple == s0.purple - a.purple_pages_used
    &&& s1.blue == s0.blue - a.blue_pages_used
}


// --- sums over the per-skill and per-shop amounts ---

/// The sum of the amounts.
pub open spec fn sum_u32(s: Seq<u32>) -> int
    decreases s.len(),
{
    if s.len() == 0 {
        0
    } else {
        sum_u32(s.drop_last()) + s.last()
    }
}

pub proof fn lemma_sum_u32_update(s: Seq<u32>, i: int, v: u32)
    requires
        0 <= i < s.len(),
    ensures
        sum_u32(s.update(i, v)) == sum_u32(s) - s[i] + v,
    decreases s.len(),
{
    if i < s.len() - 1 {
        lemma_sum_u32_update(s.drop_last(), i, v);
        assert(s.update(i, v).drop_last() =~= s.drop_last().update(i, v));
    } else {
        assert(s.update(i, v).drop_last() =~= s.drop_last());
    }
}

pub proof fn lemma_sum_u32_elems(s: Seq<u32>, i: int, j: int)
    requires
        0 <= i < s.len(),
        0 <= j < s.len(),
        i != j,
    ensures
        s[i] + s[j] <= sum_u32(s),
    decreases s.len(),
{
    lemma_sum_u32_nonneg(s.drop_last());
    if i < s.len() - 1 && j < s.len() - 1 {
        lemma_sum_u32_elems(s.drop_last(), i, j);
    } else if i < s.len() - 1 {
        lemma_sum_u32_elem(s.drop_last(), i);
    } else {
        lemma_sum_u32_elem(s.drop_last(), j);
    }
}

pub proof fn lemma_sum_u32_elem(s: Seq<u32>, i: int)
    requires
        0 <= i < s.len(),
    ensures
        s[i] <= sum_u32(s),
    decreases s.len(),
{
    lemma_sum_u32_nonneg(s.drop_last());
    if i < s.len() - 1 {
        lemma_sum_u32_elem(s.drop_last(), i);
    }
}

pub proof fn lemma_sum_u32_nonneg(s: Seq<u32>)
    ensures
        sum_u32(s) >= 0,
    decreases s.len(),
{
    if s.len() > 0 {
        lemma_sum_u32_nonneg(s.drop_last());
    }
}

pub proof fn lemma_sum_u32_le(a: Seq<u32>, b: Seq<u32>)
    requires
        a.len() == b.len(),
        forall|i: int| 0 <= i < a.len() ==> #[trigger] a[i] <= b[i],
    ensures
        sum_u32(a) <= sum_u32(b),
    decreases a.len(),
{
    if a.len() > 0 {
        lemma_sum_u32_le(a.drop_last(), b.drop_last());
    }
}

proof fn lemma_draws_nonneg(d: Seq<GoldDraw>, j: int, k: int)
    ensures
        draws_from_skill(d, j) >= 0,
        draws_from_pool(d, k) >= 0,
    decreases d.len(),
{
    if d.len() > 0 {
        lemma_draws_nonneg(d.drop_last(), j, k);
    }
}

impl SimState {
    /// All pages held: by the skills and in the fodder pools.
    pub open spec fn page_total(&self) -> int {
        sum_u32(self.pages@) + sum_u32(self.fodder_pools@)
    }

    /// Levels still to go before every skill reaches its target, over the first `k` skills.
    pub open spec fn levels_to_go(&self, k: int) -> int
        decreases k,
    {
        if k <= 0 {
            0
        } else {
            self.levels_to_go(k - 1) + max0(self.targets@[k - 1].index() - self.levels@[k - 1].index())
        }
    }
}

proof fn lemma_levels_to_go_step(s0: SimState, s1: SimState, i: int, k: int)
    requires
        s0.wf(),
        s1.wf(),
        s1.same_frame(&s0),
        0 <= i < s0.n(),
        0 <= k <= s0.n(),
        s0.below_target(i),
        s1.levels@ == s0.levels@.update(i, s1.levels@[i]),
        s1.levels@[i].index() == s0.levels@[i].index() + 1,
    ensures
        s1.levels_to_go(k) == s0.levels_to_go(k) - (if i < k { 1int } else { 0 }),
        s0.levels_to_go(k) >= 0,
    decreases k,
{
    if k > 0 {
        lemma_levels_to_go_step(s0, s1, i, k - 1);
    }
}

proof fn lemma_upgrade_shrinks_total(s0: SimState, s1: SimState, a: UpgradeAction)
    requires
        s0.wf(),
        s1.wf(),
        s1.same_frame(&s0),
        upgrade_applied(&s0, &s1, a),
    ensures
        s1.page_total() <= s0.page_total(),
{
    assert forall|j: int| 0 <= j < s1.pages@.len() implies #[trigger] s1.pages@[j] <= s0.pages@[j] by {
        lemma_draws_nonneg(a.other_pages_consumed@, j, 0);
    }
    assert forall|k: int| 0 <= k < s1.fodder_pools@.len() implies #[trigger] s1.fodder_pools@[k]
        <= s0.fodder_pools@[k] by {
        lemma_draws_nonneg(a.other_pages_consumed@, 0, k);
    }
    lemma_sum_u32_le(s1.pages@, s0.pages@);
    lemma_sum_u32_le(s1.fodder_pools@, s0.fodder_pools@);
}

proof fn lemma_chain_push(
    us: Seq<UpgradeAction>,
    a: UpgradeAction,
    start: Seq<SkillLevel>,
    targets: Seq<SkillLevel>,
)
    requires
        upgrades_chain_ok(us, start, targets),
        upgrade_ok(a, start.len() as int),
        a.from_level.index() == start[a.skill_index as int].index() + upgrades_count(us, a.skill_index as int),
        a.to_level.index() <= targets[a.skill_index as int].index(),
    ensures
        upgrades_chain_ok(us.push(a), start, targets),
{
    let us2 = us.push(a);
    assert forall|k: int| 0 <= k < us2.len() implies {
        &&& upgrade_ok(#[trigger] us2[k], start.len() as int)
        &&& us2[k].from_level.index() == start[us2[k].skill_index as int].index() + upgrades_count(
            us2.take(k),
            us2[k].skill_index as int,
        )
        &&& us2[k].to_level.index() <= targets[us2[k].skill_index as int].index()
    } by {
        if k < us.len() {
            assert(us2.take(k) =~= us.take(k));
            assert(us2[k] == us[k]);
        } else {
            assert(us2.take(k) =~= us);
        }
    }
}

/// `a` sorts before `b`: a smaller key, or the same key and a smaller index.
pub open spec fn key_before(a: (u64, usize), b: (u64, usize)) -> bool {
    a.0 < b.0 || (a.0 == b.0 && a.1 < b.1)
}

/// A stable sort by key of items listed by increasing index: the same items, ordered by key and,
/// for equal keys, by index.
pub fn sort_by_key(items: &Vec<(u64, usize)>) -> (out: Vec<(u64, usize)>)
    requires
        forall|a: int, b: int| 0 <= a < b < items@.len() ==> items@[a].1 < items@[b].1,
    ensures
        out@.len() == items@.len(),
        forall|a: int, b: int| 0 <= a < b < out@.len() ==> key_before(out@[a], out@[b]),
        forall|a: int| 0 <= a < out@.len() ==> items@.contains(#[trigger] out@[a]),
        forall|a: int| 0 <= a < items@.len() ==> out@.contains(#[trigger] items@[a]),
{
    let mut out: Vec<(u64, usize)> = Vec::new();
    let mut i: usize = 0;
    while i < items.len()
        invariant
            i <= items.len(),
            forall|a: int, b: int| 0 <= a < b < items@.len() ==> items@[a].1 < items@[b].1,
            out@.len() == i,
            forall|a: int, b: int| 0 <= a < b < out@.len() ==> key_before(out@[a], out@[b]),
            forall|a: int| 0 <= a < out@.len() ==> items@.take(i as int).contains(#[trigger] out@[a]),
            forall|a: int| 0 <= a < i ==> out@.contains(#[trigger] items@[a]),
        decreases items.len() - i,
    {
        let x = items[i];
        // Insert after every item whose key is not larger (keeps equal keys in order)
        let mut p: usize = 0;
        while p < out.len() && out[p].0 <= x.0
            invariant
                p <= out@.len(),
                forall|a: int| 0 <= a < p ==> #[trigger] out@[a].0 <= x.0,
            decreases out@.len() - p,
        {
            p = p + 1;
        }
        let ghost old_out = out@;
        out.insert(p, x);
        proof {
            old_out.insert_ensures(p as int, x);
            assert(items@[i as int] == x);
            assert forall|a: int| 0 <= a < old_out.len() implies #[trigger] old_out[a].1 < x.1 by {
                assert(items@.take(i as int).contains(old_out[a]));
                let j = choose|j: int| 0 <= j < i && items@.take(i as int)[j] == old_out[a];
                assert(items@[j] == old_out[a]);
            }
            assert forall|a: int| 0 <= a < out@.len() implies items@.take(i + 1).contains(#[trigger] out@[a]) by {
                if a < p {
                    assert(out@[a] == old_out[a]);
                    assert(items@.take(i as int).contains(old_out[a]));
                    let j = choose|j: int| 0 <= j < i && items@.take(i as int)[j] == old_out[a];
                    assert(items@.take(i + 1)[j] == old_out[a]);
                } else if a > p {
                    assert(out@[a] == old_out[a - 1]);
                    assert(items@.take(i as int).contains(old_out[a - 1]));
                    let j = choose|j: int| 0 <= j < i && items@.take(i as int)[j] == old_out[a - 1];
                    assert(items@.take(i + 1)[j] == old_out[a - 1]);
                } else {
                    assert(items@.take(i + 1)[i as int] == x);
                }
            }
            assert forall|a: int| 0 <= a < i + 1 implies out@.contains(#[trigger] items@[a]) by {
                if a == i {
                    assert(out@[p as int] == x);
                } else {
                    assert(old_out.contains(items@[a]));
                    let k = choose|k: int| 0 <= k < old_out.len() && old_out[k] == items@[a];
                    if k < p {
                        assert(out@[k] == items@[a]);
                    } else {
                        assert(out@[k + 1] == items@[a]);
                    }
                }
            }
            assert forall|a: int, b: int| 0 <= a < b < out@.len() implies key_before(out@[a], out@[b]) by {
                if p < old_out.len() {
                    assert(old_out[p as int].0 > x.0);
                }
                if a < p && b < p {
                    assert(out@[a] == old_out[a] && out@[b] == old_out[b]);
                } else if a < p && b == p {
                    assert(out@[a] == old_out[a]);
                    assert(old_out[a].1 < x.1);
                } else if a < p && b > p {
                    assert(out@[a] == old_out[a] && out@[b] == old_out[b - 1]);
                } else if a == p {
                    assert(out@[b] == old_out[b - 1]);
                    if b - 1 > p {
                        assert(key_before(old_out[p as int], old_out[b - 1]));
                    }
                } else {
                    assert(out@[a] == old_out[a - 1] && out@[b] == old_out[b - 1]);
                }
            }
        }
        i = i + 1;
    }
    proof {
        assert(items@.take(items@.len() as int) =~= items@);
    }
    out
}


impl SimState {
    /// The order in which upgrades are tried: fewer other pages first, then fewer levels to go.
    pub open spec fn upgrade_key(&self, i: int) -> int {
        cost_of(self.levels@[i].index() + 1).other_pages * 16 + (self.targets@[i].index()
            - self.levels@[i].index())
    }

    /// Skill `i` is the first in upgrade order that can go up now.
    pub open spec fn first_to_upgrade(&self, i: int) -> bool {
        &&& 0 <= i < self.n()
        &&& self.can_upgrade(i)
        &&& forall|j: int|
            0 <= j < self.n() && #[trigger] self.can_upgrade(j) ==> self.upgrade_key(i) < self.upgrade_key(j)
                || (self.upgrade_key(i) == self.upgrade_key(j) && i <= j)
    }

    /// Own pages skill `i` lacks for its next level.
    pub open spec fn shortfall(&self, i: int) -> int {
        self.next_self_cost(i) - self.pages@[i]
    }

    /// Skill `i` is the one a conversion serves now: of the skills that lack own pages for their
    /// next level and can get a batch in their shop, the one lacking the fewest (the first on a
    /// tie).
    pub open spec fn first_to_convert(&self, i: int) -> bool {
        &&& 0 <= i < self.n()
        &&& self.wants_pages(i)
        &&& self.has_batch_source(i)
        &&& forall|j: int|
            0 <= j < self.n() && #[trigger] self.wants_pages(j) && self.has_batch_source(j) ==> self.shortfall(i)
                < self.shortfall(j) || (self.shortfall(i) == self.shortfall(j) && i <= j)
    }

    /// Conversion `c` is the one taken now: it serves the skill `first_to_convert` picks, with a
    /// batch from the shop's fodder pool when that holds one, or else from the same-shop skill
    /// with the most spare pages (the first on a tie).
    pub open spec fn conversion_chosen(&self, c: ConversionAction) -> bool {
        let i = c.target_skill_index as int;
        let shop = self.shops@[i];
        let d = c.from_skill_index as int;
        &&& self.first_to_convert(i)
        &&& c.shop == shop
        &&& c.pages == PAGES_PER_UNIT
        &&& if self.fodder_pools@[shop.index() as int] >= PAGES_PER_UNIT {
            c.from_skill_index == FROM_POOL
        } else {
            &&& 0 <= d < self.n()
            &&& d != i
            &&& self.shops@[d] == shop
            &&& self.spec_donatable(d) >= PAGES_PER_UNIT
            &&& forall|x: int|
                0 <= x < self.n() && x != i && self.shops@[x] == shop ==> #[trigger] self.spec_donatable(x)
                    < self.spec_donatable(d) || (self.spec_donatable(x) == self.spec_donatable(d) && d <= x)
        }
    }
}

/// Conversion `c` took the state from `s0` to `s1`: it is valid, moves one batch of pages as it
/// records, and uses up the slot it records.
pub open spec fn conversion_applied(s0: &SimState, s1: &SimState, c: ConversionAction) -> bool {
    &&& s1.wf()
    &&& s1.same_frame(s0)
    &&& s1.levels@ == s0.levels@
    &&& s1.purple == s0.purple
    &&& s1.blue == s0.blue
    &&& s1.stones + (if c.used_stone { 1int } else { 0 }) == s0.stones
    &&& conversion_ok(c, s0.shops@)
    &&& forall|j: int|
        0 <= j < s0.n() ==> #[trigger] s1.pages@[j] == s0.pages@[j] + conversion_page_delta(c, j)
    &&& forall|k: int|
        0 <= k < SHOP_COUNT ==> #[trigger] s1.fodder_pools@[k] == s0.fodder_pools@[k] - conversion_pool_use(c, k)
}

/// How many of the first `k` actions are upgrades (`kinds`: true for an upgrade).
pub open spec fn upgrades_before(kinds: Seq<bool>, k: int) -> int
    decreases k,
{
    if k <= 0 {
        0
    } else {
        upgrades_before(kinds, k - 1) + (if kinds[k - 1] {
            1int
        } else {
            0
        })
    }
}

/// Action `k` of a run: it starts where the previous one ended (at `s0` for the first); an
/// upgrade raises the first skill in upgrade order that can go up; a conversion is taken only
/// when no skill can go up, and is the one `conversion_chosen` picks.
pub open spec fn action_ok(
    s0: SimState,
    pre: Seq<SimState>,
    post: Seq<SimState>,
    kinds: Seq<bool>,
    cs: Seq<ConversionAction>,
    us: Seq<UpgradeAction>,
    k: int,
) -> bool {
    let u = upgrades_before(kinds, k);
    &&& pre[k].same_contents(&(if k == 0 {
        s0
    } else {
        post[k - 1]
    }))
    &&& if kinds[k] {
        &&& u < us.len()
        &&& pre[k].first_to_upgrade(us[u].skill_index as int)
        &&& upgrade_applied(&pre[k], &post[k], us[u])
        &&& post[k].same_frame(&pre[k])
        &&& post[k].stones == pre[k].stones
    } else {
        &&& 0 <= k - u < cs.len()
        &&& forall|x: int| 0 <= x < pre[k].n() ==> !#[trigger] pre[k].can_upgrade(x)
        &&& pre[k].conversion_chosen(cs[k - u])
        &&& conversion_applied(&pre[k], &post[k], cs[k - u])
    }
}

/// `pre` and `post` are the states around the actions `cs` and `us`, taken in the order
/// `kinds`, from `s0` to `s1`.
pub open spec fn run_of(
    s0: SimState,
    s1: SimState,
    pre: Seq<SimState>,
    post: Seq<SimState>,
    kinds: Seq<bool>,
    cs: Seq<ConversionAction>,
    us: Seq<UpgradeAction>,
) -> bool {
    &&& pre.len() == kinds.len()
    &&& post.len() == kinds.len()
    &&& kinds.len() == cs.len() + us.len()
    &&& upgrades_before(kinds, kinds.len() as int) == us.len()
    &&& forall|k: int| 0 <= k < kinds.len() ==> #[trigger] action_ok(s0, pre, post, kinds, cs, us, k)
    &&& s1.same_contents(&(if kinds.len() == 0 {
        s0
    } else {
        post.last()
    }))
}

proof fn lemma_upgrades_before_push(kinds: Seq<bool>, b: bool, k: int)
    requires
        0 <= k <= kinds.len(),
    ensures
        upgrades_before(kinds.push(b), k) == upgrades_before(kinds, k),
    decreases k,
{
    if k > 0 {
        lemma_upgrades_before_push(kinds, b, k - 1);
        assert(kinds.push(b)[k - 1] == kinds[k - 1]);
    }
}

proof fn lemma_upgrades_before_bounds(kinds: Seq<bool>, k: int)
    requires
        0 <= k <= kinds.len(),
    ensures
        0 <= upgrades_before(kinds, k) <= k,
    decreases k,
{
    if k > 0 {
        lemma_upgrades_before_bounds(kinds, k - 1);
    }
}

/// A run extended by one more action is still a run.
proof fn lemma_run_push(
    s0: SimState,
    s1: SimState,
    pre: Seq<SimState>,
    post: Seq<SimState>,
    kinds: Seq<bool>,
    cs: Seq<ConversionAction>,
    us: Seq<UpgradeAction>,
    p: SimState,
    q: SimState,
    is_upgrade: bool,
    cs2: Seq<ConversionAction>,
    us2: Seq<UpgradeAction>,
)
    requires
        run_of(s0, s1, pre, post, kinds, cs, us),
        p.same_contents(&s1),
        is_upgrade ==> cs2 == cs && us2.len() == us.len() + 1 && us2.drop_last() == us
            && p.first_to_upgrade(us2.last().skill_index as int) && upgrade_applied(&p, &q, us2.last())
            && q.same_frame(&p) && q.stones == p.stones,
        !is_upgrade ==> us2 == us && cs2.len() == cs.len() + 1 && cs2.drop_last() == cs
            && (forall|x: int| 0 <= x < p.n() ==> !#[trigger] p.can_upgrade(x))
            && p.conversion_chosen(cs2.last()) && conversion_applied(&p, &q, cs2.last()),
    ensures
        run_of(s0, q, pre.push(p), post.push(q), kinds.push(is_upgrade), cs2, us2),
{
    let kinds2 = kinds.push(is_upgrade);
    let pre2 = pre.push(p);
    let post2 = post.push(q);
    let m = kinds.len() as int;
    lemma_upgrades_before_push(kinds, is_upgrade, m);
    assert forall|k: int| 0 <= k < kinds2.len() implies #[trigger] action_ok(s0, pre2, post2, kinds2, cs2, us2, k) by {
        if k < m {
            assert(action_ok(s0, pre, post, kinds, cs, us, k));
            lemma_upgrades_before_push(kinds, is_upgrade, k);
            lemma_upgrades_before_bounds(kinds, k);
            assert(pre2[k] == pre[k]);
            assert(post2[k] == post[k]);
            assert(kinds2[k] == kinds[k]);
            if k > 0 {
                assert(post2[k - 1] == post[k - 1]);
            }
            let u = upgrades_before(kinds, k);
            if kinds[k] {
                assert(us2[u] == us[u]);
            } else {
                assert(cs2[k - u] == cs[k - u]);
            }
        } else {
            assert(pre2[k] == p);
            assert(post2[k] == q);
            if k > 0 {
                assert(post2[k - 1] == post[k - 1]);
            }
        }
    }
}

/// Everything `do_conversions_and_upgrades` keeps while it works: the state is the start
/// state plus exactly the recorded conversions and upgrades.
pub open spec fn actions_applied(
    s0: &SimState,
    s1: &SimState,
    cs: Seq<ConversionAction>,
    us: Seq<UpgradeAction>,
) -> bool {
    &&& s1.wf()
    &&& s1.same_frame(s0)
    &&& forall|j: int|
        0 <= j < s0.n() ==> #[trigger] s1.levels@[j].index() == s0.levels@[j].index() + upgrades_count(us, j)
    &&& forall|j: int|
        0 <= j < s0.n() ==> #[trigger] s1.pages@[j] == s0.pages@[j] + conversions_page_delta(cs, j)
            - upgrades_page_use(us, j)
    &&& forall|k: int|
        0 <= k < SHOP_COUNT ==> #[trigger] s1.fodder_pools@[k] == s0.fodder_pools@[k] - conversions_pool_use(
            cs,
            k,
        ) - upgrades_pool_use(us, k)
    &&& s1.purple == s0.purple - upgrades_purple(us)
    &&& s1.blue == s0.blue - upgrades_blue(us)
    &&& s1.stones == s0.stones - stone_uses(cs)
    &&& forall|c: int| 0 <= c < cs.len() ==> conversion_ok(#[trigger] cs[c], s0.shops@)
    &&& upgrades_chain_ok(us, s0.levels@, s0.targets@)
    &&& forall|k: int| 0 <= k < us.len() ==> draws_cheapest_first(#[trigger] us[k].other_pages_consumed@, s0.shops@)
    &&& s1.page_total() <= s0.page_total()
    &&& forall|j: int|
        0 <= j < s0.n() ==> #[trigger] s1.levels@[j].index() <= s0.levels@[j].index()
            || s1.levels@[j].index() <= s0.targets@[j].index()
}

proof fn lemma_actions_after_upgrade(
    s0: SimState,
    s1: SimState,
    s2: SimState,
    cs: Seq<ConversionAction>,
    us: Seq<UpgradeAction>,
    a: UpgradeAction,
)
    requires
        s0.wf(),
        actions_applied(&s0, &s1, cs, us),
        s2.wf(),
        s2.same_frame(&s1),
        s2.stones == s1.stones,
        upgrade_applied(&s1, &s2, a),
        draws_cheapest_first(a.other_pages_consumed@, s1.shops@),
    ensures
        actions_applied(&s0, &s2, cs, us.push(a)),
{
    assert forall|k: int| 0 <= k < us.push(a).len() implies draws_cheapest_first(
        #[trigger] us.push(a)[k].other_pages_consumed@,
        s0.shops@,
    ) by {
        if k < us.len() {
            assert(us.push(a)[k] == us[k]);
        }
    }
    lemma_upgrades_push(us, a);
    lemma_upgrade_shrinks_total(s1, s2, a);
    let i = a.skill_index as int;
    assert forall|j: int| 0 <= j < s0.n() implies #[trigger] s2.levels@[j].index() <= s0.levels@[j].index()
        || s2.levels@[j].index() <= s0.targets@[j].index() by {
        if j != i {
            assert(s2.levels@[j] == s1.levels@[j]);
        }
    }
    assert forall|j: int| 0 <= j < s0.n() implies #[trigger] s2.levels@[j].index() == s0.levels@[j].index()
        + upgrades_count(us.push(a), j) by {
        if j == i {
        } else {
            assert(s2.levels@[j] == s1.levels@[j]);
        }
    }
    lemma_chain_push(us, a, s0.levels@, s0.targets@);
}

/// One conversion slot: first the priority free conversions, then the stones, then the
/// remaining free conversions. `Some(true)` when a stone was used.
fn try_use_slot(priority_left: &mut u32, stones: &mut u32, extra_left: &mut u32) -> (r: Option<bool>)
    ensures
        *old(priority_left) > 0 ==> r == Some(false) && *final(priority_left) + 1 == *old(priority_left)
            && *final(stones) == *old(stones) && *final(extra_left) == *old(extra_left),
        *old(priority_left) == 0 && *old(stones) > 0 ==> r == Some(true) && *final(priority_left) == 0
            && *final(stones) + 1 == *old(stones) && *final(extra_left) == *old(extra_left),
        *old(priority_left) == 0 && *old(stones) == 0 && *old(extra_left) > 0 ==> r == Some(false)
            && *final(priority_left) == 0 && *final(stones) == 0 && *final(extra_left) + 1 == *old(extra_left),
        *old(priority_left) == 0 && *old(stones) == 0 && *old(extra_left) == 0 ==> r is None
            && *final(priority_left) == 0 && *final(stones) == 0 && *final(extra_left) == 0,
{
    if *priority_left > 0 {
        *priority_left = *priority_left - 1;
        Some(false)
    } else if *stones > 0 {
        *stones = *stones - 1;
        Some(true)
    } else if *extra_left > 0 {
        *extra_left = *extra_left - 1;
        Some(false)
    } else {
        None
    }
}

/// Interleave upgrades and conversions until nothing more can be done: at the end no skill can
/// go up, and either the conversion slots are used up or no conversion can help. Upgrades first, those
/// needing fewer other pages (then closer to their target) first; then one conversion for the
/// skill whose next level lacks the fewest own pages, from its shop's fodder pool or else from
/// the same-shop skill with the most spare pages. Conversion slots: the first three free ones,
/// then stones, then the remaining free ones.
pub fn do_conversions_and_upgrades(state: &mut SimState, free_conv: u32) -> (r: (
    Vec<ConversionAction>,
    Vec<UpgradeAction>,
))
    requires
        old(state).wf(),
        old(state).page_total() <= u32::MAX,
    ensures
        actions_applied(&*old(state), &*final(state), r.0@, r.1@),
        free_uses(r.0@) <= free_conv,
        (free_uses(r.0@) == free_conv && final(state).stones == 0)
            || final(state).conversions_exhausted(),
        forall|x: int| 0 <= x < final(state).n() ==> !#[trigger] final(state).can_upgrade(x),
        slots_in_order(r.0@, vstd::math::min(free_conv as int, PRIORITY_FREE_CONV as int)),
        free_uses(r.0@) > vstd::math::min(free_conv as int, PRIORITY_FREE_CONV as int)
            ==> final(state).stones == 0,
        exists|pre: Seq<SimState>, post: Seq<SimState>, kinds: Seq<bool>|
            #[trigger] run_of(*old(state), *final(state), pre, post, kinds, r.0@, r.1@),
        final(state).page_total() == old(state).page_total() - upgrades_spent(r.1@),
{
    let ghost s0 = *state;
    let mut conversions: Vec<ConversionAction> = Vec::new();
    let mut upgrades: Vec<UpgradeAction> = Vec::new();
    let ghost mut pre: Seq<SimState> = Seq::empty();
    let ghost mut post: Seq<SimState> = Seq::empty();
    let ghost mut kinds: Seq<bool> = Seq::empty();
    let n = state.levels.len();
    let mut priority_left: u32 = if free_conv < PRIORITY_FREE_CONV {
        free_conv
    } else {
        PRIORITY_FREE_CONV
    };
    let mut extra_left: u32 = free_conv - priority_left;
    let ghost prio = priority_left;
    let mut go = true;
    proof {
        assert(conversions@ =~= Seq::<ConversionAction>::empty());
        assert(upgrades@ =~= Seq::<UpgradeAction>::empty());
        assert(state.levels@.take(0) =~= Seq::<SkillLevel>::empty());
    }
    while go
        invariant
            s0.wf(),
            n == s0.n(),
            actions_applied(&s0, &*state, conversions@, upgrades@),
            free_uses(conversions@) + priority_left + extra_left == free_conv,
            slots_in_order(conversions@, prio as int),
            run_of(s0, *state, pre, post, kinds, conversions@, upgrades@),
            conversions@.len() == stone_uses(conversions@) + free_uses(conversions@),
            prio == vstd::math::min(free_conv as int, PRIORITY_FREE_CONV as int),
            priority_left <= prio,
            extra_left <= free_conv - prio,
            priority_left > 0 ==> extra_left == free_conv - prio && stone_uses(conversions@) == 0,
            extra_left < free_conv - prio ==> state.stones == 0 && priority_left == 0,
            s0.page_total() <= u32::MAX,
            !go ==> ((free_uses(conversions@) == free_conv && state.stones == 0)
                || state.conversions_exhausted()),
            !go ==> forall|x: int| 0 <= x < state.n() ==> !#[trigger] state.can_upgrade(x),
        decreases (priority_left + extra_left + state.stones) * 2 + (if go { 1int } else { 0 }),
    {
        // Upgrade as long as some skill can be upgraded
        let mut upgraded = false;
        let mut again = true;
        while again
            invariant
                s0.wf(),
                n == s0.n(),
                actions_applied(&s0, &*state, conversions@, upgrades@),
                free_uses(conversions@) + priority_left + extra_left == free_conv,
                slots_in_order(conversions@, prio as int),
                run_of(s0, *state, pre, post, kinds, conversions@, upgrades@),
                conversions@.len() == stone_uses(conversions@) + free_uses(conversions@),
                prio == vstd::math::min(free_conv as int, PRIORITY_FREE_CONV as int),
                priority_left <= prio,
                extra_left <= free_conv - prio,
                priority_left > 0 ==> extra_left == free_conv - prio && stone_uses(conversions@) == 0,
                extra_left < free_conv - prio ==> state.stones == 0 && priority_left == 0,
                s0.page_total() <= u32::MAX,
                !again ==> forall|x: int| 0 <= x < state.n() ==> !#[trigger] state.can_upgrade(x),
            decreases state.levels_to_go(n as int) * 2 + (if again { 1int } else { 0 }),
        {
            proof {
                lemma_levels_to_go_nonneg(*state, n as int);
            }
            let mut keyed: Vec<(u64, usize)> = Vec::new();
            let mut i: usize = 0;
            while i < n
                invariant
                    i <= n,
                    n == state.n(),
                    state.wf(),
                    forall|a: int| 0 <= a < keyed@.len() ==> #[trigger] keyed@[a].1 < i,
                    forall|a: int, b: int| 0 <= a < b < keyed@.len() ==> keyed@[a].1 < keyed@[b].1,
                    forall|x: int|
                        0 <= x < i && #[trigger] state.below_target(x) ==> exists|a: int|
                            0 <= a < keyed@.len() && #[trigger] keyed@[a].1 == x,
                    forall|a: int|
                        0 <= a < keyed@.len() ==> #[trigger] keyed@[a].0 == state.upgrade_key(keyed@[a].1 as int),
                decreases n - i,
            {
                if state.levels[i].index() < state.targets[i].index() {
                    let next = SkillLevel::from_index(state.levels[i].index() + 1);
                    let other_cost = upgrade_cost(next).other_pages;
                    let gap = state.targets[i].index() - state.levels[i].index();
                    let ghost k0 = keyed@;
                    keyed.push(((other_cost as u64) * 16 + gap as u64, i));
                    proof {
                        assert(keyed@[k0.len() as int].1 == i);
                        assert forall|a: int| 0 <= a < keyed@.len() implies #[trigger] keyed@[a].0
                            == state.upgrade_key(keyed@[a].1 as int) by {
                            if a < k0.len() {
                                assert(keyed@[a] == k0[a]);
                            }
                        }
                        assert forall|x: int|
                            0 <= x < i + 1 && #[trigger] state.below_target(x) implies exists|a: int|
                            0 <= a < keyed@.len() && #[trigger] keyed@[a].1 == x by {
                            if x < i {
                                let a = choose|a: int| 0 <= a < k0.len() && #[trigger] k0[a].1 == x;
                                assert(keyed@[a] == k0[a]);
                            }
                        }
                    }
                }
                i = i + 1;
            }
            let order = sort_by_key(&keyed);
            let mut any = false;
            let mut idx: usize = 0;
            let ghost to_go0 = state.levels_to_go(n as int);
            let ghost sp = *state;
            while idx < order.len() && !any
                invariant
                    sp.wf(),
                    n == sp.n(),
                    forall|a: int| 0 <= a < keyed@.len() ==> order@.contains(#[trigger] keyed@[a]),
                    forall|x: int|
                        0 <= x < n && #[trigger] sp.below_target(x) ==> exists|a: int|
                            0 <= a < keyed@.len() && #[trigger] keyed@[a].1 == x,
                    !any ==> state.same_contents(&sp),
                    !any ==> forall|c: int| 0 <= c < idx ==> !sp.can_upgrade(#[trigger] order@[c].1 as int),
                    forall|a: int|
                        0 <= a < keyed@.len() ==> #[trigger] keyed@[a].0 == sp.upgrade_key(keyed@[a].1 as int),
                    forall|a: int, b: int| 0 <= a < b < order@.len() ==> key_before(order@[a], order@[b]),
                    idx <= order@.len(),
                    s0.wf(),
                    n == s0.n(),
                    actions_applied(&s0, &*state, conversions@, upgrades@),
                    free_uses(conversions@) + priority_left + extra_left == free_conv,
                    slots_in_order(conversions@, prio as int),
                    run_of(s0, *state, pre, post, kinds, conversions@, upgrades@),
                    conversions@.len() == stone_uses(conversions@) + free_uses(conversions@),
                    prio == vstd::math::min(free_conv as int, PRIORITY_FREE_CONV as int),
                    priority_left <= prio,
                    extra_left <= free_conv - prio,
                    priority_left > 0 ==> extra_left == free_conv - prio && stone_uses(conversions@) == 0,
                    extra_left < free_conv - prio ==> state.stones == 0 && priority_left == 0,
                    s0.page_total() <= u32::MAX,
                    forall|a: int| 0 <= a < order@.len() ==> keyed@.contains(#[trigger] order@[a]),
                    forall|a: int| 0 <= a < keyed@.len() ==> #[trigger] keyed@[a].1 < n,
                    any ==> state.levels_to_go(n as int) < to_go0,
                    !any ==> state.levels_to_go(n as int) == to_go0,
                decreases order@.len() - idx,
            {
                let i = order[idx].1;
                proof {
                    assert(keyed@.contains(order@[idx as int]));
                }
                let ghost s1 = *state;
                match state.try_upgrade(i) {
                    Some(action) => {
                        proof {
                            lemma_actions_after_upgrade(s0, s1, *state, conversions@, upgrades@, action);
                            lemma_levels_to_go_step(s1, *state, i as int, n as int);
                            assert forall|j: int|
                                0 <= j < s1.n() && #[trigger] s1.can_upgrade(j) implies s1.upgrade_key(i as int)
                                < s1.upgrade_key(j) || (s1.upgrade_key(i as int) == s1.upgrade_key(j) && i <= j) by {
                                lemma_same_contents_upgrade(sp, s1, j);
                                assert(sp.below_target(j));
                                let a = choose|a: int| 0 <= a < keyed@.len() && #[trigger] keyed@[a].1 == j;
                                assert(order@.contains(keyed@[a]));
                                let c = choose|c: int| 0 <= c < order@.len() && order@[c] == keyed@[a];
                                if c < idx {
                                    assert(!sp.can_upgrade(order@[c].1 as int));
                                } else if c > idx {
                                    assert(key_before(order@[idx as int], order@[c]));
                                    assert(keyed@.contains(order@[c]));
                                    assert(keyed@.contains(order@[idx as int]));
                                    let a2 = choose|a2: int| 0 <= a2 < keyed@.len() && keyed@[a2] == order@[idx as int];
                                    assert(keyed@[a2].0 == sp.upgrade_key(keyed@[a2].1 as int));
                                }
                            }
                            assert(s1.first_to_upgrade(i as int));
                            assert(upgrades@.push(action).drop_last() =~= upgrades@);
                            lemma_run_push(s0, s1, pre, post, kinds, conversions@, upgrades@, s1, *state, true,
                                conversions@, upgrades@.push(action));
                        }
                        upgrades.push(action);
                        proof {
                            pre = pre.push(s1);
                            post = post.push(*state);
                            kinds = kinds.push(true);
                        }
                        any = true;
                        upgraded = true;
                    },
                    None => {
                        proof {
                            lemma_levels_to_go_eq(s1, *state, n as int);
                            lemma_same_contents_upgrade(sp, s1, i as int);
                        }
                    },
                }
                idx = idx + 1;
            }
            again = any;
            proof {
                if !any {
                    assert forall|x: int| 0 <= x < state.n() implies !#[trigger] state.can_upgrade(x) by {
                        lemma_same_contents_upgrade(sp, *state, x);
                        if sp.below_target(x) {
                            let a = choose|a: int| 0 <= a < keyed@.len() && #[trigger] keyed@[a].1 == x;
                            assert(order@.contains(keyed@[a]));
                            let c = choose|c: int| 0 <= c < order@.len() && order@[c] == keyed@[a];
                            assert(!sp.can_upgrade(order@[c].1 as int));
                        }
                    }
                }
            }
            proof {
                lemma_levels_to_go_nonneg(*state, n as int);
            }
        }
        // One conversion for the skill that benefits most right away
        if priority_left == 0 && state.stones == 0 && extra_left == 0 {
            go = false;
        } else {
            let mut keyed: Vec<(u64, usize)> = Vec::new();
            let mut i: usize = 0;
            while i < n
                invariant
                    i <= n,
                    n == state.n(),
                    state.wf(),
                    forall|a: int| 0 <= a < keyed@.len() ==> #[trigger] keyed@[a].1 < i,
                    forall|a: int, b: int| 0 <= a < b < keyed@.len() ==> keyed@[a].1 < keyed@[b].1,
                    forall|x: int|
                        0 <= x < i && #[trigger] state.wants_pages(x) ==> exists|a: int|
                            0 <= a < keyed@.len() && #[trigger] keyed@[a].1 == x,
                    forall|a: int|
                        0 <= a < keyed@.len() ==> state.wants_pages(#[trigger] keyed@[a].1 as int)
                            && keyed@[a].0 == state.shortfall(keyed@[a].1 as int),
                decreases n - i,
            {
                if state.levels[i].index() < state.targets[i].index() {
                    let next = SkillLevel::from_index(state.levels[i].index() + 1);
                    let self_for_next = upgrade_cost(next).self_pages;
                    if state.pages[i] < self_for_next {
                        let ghost k0 = keyed@;
                        keyed.push(((self_for_next - state.pages[i]) as u64, i));
                        proof {
                            assert(keyed@[k0.len() as int].1 == i);
                            assert forall|a: int| 0 <= a < keyed@.len() implies state.wants_pages(
                                #[trigger] keyed@[a].1 as int,
                            ) && keyed@[a].0 == state.shortfall(keyed@[a].1 as int) by {
                                if a < k0.len() {
                                    assert(keyed@[a] == k0[a]);
                                }
                            }
                            assert forall|x: int|
                                0 <= x < i + 1 && #[trigger] state.wants_pages(x) implies exists|a: int|
                                0 <= a < keyed@.len() && #[trigger] keyed@[a].1 == x by {
                                if x < i {
                                    let a = choose|a: int| 0 <= a < k0.len() && #[trigger] k0[a].1 == x;
                                    assert(keyed@[a] == k0[a]);
                                }
                            }
                        }
                    }
                }
                i = i + 1;
            }
            let candidates = sort_by_key(&keyed);
            let mut converted = false;
            let mut idx: usize = 0;
            let ghost slots0 = priority_left + extra_left + state.stones;
            let ghost sc = *state;
            while idx < candidates.len() && !converted
                invariant
                    idx <= candidates@.len(),
                    s0.wf(),
                    n == s0.n(),
                    actions_applied(&s0, &*state, conversions@, upgrades@),
                    free_uses(conversions@) + priority_left + extra_left == free_conv,
                    slots_in_order(conversions@, prio as int),
                    run_of(s0, *state, pre, post, kinds, conversions@, upgrades@),
                    conversions@.len() == stone_uses(conversions@) + free_uses(conversions@),
                    prio == vstd::math::min(free_conv as int, PRIORITY_FREE_CONV as int),
                    priority_left <= prio,
                    extra_left <= free_conv - prio,
                    priority_left > 0 ==> extra_left == free_conv - prio && stone_uses(conversions@) == 0,
                    extra_left < free_conv - prio ==> state.stones == 0 && priority_left == 0,
                    s0.page_total() <= u32::MAX,
                    forall|a: int| 0 <= a < candidates@.len() ==> keyed@.contains(#[trigger] candidates@[a]),
                    forall|a: int| 0 <= a < keyed@.len() ==> #[trigger] keyed@[a].1 < n,
                    converted ==> priority_left + extra_left + state.stones < slots0,
                    !converted ==> priority_left + extra_left + state.stones == slots0,
                    slots0 > 0,
                    sc.wf(),
                    n == sc.n(),
                    forall|a: int| 0 <= a < keyed@.len() ==> candidates@.contains(#[trigger] keyed@[a]),
                    forall|x: int|
                        0 <= x < n && #[trigger] sc.wants_pages(x) ==> exists|a: int|
                            0 <= a < keyed@.len() && #[trigger] keyed@[a].1 == x,
                    !converted ==> state.same_contents(&sc),
                    forall|x: int| 0 <= x < sc.n() ==> !#[trigger] sc.can_upgrade(x),
                    !converted ==> forall|c: int|
                        0 <= c < idx ==> !sc.has_batch_source(#[trigger] candidates@[c].1 as int),
                    forall|a: int|
                        0 <= a < keyed@.len() ==> sc.wants_pages(#[trigger] keyed@[a].1 as int)
                            && keyed@[a].0 == sc.shortfall(keyed@[a].1 as int),
                    forall|a: int, b: int| 0 <= a < b < candidates@.len() ==> key_before(candidates@[a], candidates@[b]),
                decreases candidates@.len() - idx,
            {
                let i = candidates[idx].1;
                proof {
                    assert(keyed@.contains(candidates@[idx as int]));
                }
                let shop = state.shops[i];
                let si = shop.index();
                // Source 1: the shop's fodder pool
                if state.fodder_pools[si] >= PAGES_PER_UNIT {
                    let ghost s1 = *state;
                    let mut stones = state.stones;
                    let slot = try_use_slot(&mut priority_left, &mut stones, &mut extra_left);
                    state.stones = stones;
                    if let Some(used_stone) = slot {
                        proof {
                            lemma_sum_u32_elem(s1.pages@, i as int);
                            lemma_sum_u32_elem(s1.fodder_pools@, si as int);
                            if used_stone {
                                assert(slot == Some(true));
                            } else {
                                assert(slot == Some(false));
                            }
                        }
                        let p = state.fodder_pools[si];
                        state.fodder_pools.set(si, p - PAGES_PER_UNIT);
                        let q = state.pages[i];
                        state.pages.set(i, q + PAGES_PER_UNIT);
                        proof {
                            lemma_sum_u32_update(s1.fodder_pools@, si as int, (p - PAGES_PER_UNIT) as u32);
                            lemma_sum_u32_update(s1.pages@, i as int, (q + PAGES_PER_UNIT) as u32);
                        }
                        let c = ConversionAction {
                            shop,
                            target_skill_index: i,
                            from_skill_index: FROM_POOL,
                            used_stone,
                            pages: PAGES_PER_UNIT,
                        };
                        proof {
                            lemma_conversion_applied(s0, s1, *state, conversions@, upgrades@, c);
                            lemma_conversions_push(conversions@, c);
                            lemma_slot_push(conversions@, c, prio as int);
                            lemma_first_to_convert(sc, keyed@, candidates@, idx as int);
                            assert(sc.conversion_chosen(c));
                            assert(conversion_applied(&sc, &*state, c));
                            assert(conversions@.push(c).drop_last() =~= conversions@);
                            lemma_run_push(s0, s1, pre, post, kinds, conversions@, upgrades@, sc, *state, false,
                                conversions@.push(c), upgrades@);
                        }
                        conversions.push(c);
                        proof {
                            pre = pre.push(sc);
                            post = post.push(*state);
                            kinds = kinds.push(false);
                        }
                        converted = true;
                    }
                }
                if !converted {
                    proof {
                        assert(state.fodder_pools@[si as int] < PAGES_PER_UNIT);
                    }
                    // Source 2: the same-shop skill with the most spare pages
                    let mut donor: usize = n;
                    let mut donor_amount: u32 = 0;
                    let mut j: usize = 0;
                    while j < n
                        invariant
                            j <= n,
                            n == state.n(),
                            state.wf(),
                            i < n,
                            donor == n || (donor < n && donor != i && state.shops@[donor as int]
                                == shop && donor_amount == state.spec_donatable(donor as int)
                                && donor_amount >= PAGES_PER_UNIT && donor_amount <= state.pages@[donor as int]),
                            donor == n ==> forall|x: int|
                                0 <= x < j && x != i && state.shops@[x] == shop ==> #[trigger] state.spec_donatable(x)
                                    < PAGES_PER_UNIT,
                            donor < n ==> donor < j,
                            donor < n ==> forall|x: int|
                                0 <= x < j && x != i && state.shops@[x] == shop ==> #[trigger] state.spec_donatable(x)
                                    < donor_amount || (state.spec_donatable(x) == donor_amount && donor <= x),
                        decreases n - j,
                    {
                        if j != i && state.shops[j] == shop {
                            let d = state.donatable(j);
                            if d >= PAGES_PER_UNIT && (donor == n || d > donor_amount) {
                                donor = j;
                                donor_amount = d;
                            }
                        }
                        j = j + 1;
                    }
                    if donor < n {
                        let ghost s1 = *state;
                        let mut stones = state.stones;
                        let slot = try_use_slot(&mut priority_left, &mut stones, &mut extra_left);
                        state.stones = stones;
                        if let Some(used_stone) = slot {
                            proof {
                                lemma_sum_u32_elems(s1.pages@, i as int, donor as int);
                                lemma_sum_u32_nonneg(s1.fodder_pools@);
                                if used_stone {
                                    assert(slot == Some(true));
                                } else {
                                    assert(slot == Some(false));
                                }
                            }
                            let p = state.pages[donor];
                            state.pages.set(donor, p - PAGES_PER_UNIT);
                            let ghost mid = state.pages@;
                            let q = state.pages[i];
                            state.pages.set(i, q + PAGES_PER_UNIT);
                            proof {
                                lemma_sum_u32_update(s1.pages@, donor as int, (p - PAGES_PER_UNIT) as u32);
                                lemma_sum_u32_update(mid, i as int, (q + PAGES_PER_UNIT) as u32);
                            }
                            let c = ConversionAction {
                                shop,
                                target_skill_index: i,
                                from_skill_index: donor,
                                used_stone,
                                pages: PAGES_PER_UNIT,
                            };
                            proof {
                                lemma_conversion_applied(s0, s1, *state, conversions@, upgrades@, c);
                                lemma_conversions_push(conversions@, c);
                                lemma_slot_push(conversions@, c, prio as int);
                                assert(sc.spec_donatable(donor as int) >= PAGES_PER_UNIT);
                                assert(sc.has_batch_source(i as int));
                                lemma_first_to_convert(sc, keyed@, candidates@, idx as int);
                                assert(sc.fodder_pools@[si as int] < PAGES_PER_UNIT);
                                assert forall|x: int|
                                    0 <= x < sc.n() && x != i && sc.shops@[x] == shop implies #[trigger] sc.spec_donatable(x)
                                    < sc.spec_donatable(donor as int) || (sc.spec_donatable(x) == sc.spec_donatable(
                                    donor as int) && donor <= x) by {
                                    assert(s1.spec_donatable(x) == sc.spec_donatable(x));
                                }
                                assert(sc.conversion_chosen(c));
                                assert(conversion_applied(&sc, &*state, c));
                                assert(conversions@.push(c).drop_last() =~= conversions@);
                                lemma_run_push(s0, s1, pre, post, kinds, conversions@, upgrades@, sc, *state, false,
                                    conversions@.push(c), upgrades@);
                            }
                            conversions.push(c);
                            proof {
                                pre = pre.push(sc);
                                post = post.push(*state);
                                kinds = kinds.push(false);
                            }
                            converted = true;
                        }
                    }
                    proof {
                        if !converted {
                            assert forall|x: int|
                                0 <= x < sc.n() && x != i && sc.shops@[x] == sc.shops@[i as int] implies #[trigger] sc.spec_donatable(x)
                                < PAGES_PER_UNIT by {
                                assert(state.spec_donatable(x) < PAGES_PER_UNIT);
                            }
                            assert(!sc.has_batch_source(i as int));
                        }
                    }
                }
                idx = idx + 1;
            }
            if !converted {
                proof {
                    assert forall|x: int| 0 <= x < state.n() && #[trigger] state.wants_pages(x)
                        implies !state.has_batch_source(x) by {
                        lemma_same_contents_batch(sc, *state, x);
                        assert(sc.wants_pages(x));
                        let a = choose|a: int| 0 <= a < keyed@.len() && #[trigger] keyed@[a].1 == x;
                        assert(candidates@.contains(keyed@[a]));
                        let c = choose|c: int| 0 <= c < candidates@.len() && candidates@[c] == keyed@[a];
                        assert(!sc.has_batch_source(candidates@[c].1 as int));
                    }
                    assert forall|x: int| 0 <= x < state.n() implies !#[trigger] state.can_upgrade(x) by {
                        lemma_same_contents_upgrade(sc, *state, x);
                    }
                }
                go = false;
            }
        }
    }
    let r = (conversions, upgrades);
    proof {
        assert(run_of(s0, *state, pre, post, kinds, r.0@, r.1@));
        lemma_actions_conserve_pages(&s0, &*state, r.0@, r.1@);
    }
    r
}

/// The skill a conversion loop picks, trying the candidates in order of shortfall and taking
/// the first that can get a batch, is the one `first_to_convert` names.
proof fn lemma_first_to_convert(sc: SimState, keyed: Seq<(u64, usize)>, cands: Seq<(u64, usize)>, idx: int)
    requires
        sc.wf(),
        0 <= idx < cands.len(),
        forall|a: int| 0 <= a < keyed.len() ==> #[trigger] keyed[a].1 < sc.n(),
        forall|a: int|
            0 <= a < keyed.len() ==> sc.wants_pages(#[trigger] keyed[a].1 as int) && keyed[a].0 == sc.shortfall(
                keyed[a].1 as int,
            ),
        forall|x: int|
            0 <= x < sc.n() && #[trigger] sc.wants_pages(x) ==> exists|a: int|
                0 <= a < keyed.len() && #[trigger] keyed[a].1 == x,
        forall|a: int| 0 <= a < keyed.len() ==> cands.contains(#[trigger] keyed[a]),
        forall|a: int| 0 <= a < cands.len() ==> keyed.contains(#[trigger] cands[a]),
        forall|a: int, b: int| 0 <= a < b < cands.len() ==> key_before(cands[a], cands[b]),
        forall|c: int| 0 <= c < idx ==> !sc.has_batch_source(#[trigger] cands[c].1 as int),
        sc.has_batch_source(cands[idx].1 as int),
    ensures
        sc.first_to_convert(cands[idx].1 as int),
{
    let i = cands[idx].1 as int;
    assert(keyed.contains(cands[idx]));
    let ai = choose|a: int| 0 <= a < keyed.len() && keyed[a] == cands[idx];
    assert(keyed[ai].1 < sc.n());
    assert(sc.wants_pages(keyed[ai].1 as int));
    assert forall|j: int|
        0 <= j < sc.n() && #[trigger] sc.wants_pages(j) && sc.has_batch_source(j) implies sc.shortfall(i)
        < sc.shortfall(j) || (sc.shortfall(i) == sc.shortfall(j) && i <= j) by {
        let a = choose|a: int| 0 <= a < keyed.len() && #[trigger] keyed[a].1 == j;
        assert(cands.contains(keyed[a]));
        let c = choose|c: int| 0 <= c < cands.len() && cands[c] == keyed[a];
        if c < idx {
            assert(!sc.has_batch_source(cands[c].1 as int));
        } else if c > idx {
            assert(key_before(cands[idx], cands[c]));
        }
    }
}

proof fn lemma_same_contents_batch(a: SimState, b: SimState, x: int)
    requires
        b.same_contents(&a),
    ensures
        a.wants_pages(x) == b.wants_pages(x),
        a.has_batch_source(x) == b.has_batch_source(x),
{
    assert forall|j: int| #[trigger] a.spec_donatable(j) == b.spec_donatable(j) by {
    }
    if a.has_batch_source(x) && !(a.fodder_pools@[a.shops@[x].index() as int] >= PAGES_PER_UNIT) {
        let j = choose|j: int|
            0 <= j < a.n() && j != x && a.shops@[j] == a.shops@[x] && #[trigger] a.spec_donatable(j)
                >= PAGES_PER_UNIT;
        assert(b.spec_donatable(j) >= PAGES_PER_UNIT);
    }
    if b.has_batch_source(x) && !(b.fodder_pools@[b.shops@[x].index() as int] >= PAGES_PER_UNIT) {
        let j = choose|j: int|
            0 <= j < b.n() && j != x && b.shops@[j] == b.shops@[x] && #[trigger] b.spec_donatable(j)
                >= PAGES_PER_UNIT;
        assert(a.spec_donatable(j) >= PAGES_PER_UNIT);
    }
}

/// States with the same contents agree on every per-shop sum.
proof fn lemma_same_contents_upto(a: SimState, b: SimState, shop: Shop, i: int, k: int)
    requires
        b.same_contents(&a),
    ensures
        a.deficit_after_upto(shop, i, k) == b.deficit_after_upto(shop, i, k),
        a.donatable_upto(shop, i, k) == b.donatable_upto(shop, i, k),
        a.pages_upto(shop, k) == b.pages_upto(shop, k),
        a.target_cost_upto(shop, k) == b.target_cost_upto(shop, k),
    decreases k,
{
    if k > 0 {
        lemma_same_contents_upto(a, b, shop, i, k - 1);
    }
}

/// States with the same contents agree on which skills can go up.
proof fn lemma_same_contents_upgrade(a: SimState, b: SimState, i: int)
    requires
        b.same_contents(&a),
    ensures
        a.can_upgrade(i) == b.can_upgrade(i),
{
    lemma_same_contents_upto(a, b, Shop::LunJian, i, a.n());
    lemma_same_contents_upto(a, b, Shop::ZhuTian, i, a.n());
    lemma_same_contents_upto(a, b, Shop::ZongMen, i, a.n());
    lemma_same_contents_upto(a, b, Shop::DaoYun, i, a.n());
    lemma_same_contents_upto(a, b, Shop::BaiZu, i, a.n());
    assert(a.total_share(i) == b.total_share(i));
}

proof fn lemma_levels_to_go_eq(s1: SimState, s2: SimState, k: int)
    requires
        s1.levels@ == s2.levels@,
        s1.targets@ == s2.targets@,
    ensures
        s1.levels_to_go(k) == s2.levels_to_go(k),
    decreases k,
{
    if k > 0 {
        lemma_levels_to_go_eq(s1, s2, k - 1);
    }
}

proof fn lemma_levels_to_go_nonneg(s: SimState, k: int)
    ensures
        s.levels_to_go(k) >= 0,
    decreases k,
{
    if k > 0 {
        lemma_levels_to_go_nonneg(s, k - 1);
    }
}

proof fn lemma_conversion_applied(
    s0: SimState,
    s1: SimState,
    s2: SimState,
    cs: Seq<ConversionAction>,
    us: Seq<UpgradeAction>,
    c: ConversionAction,
)
    requires
        s0.wf(),
        actions_applied(&s0, &s1, cs, us),
        s2.wf(),
        s2.same_frame(&s1),
        s2.levels@ == s1.levels@,
        s2.purple == s1.purple,
        s2.blue == s1.blue,
        s2.stones + (if c.used_stone { 1int } else { 0 }) == s1.stones,
        conversion_ok(c, s1.shops@),
        forall|j: int| 0 <= j < s1.n() ==> #[trigger] s2.pages@[j] == s1.pages@[j] + conversion_page_delta(c, j),
        forall|k: int|
            0 <= k < SHOP_COUNT ==> #[trigger] s2.fodder_pools@[k] == s1.fodder_pools@[k] - conversion_pool_use(c, k),
        s2.page_total() == s1.page_total(),
    ensures
        actions_applied(&s0, &s2, cs.push(c), us),
{
    lemma_conversions_push(cs, c);
}

// --- conservation of pages ---

/// `f(0) + ... + f(n - 1)`.
pub open spec fn sum_to(f: spec_fn(int) -> int, n: int) -> int
    decreases n,
{
    if n <= 0 {
        0
    } else {
        sum_to(f, n - 1) + f(n - 1)
    }
}

/// Pages an upgrade spends: its own pages and the other pages it draws.
pub open spec fn upgrades_spent(us: Seq<UpgradeAction>) -> int
    decreases us.len(),
{
    if us.len() == 0 {
        0
    } else {
        upgrades_spent(us.drop_last()) + us.last().self_pages_used + draws_total(us.last().other_pages_consumed@)
    }
}

proof fn lemma_sum_to_add(f: spec_fn(int) -> int, g: spec_fn(int) -> int, h: spec_fn(int) -> int, n: int)
    requires
        forall|j: int| 0 <= j < n ==> #[trigger] h(j) == f(j) + g(j),
    ensures
        sum_to(h, n) == sum_to(f, n) + sum_to(g, n),
    decreases n,
{
    if n > 0 {
        lemma_sum_to_add(f, g, h, n - 1);
    }
}

proof fn lemma_sum_to_point(f: spec_fn(int) -> int, n: int, x: int, p: int)
    requires
        forall|j: int| 0 <= j < n ==> #[trigger] f(j) == (if j == x { p } else { 0 }),
    ensures
        sum_to(f, n) == (if 0 <= x < n { p } else { 0 }),
    decreases n,
{
    if n > 0 {
        lemma_sum_to_point(f, n - 1, x, p);
    }
}

proof fn lemma_sum_to_zero(f: spec_fn(int) -> int, n: int)
    requires
        forall|j: int| 0 <= j < n ==> #[trigger] f(j) == 0,
    ensures
        sum_to(f, n) == 0,
    decreases n,
{
    if n > 0 {
        lemma_sum_to_zero(f, n - 1);
    }
}

proof fn lemma_sum_u32_pointwise(a: Seq<u32>, b: Seq<u32>, f: spec_fn(int) -> int)
    requires
        a.len() == b.len(),
        forall|j: int| 0 <= j < a.len() ==> #[trigger] b[j] == a[j] + f(j),
    ensures
        sum_u32(b) == sum_u32(a) + sum_to(f, a.len() as int),
    decreases a.len(),
{
    if a.len() > 0 {
        lemma_sum_u32_pointwise(a.drop_last(), b.drop_last(), f);
    }
}

/// The pages the conversions move out of the skills' pages net equal what they take from the
/// pools.
proof fn lemma_conversions_sums(cs: Seq<ConversionAction>, shops: Seq<Shop>)
    requires
        forall|c: int| 0 <= c < cs.len() ==> conversion_ok(#[trigger] cs[c], shops),
        shops.len() <= usize::MAX,
    ensures
        sum_to(|j: int| conversions_page_delta(cs, j), shops.len() as int) == sum_to(
            |k: int| conversions_pool_use(cs, k),
            SHOP_COUNT as int,
        ),
    decreases cs.len(),
{
    let n = shops.len() as int;
    if cs.len() == 0 {
        lemma_sum_to_zero(|j: int| conversions_page_delta(cs, j), n);
        lemma_sum_to_zero(|k: int| conversions_pool_use(cs, k), SHOP_COUNT as int);
    } else {
        let c = cs.last();
        let rest = cs.drop_last();
        assert forall|x: int| 0 <= x < rest.len() implies conversion_ok(#[trigger] rest[x], shops) by {
            assert(rest[x] == cs[x]);
        }
        assert(conversion_ok(cs[cs.len() - 1], shops));
        lemma_conversions_sums(rest, shops);
        let t = c.target_skill_index as int;
        let d = c.from_skill_index as int;
        let into = |j: int| if j == t { c.pages as int } else { 0 };
        let out = |j: int| if j == d { -(c.pages as int) } else { 0 };
        let delta = |j: int| conversion_page_delta(c, j);
        lemma_sum_to_point(into, n, t, c.pages as int);
        lemma_sum_to_point(out, n, d, -(c.pages as int));
        lemma_sum_to_add(into, out, delta, n);
        lemma_sum_to_add(|j: int| conversions_page_delta(rest, j), delta, |j: int| conversions_page_delta(cs, j), n);
        let pool = |k: int| conversion_pool_use(c, k);
        lemma_shop_index_roundtrip(c.shop);
        lemma_sum_to_point(pool, SHOP_COUNT as int, c.shop.index() as int, if c.from_skill_index == FROM_POOL {
            c.pages as int
        } else {
            0
        });
        lemma_sum_to_add(|k: int| conversions_pool_use(rest, k), pool, |k: int| conversions_pool_use(cs, k), SHOP_COUNT as int);
    }
}

/// The pages one upgrade spends, over the skills and the pools, are its own pages and the other
/// pages it draws.
proof fn lemma_draws_sums(d: Seq<GoldDraw>, n: int, skill: int)
    requires
        draws_ok(d, n, skill),
    ensures
        sum_to(|j: int| draws_from_skill(d, j), n) + sum_to(|k: int| draws_from_pool(d, k), SHOP_COUNT as int)
            == draws_total(d),
    decreases d.len(),
{
    if d.len() == 0 {
        lemma_sum_to_zero(|j: int| draws_from_skill(d, j), n);
        lemma_sum_to_zero(|k: int| draws_from_pool(d, k), SHOP_COUNT as int);
    } else {
        let e = d.last();
        let rest = d.drop_last();
        assert(d[d.len() - 1] == e);
        assert forall|x: int| 0 <= x < rest.len() implies #[trigger] rest[x].pages > 0 && match rest[x].source {
            GoldSource::Skill(j) => j < n && j != skill,
            GoldSource::Pool(_) => true,
        } by {
            assert(rest[x] == d[x]);
        }
        lemma_draws_sums(rest, n, skill);
        let fs = |j: int| match e.source {
            GoldSource::Skill(x) => if x == j { e.pages as int } else { 0 },
            GoldSource::Pool(_) => 0,
        };
        let fp = |k: int| match e.source {
            GoldSource::Pool(s) => if s.index() == k { e.pages as int } else { 0 },
            GoldSource::Skill(_) => 0,
        };
        match e.source {
            GoldSource::Skill(x) => {
                lemma_sum_to_point(fs, n, x as int, e.pages as int);
                lemma_sum_to_zero(fp, SHOP_COUNT as int);
            },
            GoldSource::Pool(s) => {
                lemma_shop_index_roundtrip(s);
                lemma_sum_to_zero(fs, n);
                lemma_sum_to_point(fp, SHOP_COUNT as int, s.index() as int, e.pages as int);
            },
        }
        lemma_sum_to_add(|j: int| draws_from_skill(rest, j), fs, |j: int| draws_from_skill(d, j), n);
        lemma_sum_to_add(|k: int| draws_from_pool(rest, k), fp, |k: int| draws_from_pool(d, k), SHOP_COUNT as int);
    }
}

/// The pages the upgrades take from the skills and the pools are the pages they spend.
proof fn lemma_upgrades_sums(us: Seq<UpgradeAction>, n: int)
    requires
        forall|k: int| 0 <= k < us.len() ==> upgrade_ok(#[trigger] us[k], n),
    ensures
        sum_to(|j: int| upgrades_page_use(us, j), n) + sum_to(|k: int| upgrades_pool_use(us, k), SHOP_COUNT as int)
            == upgrades_spent(us),
    decreases us.len(),
{
    if us.len() == 0 {
        lemma_sum_to_zero(|j: int| upgrades_page_use(us, j), n);
        lemma_sum_to_zero(|k: int| upgrades_pool_use(us, k), SHOP_COUNT as int);
    } else {
        let a = us.last();
        let rest = us.drop_last();
        assert forall|x: int| 0 <= x < rest.len() implies upgrade_ok(#[trigger] rest[x], n) by {
            assert(rest[x] == us[x]);
        }
        assert(upgrade_ok(us[us.len() - 1], n));
        lemma_upgrades_sums(rest, n);
        let d = a.other_pages_consumed@;
        lemma_draws_sums(d, n, a.skill_index as int);
        let own = |j: int| if a.skill_index == j { a.self_pages_used as int } else { 0 };
        lemma_sum_to_point(own, n, a.skill_index as int, a.self_pages_used as int);
        lemma_sum_to_add(own, |j: int| draws_from_skill(d, j), |j: int| upgrade_page_use(a, j), n);
        lemma_sum_to_add(|j: int| upgrades_page_use(rest, j), |j: int| upgrade_page_use(a, j), |j: int| upgrades_page_use(us, j), n);
        lemma_sum_to_add(|k: int| upgrades_pool_use(rest, k), |k: int| draws_from_pool(d, k), |k: int| upgrades_pool_use(us, k), SHOP_COUNT as int);
    }
}

/// Conversions only move pages, and upgrades spend exactly their own and other pages: the
/// pages held by the skills and the pools together drop by what the upgrades spend.
pub proof fn lemma_actions_conserve_pages(
    s0: &SimState,
    s1: &SimState,
    cs: Seq<ConversionAction>,
    us: Seq<UpgradeAction>,
)
    requires
        s0.wf(),
        s0.n() <= usize::MAX,
        actions_applied(s0, s1, cs, us),
    ensures
        s1.page_total() == s0.page_total() - upgrades_spent(us),
{
    let n = s0.n();
    lemma_conversions_sums(cs, s0.shops@);
    lemma_upgrades_sums(us, n);
    let fp = |j: int| conversions_page_delta(cs, j) - upgrades_page_use(us, j);
    let fq = |k: int| -conversions_pool_use(cs, k) - upgrades_pool_use(us, k);
    lemma_sum_u32_pointwise(s0.pages@, s1.pages@, fp);
    lemma_sum_u32_pointwise(s0.fodder_pools@, s1.fodder_pools@, fq);
    let neg_up = |j: int| -upgrades_page_use(us, j);
    let neg_cp = |k: int| -conversions_pool_use(cs, k);
    let neg_upool = |k: int| -upgrades_pool_use(us, k);
    lemma_sum_to_add(|j: int| conversions_page_delta(cs, j), neg_up, fp, n);
    lemma_sum_to_add(neg_cp, neg_upool, fq, SHOP_COUNT as int);
    lemma_sum_to_neg(|j: int| upgrades_page_use(us, j), neg_up, n);
    lemma_sum_to_neg(|k: int| conversions_pool_use(cs, k), neg_cp, SHOP_COUNT as int);
    lemma_sum_to_neg(|k: int| upgrades_pool_use(us, k), neg_upool, SHOP_COUNT as int);
}

proof fn lemma_sum_to_neg(f: spec_fn(int) -> int, g: spec_fn(int) -> int, n: int)
    requires
        forall|j: int| 0 <= j < n ==> #[trigger] g(j) == -f(j),
    ensures
        sum_to(g, n) == -sum_to(f, n),
    decreases n,
{
    if n > 0 {
        lemma_sum_to_neg(f, g, n - 1);
    }
}

} // verus!
