//! Income schedules: a combat skill's own pages and the shops' fodder pools.
use vstd::prelude::*;
use vstd::arithmetic::div_mod::{
    lemma_fundamental_div_mod,
    lemma_fundamental_div_mod_converse,
    lemma_mod_pos_bound,
    lemma_div_is_ordered,
    lemma_div_pos_is_pos,
};
use vstd::arithmetic::mul::{lemma_mul_inequality, lemma_mul_upper_bound};
use crate::models::{AdvancedSettings, CombatSkillInput, Shop, PAGES_PER_UNIT};

verus! {

/// The longest horizon, in weeks, that any computation of the planner looks at.
pub const HORIZON_WEEKS: u32 = 1000;

/// What a schedule that pays `amount` every `cycle` weeks pays in week `week`
/// (week 0 is the starting state and pays nothing; a cycle of 0 never pays).
pub open spec fn periodic_in_week(cycle: int, amount: int, week: int) -> int {
    if week <= 0 || cycle <= 0 {
        0
    } else if week % cycle == 0 {
        amount
    } else {
        0
    }
}

/// What such a schedule pays over weeks `1..=weeks`, in closed form.
pub open spec fn periodic_total(cycle: int, amount: int, weeks: int) -> int {
    if weeks <= 0 || cycle <= 0 {
        0
    } else {
        (weeks / cycle) * amount
    }
}

/// What such a schedule pays over weeks `1..=weeks`, week by week.
pub open spec fn periodic_sum(cycle: int, amount: int, weeks: int) -> int
    decreases weeks,
{
    if weeks <= 0 {
        0
    } else {
        periodic_sum(cycle, amount, weeks - 1) + periodic_in_week(cycle, amount, weeks)
    }
}

proof fn lemma_div_step(w: int, c: int)
    requires
        c > 0,
        w >= 1,
    ensures
        w / c == (w - 1) / c + (if w % c == 0 { 1int } else { 0int }),
{
    let q = (w - 1) / c;
    let r = (w - 1) % c;
    lemma_fundamental_div_mod(w - 1, c);
    lemma_mod_pos_bound(w - 1, c);
    assert(c * q == q * c) by (nonlinear_arith);
    if r == c - 1 {
        assert(w == (q + 1) * c + 0) by (nonlinear_arith)
            requires
                w - 1 == c * q + r,
                r == c - 1,
        ;
        lemma_fundamental_div_mod_converse(w, c, q + 1, 0);
    } else {
        assert(w == q * c + (r + 1)) by (nonlinear_arith)
            requires
                w - 1 == c * q + r,
        ;
        lemma_fundamental_div_mod_converse(w, c, q, r + 1);
    }
}

/// A periodic schedule pays over `weeks` weeks exactly the sum of what it pays in each week.
pub proof fn lemma_periodic_sum_closed_form(cycle: int, amount: int, weeks: int)
    ensures
        periodic_sum(cycle, amount, weeks) == periodic_total(cycle, amount, weeks),
    decreases weeks,
{
    if weeks > 0 {
        lemma_periodic_sum_closed_form(cycle, amount, weeks - 1);
        if cycle > 0 {
            lemma_div_step(weeks, cycle);
            let q = (weeks - 1) / cycle;
            assert((q + 1) * amount == q * amount + amount) by (nonlinear_arith);
            assert((q + 0) * amount == q * amount) by (nonlinear_arith);
            if weeks == 1 {
                assert(0int / cycle == 0);
                assert(q == 0);
                assert(q * amount == 0) by (nonlinear_arith)
                    requires
                        q == 0,
                ;
            }
        }
    }
}

/// What a periodic schedule pays never shrinks as the horizon grows.
pub proof fn lemma_periodic_total_monotone(cycle: int, amount: int, w1: int, w2: int)
    requires
        amount >= 0,
        w1 <= w2,
    ensures
        0 <= periodic_total(cycle, amount, w1) <= periodic_total(cycle, amount, w2),
{
    if cycle > 0 && w1 > 0 {
        lemma_div_is_ordered(w1, w2, cycle);
        lemma_div_pos_is_pos(w1, cycle);
        lemma_mul_inequality(w1 / cycle, w2 / cycle, amount);
        assert(0 <= (w1 / cycle) * amount) by (nonlinear_arith)
            requires
                0 <= w1 / cycle,
                amount >= 0,
        ;
    } else if cycle > 0 && w2 > 0 {
        lemma_div_pos_is_pos(w2, cycle);
        assert(0 <= (w2 / cycle) * amount) by (nonlinear_arith)
            requires
                0 <= w2 / cycle,
                amount >= 0,
        ;
    }
}

/// Over at most `HORIZON_WEEKS` weeks a schedule pays at most `HORIZON_WEEKS * amount`.
pub proof fn lemma_periodic_total_bounded(cycle: int, amount: int, weeks: int)
    requires
        amount >= 0,
        weeks <= HORIZON_WEEKS,
    ensures
        0 <= periodic_total(cycle, amount, weeks) <= HORIZON_WEEKS * amount,
{
    if cycle > 0 && weeks > 0 {
        lemma_div_is_ordered(weeks, HORIZON_WEEKS as int, cycle);
        lemma_div_pos_is_pos(weeks, cycle);
        assert((HORIZON_WEEKS as int) / cycle <= HORIZON_WEEKS) by {
            lemma_fundamental_div_mod(HORIZON_WEEKS as int, cycle);
            lemma_mod_pos_bound(HORIZON_WEEKS as int, cycle);
            assert(cycle * ((HORIZON_WEEKS as int) / cycle) >= (HORIZON_WEEKS as int) / cycle)
                by (nonlinear_arith)
                requires
                    cycle >= 1,
                    (HORIZON_WEEKS as int) / cycle >= 0,
            ;
        }
        lemma_mul_upper_bound(weeks / cycle, HORIZON_WEEKS as int, amount, amount);
        assert(0 <= (weeks / cycle) * amount) by (nonlinear_arith)
            requires
                0 <= weeks / cycle,
                amount >= 0,
        ;
    }
}

/// Pages a skill receives from its own schedule over weeks `1..=weeks`.
pub open spec fn skill_income(skill: CombatSkillInput, weeks: int) -> int {
    periodic_total(
        skill.income_cycle_weeks as int,
        skill.income_batch_count * PAGES_PER_UNIT,
        weeks,
    )
}

/// Pages a skill receives from its own schedule in week `week`.
pub open spec fn skill_income_in_week(skill: CombatSkillInput, week: int) -> int {
    periodic_in_week(
        skill.income_cycle_weeks as int,
        skill.income_batch_count * PAGES_PER_UNIT,
        week,
    )
}

/// The number of whole cycles in `weeks` weeks is at most `weeks`.
proof fn lemma_cycles_within(weeks: int, cycle: int)
    requires
        weeks >= 0,
        cycle >= 1,
    ensures
        0 <= weeks / cycle <= weeks,
{
    lemma_fundamental_div_mod(weeks, cycle);
    lemma_mod_pos_bound(weeks, cycle);
    lemma_div_pos_is_pos(weeks, cycle);
    assert(cycle * (weeks / cycle) >= weeks / cycle) by (nonlinear_arith)
        requires
            cycle >= 1,
            weeks / cycle >= 0,
    ;
}

/// Pages a skill receives over `weeks` weeks from its own income schedule.
pub fn skill_income_pages(skill: &CombatSkillInput, weeks: u32) -> (r: u128)
    ensures
        r == skill_income(*skill, weeks as int),
{
    if weeks == 0 || skill.income_cycle_weeks == 0 {
        return 0;
    }
    let q = weeks / skill.income_cycle_weeks;
    proof {
        lemma_cycles_within(weeks as int, skill.income_cycle_weeks as int);
        lemma_mul_upper_bound(q as int, 0xffff_ffff, skill.income_batch_count as int, 0xffff_ffff);
        assert(q * (skill.income_batch_count as int * 40) == (q * skill.income_batch_count) * 40)
            by (nonlinear_arith);
    }
    (q as u128) * (skill.income_batch_count as u128) * (PAGES_PER_UNIT as u128)
}

/// Pages a skill receives in week `week` (nothing in week 0).
pub fn skill_gets_income(skill: &CombatSkillInput, week: u32) -> (r: u64)
    ensures
        r == skill_income_in_week(*skill, week as int),
{
    if skill.income_cycle_weeks == 0 || week == 0 {
        return 0;
    }
    if week % skill.income_cycle_weeks == 0 {
        proof {
            assert(skill.income_batch_count as u64 * 40u64 <= 0xffff_ffff * 40) by (nonlinear_arith)
                requires
                    skill.income_batch_count <= 0xffff_ffff,
            ;
        }
        (skill.income_batch_count as u64) * 40u64
    } else {
        0
    }
}

/// A skill's own income over `weeks` weeks is what it receives week by week.
pub proof fn lemma_skill_income_is_weekly_sum(skill: CombatSkillInput, weeks: int)
    ensures
        skill_income(skill, weeks) == periodic_sum(
            skill.income_cycle_weeks as int,
            skill.income_batch_count * PAGES_PER_UNIT,
            weeks,
        ),
{
    lemma_periodic_sum_closed_form(
        skill.income_cycle_weeks as int,
        skill.income_batch_count * PAGES_PER_UNIT,
        weeks,
    );
}

impl AdvancedSettings {
    pub open spec fn spec_shop_cycle(&self, shop: Shop) -> u32 {
        match shop {
            Shop::DaoYun => self.daoyun_cycle_weeks,
            Shop::BaiZu => self.baizu_cycle_weeks,
            _ => 1,
        }
    }

    /// How often a shop pays into its fodder pool: 道蕴 and 百族 on their own cycles,
    /// the other shops every week.
    #[verifier::when_used_as_spec(spec_shop_cycle)]
    pub fn shop_cycle(&self, shop: Shop) -> (c: u32)
        ensures
            c == self.spec_shop_cycle(shop),
    {
        match shop {
            Shop::DaoYun => self.daoyun_cycle_weeks,
            Shop::BaiZu => self.baizu_cycle_weeks,
            _ => 1,
        }
    }

    /// Pages in a shop's fodder pool at the start.
    pub fn fodder_initial_pages(&self, shop: Shop) -> (r: u32)
        ensures
            r == self.non_combat_pools.get(shop),
    {
        self.non_combat_pools.get(shop)
    }

    pub open spec fn spec_fodder_in_week(&self, shop: Shop, week: int) -> int {
        periodic_in_week(
            self.shop_cycle(shop) as int,
            self.weekly_shop_income.get(shop) as int,
            week,
        )
    }

    /// Pages paid into a shop's fodder pool in week `week`.
    pub fn fodder_pages_in_week(&self, shop: Shop, week: u32) -> (r: u32)
        ensures
            r == self.spec_fodder_in_week(shop, week as int),
    {
        let cycle = self.shop_cycle(shop);
        if week == 0 || cycle == 0 {
            return 0;
        }
        if week % cycle == 0 {
            self.weekly_shop_income.get(shop)
        } else {
            0
        }
    }

    pub open spec fn spec_fodder_total(&self, shop: Shop, weeks: int) -> int {
        self.non_combat_pools.get(shop) + periodic_total(
            self.shop_cycle(shop) as int,
            self.weekly_shop_income.get(shop) as int,
            weeks,
        )
    }

    /// Pages a shop's fodder pool holds in all within `weeks` weeks, the start included.
    pub fn fodder_total_pages(&self, shop: Shop, weeks: u32) -> (r: u64)
        ensures
            r == self.spec_fodder_total(shop, weeks as int),
    {
        let cycle = self.shop_cycle(shop);
        let initial = self.non_combat_pools.get(shop) as u64;
        if weeks == 0 || cycle == 0 {
            return initial;
        }
        proof {
            lemma_cycles_within(weeks as int, cycle as int);
            lemma_mul_upper_bound(
                (weeks / cycle) as int,
                0xffff_ffff,
                self.weekly_shop_income.get(shop) as int,
                0xffff_ffff,
            );
        }
        initial + ((weeks / cycle) as u64) * (self.weekly_shop_income.get(shop) as u64)
    }
}

/// A fodder pool's total over `weeks` weeks is its start plus what it receives week by week.
pub proof fn lemma_fodder_total_is_weekly_sum(adv: AdvancedSettings, shop: Shop, weeks: int)
    ensures
        adv.spec_fodder_total(shop, weeks) == adv.non_combat_pools.get(shop) + periodic_sum(
            adv.shop_cycle(shop) as int,
            adv.weekly_shop_income.get(shop) as int,
            weeks,
        ),
{
    lemma_periodic_sum_closed_form(
        adv.shop_cycle(shop) as int,
        adv.weekly_shop_income.get(shop) as int,
        weeks,
    );
}

} // verus!
