//! Raising the targets beyond what the player asked for: an exhaustive search, with
//! branch-and-bound pruning, for the largest total of extra levels that still passes the
//! resource checks.
use vstd::prelude::*;
use crate::models::{PlannerInput, SkillLevel, LEVEL_COUNT, MAX_LEVEL_INDEX};
use crate::income::HORIZON_WEEKS;
use crate::feasibility::{check_feasibility, feasible, input_target_levels, input_targets};

verus! {

/// How many levels above its target skill `i` can still go.
pub open spec fn bonus_cap(input: PlannerInput, i: int) -> int {
    MAX_LEVEL_INDEX - input.combat_skills@[i].target_level.index()
}

/// Extra levels per skill, each within its cap.
pub open spec fn bonus_in_range(input: PlannerInput, b: Seq<usize>) -> bool {
    &&& b.len() == input.combat_skills@.len()
    &&& forall|i: int| 0 <= i < b.len() ==> #[trigger] b[i] <= bonus_cap(input, i)
}

/// The targets raised by `b`.
pub open spec fn raised_targets(input: PlannerInput, b: Seq<usize>) -> Seq<SkillLevel> {
    Seq::new(
        input.combat_skills@.len(),
        |i: int| SkillLevel::spec_from_index(input.combat_skills@[i].target_level.index() + b[i]),
    )
}

/// The sum of the first `k` entries.
pub open spec fn prefix_sum(b: Seq<usize>, k: int) -> int
    decreases k,
{
    if k <= 0 {
        0
    } else {
        prefix_sum(b, k - 1) + b[k - 1]
    }
}

/// Levels that `r` adds over the player's targets, in total over the first `k` skills.
pub open spec fn level_gain(input: PlannerInput, r: Seq<SkillLevel>, k: int) -> int
    decreases k,
{
    if k <= 0 {
        0
    } else {
        level_gain(input, r, k - 1) + (r[k - 1].index() - input.combat_skills@[k - 1].target_level.index())
    }
}

/// `r` is a choice of targets at or above the player's and at most 天5.
pub open spec fn targets_in_range(input: PlannerInput, r: Seq<SkillLevel>) -> bool {
    &&& r.len() == input.combat_skills@.len()
    &&& forall|i: int|
        0 <= i < r.len() ==> input.combat_skills@[i].target_level.index() <= #[trigger] r[i].index()
            <= MAX_LEVEL_INDEX
}

/// The extra levels of `r` over the player's targets.
pub open spec fn gains_of(input: PlannerInput, r: Seq<SkillLevel>) -> Seq<usize> {
    Seq::new(r.len(), |i: int| (r[i].index() - input.combat_skills@[i].target_level.index()) as usize)
}

/// `a` is larger than `b` at the first skill where they differ.
pub open spec fn lex_greater(a: Seq<usize>, b: Seq<usize>) -> bool {
    exists|k: int|
        #![trigger a[k], b[k]]
        0 <= k < a.len() && k < b.len() && a[k] > b[k] && (forall|j: int| 0 <= j < k ==> a[j] == b[j])
}

/// `r` raises the player's targets by the largest total of extra levels that any raise within
/// the caps achieves while meeting the resource conditions for `w` weeks (among equally large raises, the
/// one with the most extra levels for the first skill, then the second, and so on); with no
/// extra levels it is the player's own targets.
pub open spec fn bonus_optimal(input: PlannerInput, r: Seq<SkillLevel>, w: int) -> bool {
    &&& targets_in_range(input, r)
    &&& level_gain(input, r, r.len() as int) > 0 ==> feasible(input, r, w)
    &&& level_gain(input, r, r.len() as int) == 0 ==> r == input_targets(input)
    &&& forall|b: Seq<usize>|
        bonus_in_range(input, b) && feasible(input, raised_targets(input, b), w)
            ==> #[trigger] prefix_sum(b, b.len() as int) <= level_gain(input, r, r.len() as int)
    &&& level_gain(input, r, r.len() as int) > 0 ==> forall|b: Seq<usize>|
        bonus_in_range(input, b) && feasible(input, raised_targets(input, b), w) && #[trigger] prefix_sum(
            b,
            b.len() as int,
        ) == level_gain(input, r, r.len() as int) ==> b == gains_of(input, r) || lex_greater(
            gains_of(input, r),
            b,
        )
}

/// What the search keeps: its best targets so far and their gain.
spec fn best_ok(input: PlannerInput, w: int, best_total: int, best: Seq<SkillLevel>) -> bool {
    &&& targets_in_range(input, best)
    &&& best_total == level_gain(input, best, best.len() as int)
    &&& best_total > 0 ==> feasible(input, best, w)
    &&& best_total == 0 ==> best == input_targets(input)
}

/// `c` extends the first `k` entries of `b` within the caps.
spec fn completes(input: PlannerInput, b: Seq<usize>, k: int, c: Seq<usize>) -> bool {
    &&& bonus_in_range(input, c)
    &&& forall|j: int| 0 <= j < k ==> #[trigger] c[j] == b[j]
}

proof fn lemma_prefix_sum_agree(b: Seq<usize>, c: Seq<usize>, k: int)
    requires
        0 <= k <= b.len(),
        k <= c.len(),
        forall|j: int| 0 <= j < k ==> #[trigger] c[j] == b[j],
    ensures
        prefix_sum(b, k) == prefix_sum(c, k),
    decreases k,
{
    if k > 0 {
        lemma_prefix_sum_agree(b, c, k - 1);
    }
}

proof fn lemma_prefix_sum_tail_bound(c: Seq<usize>, r: Seq<usize>, k: int, m: int)
    requires
        0 <= k <= m <= c.len(),
        m <= r.len(),
        forall|j: int| 0 <= j < m ==> #[trigger] c[j] <= r[j],
    ensures
        prefix_sum(c, m) - prefix_sum(c, k) <= prefix_sum(r, m) - prefix_sum(r, k),
    decreases m - k,
{
    if m > k {
        lemma_prefix_sum_tail_bound(c, r, k, m - 1);
    }
}

proof fn lemma_prefix_sum_nonneg_bound(b: Seq<usize>, k: int)
    requires
        0 <= k <= b.len(),
        forall|j: int| 0 <= j < k ==> #[trigger] b[j] <= MAX_LEVEL_INDEX,
    ensures
        0 <= prefix_sum(b, k) <= MAX_LEVEL_INDEX * k,
    decreases k,
{
    if k > 0 {
        lemma_prefix_sum_nonneg_bound(b, k - 1);
    }
}

proof fn lemma_prefix_sum_mono(b: Seq<usize>, k: int, m: int)
    requires
        0 <= k <= m <= b.len(),
    ensures
        prefix_sum(b, k) <= prefix_sum(b, m),
    decreases m - k,
{
    if m > k {
        lemma_prefix_sum_mono(b, k, m - 1);
    }
}

proof fn lemma_gain_of_raised(input: PlannerInput, b: Seq<usize>, k: int)
    requires
        bonus_in_range(input, b),
        0 <= k <= b.len(),
    ensures
        level_gain(input, raised_targets(input, b), k) == prefix_sum(b, k),
    decreases k,
{
    if k > 0 {
        lemma_gain_of_raised(input, b, k - 1);
        let i = k - 1;
        let x = input.combat_skills@[i].target_level.index() + b[i];
        assert(0 <= x <= MAX_LEVEL_INDEX);
        assert(SkillLevel::spec_from_index(x).index() == x);
    }
}

proof fn lemma_gains_of_raised(input: PlannerInput, b: Seq<usize>)
    requires
        bonus_in_range(input, b),
    ensures
        gains_of(input, raised_targets(input, b)) == b,
{
    assert forall|i: int| 0 <= i < b.len() implies #[trigger] gains_of(input, raised_targets(input, b))[i] == b[i] by {
        let x = input.combat_skills@[i].target_level.index() + b[i];
        assert(SkillLevel::spec_from_index(x).index() == x);
    }
    assert(gains_of(input, raised_targets(input, b)) =~= b);
}

proof fn lemma_gain_nonneg(input: PlannerInput, r: Seq<SkillLevel>, k: int)
    requires
        targets_in_range(input, r),
        0 <= k <= r.len(),
    ensures
        level_gain(input, r, k) >= 0,
        level_gain(input, r, k) == 0 ==> forall|j: int|
            0 <= j < k ==> #[trigger] r[j].index() == input.combat_skills@[j].target_level.index(),
    decreases k,
{
    if k > 0 {
        lemma_gain_nonneg(input, r, k - 1);
    }
}

/// Branch-and-bound over the extra levels of skills `skill..n`, the earlier ones being fixed
/// in `bonus`; larger extras are tried first.
fn search(
    skill: usize,
    bonus: &mut Vec<usize>,
    current_total: u128,
    bonus_range: &Vec<usize>,
    targets: &Vec<SkillLevel>,
    input: &PlannerInput,
    min_weeks: u32,
    best_total: &mut u128,
    best: &mut Vec<SkillLevel>,
)
    requires
        min_weeks <= HORIZON_WEEKS,
        skill <= old(bonus).len(),
        old(bonus).len() == input.combat_skills.len(),
        bonus_range.len() == input.combat_skills.len(),
        targets@ == input_targets(*input),
        forall|i: int| 0 <= i < bonus_range.len() ==> #[trigger] bonus_range@[i] == bonus_cap(*input, i),
        forall|j: int| 0 <= j < skill ==> #[trigger] old(bonus)@[j] <= bonus_cap(*input, j),
        current_total == prefix_sum(old(bonus)@, skill as int),
        best_ok(*input, min_weeks as int, *old(best_total) as int, old(best)@),
        *old(best_total) > 0 ==> forall|c: Seq<usize>|
            #[trigger] completes(*input, old(bonus)@, skill as int, c) ==> lex_greater(
                gains_of(*input, old(best)@),
                c,
            ),
    ensures
        final(bonus).len() == old(bonus).len(),
        forall|j: int| 0 <= j < skill ==> #[trigger] final(bonus)@[j] == old(bonus)@[j],
        best_ok(*input, min_weeks as int, *final(best_total) as int, final(best)@),
        *final(best_total) >= *old(best_total),
        forall|c: Seq<usize>|
            completes(*input, old(bonus)@, skill as int, c) && feasible(
                *input,
                raised_targets(*input, c),
                min_weeks as int,
            ) ==> #[trigger] prefix_sum(c, c.len() as int) <= *final(best_total),
        *final(best_total) == *old(best_total) ==> final(best)@ == old(best)@,
        *final(best_total) != *old(best_total) ==> completes(
            *input,
            old(bonus)@,
            skill as int,
            gains_of(*input, final(best)@),
        ),
        *final(best_total) > 0 ==> forall|c: Seq<usize>|
            #[trigger] completes(*input, old(bonus)@, skill as int, c) && feasible(
                *input,
                raised_targets(*input, c),
                min_weeks as int,
            ) && prefix_sum(c, c.len() as int) == *final(best_total) ==> c == gains_of(
                *input,
                final(best)@,
            ) || lex_greater(gains_of(*input, final(best)@), c),
    decreases bonus_range.len() - skill,
{
    let n = bonus.len();
    let ghost inp = *input;
    let ghost w = min_weeks as int;
    if skill == n {
        if current_total > *best_total {
            let mut test: Vec<SkillLevel> = Vec::new();
            let mut i: usize = 0;
            while i < n
                invariant
                    i <= n,
                    n == bonus.len(),
                    n == input.combat_skills.len(),
                    targets@ == input_targets(*input),
                    forall|j: int| 0 <= j < n ==> #[trigger] bonus@[j] <= bonus_cap(*input, j),
                    test@ == raised_targets(*input, bonus@).take(i as int),
                decreases n - i,
            {
                proof {
                    assert(targets@[i as int] == input.combat_skills@[i as int].target_level);
                }
                test.push(SkillLevel::from_index(targets[i].index() + bonus[i]));
                i = i + 1;
                proof {
                    assert(test@ =~= raised_targets(*input, bonus@).take(i as int));
                }
            }
            proof {
                assert(test@ =~= raised_targets(*input, bonus@));
            }
            if check_feasibility(input, &test, min_weeks) {
                proof {
                    lemma_gain_of_raised(*input, bonus@, n as int);
                    assert forall|j: int| 0 <= j < n implies input.combat_skills@[j].target_level.index()
                        <= #[trigger] test@[j].index() <= MAX_LEVEL_INDEX by {
                        let x = input.combat_skills@[j].target_level.index() + bonus@[j];
                        assert(SkillLevel::spec_from_index(x).index() == x);
                    }
                }
                *best_total = current_total;
                *best = test;
                proof {
                    lemma_gains_of_raised(*input, bonus@);
                    assert(bonus_in_range(*input, bonus@));
                }
            }
        }
        proof {
            assert forall|c: Seq<usize>|
                completes(*input, bonus@, skill as int, c) && feasible(
                    *input,
                    raised_targets(*input, c),
                    min_weeks as int,
                ) implies #[trigger] prefix_sum(c, c.len() as int) <= *best_total by {
                lemma_prefix_sum_agree(bonus@, c, n as int);
                if prefix_sum(c, n as int) > *best_total {
                    assert(raised_targets(*input, c) =~= raised_targets(*input, bonus@));
                }
            }
            assert forall|c: Seq<usize>|
                #[trigger] completes(*input, bonus@, skill as int, c) && feasible(
                    *input,
                    raised_targets(*input, c),
                    min_weeks as int,
                ) && prefix_sum(c, c.len() as int) == *best_total && *best_total > 0 implies c
                == gains_of(*input, best@) || lex_greater(gains_of(*input, best@), c) by {
                assert(c =~= bonus@);
            }
        }
        return;
    }
    // Upper bound: the current total plus the most the remaining skills can add
    let mut max_remaining: u128 = 0;
    let mut k: usize = skill;
    while k < n
        invariant
            skill <= k <= n,
            n == bonus_range.len(),
            forall|i: int| 0 <= i < n ==> #[trigger] bonus_range@[i] == bonus_cap(*input, i),
            n == input.combat_skills.len(),
            max_remaining == prefix_sum(bonus_range@, k as int) - prefix_sum(bonus_range@, skill as int),
            max_remaining <= MAX_LEVEL_INDEX * (k - skill),
        decreases n - k,
    {
        proof {
            assert(bonus_range@[k as int] <= MAX_LEVEL_INDEX);
        }
        max_remaining = max_remaining + bonus_range[k] as u128;
        k = k + 1;
    }
    proof {
        lemma_prefix_sum_nonneg_bound(bonus@, skill as int);
    }
    if current_total + max_remaining <= *best_total {
        proof {
            assert forall|c: Seq<usize>|
                completes(*input, bonus@, skill as int, c) && feasible(
                    *input,
                    raised_targets(*input, c),
                    min_weeks as int,
                ) implies #[trigger] prefix_sum(c, c.len() as int) <= *best_total by {
                lemma_prefix_sum_agree(bonus@, c, skill as int);
                lemma_prefix_sum_tail_bound(c, bonus_range@, skill as int, n as int);
            }
        }
        return;
    }
    // Try from the highest extra down
    let ghost prefix = bonus@;
    let ghost start_best = *best_total;
    let ghost start_vec = best@;
    let top = bonus_range[skill];
    let mut b: usize = top + 1;
    while b > 0
        invariant
            0 <= b <= top + 1,
            top == bonus_range@[skill as int],
            skill < n,
            n == bonus.len(),
            n == bonus_range.len(),
            n == input.combat_skills.len(),
            min_weeks <= HORIZON_WEEKS,
            targets@ == input_targets(*input),
            forall|i: int| 0 <= i < n ==> #[trigger] bonus_range@[i] == bonus_cap(*input, i),
            prefix.len() == n,
            forall|j: int| 0 <= j < skill ==> #[trigger] bonus@[j] == prefix[j],
            forall|j: int| 0 <= j < skill ==> #[trigger] prefix[j] <= bonus_cap(*input, j),
            current_total == prefix_sum(prefix, skill as int),
            current_total <= MAX_LEVEL_INDEX * skill,
            best_ok(*input, min_weeks as int, *best_total as int, best@),
            *best_total >= start_best,
            forall|c: Seq<usize>|
                completes(*input, prefix, skill as int, c) && c[skill as int] >= b && feasible(
                    *input,
                    raised_targets(*input, c),
                    min_weeks as int,
                ) ==> #[trigger] prefix_sum(c, c.len() as int) <= *best_total,
            start_best > 0 ==> forall|c: Seq<usize>|
                #[trigger] completes(*input, prefix, skill as int, c) ==> lex_greater(
                    gains_of(*input, start_vec),
                    c,
                ),
            *best_total == start_best ==> best@ == start_vec,
            *best_total != start_best ==> completes(*input, prefix, skill as int, gains_of(*input, best@))
                && gains_of(*input, best@)[skill as int] >= b,
            *best_total > 0 ==> forall|c: Seq<usize>|
                #[trigger] completes(*input, prefix, skill as int, c) && c[skill as int] >= b && feasible(
                    *input,
                    raised_targets(*input, c),
                    min_weeks as int,
                ) && prefix_sum(c, c.len() as int) == *best_total ==> c == gains_of(*input, best@)
                    || lex_greater(gains_of(*input, best@), c),
        decreases b,
    {
        b = b - 1;
        bonus.set(skill, b);
        proof {
            lemma_prefix_sum_agree(prefix, bonus@, skill as int);
            assert(bonus_range@[skill as int] <= MAX_LEVEL_INDEX);
        }
        let ghost before = bonus@;
        let ghost best_before = *best_total;
        let ghost best_vec_before = best@;
        proof {
            if *best_total > 0 {
                assert forall|c: Seq<usize>| #[trigger] completes(*input, before, skill + 1, c) implies lex_greater(
                    gains_of(*input, best@),
                    c,
                ) by {
                    assert(completes(*input, prefix, skill as int, c));
                    if *best_total != start_best {
                        let g = gains_of(*input, best@);
                        assert(g[skill as int] > c[skill as int]);
                        assert(forall|j: int| 0 <= j < skill ==> g[j] == c[j]);
                    }
                }
            }
        }
        search(skill + 1, bonus, current_total + b as u128, bonus_range, targets, input, min_weeks, best_total, best);
        proof {
            assert forall|c: Seq<usize>|
                #[trigger] completes(*input, prefix, skill as int, c) && c[skill as int] >= b && feasible(
                    *input,
                    raised_targets(*input, c),
                    min_weeks as int,
                ) && prefix_sum(c, c.len() as int) == *best_total && *best_total > 0 implies c
                == gains_of(*input, best@) || lex_greater(gains_of(*input, best@), c) by {
                if c[skill as int] == b {
                    assert(completes(*input, before, skill + 1, c));
                } else {
                    assert(prefix_sum(c, c.len() as int) <= best_before);
                }
            }
            if *best_total != best_before {
                assert(completes(*input, before, skill + 1, gains_of(*input, best@)));
                assert(completes(*input, prefix, skill as int, gains_of(*input, best@)));
            }
            assert forall|c: Seq<usize>|
                completes(*input, prefix, skill as int, c) && c[skill as int] >= b && feasible(
                    *input,
                    raised_targets(*input, c),
                    min_weeks as int,
                ) implies #[trigger] prefix_sum(c, c.len() as int) <= *best_total by {
                if c[skill as int] == b {
                    assert(completes(*input, before, skill + 1, c));
                }
            }
        }
    }
    proof {
        assert forall|c: Seq<usize>|
            completes(*input, prefix, skill as int, c) && feasible(
                *input,
                raised_targets(*input, c),
                min_weeks as int,
            ) implies #[trigger] prefix_sum(c, c.len() as int) <= *best_total by {
            assert(c[skill as int] >= 0);
        }
        assert forall|c: Seq<usize>|
            #[trigger] completes(*input, prefix, skill as int, c) && feasible(
                *input,
                raised_targets(*input, c),
                min_weeks as int,
            ) && prefix_sum(c, c.len() as int) == *best_total && *best_total > 0 implies c == gains_of(
            *input,
            best@,
        ) || lex_greater(gains_of(*input, best@), c) by {
            assert(c[skill as int] >= 0);
        }
    }
}

/// The targets raised as far as the resource checks allow within `min_weeks` weeks: the
/// total of extra levels is the largest that any raise within the caps achieves while still
/// meeting the resource conditions; when no raise with extra levels passes, the player's own targets.
pub fn find_bonus_levels(input: &PlannerInput, min_weeks: u32) -> (r: Vec<SkillLevel>)
    requires
        min_weeks <= HORIZON_WEEKS,
    ensures
        bonus_optimal(*input, r@, min_weeks as int),
{
    let n = input.combat_skills.len();
    let targets = input_target_levels(input);
    // How many extra levels each skill can gain
    let mut bonus_range: Vec<usize> = Vec::new();
    let mut i: usize = 0;
    while i < n
        invariant
            i <= n,
            n == input.combat_skills.len(),
            bonus_range.len() == i,
            forall|j: int| 0 <= j < i ==> #[trigger] bonus_range@[j] == bonus_cap(*input, j),
        decreases n - i,
    {
        let t = input.combat_skills[i].target_level.index();
        bonus_range.push(MAX_LEVEL_INDEX - t);
        i = i + 1;
    }
    let mut best_total: u128 = 0;
    let mut best: Vec<SkillLevel> = input_target_levels(input);
    proof {
        assert forall|j: int| 0 <= j < n implies input.combat_skills@[j].target_level.index()
            <= #[trigger] best@[j].index() <= MAX_LEVEL_INDEX by {
            assert(best@[j] == input.combat_skills@[j].target_level);
        }
        lemma_gain_zero_at_targets(*input, n as int);
        assert(best@ == input_targets(*input));
    }
    let mut bonus: Vec<usize> = Vec::new();
    let mut i: usize = 0;
    while i < n
        invariant
            i <= n,
            bonus.len() == i,
        decreases n - i,
    {
        bonus.push(0);
        i = i + 1;
    }
    search(0, &mut bonus, 0, &bonus_range, &targets, input, min_weeks, &mut best_total, &mut best);
    proof {
        assert forall|b: Seq<usize>|
            bonus_in_range(*input, b) && feasible(*input, raised_targets(*input, b), min_weeks as int)
                implies #[trigger] prefix_sum(b, b.len() as int) <= level_gain(
            *input,
            best@,
            best.len() as int,
        ) by {
            assert(completes(*input, bonus@, 0, b));
        }
        assert forall|b: Seq<usize>|
            bonus_in_range(*input, b) && feasible(*input, raised_targets(*input, b), min_weeks as int)
                && #[trigger] prefix_sum(b, b.len() as int) == level_gain(*input, best@, best.len() as int)
                && level_gain(*input, best@, best.len() as int) > 0 implies b == gains_of(*input, best@)
            || lex_greater(gains_of(*input, best@), b) by {
            assert(completes(*input, bonus@, 0, b));
        }
    }
    best
}

proof fn lemma_gain_zero_at_targets(input: PlannerInput, k: int)
    requires
        0 <= k <= input.combat_skills@.len(),
    ensures
        level_gain(input, input_targets(input), k) == 0,
    decreases k,
{
    if k > 0 {
        lemma_gain_zero_at_targets(input, k - 1);
    }
}

} // verus!
