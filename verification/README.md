# wenjian_skill

A week-by-week planner for levelling the combat skills (神通) of the mobile game
《问剑长生》, written in Verus: the planning logic is executable Rust whose behaviour is
stated in `requires` / `ensures` contracts and proved.

Given the skills' shops, levels, pages, targets and incomes, plus the shared purple and blue
pages, fodder pools and conversion slots, the planner

1. finds the fewest weeks in which the resources can reach every target
   (`feasibility::find_minimum_weeks`, exact over the resource conditions);
2. raises the targets as far as those weeks allow, maximising the total number of extra
   levels (`bonus::find_bonus_levels`, exhaustive and proved optimal);
3. simulates the weeks one by one (`schedule::simulate_plan`): incomes, conversions and
   upgrades, spending the least precious pages first;
4. explains an unreachable goal (`planner::generate_reasons`).

## The game model

- One cost table (`models::upgrade_cost`) serves every skill, and every skill can go up to
  天5.
- Each skill receives `income_batch_count` batches of 40 pages every `income_cycle_weeks`
  weeks (never, when the cycle is 0).
- The fodder pools start from `non_combat_pools`; each week 论剑, 诸天 and 宗门 add their
  `weekly_shop_income`, and 道蕴 and 百族 add theirs every `daoyun_cycle_weeks` /
  `baizu_cycle_weeks` weeks.
- An upgrade records the other pages (金色) it draws source by source (`GoldDraw`: a fodder
  pool or another skill), and a conversion records the skill it takes its batch from
  (`FROM_POOL` for the pool).
- The resource checks count conversions over the whole horizon, while the simulation has
  each week's slots only; the simulation may therefore need more weeks, and a goal that passes
  the checks can still fall short. `run_planner` returns a plan only when it reaches every one
  of the player's targets, and otherwise reports the goal unreachable with the reasons.
- The simulation stops at week 1000 at the latest, and before a week whose amounts would not
  fit in 32 bits.

## Layout

- `src/models.rs` – shops, levels, the cost table and the plan's data types.
- `src/income.rs` – periodic incomes and their sums.
- `src/feasibility.rs` – the resource conditions and the search for the fewest weeks.
- `src/bonus.rs` – the search for the best raised targets.
- `src/plan.rs` – what a plan must satisfy: every week replays exactly from the last.
- `src/simulate.rs` – the simulation state, one upgrade, conversions and upgrades in a week.
- `src/schedule.rs` – weeks of income and the whole simulation.
- `src/text.rs`, `src/planner.rs` – the messages and the entry point `run_planner`.
- `tests/` – scenarios and laws on concrete values.
- `app/` – serde copies of the data types and the `generate_plan` command for the desktop
  front end.
