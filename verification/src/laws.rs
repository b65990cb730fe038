//! What holds of every run, stated over the models of the check and of the steps.

use vstd::prelude::*;
use crate::error::Error;
use crate::runner::{views, Migration, MigrationView, Report, Target, Type};
use crate::text::{
    all_digits, decimal, digit_char, digit_value, digits_value, is_digit, unsigned_decimal,
    unsigned_digits,
};
use crate::traits::sync::{
    applied_outcome_with, applies, batch_statements, lemma_next_applied, lemma_selected_step,
    marked, migration_outcome_with, run_outcome_with, selected, step_handed,
    unapplied_outcome_with, Call, Plan,
};
use crate::traits::{
    first_objection, first_repeat, for_table, has_version, insert_query, is_to_apply,
    lemma_no_repeat_unique, lemma_position_of, objection, pending, position_of,
    strictly_ascending, verdict, versions_unique, GET_APPLIED_MIGRATIONS_QUERY,
};

verus! {

/// The decimal rendering of a number is a run of digits that denotes the number.
pub proof fn lemma_decimal_digits(n: nat)
    ensures
        decimal(n).len() > 0,
        all_digits(decimal(n)),
        digits_value(decimal(n)) == n,
        decimal(n)[0] != '+',
    decreases n,
{
    if n < 10 {
        assert(decimal(n).drop_last() =~= Seq::<char>::empty());
        assert(digits_value(decimal(n).drop_last()) == 0);
        assert(digit_value(digit_char(n)) == n);
    } else {
        lemma_decimal_digits(n / 10);
        let head = decimal(n / 10);
        let all = decimal(n);
        assert(all.drop_last() =~= head);
        assert(digit_value(digit_char(n % 10)) == n % 10);
        assert(is_digit(digit_char(n % 10)));
        assert forall|i: int| 0 <= i < all.len() implies is_digit(#[trigger] all[i]) by {
            if i < head.len() {
                assert(all[i] == head[i]);
            }
        }
        assert(all[0] == head[0]);
    }
}

/// A number written in decimal is read back as itself: what is written into the
/// checksum column of the history table is what is read from it.
pub proof fn law_decimal_round_trip(n: nat)
    ensures
        unsigned_decimal(decimal(n)) == Some(n),
{
    lemma_decimal_digits(n);
    assert(unsigned_digits(decimal(n)) == decimal(n));
}

/// The first repeat lies within the list or at its end.
pub proof fn lemma_first_repeat_bound(list: Seq<MigrationView>, from: int)
    requires
        0 <= from <= list.len(),
    ensures
        from <= first_repeat(list, from) <= list.len(),
    decreases list.len() - from,
{
    if from < list.len() {
        lemma_first_repeat_bound(list, from + 1);
    }
}

/// A list with unique versions has no repeat.
pub proof fn lemma_unique_no_repeat(list: Seq<MigrationView>, from: int)
    requires
        versions_unique(list),
        0 <= from <= list.len(),
    ensures
        first_repeat(list, from) == list.len(),
    decreases list.len() - from,
{
    if from < list.len() {
        lemma_position_of(list, list[from].version, 0);
        let at = position_of(list, list[from].version, 0);
        if at < from {
            assert(list[at].version == list[from].version);
        }
        lemma_unique_no_repeat(list, from + 1);
    }
}

/// While no applied migration before `upto` raises an objection, the first objection
/// is looked for from `upto` on.
pub proof fn lemma_first_objection_skips(
    applied: Seq<MigrationView>,
    desired: Seq<MigrationView>,
    abort_divergent: bool,
    abort_missing: bool,
    from: int,
    upto: int,
)
    requires
        0 <= from <= upto <= applied.len(),
        forall|j: int|
            from <= j < upto ==> objection(
                #[trigger] applied[j],
                desired,
                abort_divergent,
                abort_missing,
            ) is Accepted,
    ensures
        first_objection(applied, desired, abort_divergent, abort_missing, from) == first_objection(
            applied,
            desired,
            abort_divergent,
            abort_missing,
            upto,
        ),
    decreases upto - from,
{
    if from < upto {
        lemma_first_objection_skips(
            applied,
            desired,
            abort_divergent,
            abort_missing,
            from + 1,
            upto,
        );
    }
}

/// The first objection is an objection against one of the applied migrations.
pub proof fn lemma_first_objection_source(
    applied: Seq<MigrationView>,
    desired: Seq<MigrationView>,
    abort_divergent: bool,
    abort_missing: bool,
    from: int,
)
    requires
        0 <= from <= applied.len(),
    ensures
        first_objection(applied, desired, abort_divergent, abort_missing, from) is Accepted
            ==> forall|j: int|
            from <= j < applied.len() ==> objection(
                #[trigger] applied[j],
                desired,
                abort_divergent,
                abort_missing,
            ) is Accepted,
        !(first_objection(applied, desired, abort_divergent, abort_missing, from) is Accepted)
            ==> exists|j: int|
            from <= j < applied.len() && first_objection(
                applied,
                desired,
                abort_divergent,
                abort_missing,
                from,
            ) == objection(#[trigger] applied[j], desired, abort_divergent, abort_missing) && forall|
                i: int,
            |
                from <= i < j ==> objection(
                    #[trigger] applied[i],
                    desired,
                    abort_divergent,
                    abort_missing,
                ) is Accepted,
    decreases applied.len() - from,
{
    if from < applied.len() {
        lemma_first_objection_source(applied, desired, abort_divergent, abort_missing, from + 1);
        let here = objection(applied[from], desired, abort_divergent, abort_missing);
        let found = first_objection(applied, desired, abort_divergent, abort_missing, from);
        if here is Accepted {
            if !(found is Accepted) {
                let j = choose|j: int|
                    from + 1 <= j < applied.len() && first_objection(
                        applied,
                        desired,
                        abort_divergent,
                        abort_missing,
                        from + 1,
                    ) == objection(#[trigger] applied[j], desired, abort_divergent, abort_missing)
                        && forall|i: int|
                        from + 1 <= i < j ==> objection(
                            #[trigger] applied[i],
                            desired,
                            abort_divergent,
                            abort_missing,
                        ) is Accepted;
                assert(from <= j < applied.len());
                assert(found == objection(applied[j], desired, abort_divergent, abort_missing));
            }
        } else {
            assert(found == objection(applied[from], desired, abort_divergent, abort_missing));
        }
    }
}

/// Whether the applied migration at `index` has a counterpart of the same version
/// among `desired` whose checksum differs, and is not rerunnable.
pub open spec fn diverges(applied: Seq<MigrationView>, desired: Seq<MigrationView>, index: int) -> bool {
    let at = position_of(desired, applied[index].version, 0);
    &&& 0 <= index < applied.len()
    &&& applied[index].prefix != Type::Rerunnable
    &&& at < desired.len()
    &&& desired[at].checksum != applied[index].checksum
}

/// Whether the applied migration at `index` has no counterpart among `desired`, and
/// is not rerunnable.
pub open spec fn lacks(applied: Seq<MigrationView>, desired: Seq<MigrationView>, index: int) -> bool {
    &&& 0 <= index < applied.len()
    &&& applied[index].prefix != Type::Rerunnable
    &&& position_of(desired, applied[index].version, 0) >= desired.len()
}

/// Divergence is detected: where an applied migration that is not rerunnable has
/// another checksum than the caller's migration of its version, the check ends in
/// a divergent version if and only if `abort_divergent`.
///
/// This is stated of the checks in which nothing else is refused first once
/// `abort_divergent` is set: the caller's versions are unique, and with
/// `abort_missing` no applied migration before the divergent one is missing.
pub proof fn law_divergence_detected(
    applied: Seq<MigrationView>,
    desired: Seq<MigrationView>,
    abort_divergent: bool,
    abort_missing: bool,
    index: int,
)
    requires
        diverges(applied, desired, index),
        abort_divergent ==> versions_unique(desired),
        abort_divergent && abort_missing ==> forall|j: int|
            0 <= j < index ==> !lacks(applied, desired, j),
    ensures
        verdict(applied, desired, abort_divergent, abort_missing) is Divergent <==> abort_divergent,
{
    let found = first_objection(applied, desired, abort_divergent, abort_missing, 0);
    lemma_first_objection_source(applied, desired, abort_divergent, abort_missing, 0);
    if abort_divergent {
        lemma_unique_no_repeat(desired, 0);
        assert(objection(applied[index], desired, abort_divergent, abort_missing) is Divergent);
        assert(!(found is Accepted));
        let j = choose|j: int|
            0 <= j < applied.len() && found == objection(
                #[trigger] applied[j],
                desired,
                abort_divergent,
                abort_missing,
            ) && forall|i: int|
                0 <= i < j ==> objection(
                    #[trigger] applied[i],
                    desired,
                    abort_divergent,
                    abort_missing,
                ) is Accepted;
        assert(j <= index);
        if j < index && abort_missing {
            assert(!lacks(applied, desired, j));
        }
        assert(found is Divergent);
    } else {
        if !(found is Accepted) {
            let j = choose|j: int|
                0 <= j < applied.len() && found == objection(
                    #[trigger] applied[j],
                    desired,
                    abort_divergent,
                    abort_missing,
                );
            assert(!(found is Divergent));
        }
    }
}

/// What is selected keeps the order of the list, and holds only migrations of the
/// list that the target applies.
pub proof fn lemma_selected_members(migrations: Seq<MigrationView>, target: Target)
    ensures
        selected(migrations, target).len() <= migrations.len(),
        forall|k: int|
            0 <= k < selected(migrations, target).len() ==> applies(
                #[trigger] selected(migrations, target)[k],
                target,
            ) && migrations.contains(selected(migrations, target)[k]),
        strictly_ascending(migrations) ==> strictly_ascending(selected(migrations, target)),
    decreases migrations.len(),
{
    if migrations.len() > 0 {
        let front = migrations.drop_last();
        let chosen = selected(migrations, target);
        let before = selected(front, target);
        lemma_selected_members(front, target);
        assert forall|k: int| 0 <= k < chosen.len() implies applies(#[trigger] chosen[k], target)
            && migrations.contains(chosen[k]) by {
            if k < before.len() {
                assert(chosen[k] == before[k]);
                assert(front.contains(before[k]));
                let at = choose|at: int| 0 <= at < front.len() && front[at] == before[k];
                assert(migrations[at] == chosen[k]);
            } else {
                assert(chosen[k] == migrations[migrations.len() - 1]);
            }
        }
        if strictly_ascending(migrations) {
            assert(strictly_ascending(front)) by {
                assert forall|i: int, j: int| 0 <= i < j < front.len() implies (
                #[trigger] front[i]).version < (#[trigger] front[j]).version by {
                    assert(front[i] == migrations[i] && front[j] == migrations[j]);
                }
            }
            assert forall|i: int, j: int| 0 <= i < j < chosen.len() implies (
            #[trigger] chosen[i]).version < (#[trigger] chosen[j]).version by {
                if j < before.len() {
                    assert(chosen[i] == before[i] && chosen[j] == before[j]);
                } else {
                    assert(chosen[i] == before[i]);
                    assert(front.contains(before[i]));
                    let at = choose|at: int| 0 <= at < front.len() && front[at] == before[i];
                    assert(migrations[at].version < migrations[migrations.len() - 1].version);
                }
            }
        }
    }
}

/// What is selected of the first migrations of a list stands at the front of what is
/// selected of the whole list.
pub proof fn lemma_selected_prefix(migrations: Seq<MigrationView>, target: Target, upto: int)
    requires
        0 <= upto <= migrations.len(),
    ensures
        selected(migrations.take(upto), target).len() <= selected(migrations, target).len(),
        selected(migrations.take(upto), target) == selected(migrations, target).take(
            selected(migrations.take(upto), target).len() as int,
        ),
    decreases migrations.len() - upto,
{
    let chosen = selected(migrations, target);
    if upto == migrations.len() {
        assert(migrations.take(upto) =~= migrations);
        assert(chosen.take(chosen.len() as int) =~= chosen);
    } else {
        lemma_selected_prefix(migrations, target, upto + 1);
        lemma_selected_step(migrations, target, upto);
        let longer = selected(migrations.take(upto + 1), target);
        let shorter = selected(migrations.take(upto), target);
        assert(shorter =~= chosen.take(shorter.len() as int));
    }
}

/// Migrations that the target does not apply add nothing to what is selected.
pub proof fn lemma_selected_skips(
    migrations: Seq<MigrationView>,
    target: Target,
    from: int,
    upto: int,
)
    requires
        0 <= from <= upto <= migrations.len(),
        forall|j: int| from <= j < upto ==> !applies(#[trigger] migrations[j], target),
    ensures
        selected(migrations.take(upto), target) == selected(migrations.take(from), target),
    decreases upto - from,
{
    if from < upto {
        lemma_selected_skips(migrations, target, from, upto - 1);
        lemma_selected_step(migrations, target, upto - 1);
    }
}

/// With the target `Latest` or `Fake` every migration is selected.
pub proof fn lemma_selected_all(migrations: Seq<MigrationView>, target: Target)
    requires
        target.bound() is None,
    ensures
        selected(migrations, target) == migrations,
    decreases migrations.len(),
{
    if migrations.len() > 0 {
        lemma_selected_all(migrations.drop_last(), target);
        assert(migrations.drop_last().push(migrations.last()) =~= migrations);
    }
}

/// Marking keeps versions, kinds, bodies and order.
pub proof fn lemma_marked(migrations: Seq<MigrationView>, target: Target)
    ensures
        marked(migrations, target).len() == migrations.len(),
        forall|i: int|
            0 <= i < migrations.len() ==> {
                let m = #[trigger] marked(migrations, target)[i];
                &&& m.version == migrations[i].version
                &&& m.prefix == migrations[i].prefix
                &&& m.sql == migrations[i].sql
                &&& m.name == migrations[i].name
                &&& m.checksum == migrations[i].checksum
                &&& applies(m, target) == applies(migrations[i], target)
                &&& applies(m, target) ==> m == migrations[i].marked_applied()
            },
        strictly_ascending(migrations) ==> strictly_ascending(marked(migrations, target)),
{
    let after = marked(migrations, target);
    if strictly_ascending(migrations) {
        assert forall|i: int, j: int| 0 <= i < j < after.len() implies (#[trigger] after[i]).version
            < (#[trigger] after[j]).version by {
            assert(migrations[i].version < migrations[j].version);
        }
    }
}

/// Whether `plan` is a run at its start that goes step by step.
pub open spec fn step_by_step_start(plan: Plan) -> bool {
    &&& plan.well_formed()
    &&& plan.position == 0
    &&& !plan.insert_due
    &&& !plan.in_one_batch()
}

/// Whether `other` is the run `plan` at another point.
pub open spec fn same_run(plan: Plan, other: Plan) -> bool {
    &&& other.migrations == plan.migrations
    &&& other.target == plan.target
    &&& other.batched == plan.batched
    &&& other.table_name == plan.table_name
}

proof fn lemma_itemized_state(plan: Plan, k: nat)
    requires
        step_by_step_start(plan),
        k <= selected(plan.migrations, plan.target).len(),
    ensures
        plan.after(2 * k).well_formed(),
        same_run(plan, plan.after(2 * k)),
        !plan.after(2 * k).insert_due,
        selected(plan.migrations.take(plan.after(2 * k).position), plan.target) == selected(
            plan.migrations,
            plan.target,
        ).take(k as int),
    decreases k,
{
    let all = plan.migrations;
    let chosen = selected(all, plan.target);
    if k == 0 {
        assert(plan.after(0) == plan);
        assert(all.take(0) =~= Seq::<MigrationView>::empty());
        assert(chosen.take(0) =~= Seq::<MigrationView>::empty());
    } else {
        let earlier = (k - 1) as nat;
        lemma_itemized_state(plan, earlier);
        lemma_itemized_pair(plan, earlier);
        assert(plan.after(2 * k) == plan.after((2 * k - 1) as nat).advance());
    }
}

proof fn lemma_itemized_pair(plan: Plan, k: nat)
    requires
        step_by_step_start(plan),
        k < selected(plan.migrations, plan.target).len(),
        plan.after(2 * k).well_formed(),
        same_run(plan, plan.after(2 * k)),
        !plan.after(2 * k).insert_due,
        selected(plan.migrations.take(plan.after(2 * k).position), plan.target) == selected(
            plan.migrations,
            plan.target,
        ).take(k as int),
    ensures
        ({
            let chosen = selected(plan.migrations, plan.target);
            let body = plan.after(2 * k);
            let write = plan.after(2 * k + 1);
            let then = plan.after(2 * k + 2);
            &&& body.has_step()
            &&& body.current() < plan.migrations.len()
            &&& plan.migrations[body.current()] == chosen[k as int]
            &&& body.completed() == chosen.take(k as int)
            &&& write.well_formed()
            &&& same_run(plan, write)
            &&& write.insert_due
            &&& write.has_step()
            &&& write.current() == body.current()
            &&& write.completed() == chosen.take(k as int)
            &&& then.well_formed()
            &&& same_run(plan, then)
            &&& !then.insert_due
            &&& selected(plan.migrations.take(then.position), plan.target) == chosen.take(
                k as int + 1,
            )
        }),
{
    let all = plan.migrations;
    let target = plan.target;
    let chosen = selected(all, target);
    let body = plan.after(2 * k);
    let at = body.current();
    lemma_next_applied(all, target, body.position);
    lemma_selected_skips(all, target, body.position, at);
    if at >= all.len() {
        assert(all.take(at) =~= all);
        assert(chosen.take(k as int).len() == k);
    }
    lemma_selected_step(all, target, at);
    lemma_selected_prefix(all, target, at + 1);
    let longer = selected(all.take(at + 1), target);
    assert(longer == chosen.take(k as int).push(all[at]));
    assert(longer.len() == k + 1);
    assert(longer[k as int] == all[at]);
    assert(chosen.take(k as int + 1)[k as int] == chosen[k as int]);
    let write = body.advance();
    assert(plan.after(2 * k + 1) == write) by {
        assert(plan.after((2 * k + 1) as nat) == plan.after((2 * k) as nat).advance());
    }
    lemma_next_applied(all, target, at);
    assert(write.current() == at);
    let then = write.advance();
    assert(plan.after(2 * k + 2) == then) by {
        assert(plan.after((2 * k + 2) as nat) == plan.after((2 * k + 1) as nat).advance());
    }
}

/// A run step by step hands out, for each migration that it applies and in their
/// order, first the body of the migration and then the write of its history row; both
/// steps carry the migrations before it as completed.
pub proof fn law_steps_come_in_pairs(plan: Plan, k: nat)
    requires
        step_by_step_start(plan),
        k < selected(plan.migrations, plan.target).len(),
    ensures
        ({
            let chosen = selected(plan.migrations, plan.target);
            let body = plan.after(2 * k);
            let write = plan.after(2 * k + 1);
            &&& same_run(plan, body)
            &&& body.has_step()
            &&& !body.insert_due
            &&& body.current() < plan.migrations.len()
            &&& plan.migrations[body.current()] == chosen[k as int]
            &&& body.completed() == chosen.take(k as int)
            &&& same_run(plan, write)
            &&& write.has_step()
            &&& write.insert_due
            &&& write.current() == body.current()
            &&& write.completed() == chosen.take(k as int)
        }),
{
    lemma_itemized_state(plan, k);
    lemma_itemized_pair(plan, k);
}

/// A run step by step is through after two steps for each migration that it applies.
pub proof fn law_steps_end(plan: Plan, steps: nat)
    requires
        step_by_step_start(plan),
        steps >= 2 * selected(plan.migrations, plan.target).len(),
    ensures
        !plan.after(steps).has_step(),
        plan.after(steps) == plan.after(2 * selected(plan.migrations, plan.target).len()),
    decreases steps,
{
    let all = plan.migrations;
    let chosen = selected(all, plan.target);
    let count = chosen.len();
    lemma_itemized_state(plan, count);
    let last = plan.after(2 * count);
    if last.has_step() {
        let at = last.current();
        lemma_next_applied(all, plan.target, last.position);
        lemma_selected_skips(all, plan.target, last.position, at);
        lemma_selected_step(all, plan.target, at);
        lemma_selected_prefix(all, plan.target, at + 1);
        assert(chosen.take(count as int).len() == count);
        assert(false);
    }
    if steps > 2 * count {
        law_steps_end(plan, (steps - 1) as nat);
        assert(plan.after(steps) == plan.after((steps - 1) as nat).advance());
    }
}

/// A run in one batch hands out one step if there is any migration, and is through
/// after it.
pub proof fn law_batch_is_one_step(plan: Plan, steps: nat)
    requires
        plan.well_formed(),
        plan.position == 0,
        plan.in_one_batch(),
    ensures
        plan.after(0).has_step() <==> plan.migrations.len() > 0,
        steps >= 1 ==> !plan.after(steps).has_step() && same_run(plan, plan.after(steps)),
    decreases steps,
{
    assert(plan.after(0) == plan);
    if steps >= 1 {
        if steps == 1 {
            assert(plan.after(1) == plan.after(0).advance());
        } else {
            law_batch_is_one_step(plan, (steps - 1) as nat);
            assert(plan.after(steps) == plan.after((steps - 1) as nat).advance());
        }
    }
}

/// The version of the migration that the next step of a run step by step is about.
pub open spec fn subject_version(plan: Plan) -> int {
    plan.migrations[plan.current()].version
}

/// History rows are written in strictly ascending version order.
///
/// Whatever the history and the caller's migrations are, and whatever the target is:
/// what is applied of the list that the check gives rises strictly in version, so the
/// rows of a batch do; and of any two steps of a run step by step that write a history
/// row, the earlier one writes the lower version.
pub proof fn law_history_writes_ascend(
    list: Seq<MigrationView>,
    applied: Seq<MigrationView>,
    desired: Seq<MigrationView>,
    plan: Plan,
    first: nat,
    second: nat,
)
    requires
        is_to_apply(list, applied, desired),
        plan.well_formed(),
        plan.position == 0,
        !plan.insert_due,
        plan.migrations == marked(list, plan.target),
    ensures
        strictly_ascending(selected(plan.migrations, plan.target)),
        !plan.in_one_batch() && first < second && plan.after(first).has_step() && plan.after(
            first,
        ).insert_due && plan.after(second).has_step() && plan.after(second).insert_due
            ==> subject_version(plan.after(first)) < subject_version(plan.after(second)),
{
    let chosen = selected(plan.migrations, plan.target);
    lemma_marked(list, plan.target);
    lemma_selected_members(plan.migrations, plan.target);
    if !plan.in_one_batch() && first < second && plan.after(first).has_step() && plan.after(
        first,
    ).insert_due && plan.after(second).has_step() && plan.after(second).insert_due {
        if second >= 2 * chosen.len() {
            law_steps_end(plan, second);
        }
        let k = first / 2;
        let l = second / 2;
        law_steps_come_in_pairs(plan, k);
        law_steps_come_in_pairs(plan, l);
        assert(first == 2 * k + 1);
        assert(second == 2 * l + 1);
        assert(chosen[k as int].version < chosen[l as int].version);
    }
}

/// A migration that has been applied is not applied again by a later run towards
/// `Latest` with the same migrations, unless it is rerunnable; a rerunnable one is
/// applied once more.
///
/// `list` is what the check gives with the history `applied`, which it accepts and
/// which holds the version of the caller's migration `migration`. Where the migration is not rerunnable, no
/// entry of `list` has its version, and no step of the run is about it. Where it is
/// rerunnable, `list` holds it at exactly one place, `at`, and step by step the run has
/// exactly two steps about its version: its body and then the write of its history
/// row.
pub proof fn law_round_trip(
    list: Seq<MigrationView>,
    applied: Seq<MigrationView>,
    desired: Seq<MigrationView>,
    abort_divergent: bool,
    abort_missing: bool,
    migration: MigrationView,
    table_name: Seq<char>,
    step: nat,
) -> (at: int)
    requires
        verdict(applied, desired, abort_divergent, abort_missing) is Accepted,
        is_to_apply(list, applied, desired),
        desired.contains(migration),
        has_version(applied, migration.version),
        forall|i: int| 0 <= i < list.len() ==> (#[trigger] list[i]).sql is Some,
    ensures
        migration.prefix != Type::Rerunnable ==> !has_version(list, migration.version),
        migration.prefix == Type::Rerunnable ==> 0 <= at < list.len() && list[at] == migration,
        ({
            let plan = Plan::start(marked(list, Target::Latest), Target::Latest, table_name, false);
            let reached = plan.after(step);
            &&& reached.has_step() && subject_version(reached) == migration.version ==> {
                &&& migration.prefix == Type::Rerunnable
                &&& step == 2 * at || step == 2 * at + 1
            }
            &&& migration.prefix == Type::Rerunnable ==> {
                &&& plan.after((2 * at) as nat).has_step()
                &&& !plan.after((2 * at) as nat).insert_due
                &&& plan.migrations[plan.after((2 * at) as nat).current()]
                    == migration.marked_applied()
                &&& plan.after((2 * at + 1) as nat).has_step()
                &&& plan.after((2 * at + 1) as nat).insert_due
                &&& plan.migrations[plan.after((2 * at + 1) as nat).current()]
                    == migration.marked_applied()
            }
        }),
{
    let target = Target::Latest;
    let plan = Plan::start(marked(list, target), target, table_name, false);
    let chosen = selected(plan.migrations, target);
    lemma_first_repeat_bound(desired, 0);
    lemma_no_repeat_unique(desired, 0);
    lemma_marked(list, target);
    lemma_selected_all(plan.migrations, target);
    assert(chosen == marked(list, target));
    assert(step_by_step_start(plan));
    let found = choose|i: int| 0 <= i < applied.len() && (#[trigger] applied[i]).version
        == migration.version;
    assert(!(applied[found].version < migration.version));
    let mut at: int = 0;
    if migration.prefix == Type::Rerunnable {
        assert(pending(migration, applied));
        assert(list.contains(migration));
        at = choose|at: int| 0 <= at < list.len() && list[at] == migration;
        law_steps_come_in_pairs(plan, at as nat);
        assert(chosen[at] == migration.marked_applied());
    } else {
        assert(!pending(migration, applied));
        if has_version(list, migration.version) {
            let t = choose|t: int| 0 <= t < list.len() && (#[trigger] list[t]).version
                == migration.version;
            assert(list.contains(list[t]));
            assert(desired.contains(list[t]));
            let a = choose|a: int| 0 <= a < desired.len() && desired[a] == list[t];
            let b = choose|b: int| 0 <= b < desired.len() && desired[b] == migration;
            assert(a == b) by {
                if a < b {
                    assert(desired[a].version != desired[b].version);
                }
                if b < a {
                    assert(desired[b].version != desired[a].version);
                }
            }
            assert(pending(list[t], applied));
            assert(false);
        }
    }
    let reached = plan.after(step);
    if reached.has_step() && subject_version(reached) == migration.version {
        if step >= 2 * chosen.len() {
            law_steps_end(plan, step);
        }
        let k = step / 2;
        law_steps_come_in_pairs(plan, k);
        assert(chosen[k as int].version == migration.version);
        assert(list[k as int].version == migration.version);
        assert(has_version(list, migration.version));
        if k < at {
            assert(list[k as int].version < list[at].version);
        }
        if at < k {
            assert(list[at].version < list[k as int].version);
        }
    }
    at
}

/// The history that a fake run on an empty history wrote is accepted by the check
/// of the same migrations.
pub proof fn lemma_fake_history_accepted(
    desired: Seq<MigrationView>,
    first: Seq<MigrationView>,
    history: Seq<MigrationView>,
    abort_divergent: bool,
    abort_missing: bool,
)
    requires
        versions_unique(desired),
        is_to_apply(first, Seq::empty(), desired),
        history.len() == first.len(),
        forall|i: int|
            0 <= i < first.len() ==> (#[trigger] history[i]).version == first[i].version
                && history[i].checksum == first[i].checksum,
    ensures
        verdict(history, desired, abort_divergent, abort_missing) is Accepted,
{
    lemma_unique_no_repeat(desired, 0);
    assert forall|j: int| 0 <= j < history.len() implies objection(
        #[trigger] history[j],
        desired,
        abort_divergent,
        abort_missing,
    ) is Accepted by {
        assert(first.contains(first[j]));
        assert(desired.contains(first[j]));
        let d = choose|d: int| 0 <= d < desired.len() && desired[d] == first[j];
        lemma_position_of(desired, history[j].version, 0);
        let at = position_of(desired, history[j].version, 0);
        assert(at <= d);
        if at < d {
            assert(desired[at].version != desired[d].version);
        }
    }
    lemma_first_objection_skips(
        history,
        desired,
        abort_divergent,
        abort_missing,
        0,
        history.len() as int,
    );
}

/// A fake run is idempotent: after a run towards `Fake` on an empty history, a
/// second run with the same migrations finds nothing to apply and has no step, so
/// the history stays as the first run left it.
///
/// `first` is what the check gives on the empty history, all of which a fake run
/// writes; `history` holds one row for each of them, with its version and checksum.
/// This is stated of migrations none of which is rerunnable: a rerunnable one is
/// written again by every run.
pub proof fn law_fake_is_idempotent(
    desired: Seq<MigrationView>,
    first: Seq<MigrationView>,
    history: Seq<MigrationView>,
    second: Seq<MigrationView>,
    abort_divergent: bool,
    abort_missing: bool,
    target: Target,
    table_name: Seq<char>,
    batched: bool,
)
    requires
        versions_unique(desired),
        forall|i: int| 0 <= i < desired.len() ==> (#[trigger] desired[i]).prefix != Type::Rerunnable,
        is_to_apply(first, Seq::empty(), desired),
        history.len() == first.len(),
        forall|i: int|
            0 <= i < first.len() ==> (#[trigger] history[i]).version == first[i].version
                && history[i].checksum == first[i].checksum,
        is_to_apply(second, history, desired),
    ensures
        selected(marked(first, Target::Fake), Target::Fake) == marked(first, Target::Fake),
        verdict(history, desired, abort_divergent, abort_missing) is Accepted,
        second.len() == 0,
        !Plan::start(marked(second, target), target, table_name, batched).has_step(),
{
    lemma_selected_all(marked(first, Target::Fake), Target::Fake);
    lemma_fake_history_accepted(desired, first, history, abort_divergent, abort_missing);
    if second.len() > 0 {
        let m = second[0];
        assert(second.contains(m));
        assert(desired.contains(m) && pending(m, history));
        let d = choose|d: int| 0 <= d < desired.len() && desired[d] == m;
        assert(pending(m, Seq::<MigrationView>::empty()));
        assert(first.contains(m));
        let t = choose|t: int| 0 <= t < first.len() && first[t] == m;
        assert(history[t].version == m.version);
        assert(false);
    }
    let plan = Plan::start(marked(second, target), target, table_name, batched);
    lemma_next_applied(plan.migrations, target, 0);
}

/// A failed batch leaves nothing behind: where a run in one batch ends in an error,
/// the backend has committed nothing of the run. It has taken no call of the run at
/// all, or the one call of the batch, which it refused; and the error reports that
/// no migration was completed.
pub proof fn law_failed_batch_commits_nothing<E>(
    plan: Plan,
    before: Seq<Call<E>>,
    after: Seq<Call<E>>,
    failure: Error<E>,
    stamps: Seq<Seq<char>>,
)
    requires
        plan.well_formed(),
        plan.position == 0,
        plan.in_one_batch(),
        run_outcome_with(plan, before, after, Err::<Report, Error<E>>(failure), stamps),
    ensures
        before.len() <= after.len() <= before.len() + 1,
        after.take(before.len() as int) == before,
        after.len() == before.len() + 1 ==> !after.last().committed(),
        failure@.report == Some(Seq::<MigrationView>::empty()),
{
    let run = after.skip(before.len() as int);
    law_batch_is_one_step(plan, stamps.len());
    assert(plan.after(0) == plan);
    if stamps.len() >= 2 {
        law_batch_is_one_step(plan, 1);
        assert(step_handed(plan, stamps, run, 1));
    }
    if stamps.len() == 1 {
        assert(run.last() == after.last());
    }
}

/// What is to apply is determined: two lists that both are what is to apply of the
/// same migrations, given the same history, are equal.
pub proof fn law_to_apply_is_unique(
    one: Seq<MigrationView>,
    other: Seq<MigrationView>,
    applied: Seq<MigrationView>,
    desired: Seq<MigrationView>,
)
    requires
        is_to_apply(one, applied, desired),
        is_to_apply(other, applied, desired),
    ensures
        one == other,
{
    lemma_same_members_same_list(one, other);
}

/// Two strictly ascending lists with the same members are equal.
pub proof fn lemma_same_members_same_list(one: Seq<MigrationView>, other: Seq<MigrationView>)
    requires
        strictly_ascending(one),
        strictly_ascending(other),
        forall|m: MigrationView| one.contains(m) <==> other.contains(m),
    ensures
        one == other,
    decreases one.len(),
{
    if one.len() == 0 {
        if other.len() > 0 {
            assert(other.contains(other[0]));
        }
        assert(one =~= other);
    } else {
        let top = one.last();
        assert(one.contains(top));
        assert(other.contains(top));
        let at = choose|at: int| 0 <= at < other.len() && other[at] == top;
        if at < other.len() - 1 {
            let above = other.last();
            assert(other.contains(above));
            assert(one.contains(above));
            let back = choose|back: int| 0 <= back < one.len() && one[back] == above;
            assert(other[at].version < other[other.len() - 1].version);
            if back < one.len() - 1 {
                assert(one[back].version < one[one.len() - 1].version);
            }
        }
        assert(other.last() == top);
        let one_front = one.drop_last();
        let other_front = other.drop_last();
        assert(strictly_ascending(one_front)) by {
            assert forall|i: int, j: int| 0 <= i < j < one_front.len() implies (
            #[trigger] one_front[i]).version < (#[trigger] one_front[j]).version by {
                assert(one_front[i] == one[i] && one_front[j] == one[j]);
            }
        }
        assert(strictly_ascending(other_front)) by {
            assert forall|i: int, j: int| 0 <= i < j < other_front.len() implies (
            #[trigger] other_front[i]).version < (#[trigger] other_front[j]).version by {
                assert(other_front[i] == other[i] && other_front[j] == other[j]);
            }
        }
        assert forall|m: MigrationView| one_front.contains(m) <==> other_front.contains(m) by {
            if one_front.contains(m) {
                let i = choose|i: int| 0 <= i < one_front.len() && one_front[i] == m;
                assert(one[i] == m);
                assert(one.contains(m));
                assert(one[i].version < one[one.len() - 1].version);
                let j = choose|j: int| 0 <= j < other.len() && other[j] == m;
                assert(j < other.len() - 1);
                assert(other_front[j] == m);
            }
            if other_front.contains(m) {
                let j = choose|j: int| 0 <= j < other_front.len() && other_front[j] == m;
                assert(other[j] == m);
                assert(other.contains(m));
                assert(other[j].version < other[other.len() - 1].version);
                let i = choose|i: int| 0 <= i < one.len() && one[i] == m;
                assert(i < one.len() - 1);
                assert(one_front[i] == m);
            }
        }
        lemma_same_members_same_list(one_front, other_front);
        assert(one =~= one_front.push(top));
        assert(other =~= other_front.push(top));
    }
}

/// A batch holds its statements migration by migration, in the order of the
/// migrations: of a fake run the write of each history row, else each body followed
/// by the write of its history row.
pub proof fn law_batch_layout(
    migrations: Seq<MigrationView>,
    fake: bool,
    table_name: Seq<char>,
    applied_on: Seq<char>,
    k: int,
)
    requires
        0 <= k < migrations.len(),
    ensures
        ({
            let batch = batch_statements(migrations, fake, table_name, applied_on);
            let write = insert_query(migrations[k], table_name, applied_on);
            if fake {
                batch.len() == migrations.len() && batch[k] == write
            } else {
                batch.len() == 2 * migrations.len() && batch[2 * k]
                    == migrations[k].sql.unwrap() && batch[2 * k + 1] == write
            }
        }),
    decreases migrations.len(),
{
    let front = migrations.drop_last();
    lemma_batch_length(front, fake, table_name, applied_on);
    if k < front.len() {
        law_batch_layout(front, fake, table_name, applied_on, k);
    }
}

/// A batch holds one statement for each migration of a fake run, else two.
pub proof fn lemma_batch_length(
    migrations: Seq<MigrationView>,
    fake: bool,
    table_name: Seq<char>,
    applied_on: Seq<char>,
)
    ensures
        batch_statements(migrations, fake, table_name, applied_on).len() == if fake {
            migrations.len()
        } else {
            2 * migrations.len()
        },
    decreases migrations.len(),
{
    if migrations.len() > 0 {
        lemma_batch_length(migrations.drop_last(), fake, table_name, applied_on);
    }
}

/// A migration that is not rerunnable and whose version the history holds is not
/// among what is to apply.
pub proof fn law_applied_is_not_to_apply(
    list: Seq<MigrationView>,
    applied: Seq<MigrationView>,
    desired: Seq<MigrationView>,
    abort_divergent: bool,
    abort_missing: bool,
    migration: MigrationView,
)
    requires
        verdict(applied, desired, abort_divergent, abort_missing) is Accepted,
        is_to_apply(list, applied, desired),
        desired.contains(migration),
        has_version(applied, migration.version),
        migration.prefix != Type::Rerunnable,
    ensures
        !has_version(list, migration.version),
{
    lemma_first_repeat_bound(desired, 0);
    lemma_no_repeat_unique(desired, 0);
    let found = choose|i: int| 0 <= i < applied.len() && (#[trigger] applied[i]).version
        == migration.version;
    assert(!(applied[found].version < migration.version));
    assert(!pending(migration, applied));
    if has_version(list, migration.version) {
        let t = choose|t: int| 0 <= t < list.len() && (#[trigger] list[t]).version
            == migration.version;
        assert(list.contains(list[t]));
        assert(desired.contains(list[t]));
        let a = choose|a: int| 0 <= a < desired.len() && desired[a] == list[t];
        let b = choose|b: int| 0 <= b < desired.len() && desired[b] == migration;
        if a < b {
            assert(desired[a].version != desired[b].version);
        }
        if b < a {
            assert(desired[b].version != desired[a].version);
        }
        assert(pending(list[t], applied));
    }
}

/// Whether the calls `after` hold, behind the calls `before`, a committed assertion
/// of the history table and then the query for the history in the table
/// `table_name`, which gave `history`.
pub open spec fn read_history<E>(
    before: Seq<Call<E>>,
    after: Seq<Call<E>>,
    table_name: Seq<char>,
    history: Seq<MigrationView>,
) -> bool {
    &&& before.len() + 2 <= after.len()
    &&& after[before.len() as int].committed()
    &&& after[before.len() as int + 1] == Call::<E>::query(
        for_table(GET_APPLIED_MIGRATIONS_QUERY@, table_name),
        Ok(history),
    )
}

/// A migration whose row the backend gave is not found to be still unapplied,
/// unless it is rerunnable: where finding the migrations to apply gives a list, and
/// the history that the backend gave holds the version of a caller's migration that
/// is not rerunnable, no entry of the list has that version.
pub proof fn law_read_back_is_not_unapplied<E>(
    statement: Seq<char>,
    standard: bool,
    desired: Seq<MigrationView>,
    abort_divergent: bool,
    abort_missing: bool,
    table_name: Seq<char>,
    before: Seq<Call<E>>,
    after: Seq<Call<E>>,
    list: Vec<Migration>,
    history: Seq<MigrationView>,
    migration: MigrationView,
)
    requires
        unapplied_outcome_with(
            statement,
            standard,
            desired,
            abort_divergent,
            abort_missing,
            table_name,
            before,
            after,
            Ok::<Vec<Migration>, Error<E>>(list),
        ),
        read_history(before, after, table_name, history),
        desired.contains(migration),
        has_version(history, migration.version),
        migration.prefix != Type::Rerunnable,
    ensures
        !has_version(views(list@), migration.version),
{
    law_applied_is_not_to_apply(
        views(list@),
        history,
        desired,
        abort_divergent,
        abort_missing,
        migration,
    );
}

/// A divergent row that the backend gave is refused if and only if
/// `abort_divergent`: where the asserted table's history was read, and its row at
/// `index` diverges from the caller's migration of its version, finding the
/// migrations to apply ends in a divergent version exactly when `abort_divergent`.
///
/// This is stated of the checks in which nothing else is refused first once
/// `abort_divergent` is set: the caller's versions are unique, and with
/// `abort_missing` no row before the divergent one is missing.
pub proof fn law_divergent_row_is_refused<E>(
    statement: Seq<char>,
    standard: bool,
    desired: Seq<MigrationView>,
    abort_divergent: bool,
    abort_missing: bool,
    table_name: Seq<char>,
    before: Seq<Call<E>>,
    after: Seq<Call<E>>,
    r: Result<Vec<Migration>, Error<E>>,
    history: Seq<MigrationView>,
    index: int,
)
    requires
        unapplied_outcome_with(
            statement,
            standard,
            desired,
            abort_divergent,
            abort_missing,
            table_name,
            before,
            after,
            r,
        ),
        read_history(before, after, table_name, history),
        diverges(history, desired, index),
        abort_divergent ==> versions_unique(desired),
        abort_divergent && abort_missing ==> forall|j: int|
            0 <= j < index ==> !lacks(history, desired, j),
    ensures
        abort_divergent ==> r is Err && r->Err_0@.kind is DivergentVersion,
        !abort_divergent ==> !(r is Err && r->Err_0@.kind is DivergentVersion),
{
    law_divergence_detected(history, desired, abort_divergent, abort_missing, index);
}

/// A second fake run writes nothing: where the backend gave, as its history, the
/// rows that a fake run on an empty history wrote, a migration towards `Fake` with
/// the same migrations succeeds with an empty report, and the backend is asked
/// nothing after the query for the history.
///
/// `first` is what the check gives on the empty history; `history` holds one row for
/// each of them, with its version and checksum. This is stated of migrations none
/// of which is rerunnable: a rerunnable one is written again by every run.
pub proof fn law_second_fake_run_writes_nothing<E>(
    statement: Seq<char>,
    standard: bool,
    desired: Seq<MigrationView>,
    first: Seq<MigrationView>,
    abort_divergent: bool,
    abort_missing: bool,
    grouped: bool,
    table_name: Seq<char>,
    before: Seq<Call<E>>,
    after: Seq<Call<E>>,
    r: Result<Report, Error<E>>,
    history: Seq<MigrationView>,
)
    requires
        migration_outcome_with(
            statement,
            standard,
            desired,
            abort_divergent,
            abort_missing,
            grouped,
            Target::Fake,
            table_name,
            before,
            after,
            r,
        ),
        read_history(before, after, table_name, history),
        versions_unique(desired),
        forall|i: int| 0 <= i < desired.len() ==> (#[trigger] desired[i]).prefix != Type::Rerunnable,
        is_to_apply(first, Seq::empty(), desired),
        history.len() == first.len(),
        forall|i: int|
            0 <= i < first.len() ==> (#[trigger] history[i]).version == first[i].version
                && history[i].checksum == first[i].checksum,
    ensures
        r is Ok,
        r->Ok_0@ == Seq::<MigrationView>::empty(),
        after.len() == before.len() + 2,
{
    let target = Target::Fake;
    let asked = after.take(before.len() as int + 2);
    lemma_fake_history_accepted(desired, first, history, abort_divergent, abort_missing);
    let second = choose|second: Seq<MigrationView>| #[trigger]
        applied_outcome_with(
            second,
            history,
            desired,
            grouped,
            target,
            table_name,
            asked,
            after,
            r,
        );
    law_fake_is_idempotent(
        desired,
        first,
        history,
        second,
        abort_divergent,
        abort_missing,
        target,
        table_name,
        true,
    );
    let plan = Plan::start(marked(second, target), target, table_name, true);
    let stamps = choose|stamps: Seq<Seq<char>>| #[trigger]
        run_outcome_with(plan, asked, after, r, stamps);
    assert(plan.after(0) == plan);
    let run = after.skip(asked.len() as int);
    if stamps.len() > 0 {
        assert(step_handed(plan, stamps, run, 0));
    }
    assert(marked(second, target) =~= Seq::<MigrationView>::empty());
}

/// A missing version is detected: where an applied migration that is not rerunnable
/// has no counterpart among the caller's migrations, the check ends in a missing
/// version if and only if `abort_missing`.
///
/// This is stated of the checks in which nothing else is refused first once
/// `abort_missing` is set: the caller's versions are unique, and with
/// `abort_divergent` no applied migration before the missing one diverges.
pub proof fn law_missing_detected(
    applied: Seq<MigrationView>,
    desired: Seq<MigrationView>,
    abort_divergent: bool,
    abort_missing: bool,
    index: int,
)
    requires
        lacks(applied, desired, index),
        abort_missing ==> versions_unique(desired),
        abort_divergent && abort_missing ==> forall|j: int|
            0 <= j < index ==> !diverges(applied, desired, j),
    ensures
        verdict(applied, desired, abort_divergent, abort_missing) is Missing <==> abort_missing,
{
    let found = first_objection(applied, desired, abort_divergent, abort_missing, 0);
    lemma_first_objection_source(applied, desired, abort_divergent, abort_missing, 0);
    if abort_missing {
        lemma_unique_no_repeat(desired, 0);
        assert(objection(applied[index], desired, abort_divergent, abort_missing) is Missing);
        assert(!(found is Accepted));
        let j = choose|j: int|
            0 <= j < applied.len() && found == objection(
                #[trigger] applied[j],
                desired,
                abort_divergent,
                abort_missing,
            ) && forall|i: int|
                0 <= i < j ==> objection(
                    #[trigger] applied[i],
                    desired,
                    abort_divergent,
                    abort_missing,
                ) is Accepted;
        assert(j <= index);
        if j < index && abort_divergent {
            assert(!diverges(applied, desired, j));
        }
        assert(found is Missing);
    } else {
        if !(found is Accepted) {
            let j = choose|j: int|
                0 <= j < applied.len() && found == objection(
                    #[trigger] applied[j],
                    desired,
                    abort_divergent,
                    abort_missing,
                );
            assert(!(found is Missing));
        }
    }
}

/// A row that the backend gave and that the caller's migrations lack is refused if
/// and only if `abort_missing`: where the asserted table's history was read, and
/// its row at `index` has no counterpart, finding the migrations to apply ends in a
/// missing version exactly when `abort_missing`.
///
/// This is stated of the checks in which nothing else is refused first once
/// `abort_missing` is set: the caller's versions are unique, and with
/// `abort_divergent` no row before the missing one diverges.
pub proof fn law_missing_row_is_refused<E>(
    statement: Seq<char>,
    standard: bool,
    desired: Seq<MigrationView>,
    abort_divergent: bool,
    abort_missing: bool,
    table_name: Seq<char>,
    before: Seq<Call<E>>,
    after: Seq<Call<E>>,
    r: Result<Vec<Migration>, Error<E>>,
    history: Seq<MigrationView>,
    index: int,
)
    requires
        unapplied_outcome_with(
            statement,
            standard,
            desired,
            abort_divergent,
            abort_missing,
            table_name,
            before,
            after,
            r,
        ),
        read_history(before, after, table_name, history),
        lacks(history, desired, index),
        abort_missing ==> versions_unique(desired),
        abort_divergent && abort_missing ==> forall|j: int|
            0 <= j < index ==> !diverges(history, desired, j),
    ensures
        abort_missing ==> r is Err && r->Err_0@.kind is MissingVersion,
        !abort_missing ==> !(r is Err && r->Err_0@.kind is MissingVersion),
{
    law_missing_detected(history, desired, abort_divergent, abort_missing, index);
}

} // verus!
