//! The blocking driver: the steps of a run, the backend it drives, and the run
//! itself.

use vstd::prelude::*;
use vstd::string::*;
use itertools::Itertools;
use crate::clock::{current_timestamp, is_timestamp};
use crate::error::{is_connection, Error, Kind, WrapMigrationError};
use crate::runner::{clone_migrations, views, Migration, MigrationView, Report, Target, Type};
use crate::traits::{
    for_table, insert_migration_query, insert_query, is_to_apply, reports, verdict,
    verify_migrations, ASSERT_MIGRATIONS_TABLE_QUERY, GET_APPLIED_MIGRATIONS_QUERY,
    GET_LAST_APPLIED_MIGRATION_QUERY,
};

verus! {

/// Whether a run towards `target` applies `migration`: always without a version
/// bound; with one, if the version is not above it or the migration is rerunnable.
pub open spec fn applies(migration: MigrationView, target: Target) -> bool {
    match target.bound() {
        Some(bound) => migration.version <= bound || migration.prefix == Type::Rerunnable,
        None => true,
    }
}

/// Whether a run towards `target` applies `migration`.
pub fn migration_whether_apply(migration: &Migration, target: Target) -> (apply: bool)
    ensures
        apply == applies(migration@, target),
{
    match target {
        Target::Version(bound) | Target::FakeVersion(bound) => {
            !(bound < migration.version() && !matches!(migration.prefix(), Type::Rerunnable))
        },
        _ => true,
    }
}

/// The migrations of `migrations` that a run towards `target` applies, in order.
pub open spec fn selected(migrations: Seq<MigrationView>, target: Target) -> Seq<MigrationView>
    decreases migrations.len(),
{
    if migrations.len() == 0 {
        Seq::empty()
    } else {
        let before = selected(migrations.drop_last(), target);
        if applies(migrations.last(), target) {
            before.push(migrations.last())
        } else {
            before
        }
    }
}

/// `migrations` with those marked as applied that a run towards `target` applies.
pub open spec fn marked(migrations: Seq<MigrationView>, target: Target) -> Seq<MigrationView> {
    migrations.map_values(
        |m: MigrationView|
            if applies(m, target) {
                m.marked_applied()
            } else {
                m
            },
    )
}

/// The index of the first migration at or after `from` that a run towards `target`
/// applies, or the length of `migrations` where there is none.
pub open spec fn next_applied(migrations: Seq<MigrationView>, target: Target, from: int) -> int
    decreases migrations.len() - from,
{
    if from < 0 || from >= migrations.len() {
        migrations.len() as int
    } else if applies(migrations[from], target) {
        from
    } else {
        next_applied(migrations, target, from + 1)
    }
}

/// The views of a sequence of strings, in order.
pub open spec fn strings(list: Seq<String>) -> Seq<Seq<char>> {
    list.map_values(|s: String| s@)
}

/// `items` in order, with `separator` between each two.
pub open spec fn joined(items: Seq<Seq<char>>, separator: Seq<char>) -> Seq<char>
    decreases items.len(),
{
    if items.len() == 0 {
        Seq::empty()
    } else if items.len() == 1 {
        items[0]
    } else {
        joined(items.drop_last(), separator) + separator + items.last()
    }
}

/// The rendering of a list of migrations for a log line: their short texts,
/// separated by a comma and a space.
pub open spec fn display_of(migrations: Seq<MigrationView>) -> Seq<char> {
    joined(migrations.map_values(|m: MigrationView| m.text()), ", "@)
}

/// The statements of one batch: for each migration in order its body, unless the run
/// is fake, and then the write of its history row.
pub open spec fn batch_statements(
    migrations: Seq<MigrationView>,
    fake: bool,
    table_name: Seq<char>,
    applied_on: Seq<char>,
) -> Seq<Seq<char>>
    decreases migrations.len(),
{
    if migrations.len() == 0 {
        Seq::empty()
    } else {
        let before = batch_statements(migrations.drop_last(), fake, table_name, applied_on);
        let last = migrations.last();
        let insert = insert_query(last, table_name, applied_on);
        if fake {
            before.push(insert)
        } else {
            before.push(last.sql.unwrap()).push(insert)
        }
    }
}

/// Calls `itertools::Itertools::format` on the items with the separator, and writes
/// what it gives into a string.
///
/// Trusted: the result holds the items in order, with the separator between each two.
#[verifier::external_body]
fn join_with(items: &Vec<String>, separator: &str) -> (text: String)
    ensures
        text@ == joined(strings(items@), separator@),
{
    format!("{}", items.iter().format(separator))
}

/// How loud a log line is.
#[derive(Clone, Copy, Debug, PartialEq, Eq, Structural)]
pub enum LogLevel {
    Info,
    Debug,
}

/// The log line that is due before a step is executed.
#[derive(Debug)]
pub struct LogData {
    pub level: LogLevel,
    pub msg: &'static str,
}

/// What a step asks the backend to do.
#[derive(Debug)]
#[allow(inconsistent_fields)]
pub enum MigrateReusableResult {
    /// Every statement of the run, to be executed in one transaction.
    Batched { sql: Vec<String>, migrations_display: String },
    /// The body of one migration, to be executed in a transaction of its own.
    Itemized { sql: String, current_migration: Migration },
    /// The write of the history row of one migration, to be executed in a
    /// transaction of its own.
    ItemizedMetaInsert { sql: String, current_migration: Migration },
}

/// One step of a run.
#[derive(Debug)]
pub struct MigrateReusableIteratorItem {
    /// The log line that is due before the step is executed.
    pub log_before_tx: LogData,
    /// The migrations that the run has completed before this step.
    pub applied_migrations: Vec<Migration>,
    /// What to execute.
    pub result: MigrateReusableResult,
}

/// What a step asks the backend to do, as plain values.
#[allow(inconsistent_fields)]
pub enum Action {
    Batched { sql: Seq<Seq<char>>, migrations_display: Seq<char> },
    Itemized { sql: Seq<char>, current_migration: MigrationView },
    ItemizedMetaInsert { sql: Seq<char>, current_migration: MigrationView },
}

/// One step of a run, as plain values.
pub struct Step {
    pub level: LogLevel,
    pub msg: Seq<char>,
    pub applied_migrations: Seq<MigrationView>,
    pub action: Action,
}

impl View for MigrateReusableResult {
    type V = Action;

    open spec fn view(&self) -> Action {
        match self {
            MigrateReusableResult::Batched { sql, migrations_display } => Action::Batched {
                sql: strings(sql@),
                migrations_display: migrations_display@,
            },
            MigrateReusableResult::Itemized { sql, current_migration } => Action::Itemized {
                sql: sql@,
                current_migration: current_migration@,
            },
            MigrateReusableResult::ItemizedMetaInsert {
                sql,
                current_migration,
            } => Action::ItemizedMetaInsert { sql: sql@, current_migration: current_migration@ },
        }
    }
}

impl View for MigrateReusableIteratorItem {
    type V = Step;

    open spec fn view(&self) -> Step {
        Step {
            level: self.log_before_tx.level,
            msg: self.log_before_tx.msg@,
            applied_migrations: views(self.applied_migrations@),
            action: self.result@,
        }
    }
}

impl Action {
    /// The statements that the step hands to the backend, as one transaction.
    pub open spec fn statements(self) -> Seq<Seq<char>> {
        match self {
            Action::Batched { sql, .. } => sql,
            Action::Itemized { sql, .. } => seq![sql],
            Action::ItemizedMetaInsert { sql, .. } => seq![sql],
        }
    }

    /// The message of the error that a failure of the step gives.
    pub open spec fn failure_message(self) -> Seq<char> {
        match self {
            Action::Batched { .. } => "error applying batch migration"@,
            Action::Itemized { current_migration, .. } => "error applying single migration: "@
                + current_migration.name,
            Action::ItemizedMetaInsert { current_migration, .. } => "error applying update: "@
                + current_migration.name,
        }
    }
}

/// Where a run stands: the migrations it goes through, how it goes through them,
/// and how far it has got.
pub struct Plan {
    /// The migrations to go through, those to be applied marked as such.
    pub migrations: Seq<MigrationView>,
    pub target: Target,
    /// Whether the caller asked for a single transaction.
    pub batched: bool,
    /// The name of the history table.
    pub table_name: Seq<char>,
    /// The index from which the next migration is looked for.
    pub position: int,
    /// Whether the body of the migration at `position` has been handed out and the
    /// write of its history row is due.
    pub insert_due: bool,
}

impl Plan {
    /// A run at its start.
    pub open spec fn start(
        migrations: Seq<MigrationView>,
        target: Target,
        table_name: Seq<char>,
        batched: bool,
    ) -> Plan {
        Plan { migrations, target, batched, table_name, position: 0, insert_due: false }
    }

    /// Whether the run is one transaction: the caller asked for it, or the target is
    /// fake.
    pub open spec fn in_one_batch(self) -> bool {
        self.batched || self.target.is_fake()
    }

    /// Whether every migration carries its SQL body.
    pub open spec fn bodies_present(self) -> bool {
        forall|i: int| 0 <= i < self.migrations.len() ==> (#[trigger] self.migrations[i]).sql is Some
    }

    /// What holds of every run: the position lies within the migrations, each of which
    /// carries its body, and a history row is only due for a migration that the run
    /// applies by itself.
    pub open spec fn well_formed(self) -> bool {
        &&& 0 <= self.position <= self.migrations.len()
        &&& self.bodies_present()
        &&& self.insert_due ==> {
            &&& !self.in_one_batch()
            &&& self.position < self.migrations.len()
            &&& applies(self.migrations[self.position], self.target)
        }
    }

    /// The index of the migration that the next step is about, outside a batch.
    pub open spec fn current(self) -> int {
        next_applied(self.migrations, self.target, self.position)
    }

    /// Whether a step is left. In one batch that is so until the batch has been
    /// handed out, unless there is no migration at all; else while a migration to
    /// apply is left.
    pub open spec fn has_step(self) -> bool {
        if self.in_one_batch() {
            self.position < self.migrations.len()
        } else {
            self.current() < self.migrations.len()
        }
    }

    /// The migrations that the run has completed: none while the batch is
    /// outstanding, else those to apply before the current one.
    pub open spec fn completed(self) -> Seq<MigrationView> {
        if self.in_one_batch() {
            Seq::empty()
        } else {
            selected(self.migrations.take(self.current()), self.target)
        }
    }

    /// What the next step executes, stamped with the timestamp `applied_on`.
    pub open spec fn action(self, applied_on: Seq<char>) -> Action {
        if self.in_one_batch() {
            Action::Batched {
                sql: batch_statements(
                    selected(self.migrations, self.target),
                    self.target.is_fake(),
                    self.table_name,
                    applied_on,
                ),
                migrations_display: display_of(selected(self.migrations, self.target)),
            }
        } else if self.insert_due {
            Action::ItemizedMetaInsert {
                sql: insert_query(self.migrations[self.current()], self.table_name, applied_on),
                current_migration: self.migrations[self.current()],
            }
        } else {
            Action::Itemized {
                sql: self.migrations[self.current()].sql.unwrap(),
                current_migration: self.migrations[self.current()],
            }
        }
    }

    /// The next step, stamped with the timestamp `applied_on`.
    pub open spec fn step(self, applied_on: Seq<char>) -> Step {
        Step {
            level: if !self.in_one_batch() && self.insert_due {
                LogLevel::Debug
            } else {
                LogLevel::Info
            },
            msg: if self.in_one_batch() {
                "going to apply batch migrations in single transaction"@
            } else if self.insert_due {
                "applied migration, writing state to db"@
            } else {
                "applying migration"@
            },
            applied_migrations: self.completed(),
            action: self.action(applied_on),
        }
    }

    /// The run after its next step; a run that is through stays as it is.
    pub open spec fn advance(self) -> Plan {
        if !self.has_step() {
            self
        } else if self.in_one_batch() {
            Plan { position: self.migrations.len() as int, ..self }
        } else if self.insert_due {
            Plan { position: self.current() + 1, insert_due: false, ..self }
        } else {
            Plan { position: self.current(), insert_due: true, ..self }
        }
    }

    /// The message of the error that a failure of the next step gives.
    pub open spec fn failure_message(self) -> Seq<char> {
        self.action(Seq::empty()).failure_message()
    }

    /// A bound on the steps that are left, which falls with every step.
    pub open spec fn steps_left(self) -> int {
        if self.in_one_batch() {
            if self.position < self.migrations.len() {
                1
            } else {
                0
            }
        } else if self.insert_due {
            2 * (self.migrations.len() - self.position)
        } else {
            2 * (self.migrations.len() - self.position) + 1
        }
    }

    /// The run after `steps` steps.
    pub open spec fn after(self, steps: nat) -> Plan
        decreases steps,
    {
        if steps == 0 {
            self
        } else {
            self.after((steps - 1) as nat).advance()
        }
    }
}

/// Where `next_applied` points, the migration is applied, and none before it.
pub proof fn lemma_next_applied(migrations: Seq<MigrationView>, target: Target, from: int)
    requires
        0 <= from <= migrations.len(),
    ensures
        from <= next_applied(migrations, target, from) <= migrations.len(),
        next_applied(migrations, target, from) < migrations.len() ==> applies(
            migrations[next_applied(migrations, target, from)],
            target,
        ),
        forall|k: int|
            from <= k < next_applied(migrations, target, from) ==> !applies(
                #[trigger] migrations[k],
                target,
            ),
    decreases migrations.len() - from,
{
    if from < migrations.len() && !applies(migrations[from], target) {
        lemma_next_applied(migrations, target, from + 1);
    }
}

/// Taking one more migration adds it to the selected ones if it is applied.
pub proof fn lemma_selected_step(migrations: Seq<MigrationView>, target: Target, upto: int)
    requires
        0 <= upto < migrations.len(),
    ensures
        selected(migrations.take(upto + 1), target) == if applies(migrations[upto], target) {
            selected(migrations.take(upto), target).push(migrations[upto])
        } else {
            selected(migrations.take(upto), target)
        },
{
    assert(migrations.take(upto + 1).drop_last() =~= migrations.take(upto));
}

/// A well-formed run stays well-formed over a step.
pub proof fn lemma_advance_well_formed(plan: Plan)
    requires
        plan.well_formed(),
        plan.has_step(),
    ensures
        plan.advance().well_formed(),
        plan.advance().migrations == plan.migrations,
        plan.advance().target == plan.target,
        plan.advance().batched == plan.batched,
        plan.advance().table_name == plan.table_name,
        0 <= plan.advance().steps_left() < plan.steps_left(),
{
    lemma_next_applied(plan.migrations, plan.target, plan.position);
}

/// What a run is made from.
pub struct MigrateReusableIteratorArgs<'mtn> {
    migrations: Vec<Migration>,
    target: Target,
    batched: bool,
    migration_table_name: &'mtn str,
}

impl<'mtn> MigrateReusableIteratorArgs<'mtn> {
    /// The run at its start that the arguments describe.
    pub closed spec fn plan(&self) -> Plan {
        Plan::start(
            views(self.migrations@),
            self.target,
            self.migration_table_name@,
            self.batched,
        )
    }

    /// The arguments of a run through `migrations` towards `target`, in one
    /// transaction if `batched`, with the history table `migration_table_name`.
    pub fn new(
        migrations: Vec<Migration>,
        target: Target,
        batched: bool,
        migration_table_name: &'mtn str,
    ) -> (args: Self)
        ensures
            args.plan() == Plan::start(
                views(migrations@),
                target,
                migration_table_name@,
                batched,
            ),
    {
        MigrateReusableIteratorArgs { migrations, target, batched, migration_table_name }
    }
}

/// The steps of a run, handed out one at a time.
pub struct MigrateReusableIterator<'mtn> {
    args: MigrateReusableIteratorArgs<'mtn>,
    iter_state: usize,
    insert_due: bool,
}

impl<'mtn> View for MigrateReusableIterator<'mtn> {
    type V = Plan;

    closed spec fn view(&self) -> Plan {
        Plan { position: self.iter_state as int, insert_due: self.insert_due, ..self.args.plan() }
    }
}

impl<'mtn> MigrateReusableIterator<'mtn> {
    #[verifier::type_invariant]
    spec fn well_formed(&self) -> bool {
        self@.well_formed()
    }

    /// The steps of the run that `args` describe, from the start.
    pub fn new(args: MigrateReusableIteratorArgs<'mtn>) -> (iter: Self)
        requires
            args.plan().bodies_present(),
        ensures
            iter@ == args.plan(),
            iter@.well_formed(),
    {
        MigrateReusableIterator { args, iter_state: 0, insert_due: false }
    }

    /// Whether the run is one transaction.
    fn in_one_batch(&self) -> (b: bool)
        ensures
            b == self@.in_one_batch(),
    {
        self.args.batched || self.args.target.fake()
    }

    /// The index of the migration that the next step is about, outside a batch.
    fn current(&self) -> (at: usize)
        ensures
            at == self@.current(),
            at <= self@.migrations.len(),
            self@.well_formed(),
    {
        proof {
            use_type_invariant(self);
        }
        let ghost all = views(self.args.migrations@);
        let target = self.args.target;
        let mut at: usize = self.iter_state;
        while at < self.args.migrations.len() && !migration_whether_apply(
            &self.args.migrations[at],
            target,
        )
            invariant
                at <= self.args.migrations@.len(),
                all == views(self.args.migrations@),
                next_applied(all, target, at as int) == next_applied(
                    all,
                    target,
                    self.iter_state as int,
                ),
            decreases self.args.migrations@.len() - at,
        {
            at = at + 1;
        }
        at
    }

    /// Whether a step is left.
    pub fn has_next(&self) -> (more: bool)
        ensures
            more == self@.has_step(),
            self@.well_formed(),
    {
        proof {
            use_type_invariant(self);
        }
        if self.in_one_batch() {
            self.iter_state < self.args.migrations.len()
        } else {
            self.current() < self.args.migrations.len()
        }
    }

    /// Copies of the migrations to apply among the first `upto`.
    fn applied_before(&self, upto: usize) -> (list: Vec<Migration>)
        requires
            upto <= self@.migrations.len(),
        ensures
            views(list@) == selected(self@.migrations.take(upto as int), self@.target),
    {
        let ghost all = views(self.args.migrations@);
        let target = self.args.target;
        let mut list: Vec<Migration> = Vec::new();
        let mut i: usize = 0;
        assert(all.take(0) =~= Seq::<MigrationView>::empty());
        assert(views(list@) =~= Seq::<MigrationView>::empty());
        while i < upto
            invariant
                i <= upto <= self.args.migrations@.len(),
                all == views(self.args.migrations@),
                views(list@) == selected(all.take(i as int), target),
            decreases upto - i,
        {
            proof {
                lemma_selected_step(all, target, i as int);
            }
            if migration_whether_apply(&self.args.migrations[i], target) {
                let ghost before = views(list@);
                list.push(self.args.migrations[i].clone());
                assert(views(list@) =~= before.push(all[i as int]));
            }
            i = i + 1;
        }
        list
    }

    /// The statements of the batch, stamped with `applied_on`.
    fn batch(&self, applied_on: &str) -> (sql: Vec<String>)
        ensures
            strings(sql@) == batch_statements(
                selected(self@.migrations, self@.target),
                self@.target.is_fake(),
                self@.table_name,
                applied_on@,
            ),
    {
        proof {
            use_type_invariant(self);
        }
        let ghost all = views(self.args.migrations@);
        let target = self.args.target;
        let fake = target.fake();
        let total = self.args.migrations.len();
        let mut sql: Vec<String> = Vec::new();
        let mut i: usize = 0;
        assert(all.take(0) =~= Seq::<MigrationView>::empty());
        assert(strings(sql@) =~= Seq::<Seq<char>>::empty());
        while i < total
            invariant
                i <= total == self.args.migrations@.len(),
                all == views(self.args.migrations@),
                self@.bodies_present(),
                self@.migrations == all,
                fake == target.is_fake(),
                strings(sql@) == batch_statements(
                    selected(all.take(i as int), target),
                    fake,
                    self.args.migration_table_name@,
                    applied_on@,
                ),
            decreases total - i,
        {
            proof {
                lemma_selected_step(all, target, i as int);
            }
            let migration = &self.args.migrations[i];
            if migration_whether_apply(migration, target) {
                let ghost before = strings(sql@);
                let ghost chosen = selected(all.take(i as int), target);
                assert(chosen.push(all[i as int]).drop_last() =~= chosen);
                assert(all[i as int].sql is Some);
                if !fake {
                    let body = migration.sql().unwrap();
                    sql.push(String::from_str(body));
                    assert(strings(sql@) =~= before.push(all[i as int].sql.unwrap()));
                }
                let ghost with_body = strings(sql@);
                sql.push(
                    insert_migration_query(migration, self.args.migration_table_name, applied_on),
                );
                assert(strings(sql@) =~= with_body.push(
                    insert_query(all[i as int], self.args.migration_table_name@, applied_on@),
                ));
            }
            i = i + 1;
        }
        assert(all.take(total as int) =~= all);
        sql
    }

    /// The rendering of the migrations of the batch for a log line.
    fn batch_display(&self) -> (text: String)
        ensures
            text@ == display_of(selected(self@.migrations, self@.target)),
    {
        let ghost all = views(self.args.migrations@);
        let target = self.args.target;
        let total = self.args.migrations.len();
        let mut texts: Vec<String> = Vec::new();
        let mut i: usize = 0;
        assert(all.take(0) =~= Seq::<MigrationView>::empty());
        assert(strings(texts@) =~= selected(all.take(0), target).map_values(
            |m: MigrationView| m.text(),
        ));
        while i < total
            invariant
                i <= total == self.args.migrations@.len(),
                all == views(self.args.migrations@),
                strings(texts@) == selected(all.take(i as int), target).map_values(
                    |m: MigrationView| m.text(),
                ),
            decreases total - i,
        {
            proof {
                lemma_selected_step(all, target, i as int);
            }
            let migration = &self.args.migrations[i];
            if migration_whether_apply(migration, target) {
                let ghost before = strings(texts@);
                texts.push(migration.to_text());
                assert(strings(texts@) =~= before.push(all[i as int].text()));
                assert(selected(all.take(i as int), target).push(all[i as int]).map_values(
                    |m: MigrationView| m.text(),
                ) =~= before.push(all[i as int].text()));
            }
            i = i + 1;
        }
        assert(all.take(total as int) =~= all);
        proof {
            reveal_strlit(", ");
        }
        join_with(&texts, ", ")
    }

    /// Hands out the next step of the run, or `None` when the run is through.
    ///
    /// `applied_on` is the RFC 3339 timestamp that the history rows written by the
    /// step carry.
    pub fn next(&mut self, applied_on: &str) -> (item: Option<MigrateReusableIteratorItem>)
        ensures
            old(self)@.well_formed(),
            final(self)@.well_formed(),
            match item {
                Some(step) => {
                    &&& old(self)@.has_step()
                    &&& step@ == old(self)@.step(applied_on@)
                    &&& final(self)@ == old(self)@.advance()
                },
                None => !old(self)@.has_step() && final(self)@ == old(self)@,
            },
    {
        proof {
            use_type_invariant(&*self);
            lemma_next_applied(self@.migrations, self@.target, self@.position);
        }
        let total = self.args.migrations.len();
        if self.in_one_batch() {
            if self.iter_state < total {
                let sql = self.batch(applied_on);
                let migrations_display = self.batch_display();
                self.iter_state = total;
                let applied_migrations: Vec<Migration> = Vec::new();
                assert(views(applied_migrations@) =~= Seq::<MigrationView>::empty());
                Some(
                    MigrateReusableIteratorItem {
                        log_before_tx: LogData {
                            level: LogLevel::Info,
                            msg: "going to apply batch migrations in single transaction",
                        },
                        applied_migrations,
                        result: MigrateReusableResult::Batched { sql, migrations_display },
                    },
                )
            } else {
                None
            }
        } else {
            let current = self.current();
            if current >= total {
                return None;
            }
            let applied_migrations = self.applied_before(current);
            let current_migration = self.args.migrations[current].clone();
            if self.insert_due {
                let sql = insert_migration_query(
                    &current_migration,
                    self.args.migration_table_name,
                    applied_on,
                );
                self.insert_due = false;
                self.iter_state = current + 1;
                Some(
                    MigrateReusableIteratorItem {
                        log_before_tx: LogData {
                            level: LogLevel::Debug,
                            msg: "applied migration, writing state to db",
                        },
                        applied_migrations,
                        result: MigrateReusableResult::ItemizedMetaInsert {
                            sql,
                            current_migration,
                        },
                    },
                )
            } else {
                assert(self@.migrations[current as int].sql is Some);
                let sql = String::from_str(current_migration.sql().unwrap());
                self.iter_state = current;
                self.insert_due = true;
                Some(
                    MigrateReusableIteratorItem {
                        log_before_tx: LogData { level: LogLevel::Info, msg: "applying migration" },
                        applied_migrations,
                        result: MigrateReusableResult::Itemized { sql, current_migration },
                    },
                )
            }
        }
    }

    /// Copies of the migrations that the run has completed before its next step.
    pub fn completed(&self) -> (list: Vec<Migration>)
        ensures
            views(list@) == self@.completed(),
    {
        if self.in_one_batch() {
            let list: Vec<Migration> = Vec::new();
            assert(views(list@) =~= Seq::<MigrationView>::empty());
            list
        } else {
            self.applied_before(self.current())
        }
    }

    /// The migrations that the run applies, in order.
    pub fn applied(self) -> (list: Vec<Migration>)
        ensures
            views(list@) == selected(self@.migrations, self@.target),
    {
        let list = self.applied_before(self.args.migrations.len());
        assert(self@.migrations.take(self@.migrations.len() as int) =~= self@.migrations);
        list
    }
}

impl MigrateReusableResult {
    /// The message of the error that a failure of the step gives.
    pub fn failure_message(&self) -> (msg: String)
        ensures
            msg@ == self@.failure_message(),
    {
        match self {
            MigrateReusableResult::Batched { .. } => String::from_str(
                "error applying batch migration",
            ),
            MigrateReusableResult::Itemized { current_migration, .. } => {
                let mut msg = String::from_str("error applying single migration: ");
                msg.append(current_migration.name());
                msg
            },
            MigrateReusableResult::ItemizedMetaInsert { current_migration, .. } => {
                let mut msg = String::from_str("error applying update: ");
                msg.append(current_migration.name());
                msg
            },
        }
    }

    /// The statements that the step hands to the backend, as one transaction.
    pub fn into_statements(self) -> (queries: Vec<String>)
        ensures
            strings(queries@) == self@.statements(),
    {
        match self {
            MigrateReusableResult::Batched { sql, .. } => sql,
            MigrateReusableResult::Itemized { sql, .. } => {
                let mut queries: Vec<String> = Vec::new();
                queries.push(sql);
                assert(strings(queries@) =~= seq![sql@]);
                queries
            },
            MigrateReusableResult::ItemizedMetaInsert { sql, .. } => {
                let mut queries: Vec<String> = Vec::new();
                queries.push(sql);
                assert(strings(queries@) =~= seq![sql@]);
                queries
            },
        }
    }
}

/// Prepares a run through `migrations` towards `target`: marks the migrations that
/// the run applies as applied, and gives the steps of the run from the start.
pub fn migrate_reusable<'mtn>(
    migrations: Vec<Migration>,
    target: Target,
    migration_table_name: &'mtn str,
    batched: bool,
) -> (iter: MigrateReusableIterator<'mtn>)
    requires
        forall|i: int| 0 <= i < migrations@.len() ==> (#[trigger] views(migrations@)[i]).sql is Some,
    ensures
        iter@ == Plan::start(
            marked(views(migrations@), target),
            target,
            migration_table_name@,
            batched,
        ),
        iter@.well_formed(),
{
    let ghost given = views(migrations@);
    let mut migrations = migrations;
    let mut i: usize = 0;
    while i < migrations.len()
        invariant
            i <= migrations@.len(),
            migrations@.len() == given.len(),
            forall|k: int| 0 <= k < i ==> (#[trigger] views(migrations@)[k]) == marked(given, target)[k],
            forall|k: int| i <= k < given.len() ==> (#[trigger] views(migrations@)[k]) == given[k],
        decreases migrations@.len() - i,
    {
        let ghost so_far = views(migrations@);
        if migration_whether_apply(&migrations[i], target) {
            let mut migration = migrations[i].clone();
            migration.set_applied();
            assert(so_far[i as int] == given[i as int]);
            assert(migration@ == given[i as int].marked_applied());
            migrations.set(i, migration);
            assert(views(migrations@) =~= so_far.update(i as int, given[i as int].marked_applied()));
        }
        i = i + 1;
    }
    assert(views(migrations@) =~= marked(given, target));
    MigrateReusableIterator::new(
        MigrateReusableIteratorArgs::new(migrations, target, batched, migration_table_name),
    )
}

/// Rows that a backend reads, taken as the history that they record.
pub trait Rows {
    /// The history that the rows record, in their order.
    spec fn history(&self) -> Seq<MigrationView>;
}

impl Rows for Vec<Migration> {
    open spec fn history(&self) -> Seq<MigrationView> {
        views(self@)
    }
}

/// One call of a backend, with what it was handed and what it gave.
#[allow(inconsistent_fields)]
pub enum Call<E> {
    /// A call of `execute`: the statements of the transaction, and their number or
    /// the error of the backend.
    Execute { statements: Seq<Seq<char>>, outcome: Result<usize, E> },
    /// A call of `query`: the query, and the history that its rows record or the
    /// error of the backend.
    Query { query: Seq<char>, outcome: Result<Seq<MigrationView>, E> },
}

impl<E> Call<E> {
    /// The call of `execute` with the given statements and outcome.
    pub open spec fn execute(statements: Seq<Seq<char>>, outcome: Result<usize, E>) -> Call<E> {
        Call::Execute { statements, outcome }
    }

    /// The call of `query` with the given query and outcome.
    pub open spec fn query(query: Seq<char>, outcome: Result<Seq<MigrationView>, E>) -> Call<E> {
        Call::Query { query, outcome }
    }

    /// Whether the call is an `execute` that was handed the given statements.
    pub open spec fn executes(self, statements: Seq<Seq<char>>) -> bool {
        match self {
            Call::Execute { statements: handed, .. } => handed == statements,
            _ => false,
        }
    }

    /// Whether the call is an `execute` that committed its transaction, and gave the
    /// number of its statements.
    pub open spec fn committed(self) -> bool {
        match self {
            Call::Execute { statements, outcome: Ok(count) } => count == statements.len(),
            _ => false,
        }
    }

    /// Whether the call failed, with the error `source`.
    pub open spec fn failed_with(self, source: E) -> bool {
        match self {
            Call::Execute { outcome: Err(e), .. } => e == source,
            Call::Query { outcome: Err(e), .. } => e == source,
            _ => false,
        }
    }
}

/// What a call of `query` gave, as the log of calls holds it.
pub open spec fn answer<T: Rows, E>(r: Result<T, E>) -> Result<Seq<MigrationView>, E> {
    match r {
        Ok(rows) => Ok(rows.history()),
        Err(source) => Err(source),
    }
}

/// A backend that executes statements in transactions.
pub trait Transaction {
    /// The error of the backend.
    type Error;

    /// The calls that the backend has taken, oldest first, each with what it was
    /// handed and what it gave. A backend that is verified states its own model; one
    /// that is not leaves this as it is.
    open spec fn calls(&self) -> Seq<Call<Self::Error>> {
        arbitrary()
    }

    /// Executes the statements in order within one transaction and gives their
    /// number. On a failure the transaction is rolled back and nothing of it stays:
    /// what the database holds is what the calls that did not fail have committed.
    fn execute(&mut self, queries: &[String]) -> (r: Result<usize, Self::Error>)
        ensures
            final(self).calls() == old(self).calls().push(Call::execute(strings(queries@), r)),
            r matches Ok(count) ==> count == queries@.len(),
    ;
}

/// A backend that can also read rows.
pub trait Query<T: Rows>: Transaction {
    /// Runs one statement in a transaction of its own and gives its rows.
    fn query(&mut self, query: &str) -> (r: Result<T, Self::Error>)
        ensures
            final(self).calls() == old(self).calls().push(Call::query(query@, answer(r))),
    ;
}

/// Whether `run` holds the calls of the first steps of `plan`, one for each of
/// `stamps`: each is a step of the plan, and hands the backend the transaction of that
/// step, stamped with a timestamp that can be read back.
pub open spec fn steps_handed<E>(plan: Plan, stamps: Seq<Seq<char>>, run: Seq<Call<E>>) -> bool {
    &&& run.len() == stamps.len()
    &&& forall|k: int| 0 <= k < stamps.len() ==> #[trigger] step_handed(plan, stamps, run, k)
}

/// Whether call `k` of `run` is step `k` of `plan`, handed to the backend with the
/// timestamp `stamps[k]`, which can be read back.
pub open spec fn step_handed<E>(
    plan: Plan,
    stamps: Seq<Seq<char>>,
    run: Seq<Call<E>>,
    k: int,
) -> bool {
    &&& plan.after(k as nat).has_step()
    &&& is_timestamp(stamps[k])
    &&& run[k].executes(plan.after(k as nat).action(stamps[k]).statements())
}

/// One more step that is handed to the backend adds its call to those of the run.
pub proof fn lemma_one_more_step<E>(
    plan: Plan,
    stamps: Seq<Seq<char>>,
    run: Seq<Call<E>>,
    stamp: Seq<char>,
    call: Call<E>,
)
    requires
        steps_handed(plan, stamps, run),
        plan.after(stamps.len()).has_step(),
        is_timestamp(stamp),
        call.executes(plan.after(stamps.len()).action(stamp).statements()),
    ensures
        steps_handed(plan, stamps.push(stamp), run.push(call)),
        forall|upto: int|
            0 <= upto <= run.len() && all_committed(run, upto) ==> #[trigger] all_committed(
                run.push(call),
                upto,
            ),
        all_committed(run, run.len() as int) && call.committed() ==> all_committed(
            run.push(call),
            run.len() as int + 1,
        ),
{
    let longer = stamps.push(stamp);
    let now = run.push(call);
    assert forall|k: int| 0 <= k < longer.len() implies #[trigger] step_handed(
        plan,
        longer,
        now,
        k,
    ) by {
        if k < stamps.len() {
            assert(step_handed(plan, stamps, run, k));
            assert(now[k] == run[k]);
            assert(longer[k] == stamps[k]);
        }
    }
    assert forall|upto: int| 0 <= upto <= run.len() && all_committed(run, upto) implies #[trigger]
        all_committed(now, upto) by {
        assert forall|k: int| 0 <= k < upto implies (#[trigger] now[k]).committed() by {
            assert(now[k] == run[k]);
        }
    }
    if all_committed(run, run.len() as int) && call.committed() {
        assert forall|k: int| 0 <= k < run.len() + 1 implies (#[trigger] now[k]).committed() by {
            if k < run.len() {
                assert(now[k] == run[k]);
            }
        }
    }
}

/// Whether the first `upto` calls of `run` are transactions that were committed.
pub open spec fn all_committed<E>(run: Seq<Call<E>>, upto: int) -> bool {
    forall|k: int| 0 <= k < upto ==> (#[trigger] run[k]).committed()
}

/// What a run of `plan` leaves, where `stamps` holds the timestamp of each step that
/// was handed to the backend.
///
/// The backend has taken one call for each of those steps, in order, and nothing
/// else. A successful run has committed every step of the plan and reports the
/// migrations that the plan applies. A failed run has committed every step before the
/// one at which it stopped, and its error carries the migrations completed before that
/// step. Either the backend refused that step: then the error is a connection error
/// with the message of the step and the error of the backend. Or no timestamp was to
/// be had for it: then the step was not handed to the backend.
pub open spec fn run_outcome_with<E>(
    plan: Plan,
    before: Seq<Call<E>>,
    after: Seq<Call<E>>,
    r: Result<Report, Error<E>>,
    stamps: Seq<Seq<char>>,
) -> bool {
    let run = after.skip(before.len() as int);
    &&& before.len() <= after.len()
    &&& after.take(before.len() as int) == before
    &&& steps_handed(plan, stamps, run)
    &&& match r {
        Ok(report) => {
            &&& all_committed(run, run.len() as int)
            &&& !plan.after(stamps.len()).has_step()
            &&& report@ == selected(plan.migrations, plan.target)
        },
        Err(e) => match e@.kind {
            Kind::TimestampUnavailable => {
                &&& all_committed(run, run.len() as int)
                &&& plan.after(stamps.len()).has_step()
                &&& e@.report == Some(plan.after(stamps.len()).completed())
            },
            Kind::Connection(msg, source) => {
                &&& run.len() > 0
                &&& all_committed(run, run.len() - 1)
                &&& run.last().failed_with(source)
                &&& msg@ == plan.after((stamps.len() - 1) as nat).failure_message()
                &&& e@.report == Some(plan.after((stamps.len() - 1) as nat).completed())
            },
            _ => false,
        },
    }
}

/// What a run of `plan` leaves, whatever the timestamps of its steps were.
pub open spec fn run_outcome<E>(
    plan: Plan,
    before: Seq<Call<E>>,
    after: Seq<Call<E>>,
    r: Result<Report, Error<E>>,
) -> bool {
    exists|stamps: Seq<Seq<char>>| #[trigger] run_outcome_with(plan, before, after, r, stamps)
}

/// Applies `migrations` in their order towards `target`.
///
/// In one transaction if `batched` or the target is fake, else each migration body
/// and each history row in a transaction of its own. Each step is stamped with the
/// current time. Stops at the first failure.
pub fn migrate<T: Transaction>(
    transaction: &mut T,
    migrations: Vec<Migration>,
    target: Target,
    migration_table_name: &str,
    batched: bool,
) -> (r: Result<Report, Error<T::Error>>)
    requires
        forall|i: int| 0 <= i < migrations@.len() ==> (#[trigger] views(migrations@)[i]).sql is Some,
    ensures
        run_outcome(
            Plan::start(
                marked(views(migrations@), target),
                target,
                migration_table_name@,
                batched,
            ),
            old(transaction).calls(),
            final(transaction).calls(),
            r,
        ),
{
    let ghost given = views(migrations@);
    let mut iter = migrate_reusable(migrations, target, migration_table_name, batched);
    let ghost plan = iter@;
    let ghost before = transaction.calls();
    let ghost mut stamps: Seq<Seq<char>> = Seq::empty();
    assert(before.take(before.len() as int) =~= before);
    while iter.has_next()
        invariant
            given == views(migrations@),
            plan == Plan::start(marked(given, target), target, migration_table_name@, batched),
            before == old(transaction).calls(),
            iter@ == plan.after(stamps.len()),
            iter@.well_formed(),
            iter@.migrations == plan.migrations,
            iter@.target == plan.target,
            before.len() <= transaction.calls().len(),
            transaction.calls().take(before.len() as int) == before,
            steps_handed(plan, stamps, transaction.calls().skip(before.len() as int)),
            all_committed(
                transaction.calls().skip(before.len() as int),
                stamps.len() as int,
            ),
        decreases iter@.steps_left(),
    {
        let ghost reached = iter@;
        let ghost so_far = transaction.calls();
        let stamp = match current_timestamp() {
            Some(stamp) => stamp,
            None => {
                let report = Report::new(iter.completed());
                let failure = Error::new(Kind::TimestampUnavailable, Some(report));
                assert(run_outcome_with(
                    plan,
                    before,
                    transaction.calls(),
                    Err::<Report, Error<T::Error>>(failure),
                    stamps,
                ));
                return Err(failure);
            },
        };
        let step = iter.next(stamp.as_str()).unwrap();
        let MigrateReusableIteratorItem { log_before_tx: _, applied_migrations, result } = step;
        let message = result.failure_message();
        let queries = result.into_statements();
        let report = Report::new(applied_migrations);
        let taken = transaction.execute(queries.as_slice());
        proof {
            let longer = stamps.push(stamp@);
            let call = Call::execute(strings(queries@), taken);
            let run = so_far.skip(before.len() as int);
            let now = transaction.calls().skip(before.len() as int);
            lemma_advance_well_formed(reached);
            assert(plan.after(longer.len()) == reached.advance());
            assert(now =~= run.push(call));
            assert(transaction.calls().take(before.len() as int) =~= so_far.take(
                before.len() as int,
            ));
            lemma_one_more_step(plan, stamps, run, stamp@, call);
            assert(now.last() == call);
            stamps = longer;
        }
        match taken.migration_err(message.as_str(), Some(report)) {
            Ok(_) => {},
            Err(failure) => {
                assert(run_outcome_with(
                    plan,
                    before,
                    transaction.calls(),
                    Err::<Report, Error<T::Error>>(failure),
                    stamps,
                ));
                return Err(failure);
            },
        }
    }
    let report = Report::new(iter.applied());
    assert(run_outcome_with(
        plan,
        before,
        transaction.calls(),
        Ok::<Report, Error<T::Error>>(report),
        stamps,
    ));
    Ok(report)
}

/// Whether `r` is a connection error with the message `msg` that carries the error
/// `source` of the backend, and no report.
pub open spec fn connection_failure<T, E>(r: Result<T, Error<E>>, msg: Seq<char>, source: E) -> bool {
    match r {
        Err(e) => is_connection(e@.kind, msg, source) && e@.report is None,
        Ok(_) => false,
    }
}

/// Whether `after` is `before` with one more call at its end.
pub open spec fn one_more<E>(before: Seq<Call<E>>, after: Seq<Call<E>>) -> bool {
    after.len() == before.len() + 1 && after.drop_last() == before
}

/// What asserting the history table with `statement` leaves.
///
/// The statement is the standard one if the backend is `standard`. The backend has
/// taken one more call: the execution of a transaction of that one statement. Where
/// it was committed the result is its count of one; where it failed the result is a
/// connection error that carries the failure.
pub open spec fn table_asserted<E>(
    statement: Seq<char>,
    standard: bool,
    table_name: Seq<char>,
    before: Seq<Call<E>>,
    after: Seq<Call<E>>,
    r: Result<usize, Error<E>>,
) -> bool {
    &&& standard ==> statement == for_table(ASSERT_MIGRATIONS_TABLE_QUERY@, table_name)
    &&& one_more(before, after)
    &&& match after.last() {
        Call::Execute { statements, outcome } => statements == seq![statement] && match outcome {
            Ok(count) => count == 1 && r == Ok::<usize, Error<E>>(count),
            Err(source) => connection_failure(r, "error asserting migrations table"@, source),
        },
        _ => false,
    }
}

/// What reading the history with `query` leaves.
///
/// The backend has taken one more call: that query. Where it gave rows the result is
/// rows that record the same history; where it failed the result is a connection
/// error with the message `msg` that carries the failure.
pub open spec fn history_read<E>(
    query: Seq<char>,
    msg: Seq<char>,
    before: Seq<Call<E>>,
    after: Seq<Call<E>>,
    r: Result<Vec<Migration>, Error<E>>,
) -> bool {
    &&& one_more(before, after)
    &&& match after.last() {
        Call::Query { query: asked, outcome } => asked == query && match outcome {
            Ok(history) => match r {
                Ok(rows) => views(rows@) == history,
                Err(_) => false,
            },
            Err(source) => connection_failure(r, msg, source),
        },
        _ => false,
    }
}

/// The last entry of a history, if there is any.
pub open spec fn last_entry(history: Seq<MigrationView>) -> Option<MigrationView> {
    if history.len() == 0 {
        None
    } else {
        Some(history.last())
    }
}

/// What reading the last history row with `query` leaves.
///
/// The backend has taken one more call: that query. Where it gave rows the result is
/// the last of them, or `None` if there is none; where it failed the result is a
/// connection error with the message `msg` that carries the failure.
pub open spec fn last_read<E>(
    query: Seq<char>,
    msg: Seq<char>,
    before: Seq<Call<E>>,
    after: Seq<Call<E>>,
    r: Result<Option<Migration>, Error<E>>,
) -> bool {
    &&& one_more(before, after)
    &&& match after.last() {
        Call::Query { query: asked, outcome } => asked == query && match outcome {
            Ok(history) => match r {
                Ok(Some(last)) => last_entry(history) == Some(last@),
                Ok(None) => last_entry(history) is None,
                Err(_) => false,
            },
            Err(source) => connection_failure(r, msg, source),
        },
        _ => false,
    }
}

/// What the check of `desired` against the history `applied` leaves: the list to
/// apply, or the error that reports the verdict of the check, without a report.
pub open spec fn checked_outcome<E>(
    applied: Seq<MigrationView>,
    desired: Seq<MigrationView>,
    abort_divergent: bool,
    abort_missing: bool,
    r: Result<Vec<Migration>, Error<E>>,
) -> bool {
    match r {
        Ok(list) => verdict(applied, desired, abort_divergent, abort_missing) is Accepted
            && is_to_apply(views(list@), applied, desired),
        Err(e) => e@.report is None && reports(
            e@.kind,
            verdict(applied, desired, abort_divergent, abort_missing),
        ),
    }
}

/// What finding the migrations to apply leaves, where the history table was asserted
/// with `statement`.
///
/// The statement is the standard one if the backend is `standard`. The backend has
/// first been handed a transaction of that one statement. Where that failed, nothing
/// else was asked of the backend and the result is a connection error that carries
/// the failure. Else the backend has then been asked the query for every history row,
/// once, and nothing else. Where that failed, the result is a connection error that
/// carries the failure. Else the result is what the check of `desired` against the
/// history that the backend gave leaves.
pub open spec fn unapplied_outcome_with<E>(
    statement: Seq<char>,
    standard: bool,
    desired: Seq<MigrationView>,
    abort_divergent: bool,
    abort_missing: bool,
    table_name: Seq<char>,
    before: Seq<Call<E>>,
    after: Seq<Call<E>>,
    r: Result<Vec<Migration>, Error<E>>,
) -> bool {
    let first = before.len() as int;
    &&& standard ==> statement == for_table(ASSERT_MIGRATIONS_TABLE_QUERY@, table_name)
    &&& first < after.len()
    &&& after.take(first) == before
    &&& match after[first] {
        Call::Execute { statements, outcome: Err(source) } => {
            &&& statements == seq![statement]
            &&& after.len() == first + 1
            &&& connection_failure(r, "error asserting migrations table"@, source)
        },
        Call::Execute { statements, outcome: Ok(count) } => {
            &&& statements == seq![statement]
            &&& count == 1
            &&& after.len() == first + 2
            &&& match after[first + 1] {
                Call::Query { query, outcome } => {
                    &&& query == for_table(GET_APPLIED_MIGRATIONS_QUERY@, table_name)
                    &&& match outcome {
                        Ok(history) => checked_outcome(
                            history,
                            desired,
                            abort_divergent,
                            abort_missing,
                            r,
                        ),
                        Err(source) => connection_failure(
                            r,
                            "error getting applied migrations"@,
                            source,
                        ),
                    }
                },
                _ => false,
            }
        },
        _ => false,
    }
}

/// What finding the migrations to apply leaves, whatever statement asserted the
/// history table.
pub open spec fn unapplied_outcome<E>(
    standard: bool,
    desired: Seq<MigrationView>,
    abort_divergent: bool,
    abort_missing: bool,
    table_name: Seq<char>,
    before: Seq<Call<E>>,
    after: Seq<Call<E>>,
    r: Result<Vec<Migration>, Error<E>>,
) -> bool {
    exists|statement: Seq<char>| #[trigger]
        unapplied_outcome_with(
            statement,
            standard,
            desired,
            abort_divergent,
            abort_missing,
            table_name,
            before,
            after,
            r,
        )
}

/// What the run through what is to apply of `desired`, given the history `applied`,
/// leaves after the calls `asked`: the outcome of the run through `list`, which is
/// what is to apply. The run is one transaction if `grouped` or the target is fake.
pub open spec fn applied_outcome_with<E>(
    list: Seq<MigrationView>,
    applied: Seq<MigrationView>,
    desired: Seq<MigrationView>,
    grouped: bool,
    target: Target,
    table_name: Seq<char>,
    asked: Seq<Call<E>>,
    after: Seq<Call<E>>,
    r: Result<Report, Error<E>>,
) -> bool {
    &&& is_to_apply(list, applied, desired)
    &&& run_outcome(
        Plan::start(marked(list, target), target, table_name, grouped || target.is_fake()),
        asked,
        after,
        r,
    )
}

/// What a whole migration leaves, where the history table was asserted with
/// `statement`.
///
/// The statement is the standard one if the backend is `standard`. The backend has
/// first been handed a transaction of that one statement. Where that failed, nothing
/// else was asked of the backend and the result is a connection error that carries
/// the failure. Else the backend has then been asked the query for every history row.
/// Where that failed, nothing else was asked and the result is a connection error
/// that carries the failure. Else `desired` was checked against the history that the
/// backend gave. Where the check refuses, nothing else was asked and the result is the
/// error that reports the verdict, without a report. Else what follows is the run
/// through what is to apply.
pub open spec fn migration_outcome_with<E>(
    statement: Seq<char>,
    standard: bool,
    desired: Seq<MigrationView>,
    abort_divergent: bool,
    abort_missing: bool,
    grouped: bool,
    target: Target,
    table_name: Seq<char>,
    before: Seq<Call<E>>,
    after: Seq<Call<E>>,
    r: Result<Report, Error<E>>,
) -> bool {
    let first = before.len() as int;
    &&& standard ==> statement == for_table(ASSERT_MIGRATIONS_TABLE_QUERY@, table_name)
    &&& first < after.len()
    &&& after.take(first) == before
    &&& match after[first] {
        Call::Execute { statements, outcome: Err(source) } => {
            &&& statements == seq![statement]
            &&& after.len() == first + 1
            &&& connection_failure(r, "error asserting migrations table"@, source)
        },
        Call::Execute { statements, outcome: Ok(count) } => {
            &&& statements == seq![statement]
            &&& count == 1
            &&& first + 2 <= after.len()
            &&& match after[first + 1] {
                Call::Query { query, outcome: Err(source) } => {
                    &&& query == for_table(GET_APPLIED_MIGRATIONS_QUERY@, table_name)
                    &&& after.len() == first + 2
                    &&& connection_failure(r, "error getting applied migrations"@, source)
                },
                Call::Query { query, outcome: Ok(history) } => {
                    &&& query == for_table(GET_APPLIED_MIGRATIONS_QUERY@, table_name)
                    &&& if verdict(history, desired, abort_divergent, abort_missing) is Accepted {
                        exists|list: Seq<MigrationView>| #[trigger]
                            applied_outcome_with(
                                list,
                                history,
                                desired,
                                grouped,
                                target,
                                table_name,
                                after.take(first + 2),
                                after,
                                r,
                            )
                    } else {
                        &&& after.len() == first + 2
                        &&& match r {
                            Err(e) => e@.report is None && reports(
                                e@.kind,
                                verdict(history, desired, abort_divergent, abort_missing),
                            ),
                            Ok(_) => false,
                        }
                    }
                },
                _ => false,
            }
        },
        _ => false,
    }
}

/// What a whole migration leaves, whatever statement asserted the history table.
pub open spec fn migration_outcome<E>(
    standard: bool,
    desired: Seq<MigrationView>,
    abort_divergent: bool,
    abort_missing: bool,
    grouped: bool,
    target: Target,
    table_name: Seq<char>,
    before: Seq<Call<E>>,
    after: Seq<Call<E>>,
    r: Result<Report, Error<E>>,
) -> bool {
    exists|statement: Seq<char>| #[trigger]
        migration_outcome_with(
            statement,
            standard,
            desired,
            abort_divergent,
            abort_missing,
            grouped,
            target,
            table_name,
            before,
            after,
            r,
        )
}

/// What is to apply of a list whose migrations all carry their body carries its
/// body too.
pub proof fn lemma_to_apply_bodies(
    list: Seq<MigrationView>,
    applied: Seq<MigrationView>,
    desired: Seq<MigrationView>,
)
    requires
        is_to_apply(list, applied, desired),
        forall|i: int| 0 <= i < desired.len() ==> (#[trigger] desired[i]).sql is Some,
    ensures
        forall|i: int| 0 <= i < list.len() ==> (#[trigger] list[i]).sql is Some,
{
    assert forall|i: int| 0 <= i < list.len() implies (#[trigger] list[i]).sql is Some by {
        assert(list.contains(list[i]));
        assert(desired.contains(list[i]));
    }
}

/// A backend that can bring a database up to date.
pub trait Migrate: Query<Vec<Migration>> where Self: Sized {
    /// Whether the backend asserts the history table with the standard statement. A
    /// backend whose SQL has no such statement says no, and gives its own.
    open spec fn asserts_table_as_standard() -> bool {
        true
    }

    /// The statement that creates the history table unless it exists: the standard
    /// one, with the table name in place of the placeholder, unless the backend gives
    /// its own.
    fn assert_migrations_table_query(migration_table_name: &str) -> (query: String)
        ensures
            Self::asserts_table_as_standard() ==> query@ == for_table(
                ASSERT_MIGRATIONS_TABLE_QUERY@,
                migration_table_name@,
            ),
    {
        super::assert_migrations_table_query(migration_table_name)
    }

    /// The query for the history row of the highest version.
    fn get_last_applied_migration_query(migration_table_name: &str) -> (query: String)
        ensures
            query@ == for_table(GET_LAST_APPLIED_MIGRATION_QUERY@, migration_table_name@),
    {
        super::get_last_applied_migration_query(migration_table_name)
    }

    /// The query for every history row, lowest version first.
    fn get_applied_migrations_query(migration_table_name: &str) -> (query: String)
        ensures
            query@ == for_table(GET_APPLIED_MIGRATIONS_QUERY@, migration_table_name@),
    {
        super::get_applied_migrations_query(migration_table_name)
    }

    /// Creates the history table unless it exists, in a transaction of its own.
    ///
    /// Hands the backend one transaction of one statement, which is what
    /// `assert_migrations_table_query` gives.
    fn assert_migrations_table(&mut self, migration_table_name: &str) -> (r: Result<
        usize,
        Error<Self::Error>,
    >)
        ensures
            exists|statement: Seq<char>| #[trigger]
                table_asserted(
                    statement,
                    Self::asserts_table_as_standard(),
                    migration_table_name@,
                    old(self).calls(),
                    final(self).calls(),
                    r,
                ),
    {
        let ghost before = self.calls();
        let statement = Self::assert_migrations_table_query(migration_table_name);
        let ghost text = statement@;
        let mut queries: Vec<String> = Vec::new();
        queries.push(statement);
        assert(strings(queries@) =~= seq![text]);
        let taken = self.execute(queries.as_slice());
        assert(self.calls().drop_last() =~= before);
        let r = taken.migration_err("error asserting migrations table", None);
        assert(table_asserted(
            text,
            Self::asserts_table_as_standard(),
            migration_table_name@,
            before,
            self.calls(),
            r,
        ));
        r
    }

    /// Reads the history row of the highest version, if the history has any row.
    ///
    /// Asks the backend the query for that row, once. Where the backend gives rows,
    /// the result is the last of them, or `None` if there is none; where it fails, the
    /// result is a connection error without a report that carries the failure.
    fn get_last_applied_migration(&mut self, migration_table_name: &str) -> (r: Result<
        Option<Migration>,
        Error<Self::Error>,
    >)
        ensures
            last_read(
                for_table(GET_LAST_APPLIED_MIGRATION_QUERY@, migration_table_name@),
                "error getting last applied migration"@,
                old(self).calls(),
                final(self).calls(),
                r,
            ),
    {
        let query = Self::get_last_applied_migration_query(migration_table_name);
        let ghost before = self.calls();
        let given = self.query(query.as_str());
        assert(self.calls().drop_last() =~= before);
        match given.migration_err("error getting last applied migration", None) {
            Ok(rows) => {
                let mut rows = rows;
                Ok(rows.pop())
            },
            Err(e) => Err(e),
        }
    }

    /// Reads the history, lowest version first.
    ///
    /// Asks the backend the query for every history row, once. Where the backend gives
    /// rows, the result is those rows; where it fails, the result is a connection
    /// error without a report that carries the failure.
    fn get_applied_migrations(&mut self, migration_table_name: &str) -> (r: Result<
        Vec<Migration>,
        Error<Self::Error>,
    >)
        ensures
            history_read(
                for_table(GET_APPLIED_MIGRATIONS_QUERY@, migration_table_name@),
                "error getting applied migrations"@,
                old(self).calls(),
                final(self).calls(),
                r,
            ),
    {
        let query = Self::get_applied_migrations_query(migration_table_name);
        let ghost before = self.calls();
        let given = self.query(query.as_str());
        assert(self.calls().drop_last() =~= before);
        given.migration_err("error getting applied migrations", None)
    }

    /// Asserts the history table, reads the history and checks `migrations` against
    /// it: gives what is still to be applied, in ascending version order.
    fn get_unapplied_migrations(
        &mut self,
        migrations: &[Migration],
        abort_divergent: bool,
        abort_missing: bool,
        migration_table_name: &str,
    ) -> (r: Result<Vec<Migration>, Error<Self::Error>>)
        ensures
            unapplied_outcome(
                Self::asserts_table_as_standard(),
                views(migrations@),
                abort_divergent,
                abort_missing,
                migration_table_name@,
                old(self).calls(),
                final(self).calls(),
                r,
            ),
    {
        let ghost before = self.calls();
        let ghost desired = views(migrations@);
        let ghost standard = Self::asserts_table_as_standard();
        let ghost table_name = migration_table_name@;
        let asserted = self.assert_migrations_table(migration_table_name);
        let ghost between = self.calls();
        let ghost statement = choose|statement: Seq<char>| #[trigger]
            table_asserted(statement, standard, table_name, before, between, asserted);
        proof {
            assert(between.take(before.len() as int) =~= before);
            assert(between[before.len() as int] == between.last());
        }
        match asserted {
            Ok(_) => {},
            Err(e) => {
                let r = Err(e);
                assert(unapplied_outcome_with(
                    statement,
                    standard,
                    desired,
                    abort_divergent,
                    abort_missing,
                    table_name,
                    before,
                    self.calls(),
                    r,
                ));
                return r;
            },
        }
        let read = self.get_applied_migrations(migration_table_name);
        proof {
            let after = self.calls();
            assert(after.drop_last() == between);
            assert(after.take(before.len() as int) =~= before);
            assert(after[before.len() as int] == between[before.len() as int]);
            assert(after[before.len() as int + 1] == after.last());
        }
        let applied_migrations = match read {
            Ok(rows) => rows,
            Err(e) => {
                let r = Err(e);
                assert(unapplied_outcome_with(
                    statement,
                    standard,
                    desired,
                    abort_divergent,
                    abort_missing,
                    table_name,
                    before,
                    self.calls(),
                    r,
                ));
                return r;
            },
        };
        let r = verify_migrations(
            applied_migrations,
            clone_migrations(migrations),
            abort_divergent,
            abort_missing,
        );
        assert(unapplied_outcome_with(
            statement,
            standard,
            desired,
            abort_divergent,
            abort_missing,
            table_name,
            before,
            self.calls(),
            r,
        ));
        r
    }

    /// Brings the database up to date with `migrations`, as far as `target` asks.
    ///
    /// Asserts the history table, reads the history, checks `migrations` against it,
    /// and runs what is still to be applied: in one transaction if `grouped` or the
    /// target is fake, else step by step.
    fn migrate(
        &mut self,
        migrations: &[Migration],
        abort_divergent: bool,
        abort_missing: bool,
        grouped: bool,
        target: Target,
        migration_table_name: &str,
    ) -> (r: Result<Report, Error<Self::Error>>)
        requires
            forall|i: int|
                0 <= i < migrations@.len() ==> (#[trigger] views(migrations@)[i]).sql is Some,
        ensures
            migration_outcome(
                Self::asserts_table_as_standard(),
                views(migrations@),
                abort_divergent,
                abort_missing,
                grouped,
                target,
                migration_table_name@,
                old(self).calls(),
                final(self).calls(),
                r,
            ),
    {
        let ghost before = self.calls();
        let ghost desired = views(migrations@);
        let ghost standard = Self::asserts_table_as_standard();
        let ghost table_name = migration_table_name@;
        let found = self.get_unapplied_migrations(
            migrations,
            abort_divergent,
            abort_missing,
            migration_table_name,
        );
        let ghost between = self.calls();
        let ghost statement = choose|statement: Seq<char>| #[trigger]
            unapplied_outcome_with(
                statement,
                standard,
                desired,
                abort_divergent,
                abort_missing,
                table_name,
                before,
                between,
                found,
            );
        match found {
            Ok(list) => {
                let ghost chosen = views(list@);
                let ghost history = match between[before.len() as int + 1] {
                    Call::Query { outcome: Ok(history), .. } => history,
                    _ => Seq::empty(),
                };
                proof {
                    lemma_to_apply_bodies(chosen, history, desired);
                }
                let batched = grouped || target.fake();
                let r = migrate(self, list, target, migration_table_name, batched);
                proof {
                    let after = self.calls();
                    let plan = Plan::start(marked(chosen, target), target, table_name, batched);
                    let stamps = choose|stamps: Seq<Seq<char>>| #[trigger]
                        run_outcome_with(plan, between, after, r, stamps);
                    assert(after.take(between.len() as int) == between);
                    assert(after.take(before.len() as int) =~= between.take(before.len() as int));
                    assert(after[before.len() as int] == between[before.len() as int]);
                    assert(after[before.len() as int + 1] == between[before.len() as int + 1]);
                    assert(after.take(before.len() as int + 2) =~= between);
                    assert(applied_outcome_with(
                        chosen,
                        history,
                        desired,
                        grouped,
                        target,
                        table_name,
                        after.take(before.len() as int + 2),
                        after,
                        r,
                    ));
                    assert(migration_outcome_with(
                        statement,
                        standard,
                        desired,
                        abort_divergent,
                        abort_missing,
                        grouped,
                        target,
                        table_name,
                        before,
                        after,
                        r,
                    ));
                }
                r
            },
            Err(e) => {
                let r = Err(e);
                assert(migration_outcome_with(
                    statement,
                    standard,
                    desired,
                    abort_divergent,
                    abort_missing,
                    grouped,
                    target,
                    table_name,
                    before,
                    self.calls(),
                    r,
                ));
                r
            },
        }
    }
}

} // verus!
