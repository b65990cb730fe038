use refinery_core::traits::sync::{
    migrate, migrate_reusable, migration_whether_apply, LogLevel, MigrateReusableIterator,
    MigrateReusableIteratorArgs, MigrateReusableIteratorItem, MigrateReusableResult,
};
use refinery_core::{Kind, Migrate, Migration, Query, State, Target, Transaction, Type};

const STAMP: &str = "2022-02-02T02:02:02Z";

fn versioned(version: i32, name: &str) -> Migration {
    let sql = format!("-- body of {}", name);
    Migration::unapplied(version, Type::Versioned, name, &sql, version as u64 * 10).unwrap()
}

fn rerunnable(version: i32, name: &str) -> Migration {
    let sql = format!("-- body of {}", name);
    Migration::unapplied(version, Type::Rerunnable, name, &sql, version as u64 * 10).unwrap()
}

fn insert(version: i32, name: &str) -> String {
    format!(
        "INSERT INTO history (version, name, applied_on, checksum) VALUES ({}, '{}', '{}', '{}')",
        version,
        name,
        STAMP,
        version * 10
    )
}

fn drain(iter: &mut MigrateReusableIterator) -> Vec<MigrateReusableIteratorItem> {
    let mut steps = Vec::new();
    while iter.has_next() {
        steps.push(iter.next(STAMP).unwrap());
    }
    assert!(iter.next(STAMP).is_none());
    assert!(!iter.has_next());
    steps
}

fn versions(list: &[Migration]) -> Vec<i32> {
    list.iter().map(|m| m.version()).collect()
}

#[test]
fn whether_apply_without_bound() {
    let m = versioned(5, "five");
    assert!(migration_whether_apply(&m, Target::Latest));
    assert!(migration_whether_apply(&m, Target::Fake));
}

#[test]
fn whether_apply_with_bound() {
    let m = versioned(5, "five");
    assert!(migration_whether_apply(&m, Target::Version(5)));
    assert!(migration_whether_apply(&m, Target::Version(6)));
    assert!(!migration_whether_apply(&m, Target::Version(4)));
    assert!(migration_whether_apply(&m, Target::FakeVersion(5)));
    assert!(!migration_whether_apply(&m, Target::FakeVersion(4)));
    assert!(!migration_whether_apply(&m, Target::Version(-1)));
}

#[test]
fn whether_apply_rerunnable_and_unversioned() {
    let r = rerunnable(5, "five");
    assert!(migration_whether_apply(&r, Target::Version(0)));
    assert!(migration_whether_apply(&r, Target::FakeVersion(0)));
    let u = Migration::unapplied(5, Type::Unversioned, "five", "", 0).unwrap();
    assert!(!migration_whether_apply(&u, Target::Version(4)));
    assert!(migration_whether_apply(&u, Target::Version(5)));
}

#[test]
fn steps_one_by_one() {
    let list = vec![versioned(1, "one"), versioned(2, "two")];
    let mut iter = migrate_reusable(list, Target::Latest, "history", false);
    let steps = drain(&mut iter);
    assert_eq!(steps.len(), 4);

    assert_eq!(steps[0].log_before_tx.level, LogLevel::Info);
    assert_eq!(steps[0].log_before_tx.msg, "applying migration");
    assert!(steps[0].applied_migrations.is_empty());
    match &steps[0].result {
        MigrateReusableResult::Itemized { sql, current_migration } => {
            assert_eq!(sql, "-- body of one");
            assert_eq!(current_migration.version(), 1);
            assert_eq!(current_migration.state(), State::Applied);
        }
        other => panic!("{:?}", other),
    }

    assert_eq!(steps[1].log_before_tx.level, LogLevel::Debug);
    assert_eq!(steps[1].log_before_tx.msg, "applied migration, writing state to db");
    assert!(steps[1].applied_migrations.is_empty());
    match &steps[1].result {
        MigrateReusableResult::ItemizedMetaInsert { sql, current_migration } => {
            assert_eq!(*sql, insert(1, "one"));
            assert_eq!(current_migration.version(), 1);
        }
        other => panic!("{:?}", other),
    }

    assert_eq!(versions(&steps[2].applied_migrations), vec![1]);
    match &steps[2].result {
        MigrateReusableResult::Itemized { sql, current_migration } => {
            assert_eq!(sql, "-- body of two");
            assert_eq!(current_migration.version(), 2);
        }
        other => panic!("{:?}", other),
    }

    assert_eq!(versions(&steps[3].applied_migrations), vec![1]);
    match &steps[3].result {
        MigrateReusableResult::ItemizedMetaInsert { sql, current_migration } => {
            assert_eq!(*sql, insert(2, "two"));
            assert_eq!(current_migration.version(), 2);
        }
        other => panic!("{:?}", other),
    }
    assert_eq!(versions(&iter.applied()), vec![1, 2]);
}

#[test]
fn steps_in_one_batch() {
    let list = vec![versioned(1, "one"), versioned(2, "two")];
    let mut iter = migrate_reusable(list, Target::Latest, "history", true);
    let steps = drain(&mut iter);
    assert_eq!(steps.len(), 1);
    assert_eq!(steps[0].log_before_tx.level, LogLevel::Info);
    assert_eq!(
        steps[0].log_before_tx.msg,
        "going to apply batch migrations in single transaction"
    );
    assert!(steps[0].applied_migrations.is_empty());
    match &steps[0].result {
        MigrateReusableResult::Batched { sql, migrations_display } => {
            assert_eq!(
                *sql,
                vec![
                    "-- body of one".to_string(),
                    insert(1, "one"),
                    "-- body of two".to_string(),
                    insert(2, "two")
                ]
            );
            assert_eq!(migrations_display, "V1__one, V2__two");
        }
        other => panic!("{:?}", other),
    }
    assert_eq!(versions(&iter.applied()), vec![1, 2]);
}

#[test]
fn display_of_a_single_migration_has_no_separator() {
    let mut iter = migrate_reusable(vec![rerunnable(3, "views")], Target::Latest, "history", true);
    match iter.next(STAMP).unwrap().result {
        MigrateReusableResult::Batched { migrations_display, .. } => {
            assert_eq!(migrations_display, "R3__views")
        }
        other => panic!("{:?}", other),
    }
}

#[test]
fn fake_is_one_batch_of_history_rows() {
    for batched in [false, true] {
        let list = vec![versioned(1, "one"), versioned(2, "two")];
        let mut iter = migrate_reusable(list, Target::Fake, "history", batched);
        let steps = drain(&mut iter);
        assert_eq!(steps.len(), 1);
        match &steps[0].result {
            MigrateReusableResult::Batched { sql, .. } => {
                assert_eq!(*sql, vec![insert(1, "one"), insert(2, "two")]);
            }
            other => panic!("{:?}", other),
        }
    }
}

#[test]
fn fake_version_is_one_batch_up_to_the_bound() {
    let list = vec![versioned(1, "one"), versioned(2, "two"), rerunnable(3, "three")];
    let mut iter = migrate_reusable(list, Target::FakeVersion(1), "history", false);
    let steps = drain(&mut iter);
    assert_eq!(steps.len(), 1);
    match &steps[0].result {
        MigrateReusableResult::Batched { sql, migrations_display } => {
            assert_eq!(*sql, vec![insert(1, "one"), insert(3, "three")]);
            assert_eq!(migrations_display, "V1__one, R3__three");
        }
        other => panic!("{:?}", other),
    }
}

#[test]
fn no_migrations_no_steps() {
    for batched in [false, true] {
        for target in [Target::Latest, Target::Fake, Target::Version(3), Target::FakeVersion(3)] {
            let mut iter = migrate_reusable(Vec::new(), target, "history", batched);
            assert!(!iter.has_next());
            assert!(iter.next(STAMP).is_none());
            assert!(iter.completed().is_empty());
            assert!(iter.applied().is_empty());
        }
    }
}

#[test]
fn bound_below_every_version_one_by_one() {
    let list = vec![versioned(2, "two"), versioned(3, "three")];
    let mut iter = migrate_reusable(list, Target::Version(1), "history", false);
    assert!(drain(&mut iter).is_empty());
    assert!(iter.applied().is_empty());
}

#[test]
fn bound_below_every_version_in_one_batch() {
    let list = vec![versioned(2, "two"), versioned(3, "three")];
    let mut iter = migrate_reusable(list, Target::Version(1), "history", true);
    let steps = drain(&mut iter);
    assert_eq!(steps.len(), 1);
    match &steps[0].result {
        MigrateReusableResult::Batched { sql, migrations_display } => {
            assert!(sql.is_empty());
            assert_eq!(migrations_display, "");
        }
        other => panic!("{:?}", other),
    }
}

#[test]
fn skipped_migration_before_a_rerunnable_one() {
    let list = vec![versioned(1, "one"), rerunnable(2, "two"), versioned(3, "three")];
    let mut iter = migrate_reusable(list, Target::Version(0), "history", false);
    let steps = drain(&mut iter);
    assert_eq!(steps.len(), 2);
    assert!(matches!(&steps[0].result,
        MigrateReusableResult::Itemized { current_migration, .. } if current_migration.version() == 2));
    assert!(matches!(&steps[1].result,
        MigrateReusableResult::ItemizedMetaInsert { current_migration, .. } if current_migration.version() == 2));
    assert_eq!(versions(&iter.applied()), vec![2]);
}

#[test]
fn only_applied_migrations_are_marked() {
    let list = vec![versioned(1, "one"), versioned(2, "two")];
    let mut iter = migrate_reusable(list, Target::Version(1), "history", false);
    let first = iter.next(STAMP).unwrap();
    match first.result {
        MigrateReusableResult::Itemized { current_migration, .. } => {
            assert_eq!(current_migration.state(), State::Applied)
        }
        other => panic!("{:?}", other),
    }
    let applied = iter.applied();
    assert_eq!(versions(&applied), vec![1]);
    assert_eq!(applied[0].state(), State::Applied);
}

#[test]
fn completed_follows_the_steps() {
    let list = vec![versioned(1, "one"), versioned(2, "two")];
    let mut iter = migrate_reusable(list, Target::Latest, "history", false);
    assert!(iter.completed().is_empty());
    iter.next(STAMP);
    assert!(iter.completed().is_empty());
    iter.next(STAMP);
    assert_eq!(versions(&iter.completed()), vec![1]);
    iter.next(STAMP);
    assert_eq!(versions(&iter.completed()), vec![1]);
    iter.next(STAMP);
    assert_eq!(versions(&iter.completed()), vec![1, 2]);
}

#[test]
fn iterator_from_arguments_does_not_mark() {
    let args =
        MigrateReusableIteratorArgs::new(vec![versioned(1, "one")], Target::Latest, false, "h");
    let mut iter = MigrateReusableIterator::new(args);
    match iter.next(STAMP).unwrap().result {
        MigrateReusableResult::Itemized { current_migration, .. } => {
            assert_eq!(current_migration.state(), State::Pending)
        }
        other => panic!("{:?}", other),
    }
}

#[test]
fn failure_messages() {
    let batch = MigrateReusableResult::Batched { sql: vec![], migrations_display: String::new() };
    assert_eq!(batch.failure_message(), "error applying batch migration");
    let body = MigrateReusableResult::Itemized {
        sql: "x".to_string(),
        current_migration: versioned(1, "one"),
    };
    assert_eq!(body.failure_message(), "error applying single migration: one");
    let write = MigrateReusableResult::ItemizedMetaInsert {
        sql: "x".to_string(),
        current_migration: versioned(2, "two"),
    };
    assert_eq!(write.failure_message(), "error applying update: two");
}

#[test]
fn statements_of_each_step() {
    let batch = MigrateReusableResult::Batched {
        sql: vec!["a".to_string(), "b".to_string()],
        migrations_display: String::new(),
    };
    assert_eq!(batch.into_statements(), vec!["a".to_string(), "b".to_string()]);
    let body = MigrateReusableResult::Itemized {
        sql: "x".to_string(),
        current_migration: versioned(1, "one"),
    };
    assert_eq!(body.into_statements(), vec!["x".to_string()]);
    let write = MigrateReusableResult::ItemizedMetaInsert {
        sql: "y".to_string(),
        current_migration: versioned(2, "two"),
    };
    assert_eq!(write.into_statements(), vec!["y".to_string()]);
}

struct Recorder {
    committed: Vec<Vec<String>>,
    refuse_at: Option<usize>,
    calls: usize,
}

impl Transaction for Recorder {
    type Error = &'static str;

    fn execute(&mut self, queries: &[String]) -> Result<usize, &'static str> {
        let call = self.calls;
        self.calls += 1;
        if self.refuse_at == Some(call) {
            return Err("refused");
        }
        self.committed.push(queries.to_vec());
        Ok(queries.len())
    }
}

#[test]
fn migrate_commits_one_transaction_per_step() {
    let mut db = Recorder { committed: vec![], refuse_at: None, calls: 0 };
    let list = vec![versioned(1, "one"), versioned(2, "two")];
    let report = migrate(&mut db, list, Target::Latest, "history", false).unwrap();
    assert_eq!(versions(report.applied_migrations()), vec![1, 2]);
    assert_eq!(db.committed.len(), 4);
    assert!(db.committed.iter().all(|statements| statements.len() == 1));
    assert_eq!(db.committed[0][0], "-- body of one");
    assert!(db.committed[1][0].starts_with("INSERT INTO history "));
    assert_eq!(db.committed[2][0], "-- body of two");
    assert!(db.committed[3][0].ends_with("'20')"));
}

#[test]
fn migrate_commits_one_transaction_for_a_batch() {
    let mut db = Recorder { committed: vec![], refuse_at: None, calls: 0 };
    let list = vec![versioned(1, "one"), versioned(2, "two")];
    let report = migrate(&mut db, list, Target::Latest, "history", true).unwrap();
    assert_eq!(versions(report.applied_migrations()), vec![1, 2]);
    assert_eq!(db.committed.len(), 1);
    assert_eq!(db.committed[0].len(), 4);
}

#[test]
fn migrate_reports_skipped_migrations_as_not_applied() {
    let mut db = Recorder { committed: vec![], refuse_at: None, calls: 0 };
    let list = vec![versioned(1, "one"), versioned(2, "two"), rerunnable(3, "three")];
    let report = migrate(&mut db, list, Target::Version(1), "history", false).unwrap();
    assert_eq!(versions(report.applied_migrations()), vec![1, 3]);
    assert_eq!(db.committed.len(), 4);
}

#[test]
fn migrate_stops_at_the_first_failure() {
    for refuse_at in 0..4 {
        let mut db = Recorder { committed: vec![], refuse_at: Some(refuse_at), calls: 0 };
        let list = vec![versioned(1, "one"), versioned(2, "two")];
        let err = migrate(&mut db, list, Target::Latest, "history", false).unwrap_err();
        assert_eq!(db.committed.len(), refuse_at);
        assert_eq!(db.calls, refuse_at + 1);
        let expected = ["error applying single migration: one", "error applying update: one",
            "error applying single migration: two", "error applying update: two"][refuse_at];
        match err.kind() {
            Kind::Connection(message, source) => {
                assert_eq!(message, expected);
                assert_eq!(*source, "refused");
            }
            other => panic!("{:?}", other),
        }
        let completed: Vec<i32> = if refuse_at < 2 { vec![] } else { vec![1] };
        assert_eq!(versions(err.report().unwrap().applied_migrations()), completed);
    }
}

#[test]
fn migrate_with_nothing_to_do() {
    let mut db = Recorder { committed: vec![], refuse_at: Some(0), calls: 0 };
    let report = migrate(&mut db, Vec::new(), Target::Latest, "history", true).unwrap();
    assert!(report.applied_migrations().is_empty());
    assert_eq!(db.calls, 0);
}

struct Vendor {
    committed: Vec<Vec<String>>,
}

impl Transaction for Vendor {
    type Error = &'static str;

    fn execute(&mut self, queries: &[String]) -> Result<usize, &'static str> {
        self.committed.push(queries.to_vec());
        Ok(queries.len())
    }
}

impl Query<Vec<Migration>> for Vendor {
    fn query(&mut self, _query: &str) -> Result<Vec<Migration>, &'static str> {
        Ok(Vec::new())
    }
}

impl Migrate for Vendor {
    fn assert_migrations_table_query(migration_table_name: &str) -> String {
        format!("IF NOT EXISTS(SELECT 1 FROM sys.Tables WHERE Name = N'{}') BEGIN END", migration_table_name)
    }
}

#[test]
fn backend_may_assert_the_table_in_its_own_words() {
    let mut db = Vendor { committed: vec![] };
    let report = db.migrate(&[versioned(1, "one")], true, true, true, Target::Latest, "h").unwrap();
    assert_eq!(versions(report.applied_migrations()), vec![1]);
    assert_eq!(
        db.committed[0],
        vec!["IF NOT EXISTS(SELECT 1 FROM sys.Tables WHERE Name = N'h') BEGIN END".to_string()]
    );
    assert_eq!(db.committed.len(), 2);
}
