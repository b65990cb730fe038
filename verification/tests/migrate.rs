use refinery_core::clock::parse_timestamp;
use refinery_core::drivers::migration_from_row;
use refinery_core::traits::DEFAULT_MIGRATION_TABLE_NAME;
use refinery_core::{Kind, Migrate, Migration, Query, Target, Transaction, Type};

const TABLE: &str = DEFAULT_MIGRATION_TABLE_NAME;

const CREATE: &str = "CREATE TABLE IF NOT EXISTS refinery_schema_history(version INTEGER PRIMARY KEY, name TEXT NOT NULL, applied_on TEXT NOT NULL, checksum TEXT NOT NULL);";

#[derive(Debug, PartialEq)]
struct Refused(String);

/// A database that keeps what it is asked to execute, and a history table.
struct Database {
    committed: Vec<Vec<String>>,
    queries: Vec<String>,
    rows: Vec<(i32, String, String, String)>,
    calls: usize,
    fail_execute_at: Option<usize>,
    fail_query: bool,
}

impl Database {
    fn empty() -> Database {
        Database {
            committed: Vec::new(),
            queries: Vec::new(),
            rows: Vec::new(),
            calls: 0,
            fail_execute_at: None,
            fail_query: false,
        }
    }

    fn with_rows(rows: &[(i32, &str, u64)]) -> Database {
        let mut db = Database::empty();
        for (version, name, checksum) in rows {
            db.rows.push((
                *version,
                name.to_string(),
                "2020-02-03T04:05:06Z".to_string(),
                checksum.to_string(),
            ));
        }
        db
    }

    fn versions(&self) -> Vec<i32> {
        let mut versions: Vec<i32> = self.rows.iter().map(|row| row.0).collect();
        versions.sort();
        versions
    }

    fn row(&self, version: i32) -> &(i32, String, String, String) {
        self.rows.iter().find(|row| row.0 == version).unwrap()
    }
}

fn insert_row(statement: &str) -> Option<(i32, String, String, String)> {
    let head = format!("INSERT INTO {} (version, name, applied_on, checksum) VALUES (", TABLE);
    let rest = statement.strip_prefix(head.as_str())?.strip_suffix("')")?;
    let (version, rest) = rest.split_once(", '")?;
    let mut fields = rest.split("', '");
    let name = fields.next()?;
    let applied_on = fields.next()?;
    let checksum = fields.next()?;
    Some((version.parse().ok()?, name.to_string(), applied_on.to_string(), checksum.to_string()))
}

impl Transaction for Database {
    type Error = Refused;

    fn execute(&mut self, queries: &[String]) -> Result<usize, Refused> {
        let call = self.calls;
        self.calls += 1;
        if self.fail_execute_at == Some(call) {
            return Err(Refused(format!("call {}", call)));
        }
        for query in queries {
            if let Some(row) = insert_row(query) {
                self.rows.retain(|old| old.0 != row.0);
                self.rows.push(row);
            }
        }
        self.committed.push(queries.to_vec());
        Ok(queries.len())
    }
}

impl Query<Vec<Migration>> for Database {
    fn query(&mut self, query: &str) -> Result<Vec<Migration>, Refused> {
        self.queries.push(query.to_string());
        if self.fail_query {
            return Err(Refused("query".to_string()));
        }
        let mut rows = self.rows.clone();
        rows.sort_by_key(|row| row.0);
        Ok(rows
            .into_iter()
            .map(|(version, name, applied_on, checksum)| {
                migration_from_row(version, name, &applied_on, &checksum).unwrap()
            })
            .collect())
    }
}

impl Migrate for Database {}

fn versioned(version: i32, name: &str, checksum: u64) -> Migration {
    let sql = format!("CREATE TABLE {}(id INTEGER);", name);
    Migration::unapplied(version, Type::Versioned, name, &sql, checksum).unwrap()
}

fn rerunnable(version: i32, name: &str, checksum: u64) -> Migration {
    let sql = format!("CREATE OR REPLACE VIEW {} AS SELECT 1;", name);
    Migration::unapplied(version, Type::Rerunnable, name, &sql, checksum).unwrap()
}

fn body(migration: &Migration) -> String {
    migration.sql().unwrap().to_string()
}

fn is_insert_of(statement: &str, version: i32, name: &str, checksum: &str) -> bool {
    match insert_row(statement) {
        Some(row) => {
            row.0 == version
                && row.1 == name
                && row.3 == checksum
                && parse_timestamp(&row.2).is_some()
        }
        None => false,
    }
}

fn report_versions(report: &refinery_core::Report) -> Vec<i32> {
    report.applied_migrations().iter().map(|m| m.version()).collect()
}

#[test]
fn latest_on_empty_database_step_by_step() {
    let mut db = Database::empty();
    let migrations = vec![versioned(1, "first", 0xA), versioned(2, "second", 0xB)];
    let report = db.migrate(&migrations, true, true, false, Target::Latest, TABLE).unwrap();
    assert_eq!(report_versions(&report), vec![1, 2]);
    assert_eq!(db.versions(), vec![1, 2]);
    assert_eq!(db.row(1).1, "first");
    assert_eq!(db.row(1).3, "10");
    assert_eq!(db.row(2).1, "second");
    assert_eq!(db.row(2).3, "11");
    assert_eq!(db.committed.len(), 5);
    assert_eq!(db.committed[0], vec![CREATE.to_string()]);
    assert_eq!(db.committed[1], vec![body(&migrations[0])]);
    assert_eq!(db.committed[2].len(), 1);
    assert!(is_insert_of(&db.committed[2][0], 1, "first", "10"));
    assert_eq!(db.committed[3], vec![body(&migrations[1])]);
    assert_eq!(db.committed[4].len(), 1);
    assert!(is_insert_of(&db.committed[4][0], 2, "second", "11"));
}

#[test]
fn report_marks_migrations_as_applied() {
    let mut db = Database::empty();
    let migrations = vec![versioned(1, "first", 1), versioned(2, "second", 2)];
    let report = db.migrate(&migrations, true, true, false, Target::Latest, TABLE).unwrap();
    for migration in report.applied_migrations() {
        assert_eq!(migration.state(), refinery_core::State::Applied);
        assert_eq!(migration.applied_on(), None);
    }
    assert_eq!(migrations[0].state(), refinery_core::State::Pending);
}

#[test]
fn version_target_in_one_transaction() {
    let mut db = Database::empty();
    let migrations =
        vec![versioned(1, "first", 1), versioned(2, "second", 2), versioned(3, "third", 3)];
    let report = db.migrate(&migrations, true, true, true, Target::Version(2), TABLE).unwrap();
    assert_eq!(report_versions(&report), vec![1, 2]);
    assert_eq!(db.versions(), vec![1, 2]);
    assert_eq!(db.committed.len(), 2);
    let batch = &db.committed[1];
    assert_eq!(batch.len(), 4);
    assert_eq!(batch[0], body(&migrations[0]));
    assert!(is_insert_of(&batch[1], 1, "first", "1"));
    assert_eq!(batch[2], body(&migrations[1]));
    assert!(is_insert_of(&batch[3], 2, "second", "2"));
}

#[test]
fn divergent_version_is_refused_without_writes() {
    let mut db = Database::with_rows(&[(1, "first", 0xA)]);
    let migrations = vec![versioned(1, "first", 0xF), versioned(2, "second", 0xB)];
    let err = db.migrate(&migrations, true, true, false, Target::Latest, TABLE).unwrap_err();
    match err.kind() {
        Kind::DivergentVersion(applied, desired) => {
            assert_eq!(applied.version(), 1);
            assert_eq!(applied.checksum(), 0xA);
            assert_eq!(applied.sql(), None);
            assert!(applied.applied_on().is_some());
            assert_eq!(desired.version(), 1);
            assert_eq!(desired.checksum(), 0xF);
            assert_eq!(desired.sql(), migrations[0].sql());
        }
        other => panic!("{:?}", other),
    }
    assert!(err.report().is_none());
    assert_eq!(db.committed, vec![vec![CREATE.to_string()]]);
    assert_eq!(db.versions(), vec![1]);
}

#[test]
fn divergent_version_is_passed_over_without_abort() {
    let mut db = Database::with_rows(&[(1, "first", 0xA)]);
    let migrations = vec![versioned(1, "first", 0xF), versioned(2, "second", 0xB)];
    let report = db.migrate(&migrations, false, true, false, Target::Latest, TABLE).unwrap();
    assert_eq!(report_versions(&report), vec![2]);
}

#[test]
fn missing_version_is_refused() {
    let mut db = Database::with_rows(&[(1, "first", 0xA)]);
    let migrations = vec![versioned(2, "second", 0xB)];
    let err = db.migrate(&migrations, true, true, false, Target::Latest, TABLE).unwrap_err();
    match err.kind() {
        Kind::MissingVersion(applied) => {
            assert_eq!(applied.version(), 1);
            assert_eq!(applied.name(), "first");
        }
        other => panic!("{:?}", other),
    }
    assert!(err.report().is_none());
    assert_eq!(db.committed.len(), 1);
}

#[test]
fn missing_version_is_passed_over_without_abort() {
    let mut db = Database::with_rows(&[(1, "first", 0xA)]);
    let migrations = vec![versioned(2, "second", 0xB)];
    let report = db.migrate(&migrations, true, false, false, Target::Latest, TABLE).unwrap();
    assert_eq!(report_versions(&report), vec![2]);
}

#[test]
fn rerunnable_runs_again() {
    let mut db = Database::with_rows(&[(1, "first", 1), (2, "view", 2)]);
    let migrations =
        vec![versioned(1, "first", 1), rerunnable(2, "view", 2), versioned(3, "third", 3)];
    let report = db.migrate(&migrations, true, true, false, Target::Latest, TABLE).unwrap();
    assert_eq!(report_versions(&report), vec![2, 3]);
    assert_eq!(db.committed.len(), 5);
    assert_eq!(db.committed[1], vec![body(&migrations[1])]);
    assert!(is_insert_of(&db.committed[2][0], 2, "view", "2"));
    assert_eq!(db.committed[3], vec![body(&migrations[2])]);
    assert!(is_insert_of(&db.committed[4][0], 3, "third", "3"));
    assert_eq!(db.row(1).2, "2020-02-03T04:05:06Z");
}

#[test]
fn fake_writes_history_only() {
    let mut db = Database::empty();
    let migrations = vec![versioned(1, "first", 0xA), versioned(2, "second", 0xB)];
    let report = db.migrate(&migrations, true, true, false, Target::Fake, TABLE).unwrap();
    assert_eq!(report_versions(&report), vec![1, 2]);
    assert_eq!(db.committed.len(), 2);
    let batch = &db.committed[1];
    assert_eq!(batch.len(), 2);
    assert!(is_insert_of(&batch[0], 1, "first", "10"));
    assert!(is_insert_of(&batch[1], 2, "second", "11"));
    for statements in &db.committed {
        for statement in statements {
            assert_ne!(*statement, body(&migrations[0]));
            assert_ne!(*statement, body(&migrations[1]));
        }
    }
}

#[test]
fn fake_version_stops_at_its_bound() {
    let mut db = Database::empty();
    let migrations = vec![versioned(1, "first", 1), versioned(2, "second", 2)];
    let report = db.migrate(&migrations, true, true, false, Target::FakeVersion(1), TABLE).unwrap();
    assert_eq!(report_versions(&report), vec![1]);
    assert_eq!(db.versions(), vec![1]);
    assert_eq!(db.committed[1].len(), 1);
}

#[test]
fn fake_twice_leaves_history_as_once() {
    let migrations = vec![versioned(2, "second", 2), versioned(1, "first", 1)];
    let mut once = Database::empty();
    once.migrate(&migrations, true, true, false, Target::Fake, TABLE).unwrap();
    let mut twice = Database::empty();
    twice.migrate(&migrations, true, true, false, Target::Fake, TABLE).unwrap();
    let rows = twice.rows.clone();
    let report = twice.migrate(&migrations, true, true, false, Target::Fake, TABLE).unwrap();
    assert!(report.applied_migrations().is_empty());
    assert_eq!(twice.rows, rows);
    assert_eq!(twice.versions(), once.versions());
    assert_eq!(twice.committed.len(), 3);
}

#[test]
fn second_run_applies_nothing() {
    let mut db = Database::empty();
    let migrations = vec![versioned(1, "first", 1), versioned(2, "second", 2)];
    db.migrate(&migrations, true, true, false, Target::Latest, TABLE).unwrap();
    let before = db.committed.len();
    let report = db.migrate(&migrations, true, true, false, Target::Latest, TABLE).unwrap();
    assert!(report.applied_migrations().is_empty());
    assert_eq!(db.committed.len(), before + 1);
}

#[test]
fn second_run_applies_rerunnable_once() {
    let mut db = Database::empty();
    let migrations = vec![versioned(1, "first", 1), rerunnable(2, "view", 2)];
    db.migrate(&migrations, true, true, false, Target::Latest, TABLE).unwrap();
    let before = db.committed.len();
    let report = db.migrate(&migrations, true, true, false, Target::Latest, TABLE).unwrap();
    assert_eq!(report_versions(&report), vec![2]);
    assert_eq!(db.committed.len(), before + 3);
    assert_eq!(db.committed[before + 1], vec![body(&migrations[1])]);
    assert!(is_insert_of(&db.committed[before + 2][0], 2, "view", "2"));
}

#[test]
fn input_order_does_not_matter() {
    let mut db = Database::empty();
    let migrations =
        vec![versioned(3, "third", 3), versioned(1, "first", 1), versioned(2, "second", 2)];
    let report = db.migrate(&migrations, true, true, false, Target::Latest, TABLE).unwrap();
    assert_eq!(report_versions(&report), vec![1, 2, 3]);
    let inserted: Vec<i32> = db
        .committed
        .iter()
        .flatten()
        .filter_map(|statement| insert_row(statement))
        .map(|row| row.0)
        .collect();
    assert_eq!(inserted, vec![1, 2, 3]);
}

#[test]
fn repeated_version_is_refused() {
    let mut db = Database::empty();
    let migrations =
        vec![versioned(1, "first", 1), versioned(2, "second", 2), versioned(1, "again", 3)];
    let err = db.migrate(&migrations, true, true, false, Target::Latest, TABLE).unwrap_err();
    match err.kind() {
        Kind::RepeatedVersion(repeated) => {
            assert_eq!(repeated.version(), 1);
            assert_eq!(repeated.name(), "again");
        }
        other => panic!("{:?}", other),
    }
    assert!(err.report().is_none());
}

#[test]
fn failing_table_assertion_carries_no_report() {
    let mut db = Database::empty();
    db.fail_execute_at = Some(0);
    let migrations = vec![versioned(1, "first", 1)];
    let err = db.migrate(&migrations, true, true, false, Target::Latest, TABLE).unwrap_err();
    match err.kind() {
        Kind::Connection(message, source) => {
            assert_eq!(message, "error asserting migrations table");
            assert_eq!(*source, Refused("call 0".to_string()));
        }
        other => panic!("{:?}", other),
    }
    assert!(err.report().is_none());
    assert!(db.committed.is_empty());
}

#[test]
fn failing_history_query_carries_no_report() {
    let mut db = Database::empty();
    db.fail_query = true;
    let migrations = vec![versioned(1, "first", 1)];
    let err = db.migrate(&migrations, true, true, false, Target::Latest, TABLE).unwrap_err();
    match err.kind() {
        Kind::Connection(message, _) => assert_eq!(message, "error getting applied migrations"),
        other => panic!("{:?}", other),
    }
    assert!(err.report().is_none());
    assert_eq!(db.committed.len(), 1);
}

#[test]
fn failing_body_reports_what_was_completed() {
    let mut db = Database::empty();
    db.fail_execute_at = Some(3);
    let migrations = vec![versioned(1, "first", 1), versioned(2, "second", 2)];
    let err = db.migrate(&migrations, true, true, false, Target::Latest, TABLE).unwrap_err();
    match err.kind() {
        Kind::Connection(message, _) => {
            assert_eq!(message, "error applying single migration: second")
        }
        other => panic!("{:?}", other),
    }
    assert_eq!(report_versions(err.report().unwrap()), vec![1]);
    assert_eq!(db.versions(), vec![1]);
    assert_eq!(db.committed.len(), 3);
}

#[test]
fn failing_history_write_reports_what_was_completed() {
    let mut db = Database::empty();
    db.fail_execute_at = Some(4);
    let migrations = vec![versioned(1, "first", 1), versioned(2, "second", 2)];
    let err = db.migrate(&migrations, true, true, false, Target::Latest, TABLE).unwrap_err();
    match err.kind() {
        Kind::Connection(message, _) => assert_eq!(message, "error applying update: second"),
        other => panic!("{:?}", other),
    }
    assert_eq!(report_versions(err.report().unwrap()), vec![1]);
    assert_eq!(db.committed.len(), 4);
}

#[test]
fn failing_first_step_reports_nothing_completed() {
    let mut db = Database::empty();
    db.fail_execute_at = Some(1);
    let migrations = vec![versioned(1, "first", 1)];
    let err = db.migrate(&migrations, true, true, false, Target::Latest, TABLE).unwrap_err();
    assert!(err.report().unwrap().applied_migrations().is_empty());
    assert_eq!(db.committed.len(), 1);
}

#[test]
fn failing_batch_reports_nothing_completed() {
    let mut db = Database::empty();
    db.fail_execute_at = Some(1);
    let migrations = vec![versioned(1, "first", 1), versioned(2, "second", 2)];
    let err = db.migrate(&migrations, true, true, true, Target::Latest, TABLE).unwrap_err();
    match err.kind() {
        Kind::Connection(message, _) => assert_eq!(message, "error applying batch migration"),
        other => panic!("{:?}", other),
    }
    assert!(err.report().unwrap().applied_migrations().is_empty());
    assert!(db.rows.is_empty());
    assert_eq!(db.committed.len(), 1);
}

#[test]
fn nothing_to_apply_commits_nothing_more() {
    let mut db = Database::empty();
    let report = db.migrate(&[], true, true, true, Target::Latest, TABLE).unwrap();
    assert!(report.applied_migrations().is_empty());
    assert_eq!(db.committed.len(), 1);
}

#[test]
fn reads_history_with_the_templates() {
    let mut db = Database::with_rows(&[(1, "first", 1), (4, "fourth", 4)]);
    let last = db.get_last_applied_migration(TABLE).unwrap().unwrap();
    assert_eq!(last.version(), 4);
    let all = db.get_applied_migrations(TABLE).unwrap();
    assert_eq!(all.len(), 2);
    assert_eq!(db.queries[0], "SELECT version, name, applied_on, checksum FROM refinery_schema_history WHERE version=(SELECT MAX(version) FROM refinery_schema_history)");
    assert_eq!(db.queries[1], "SELECT version, name, applied_on, checksum FROM refinery_schema_history ORDER BY version ASC;");
    assert_eq!(db.assert_migrations_table(TABLE).unwrap(), 1);
    assert_eq!(db.committed, vec![vec![CREATE.to_string()]]);
}

#[test]
fn unapplied_migrations_come_in_version_order() {
    let mut db = Database::with_rows(&[(2, "second", 2)]);
    let migrations = vec![
        versioned(5, "fifth", 5),
        versioned(2, "second", 2),
        rerunnable(1, "view", 1),
        versioned(3, "third", 3),
    ];
    let list = db.get_unapplied_migrations(&migrations, true, true, TABLE).unwrap();
    let versions: Vec<i32> = list.iter().map(|m| m.version()).collect();
    assert_eq!(versions, vec![1, 3, 5]);
}
