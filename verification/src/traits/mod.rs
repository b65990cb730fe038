//! The SQL of the history table, and the check of the caller's migrations against
//! the history that the database holds.

pub mod sync;

use vstd::prelude::*;
use vstd::string::*;
use crate::error::{Error, Kind};
use crate::runner::{views, Migration, MigrationView, Type};
use crate::text::{decimal, replace, replaced, signed_decimal, u64_to_decimal};

verus! {

/// What stands for the name of the history table in the query templates.
pub const TABLE_NAME_PLACEHOLDER: &'static str = "%MIGRATION_TABLE_NAME%";

/// The name of the history table where the caller chooses none.
pub const DEFAULT_MIGRATION_TABLE_NAME: &'static str = "refinery_schema_history";

/// Creates the history table unless it exists.
pub const ASSERT_MIGRATIONS_TABLE_QUERY: &'static str =
    "CREATE TABLE IF NOT EXISTS %MIGRATION_TABLE_NAME%(version INTEGER PRIMARY KEY, name TEXT NOT NULL, applied_on TEXT NOT NULL, checksum TEXT NOT NULL);";

/// Selects the history row of the highest version.
pub const GET_LAST_APPLIED_MIGRATION_QUERY: &'static str =
    "SELECT version, name, applied_on, checksum FROM %MIGRATION_TABLE_NAME% WHERE version=(SELECT MAX(version) FROM %MIGRATION_TABLE_NAME%)";

/// Selects every history row, lowest version first.
pub const GET_APPLIED_MIGRATIONS_QUERY: &'static str =
    "SELECT version, name, applied_on, checksum FROM %MIGRATION_TABLE_NAME% ORDER BY version ASC;";

/// A query template with the table name put in place of every placeholder.
pub open spec fn for_table(template: Seq<char>, table_name: Seq<char>) -> Seq<char> {
    replaced(template, TABLE_NAME_PLACEHOLDER@, table_name)
}

fn fill_template(template: &str, table_name: &str) -> (query: String)
    ensures
        query@ == for_table(template@, table_name@),
{
    proof {
        reveal_strlit("%MIGRATION_TABLE_NAME%");
    }
    replace(template, TABLE_NAME_PLACEHOLDER, table_name)
}

/// The statement that creates the history table of the given name unless it exists.
pub fn assert_migrations_table_query(migration_table_name: &str) -> (query: String)
    ensures
        query@ == for_table(ASSERT_MIGRATIONS_TABLE_QUERY@, migration_table_name@),
{
    fill_template(ASSERT_MIGRATIONS_TABLE_QUERY, migration_table_name)
}

/// The query for the history row of the highest version.
pub fn get_last_applied_migration_query(migration_table_name: &str) -> (query: String)
    ensures
        query@ == for_table(GET_LAST_APPLIED_MIGRATION_QUERY@, migration_table_name@),
{
    fill_template(GET_LAST_APPLIED_MIGRATION_QUERY, migration_table_name)
}

/// The query for every history row, lowest version first.
pub fn get_applied_migrations_query(migration_table_name: &str) -> (query: String)
    ensures
        query@ == for_table(GET_APPLIED_MIGRATIONS_QUERY@, migration_table_name@),
{
    fill_template(GET_APPLIED_MIGRATIONS_QUERY, migration_table_name)
}

/// The statement that writes the history row of a migration: its version, its name,
/// the timestamp of its application and its checksum in decimal.
pub open spec fn insert_query(
    migration: MigrationView,
    table_name: Seq<char>,
    applied_on: Seq<char>,
) -> Seq<char> {
    "INSERT INTO "@ + table_name + " (version, name, applied_on, checksum) VALUES ("@
        + signed_decimal(migration.version) + ", '"@ + migration.name + "', '"@ + applied_on
        + "', '"@ + decimal(migration.checksum as nat) + "')"@
}

/// The statement that writes the history row of `migration` into the table
/// `migration_table_name`, stamped with the RFC 3339 timestamp `applied_on`.
pub fn insert_migration_query(
    migration: &Migration,
    migration_table_name: &str,
    applied_on: &str,
) -> (query: String)
    ensures
        query@ == insert_query(migration@, migration_table_name@, applied_on@),
{
    let version = migration.version();
    let mut query = String::from_str("INSERT INTO ");
    query.append(migration_table_name);
    query.append(" (version, name, applied_on, checksum) VALUES (");
    query.append(u64_to_decimal(version as u64).as_str());
    query.append(", '");
    query.append(migration.name());
    query.append("', '");
    query.append(applied_on);
    query.append("', '");
    query.append(u64_to_decimal(migration.checksum()).as_str());
    query.append("')");
    query
}

/// The index of the first entry of `list` at or after `from` that has the given
/// version, or the length of `list` where there is none.
pub open spec fn position_of(list: Seq<MigrationView>, version: int, from: int) -> int
    decreases list.len() - from,
{
    if from < 0 || from >= list.len() {
        list.len() as int
    } else if list[from].version == version {
        from
    } else {
        position_of(list, version, from + 1)
    }
}

/// Whether some entry of `list` has the given version.
pub open spec fn has_version(list: Seq<MigrationView>, version: int) -> bool {
    exists|i: int| 0 <= i < list.len() && (#[trigger] list[i]).version == version
}

/// Whether the entry at `index` has the version of an earlier entry.
pub open spec fn repeats_earlier(list: Seq<MigrationView>, index: int) -> bool {
    0 <= index < list.len() && position_of(list, list[index].version, 0) < index
}

/// The index of the first entry at or after `from` that has the version of an
/// earlier entry, or the length of `list` where there is none.
pub open spec fn first_repeat(list: Seq<MigrationView>, from: int) -> int
    decreases list.len() - from,
{
    if from < 0 || from >= list.len() {
        list.len() as int
    } else if repeats_earlier(list, from) {
        from
    } else {
        first_repeat(list, from + 1)
    }
}

/// Whether no two entries share a version.
pub open spec fn versions_unique(list: Seq<MigrationView>) -> bool {
    forall|i: int, j: int|
        0 <= i < j < list.len() ==> (#[trigger] list[i]).version != (#[trigger] list[j]).version
}

/// Whether the versions rise strictly from each entry to the next.
pub open spec fn strictly_ascending(list: Seq<MigrationView>) -> bool {
    forall|i: int, j: int|
        0 <= i < j < list.len() ==> (#[trigger] list[i]).version < (#[trigger] list[j]).version
}

/// Whether `migration` is still to be applied, given the history `applied`: it is
/// rerunnable, or its version lies above every applied version.
pub open spec fn pending(migration: MigrationView, applied: Seq<MigrationView>) -> bool {
    migration.prefix == Type::Rerunnable || forall|i: int|
        0 <= i < applied.len() ==> (#[trigger] applied[i]).version < migration.version
}

/// Whether `list` is what is to be applied of `desired`, given the history
/// `applied`: the pending entries of `desired`, each once, in ascending version order.
pub open spec fn is_to_apply(
    list: Seq<MigrationView>,
    applied: Seq<MigrationView>,
    desired: Seq<MigrationView>,
) -> bool {
    &&& strictly_ascending(list)
    &&& forall|m: MigrationView| #[trigger]
        list.contains(m) <==> desired.contains(m) && pending(m, applied)
}

/// Whether `item` is a pending entry among the first `upto` entries of `desired`.
spec fn taken_from(
    item: MigrationView,
    desired: Seq<MigrationView>,
    upto: int,
    applied: Seq<MigrationView>,
) -> bool {
    exists|d: int| 0 <= d < upto && #[trigger] desired[d] == item && pending(item, applied)
}

/// What the check of the caller's migrations against the history finds.
pub enum Verdict {
    /// A migration of the caller that has the version of an earlier one.
    Repeated(MigrationView),
    /// An applied migration that the caller's set does not hold.
    Missing(MigrationView),
    /// An applied migration, and the caller's migration of the same version with
    /// another checksum.
    Divergent(MigrationView, MigrationView),
    /// Nothing stands against the run.
    Accepted,
}

/// What stands against one applied migration. A rerunnable one is never held
/// against the caller's set. Another one is missing where `desired` has no entry of
/// its version, which counts if `abort_missing`; it is divergent where that entry has
/// another checksum, which counts if `abort_divergent`.
pub open spec fn objection(
    applied: MigrationView,
    desired: Seq<MigrationView>,
    abort_divergent: bool,
    abort_missing: bool,
) -> Verdict {
    let at = position_of(desired, applied.version, 0);
    if applied.prefix == Type::Rerunnable {
        Verdict::Accepted
    } else if at >= desired.len() {
        if abort_missing {
            Verdict::Missing(applied)
        } else {
            Verdict::Accepted
        }
    } else if desired[at].checksum != applied.checksum {
        if abort_divergent {
            Verdict::Divergent(applied, desired[at])
        } else {
            Verdict::Accepted
        }
    } else {
        Verdict::Accepted
    }
}

/// The objection against the first applied migration, at or after `from`, that has
/// one.
pub open spec fn first_objection(
    applied: Seq<MigrationView>,
    desired: Seq<MigrationView>,
    abort_divergent: bool,
    abort_missing: bool,
    from: int,
) -> Verdict
    decreases applied.len() - from,
{
    if from < 0 || from >= applied.len() {
        Verdict::Accepted
    } else {
        let found = objection(applied[from], desired, abort_divergent, abort_missing);
        if found is Accepted {
            first_objection(applied, desired, abort_divergent, abort_missing, from + 1)
        } else {
            found
        }
    }
}

/// The outcome of the check: a repeated version among the caller's migrations comes
/// first, then the applied migrations are gone through in their order.
pub open spec fn verdict(
    applied: Seq<MigrationView>,
    desired: Seq<MigrationView>,
    abort_divergent: bool,
    abort_missing: bool,
) -> Verdict {
    let repeat = first_repeat(desired, 0);
    if repeat < desired.len() {
        Verdict::Repeated(desired[repeat])
    } else {
        first_objection(applied, desired, abort_divergent, abort_missing, 0)
    }
}

/// Whether the kind of an error reports the given verdict.
pub open spec fn reports<E>(kind: Kind<E>, verdict: Verdict) -> bool {
    match verdict {
        Verdict::Repeated(m) => kind matches Kind::RepeatedVersion(carried) && carried@ == m,
        Verdict::Missing(a) => kind matches Kind::MissingVersion(carried) && carried@ == a,
        Verdict::Divergent(a, d) => kind matches Kind::DivergentVersion(was, is) && was@ == a
            && is@ == d,
        Verdict::Accepted => false,
    }
}

/// Where `position_of` points, the version is found, and not before.
pub proof fn lemma_position_of(list: Seq<MigrationView>, version: int, from: int)
    requires
        0 <= from <= list.len(),
    ensures
        from <= position_of(list, version, from) <= list.len(),
        position_of(list, version, from) < list.len() ==> list[position_of(
            list,
            version,
            from,
        )].version == version,
        forall|k: int|
            from <= k < position_of(list, version, from) ==> (#[trigger] list[k]).version
                != version,
    decreases list.len() - from,
{
    if from < list.len() && list[from].version != version {
        lemma_position_of(list, version, from + 1);
    }
}

/// A list without a repeat has unique versions.
pub proof fn lemma_no_repeat_unique(list: Seq<MigrationView>, from: int)
    requires
        0 <= from <= list.len(),
        first_repeat(list, from) == list.len(),
    ensures
        forall|i: int, j: int|
            0 <= i < j < list.len() && from <= j ==> (#[trigger] list[i]).version != (
            #[trigger] list[j]).version,
    decreases list.len() - from,
{
    if from < list.len() {
        lemma_no_repeat_unique(list, from + 1);
        lemma_position_of(list, list[from].version, 0);
    }
}

fn find_version(list: &Vec<Migration>, version: i32) -> (at: usize)
    ensures
        at == position_of(views(list@), version as int, 0),
        at <= list@.len(),
{
    let ghost all = views(list@);
    let mut at: usize = 0;
    while at < list.len()
        invariant
            at <= list@.len(),
            all == views(list@),
            position_of(all, version as int, 0) == position_of(all, version as int, at as int),
        decreases list@.len() - at,
    {
        if list[at].version() == version {
            return at;
        }
        at = at + 1;
    }
    at
}

fn highest_version(applied: &Vec<Migration>) -> (highest: i32)
    ensures
        highest >= -1,
        forall|i: int| 0 <= i < applied@.len() ==> (#[trigger] views(applied@)[i]).version <= highest,
        highest == -1 || exists|i: int|
            0 <= i < applied@.len() && (#[trigger] views(applied@)[i]).version == highest,
{
    let ghost all = views(applied@);
    let mut highest: i32 = -1;
    let mut i: usize = 0;
    while i < applied.len()
        invariant
            i <= applied@.len(),
            all == views(applied@),
            highest >= -1,
            forall|k: int| 0 <= k < i ==> (#[trigger] all[k]).version <= highest,
            highest == -1 || exists|k: int| 0 <= k < i && (#[trigger] all[k]).version == highest,
        decreases applied@.len() - i,
    {
        let version = applied[i].version();
        if version > highest {
            highest = version;
            assert(all[i as int].version == highest);
        }
        i = i + 1;
    }
    highest
}

/// Puts `migration` into the ascending `list` at its place by version.
fn insert_by_version(list: &mut Vec<Migration>, migration: Migration)
    requires
        strictly_ascending(views(old(list)@)),
        forall|k: int|
            0 <= k < old(list)@.len() ==> (#[trigger] views(old(list)@)[k]).version
                != migration@.version,
    ensures
        strictly_ascending(views(final(list)@)),
        exists|at: int|
            0 <= at <= old(list)@.len() && views(final(list)@) == #[trigger] views(
                old(list)@,
            ).insert(at, migration@),
{
    let version = migration.version();
    let ghost before = views(list@);
    let mut at: usize = 0;
    while at < list.len() && list[at].version() < version
        invariant
            at <= list@.len(),
            before == views(list@),
            forall|k: int| 0 <= k < at ==> (#[trigger] before[k]).version < version,
        decreases list@.len() - at,
    {
        at = at + 1;
    }
    list.insert(at, migration);
    proof {
        let after = views(list@);
        assert(after =~= before.insert(at as int, migration@));
        assert forall|i: int, j: int| 0 <= i < j < after.len() implies (#[trigger] after[i]).version
            < (#[trigger] after[j]).version by {
            if j < at {
                assert(after[i] == before[i] && after[j] == before[j]);
            } else if j == at {
                assert(after[i] == before[i]);
            } else if i < at {
                assert(after[i] == before[i] && after[j] == before[j - 1]);
                assert(before[at as int].version >= version);
                if j - 1 > at {
                    assert(before[at as int].version < before[j - 1].version);
                }
            } else if i == at {
                assert(after[j] == before[j - 1]);
                assert(before[at as int].version >= version);
                assert(before[j - 1].version != version);
                if j - 1 > at {
                    assert(before[at as int].version < before[j - 1].version);
                }
            } else {
                assert(after[i] == before[i - 1] && after[j] == before[j - 1]);
            }
        }
    }
}

/// Checks the caller's `migrations` against the `applied` history and gives what is
/// still to be applied.
///
/// A version that occurs twice among `migrations` is refused first. Then each applied
/// migration that is not rerunnable is held against `migrations`, in the order of
/// `applied`: one that `migrations` lacks is refused if `abort_missing`, one whose
/// checksum differs from its counterpart is refused if `abort_divergent`. What is left
/// to apply are the rerunnable migrations and those above every applied version, in
/// ascending version order. No error carries a report.
pub fn verify_migrations<E>(
    applied: Vec<Migration>,
    migrations: Vec<Migration>,
    abort_divergent: bool,
    abort_missing: bool,
) -> (r: Result<Vec<Migration>, Error<E>>)
    ensures
        match r {
            Ok(list) => verdict(views(applied@), views(migrations@), abort_divergent, abort_missing)
                is Accepted && is_to_apply(views(list@), views(applied@), views(migrations@)),
            Err(e) => e@.report is None && reports(
                e@.kind,
                verdict(views(applied@), views(migrations@), abort_divergent, abort_missing),
            ),
        },
{
    let ghost history = views(applied@);
    let ghost desired = views(migrations@);
    let count = migrations.len();
    let mut j: usize = 0;
    while j < count
        invariant
            j <= count,
            count == migrations@.len(),
            desired == views(migrations@),
            first_repeat(desired, 0) == first_repeat(desired, j as int),
        decreases count - j,
    {
        let first = find_version(&migrations, migrations[j].version());
        if first < j {
            let repeated = migrations[j].clone();
            return Err(Error::new(Kind::RepeatedVersion(repeated), None));
        }
        j = j + 1;
    }
    proof {
        lemma_no_repeat_unique(desired, 0);
    }
    let mut i: usize = 0;
    while i < applied.len()
        invariant
            i <= applied@.len(),
            history == views(applied@),
            desired == views(migrations@),
            first_repeat(desired, 0) == desired.len(),
            first_objection(history, desired, abort_divergent, abort_missing, 0)
                == first_objection(history, desired, abort_divergent, abort_missing, i as int),
        decreases applied@.len() - i,
    {
        let entry = &applied[i];
        if !matches!(entry.prefix(), Type::Rerunnable) {
            let at = find_version(&migrations, entry.version());
            if at >= migrations.len() {
                if abort_missing {
                    return Err(Error::new(Kind::MissingVersion(entry.clone()), None));
                }
            } else if migrations[at].checksum() != entry.checksum() {
                if abort_divergent {
                    return Err(
                        Error::new(
                            Kind::DivergentVersion(entry.clone(), migrations[at].clone()),
                            None,
                        ),
                    );
                }
            }
        }
        i = i + 1;
    }
    let highest = highest_version(&applied);
    let mut to_apply: Vec<Migration> = Vec::new();
    let mut k: usize = 0;
    while k < count
        invariant
            k <= count,
            count == migrations@.len(),
            history == views(applied@),
            desired == views(migrations@),
            versions_unique(desired),
            highest >= -1,
            forall|a: int| 0 <= a < history.len() ==> (#[trigger] history[a]).version <= highest,
            highest == -1 || exists|a: int|
                0 <= a < history.len() && (#[trigger] history[a]).version == highest,
            strictly_ascending(views(to_apply@)),
            forall|t: int|
                0 <= t < to_apply@.len() ==> taken_from(
                    #[trigger] views(to_apply@)[t],
                    desired,
                    k as int,
                    history,
                ),
            forall|d: int|
                0 <= d < k && pending(#[trigger] desired[d], history) ==> views(
                    to_apply@,
                ).contains(desired[d]),
        decreases count - k,
    {
        let candidate = &migrations[k];
        let version = candidate.version();
        let is_pending = matches!(candidate.prefix(), Type::Rerunnable) || version > highest;
        assert(is_pending == pending(desired[k as int], history));
        if is_pending {
            let ghost before = views(to_apply@);
            assert forall|t: int| 0 <= t < before.len() implies (#[trigger] before[t]).version
                != candidate@.version by {
                assert(taken_from(before[t], desired, k as int, history));
                let d = choose|d: int| 0 <= d < k && #[trigger] desired[d] == before[t];
                assert(desired[d].version != desired[k as int].version);
            }
            insert_by_version(&mut to_apply, candidate.clone());
            proof {
                let after = views(to_apply@);
                let at = choose|at: int|
                    0 <= at <= before.len() && after == #[trigger] before.insert(at, candidate@);
                assert forall|t: int| 0 <= t < after.len() implies taken_from(
                    #[trigger] after[t],
                    desired,
                    k + 1,
                    history,
                ) by {
                    if t < at {
                        assert(after[t] == before[t]);
                        assert(taken_from(before[t], desired, k as int, history));
                    } else if t == at {
                        assert(desired[k as int] == after[t]);
                    } else {
                        assert(after[t] == before[t - 1]);
                        assert(taken_from(before[t - 1], desired, k as int, history));
                    }
                }
                assert forall|d: int|
                    0 <= d < k + 1 && pending(#[trigger] desired[d], history) implies after.contains(
                    desired[d],
                ) by {
                    if d == k {
                        assert(after[at] == desired[d]);
                    } else {
                        let t = choose|t: int| 0 <= t < before.len() && before[t] == desired[d];
                        if t < at {
                            assert(after[t] == desired[d]);
                        } else {
                            assert(after[t + 1] == desired[d]);
                        }
                    }
                }
            }
        }
        k = k + 1;
    }
    proof {
        let list = views(to_apply@);
        assert forall|m: MigrationView| #[trigger]
            list.contains(m) <==> desired.contains(m) && pending(m, history) by {
            if list.contains(m) {
                let t = choose|t: int| 0 <= t < list.len() && list[t] == m;
                assert(taken_from(list[t], desired, count as int, history));
                assert(desired.contains(m));
            }
            if desired.contains(m) && pending(m, history) {
                let d = choose|d: int| 0 <= d < desired.len() && desired[d] == m;
                assert(list.contains(desired[d]));
            }
        }
    }
    Ok(to_apply)
}

} // verus!
