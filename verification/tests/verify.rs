use refinery_core::traits::verify_migrations;
use refinery_core::{Error, Kind, Migration, Type};

fn desired(version: i32, prefix: Type, checksum: u64) -> Migration {
    let name = format!("m{}", version);
    Migration::unapplied(version, prefix, &name, "SELECT 1;", checksum).unwrap()
}

fn versioned(version: i32, checksum: u64) -> Migration {
    desired(version, Type::Versioned, checksum)
}

fn row(version: i32, checksum: u64) -> Migration {
    Migration::applied(version, format!("m{}", version), 1_000, checksum).unwrap()
}

fn check(
    applied: Vec<Migration>,
    migrations: Vec<Migration>,
    abort_divergent: bool,
    abort_missing: bool,
) -> Result<Vec<Migration>, Error<()>> {
    verify_migrations(applied, migrations, abort_divergent, abort_missing)
}

fn versions(list: &[Migration]) -> Vec<i32> {
    list.iter().map(|m| m.version()).collect()
}

#[test]
fn nothing_gives_nothing() {
    assert!(check(vec![], vec![], true, true).unwrap().is_empty());
}

#[test]
fn empty_history_gives_all_in_order() {
    let list = check(vec![], vec![versioned(3, 3), versioned(1, 1), versioned(2, 2)], true, true)
        .unwrap();
    assert_eq!(versions(&list), vec![1, 2, 3]);
    assert_eq!(list[0], versioned(1, 1));
}

#[test]
fn only_versions_above_the_history_are_left() {
    let list = check(
        vec![row(1, 1), row(2, 2)],
        vec![versioned(1, 1), versioned(2, 2), versioned(3, 3), versioned(4, 4)],
        true,
        true,
    )
    .unwrap();
    assert_eq!(versions(&list), vec![3, 4]);
}

#[test]
fn version_below_the_history_is_not_applied_late() {
    let list = check(vec![row(3, 3)], vec![versioned(2, 2), versioned(3, 3), versioned(5, 5)], true, true)
        .unwrap();
    assert_eq!(versions(&list), vec![5]);
}

#[test]
fn highest_applied_version_counts_whatever_the_order() {
    let list = check(
        vec![row(4, 4), row(1, 1)],
        vec![versioned(1, 1), versioned(3, 3), versioned(4, 4), versioned(5, 5)],
        true,
        true,
    )
    .unwrap();
    assert_eq!(versions(&list), vec![5]);
}

#[test]
fn rerunnable_is_always_left() {
    let list = check(
        vec![row(1, 1), row(2, 2), row(3, 3)],
        vec![
            versioned(3, 3),
            desired(2, Type::Rerunnable, 2),
            versioned(1, 1),
            desired(0, Type::Rerunnable, 0),
        ],
        true,
        true,
    )
    .unwrap();
    assert_eq!(versions(&list), vec![0, 2]);
}

#[test]
fn unversioned_counts_as_not_rerunnable() {
    let list = check(
        vec![row(2, 2)],
        vec![desired(1, Type::Unversioned, 1), versioned(2, 2), desired(3, Type::Unversioned, 3)],
        true,
        true,
    )
    .unwrap();
    assert_eq!(versions(&list), vec![3]);
}

#[test]
fn repeated_version_carries_the_later_one() {
    let err = check(
        vec![],
        vec![versioned(1, 10), versioned(2, 20), versioned(1, 30), versioned(2, 40)],
        false,
        false,
    )
    .unwrap_err();
    match err.kind() {
        Kind::RepeatedVersion(m) => {
            assert_eq!(m.version(), 1);
            assert_eq!(m.checksum(), 30);
        }
        other => panic!("{:?}", other),
    }
    assert!(err.report().is_none());
}

#[test]
fn repeated_version_comes_before_other_objections() {
    let err = check(vec![row(9, 9)], vec![versioned(1, 1), versioned(1, 1)], true, true).unwrap_err();
    assert!(matches!(err.kind(), Kind::RepeatedVersion(_)));
}

#[test]
fn missing_version_carries_the_applied_one() {
    let err = check(vec![row(1, 1), row(2, 2)], vec![versioned(1, 1), versioned(3, 3)], true, true)
        .unwrap_err();
    match err.kind() {
        Kind::MissingVersion(m) => assert_eq!(*m, row(2, 2)),
        other => panic!("{:?}", other),
    }
    assert!(err.report().is_none());
}

#[test]
fn missing_version_without_abort() {
    let list = check(vec![row(1, 1), row(2, 2)], vec![versioned(1, 1), versioned(3, 3)], true, false)
        .unwrap();
    assert_eq!(versions(&list), vec![3]);
}

#[test]
fn divergent_version_carries_both() {
    let err = check(vec![row(1, 1), row(2, 2)], vec![versioned(2, 22), versioned(1, 1)], true, true)
        .unwrap_err();
    match err.kind() {
        Kind::DivergentVersion(applied, caller) => {
            assert_eq!(*applied, row(2, 2));
            assert_eq!(*caller, versioned(2, 22));
        }
        other => panic!("{:?}", other),
    }
    assert!(err.report().is_none());
}

#[test]
fn divergent_version_without_abort() {
    let list =
        check(vec![row(1, 1)], vec![versioned(1, 11), versioned(2, 2)], false, true).unwrap();
    assert_eq!(versions(&list), vec![2]);
}

#[test]
fn same_checksum_with_other_name_does_not_diverge() {
    let applied = Migration::applied(1, "old_name".to_string(), 5, 1).unwrap();
    let list = check(vec![applied], vec![versioned(1, 1)], true, true).unwrap();
    assert!(list.is_empty());
}

#[test]
fn first_objection_in_history_order_wins() {
    let err = check(
        vec![row(1, 1), row(2, 2)],
        vec![versioned(2, 22)],
        true,
        true,
    )
    .unwrap_err();
    assert!(matches!(err.kind(), Kind::MissingVersion(m) if m.version() == 1));
    let err = check(
        vec![row(2, 2), row(1, 1)],
        vec![versioned(2, 22)],
        true,
        true,
    )
    .unwrap_err();
    assert!(matches!(err.kind(), Kind::DivergentVersion(m, _) if m.version() == 2));
}

#[test]
fn divergence_is_found_behind_a_missing_one_that_does_not_abort() {
    let err = check(vec![row(1, 1), row(2, 2)], vec![versioned(2, 22)], true, false).unwrap_err();
    assert!(matches!(err.kind(), Kind::DivergentVersion(m, _) if m.version() == 2));
}

#[test]
fn rerunnable_history_entry_is_not_held_against_the_caller() {
    let rerun = desired(1, Type::Rerunnable, 1);
    let list = check(vec![rerun], vec![versioned(1, 11), versioned(2, 2)], true, true).unwrap();
    assert_eq!(versions(&list), vec![2]);
    let rerun = desired(7, Type::Rerunnable, 1);
    let list = check(vec![rerun], vec![versioned(8, 8)], true, true).unwrap();
    assert_eq!(versions(&list), vec![8]);
}

#[test]
fn divergence_is_raised_only_on_abort() {
    for abort_missing in [false, true] {
        let applied = || vec![row(1, 1), row(2, 2)];
        let caller = || vec![versioned(1, 1), versioned(2, 99), versioned(3, 3)];
        let with = check(applied(), caller(), true, abort_missing);
        assert!(matches!(with.unwrap_err().kind(), Kind::DivergentVersion(_, _)));
        let without = check(applied(), caller(), false, abort_missing);
        assert_eq!(versions(&without.unwrap()), vec![3]);
    }
}
