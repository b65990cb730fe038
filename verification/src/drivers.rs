//! What the backends share: how a row of the history table becomes a migration.

use vstd::prelude::*;
use crate::clock::{parse_timestamp, rfc3339_instant};
use crate::runner::{Migration, MigrationView, State, Type};
use crate::text::{parse_u64, unsigned_decimal};

verus! {

/// The migration that a row of the history table records.
///
/// The columns come in the order of the table: version, name, the timestamp of
/// application as RFC 3339 text, and the checksum as unsigned decimal text. There is
/// no migration where the version is negative, the timestamp is no RFC 3339 text, or
/// the checksum is no decimal number of 64 bits.
pub open spec fn row_migration(
    version: int,
    name: Seq<char>,
    applied_on: Seq<char>,
    checksum: Seq<char>,
) -> Option<MigrationView> {
    match (rfc3339_instant(applied_on), unsigned_decimal(checksum)) {
        (Some(instant), Some(sum)) => if version >= 0 && sum <= u64::MAX {
            Some(
                MigrationView {
                    state: State::Applied,
                    name,
                    checksum: sum as u64,
                    version,
                    prefix: Type::Versioned,
                    sql: None,
                    applied_on: Some(instant),
                },
            )
        } else {
            None
        },
        _ => None,
    }
}

/// Makes the applied migration that a row of the history table records, or `None`
/// where the row does not record one.
pub fn migration_from_row(version: i32, name: String, applied_on: &str, checksum: &str) -> (r:
    Option<Migration>)
    ensures
        match r {
            Some(migration) => row_migration(version as int, name@, applied_on@, checksum@)
                == Some(migration@),
            None => row_migration(version as int, name@, applied_on@, checksum@) is None,
        },
{
    let instant = match parse_timestamp(applied_on) {
        Some(instant) => instant,
        None => {
            return None;
        },
    };
    let sum = match parse_u64(checksum) {
        Some(sum) => sum,
        None => {
            return None;
        },
    };
    Migration::applied(version, name, instant, sum)
}

} // verus!
