//! Migrations, targets and reports: the values a run works on.

use vstd::prelude::*;
use vstd::string::*;
use crate::text::{signed_decimal, u64_to_decimal};

verus! {

/// The kind of a migration, taken from the prefix of its name.
#[derive(Clone, Copy, Debug, PartialEq, Eq, Structural)]
pub enum Type {
    /// Applied once, in version order.
    Versioned,
    /// Carries no ordering promise of its own; the kind is informational.
    Unversioned,
    /// May be applied again on every run.
    Rerunnable,
}

/// Whether a migration has been applied.
#[derive(Clone, Copy, Debug, PartialEq, Eq, Structural)]
pub enum State {
    /// Not applied yet.
    Pending,
    /// Applied, or chosen to be applied in the current run.
    Applied,
}

/// How far a run goes.
#[derive(Clone, Copy, Debug, PartialEq, Eq, Structural)]
pub enum Target {
    /// Apply every pending migration.
    Latest,
    /// Apply pending migrations up to this version; rerunnable ones regardless.
    Version(i32),
    /// Run no migration body and only write the history rows.
    Fake,
    /// As `Fake`, up to this version.
    FakeVersion(i32),
}

impl Target {
    /// Whether the target only writes history rows.
    pub open spec fn is_fake(self) -> bool {
        self is Fake || self is FakeVersion
    }

    /// The version bound of the target, if it has one.
    pub open spec fn bound(self) -> Option<int> {
        match self {
            Target::Version(v) => Some(v as int),
            Target::FakeVersion(v) => Some(v as int),
            _ => None,
        }
    }

    /// Whether the target only writes history rows.
    pub fn fake(&self) -> (b: bool)
        ensures
            b == self.is_fake(),
    {
        match self {
            Target::Fake => true,
            Target::FakeVersion(_) => true,
            _ => false,
        }
    }
}

impl Type {
    /// The letter that stands for the kind in a migration's name.
    pub open spec fn letter(self) -> Seq<char> {
        match self {
            Type::Versioned => "V"@,
            Type::Unversioned => "U"@,
            Type::Rerunnable => "R"@,
        }
    }

    /// The letter that stands for the kind in a migration's name.
    pub fn as_letter(&self) -> (s: &'static str)
        ensures
            s@ == self.letter(),
    {
        match self {
            Type::Versioned => "V",
            Type::Unversioned => "U",
            Type::Rerunnable => "R",
        }
    }
}

/// What a migration is, as plain values.
pub struct MigrationView {
    pub state: State,
    pub name: Seq<char>,
    pub checksum: u64,
    pub version: int,
    pub prefix: Type,
    pub sql: Option<Seq<char>>,
    pub applied_on: Option<i128>,
}

impl MigrationView {
    /// The same migration, marked as applied.
    pub open spec fn marked_applied(self) -> MigrationView {
        MigrationView { state: State::Applied, ..self }
    }

    /// The short rendering used in messages: kind letter, version, two underscores, name.
    pub open spec fn text(self) -> Seq<char> {
        self.prefix.letter() + signed_decimal(self.version) + "__"@ + self.name
    }
}

/// A uniquely versioned schema change.
///
/// A migration supplied by a caller carries its SQL body; one read back from the
/// history table carries the instant at which it was applied instead. Its version is
/// never negative.
#[derive(Debug, PartialEq, Eq)]
pub struct Migration {
    state: State,
    name: String,
    checksum: u64,
    version: i32,
    prefix: Type,
    sql: Option<String>,
    applied_on: Option<i128>,
}

impl View for Migration {
    type V = MigrationView;

    closed spec fn view(&self) -> MigrationView {
        MigrationView {
            state: self.state,
            name: self.name@,
            checksum: self.checksum,
            version: self.version as int,
            prefix: self.prefix,
            sql: match self.sql {
                Some(s) => Some(s@),
                None => None,
            },
            applied_on: self.applied_on,
        }
    }
}

impl Migration {
    #[verifier::type_invariant]
    spec fn well_formed(&self) -> bool {
        self.version >= 0
    }

    /// A pending migration with its SQL body, or `None` for a negative version.
    pub fn unapplied(version: i32, prefix: Type, name: &str, sql: &str, checksum: u64) -> (r:
        Option<Migration>)
        ensures
            r is Some <==> version >= 0,
            r matches Some(m) ==> m@ == (MigrationView {
                state: State::Pending,
                name: name@,
                checksum,
                version: version as int,
                prefix,
                sql: Some(sql@),
                applied_on: None,
            }),
    {
        if version < 0 {
            None
        } else {
            Some(
                Migration {
                    state: State::Pending,
                    name: String::from_str(name),
                    checksum,
                    version,
                    prefix,
                    sql: Some(String::from_str(sql)),
                    applied_on: None,
                },
            )
        }
    }

    /// A migration as the history table records it, or `None` for a negative version.
    ///
    /// `applied_on` is the instant of application in nanoseconds since the Unix epoch.
    /// The history table does not record a kind: the migration counts as versioned.
    pub fn applied(version: i32, name: String, applied_on: i128, checksum: u64) -> (r: Option<
        Migration,
    >)
        ensures
            r is Some <==> version >= 0,
            r matches Some(m) ==> m@ == (MigrationView {
                state: State::Applied,
                name: name@,
                checksum,
                version: version as int,
                prefix: Type::Versioned,
                sql: None,
                applied_on: Some(applied_on),
            }),
    {
        if version < 0 {
            None
        } else {
            Some(
                Migration {
                    state: State::Applied,
                    name,
                    checksum,
                    version,
                    prefix: Type::Versioned,
                    sql: None,
                    applied_on: Some(applied_on),
                },
            )
        }
    }

    /// Marks the migration as applied.
    pub fn set_applied(&mut self)
        ensures
            final(self)@ == old(self)@.marked_applied(),
    {
        proof {
            use_type_invariant(&*self);
        }
        self.state = State::Applied;
    }

    /// The version, which is never negative.
    pub fn version(&self) -> (v: i32)
        ensures
            v == self@.version,
            v >= 0,
    {
        proof {
            use_type_invariant(self);
        }
        self.version
    }

    /// The kind.
    pub fn prefix(&self) -> (p: &Type)
        ensures
            *p == self@.prefix,
    {
        &self.prefix
    }

    /// The name.
    pub fn name(&self) -> (n: &str)
        ensures
            n@ == self@.name,
    {
        self.name.as_str()
    }

    /// The fingerprint of the SQL body.
    pub fn checksum(&self) -> (c: u64)
        ensures
            c == self@.checksum,
    {
        self.checksum
    }

    /// The SQL body, if the migration carries one.
    pub fn sql(&self) -> (s: Option<&str>)
        ensures
            s is Some <==> self@.sql is Some,
            s matches Some(body) ==> self@.sql == Some(body@),
    {
        match &self.sql {
            Some(s) => Some(s.as_str()),
            None => None,
        }
    }

    /// The instant of application in nanoseconds since the Unix epoch, if recorded.
    pub fn applied_on(&self) -> (t: Option<i128>)
        ensures
            t == self@.applied_on,
    {
        self.applied_on
    }

    /// Whether the migration is pending or applied.
    pub fn state(&self) -> (s: State)
        ensures
            s == self@.state,
    {
        self.state
    }

    /// The short rendering used in messages, such as `V3__add_users`.
    pub fn to_text(&self) -> (s: String)
        ensures
            s@ == self@.text(),
    {
        proof {
            use_type_invariant(self);
        }
        let mut s = String::from_str(self.prefix.as_letter());
        let digits = u64_to_decimal(self.version as u64);
        s.append(digits.as_str());
        s.append("__");
        s.append(self.name.as_str());
        s
    }
}

impl Clone for Migration {
    fn clone(&self) -> (r: Self)
        ensures
            r@ == self@,
    {
        proof {
            use_type_invariant(self);
        }
        let sql = match &self.sql {
            Some(s) => Some(s.clone()),
            None => None,
        };
        Migration {
            state: self.state,
            name: self.name.clone(),
            checksum: self.checksum,
            version: self.version,
            prefix: self.prefix,
            sql,
            applied_on: self.applied_on,
        }
    }
}

/// The views of a sequence of migrations, in order.
pub open spec fn views(migrations: Seq<Migration>) -> Seq<MigrationView> {
    migrations.map_values(|m: Migration| m@)
}

/// Copies a list of migrations.
pub fn clone_migrations(migrations: &[Migration]) -> (r: Vec<Migration>)
    ensures
        views(r@) == views(migrations@),
{
    let mut out: Vec<Migration> = Vec::new();
    let mut i: usize = 0;
    while i < migrations.len()
        invariant
            i <= migrations@.len(),
            out@.len() == i,
            forall|j: int| 0 <= j < i ==> out@[j]@ == migrations@[j]@,
        decreases migrations@.len() - i,
    {
        out.push(migrations[i].clone());
        i = i + 1;
    }
    assert(views(out@) =~= views(migrations@));
    out
}

/// The migrations applied during a run, in the order of their application.
#[derive(Debug, PartialEq, Eq)]
pub struct Report {
    applied_migrations: Vec<Migration>,
}

impl View for Report {
    type V = Seq<MigrationView>;

    closed spec fn view(&self) -> Seq<MigrationView> {
        views(self.applied_migrations@)
    }
}

impl Report {
    /// A report of the given migrations.
    pub fn new(applied_migrations: Vec<Migration>) -> (r: Report)
        ensures
            r@ == views(applied_migrations@),
    {
        Report { applied_migrations }
    }

    /// The migrations applied during the run.
    pub fn applied_migrations(&self) -> (r: &Vec<Migration>)
        ensures
            views(r@) == self@,
    {
        &self.applied_migrations
    }
}

impl Clone for Report {
    fn clone(&self) -> (r: Self)
        ensures
            r@ == self@,
    {
        Report { applied_migrations: clone_migrations(self.applied_migrations.as_slice()) }
    }
}

} // verus!
