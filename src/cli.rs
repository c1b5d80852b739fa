//! The migration commands, as plain values, and the backend list.
use vstd::prelude::*;
use crate::engine::{Backend, RevertCount};

verus! {

/// The format of a generated migration.
#[derive(Clone, Copy, Debug, PartialEq, Eq)]
pub enum MigrationFormat {
    Sql,
}

/// A migration command with its options.
pub enum MigrationCommand {
    /// Runs all pending migrations.
    Run,
    /// Reverts the last `number` migrations, or all of them.
    Revert { all: bool, number: u64 },
    /// Reverts and re-runs the last `number` migrations, or all of them.
    Redo { all: bool, number: u64 },
    /// Lists all migrations, marking those that are applied.
    List,
    /// Tells whether any migration is pending.
    Pending,
    /// Creates a new migration.
    Generate {
        migration_name: String,
        version: Option<String>,
        no_down: bool,
        format: MigrationFormat,
        schema_rs: Option<String>,
        sqlite_integer_primary_key_is_bigint: bool,
        table_name: Vec<String>,
        only_tables: Vec<bool>,
        except_tables: Vec<bool>,
        schema_key: Vec<String>,
    },
}

/// The arguments of the `migration` command group.
pub struct MigrationArgs {
    pub command: MigrationCommand,
}

/// What `--all` and `--number` ask of a revert or a redo.
pub fn revert_count(all: bool, number: u64) -> (r: RevertCount)
    ensures
        r == if all {
            RevertCount::All
        } else {
            RevertCount::Number(number)
        },
{
    if all {
        RevertCount::All
    } else {
        RevertCount::Number(number)
    }
}

/// The name of a backend.
pub open spec fn backend_name(b: Backend) -> Seq<char> {
    match b {
        Backend::Postgres => "postgres"@,
        Backend::Mysql => "mysql"@,
        Backend::Sqlite => "sqlite"@,
    }
}

/// The names of `bs`, separated by single spaces.
pub open spec fn backend_list(bs: Seq<Backend>) -> Seq<char>
    decreases bs.len(),
{
    if bs.len() == 0 {
        Seq::empty()
    } else if bs.len() == 1 {
        backend_name(bs[0])
    } else {
        backend_list(bs.drop_last()) + " "@ + backend_name(bs.last())
    }
}

/// The name of a backend.
pub fn backend_name_text(b: Backend) -> (r: &'static str)
    ensures
        r@ == backend_name(b),
{
    match b {
        Backend::Postgres => "postgres",
        Backend::Mysql => "mysql",
        Backend::Sqlite => "sqlite",
    }
}

/// The names of the backends this build supports, separated by spaces.
pub fn supported_backends(enabled: &Vec<Backend>) -> (r: String)
    ensures
        r@ == backend_list(enabled@),
{
    let mut s = String::new();
    let mut i: usize = 0;
    while i < enabled.len()
        invariant
            i <= enabled@.len(),
            s@ == backend_list(enabled@.subrange(0, i as int)),
        decreases enabled.len() - i,
    {
        let ghost before = s@;
        assert(enabled@.subrange(0, i + 1).drop_last() =~= enabled@.subrange(0, i as int));
        if i > 0 {
            s.append(" ");
        } else {
            assert(before =~= Seq::<char>::empty());
        }
        s.append(backend_name_text(enabled[i]));
        assert(s@ =~= backend_list(enabled@.subrange(0, i + 1)));
        i = i + 1;
    }
    assert(enabled@.subrange(0, enabled@.len() as int) =~= enabled@);
    s
}

} // verus!
