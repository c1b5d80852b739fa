//! The contents of a newly generated migration's scripts.
use vstd::prelude::*;
use crate::error::Error;
use crate::timestamp::{timestamp_text, Timestamp};
use crate::version::{all_suffixes_taken, dir_name, is_allocated_at, is_taken, new_migration_dir_name};

verus! {

/// The first line of a new `up.sql`.
pub open spec fn up_header() -> Seq<char> {
    "-- Your SQL goes here\n"@
}

/// The first line of a new `down.sql`.
pub open spec fn down_header() -> Seq<char> {
    "-- This file should undo anything in `up.sql`\n"@
}

/// The text of the `up` script and, when asked for, of the `down` script:
/// the SQL of `prefill` (from a schema diff) where it is given, otherwise a
/// placeholder comment.
pub fn migration_file_contents(with_down: bool, prefill: Option<(String, String)>) -> (r: (String, Option<String>))
    ensures
        r.0@ == match prefill {
            Some(p) => p.0@,
            None => up_header(),
        },
        with_down ==> (r.1 matches Some(d) && d@ == match prefill {
            Some(p) => p.1@,
            None => down_header(),
        }),
        !with_down ==> r.1 is None,
{
    match prefill {
        Some((up_sql, down_sql)) => (up_sql, if with_down {
            Some(down_sql)
        } else {
            None
        }),
        None => ("-- Your SQL goes here\n".to_owned(), if with_down {
            Some("-- This file should undo anything in `up.sql`\n".to_owned())
        } else {
            None
        }),
    }
}

/// A new migration: its directory's name and the text of its scripts.
pub struct GeneratedMigration {
    pub dir_name: String,
    pub up: String,
    pub down: Option<String>,
}

/// Plans a new migration named `name` in a store whose entries are named
/// `existing`: the version comes from `allocate_version`, the scripts from
/// `migration_file_contents`: the SQL of `prefill`, or placeholder comments without it.
pub fn plan_migration(
    explicit: Option<String>,
    now: &Timestamp,
    existing: &Vec<String>,
    name: &str,
    with_down: bool,
    prefill: Option<(String, String)>,
) -> (r: Result<GeneratedMigration, Error>)
    requires
        now.wf(),
    ensures
        explicit is Some && is_taken(explicit->Some_0@, existing@) ==> r is Err && r->Err_0
            == Error::DuplicateMigrationVersion(explicit->Some_0),
        explicit is Some && !is_taken(explicit->Some_0@, existing@) ==> (r matches Ok(g) && g.dir_name@
            == dir_name(explicit->Some_0@, name@)),
        explicit is None && all_suffixes_taken(timestamp_text(*now), existing@) ==> (r matches Err(
            Error::TooManyMigrations(x),
        ) && x@ == timestamp_text(*now)),
        explicit is None && !all_suffixes_taken(timestamp_text(*now), existing@) ==> (r matches Ok(g)
            && exists|v: Seq<char>| is_allocated_at(v, *now, existing@) && g.dir_name@ == dir_name(v, name@)),
        r matches Ok(g) ==> g.up@ == match prefill {
            Some(p) => p.0@,
            None => up_header(),
        },
        r is Ok && with_down ==> (r->Ok_0.down matches Some(d) && d@ == match prefill {
            Some(p) => p.1@,
            None => down_header(),
        }),
        r is Ok && !with_down ==> r->Ok_0.down is None,
{
    let dir = match new_migration_dir_name(explicit, now, existing, name) {
        Ok(d) => d,
        Err(e) => return Err(e),
    };
    let (up, down) = migration_file_contents(with_down, prefill);
    Ok(GeneratedMigration { dir_name: dir, up, down })
}

} // verus!
