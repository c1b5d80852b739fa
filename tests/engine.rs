use diesel_cli::cli::{revert_count, supported_backends};
use diesel_cli::engine::{
    has_pending, list_migrations, pending_versions, redo_in_transaction, redo_plan, redo_versions,
    should_redo_migration_in_transaction, Backend, Migration, RevertCount, RevertEvent, RevertLoop,
};
use diesel_cli::error::Error;
use diesel_cli::generate::migration_file_contents;

fn entry(dir: &str, run_in_transaction: bool) -> Migration {
    let version = dir.split('_').next().unwrap().to_string();
    Migration { version, name: dir.to_string(), run_in_transaction }
}

fn strings(list: &[&str]) -> Vec<String> {
    list.iter().map(|s| s.to_string()).collect()
}

/// A database that records applied versions, oldest first.
struct Db {
    applied: Vec<String>,
}

impl Db {
    fn run(&mut self, entries: &[Migration]) -> usize {
        let pending = pending_versions(&entries.to_vec(), &self.applied);
        let n = pending.len();
        self.applied.extend(pending);
        n
    }

    fn revert(&mut self, count: RevertCount) -> Vec<String> {
        let mut state = RevertLoop::new(count);
        let mut reverted = Vec::new();
        while state.should_revert() {
            match self.applied.pop() {
                Some(v) => {
                    reverted.push(v);
                    state.record(RevertEvent::Reverted);
                }
                None => state.record(RevertEvent::NoMigrationRun),
            }
        }
        reverted
    }
}

#[test]
fn pending_is_sorted_and_excludes_applied() {
    let entries = vec![
        entry("2024-03-01-000000_c", true),
        entry("2024-01-01-000000_a", true),
        entry("2024-02-01-000000_b", true),
    ];
    let applied = strings(&["2024-02-01-000000"]);
    assert_eq!(
        pending_versions(&entries, &applied),
        strings(&["2024-01-01-000000", "2024-03-01-000000"])
    );
    assert!(has_pending(&entries, &applied));
    assert!(!has_pending(&entries, &strings(&["2024-01-01-000000", "2024-02-01-000000", "2024-03-01-000000"])));
    assert!(!has_pending(&Vec::new(), &applied));
}

#[test]
fn run_twice_applies_nothing_the_second_time() {
    let entries = vec![entry("2024-01-02-000000_b", true), entry("2024-01-01-000000_a", true)];
    let mut db = Db { applied: Vec::new() };
    assert_eq!(db.run(&entries), 2);
    assert_eq!(db.applied, strings(&["2024-01-01-000000", "2024-01-02-000000"]));
    assert_eq!(db.run(&entries), 0);
    assert_eq!(db.applied, strings(&["2024-01-01-000000", "2024-01-02-000000"]));
}

#[test]
fn list_is_sorted_regardless_of_input_order() {
    let entries = vec![
        entry("2024-01-03-000000_c", true),
        entry("2024-01-01-000000_a", true),
        entry("2024-01-02-000000_b", true),
    ];
    let applied = strings(&["2024-01-02-000000"]);
    let listed = list_migrations(&entries, &applied);
    let shown: Vec<(&str, bool)> = listed.iter().map(|l| (l.name.as_str(), l.applied)).collect();
    assert_eq!(
        shown,
        vec![
            ("2024-01-01-000000_a", false),
            ("2024-01-02-000000_b", true),
            ("2024-01-03-000000_c", false)
        ]
    );
}

#[test]
fn revert_more_than_applied_stops_without_error() {
    let mut db = Db { applied: strings(&["1", "2", "3"]) };
    let reverted = db.revert(RevertCount::Number(10));
    assert_eq!(reverted, strings(&["3", "2", "1"]));
    assert!(db.applied.is_empty());
}

#[test]
fn revert_number_stops_after_n() {
    let mut db = Db { applied: strings(&["1", "2", "3"]) };
    assert_eq!(db.revert(RevertCount::Number(2)), strings(&["3", "2"]));
    assert_eq!(db.applied, strings(&["1"]));
    assert_eq!(db.revert(RevertCount::Number(0)), Vec::<String>::new());
}

#[test]
fn revert_all_empties_the_database() {
    let mut db = Db { applied: strings(&["1", "2"]) };
    assert_eq!(db.revert(RevertCount::All), strings(&["2", "1"]));
    assert!(db.applied.is_empty());
    assert_eq!(db.revert(RevertCount::All), Vec::<String>::new());
}

#[test]
fn revert_loop_records_events() {
    let mut s = RevertLoop::new(RevertCount::Number(1));
    assert!(s.should_revert());
    s.record(RevertEvent::Reverted);
    assert_eq!(s.reverted, 1);
    assert!(!s.should_revert());
    let mut t = RevertLoop::new(RevertCount::All);
    t.record(RevertEvent::NoMigrationRun);
    assert!(t.finished);
    assert!(!t.should_revert());
}

#[test]
fn redo_all_restores_the_applied_sequence() {
    let entries = vec![
        entry("2024-01-01-000000_a", true),
        entry("2024-01-02-000000_b", true),
        entry("2024-01-03-000000_c", true),
    ];
    let mut db = Db { applied: Vec::new() };
    db.run(&entries);
    let before = db.applied.clone();
    let reverted = db.revert(RevertCount::All);
    let plan = redo_plan(&entries, reverted).unwrap();
    db.applied.extend(plan);
    assert_eq!(db.applied, before);
}

#[test]
fn redo_of_a_vanished_version_is_unknown() {
    let entries = vec![entry("2024-01-01-000000_a", true)];
    let r = redo_plan(&entries, strings(&["2024-01-01-000000", "2024-01-05-000000", "2024-01-09-000000"]));
    assert_eq!(r, Err(Error::UnknownMigrationVersion("2024-01-05-000000".to_string())));
}

#[test]
fn redo_versions_take_the_most_recent() {
    let applied = strings(&["1", "2", "3"]);
    assert_eq!(redo_versions(&applied, RevertCount::Number(2)), strings(&["2", "3"]));
    assert_eq!(redo_versions(&applied, RevertCount::Number(5)), applied);
    assert_eq!(redo_versions(&applied, RevertCount::All), applied);
    assert_eq!(redo_versions(&applied, revert_count(false, 1)), strings(&["3"]));
}

#[test]
fn redo_transaction_policy() {
    let entries = vec![entry("1_a", true), entry("2_b", false), entry("3_c", true)];
    assert!(redo_in_transaction(true, &entries, &strings(&["3"])));
    assert!(!redo_in_transaction(true, &entries, &strings(&["2", "3"])));
    assert!(!redo_in_transaction(false, &entries, &strings(&["3"])));
    assert!(redo_in_transaction(true, &entries, &strings(&["9"])));
    assert!(should_redo_migration_in_transaction(Backend::Postgres));
    assert!(should_redo_migration_in_transaction(Backend::Sqlite));
    assert!(!should_redo_migration_in_transaction(Backend::Mysql));
}

#[test]
fn revert_count_from_flags() {
    assert_eq!(revert_count(true, 3), RevertCount::All);
    assert_eq!(revert_count(false, 3), RevertCount::Number(3));
}

#[test]
fn pending_run_revert_list_scenario() {
    let entries = vec![
        entry("2024-01-01-000000_create_users", true),
        entry("2024-01-02-000000_create_posts", true),
    ];
    let mut db = Db { applied: strings(&["2024-01-01-000000"]) };
    assert!(has_pending(&entries, &db.applied));
    assert_eq!(pending_versions(&entries, &db.applied), strings(&["2024-01-02-000000"]));
    assert_eq!(db.run(&entries), 1);
    assert!(!has_pending(&entries, &db.applied));
    assert_eq!(db.revert(RevertCount::Number(1)), strings(&["2024-01-02-000000"]));
    let listed = list_migrations(&entries, &db.applied);
    assert_eq!(listed.len(), 2);
    assert_eq!(listed[0].name, "2024-01-01-000000_create_users");
    assert!(listed[0].applied);
    assert_eq!(listed[1].name, "2024-01-02-000000_create_posts");
    assert!(!listed[1].applied);
}

#[test]
fn supported_backends_are_space_separated() {
    assert_eq!(supported_backends(&vec![Backend::Postgres, Backend::Mysql, Backend::Sqlite]), "postgres mysql sqlite");
    assert_eq!(supported_backends(&vec![Backend::Sqlite]), "sqlite");
    assert_eq!(supported_backends(&Vec::new()), "");
}

#[test]
fn migration_scripts_have_headers() {
    let sql = Some(("CREATE TABLE t ();".to_string(), "DROP TABLE t;".to_string()));
    let (up, down) = migration_file_contents(true, sql.clone());
    assert_eq!(up, "CREATE TABLE t ();");
    assert_eq!(down, Some("DROP TABLE t;".to_string()));
    let (up, down) = migration_file_contents(false, sql);
    assert_eq!(up, "CREATE TABLE t ();");
    assert_eq!(down, None);
    let (up, down) = migration_file_contents(true, None);
    assert_eq!(up, "-- Your SQL goes here\n");
    assert_eq!(down, Some("-- This file should undo anything in `up.sql`\n".to_string()));
    let (up, down) = migration_file_contents(false, None);
    assert_eq!(up, "-- Your SQL goes here\n");
    assert_eq!(down, None);
    let (up, _) = migration_file_contents(true, Some((String::new(), String::new())));
    assert_eq!(up, "");
}

#[test]
fn list_keeps_each_entry_name() {
    let entries = vec![
        Migration { version: "2".to_string(), name: "2_second".to_string(), run_in_transaction: true },
        Migration { version: "1".to_string(), name: "1_first".to_string(), run_in_transaction: true },
        Migration { version: "1".to_string(), name: "1_other".to_string(), run_in_transaction: true },
    ];
    let listed = list_migrations(&entries, &strings(&["1"]));
    let mut first_two: Vec<&str> = listed[..2].iter().map(|l| l.name.as_str()).collect();
    first_two.sort();
    assert_eq!(first_two, vec!["1_first", "1_other"]);
    assert_eq!(listed[2].name, "2_second");
    assert!(listed[0].applied && listed[1].applied && !listed[2].applied);
}
