use diesel_cli::error::Error;
use diesel_cli::generate::plan_migration;
use diesel_cli::timestamp::{format_timestamp, Timestamp};
use diesel_cli::version::{allocate_version, migration_dir_name, new_migration_dir_name};

fn at(year: i32, month: u32, day: u32, hour: u32, minute: u32, second: u32) -> Timestamp {
    Timestamp::new(year, month, day, hour, minute, second).unwrap()
}

fn names(list: &[&str]) -> Vec<String> {
    list.iter().map(|s| s.to_string()).collect()
}

#[test]
fn timestamp_is_formatted_with_fixed_width_fields() {
    assert_eq!(format_timestamp(&at(2024, 1, 2, 3, 4, 5)), "2024-01-02-030405");
    assert_eq!(format_timestamp(&at(987, 12, 31, 23, 59, 59)), "0987-12-31-235959");
}

#[test]
fn timestamp_fields_out_of_range_are_refused() {
    assert!(Timestamp::new(2024, 13, 1, 0, 0, 0).is_none());
    assert!(Timestamp::new(2024, 1, 0, 0, 0, 0).is_none());
    assert!(Timestamp::new(10000, 1, 1, 0, 0, 0).is_none());
    assert!(Timestamp::new(-1, 1, 1, 0, 0, 0).is_none());
    assert!(Timestamp::new(2024, 1, 1, 24, 0, 0).is_none());
}

#[test]
fn clock_reading_is_well_formed() {
    let now = Timestamp::now().unwrap();
    assert!((1..=12).contains(&now.month));
    assert_eq!(format_timestamp(&now).len(), 17);
}

#[test]
fn first_allocation_uses_suffix_zero() {
    let v = allocate_version(None, &at(2024, 1, 1, 0, 0, 0), &Vec::new()).unwrap();
    assert_eq!(v, "2024-01-01-000000-0000");
}

#[test]
fn allocation_skips_taken_suffixes() {
    let existing = names(&[
        "2024-01-01-000000-0000_a",
        "2024-01-01-000000-0001_b",
        "2024-01-01-000000-0003_c",
    ]);
    let v = allocate_version(None, &at(2024, 1, 1, 0, 0, 0), &existing).unwrap();
    assert_eq!(v, "2024-01-01-000000-0002");
}

#[test]
fn allocation_ignores_other_seconds_and_upper_case() {
    let existing = names(&["2024-01-01-000001-0000_a", "2024-01-01-000000-000A_b", "notes"]);
    let v = allocate_version(None, &at(2024, 1, 1, 0, 0, 0), &existing).unwrap();
    assert_eq!(v, "2024-01-01-000000-0000");
}

#[test]
fn versions_allocated_in_sequence_increase() {
    let now = at(2024, 5, 6, 7, 8, 9);
    let mut existing = Vec::new();
    let first = allocate_version(None, &now, &existing).unwrap();
    existing.push(migration_dir_name(&first, "create_users"));
    let second = allocate_version(None, &now, &existing).unwrap();
    assert!(first < second);
    existing.push(migration_dir_name(&second, "create_posts"));
    let third = allocate_version(None, &at(2024, 5, 6, 7, 8, 10), &existing).unwrap();
    assert!(second < third);
    assert_eq!(third, "2024-05-06-070810-0000");
}

#[test]
fn explicit_version_equal_to_existing_is_a_duplicate() {
    let existing = names(&["2024-01-01-000000_create_users"]);
    let r = new_migration_dir_name(
        Some("2024-01-01-000000".to_string()),
        &at(2024, 1, 1, 0, 0, 0),
        &existing,
        "again",
    );
    assert_eq!(r, Err(Error::DuplicateMigrationVersion("2024-01-01-000000".to_string())));
}

#[test]
fn explicit_version_is_used_as_given() {
    let existing = names(&["2024-01-01-000000_create_users"]);
    let r = new_migration_dir_name(
        Some("20240102".to_string()),
        &at(2024, 1, 1, 0, 0, 0),
        &existing,
        "create_posts",
    );
    assert_eq!(r, Ok("20240102_create_posts".to_string()));
}

#[test]
fn suffix_exhaustion_is_reported() {
    let mut existing = Vec::with_capacity(65536);
    for s in 0..65536u32 {
        existing.push(format!("2024-01-01-000000-{s:04x}_m"));
    }
    let now = at(2024, 1, 1, 0, 0, 0);
    assert_eq!(
        allocate_version(None, &now, &existing),
        Err(Error::TooManyMigrations("2024-01-01-000000".to_string()))
    );
    existing.remove(40000);
    assert_eq!(allocate_version(None, &now, &existing), Ok("2024-01-01-000000-9c40".to_string()));
}

#[test]
fn generated_directory_name_joins_version_and_name() {
    let r = new_migration_dir_name(None, &at(2023, 11, 30, 12, 0, 1), &Vec::new(), "add_index");
    assert_eq!(r, Ok("2023-11-30-120001-0000_add_index".to_string()));
}

#[test]
fn planned_migration_uses_prefilled_sql() {
    let now = at(2024, 2, 29, 23, 59, 58);
    let plan = plan_migration(
        None,
        &now,
        &names(&["2024-02-29-235958-0000_a"]),
        "b",
        true,
        Some(("CREATE TABLE b ();".to_string(), "DROP TABLE b;".to_string())),
    )
    .unwrap();
    assert_eq!(plan.dir_name, "2024-02-29-235958-0001_b");
    assert_eq!(plan.up, "CREATE TABLE b ();");
    assert_eq!(plan.down, Some("DROP TABLE b;".to_string()));
    let bare = plan_migration(Some("7".to_string()), &now, &Vec::new(), "c", false, None).unwrap();
    assert_eq!(bare.dir_name, "7_c");
    assert_eq!(bare.up, "-- Your SQL goes here\n");
    assert_eq!(bare.down, None);
}
