use std::path::PathBuf;

use diesel_cli::error::Error;
use diesel_cli::paths::{
    choose_migrations_dir, convert_absolute_path_to_relative, first_directory_with_file, marker_candidates,
    relative_path_between, search_for_directory_containing_file, MigrationsDirectory,
};
use tempfile::Builder;

#[test]
fn toml_directory_find_cargo_toml() {
    let dir = Builder::new().prefix("diesel").tempdir().unwrap();
    let temp_path = dir.path().canonicalize().unwrap();
    let toml_path = temp_path.join("Cargo.toml");

    let file = tempfile::NamedTempFile::new_in(&temp_path).unwrap();
    file.persist(&toml_path).unwrap();

    let res = search_for_directory_containing_file(temp_path.to_str().unwrap(), "Cargo.toml");
    assert!(res.is_ok());
    assert_eq!(PathBuf::from(res.unwrap()), temp_path);
}

#[test]
fn cargo_toml_not_found_if_no_cargo_toml() {
    let dir = Builder::new().prefix("diesel").tempdir().unwrap();
    let temp_path = dir.path().canonicalize().unwrap();

    assert!(matches!(
        search_for_directory_containing_file(temp_path.to_str().unwrap(), "Cargo.toml"),
        Err(Error::ProjectRootNotFound(p)) if PathBuf::from(&p) == temp_path,
    ));
}

#[test]
fn marker_in_an_ancestor_is_found() {
    let dir = Builder::new().prefix("diesel").tempdir().unwrap();
    let temp_path = dir.path().canonicalize().unwrap();
    let file = tempfile::NamedTempFile::new_in(&temp_path).unwrap();
    file.persist(temp_path.join("diesel.toml")).unwrap();
    let nested = Builder::new().prefix("src").tempdir_in(&temp_path).unwrap();

    let res = search_for_directory_containing_file(nested.path().to_str().unwrap(), "diesel.toml");
    assert_eq!(PathBuf::from(res.unwrap()), temp_path);
}

fn rel(target: &str, current: &str) -> PathBuf {
    PathBuf::from(convert_absolute_path_to_relative(target, current))
}

#[test]
fn convert_absolute_path_to_relative_works() {
    assert_eq!(
        PathBuf::from("migrations/12345_create_user"),
        rel("projects/foo/migrations/12345_create_user", "projects/foo")
    );
    assert_eq!(
        PathBuf::from("../migrations/12345_create_user"),
        rel("projects/foo/migrations/12345_create_user", "projects/foo/src")
    );
    assert_eq!(
        PathBuf::from("../../../migrations/12345_create_user"),
        rel(
            "projects/foo/migrations/12345_create_user",
            "projects/foo/src/controllers/errors"
        )
    );
    assert_eq!(
        PathBuf::from("12345_create_user"),
        rel("projects/foo/migrations/12345_create_user", "projects/foo/migrations")
    );
    assert_eq!(
        PathBuf::from("../12345_create_user"),
        rel(
            "projects/foo/migrations/12345_create_user",
            "projects/foo/migrations/67890_create_post"
        )
    );
}

#[test]
fn relative_path_of_a_directory_to_itself_is_empty() {
    assert_eq!(rel("projects/foo", "projects/foo"), PathBuf::from(""));
}

#[test]
fn relative_path_to_an_ancestor_is_parent_steps() {
    assert_eq!(rel("projects", "projects/foo/src"), PathBuf::from("../.."));
}

#[test]
fn store_directory_precedence() {
    let some = |s: &str| Some(s.to_string());
    assert_eq!(choose_migrations_dir(some("a"), some("b"), some("c")), some("a"));
    assert_eq!(choose_migrations_dir(None, some("b"), some("c")), some("b"));
    assert_eq!(choose_migrations_dir(None, None, some("c")), some("c"));
    assert_eq!(choose_migrations_dir(None, None, None), None);
}

#[test]
fn relative_store_directory_is_resolved_against_base() {
    let mut d = MigrationsDirectory { dir: "migrations".to_string() };
    d.set_relative_path_base("/project");
    assert_eq!(PathBuf::from(&d.dir), PathBuf::from("/project/migrations"));

    let mut abs = MigrationsDirectory { dir: "/elsewhere/migrations".to_string() };
    abs.set_relative_path_base("/project");
    assert_eq!(PathBuf::from(&abs.dir), PathBuf::from("/elsewhere/migrations"));
}

#[test]
fn first_successful_probe_decides() {
    let dirs: Vec<String> = vec!["/a/b".to_string(), "/a".to_string(), "/".to_string()];
    assert_eq!(first_directory_with_file("/a/b", &dirs, &vec![false, true]), Ok("/a".to_string()));
    assert_eq!(first_directory_with_file("/a/b", &dirs, &vec![true, true, true]), Ok("/a/b".to_string()));
    assert_eq!(
        first_directory_with_file("/a/b", &dirs, &vec![false, false, false]),
        Err(Error::ProjectRootNotFound("/a/b".to_string()))
    );
    assert_eq!(
        first_directory_with_file("/a/b", &dirs, &Vec::new()),
        Err(Error::ProjectRootNotFound("/a/b".to_string()))
    );
}

#[test]
fn relative_path_between_paths_without_resolution() {
    assert_eq!(PathBuf::from(relative_path_between("a/b/c", "a/d")), PathBuf::from("../b/c"));
    assert_eq!(PathBuf::from(relative_path_between("/x/y", "/x")), PathBuf::from("y"));
}

#[test]
fn marker_candidates_run_from_the_path_upwards() {
    let c: Vec<PathBuf> = marker_candidates("/a/b", "Cargo.toml").iter().map(PathBuf::from).collect();
    assert_eq!(
        c,
        vec![
            PathBuf::from("/a/b/Cargo.toml"),
            PathBuf::from("/a/Cargo.toml"),
            PathBuf::from("/Cargo.toml")
        ]
    );
}
