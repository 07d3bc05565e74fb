use wr::command::{git_root_command, Streams};
use wr::config::{chosen_verification, default_exercise_dir};
use wr::{
    get_git_repository_root_dir, ConfigFile, ExerciseConfig, ExercisesConfig, Host, RootError,
    Verification,
};

fn check(command: &str) -> Verification {
    Verification { command: command.to_string(), args: vec!["--fast".to_string()] }
}

fn names(commands: &[Verification]) -> Vec<&str> {
    commands.iter().map(|one| one.command.as_str()).collect()
}

#[test]
fn an_empty_file_gives_the_defaults() {
    let file = ConfigFile { exercises_dir: None, verification: None, skip_build: None };
    let config = ExercisesConfig::load("../", file, Host::current());
    assert_eq!(default_exercise_dir(), "exercises");
    assert_eq!(config.exercises_dir(), "../exercises");
    assert!(config.verification().is_empty());
    assert!(!config.skip_build());
}

#[test]
fn a_full_file_is_taken_as_it_is() {
    let file = ConfigFile {
        exercises_dir: Some("workshop".to_string()),
        verification: Some(vec![check("lint"), check("test")]),
        skip_build: Some(true),
    };
    let config = ExercisesConfig::load("", file, Host::current());
    assert_eq!(config.exercises_dir(), "workshop");
    assert_eq!(names(config.verification()), ["lint", "test"]);
    assert_eq!(config.verification()[0].args, ["--fast"]);
    assert!(config.skip_build);
    assert!(config.skip_build());
}

#[test]
fn an_absolute_directory_is_not_inside_the_repository() {
    let file = ConfigFile {
        exercises_dir: Some("/srv/workshop".to_string()),
        verification: None,
        skip_build: Some(false),
    };
    let config = ExercisesConfig::load("../../", file, Host::current());
    assert_eq!(config.exercises_dir(), "/srv/workshop");
    assert!(!config.skip_build);
}

#[test]
fn the_file_lies_at_the_root() {
    let host = Host::current();
    assert_eq!(ExercisesConfig::config_path("", host), ".wr.toml");
    assert_eq!(ExercisesConfig::config_path("../../", host), "../../.wr.toml");
    assert_eq!(ExercisesConfig::config_path("repo", host), "repo/.wr.toml");
}

#[test]
fn git_tells_the_root() {
    let command = git_root_command();
    assert_eq!(command.program, "git");
    assert_eq!(command.args, ["rev-parse", "--show-cdup"]);
    assert_eq!(command.current_dir, None);
    assert_eq!(command.streams, Streams::Captured);
    assert_eq!(get_git_repository_root_dir(true, b"../../\n"), Ok("../../".to_string()));
    assert_eq!(get_git_repository_root_dir(true, b"\n"), Ok("".to_string()));
    assert_eq!(
        get_git_repository_root_dir(true, "\u{3000} a b\t\r\n".as_bytes()),
        Ok("a b".to_string()),
    );
}

#[test]
fn git_may_fail() {
    assert_eq!(get_git_repository_root_dir(false, b"../\n"), Err(RootError::GitFailed));
    assert_eq!(get_git_repository_root_dir(false, b"\xff"), Err(RootError::GitFailed));
    assert_eq!(get_git_repository_root_dir(true, b"..\xff\n"), Err(RootError::NotUtf8));
}

#[test]
fn the_configuration_of_an_exercise_comes_first() {
    let shared = [check("shared")];
    assert_eq!(names(chosen_verification(None, &shared)), ["shared"]);
    let own = ExerciseConfig::load(Some(vec![check("own")]));
    assert_eq!(names(chosen_verification(Some(&own), &shared)), ["own"]);
    let empty = ExerciseConfig::load(None);
    assert!(empty.verification.is_empty());
    assert!(chosen_verification(Some(&empty), &shared).is_empty());
}
