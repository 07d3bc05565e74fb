use wr::command::{CommandReport, Streams};
use wr::progress::Statement;
use wr::verify::{record_outcome, TestOutcome, VerifyOptions, VerifyRun};
use wr::{ExerciseDefinition, Host, Verification};

const QUIET: VerifyOptions = VerifyOptions { skip_build: false, verbose: false, colours: true };

fn exercise() -> ExerciseDefinition {
    ExerciseDefinition::new(b"01_a", b"00_b").unwrap()
}

fn report(success: bool) -> CommandReport {
    CommandReport {
        success,
        command: "\"cargo\" \"test\"".to_string(),
        stdout: b"out".to_vec(),
        stderr: b"err".to_vec(),
    }
}

fn check(command: &str, args: &[&str]) -> Verification {
    Verification {
        command: command.to_string(),
        args: args.iter().map(|arg| arg.to_string()).collect(),
    }
}

#[test]
fn an_exercise_is_built_and_then_tested() {
    let mut run = VerifyRun::new(&exercise(), "ex", &[], QUIET, Host::current());
    let build = run.command().unwrap();
    assert_eq!(build.program, "cargo");
    assert_eq!(
        build.args,
        [
            "build",
            "--manifest-path",
            "ex/01_a/00_b/Cargo.toml",
            "--all-targets",
            "--color",
            "always",
            "-q",
        ],
    );
    assert_eq!(build.current_dir, None);
    assert_eq!(build.streams, Streams::Captured);
    assert_eq!(run.record(report(true)), None);
    let test = run.command().unwrap();
    assert_eq!(test.program, "cargo");
    assert_eq!(test.args, ["test", "--color", "always", "-q"]);
    assert_eq!(test.current_dir.as_deref(), Some("ex/01_a/00_b"));
    assert_eq!(test.streams, Streams::Captured);
    assert_eq!(run.record(report(true)), Some(TestOutcome::Success));
    assert!(run.command().is_none());
}

#[test]
fn output_is_shown_where_it_is_asked_for() {
    let options = VerifyOptions { skip_build: false, verbose: true, colours: false };
    let mut run = VerifyRun::new(&exercise(), "ex", &[], options, Host::current());
    let build = run.command().unwrap();
    assert_eq!(
        build.args,
        ["build", "--manifest-path", "ex/01_a/00_b/Cargo.toml", "--all-targets", "--color", "never"],
    );
    assert_eq!(build.streams, Streams::Inherited);
    assert_eq!(run.record(report(true)), None);
    let test = run.command().unwrap();
    assert_eq!(test.args, ["test", "--color", "never"]);
    assert_eq!(test.streams, Streams::Teed);
}

#[test]
fn configured_commands_replace_the_tests() {
    let options = VerifyOptions { skip_build: true, ..QUIET };
    let commands = [check("lint", &["-a", "b c"]), check("run", &[])];
    let mut run = VerifyRun::new(&exercise(), "ex", &commands, options, Host::current());
    assert_eq!(run.command().unwrap().program, "lint");
    assert_eq!(run.command().unwrap().args, ["-a", "b c"]);
    assert_eq!(run.command().unwrap().current_dir.as_deref(), Some("ex/01_a/00_b"));
    assert_eq!(run.record(report(true)), None);
    assert_eq!(run.command().unwrap().program, "run");
    assert!(run.command().unwrap().args.is_empty());
    assert_eq!(run.record(report(true)), Some(TestOutcome::Success));
}

#[test]
fn configured_commands_follow_the_build() {
    let run = VerifyRun::new(&exercise(), "ex", &[check("lint", &[])], QUIET, Host::current());
    assert_eq!(run.command().unwrap().args[0], "build");
}

#[test]
fn the_first_failure_ends_a_verification() {
    let failure = TestOutcome::Failure {
        command: "\"cargo\" \"test\"".to_string(),
        details: b"errout".to_vec(),
    };
    let commands = [check("a", &[]), check("b", &[]), check("c", &[])];
    for successes in 0..4 {
        let mut run = VerifyRun::new(&exercise(), "ex", &commands, QUIET, Host::current());
        for _ in 0..successes {
            assert_eq!(run.record(report(true)), None);
        }
        assert_eq!(run.record(report(false)).as_ref(), Some(&failure));
        assert!(run.command().is_none());
    }
}

#[test]
fn something_is_always_run() {
    for skip_build in [false, true] {
        let run = VerifyRun::new(&exercise(), "ex", &[], VerifyOptions { skip_build, ..QUIET }, Host::current());
        assert_eq!(run.command().unwrap().program, "cargo");
        assert_eq!(run.command().unwrap().args[0], if skip_build { "test" } else { "build" });
    }
}

#[test]
fn the_outcome_is_recorded() {
    let failure = TestOutcome::Failure { command: "x".to_string(), details: Vec::new() };
    assert_eq!(
        record_outcome(&exercise(), &TestOutcome::Success),
        Statement::mark_as_solved(&exercise()),
    );
    assert_eq!(record_outcome(&exercise(), &failure), Statement::mark_as_unsolved(&exercise()));
}
