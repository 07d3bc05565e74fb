use vstd::prelude::*;

use crate::command;
use crate::command::{CommandLine, CommandReport, Streams};
use crate::config;
use crate::config::Verification;
use crate::definition;
use crate::definition::ExerciseDefinition;
use crate::ordered;
use crate::path::Host;
use crate::progress;
use crate::progress::Statement;

verus! {

broadcast use crate::ordered::lemma_views_push;

/// How the verification of an exercise ended.
#[derive(Debug, PartialEq, Eq)]
pub enum TestOutcome {
    Success,
    /// The command that failed, and what it wrote.
    Failure { command: String, details: Vec<u8> },
}

/// What a [`TestOutcome`] says.
#[verifier::ext_equal]
pub enum OutcomeView {
    Success,
    Failure { command: Seq<char>, details: Seq<u8> },
}

impl View for TestOutcome {
    type V = OutcomeView;

    open spec fn view(&self) -> OutcomeView {
        match self {
            TestOutcome::Success => OutcomeView::Success,
            TestOutcome::Failure { command, details } => OutcomeView::Failure {
                command: command@,
                details: details@,
            },
        }
    }
}

/// How an exercise is verified.
#[derive(Clone, Copy, Debug, PartialEq, Eq, Structural)]
pub struct VerifyOptions {
    /// The exercise is not built first.
    pub skip_build: bool,
    /// The output of the commands is shown.
    pub verbose: bool,
    /// `cargo` is told to use colours.
    pub colours: bool,
}

impl VerifyOptions {
    /// What `cargo` is told about colours.
    pub open spec fn colour_option(self) -> Seq<char> {
        if self.colours {
            "always"@
        } else {
            "never"@
        }
    }

    /// `cargo` is told to be quiet, unless its output is to be shown.
    pub open spec fn quiet(self) -> Seq<Seq<char>> {
        if self.verbose {
            seq![]
        } else {
            seq!["-q"@]
        }
    }
}

/// The command that builds the exercise.
pub open spec fn build_command(
    manifest_path: Seq<char>,
    options: VerifyOptions,
) -> command::CommandView {
    command::CommandView {
        program: "cargo"@,
        args: seq![
            "build"@,
            "--manifest-path"@,
            manifest_path,
            "--all-targets"@,
            "--color"@,
            options.colour_option(),
        ] + options.quiet(),
        current_dir: None,
        streams: if options.verbose {
            Streams::Inherited
        } else {
            Streams::Captured
        },
    }
}

/// A command that verifies the exercise. It is run in the directory of the exercise.
pub open spec fn verification_command(
    verification: config::VerificationView,
    folder: Seq<char>,
    options: VerifyOptions,
) -> command::CommandView {
    command::CommandView {
        program: verification.command,
        args: verification.args,
        current_dir: Some(folder),
        streams: if options.verbose {
            Streams::Teed
        } else {
            Streams::Captured
        },
    }
}

/// What verifies an exercise for which no command is configured.
pub open spec fn default_verification(options: VerifyOptions) -> config::VerificationView {
    config::VerificationView {
        command: "cargo"@,
        args: seq!["test"@, "--color"@, options.colour_option()] + options.quiet(),
    }
}

/// The commands that verify the exercise, without the build.
pub open spec fn verification_commands(
    verification: Seq<config::VerificationView>,
    folder: Seq<char>,
    options: VerifyOptions,
) -> Seq<command::CommandView> {
    if verification.len() == 0 {
        seq![verification_command(default_verification(options), folder, options)]
    } else {
        verification.map_values(
            |one: config::VerificationView| verification_command(one, folder, options),
        )
    }
}

/// All commands that are run to verify the exercise, in order.
pub open spec fn planned(
    separator: char,
    exercise: definition::DefinitionView,
    exercises_dir: Seq<char>,
    verification: Seq<config::VerificationView>,
    options: VerifyOptions,
) -> Seq<command::CommandView> {
    let build = if options.skip_build {
        seq![]
    } else {
        seq![build_command(exercise.manifest_path(separator, exercises_dir), options)]
    };
    build + verification_commands(
        verification,
        exercise.manifest_folder_path(separator, exercises_dir),
        options,
    )
}

fn colour_option(options: VerifyOptions) -> (text: &'static str)
    ensures
        text@ == options.colour_option(),
{
    if options.colours {
        "always"
    } else {
        "never"
    }
}

fn build(manifest_path: &str, options: VerifyOptions) -> (res: CommandLine)
    ensures
        res@ == build_command(manifest_path@, options),
{
    let mut args = command::strings(
        &[
            "build",
            "--manifest-path",
            manifest_path,
            "--all-targets",
            "--color",
            colour_option(options),
        ],
    );
    if !options.verbose {
        args.push("-q".to_string());
    }
    CommandLine {
        program: "cargo".to_string(),
        args,
        current_dir: None,
        streams: if options.verbose {
            Streams::Inherited
        } else {
            Streams::Captured
        },
    }
}

fn in_folder(program: String, args: Vec<String>, folder: &str, options: VerifyOptions) -> (res:
    CommandLine)
    ensures
        res@ == verification_command(
            (config::VerificationView { command: program@, args: ordered::views(args@) }),
            folder@,
            options,
        ),
{
    CommandLine {
        program,
        args,
        current_dir: Some(folder.to_string()),
        streams: if options.verbose {
            Streams::Teed
        } else {
            Streams::Captured
        },
    }
}

fn copy_args(args: &Vec<String>) -> (copy: Vec<String>)
    ensures
        ordered::views(copy@) == ordered::views(args@),
{
    let mut copy: Vec<String> = Vec::new();
    let mut i: usize = 0;
    while i < args.len()
        invariant
            i <= args.len(),
            ordered::views(copy@) == ordered::views(args@).take(i as int),
        decreases args.len() - i,
    {
        copy.push(args[i].clone());
        i += 1;
    }
    copy
}

/// The commands of a verification, one after the other.
#[derive(Debug)]
pub struct VerifyRun {
    commands: Vec<CommandLine>,
    done: usize,
}

/// What a [`VerifyRun`] says: the commands, and how many of them are not to be run any more.
#[verifier::ext_equal]
pub struct RunView {
    pub commands: Seq<command::CommandView>,
    pub done: int,
}

impl View for VerifyRun {
    type V = RunView;

    closed spec fn view(&self) -> RunView {
        RunView { commands: ordered::views(self.commands@), done: self.done as int }
    }
}

impl RunView {
    /// There is a command to run.
    pub open spec fn running(self) -> bool {
        0 <= self.done < self.commands.len()
    }

    /// How the verification ends with this report on the next command, if it does.
    pub open spec fn outcome(self, report: command::ReportView) -> Option<OutcomeView> {
        if !report.success {
            Some(
                OutcomeView::Failure {
                    command: report.command,
                    details: report.stderr + report.stdout,
                },
            )
        } else if self.done + 1 == self.commands.len() {
            Some(OutcomeView::Success)
        } else {
            None
        }
    }

    /// The run after this report on the next command. A failure ends it.
    pub open spec fn after(self, report: command::ReportView) -> RunView {
        if report.success {
            RunView { done: self.done + 1, ..self }
        } else {
            RunView { done: self.commands.len() as int, ..self }
        }
    }
}

impl VerifyRun {
    /// The run that verifies an exercise.
    pub fn new(
        exercise: &ExerciseDefinition,
        exercises_dir: &str,
        verification: &[Verification],
        options: VerifyOptions,
        host: Host,
    ) -> (run: Self)
        ensures
            run@.commands == planned(
                host@,
                exercise@,
                exercises_dir@,
                ordered::views(verification@),
                options,
            ),
            run@.done == 0,
            run@.running(),
    {
        let folder = exercise.manifest_folder_path(exercises_dir, host);
        let manifest_path = exercise.manifest_path(exercises_dir, host);
        let mut commands: Vec<CommandLine> = Vec::new();
        if !options.skip_build {
            commands.push(build(manifest_path.as_str(), options));
        }
        let ghost first = ordered::views(commands@);
        let ghost all = ordered::views(verification@);
        let ghost rest = verification_commands(all, folder@, options);
        if verification.len() == 0 {
            let mut args = command::strings(&["test", "--color", colour_option(options)]);
            if !options.verbose {
                args.push("-q".to_string());
            }
            assert(ordered::views(args@) =~= default_verification(options).args);
            commands.push(in_folder("cargo".to_string(), args, folder.as_str(), options));
        } else {
            let mut i: usize = 0;
            while i < verification.len()
                invariant
                    i <= verification.len(),
                    all == ordered::views(verification@),
                    all.len() > 0,
                    rest == verification_commands(all, folder@, options),
                    ordered::views(commands@) == first + rest.take(i as int),
                decreases verification.len() - i,
            {
                let one = &verification[i];
                let args = copy_args(&one.args);
                commands.push(in_folder(one.command.clone(), args, folder.as_str(), options));
                i += 1;
            }
        }
        VerifyRun { commands, done: 0 }
    }

    /// The command to run now, until the run has ended.
    pub fn command(&self) -> (command: Option<&CommandLine>)
        ensures
            match command {
                Some(line) => self@.running() && line@ == self@.commands[self@.done],
                None => !self@.running(),
            },
    {
        if self.done < self.commands.len() {
            Some(&self.commands[self.done])
        } else {
            None
        }
    }

    /// Takes the report on the command that was to be run, and says how the verification
    /// ended, if it did.
    pub fn record(&mut self, report: CommandReport) -> (outcome: Option<TestOutcome>)
        requires
            old(self)@.running(),
        ensures
            final(self)@ == old(self)@.after(report@),
            match outcome {
                Some(ended) => old(self)@.outcome(report@) == Some(ended@),
                None => old(self)@.outcome(report@) is None,
            },
            outcome is Some <==> !final(self)@.running(),
    {
        if !report.success {
            self.done = self.commands.len();
            let mut details = report.stderr;
            let mut stdout = report.stdout;
            details.append(&mut stdout);
            return Some(TestOutcome::Failure { command: report.command, details });
        }
        assert(self@.commands.len() == self.commands.len());
        self.done = self.done + 1;
        if self.done == self.commands.len() {
            Some(TestOutcome::Success)
        } else {
            None
        }
    }
}

/// The statement that records how the verification of an exercise ended.
pub open spec fn recorded(
    exercise: definition::DefinitionView,
    outcome: OutcomeView,
) -> progress::StatementView {
    match outcome {
        OutcomeView::Success => progress::StatementView::mark_as_solved(exercise),
        OutcomeView::Failure { .. } => progress::StatementView::mark_as_unsolved(exercise),
    }
}

/// The statement that records how the verification of an exercise ended: as solved where it
/// succeeded, as not solved where it failed.
pub fn record_outcome(exercise: &ExerciseDefinition, outcome: &TestOutcome) -> (statement:
    Statement)
    ensures
        statement@ == recorded(exercise@, outcome@),
{
    match outcome {
        TestOutcome::Success => Statement::mark_as_solved(exercise),
        TestOutcome::Failure { .. } => Statement::mark_as_unsolved(exercise),
    }
}

/// How the verification ends when the commands get these reports in turn, if they are enough
/// for it to end.
pub open spec fn run_outcome(run: RunView, reports: Seq<command::ReportView>) -> Option<OutcomeView>
    decreases reports.len(),
{
    if reports.len() == 0 {
        None
    } else {
        match run.outcome(reports[0]) {
            Some(outcome) => Some(outcome),
            None => run_outcome(run.after(reports[0]), reports.drop_first()),
        }
    }
}

/// The report at `k` is the first on a failure.
pub open spec fn first_failure(reports: Seq<command::ReportView>, k: int) -> bool {
    &&& 0 <= k < reports.len()
    &&& !reports[k].success
    &&& forall|j: int| 0 <= j < k ==> (#[trigger] reports[j]).success
}

/// A verification succeeds when all its commands have succeeded. It ends with the first
/// command that fails, and fails with what that command wrote; what other commands would
/// write does not matter.
pub proof fn law_run_ends_with_first_failure(run: RunView, reports: Seq<command::ReportView>)
    requires
        run.running(),
    ensures
        ({
            let left = run.commands.len() - run.done;
            &&& run_outcome(run, reports) == Some(OutcomeView::Success) <==> reports.len() >= left
                && forall|j: int| 0 <= j < left ==> (#[trigger] reports[j]).success
            &&& forall|k: int|
                #[trigger] first_failure(reports, k) && k < left ==> run_outcome(run, reports)
                    == Some(
                    OutcomeView::Failure {
                        command: reports[k].command,
                        details: reports[k].stderr + reports[k].stdout,
                    },
                )
            &&& run_outcome(run, reports) is None <==> reports.len() < left && forall|j: int|
                0 <= j < reports.len() ==> (#[trigger] reports[j]).success
        }),
    decreases reports.len(),
{
    let left = run.commands.len() - run.done;
    if reports.len() > 0 && reports[0].success && left > 1 {
        let rest = reports.drop_first();
        let next = run.after(reports[0]);
        law_run_ends_with_first_failure(next, rest);
        assert(forall|j: int| 0 < j < reports.len() ==> rest[j - 1] == #[trigger] reports[j]);
        assert forall|k: int| #[trigger] first_failure(reports, k) && k < left implies run_outcome(
            run,
            reports,
        ) == Some(
            OutcomeView::Failure {
                command: reports[k].command,
                details: reports[k].stderr + reports[k].stdout,
            },
        ) by {
            assert(first_failure(rest, k - 1));
        }
    }
}

/// A verification runs at least one command; where none is configured, that is `cargo test`,
/// in the directory of the exercise.
pub proof fn law_something_is_run(
    separator: char,
    exercise: definition::DefinitionView,
    exercises_dir: Seq<char>,
    verification: Seq<config::VerificationView>,
    options: VerifyOptions,
)
    ensures
        ({
            let commands = planned(separator, exercise, exercises_dir, verification, options);
            &&& commands.len() > 0
            &&& commands.last().current_dir == Some(
                exercise.manifest_folder_path(separator, exercises_dir),
            )
            &&& verification.len() == 0 ==> commands.last().program == "cargo"@
                && commands.last().args[0] == "test"@
        }),
{
}

/// How many commands come before the ones that verify: the build, unless it is skipped.
pub open spec fn builds(options: VerifyOptions) -> int {
    if options.skip_build {
        0
    } else {
        1
    }
}

/// Where commands are configured, exactly those are run behind the build, in order, each with
/// its own program and arguments in the directory of the exercise, however the other options
/// are set. Their output is shown only where that is asked for, and always kept.
pub proof fn law_configured_commands_are_run(
    separator: char,
    exercise: definition::DefinitionView,
    exercises_dir: Seq<char>,
    verification: Seq<Verification>,
    options: VerifyOptions,
)
    requires
        verification.len() > 0,
    ensures
        ({
            let commands = planned(
                separator,
                exercise,
                exercises_dir,
                ordered::views(verification),
                options,
            );
            &&& commands.len() == builds(options) + verification.len()
            &&& forall|i: int|
                0 <= i < verification.len() ==> {
                    let command = commands[builds(options) + i];
                    &&& command.program == (#[trigger] verification[i]).command@
                    &&& command.args.len() == verification[i].args@.len()
                    &&& forall|k: int|
                        0 <= k < verification[i].args@.len() ==> #[trigger] command.args[k]
                            == verification[i].args@[k]@
                    &&& command.current_dir == Some(
                        exercise.manifest_folder_path(separator, exercises_dir),
                    )
                    &&& command.streams == Streams::Teed <==> options.verbose
                    &&& command.streams == Streams::Captured <==> !options.verbose
                }
        }),
{
    let all = ordered::views(verification);
    let commands = planned(separator, exercise, exercises_dir, all, options);
    let folder = exercise.manifest_folder_path(separator, exercises_dir);
    let rest = verification_commands(all, folder, options);
    assert forall|i: int| 0 <= i < verification.len() implies {
        let command = commands[builds(options) + i];
        &&& command.program == (#[trigger] verification[i]).command@
        &&& command.args.len() == verification[i].args@.len()
        &&& forall|k: int|
            0 <= k < verification[i].args@.len() ==> #[trigger] command.args[k]
                == verification[i].args@[k]@
        &&& command.current_dir == Some(folder)
        &&& command.streams == Streams::Teed <==> options.verbose
        &&& command.streams == Streams::Captured <==> !options.verbose
    } by {
        assert(commands[builds(options) + i] == rest[i]);
        assert(all[i] == verification[i]@);
    }
}

/// Where no command is configured, one command is run behind the build: `cargo test`, in the
/// directory of the exercise. It is told about colours, and to be quiet unless its output is to
/// be shown, and nothing else.
pub proof fn law_tests_are_run_by_default(
    separator: char,
    exercise: definition::DefinitionView,
    exercises_dir: Seq<char>,
    options: VerifyOptions,
)
    ensures
        ({
            let commands = planned(separator, exercise, exercises_dir, Seq::empty(), options);
            let test = commands[builds(options)];
            &&& commands.len() == builds(options) + 1
            &&& test.program == "cargo"@
            &&& test.args.len() == (if options.verbose { 3int } else { 4int })
            &&& test.args[0] == "test"@
            &&& test.args[1] == "--color"@
            &&& options.colours ==> test.args[2] == "always"@
            &&& !options.colours ==> test.args[2] == "never"@
            &&& !options.verbose ==> test.args[3] == "-q"@
            &&& test.current_dir == Some(exercise.manifest_folder_path(separator, exercises_dir))
            &&& test.streams == Streams::Teed <==> options.verbose
            &&& test.streams == Streams::Captured <==> !options.verbose
        }),
{
}

/// The exercise is built first, unless the build is skipped, by `cargo build` on its manifest
/// with all targets; skipping the build changes nothing else. `cargo` is told about colours,
/// and to be quiet unless its output is to be shown.
pub proof fn law_exercise_is_built_first(
    separator: char,
    exercise: definition::DefinitionView,
    exercises_dir: Seq<char>,
    verification: Seq<config::VerificationView>,
    options: VerifyOptions,
)
    ensures
        ({
            let with = VerifyOptions { skip_build: false, ..options };
            let without = VerifyOptions { skip_build: true, ..options };
            let commands = planned(separator, exercise, exercises_dir, verification, with);
            let build = commands[0];
            &&& commands.drop_first() == planned(
                separator,
                exercise,
                exercises_dir,
                verification,
                without,
            )
            &&& build.program == "cargo"@
            &&& build.args.len() == (if options.verbose { 6int } else { 7int })
            &&& build.args[0] == "build"@
            &&& build.args[1] == "--manifest-path"@
            &&& build.args[2] == exercise.manifest_path(separator, exercises_dir)
            &&& build.args[3] == "--all-targets"@
            &&& build.args[4] == "--color"@
            &&& options.colours ==> build.args[5] == "always"@
            &&& !options.colours ==> build.args[5] == "never"@
            &&& !options.verbose ==> build.args[6] == "-q"@
            &&& build.current_dir is None
            &&& build.streams == Streams::Inherited <==> options.verbose
            &&& build.streams == Streams::Captured <==> !options.verbose
        }),
{
    let with = VerifyOptions { skip_build: false, ..options };
    let without = VerifyOptions { skip_build: true, ..options };
    assert(planned(separator, exercise, exercises_dir, verification, with).drop_first() =~= planned(
        separator,
        exercise,
        exercises_dir,
        verification,
        without,
    ));
}

/// A report on a success leads to the command behind the one that was run, or ends the run; one
/// on a failure ends it. What a failure shows is all that the command wrote, its errors first.
pub proof fn law_run_goes_on(run: RunView, report: command::ReportView)
    requires
        run.running(),
    ensures
        run.after(report).commands == run.commands,
        report.success ==> run.after(report).done == run.done + 1,
        run.after(report).running() <==> report.success && run.done + 1 < run.commands.len(),
        run.outcome(report) is None <==> run.after(report).running(),
        run.outcome(report) == Some(OutcomeView::Success) <==> report.success && run.done + 1
            == run.commands.len(),
        !report.success ==> exists|details: Seq<u8>|
            {
                &&& run.outcome(report) == Some(
                    OutcomeView::Failure { command: report.command, details },
                )
                &&& details.len() == report.stderr.len() + report.stdout.len()
                &&& #[trigger] details.take(report.stderr.len() as int) == report.stderr
                &&& details.skip(report.stderr.len() as int) == report.stdout
            },
{
    if !report.success {
        let details = report.stderr + report.stdout;
        assert(details.take(report.stderr.len() as int) =~= report.stderr);
        assert(details.skip(report.stderr.len() as int) =~= report.stdout);
    }
}

/// A success is recorded by the statement that marks the exercise as solved, a failure by the
/// one that marks it as not solved: then, and only then, the table says that it is solved.
pub proof fn law_outcome_is_recorded(
    table: progress::Table,
    exercise: definition::DefinitionView,
    outcome: OutcomeView,
)
    requires
        table.contains_key((exercise.chapter(), exercise.exercise())),
    ensures
        ({
            let key = (exercise.chapter(), exercise.exercise());
            let after = recorded(exercise, outcome).effect(table);
            &&& after.contains_key(key)
            &&& outcome is Success <==> after[key] != 0
            &&& forall|other: (Seq<char>, Seq<char>)|
                other != key ==> (#[trigger] after.contains_key(other) <==> table.contains_key(
                    other,
                )) && (table.contains_key(other) ==> after[other] == table[other])
        }),
{
}

} // verus!
