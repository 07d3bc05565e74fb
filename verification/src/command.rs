use vstd::prelude::*;

use crate::ordered;

verus! {

broadcast use crate::ordered::lemma_views_push;

/// Where the output of a command goes.
#[derive(Clone, Copy, Debug, PartialEq, Eq, Structural)]
pub enum Streams {
    /// It is kept.
    Captured,
    /// It is shown to the user.
    Inherited,
    /// It is shown to the user and kept.
    Teed,
}

/// A command to run.
#[derive(Debug)]
pub struct CommandLine {
    pub program: String,
    pub args: Vec<String>,
    /// The directory to run it in, if not the current one.
    pub current_dir: Option<String>,
    pub streams: Streams,
}

/// What a [`CommandLine`] says.
#[verifier::ext_equal]
pub struct CommandView {
    pub program: Seq<char>,
    pub args: Seq<Seq<char>>,
    pub current_dir: Option<Seq<char>>,
    pub streams: Streams,
}

impl View for CommandLine {
    type V = CommandView;

    open spec fn view(&self) -> CommandView {
        CommandView {
            program: self.program@,
            args: ordered::views(self.args@),
            current_dir: match self.current_dir {
                Some(dir) => Some(dir@),
                None => None,
            },
            streams: self.streams,
        }
    }
}

/// How a command ended, and what it wrote.
#[derive(Debug)]
pub struct CommandReport {
    pub success: bool,
    /// The command as it is shown to the user.
    pub command: String,
    pub stdout: Vec<u8>,
    pub stderr: Vec<u8>,
}

/// What a [`CommandReport`] says.
#[verifier::ext_equal]
pub struct ReportView {
    pub success: bool,
    pub command: Seq<char>,
    pub stdout: Seq<u8>,
    pub stderr: Seq<u8>,
}

impl View for CommandReport {
    type V = ReportView;

    open spec fn view(&self) -> ReportView {
        ReportView {
            success: self.success,
            command: self.command@,
            stdout: self.stdout@,
            stderr: self.stderr@,
        }
    }
}

/// The strings, as owned text.
pub(crate) fn strings(parts: &[&str]) -> (owned: Vec<String>)
    ensures
        ordered::views(owned@) == parts@.map_values(|part: &str| part@),
{
    let mut owned: Vec<String> = Vec::new();
    let mut i: usize = 0;
    while i < parts.len()
        invariant
            i <= parts.len(),
            ordered::views(owned@) == parts@.take(i as int).map_values(|part: &str| part@),
        decreases parts.len() - i,
    {
        let part: &str = parts[i];
        owned.push(part.to_string());
        i += 1;
    }
    owned
}

/// The command that asks `git` for the way up to the root of the repository.
pub open spec fn root_command() -> CommandView {
    CommandView {
        program: "git"@,
        args: seq!["rev-parse"@, "--show-cdup"@],
        current_dir: None,
        streams: Streams::Captured,
    }
}

/// The command that asks `git` for the way up to the root of the repository.
pub fn git_root_command() -> (command: CommandLine)
    ensures
        command@ == root_command(),
{
    CommandLine {
        program: "git".to_string(),
        args: strings(&["rev-parse", "--show-cdup"]),
        current_dir: None,
        streams: Streams::Captured,
    }
}

/// What a command line and a report say is what their fields hold, argument by argument.
pub proof fn law_fields_are_said(line: CommandLine, report: CommandReport)
    ensures
        line@.program == line.program@,
        line@.args.len() == line.args@.len(),
        forall|i: int| 0 <= i < line.args@.len() ==> #[trigger] line@.args[i] == line.args@[i]@,
        line@.current_dir is None <==> line.current_dir is None,
        line.current_dir matches Some(dir) ==> line@.current_dir == Some(dir@),
        line@.streams == line.streams,
        report@.success == report.success,
        report@.command == report.command@,
        report@.stdout == report.stdout@,
        report@.stderr == report.stderr@,
{
}

/// The root of the repository is asked of `git`, with two arguments, in the current directory,
/// and its answer is kept.
pub proof fn law_git_is_asked_for_the_root()
    ensures
        root_command().program == seq!['g', 'i', 't'],
        root_command().args.len() == 2,
        root_command().args[0] == "rev-parse"@,
        root_command().args[1] == "--show-cdup"@,
        root_command().current_dir is None,
        root_command().streams == Streams::Captured,
{
    reveal_strlit("git");
}

} // verus!
