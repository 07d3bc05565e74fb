use vstd::prelude::*;
use vstd::utf8::*;

use crate::ordered;
use crate::outside;
use crate::path;
use crate::path::Host;
use crate::text;

verus! {

/// A command that tells whether an exercise is solved.
#[derive(Debug)]
pub struct Verification {
    /// The command.
    pub command: String,
    /// What is passed to the command.
    pub args: Vec<String>,
}

/// What a [`Verification`] says.
#[verifier::ext_equal]
pub struct VerificationView {
    pub command: Seq<char>,
    pub args: Seq<Seq<char>>,
}

impl View for Verification {
    type V = VerificationView;

    open spec fn view(&self) -> VerificationView {
        VerificationView { command: self.command@, args: ordered::views(self.args@) }
    }
}

/// The configuration of a single exercise.
#[derive(Debug)]
pub struct ExerciseConfig {
    /// The commands that verify this exercise, in place of those of the whole collection.
    pub verification: Vec<Verification>,
}

/// What the configuration file of the collection says; what it leaves out is `None`.
#[derive(Debug)]
pub struct ConfigFile {
    /// The directory of the exercises, relative to the root of the repository.
    pub exercises_dir: Option<String>,
    /// The commands that verify the exercises.
    pub verification: Option<Vec<Verification>>,
    /// Whether the exercises are not built before they are verified.
    pub skip_build: Option<bool>,
}

/// What a [`ConfigFile`] says.
#[verifier::ext_equal]
pub struct ConfigFileView {
    pub exercises_dir: Option<Seq<char>>,
    pub verification: Option<Seq<VerificationView>>,
    pub skip_build: Option<bool>,
}

impl View for ConfigFile {
    type V = ConfigFileView;

    open spec fn view(&self) -> ConfigFileView {
        ConfigFileView {
            exercises_dir: match self.exercises_dir {
                Some(dir) => Some(dir@),
                None => None,
            },
            verification: match self.verification {
                Some(commands) => Some(ordered::views(commands@)),
                None => None,
            },
            skip_build: self.skip_build,
        }
    }
}

/// The configuration of the collection.
#[derive(Debug)]
pub struct ExercisesConfig {
    exercises_dir: String,
    verification: Vec<Verification>,
    /// Whether the exercises are not built before they are verified.
    pub skip_build: bool,
}

/// What an [`ExercisesConfig`] says.
#[verifier::ext_equal]
pub struct ConfigView {
    pub exercises_dir: Seq<char>,
    pub verification: Seq<VerificationView>,
    pub skip_build: bool,
}

impl View for ExercisesConfig {
    type V = ConfigView;

    closed spec fn view(&self) -> ConfigView {
        ConfigView {
            exercises_dir: self.exercises_dir@,
            verification: ordered::views(self.verification@),
            skip_build: self.skip_build,
        }
    }
}

impl ConfigFileView {
    /// The configuration that the file gives in a repository with this root.
    pub open spec fn loaded(self, separator: char, root_path: Seq<char>) -> ConfigView {
        ConfigView {
            exercises_dir: path::joined(
                separator,
                root_path,
                match self.exercises_dir {
                    Some(dir) => dir,
                    None => "exercises"@,
                },
            ),
            verification: match self.verification {
                Some(commands) => commands,
                None => Seq::empty(),
            },
            skip_build: self.skip_build == Some(true),
        }
    }
}

/// The directory of the exercises where the configuration names none.
pub fn default_exercise_dir() -> (dir: String)
    ensures
        dir@ == "exercises"@,
{
    "exercises".to_string()
}

impl ExercisesConfig {
    /// The path of the configuration file of the collection.
    pub fn config_path(root_path: &str, host: Host) -> (path: String)
        ensures
            path@ == path::joined(host@, root_path@, ".wr.toml"@),
    {
        path::join(host, root_path, ".wr.toml")
    }

    /// The configuration that the file gives in the repository at `root_path`.
    pub fn load(root_path: &str, file: ConfigFile, host: Host) -> (config: Self)
        ensures
            config@ == file@.loaded(host@, root_path@),
    {
        let dir = match file.exercises_dir {
            Some(dir) => dir,
            None => default_exercise_dir(),
        };
        let verification = match file.verification {
            Some(commands) => commands,
            None => Vec::new(),
        };
        let skip_build = match file.skip_build {
            Some(skip) => skip,
            None => false,
        };
        ExercisesConfig {
            exercises_dir: path::join(host, root_path, dir.as_str()),
            verification,
            skip_build,
        }
    }

    /// The directory that holds the exercises.
    pub fn exercises_dir(&self) -> (dir: &str)
        ensures
            dir@ == self@.exercises_dir,
    {
        self.exercises_dir.as_str()
    }

    /// Whether the exercises are not built before they are verified.
    pub fn skip_build(&self) -> (skip: bool)
        ensures
            skip == self@.skip_build,
    {
        self.skip_build
    }

    /// The commands that verify the exercises. Where there are none, `cargo test` does.
    pub fn verification(&self) -> (commands: &[Verification])
        ensures
            ordered::views(commands@) == self@.verification,
    {
        self.verification.as_slice()
    }
}

impl ExerciseConfig {
    /// The configuration of an exercise whose file names these commands, if any.
    pub fn load(verification: Option<Vec<Verification>>) -> (config: Self)
        ensures
            config.verification@ == (match verification {
                Some(commands) => commands@,
                None => Seq::empty(),
            }),
    {
        match verification {
            Some(commands) => ExerciseConfig { verification: commands },
            None => ExerciseConfig { verification: Vec::new() },
        }
    }
}

/// Why the root of the repository is not known.
#[derive(Clone, Copy, Debug, PartialEq, Eq, Structural)]
pub enum RootError {
    /// `git` did not succeed.
    GitFailed,
    /// The path is not valid UTF-8.
    NotUtf8,
}

/// The root of the repository, from what `git` wrote.
pub open spec fn root_from(success: bool, stdout: Seq<u8>) -> Result<Seq<char>, RootError> {
    if !success {
        Err(RootError::GitFailed)
    } else if !valid_utf8(stdout) {
        Err(RootError::NotUtf8)
    } else {
        Ok(text::trimmed(decode_utf8(stdout)))
    }
}

/// The root of the current `git` repository: `success` and `stdout` are how
/// `git rev-parse --show-cdup` ended and what it wrote.
pub fn get_git_repository_root_dir(success: bool, stdout: &[u8]) -> (root: Result<
    String,
    RootError,
>)
    ensures
        match root {
            Ok(path) => root_from(success, stdout@) == Ok::<Seq<char>, RootError>(path@),
            Err(error) => root_from(success, stdout@) == Err::<Seq<char>, RootError>(error),
        },
{
    if !success {
        return Err(RootError::GitFailed);
    }
    match outside::utf8_text(stdout) {
        Some(path) => Ok(path.trim().to_string()),
        None => Err(RootError::NotUtf8),
    }
}

/// The commands that verify an exercise: its own where it has a configuration, even an empty
/// one, and those of the collection where it has none.
pub fn chosen_verification<'a>(
    exercise_config: Option<&'a ExerciseConfig>,
    shared: &'a [Verification],
) -> (commands: &'a [Verification])
    ensures
        commands@ == (match exercise_config {
            Some(config) => config.verification@,
            None => shared@,
        }),
{
    match exercise_config {
        Some(config) => config.verification.as_slice(),
        None => shared,
    }
}

/// The directory of the exercises is found from the root of the repository, whether the file
/// names it or not, and a file that names the default gives the same as one that names none.
/// Only a directory that starts with `/` is not below the root.
pub proof fn law_exercises_dir_is_below_the_root(
    file: ConfigFile,
    separator: char,
    root_path: Seq<char>,
)
    ensures
        ({
            let loaded = file@.loaded(separator, root_path).exercises_dir;
            let dir = match file.exercises_dir {
                Some(dir) => dir@,
                None => "exercises"@,
            };
            &&& separator == '/' && !(dir.len() > 0 && dir[0] == '/') && (root_path.len() == 0
                || root_path[root_path.len() - 1] == '/') ==> loaded == root_path + dir
            &&& separator == '/' && !(dir.len() > 0 && dir[0] == '/') && root_path.len() > 0
                && root_path[root_path.len() - 1] != '/' ==> loaded == root_path + seq!['/'] + dir
            &&& separator == '/' && dir.len() > 0 && dir[0] == '/' ==> loaded == dir
            &&& separator != '/' ==> loaded == outside::joined_elsewhere(
                separator,
                root_path,
                dir,
            )
        }),
{
    let dir = match file.exercises_dir {
        Some(dir) => dir@,
        None => "exercises"@,
    };
    assert(root_path.push('/') + dir =~= root_path + seq!['/'] + dir);
}

/// What the file leaves out is as if it held the default: no commands, and a build first. What
/// it holds is taken as it is, and nothing but the directory depends on the root.
pub proof fn law_defaults(
    file: ConfigFile,
    other: ConfigFile,
    separator: char,
    root_path: Seq<char>,
    other_root: Seq<char>,
)
    ensures
        ({
            let loaded = file@.loaded(separator, root_path);
            &&& file.verification is None ==> loaded.verification.len() == 0
            &&& file.verification matches Some(commands) ==> {
                &&& loaded.verification.len() == commands@.len()
                &&& forall|i: int|
                    0 <= i < commands@.len() ==> {
                        &&& (#[trigger] loaded.verification[i]).command == commands@[i].command@
                        &&& loaded.verification[i].args.len() == commands@[i].args@.len()
                        &&& forall|k: int|
                            0 <= k < commands@[i].args@.len()
                                ==> #[trigger] loaded.verification[i].args[k]
                                == commands@[i].args@[k]@
                    }
            }
            &&& file.skip_build is None ==> !loaded.skip_build
            &&& file.skip_build matches Some(skip) ==> loaded.skip_build == skip
        }),
        ({
            let a = file@.loaded(separator, root_path);
            let b = other@.loaded(separator, other_root);
            &&& file.exercises_dir == other.exercises_dir && root_path == other_root
                ==> a.exercises_dir == b.exercises_dir
            &&& file.verification == other.verification ==> a.verification == b.verification
            &&& file.skip_build == other.skip_build ==> a.skip_build == b.skip_build
        }),
        file.exercises_dir is None && (other.exercises_dir matches Some(dir) && dir@
            == "exercises"@) && root_path == other_root ==> file@.loaded(
            separator,
            root_path,
        ).exercises_dir == other@.loaded(separator, other_root).exercises_dir,
{
}

/// The text holds nothing but white space.
pub open spec fn is_white(text: Seq<char>) -> bool {
    forall|i: int| 0 <= i < text.len() ==> text::is_white_space(#[trigger] text[i])
}

/// What is cut off at the start is white space, and the rest does not start with any.
proof fn lemma_trimmed_start(whole: Seq<char>)
    ensures
        ({
            let rest = text::trimmed_start(whole);
            let n = whole.len() - rest.len();
            &&& 0 <= n
            &&& whole.skip(n) == rest
            &&& is_white(whole.take(n))
            &&& rest.len() > 0 ==> !text::is_white_space(rest[0])
        }),
    decreases whole.len(),
{
    if whole.len() > 0 && text::is_white_space(whole[0]) {
        let front = whole.drop_first();
        lemma_trimmed_start(front);
        let rest = text::trimmed_start(front);
        let n = front.len() - rest.len();
        assert(whole.skip(n + 1) =~= front.skip(n));
        assert forall|i: int| 0 <= i < n + 1 implies text::is_white_space(
            #[trigger] whole.take(n + 1)[i],
        ) by {
            if i > 0 {
                assert(whole.take(n + 1)[i] == front.take(n)[i - 1]);
            }
        }
    }
}

/// What is cut off at the end is white space, and the rest does not end with any.
proof fn lemma_trimmed_end(whole: Seq<char>)
    ensures
        ({
            let rest = text::trimmed_end(whole);
            let n = rest.len() as int;
            &&& n <= whole.len()
            &&& whole.take(n) == rest
            &&& is_white(whole.skip(n))
            &&& n > 0 ==> !text::is_white_space(rest[n - 1])
        }),
    decreases whole.len(),
{
    if whole.len() > 0 && text::is_white_space(whole.last()) {
        let front = whole.drop_last();
        lemma_trimmed_end(front);
        let n = text::trimmed_end(front).len() as int;
        assert(whole.take(n) =~= front.take(n));
        assert forall|i: int| 0 <= i < whole.skip(n).len() implies text::is_white_space(
            #[trigger] whole.skip(n)[i],
        ) by {
            if i < front.len() - n {
                assert(whole.skip(n)[i] == front.skip(n)[i]);
            }
        }
    }
}

/// The root is what `git` wrote, but for the white space around it, wherever `git` succeeded and
/// wrote valid UTF-8. Otherwise there is no root: because `git` failed, or else because of the
/// encoding.
pub proof fn law_root(success: bool, stdout: Seq<u8>) -> (ends: (Seq<char>, Seq<char>))
    ensures
        !success ==> root_from(success, stdout) == Err::<Seq<char>, RootError>(
            RootError::GitFailed,
        ),
        success && !valid_utf8(stdout) ==> root_from(success, stdout) == Err::<
            Seq<char>,
            RootError,
        >(RootError::NotUtf8),
        success && valid_utf8(stdout) ==> {
            let root = root_from(success, stdout)->Ok_0;
            &&& root_from(success, stdout) is Ok
            &&& decode_utf8(stdout) == ends.0 + root + ends.1
            &&& is_white(ends.0)
            &&& is_white(ends.1)
            &&& root.len() > 0 ==> !text::is_white_space(root[0])
            &&& root.len() > 0 ==> !text::is_white_space(root[root.len() - 1])
        },
{
    if success && valid_utf8(stdout) {
        let whole = decode_utf8(stdout);
        let rest = text::trimmed_start(whole);
        let root = text::trimmed_end(rest);
        lemma_trimmed_start(whole);
        lemma_trimmed_end(rest);
        let start = whole.take(whole.len() - rest.len());
        let end = rest.skip(root.len() as int);
        assert(whole =~= start + rest);
        assert(rest =~= root + end);
        assert(whole =~= start + root + end);
        (start, end)
    } else {
        (Seq::empty(), Seq::empty())
    }
}

} // verus!
