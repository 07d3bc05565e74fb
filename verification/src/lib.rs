//! The rules of a workshop runner: which exercises a collection holds and in which order, which
//! of them are opened and solved, which comes next, and how one is verified.
//!
//! Nothing here reads a directory, runs a command or talks to the database. What was read is
//! passed in as plain values, and what is to be done comes back as one: a command line, a
//! statement for the database, or the next step.

pub mod collection;
pub mod command;
pub mod config;
pub mod definition;
pub mod locate;
pub mod messages;
pub mod next;
pub mod ordered;
pub mod outside;
pub mod path;
pub mod pattern;
pub mod progress;
pub mod seek;
pub mod selector;
pub mod session;
pub mod sql;
pub mod text;
pub mod verify;

pub use collection::{ChapterDir, ExerciseCollection, OpenError};
pub use config::{
    get_git_repository_root_dir, ConfigFile, ExerciseConfig, ExercisesConfig, RootError,
    Verification,
};
pub use definition::{ExerciseDefinition, NameError, NameFault, NameKind, OpenedExercise};
pub use path::Host;
