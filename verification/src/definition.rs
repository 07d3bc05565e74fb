use core::cmp::Ordering;
use vstd::prelude::*;
use vstd::utf8::*;

use crate::outside;
use crate::path;
use crate::path::Host;
use crate::pattern;
use crate::text;

verus! {

/// Which of the two directory names of an exercise is meant.
#[derive(Clone, Copy, Debug, PartialEq, Eq, Structural)]
pub enum NameKind {
    Chapter,
    Exercise,
}

/// What is wrong with a directory name.
#[derive(Clone, Copy, Debug, PartialEq, Eq, Structural)]
pub enum NameFault {
    /// It is not valid UTF-8.
    NotUtf8,
    /// No part of it has the form `<NN>_<name>`.
    NoMatch,
}

/// Why two directory names define no exercise.
#[derive(Clone, Copy, Debug, PartialEq, Eq, Structural)]
pub struct NameError {
    pub kind: NameKind,
    pub fault: NameFault,
}

/// An exercise, by the number and the name of its chapter and its own number and name.
#[derive(Debug)]
pub struct ExerciseDefinition {
    chapter_name: String,
    chapter_number: u16,
    name: String,
    number: u16,
}

/// What an [`ExerciseDefinition`] says.
#[verifier::ext_equal]
pub struct DefinitionView {
    pub chapter_name: Seq<char>,
    pub chapter_number: u16,
    pub name: Seq<char>,
    pub number: u16,
}

impl View for ExerciseDefinition {
    type V = DefinitionView;

    closed spec fn view(&self) -> DefinitionView {
        DefinitionView {
            chapter_name: self.chapter_name@,
            chapter_number: self.chapter_number,
            name: self.name@,
            number: self.number,
        }
    }
}

/// `name` can stand behind the number in a directory's name.
pub open spec fn is_name(name: Seq<char>) -> bool {
    &&& name.len() > 0
    &&& forall|i: int| 0 <= i < name.len() ==> pattern::is_word(#[trigger] name[i])
}

/// A number and a name, written as in a directory's name.
pub open spec fn numbered_name(number: u16, name: Seq<char>) -> Seq<char> {
    text::two_digits(number as nat) + seq!['_'] + name
}

impl DefinitionView {
    /// The numbers have two digits and the names are made of word characters.
    pub open spec fn wf(self) -> bool {
        &&& self.chapter_number <= 99
        &&& self.number <= 99
        &&& is_name(self.chapter_name)
        &&& is_name(self.name)
    }

    /// What exercises are ordered by: the chapter's number, then the exercise's own.
    pub open spec fn numbers(self) -> (u16, u16) {
        (self.chapter_number, self.number)
    }

    /// The number and the name of the chapter.
    pub open spec fn chapter(self) -> Seq<char> {
        numbered_name(self.chapter_number, self.chapter_name)
    }

    /// The number and the name of the exercise.
    pub open spec fn exercise(self) -> Seq<char> {
        numbered_name(self.number, self.name)
    }

    /// The directory of the exercise.
    pub open spec fn manifest_folder_path(self, separator: char, exercises_dir: Seq<char>) -> Seq<char> {
        path::joined(
            separator,
            path::joined(separator, exercises_dir, self.chapter()),
            self.exercise(),
        )
    }

    /// The manifest of the exercise.
    pub open spec fn manifest_path(self, separator: char, exercises_dir: Seq<char>) -> Seq<char> {
        path::joined(
            separator,
            self.manifest_folder_path(separator, exercises_dir),
            "Cargo.toml"@,
        )
    }

    /// The configuration file of the exercise.
    pub open spec fn config_path(self, separator: char, exercises_dir: Seq<char>) -> Seq<char> {
        path::joined(
            separator,
            self.manifest_folder_path(separator, exercises_dir),
            ".wr.toml"@,
        )
    }

    /// The exercise as it is shown to the user.
    pub open spec fn shown(self) -> Seq<char> {
        "("@ + text::two_digits(self.chapter_number as nat) + ") "@ + self.chapter_name + " - ("@
            + text::two_digits(self.number as nat) + ") "@ + self.name
    }
}

/// The name and the number in a directory's name.
pub open spec fn name_in(dir_name: Seq<char>, kind: NameKind) -> Result<
    (Seq<char>, u16),
    NameError,
> {
    match pattern::captured(dir_name) {
        Some((number, name)) => Ok((name, text::digits_value(number) as u16)),
        None => Err(NameError { kind, fault: NameFault::NoMatch }),
    }
}

/// The name and the number in the bytes of a directory's name.
pub open spec fn name_in_bytes(dir_name: Seq<u8>, kind: NameKind) -> Result<
    (Seq<char>, u16),
    NameError,
> {
    if valid_utf8(dir_name) {
        name_in(decode_utf8(dir_name), kind)
    } else {
        Err(NameError { kind, fault: NameFault::NotUtf8 })
    }
}

/// The digits in a directory's name, if there are any, are ASCII digits: those of other
/// scripts fit the pattern too, and no number can be read from them.
pub open spec fn number_readable(dir_name: Seq<char>) -> bool {
    pattern::captured(dir_name) matches Some((number, _)) ==> text::all_ascii_digits(number)
}

/// The definition that two parsed names make. The exercise's name is looked at first.
pub open spec fn definition_from(
    chapter: Result<(Seq<char>, u16), NameError>,
    exercise: Result<(Seq<char>, u16), NameError>,
) -> Result<DefinitionView, NameError> {
    match exercise {
        Err(error) => Err(error),
        Ok((name, number)) => match chapter {
            Err(error) => Err(error),
            Ok((chapter_name, chapter_number)) => Ok(
                DefinitionView { chapter_name, chapter_number, name, number },
            ),
        },
    }
}

/// The definition of the exercise in a directory with the one name, inside a directory with
/// the other.
pub open spec fn definition_in_bytes(chapter: Seq<u8>, exercise: Seq<u8>) -> Result<
    DefinitionView,
    NameError,
> {
    definition_from(
        name_in_bytes(chapter, NameKind::Chapter),
        name_in_bytes(exercise, NameKind::Exercise),
    )
}

/// As [`definition_in_bytes`], of names that are text.
pub open spec fn definition_named(chapter: Seq<char>, exercise: Seq<char>) -> Result<
    DefinitionView,
    NameError,
> {
    definition_from(name_in(chapter, NameKind::Chapter), name_in(exercise, NameKind::Exercise))
}

/// Every number that is read for the definition can be read. The chapter's is read only
/// where the exercise's name fits.
pub open spec fn definition_readable(chapter: Seq<u8>, exercise: Seq<u8>) -> bool {
    &&& valid_utf8(exercise) ==> number_readable(decode_utf8(exercise))
    &&& name_in_bytes(exercise, NameKind::Exercise) is Ok && valid_utf8(chapter)
        ==> number_readable(decode_utf8(chapter))
}

/// As [`definition_readable`], of names that are text.
pub open spec fn named_readable(chapter: Seq<char>, exercise: Seq<char>) -> bool {
    &&& number_readable(exercise)
    &&& name_in(exercise, NameKind::Exercise) is Ok ==> number_readable(chapter)
}

/// Names that are text say the same as their bytes.
pub proof fn lemma_named_in_bytes(chapter: Seq<char>, exercise: Seq<char>)
    ensures
        definition_in_bytes(encode_utf8(chapter), encode_utf8(exercise)) == definition_named(
            chapter,
            exercise,
        ),
        definition_readable(encode_utf8(chapter), encode_utf8(exercise)) == named_readable(
            chapter,
            exercise,
        ),
{
    encode_utf8_decode_utf8(chapter);
    encode_utf8_decode_utf8(exercise);
    encode_utf8_valid_utf8(chapter);
    encode_utf8_valid_utf8(exercise);
}

/// What a directory's name holds has the form that the pattern asks for.
pub proof fn lemma_captured_shape(dir_name: Seq<char>)
    ensures
        pattern::captured(dir_name) matches Some((number, name)) ==> {
            &&& number.len() == 2
            &&& pattern::is_digit(number[0])
            &&& pattern::is_digit(number[1])
            &&& is_name(name)
        },
    decreases dir_name.len(),
{
    if dir_name.len() > 0 {
        if pattern::matches_at(dir_name, 0) {
            lemma_leading_word(dir_name.skip(3));
        } else {
            lemma_captured_shape(dir_name.drop_first());
        }
    }
}

/// A leading word is made of word characters.
proof fn lemma_leading_word(s: Seq<char>)
    ensures
        forall|i: int|
            0 <= i < pattern::leading_word(s).len() ==> pattern::is_word(
                #[trigger] pattern::leading_word(s)[i],
            ),
    decreases s.len(),
{
    if s.len() > 0 && pattern::is_word(s[0]) {
        lemma_leading_word(s.drop_first());
        let rest = pattern::leading_word(s.drop_first());
        assert(pattern::leading_word(s) == seq![s[0]] + rest);
    }
}

/// Two ASCII digits stand for a number below a hundred.
proof fn lemma_two_digit_value(number: Seq<char>)
    requires
        number.len() == 2,
        text::all_ascii_digits(number),
    ensures
        text::digits_value(number) == text::digit_value(number[0]) * 10 + text::digit_value(
            number[1],
        ),
        text::digits_value(number) <= 99,
        text::spelled_u16(number) == Some(text::digits_value(number) as u16),
{
    reveal_with_fuel(text::digits_value, 3);
}

/// What readable names define is well formed.
pub proof fn lemma_named_wf(chapter: Seq<char>, exercise: Seq<char>)
    requires
        named_readable(chapter, exercise),
    ensures
        definition_named(chapter, exercise) matches Ok(definition) ==> definition.wf(),
{
    lemma_captured_shape(chapter);
    lemma_captured_shape(exercise);
    if definition_named(chapter, exercise) is Ok {
        lemma_two_digit_value(pattern::captured(chapter)->Some_0.0);
        lemma_two_digit_value(pattern::captured(exercise)->Some_0.0);
    }
}

/// As [`lemma_named_wf`], of the bytes of names.
pub proof fn lemma_bytes_wf(chapter: Seq<u8>, exercise: Seq<u8>)
    requires
        definition_readable(chapter, exercise),
    ensures
        definition_in_bytes(chapter, exercise) matches Ok(definition) ==> definition.wf(),
{
    if definition_in_bytes(chapter, exercise) is Ok {
        lemma_named_wf(decode_utf8(chapter), decode_utf8(exercise));
    }
}

/// Takes a directory's name apart. The number that fits the pattern must be readable.
fn parse(dir_name: &[u8], kind: NameKind) -> (parts: Result<(String, u16), NameError>)
    requires
        valid_utf8(dir_name@) ==> number_readable(decode_utf8(dir_name@)),
    ensures
        match parts {
            Ok((name, number)) => {
                &&& name_in_bytes(dir_name@, kind) == Ok::<(Seq<char>, u16), NameError>(
                    (name@, number),
                )
                &&& number <= 99
                &&& is_name(name@)
            },
            Err(error) => name_in_bytes(dir_name@, kind) == Err::<(Seq<char>, u16), NameError>(
                error,
            ),
        },
{
    let Some(dir_name) = outside::utf8_text(dir_name) else {
        return Err(NameError { kind, fault: NameFault::NotUtf8 });
    };
    match pattern::capture(dir_name) {
        None => Err(NameError { kind, fault: NameFault::NoMatch }),
        Some((digits, name)) => {
            proof {
                lemma_captured_shape(dir_name@);
                lemma_two_digit_value(digits@);
            }
            let number = text::parse_u16(digits.as_str()).unwrap();
            Ok((name, number))
        },
    }
}

/// Whether the number in a directory's name, if there is one, can be read.
fn is_number_readable(dir_name: &[u8]) -> (readable: bool)
    ensures
        readable == (valid_utf8(dir_name@) ==> number_readable(decode_utf8(dir_name@))),
{
    let Some(dir_name) = outside::utf8_text(dir_name) else {
        return true;
    };
    match pattern::capture(dir_name) {
        None => true,
        Some((digits, _)) => {
            proof {
                lemma_captured_shape(dir_name@);
            }
            let digits = text::characters(digits.as_str());
            '0' <= digits[0] && digits[0] <= '9' && '0' <= digits[1] && digits[1] <= '9'
        },
    }
}

/// `res` is what `expected` says, and a definition in it is well formed.
pub open spec fn defines(
    res: Result<ExerciseDefinition, NameError>,
    expected: Result<DefinitionView, NameError>,
) -> bool {
    match res {
        Ok(definition) => expected == Ok::<DefinitionView, NameError>(definition@)
            && definition@.wf(),
        Err(error) => expected == Err::<DefinitionView, NameError>(error),
    }
}

impl ExerciseDefinition {
    /// The exercise in the directory `exercise_dir_name` of the chapter in the directory
    /// `chapter_dir_name`, both given by the bytes of their names.
    pub fn new(chapter_dir_name: &[u8], exercise_dir_name: &[u8]) -> (res: Result<Self, NameError>)
        requires
            definition_readable(chapter_dir_name@, exercise_dir_name@),
        ensures
            defines(res, definition_in_bytes(chapter_dir_name@, exercise_dir_name@)),
    {
        match parse(exercise_dir_name, NameKind::Exercise) {
            Err(error) => Err(error),
            Ok((name, number)) => match parse(chapter_dir_name, NameKind::Chapter) {
                Err(error) => Err(error),
                Ok((chapter_name, chapter_number)) => Ok(
                    ExerciseDefinition { chapter_name, chapter_number, name, number },
                ),
            },
        }
    }

    /// As [`ExerciseDefinition::new`], for any two names: `None` where a number would have to
    /// be read from digits that are not ASCII.
    pub fn checked_new(chapter_dir_name: &[u8], exercise_dir_name: &[u8]) -> (res: Option<
        Result<Self, NameError>,
    >)
        ensures
            res is Some <==> definition_readable(chapter_dir_name@, exercise_dir_name@),
            res matches Some(inner) ==> defines(
                inner,
                definition_in_bytes(chapter_dir_name@, exercise_dir_name@),
            ),
    {
        if !is_number_readable(exercise_dir_name) {
            return None;
        }
        match parse(exercise_dir_name, NameKind::Exercise) {
            Err(error) => Some(Err(error)),
            Ok(_) => if is_number_readable(chapter_dir_name) {
                Some(Self::new(chapter_dir_name, exercise_dir_name))
            } else {
                None
            },
        }
    }

    /// The number and the name of the chapter that holds this exercise.
    pub fn chapter(&self) -> (text: String)
        ensures
            text@ == self@.chapter(),
    {
        write_numbered_name(self.chapter_number, self.chapter_name.as_str())
    }

    /// The number and the name of this exercise.
    pub fn exercise(&self) -> (text: String)
        ensures
            text@ == self@.exercise(),
    {
        write_numbered_name(self.number, self.name.as_str())
    }

    /// The number of this exercise.
    pub fn exercise_number(&self) -> (number: u16)
        ensures
            number == self@.number,
    {
        self.number
    }

    /// The number of the chapter that holds this exercise.
    pub fn chapter_number(&self) -> (number: u16)
        ensures
            number == self@.chapter_number,
    {
        self.chapter_number
    }

    /// The path of the directory that holds this exercise's `Cargo.toml`.
    pub fn manifest_folder_path(&self, exercises_dir: &str, host: Host) -> (path: String)
        ensures
            path@ == self@.manifest_folder_path(host@, exercises_dir@),
    {
        let chapter_dir = path::join(host, exercises_dir, self.chapter().as_str());
        path::join(host, chapter_dir.as_str(), self.exercise().as_str())
    }

    /// The path of this exercise's `Cargo.toml`.
    pub fn manifest_path(&self, exercises_dir: &str, host: Host) -> (path: String)
        ensures
            path@ == self@.manifest_path(host@, exercises_dir@),
    {
        path::join(host, self.manifest_folder_path(exercises_dir, host).as_str(), "Cargo.toml")
    }

    /// The path of this exercise's own configuration.
    pub fn config_path(&self, exercises_dir: &str, host: Host) -> (path: String)
        ensures
            path@ == self@.config_path(host@, exercises_dir@),
    {
        path::join(host, self.manifest_folder_path(exercises_dir, host).as_str(), ".wr.toml")
    }

    /// The exercise as it is shown to the user.
    pub fn to_string(&self) -> (text: String)
        ensures
            text@ == self@.shown(),
    {
        let mut text = "(".to_string();
        text.append(text::write_two_digits(self.chapter_number).as_str());
        text.append(") ");
        text.append(self.chapter_name.as_str());
        text.append(" - (");
        text.append(text::write_two_digits(self.number).as_str());
        text.append(") ");
        text.append(self.name.as_str());
        text
    }
}

fn write_numbered_name(number: u16, name: &str) -> (text: String)
    ensures
        text@ == numbered_name(number, name@),
{
    let mut text = text::write_two_digits(number);
    text.push('_');
    text.append(name);
    text
}

impl Clone for ExerciseDefinition {
    fn clone(&self) -> (copy: Self)
        ensures
            copy@ == self@,
    {
        ExerciseDefinition {
            chapter_name: self.chapter_name.clone(),
            chapter_number: self.chapter_number,
            name: self.name.clone(),
            number: self.number,
        }
    }
}

/// An exercise that the user has opened, and whether it passed its last verification.
#[derive(Debug)]
pub struct OpenedExercise {
    pub definition: ExerciseDefinition,
    pub solved: bool,
}

/// What an [`OpenedExercise`] says.
#[verifier::ext_equal]
pub struct OpenedView {
    pub definition: DefinitionView,
    pub solved: bool,
}

impl View for OpenedExercise {
    type V = OpenedView;

    open spec fn view(&self) -> OpenedView {
        OpenedView { definition: self.definition@, solved: self.solved }
    }
}

impl Clone for OpenedExercise {
    fn clone(&self) -> (copy: Self)
        ensures
            copy@ == self@,
    {
        OpenedExercise { definition: self.definition.clone(), solved: self.solved }
    }
}

/// The exercise with the numbers `a` comes before the one with the numbers `b`.
pub open spec fn comes_before(a: (u16, u16), b: (u16, u16)) -> bool {
    a.0 < b.0 || a.0 == b.0 && a.1 < b.1
}

/// How two pairs of numbers compare: by the first, then by the second.
pub open spec fn number_order(a: (u16, u16), b: (u16, u16)) -> Ordering {
    if comes_before(a, b) {
        Ordering::Less
    } else if a == b {
        Ordering::Equal
    } else {
        Ordering::Greater
    }
}

fn compare_numbers(a: (u16, u16), b: (u16, u16)) -> (order: Ordering)
    ensures
        order == number_order(a, b),
{
    if a.0 < b.0 || a.0 == b.0 && a.1 < b.1 {
        Ordering::Less
    } else if a.0 == b.0 && a.1 == b.1 {
        Ordering::Equal
    } else {
        Ordering::Greater
    }
}

impl ExerciseDefinition {
    /// Whether both are the same exercise.
    pub(crate) fn equals(&self, other: &Self) -> (equal: bool)
        ensures
            equal == (self@ == other@),
    {
        self.chapter_name == other.chapter_name && self.chapter_number == other.chapter_number
            && self.name == other.name && self.number == other.number
    }
}

impl PartialEq for ExerciseDefinition {
    fn eq(&self, other: &Self) -> (equal: bool) {
        self.equals(other)
    }
}

impl vstd::std_specs::cmp::PartialEqSpecImpl for ExerciseDefinition {
    open spec fn obeys_eq_spec() -> bool {
        true
    }

    open spec fn eq_spec(&self, other: &Self) -> bool {
        self@ == other@
    }
}

impl Eq for ExerciseDefinition {

}

impl PartialOrd for ExerciseDefinition {
    fn partial_cmp(&self, other: &Self) -> (order: Option<Ordering>) {
        Some(
            compare_numbers(
                (self.chapter_number, self.number),
                (other.chapter_number, other.number),
            ),
        )
    }
}

impl vstd::std_specs::cmp::PartialOrdSpecImpl for ExerciseDefinition {
    open spec fn obeys_partial_cmp_spec() -> bool {
        true
    }

    open spec fn partial_cmp_spec(&self, other: &Self) -> Option<Ordering> {
        Some(number_order(self@.numbers(), other@.numbers()))
    }
}

impl PartialEq for OpenedExercise {
    fn eq(&self, other: &Self) -> (equal: bool) {
        self.definition == other.definition && self.solved == other.solved
    }
}

impl vstd::std_specs::cmp::PartialEqSpecImpl for OpenedExercise {
    open spec fn obeys_eq_spec() -> bool {
        true
    }

    open spec fn eq_spec(&self, other: &Self) -> bool {
        self@ == other@
    }
}

impl Eq for OpenedExercise {

}

impl PartialOrd for OpenedExercise {
    fn partial_cmp(&self, other: &Self) -> (order: Option<Ordering>) {
        self.definition.partial_cmp(&other.definition)
    }
}

impl vstd::std_specs::cmp::PartialOrdSpecImpl for OpenedExercise {
    open spec fn obeys_partial_cmp_spec() -> bool {
        true
    }

    open spec fn partial_cmp_spec(&self, other: &Self) -> Option<Ordering> {
        Some(number_order(self@.definition.numbers(), other@.definition.numbers()))
    }
}

impl PartialEq<OpenedExercise> for ExerciseDefinition {
    fn eq(&self, other: &OpenedExercise) -> (equal: bool) {
        self == &other.definition
    }
}

impl vstd::std_specs::cmp::PartialEqSpecImpl<OpenedExercise> for ExerciseDefinition {
    open spec fn obeys_eq_spec() -> bool {
        true
    }

    open spec fn eq_spec(&self, other: &OpenedExercise) -> bool {
        self@ == other@.definition
    }
}

impl PartialOrd<OpenedExercise> for ExerciseDefinition {
    fn partial_cmp(&self, other: &OpenedExercise) -> (order: Option<Ordering>) {
        self.partial_cmp(&other.definition)
    }
}

impl vstd::std_specs::cmp::PartialOrdSpecImpl<OpenedExercise> for ExerciseDefinition {
    open spec fn obeys_partial_cmp_spec() -> bool {
        true
    }

    open spec fn partial_cmp_spec(&self, other: &OpenedExercise) -> Option<Ordering> {
        Some(number_order(self@.numbers(), other@.definition.numbers()))
    }
}

/// A word is its own leading word.
proof fn lemma_whole_leading_word(name: Seq<char>)
    requires
        forall|i: int| 0 <= i < name.len() ==> pattern::is_word(#[trigger] name[i]),
    ensures
        pattern::leading_word(name) == name,
    decreases name.len(),
{
    if name.len() > 0 {
        lemma_whole_leading_word(name.drop_first());
    }
}

/// A number and a name are found again in what they are written as.
pub proof fn lemma_numbered_name_parsed(number: u16, name: Seq<char>, kind: NameKind)
    requires
        number <= 99,
        is_name(name),
    ensures
        number_readable(numbered_name(number, name)),
        name_in(numbered_name(number, name), kind) == Ok::<(Seq<char>, u16), NameError>(
            (name, number),
        ),
{
    let digits = text::two_digits(number as nat);
    let whole = numbered_name(number, name);
    reveal_with_fuel(text::decimal, 2);
    assert(digits =~= seq![
        text::digit_char((number / 10) as int),
        text::digit_char((number % 10) as int),
    ]);
    assert(whole.take(2) =~= digits);
    assert(whole.skip(3) =~= name);
    lemma_whole_leading_word(name);
    lemma_two_digit_value(digits);
}

/// What an exercise is written as in the progress database defines that exercise again.
pub proof fn law_names_round_trip(definition: DefinitionView)
    requires
        definition.wf(),
    ensures
        definition_named(definition.chapter(), definition.exercise()) == Ok::<
            DefinitionView,
            NameError,
        >(definition),
        named_readable(definition.chapter(), definition.exercise()),
        definition_in_bytes(
            encode_utf8(definition.chapter()),
            encode_utf8(definition.exercise()),
        ) == Ok::<DefinitionView, NameError>(definition),
        definition_readable(
            encode_utf8(definition.chapter()),
            encode_utf8(definition.exercise()),
        ),
{
    lemma_numbered_name_parsed(
        definition.chapter_number,
        definition.chapter_name,
        NameKind::Chapter,
    );
    lemma_numbered_name_parsed(definition.number, definition.name, NameKind::Exercise);
    lemma_named_in_bytes(definition.chapter(), definition.exercise());
}

/// Exercises of differently written chapters are in different chapters, and an exercise is
/// told from all others by how its chapter and it are written.
pub proof fn law_names_tell_exercises_apart(a: DefinitionView, b: DefinitionView)
    requires
        a.wf(),
        b.wf(),
    ensures
        a.chapter() == b.chapter() <==> a.chapter_number == b.chapter_number && a.chapter_name
            == b.chapter_name,
        a.exercise() == b.exercise() <==> a.number == b.number && a.name == b.name,
        a.chapter() == b.chapter() && a.exercise() == b.exercise() <==> a == b,
{
    lemma_numbered_name_parsed(a.chapter_number, a.chapter_name, NameKind::Chapter);
    lemma_numbered_name_parsed(b.chapter_number, b.chapter_name, NameKind::Chapter);
    lemma_numbered_name_parsed(a.number, a.name, NameKind::Exercise);
    lemma_numbered_name_parsed(b.number, b.name, NameKind::Exercise);
}

/// The directory of an exercise is that of its chapter with the exercise adjoined, inside the
/// directory of the exercises, and its manifest and its configuration lie right in it. Where
/// `/` separates the parts of a path, this is how they are written.
pub proof fn law_paths_are_nested(
    definition: DefinitionView,
    separator: char,
    exercises_dir: Seq<char>,
)
    requires
        definition.wf(),
    ensures
        ({
            let folder = definition.manifest_folder_path(separator, exercises_dir);
            let chapter = path::joined(separator, exercises_dir, definition.chapter());
            &&& folder == path::joined(separator, chapter, definition.exercise())
            &&& definition.manifest_path(separator, exercises_dir) == path::joined(
                separator,
                folder,
                "Cargo.toml"@,
            )
            &&& definition.config_path(separator, exercises_dir) == path::joined(
                separator,
                folder,
                ".wr.toml"@,
            )
        }),
        separator == '/' ==> {
            let root = if exercises_dir.len() == 0 || exercises_dir.last() == '/' {
                exercises_dir
            } else {
                exercises_dir.push('/')
            };
            let folder = definition.manifest_folder_path(separator, exercises_dir);
            &&& folder == root + definition.chapter() + seq!['/'] + definition.exercise()
            &&& definition.manifest_path(separator, exercises_dir) == folder + "/Cargo.toml"@
            &&& definition.config_path(separator, exercises_dir) == folder + "/.wr.toml"@
        },
{
    reveal_strlit("Cargo.toml");
    reveal_strlit(".wr.toml");
    reveal_strlit("/Cargo.toml");
    reveal_strlit("/.wr.toml");
    reveal_with_fuel(text::decimal, 2);
}

/// Exercises are in a total order, by the number of the chapter and then by their own.
pub proof fn law_order_is_total(a: (u16, u16), b: (u16, u16), c: (u16, u16))
    ensures
        number_order(a, b) == Ordering::Equal <==> a == b,
        number_order(a, b) == Ordering::Less <==> number_order(b, a) == Ordering::Greater,
        number_order(a, b) == Ordering::Less && number_order(b, c) == Ordering::Less
            ==> number_order(a, c) == Ordering::Less,
{
}

/// Two names define an exercise exactly where a number and a name are found in both. Its own
/// number and name are those in the exercise's name, and the chapter's are those in the
/// chapter's. Otherwise the error tells which of the names is at fault, the exercise's where
/// both are, and whether it is because of the encoding.
pub proof fn law_names_define(chapter: Seq<u8>, exercise: Seq<u8>)
    requires
        definition_readable(chapter, exercise),
    ensures
        ({
            let res = definition_in_bytes(chapter, exercise);
            let fits = |name: Seq<u8>|
                valid_utf8(name) && pattern::captured(decode_utf8(name)) is Some;
            &&& res is Ok <==> fits(chapter) && fits(exercise)
            &&& res matches Ok(definition) ==> {
                let (digits, name) = pattern::captured(decode_utf8(exercise))->Some_0;
                let (chapter_digits, chapter_name) = pattern::captured(
                    decode_utf8(chapter),
                )->Some_0;
                &&& definition.name == name
                &&& definition.chapter_name == chapter_name
                &&& definition.number == (digits[0] as int - '0' as int) * 10 + (digits[1] as int
                    - '0' as int)
                &&& definition.chapter_number == (chapter_digits[0] as int - '0' as int) * 10 + (
                chapter_digits[1] as int - '0' as int)
            }
            &&& res matches Err(error) ==> {
                &&& error.kind == NameKind::Exercise <==> !fits(exercise)
                &&& error.kind == NameKind::Exercise ==> (error.fault == NameFault::NotUtf8
                    <==> !valid_utf8(exercise))
                &&& error.kind == NameKind::Chapter ==> (error.fault == NameFault::NotUtf8
                    <==> !valid_utf8(chapter))
            }
        }),
{
    if definition_in_bytes(chapter, exercise) is Ok {
        let chapter_name = decode_utf8(chapter);
        let exercise_name = decode_utf8(exercise);
        lemma_captured_shape(chapter_name);
        lemma_captured_shape(exercise_name);
        lemma_two_digit_value(pattern::captured(chapter_name)->Some_0.0);
        lemma_two_digit_value(pattern::captured(exercise_name)->Some_0.0);
    }
}

/// The name has digits in the place of its number that are not ASCII.
pub open spec fn has_foreign_digits(name: Seq<u8>) -> bool {
    &&& valid_utf8(name)
    &&& pattern::captured(decode_utf8(name)) matches Some((digits, _)) && !(('0' <= digits[0]
        && digits[0] <= '9') && ('0' <= digits[1] && digits[1] <= '9'))
}

/// Two names can be read unless one of them has a number in digits that are not ASCII; the
/// chapter's matters only where a number and a name are found in the exercise's.
pub proof fn law_only_foreign_digits_cannot_be_read(chapter: Seq<u8>, exercise: Seq<u8>)
    ensures
        !definition_readable(chapter, exercise) <==> {
            ||| has_foreign_digits(exercise)
            ||| has_foreign_digits(chapter) && valid_utf8(exercise) && pattern::captured(
                decode_utf8(exercise),
            ) is Some
        },
{
    lemma_captured_shape(decode_utf8(chapter));
    lemma_captured_shape(decode_utf8(exercise));
    assert forall|digits: Seq<char>| digits.len() == 2 implies (#[trigger] text::all_ascii_digits(
        digits,
    ) <==> ('0' <= digits[0] && digits[0] <= '9') && ('0' <= digits[1] && digits[1] <= '9')) by {
        if text::all_ascii_digits(digits) {
            assert(text::is_ascii_digit(digits[0]) && text::is_ascii_digit(digits[1]));
        }
    }
}

/// An exercise and its chapter are written with two digits, an underscore and the name, and
/// shown with the digits in brackets in front of the name.
pub proof fn law_how_exercises_are_written(definition: DefinitionView)
    requires
        definition.wf(),
    ensures
        ({
            let c1 = ('0' as int + definition.chapter_number / 10) as char;
            let c2 = ('0' as int + definition.chapter_number % 10) as char;
            let e1 = ('0' as int + definition.number / 10) as char;
            let e2 = ('0' as int + definition.number % 10) as char;
            &&& definition.chapter() == seq![c1, c2, '_'] + definition.chapter_name
            &&& definition.exercise() == seq![e1, e2, '_'] + definition.name
            &&& definition.shown() == seq!['(', c1, c2, ')', ' '] + definition.chapter_name + seq![
                ' ',
                '-',
                ' ',
                '(',
                e1,
                e2,
                ')',
                ' ',
            ] + definition.name
        }),
{
    reveal_with_fuel(text::decimal, 2);
    reveal_strlit("(");
    reveal_strlit(") ");
    reveal_strlit(" - (");
    let c1 = ('0' as int + definition.chapter_number / 10) as char;
    let c2 = ('0' as int + definition.chapter_number % 10) as char;
    let e1 = ('0' as int + definition.number / 10) as char;
    let e2 = ('0' as int + definition.number % 10) as char;
    assert(text::two_digits(definition.chapter_number as nat) =~= seq![c1, c2]);
    assert(text::two_digits(definition.number as nat) =~= seq![e1, e2]);
    assert(definition.chapter() =~= seq![c1, c2, '_'] + definition.chapter_name);
    assert(definition.exercise() =~= seq![e1, e2, '_'] + definition.name);
    assert(definition.shown() =~= seq!['(', c1, c2, ')', ' '] + definition.chapter_name + seq![
        ' ',
        '-',
        ' ',
        '(',
        e1,
        e2,
        ')',
        ' ',
    ] + definition.name);
}

/// Exercises compare by the number of the chapter and then by their own, whatever their names
/// are and whether they are solved; they are equal only where all of that is.
pub proof fn law_exercises_compare_by_numbers(
    a: ExerciseDefinition,
    b: ExerciseDefinition,
    x: OpenedExercise,
    y: OpenedExercise,
)
    ensures
        ({
            let order = |one: DefinitionView, other: DefinitionView|
                if one.chapter_number != other.chapter_number {
                    if one.chapter_number < other.chapter_number {
                        Ordering::Less
                    } else {
                        Ordering::Greater
                    }
                } else if one.number != other.number {
                    if one.number < other.number {
                        Ordering::Less
                    } else {
                        Ordering::Greater
                    }
                } else {
                    Ordering::Equal
                };
            &&& vstd::std_specs::cmp::PartialOrdSpec::partial_cmp_spec(&a, &b) == Some(
                order(a@, b@),
            )
            &&& vstd::std_specs::cmp::PartialOrdSpec::partial_cmp_spec(&x, &y) == Some(
                order(x.definition@, y.definition@),
            )
            &&& vstd::std_specs::cmp::PartialOrdSpec::partial_cmp_spec(&a, &x) == Some(
                order(a@, x.definition@),
            )
        }),
        vstd::std_specs::cmp::PartialEqSpec::eq_spec(&a, &b) <==> a@ == b@,
        vstd::std_specs::cmp::PartialEqSpec::eq_spec(&x, &y) <==> x.definition@ == y.definition@
            && x.solved == y.solved,
        vstd::std_specs::cmp::PartialEqSpec::eq_spec(&a, &x) <==> a@ == x.definition@,
{
}

} // verus!
