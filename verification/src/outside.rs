use vstd::prelude::*;
use vstd::utf8::*;

use crate::path::Host;
use crate::pattern;
use crate::text;

verus! {

/// `String::push`: the character is added at the end.
pub assume_specification[ String::push ](target: &mut String, c: char)
    ensures
        final(target)@ == old(target)@.push(c),
;

/// `str::trim`: the text without the white space at its start and at its end, where white
/// space is what has the Unicode property of that name.
pub assume_specification[ str::trim ](whole: &str) -> (inner: &str)
    ensures
        inner@ == text::trimmed(whole@),
;

/// `core::str::from_utf8`: the text that the bytes encode, if they are valid UTF-8.
#[verifier::external_body]
pub(crate) fn utf8_text(bytes: &[u8]) -> (text: Option<&str>)
    ensures
        text is Some <==> valid_utf8(bytes@),
        text matches Some(inner) ==> inner@ == decode_utf8(bytes@),
{
    core::str::from_utf8(bytes).ok()
}

/// What `String::from_utf8_lossy` makes of some bytes.
pub uninterp spec fn lossy_text(bytes: Seq<u8>) -> Seq<char>;

/// `String::from_utf8_lossy`: valid UTF-8 is decoded as it stands. What stands for the parts
/// of other input is not said.
#[verifier::external_body]
pub(crate) fn from_utf8_lossy(bytes: &[u8]) -> (text: String)
    ensures
        text@ == lossy_text(bytes@),
        valid_utf8(bytes@) ==> text@ == decode_utf8(bytes@),
{
    String::from_utf8_lossy(bytes).into_owned()
}

/// `textwrap::indent`: the prefix is put in front of each line, and in front of a blank line
/// without the white space at the prefix's end.
#[verifier::external_body]
pub(crate) fn indent(lines: &str, prefix: &str) -> (res: String)
    ensures
        res@ == text::indented(lines@, prefix@),
{
    textwrap::indent(lines, prefix)
}

/// `std::path::MAIN_SEPARATOR`: what separates the parts of a path on this machine. Which
/// character that is depends on the machine, and nothing is said of it.
#[verifier::external_body]
pub(crate) fn main_separator() -> (c: char) {
    std::path::MAIN_SEPARATOR
}

/// What `std::path::Path::join` makes of a path and a part, on a machine that separates the
/// parts of a path by a character other than `/`.
pub uninterp spec fn joined_elsewhere(
    separator: char,
    base: Seq<char>,
    part: Seq<char>,
) -> Seq<char>;

/// `std::path::Path::join`, on this machine, where that does not separate the parts of a path
/// by `/`: the path is determined by the separator, the base and the part. How it looks is not
/// said: such machines have drives, and more than one kind of root.
#[verifier::external_body]
pub(crate) fn join_elsewhere(host: Host, base: &str, part: &str) -> (path: String)
    requires
        host@ != '/',
    ensures
        path@ == joined_elsewhere(host@, base@, part@),
{
    std::path::Path::new(base).join(part).to_string_lossy().into_owned()
}

/// Whether `\d` in a pattern of the crate `regex` stands for a character. It is asked only of
/// characters that are not ASCII: those that the pattern takes are what the crate's Unicode
/// tables say.
pub uninterp spec fn unicode_digit(c: char) -> bool;

/// Whether `\w` in a pattern of the crate `regex` stands for a character. It is asked only of
/// characters that are not ASCII, as [`unicode_digit`] is.
pub uninterp spec fn unicode_word(c: char) -> bool;

/// `regex::Regex::new`, `regex::Regex::captures` and what the groups `first` and `second` of
/// the match hold: of all places where the pattern matches, the match is at the first, and
/// the name in it is as long as can be.
#[verifier::external_body]
pub(crate) fn captures(
    pattern: &str,
    first: &str,
    second: &str,
    haystack: &str,
) -> (groups: Option<(String, String)>)
    requires
        pattern@ == pattern::name_pattern(),
        first@ == "number"@,
        second@ == "name"@,
    ensures
        match groups {
            Some((number, name)) => pattern::captured(haystack@) == Some((number@, name@)),
            None => pattern::captured(haystack@) is None,
        },
        groups matches Some((number, name)) ==> {
            &&& forall|i: int|
                0 <= i < number@.len() ==> text::is_ascii_digit(#[trigger] number@[i])
                    || unicode_digit(number@[i])
            &&& forall|i: int|
                0 <= i < name@.len() ==> pattern::is_ascii_word(#[trigger] name@[i])
                    || unicode_word(name@[i])
        },
{
    let re = regex::Regex::new(pattern).unwrap();
    match re.captures(haystack) {
        Some(found) => Some((found[first].to_string(), found[second].to_string())),
        None => None,
    }
}

} // verus!
