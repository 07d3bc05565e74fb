use vstd::prelude::*;

use crate::outside;
use crate::text;

verus! {

/// The pattern of a directory's name: two digits, an underscore, and a name made of word
/// characters.
pub const NAME_PATTERN: &'static str = r"(?P<number>\d{2})_(?P<name>\w+)";

/// The characters of [`NAME_PATTERN`].
pub open spec fn name_pattern() -> Seq<char> {
    NAME_PATTERN@
}

/// `c` is an ASCII letter, an ASCII digit or the underscore.
pub open spec fn is_ascii_word(c: char) -> bool {
    ||| text::is_ascii_digit(c)
    ||| 'A' <= c && c <= 'Z'
    ||| 'a' <= c && c <= 'z'
    ||| c == '_'
}

/// `c` is ASCII.
pub open spec fn is_ascii_char(c: char) -> bool {
    c <= '\u{7f}'
}

/// `c` is a digit of any script.
pub open spec fn is_digit(c: char) -> bool {
    if is_ascii_char(c) {
        text::is_ascii_digit(c)
    } else {
        outside::unicode_digit(c)
    }
}

/// `c` is a word character of any script.
pub open spec fn is_word(c: char) -> bool {
    if is_ascii_char(c) {
        is_ascii_word(c)
    } else {
        outside::unicode_word(c)
    }
}

/// A name that fits the pattern starts at the index `i` of `s`.
pub open spec fn matches_at(s: Seq<char>, i: int) -> bool {
    &&& 0 <= i
    &&& i + 3 < s.len()
    &&& is_digit(s[i])
    &&& is_digit(s[i + 1])
    &&& s[i + 2] == '_'
    &&& is_word(s[i + 3])
}

/// The longest run of word characters at the start of `s`.
pub open spec fn leading_word(s: Seq<char>) -> Seq<char>
    decreases s.len(),
{
    if s.len() > 0 && is_word(s[0]) {
        seq![s[0]] + leading_word(s.drop_first())
    } else {
        Seq::empty()
    }
}

/// The two digits and the name that the first fitting part of `s` holds.
pub open spec fn captured(s: Seq<char>) -> Option<(Seq<char>, Seq<char>)>
    decreases s.len(),
{
    if s.len() == 0 {
        None
    } else if matches_at(s, 0) {
        Some((s.take(2), leading_word(s.skip(3))))
    } else {
        captured(s.drop_first())
    }
}

/// Looks for the two digits and the name in a directory's name.
pub(crate) fn capture(dir_name: &str) -> (groups: Option<(String, String)>)
    ensures
        match groups {
            Some((number, name)) => captured(dir_name@) == Some((number@, name@)),
            None => captured(dir_name@) is None,
        },
{
    outside::captures(NAME_PATTERN, "number", "name", dir_name)
}

/// A leading word is made of word characters, and ends where they end.
proof fn lemma_leading_word_ends(s: Seq<char>)
    ensures
        ({
            let word = leading_word(s);
            let n = word.len() as int;
            &&& n <= s.len()
            &&& word == s.take(n)
            &&& forall|i: int| 0 <= i < n ==> is_word(#[trigger] s[i])
            &&& n < s.len() ==> !is_word(s[n])
        }),
    decreases s.len(),
{
    if s.len() > 0 && is_word(s[0]) {
        let rest = s.drop_first();
        lemma_leading_word_ends(rest);
        let n = leading_word(rest).len() as int;
        assert(leading_word(s) =~= s.take(n + 1));
        assert forall|i: int| 0 <= i < n + 1 implies is_word(#[trigger] s[i]) by {
            if i > 0 {
                assert(s[i] == rest[i - 1]);
            }
        }
    } else {
        assert(s.take(0) =~= Seq::empty());
    }
}

/// Two digits, an underscore and a word character stand at `i`.
pub open spec fn fits_at(s: Seq<char>, i: int) -> bool {
    &&& 0 <= i
    &&& i + 3 < s.len()
    &&& is_digit(s[i]) && is_digit(s[i + 1]) && s[i + 2] == '_' && is_word(s[i + 3])
}

/// What is found in a name stands at the first place that fits: the two digits there, and behind
/// the underscore all characters up to the first that is not a word character. Nothing is found
/// only where no place fits.
pub proof fn law_first_and_longest_is_captured(s: Seq<char>) -> (place: (int, int))
    ensures
        captured(s) is None <==> forall|i: int| !#[trigger] fits_at(s, i),
        captured(s) matches Some((number, name)) ==> {
            let (i, n) = place;
            &&& fits_at(s, i)
            &&& forall|j: int| j < i ==> !#[trigger] fits_at(s, j)
            &&& number == seq![s[i], s[i + 1]]
            &&& 0 < n <= s.len() - i - 3
            &&& name == s.subrange(i + 3, i + 3 + n)
            &&& forall|j: int| i + 3 <= j < i + 3 + n ==> is_word(#[trigger] s[j])
            &&& i + 3 + n < s.len() ==> !is_word(s[i + 3 + n])
        },
        forall|c: char|
            c <= '\u{7f}' ==> (#[trigger] is_digit(c) <==> '0' <= c && c <= '9'),
        forall|c: char|
            c <= '\u{7f}' ==> (#[trigger] is_word(c) <==> ('0' <= c && c <= '9' || 'a' <= c && c
                <= 'z' || 'A' <= c && c <= 'Z' || c == '_')),
    decreases s.len(),
{
    if s.len() == 0 {
        (0, 0)
    } else if matches_at(s, 0) {
        let rest = s.skip(3);
        lemma_leading_word_ends(rest);
        let n = leading_word(rest).len() as int;
        assert(fits_at(s, 0));
        assert(rest[0] == s[3]);
        assert(s.take(2) =~= seq![s[0], s[1]]);
        assert(rest.take(n) =~= s.subrange(3, 3 + n));
        assert forall|j: int| 3 <= j < 3 + n implies is_word(#[trigger] s[j]) by {
            assert(s[j] == rest[j - 3]);
        }
        if 3 + n < s.len() {
            assert(s[3 + n] == rest[n]);
        }
        (0, n)
    } else {
        let rest = s.drop_first();
        let (i, n) = law_first_and_longest_is_captured(rest);
        assert(!fits_at(s, 0));
        assert forall|j: int| j < s.len() && j != 0 implies (#[trigger] fits_at(s, j) <==> fits_at(
            rest,
            j - 1,
        )) by {}
        if captured(s) is Some {
            assert(fits_at(s, i + 1));
            assert(rest.subrange(i + 3, i + 3 + n) =~= s.subrange(i + 4, i + 4 + n));
            assert forall|j: int| i + 4 <= j < i + 4 + n implies is_word(#[trigger] s[j]) by {
                assert(s[j] == rest[j - 1]);
            }
            assert forall|j: int| j < i + 1 implies !#[trigger] fits_at(s, j) by {
                if j > 0 {
                    assert(!fits_at(rest, j - 1));
                }
            }
        } else {
            assert forall|j: int| !#[trigger] fits_at(s, j) by {
                if j > 0 {
                    assert(!fits_at(rest, j - 1));
                }
            }
        }
        if exists|j: int| #[trigger] fits_at(rest, j) {
            let j = choose|j: int| #[trigger] fits_at(rest, j);
            assert(fits_at(s, j + 1));
        }
        (i + 1, n)
    }
}

} // verus!
