use wr::messages::no_match_message;
use wr::path::join;
use wr::selector::Selector;
use wr::text::{parse_u16, to_ascii_lowercase, write_decimal, write_two_digits};
use wr::{ChapterDir, ExerciseCollection, Host};

fn selector(text: &str) -> Selector {
    Selector::new(text.to_string())
}

fn collection() -> ExerciseCollection {
    let chapter = |name: &str| ChapterDir {
        name: name.as_bytes().to_vec(),
        entries: vec![b"00_intro".to_vec(), b"01_next".to_vec()],
    };
    ExerciseCollection::new(
        "exercises".to_string(),
        &vec![chapter("02_more"), chapter("01_structured_logging")],
    )
}

fn find(chapter: &str, exercise: &str) -> Option<String> {
    let found = collection().select(&selector(chapter), &selector(exercise));
    found.map(|exercise| exercise.to_string())
}

#[test]
fn names_and_numbers_select_the_same_exercise() {
    let wanted = Some("(01) structured_logging - (00) intro".to_string());
    for chapter in ["01_structured_logging", "1", "01", "+1", "0001"] {
        for exercise in ["00_intro", "0", "00"] {
            assert_eq!(find(chapter, exercise), wanted);
        }
    }
    assert_eq!(find("2", "01_next"), Some("(02) more - (01) next".to_string()));
}

#[test]
fn some_selectors_mean_no_exercise() {
    assert_eq!(find("3", "0"), None);
    assert_eq!(find("structured_logging", "0"), None);
    assert_eq!(find("1", "intro"), None);
    assert_eq!(find("1_structured_logging", "0"), None);
    assert_eq!(find("", "0"), None);
}

#[test]
fn text_is_a_number_or_a_name() {
    assert_eq!(selector("0"), Selector::Number(0));
    assert_eq!(selector("65535"), Selector::Number(65535));
    assert_eq!(selector("+7"), Selector::Number(7));
    for name in ["65536", "-1", "+", "", " 1", "1 ", "++1", "0x1", "١", "01_a"] {
        assert_eq!(selector(name), Selector::FullName(name.to_string()));
    }
}

#[test]
fn numbers_are_read_as_std_reads_them() {
    let texts = ["", "+", "-", "0", "+0", "-0", "007", "65535", "65536", "99999999999", "1_0", "十"];
    for text in texts {
        assert_eq!(parse_u16(text), text.parse::<u16>().ok());
    }
}

#[test]
fn numbers_are_written_as_std_writes_them() {
    for number in [0, 1, 9, 10, 99, 100, 4096, 65535] {
        assert_eq!(write_decimal(number), format!("{number}"));
        assert_eq!(write_two_digits(number), format!("{number:02}"));
    }
}

#[test]
fn written_numbers_are_selected() {
    for number in [0, 5, 10, 65535] {
        assert_eq!(selector(&write_decimal(number)), Selector::Number(number));
        assert_eq!(selector(&write_two_digits(number)), Selector::Number(number));
        assert_eq!(selector(&format!("000{number}")), Selector::Number(number));
    }
}

#[test]
fn selectors_are_shown() {
    assert_eq!(selector("007").to_string(), "7");
    assert_eq!(selector("01_a").to_string(), "01_a");
    assert_eq!(
        no_match_message(&selector("03"), &selector("00_x")),
        "没有匹配 `--chapter 3 -- exercise 00_x` 的练习",
    );
}

#[test]
fn a_selector_matches_by_name_or_number() {
    assert!(selector("01_a").matches("01_a", 9));
    assert!(!selector("01_a").matches("01_b", 1));
    assert!(selector("1").matches("anything", 1));
    assert!(!selector("1").matches("1", 2));
}

#[test]
fn paths_are_joined_as_std_joins_them() {
    for base in ["", "/", "a", "a/", "a/b", "../", "C:"] {
        for part in ["", "x", "/x", "x/y", "C:\\x", "\\x"] {
            let path = std::path::Path::new(base).join(part);
            assert_eq!(join(Host::current(), base, part), path.to_str().unwrap());
        }
    }
}

#[test]
fn the_host_separates_paths_as_std_does() {
    assert_eq!(Host::current().separator(), std::path::MAIN_SEPARATOR);
}

#[test]
fn only_ascii_capitals_become_small() {
    assert_eq!(to_ascii_lowercase("AZaz[@`{ÄΩ是"), "azaz[@`{ÄΩ是");
}

#[test]
fn full_names_tell_exercises_with_the_same_numbers_apart() {
    let dir = ChapterDir {
        name: b"01_a".to_vec(),
        entries: vec![b"00_x".to_vec(), b"00_w".to_vec()],
    };
    let collection = ExerciseCollection::new("exercises".to_string(), &vec![dir]);
    let find = |chapter: &str, exercise: &str| {
        let found = collection.select(&selector(chapter), &selector(exercise));
        found.unwrap().exercise()
    };
    assert_eq!(find("01_a", "00_w"), "00_w");
    assert_eq!(find("01_a", "00_x"), "00_x");
    assert_eq!(find("1", "0"), "00_x");
}
