use wr::messages::{
    failure_message, failure_text, name_error_message, open_question, opened_message, skipped_line, verified_line,
};
use wr::{ExerciseDefinition, NameError, NameFault, NameKind};

fn exercise() -> ExerciseDefinition {
    ExerciseDefinition::new(b"01_a", b"00_b").unwrap()
}

#[test]
fn an_opened_exercise_is_announced() {
    let message = opened_message(&exercise(), "\"exercises/01_a/00_b\"");
    assert_eq!(message.heading, "\n\t你的前方是");
    assert_eq!(message.exercise, "(01) a - (00) b");
    assert_eq!(
        message.hint,
        "\n\t在编辑器中打开 \"exercises/01_a/00_b\" 并开始吧！\n\t再次运行 `wr` 来编译练习并执行测试。",
    );
}

#[test]
fn output_of_a_failure_is_indented() {
    let message = failure_message("\"cargo\" \"test\"", "错误\n\n  \nend\n".as_bytes());
    assert_eq!(message.advice, "静思你的方法，然后再回来。山不过是山。\n\n");
    assert_eq!(message.command, "\"cargo\" \"test\"");
    assert_eq!(message.output, "\t错误\n\n  \n\tend\n");
}

#[test]
fn output_that_is_not_utf8_is_shown_too() {
    assert_eq!(failure_message("x", b"a\xffb").output, "\ta\u{fffd}b");
    assert_eq!(failure_message("x", b"").output, "");
}

#[test]
fn the_last_line_needs_no_line_feed() {
    assert_eq!(failure_text("x", "a\nb").output, "\ta\n\tb");
    assert_eq!(failure_text("x", "\n\n").output, "\n\n");
    assert_eq!(failure_text("x", "a\r\nb\u{85}c\n\u{3000}").output, "\ta\r\n\tb\u{85}c\n\u{3000}");
}

#[test]
fn lines_show_the_exercise() {
    assert_eq!(skipped_line(&exercise()), "\t⏩ (01) a - (00) b（跳过复查）");
    assert_eq!(verified_line(&exercise(), true), "\t🚀 (01) a - (00) b");
    assert_eq!(verified_line(&exercise(), false), "\t❌ (01) a - (00) b");
    assert_eq!(open_question(&exercise()), "是否要打开下一个练习 (01) a - (00) b？[y/n] ");
}

#[test]
fn names_that_do_not_fit_are_explained() {
    let error = ExerciseDefinition::new(b"bad_chapter", b"bad_exercise").err().unwrap();
    assert_eq!(
        name_error_message(error, &format!("{:?}", "bad_exercise")),
        "无法将 `\"bad_exercise\"` 解析为 练习（格式应为 <NN>_<name>）。",
    );
    let error = ExerciseDefinition::new(b"bad_chapter", b"00_b").err().unwrap();
    assert_eq!(
        name_error_message(error, "\"bad_chapter\""),
        "无法将 `\"bad_chapter\"` 解析为 章节（格式应为 <NN>_<name>）。",
    );
}

#[test]
fn names_that_are_not_utf8_are_explained() {
    let error = ExerciseDefinition::new(b"01_a", b"\xff").err().unwrap();
    assert_eq!(
        name_error_message(error, "\"\\xFF\""),
        "练习 的名称必须是有效的 UTF-8 文本，但 \"\\xFF\" 不是",
    );
    let error = NameError { kind: NameKind::Chapter, fault: NameFault::NotUtf8 };
    assert_eq!(
        name_error_message(error, "\"\\xFF\""),
        "章节 的名称必须是有效的 UTF-8 文本，但 \"\\xFF\" 不是",
    );
}
