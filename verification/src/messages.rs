use vstd::prelude::*;
use vstd::utf8::*;

use crate::definition::{ExerciseDefinition, NameError, NameFault, NameKind};
use crate::outside;
use crate::selector::Selector;
use crate::text;

verus! {

/// What the user is told about an exercise that was opened.
#[derive(Debug)]
pub struct OpenedMessage {
    pub heading: String,
    pub exercise: String,
    pub hint: String,
}

/// Tells the user about an exercise that was opened. `folder` is its directory as it is shown
/// to the user.
pub fn opened_message(exercise: &ExerciseDefinition, folder: &str) -> (message: OpenedMessage)
    ensures
        message.heading@ == "\n\t你的前方是"@,
        message.exercise@ == exercise@.shown(),
        message.hint@ == "\n\t在编辑器中打开 "@ + folder@
            + " 并开始吧！\n\t再次运行 `wr` 来编译练习并执行测试。"@,
{
    let mut hint = "\n\t在编辑器中打开 ".to_string();
    hint.append(folder);
    hint.append(" 并开始吧！\n\t再次运行 `wr` 来编译练习并执行测试。");
    OpenedMessage {
        heading: "\n\t你的前方是".to_string(),
        exercise: exercise.to_string(),
        hint,
    }
}

/// What the user is told about a command that failed.
#[derive(Debug)]
pub struct FailureMessage {
    pub advice: String,
    pub command: String,
    pub output: String,
}

/// Tells the user about a command that failed: what it wrote is indented by a tab.
pub fn failure_text(command: &str, output: &str) -> (message: FailureMessage)
    ensures
        message.advice@ == "静思你的方法，然后再回来。山不过是山。\n\n"@,
        message.command@ == command@,
        message.output@ == text::indented(output@, "\t"@),
{
    FailureMessage {
        advice: "静思你的方法，然后再回来。山不过是山。\n\n".to_string(),
        command: command.to_string(),
        output: outside::indent(output, "\t"),
    }
}

/// As [`failure_text`], of the bytes that the command wrote.
pub fn failure_message(command: &str, details: &[u8]) -> (message: FailureMessage)
    ensures
        message.advice@ == "静思你的方法，然后再回来。山不过是山。\n\n"@,
        message.command@ == command@,
        message.output@ == text::indented(outside::lossy_text(details@), "\t"@),
        valid_utf8(details@) ==> message.output@ == text::indented(decode_utf8(details@), "\t"@),
{
    failure_text(command, outside::from_utf8_lossy(details).as_str())
}

/// The line for an exercise that is not verified again.
pub fn skipped_line(exercise: &ExerciseDefinition) -> (line: String)
    ensures
        line@ == "\t⏩ "@ + exercise@.shown() + "（跳过复查）"@,
{
    let mut line = "\t⏩ ".to_string();
    line.append(exercise.to_string().as_str());
    line.append("（跳过复查）");
    line
}

/// The line for an exercise that was verified.
pub fn verified_line(exercise: &ExerciseDefinition, passed: bool) -> (line: String)
    ensures
        line@ == (if passed {
            "\t🚀 "@
        } else {
            "\t❌ "@
        }) + exercise@.shown(),
{
    let mut line = if passed {
        "\t🚀 ".to_string()
    } else {
        "\t❌ ".to_string()
    };
    line.append(exercise.to_string().as_str());
    line
}

/// The question whether to open an exercise.
pub fn open_question(exercise: &ExerciseDefinition) -> (question: String)
    ensures
        question@ == "是否要打开下一个练习 "@ + exercise@.shown() + "？[y/n] "@,
{
    let mut question = "是否要打开下一个练习 ".to_string();
    question.append(exercise.to_string().as_str());
    question.append("？[y/n] ");
    question
}

/// What the user is told a directory name is the name of.
pub open spec fn kind_shown(kind: NameKind) -> Seq<char> {
    match kind {
        NameKind::Chapter => "章节"@,
        NameKind::Exercise => "练习"@,
    }
}

/// What the user is told about a directory name that does not fit.
pub open spec fn name_error_shown(error: NameError, shown: Seq<char>) -> Seq<char> {
    match error.fault {
        NameFault::NotUtf8 => kind_shown(error.kind) + " 的名称必须是有效的 UTF-8 文本，但 "@
            + shown + " 不是"@,
        NameFault::NoMatch => "无法将 `"@ + shown + "` 解析为 "@ + kind_shown(error.kind)
            + "（格式应为 <NN>_<name>）。"@,
    }
}

/// Tells the user about a directory name that does not fit. `shown` is that name, in quotes,
/// as it is shown to the user.
pub fn name_error_message(error: NameError, shown: &str) -> (text: String)
    ensures
        text@ == name_error_shown(error, shown@),
{
    let kind = match error.kind {
        NameKind::Chapter => "章节",
        NameKind::Exercise => "练习",
    };
    match error.fault {
        NameFault::NotUtf8 => {
            let mut text = kind.to_string();
            text.append(" 的名称必须是有效的 UTF-8 文本，但 ");
            text.append(shown);
            text.append(" 不是");
            text
        },
        NameFault::NoMatch => {
            let mut text = "无法将 `".to_string();
            text.append(shown);
            text.append("` 解析为 ");
            text.append(kind);
            text.append("（格式应为 <NN>_<name>）。");
            text
        },
    }
}

/// What the user is told where the selectors mean no exercise.
pub fn no_match_message(chapter: &Selector, exercise: &Selector) -> (message: String)
    ensures
        message@ == "没有匹配 `--chapter "@ + chapter@.shown() + " -- exercise "@
            + exercise@.shown() + "` 的练习"@,
{
    let mut message = "没有匹配 `--chapter ".to_string();
    message.append(chapter.to_string().as_str());
    message.append(" -- exercise ");
    message.append(exercise.to_string().as_str());
    message.append("` 的练习");
    message
}

/// What is said about a name that does not fit quotes the name as it is, and says the same
/// around it whatever the name is: that a chapter or that an exercise is meant, and that it is
/// because of the encoding or because of the form.
pub proof fn law_name_errors_quote_the_name(
    error: NameError,
    other: NameError,
    shown: Seq<char>,
    other_shown: Seq<char>,
) -> (around: (Seq<char>, Seq<char>))
    ensures
        name_error_shown(error, shown) == around.0 + shown + around.1,
        name_error_shown(error, other_shown) == around.0 + other_shown + around.1,
        error != other ==> name_error_shown(error, shown) != name_error_shown(other, shown),
        error.fault == NameFault::NoMatch ==> around.1 == "` 解析为 "@ + (match error.kind {
            NameKind::Chapter => "章节"@,
            NameKind::Exercise => "练习"@,
        }) + "（格式应为 <NN>_<name>）。"@,
        error.fault == NameFault::NoMatch ==> around.0 == "无法将 `"@,
        error.fault == NameFault::NotUtf8 ==> around.0 == (match error.kind {
            NameKind::Chapter => "章节"@,
            NameKind::Exercise => "练习"@,
        }) + " 的名称必须是有效的 UTF-8 文本，但 "@,
        error.fault == NameFault::NotUtf8 ==> around.1 == " 不是"@,
{
    reveal_strlit("章节");
    reveal_strlit("练习");
    reveal_strlit("无法将 `");
    reveal_strlit("` 解析为 ");
    reveal_strlit("（格式应为 <NN>_<name>）。");
    reveal_strlit(" 的名称必须是有效的 UTF-8 文本，但 ");
    reveal_strlit(" 不是");
    let kind = kind_shown(error.kind);
    let around = match error.fault {
        NameFault::NotUtf8 => (kind + " 的名称必须是有效的 UTF-8 文本，但 "@, " 不是"@),
        NameFault::NoMatch => (
            "无法将 `"@,
            "` 解析为 "@ + kind + "（格式应为 <NN>_<name>）。"@,
        ),
    };
    assert(name_error_shown(error, shown) =~= around.0 + shown + around.1);
    assert(name_error_shown(error, other_shown) =~= around.0 + other_shown + around.1);
    if error != other {
        let a = name_error_shown(error, shown);
        let b = name_error_shown(other, shown);
        if error.fault == other.fault && error.fault == NameFault::NoMatch {
            let at = 5 + shown.len() as int + 6;
            assert(a[at] != b[at]);
        } else {
            assert(a[0] != b[0]);
        }
    }
    around
}

} // verus!
