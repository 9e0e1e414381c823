use printpilot::cad::CadScriptError;
use printpilot::chat::{clip, history_messages, split_answer, ChatLine, HISTORY_LINES};
use printpilot::contract::{changed_sections, contract_issues, extract_code, header_name, sections};
use printpilot::json::{extract_json, json_step, JsonOutcome, JsonStep};

#[test]
fn answers_are_split_into_prose_and_script() {
    let (text, code) = split_answer("线槽加宽到 8 mm。\n```python\nfrom build123d import *\nresult = Box(1, 1, 1)\n```\n其余不变。");
    assert_eq!(text, "线槽加宽到 8 mm。\n其余不变。");
    assert_eq!(code.as_deref(), Some("from build123d import *\nresult = Box(1, 1, 1)\n"));

    let (text, code) = split_answer("不需要支撑:线槽开口朝上,没有悬垂。");
    assert_eq!((text.as_str(), code), ("不需要支撑:线槽开口朝上,没有悬垂。", None));

    let (text, code) = split_answer("壁厚由这一行决定:\n```python\nwall = 2.0\n```");
    assert!(code.is_none());
    assert!(text.contains("wall = 2.0"), "整段话原样留着:{text}");
}

#[test]
fn only_recent_history_is_sent_and_it_starts_with_the_user() {
    let mut history = Vec::new();
    for i in 0..20 {
        history.push(ChatLine { from_user: true, text: format!("第 {i} 句") });
        history.push(ChatLine { from_user: false, text: format!("回答 {i}") });
    }
    let msgs = history_messages(&history);
    assert_eq!(msgs.len(), HISTORY_LINES);
    assert!(msgs[0].from_user);
    assert_eq!(msgs.last().unwrap().content, "回答 19");

    let merged = history_messages(&[
        ChatLine { from_user: true, text: "加个孔".into() },
        ChatLine { from_user: true, text: "x".repeat(1000) },
    ]);
    assert_eq!(merged.len(), 1);
    assert!(merged[0].content.starts_with("加个孔\n") && merged[0].content.chars().count() < 500);
}

#[test]
fn history_that_opens_with_the_assistant_is_cut_to_the_first_user_line() {
    let msgs = history_messages(&[
        ChatLine { from_user: false, text: "你好".into() },
        ChatLine { from_user: true, text: "做个杯垫".into() },
        ChatLine { from_user: false, text: "   ".into() },
        ChatLine { from_user: false, text: "好的".into() },
    ]);
    assert_eq!(msgs.len(), 2);
    assert!(msgs[0].from_user && !msgs[1].from_user);
    assert_eq!(msgs[1].content, "好的");
}

#[test]
fn clipping_marks_the_cut() {
    assert_eq!(clip("打印", 5), "打印");
    assert_eq!(clip("一二三四五六", 3), "一二三…");
}

#[test]
fn json_is_extracted_from_fences_and_chatter() {
    assert_eq!(extract_json("{\"a\":1}").as_deref(), Some("{\"a\":1}"));
    assert_eq!(extract_json("好的:\n```json\n{\"a\":{\"b\":2}}\n```\n以上。").as_deref(), Some("{\"a\":{\"b\":2}}"));
    assert_eq!(extract_json("没有对象"), None);
    assert_eq!(extract_json("} 反了 {"), None);
}

#[test]
fn a_bad_answer_is_retried_once_then_given_up() {
    assert_eq!(json_step(0, JsonOutcome::Usable), JsonStep::Accept);
    assert_eq!(json_step(0, JsonOutcome::Rejected("没有 JSON 对象".into())), JsonStep::Retry("没有 JSON 对象".into()));
    assert_eq!(json_step(1, JsonOutcome::Rejected("JSON 结构不对".into())), JsonStep::GiveUp("JSON 结构不对".into()));
    assert_eq!(json_step(0, JsonOutcome::Empty("empty content".into())), JsonStep::AskAgain);
    assert_eq!(json_step(1, JsonOutcome::Empty("empty content".into())), JsonStep::Fail);
    assert_eq!(json_step(0, JsonOutcome::Failed), JsonStep::Fail);
}

const CODE: &str = "from build123d import *\n\
# ---- PARAMS ----  每行一个\n\
w = 10.0  # mm | 宽\n\
# ---- FEATURE: base ----\n\
base = Box(w, w, 2)\n\
# ---- feature: holes ---- 两个孔\n\
holes = Cylinder(1, 2)\n\
# ---- RESULT ----\n\
result = base - holes\n";

#[test]
fn sections_are_found_with_their_line_ranges() {
    let s = sections(CODE);
    let names: Vec<_> = s.iter().map(|x| (x.name.as_str(), x.is_feature)).collect();
    assert_eq!(names, [("PARAMS", false), ("base", true), ("holes", true), ("RESULT", false)]);
    assert_eq!((s[1].start_line, s[1].end_line), (4, 5));
    assert_eq!((s[3].start_line, s[3].end_line), (8, 9));
}

#[test]
fn a_conforming_script_has_no_issues() {
    assert!(contract_issues(CODE).is_empty());
}

#[test]
fn each_missing_piece_is_reported_separately() {
    let issues = contract_issues("from build123d import *\npart = Box(1, 1, 1)\n");
    assert_eq!(issues.len(), 3);
    assert!(issues[0].contains("PARAMS") && issues[1].contains("FEATURE") && issues[2].contains("result"));
    assert_eq!(contract_issues("# ---- PARAMS ----\n# ---- FEATURE: a ----\nif result == 1: pass\n").len(), 1);
}

#[test]
fn changed_sections_pinpoints_a_local_edit() {
    assert!(changed_sections(CODE, CODE).is_empty());

    let bigger_hole = CODE.replace("Cylinder(1, 2)", "Cylinder(1.5, 2)");
    assert_eq!(changed_sections(CODE, &bigger_hole), ["holes"]);

    let new_param = CODE.replace("w = 10.0  # mm | 宽", "w = 12.0  # mm | 宽");
    assert_eq!(changed_sections(CODE, &new_param), ["PARAMS"]);

    let added = CODE.replace("# ---- RESULT ----", "# ---- FEATURE: rib ----\nrib = Box(1, w, 1)\n# ---- RESULT ----");
    assert_eq!(changed_sections(CODE, &added), ["rib"]);

    let removed = CODE.replace("# ---- feature: holes ---- 两个孔\nholes = Cylinder(1, 2)\n", "").replace("base - holes", "base");
    assert_eq!(changed_sections(CODE, &removed), ["RESULT", "-holes"]);

    let reflowed = CODE.replace("base = Box(w, w, 2)\n", "base = Box(w, w, 2)\n\n");
    assert!(changed_sections(CODE, &reflowed).is_empty());
}

#[test]
fn padding_a_section_body_at_its_edges_is_no_change() {
    let padded = CODE.replace("holes = Cylinder(1, 2)\n", "\n   holes = Cylinder(1, 2)  \n\n");
    assert!(changed_sections(CODE, &padded).is_empty());
    assert!(changed_sections(&padded, CODE).is_empty());
}

#[test]
fn a_changed_preamble_is_reported_as_the_header() {
    let edited = CODE.replace("from build123d import *", "from build123d import *\nimport math");
    assert_eq!(changed_sections(CODE, &edited), ["(header)"]);
}

#[test]
fn code_is_pulled_out_of_markdown_fences_and_chatter() {
    assert_eq!(extract_code("好的,代码如下:\n```python\nx = 1\nresult = x\n```\n希望有帮助"), "x = 1\nresult = x\n");
    assert_eq!(extract_code("```\nx = 1\n```"), "x = 1\n");
    assert_eq!(extract_code("x = 1\n"), "x = 1\n");
    assert_eq!(extract_code("```python\nx = 1\n"), "x = 1\n", "围栏没闭合也要能取出来");
}

#[test]
fn header_lines_name_their_section() {
    assert_eq!(header_name("  # ---- FEATURE: base ----  说明").as_deref(), Some("FEATURE: base"));
    assert_eq!(header_name("# ----   ----"), None);
    assert_eq!(header_name("# --- PARAMS"), None);
}

fn script_error(stage: &str, ty: &str, message: &str) -> CadScriptError {
    CadScriptError { stage: stage.into(), error_type: ty.into(), message: message.into(), line: Some(3), traceback: String::new() }
}

#[test]
fn script_errors_are_rendered_compactly_for_the_model() {
    let e = CadScriptError {
        stage: "exec".into(),
        error_type: "ValueError".into(),
        message: "Failed creating a fillet".into(),
        line: Some(14),
        traceback: "  line 14: part = fillet(part.edges(), 50)\nValueError: Failed creating a fillet".into(),
    };
    let text = e.for_model();
    assert!(text.starts_with("[exec] ValueError: Failed creating a fillet (line 14)"));
    assert!(text.contains("line 14: part = fillet"));
}

#[test]
fn common_failures_get_a_targeted_hint_and_unknown_ones_are_left_alone() {
    let cases = [
        ("exec", "ValueError", "Failed creating a fillet with radius of 50, try a smaller value or use max_fillet() to find the largest valid fillet radius", "half of the thinnest"),
        ("exec", "ValueError", "Failed creating a chamfer, try a smaller length value(s)", "chamfer does not fit"),
        ("exec", "IndexError", "list index out of range", "selector"),
        ("exec", "NameError", "name 'RoundedBox' is not defined", "Do not invent API names"),
        ("exec", "TypeError", "Cylinder.__init__() got an unexpected keyword argument 'centered'", "no `center=`"),
        ("exec", "TypeError", "unsupported operand type(s) for *: 'Box' and 'Pos'", "on the LEFT"),
        ("exec", "ValueError", "6 is not a valid Align", "too many positional arguments"),
        ("exec", "ValueError", "No depth provided", "builder-mode"),
        ("exec", "AttributeError", "'Box' object has no attribute 'fillet_edges'", "free functions"),
        ("exec", "ZeroDivisionError", "division by zero", "max(count, 1)"),
        ("exec", "StdFail_NotDone", "BRep_API: command not done", "rotation axis"),
        ("exec", "Standard_ConstructionError", "", "OpenCascade kernel"),
        ("result", "Rejected", "`result` has no solid volume (did a boolean operation remove everything?)", "must be a solid"),
    ];
    for (stage, ty, message, keyword) in cases {
        let e = script_error(stage, ty, message);
        let hint = e.hint().unwrap_or_else(|| panic!("{ty}: {message} 应该有提示"));
        assert!(hint.contains(keyword), "{ty}: {message}\n  提示里应该有「{keyword}」:{hint}");
        let text = e.for_model();
        assert!(text.starts_with(&format!("[{stage}] {ty}: {message}")) && text.ends_with(hint), "{text}");
    }
    for (stage, ty, message) in [
        ("exec", "ValueError", "math domain error"),
        ("exec", "RuntimeError", "something new"),
        ("validate", "Rejected", "import os is not allowed; use `from build123d import *` and `import math` only"),
        ("validate", "SyntaxError", "invalid syntax"),
        ("result", "Rejected", "the script must assign the final shape to a variable named `result`"),
    ] {
        let e = script_error(stage, ty, message);
        assert_eq!(e.hint(), None, "{ty}: {message}");
        assert!(!e.for_model().contains("Hint:"));
    }
}
