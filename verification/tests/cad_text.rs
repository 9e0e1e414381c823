use printpilot::cad_agent::{spec_request, spec_text_check, SpecVerdict};
use printpilot::cad::{is_plain_file_name, tail_chars, CadError};
use printpilot::cad_agent::{
    best_candidate, edit_request, feedback, model_can_fix, only_off_plate, round_step, same_code, snapped_code, tidy_review,
    validate_review, ProblemKind, RoundStep, RunFailure, PLATE_SNAP_LINE,
};
use printpilot::cad::CadReview;
use printpilot::params::{is_params_header, is_section_header, param_lines, set_literal, split_param_line};

const CODE: &str = "from build123d import *\n\
\n\
# ---- PARAMS ----  每行一个\n\
width = 60.0        # mm | 总宽 | [20, 200]\n\
hole_count = 4      # 个 | 安装孔数量 | [2, 8]\n\
wall = 2.4          # mm | 壁厚\n\
label = \"PP\"        # 不是数字,不算参数\n\
ratio = width / 2   # 表达式,不算参数\n\
\n\
# ---- FEATURE: base ----\n\
height = 10.0       # 不在 PARAMS 段里,不算参数\n\
base = Box(width, 40, height)\n\
\n\
# ---- RESULT ----\n\
result = base\n";

#[test]
fn parameter_lines_are_read_only_inside_the_params_block() {
    let ps = param_lines(CODE);
    let names: Vec<_> = ps.iter().map(|p| p.name.as_str()).collect();
    assert_eq!(names, ["width", "hole_count", "wall"]);
    assert_eq!(ps[0].literal, "60.0");
    assert_eq!((ps[0].unit.as_str(), ps[0].label.as_str()), ("mm", "总宽"));
    assert_eq!(ps[0].range.as_deref(), Some("[20, 200]"));
    assert_eq!(ps[0].line, 4);
    assert!(!ps[0].integer);
    assert!(ps[1].integer, "4 是整数字面量");
    assert_eq!(ps[2].range, None, "没写范围就是不限");
}

#[test]
fn a_params_block_is_needed_for_any_parameter() {
    assert!(param_lines("x = 1\nresult = Box(x, x, x)\n").is_empty());
}

#[test]
fn headers_and_parameter_lines_are_recognised() {
    assert!(is_section_header("   # ---- FEATURE: a ----"));
    assert!(!is_section_header("# --- not quite"));
    assert!(is_params_header("# ---- params ----"));
    assert!(!is_params_header("# ---- RESULT ----"));
    assert_eq!(split_param_line("w = 10  # mm"), Some(("w".to_string(), 4, 6, "mm".to_string())));
    assert_eq!(split_param_line("w = 1e3"), Some(("w".to_string(), 4, 7, String::new())));
    assert_eq!(split_param_line("w = -.5"), Some(("w".to_string(), 4, 7, String::new())));
    assert_eq!(split_param_line("w = inf"), Some(("w".to_string(), 4, 7, String::new())));
    assert_eq!(split_param_line("2w = 1"), None);
    assert_eq!(split_param_line("w = 1e"), None);
    assert_eq!(split_param_line("w = ."), None);
    assert_eq!(split_param_line("w = a + 1"), None);
}

#[test]
fn setting_a_number_touches_only_that_number() {
    let new = set_literal(CODE, 4, "85.5").unwrap();
    assert!(new.contains("width = 85.5        # mm | 总宽 | [20, 200]"), "{new}");
    for (a, b) in CODE.lines().zip(new.lines()) {
        if !a.starts_with("width") {
            assert_eq!(a, b);
        }
    }
    let longer = set_literal(CODE, 5, "123456789").unwrap();
    assert!(longer.contains("hole_count = 123456789  # 个"), "{longer}");
    assert_eq!(set_literal(CODE, 1, "3"), None, "line 1 is not a parameter line");
}

#[test]
fn crlf_lines_and_lines_without_comments_survive() {
    let code = "# ---- PARAMS ----\r\nw = 10\r\nd = 2.50\r\n# ---- RESULT ----\r\nresult = None\r\n";
    assert_eq!(set_literal(code, 2, "12").unwrap(), "# ---- PARAMS ----\r\nw = 12\r\nd = 2.50\r\n# ---- RESULT ----\r\nresult = None\r\n");
    assert!(set_literal(code, 3, "3.125").unwrap().contains("d = 3.125\r\n"));
}

#[test]
fn rewriting_a_literal_back_restores_the_script() {
    let mut code = CODE.to_string();
    for v in ["61.0", "123.4567", "20.0", "60.0"] {
        code = set_literal(&code, 4, v).unwrap();
    }
    assert_eq!(code, CODE);
}

#[test]
fn scripts_that_differ_only_in_blank_space_are_the_same() {
    assert!(same_code("a = 1\n\nb = 2   \n", "a = 1\nb = 2\n"));
    assert!(!same_code("a = 1\n", "a = 2\n"));
}

#[test]
fn a_review_that_says_no_without_saying_why_is_sent_back() {
    let bad = CadReview { matches: false, differences: vec!["  ".into()] };
    assert_eq!(validate_review(&bad), Err("matches 为 false 时 differences 不能为空".to_string()));
    let long = CadReview { matches: true, differences: (0..9).map(|i| format!("差异 {i}")).collect() };
    assert!(validate_review(&long).is_err());
    let fine = CadReview { matches: false, differences: vec!["孔再大一点".into()] };
    assert!(validate_review(&fine).is_ok());
    let tidy = tidy_review(CadReview { matches: false, differences: vec!["a".into(), " ".into(), "b".into(), "c".into(), "d".into(), "e".into(), "f".into()] });
    assert_eq!(tidy.differences, ["a", "b", "c", "d", "e"]);
}

#[test]
fn problems_are_fed_back_numbered() {
    let text = feedback(&["first".to_string(), "second".to_string()]);
    assert!(text.starts_with("The script did not pass. Problems:\n1. first\n2. second\n"));
    assert!(text.ends_with("Keep everything that already works unchanged."));
}

#[test]
fn a_floating_part_is_snapped_with_one_line() {
    let code = snapped_code("result = Box(1, 1, 1)\n\n");
    assert_eq!(code, format!("result = Box(1, 1, 1)\n{PLATE_SNAP_LINE}\n"));
    assert!(only_off_plate(&[ProblemKind::OffPlate]));
    assert!(!only_off_plate(&[ProblemKind::OffPlate, ProblemKind::Size]));
}

#[test]
fn repairs_stop_when_a_version_passes_or_the_budget_is_spent() {
    assert_eq!(round_step(1, 3, 0), RoundStep::Deliver);
    assert_eq!(round_step(1, 3, 2), RoundStep::Repair);
    assert_eq!(round_step(4, 3, 2), RoundStep::Deliver);
    assert!(model_can_fix(RunFailure::Script) && model_can_fix(RunFailure::Timeout));
    assert!(!model_can_fix(RunFailure::Engine));
}

#[test]
fn when_repairs_run_out_the_least_bad_build_is_delivered() {
    assert_eq!(best_candidate(&[]), None);
    assert_eq!(best_candidate(&[(1, 3), (2, 1), (3, 2)]), Some(1));
    assert_eq!(best_candidate(&[(1, 1), (2, 1)]), Some(1), "ties go to the later attempt");
}

#[test]
fn an_edit_request_carries_the_script_its_sections_and_the_change() {
    let req = edit_request("# ---- PARAMS ----\nw = 1\n# ---- RESULT ----\nresult = w\n\n", "  加宽  ").unwrap();
    assert_eq!(req, "## Current script\n```python\n# ---- PARAMS ----\nw = 1\n# ---- RESULT ----\nresult = w\n```\n\n## Sections\nPARAMS, RESULT\n\n## Requested change\n加宽\n");
    assert_eq!(edit_request("x = 1", "  "), None);
}

#[test]
fn engine_errors_have_codes_and_runner_files_stay_inside() {
    assert_eq!(CadError::EngineMissing.code(), "cad_engine_missing");
    assert_eq!(CadError::Timeout(std::time::Duration::from_secs(3)).code(), "cad_timeout");
    assert_eq!(CadError::Io("x".into()).code(), "io_failed");
    assert!(is_plain_file_name("model.stl"));
    assert!(!is_plain_file_name("../evil.stl"));
    assert!(!is_plain_file_name("a/b.stl"));
    assert!(!is_plain_file_name("a\\b.stl"));
    assert_eq!(tail_chars("  abcdef  ", 3), "def");
    assert_eq!(tail_chars(" ab ", 3), "ab");
}

#[test]
fn a_chat_turn_sends_the_script_its_sections_and_the_message() {
    let code = "from build123d import *\n# ---- PARAMS ----\nw = 10.0  # mm\n# ---- FEATURE: base ----\nbase = Box(w, w, 2)\n# ---- RESULT ----\nresult = base\n\n";
    let msg = printpilot::cad_agent::turn_message(code, Some("笔筒 — 圆形 (spec size 80 x 80 x 100 mm)"), None, Some("  "), "  加高 ");
    assert_eq!(
        msg,
        "## Current script\n```python\nfrom build123d import *\n# ---- PARAMS ----\nw = 10.0  # mm\n# ---- FEATURE: base ----\nbase = Box(w, w, 2)\n# ---- RESULT ----\nresult = base\n```\n\n## Sections\nPARAMS, base, RESULT\n\n## What this part is\n笔筒 — 圆形 (spec size 80 x 80 x 100 mm)\n\n## Message\n加高\n"
    );
    let with_pick = printpilot::cad_agent::turn_message("result = 1", None, Some("point = (1.00, 2.00, 3.00) mm"), Some(" 图里是圆角 "), "改这里");
    assert!(with_pick.contains("\n## Picked location\npoint = (1.00, 2.00, 3.00) mm\n"));
    assert!(with_pick.contains("\n## Notes about the attached images\n图里是圆角\n"));
    assert!(with_pick.ends_with("\n## Message\n改这里\n"));
}

#[test]
fn a_design_spec_is_checked_for_its_text() {
    let f = |n: &str, d: &str| (n.to_string(), d.to_string());
    assert_eq!(spec_text_check(false, " ", &[]), SpecVerdict::Problem("suitable 为 false 时必须在 unsuitable_reason 里说明原因".into()));
    assert_eq!(spec_text_check(false, "这是人物手办", &[]), SpecVerdict::Unsuitable);
    assert_eq!(spec_text_check(true, "", &[]), SpecVerdict::Problem("features 应为 1~12 个,现在是 0 个".into()));
    let many: Vec<_> = (0..13).map(|i| f(&format!("f{i}"), "d")).collect();
    assert_eq!(spec_text_check(true, "", &many), SpecVerdict::Problem("features 应为 1~12 个,现在是 13 个".into()));
    assert_eq!(spec_text_check(true, "", &[f("底座", "圆柱"), f(" ", "孔")]), SpecVerdict::Problem("每个特征都要有 name 和 description".into()));
    assert_eq!(spec_text_check(true, "", &[f("底座", "圆柱")]), SpecVerdict::CheckDimensions);
    assert_eq!(spec_request("  "), "请根据参考图给出设计规格。");
    assert_eq!(spec_request(" 笔筒,直径 80 "), "用户的要求:\n笔筒,直径 80");
}
