use std::collections::HashSet;

use printpilot::research::{Evidence, EvidenceGrade};
use printpilot::json::retry_message;
use printpilot::research_flow::{RunAction, RunEvent, RunPhase, RunState};
use printpilot::research_run::{
    card_problem, citation_message, citation_problem, evidence_block, plan_queries, price_text, scored_shape_problem, search_step,
    should_review, take_search_hits, tidy_ids, truncate_chars, used_links, user_evidence, validate_plan, CitationProblem, SearchFailure,
    SearchHit, SearchStep,
};
use printpilot::text::replaced;

#[test]
fn long_excerpts_are_cut_on_character_boundaries() {
    assert_eq!(truncate_chars("打印", 5), "打印");
    assert_eq!(truncate_chars("一二三四五六", 3), "一二三…");
}

#[test]
fn search_budget_caps_the_number_of_queries_and_duplicates_are_dropped() {
    let raw: Vec<String> = ["a", "b", "a", " ", "c", "d", "e"].iter().map(|s| s.to_string()).collect();
    assert_eq!(plan_queries(&raw, 3), ["a", "b", "c"]);
    assert_eq!(plan_queries(&raw, 10), ["a", "b", "c", "d", "e"]);
}

#[test]
fn a_plan_needs_one_real_query() {
    assert!(validate_plan(&["  ".to_string(), "桌面收纳".to_string()]).is_ok());
    assert_eq!(validate_plan(&[" ".to_string()]), Err("queries 至少要有一条非空的检索词".to_string()));
    assert!(validate_plan(&[]).is_err());
}

#[test]
fn seller_notes_become_grade_a_evidence_numbered_first() {
    let notes = vec![
        "  ".to_string(),
        "同类线缆夹在某店月销 2000+,价格 ¥25 https://example.com/shop/1 评论里都在问有没有磁吸款".to_string(),
    ];
    let ev = user_evidence(&notes, 500);
    assert_eq!(ev.len(), 1);
    assert_eq!(ev[0].grade, EvidenceGrade::A);
    assert_eq!(ev[0].id, 1);
    assert_eq!(ev[0].url, "https://example.com/shop/1");
    assert_eq!(ev[0].title.chars().count(), 31);
    assert!(evidence_block(&ev).contains("[1] (A · 卖家提供的一手观察)"));
}

fn hit(url: &str, snippet: &str) -> SearchHit {
    SearchHit { title: "示例".into(), url: url.into(), site: "示例站".into(), published: Some("2026-08-15".into()), snippet: snippet.into() }
}

#[test]
fn hits_become_numbered_b_cards_once_per_link() {
    let mut evidence: Vec<Evidence> = user_evidence(&["见 https://a.example/1".to_string()], 500);
    let mut seen = used_links(&evidence);
    let got = take_search_hits(
        &mut evidence,
        &mut seen,
        &[hit("https://a.example/1", "卖家自己贴过"), hit("https://b.example/2", "  稳定需求  "), hit("https://c.example/3", " "), hit("https://b.example/2", "重复")],
        24,
        500,
    );
    assert!(got);
    assert_eq!(evidence.iter().map(|e| e.id).collect::<Vec<_>>(), [1, 2]);
    assert_eq!(evidence[1].grade, EvidenceGrade::B);
    assert_eq!(evidence[1].excerpt, "稳定需求");
    assert!(evidence_block(&evidence).contains("[2] (B · 示例站 · 2026-08-15)"));

    let mut none: Vec<Evidence> = Vec::new();
    let mut seen = Vec::new();
    assert!(!take_search_hits(&mut none, &mut seen, &[hit("https://x", "y")], 0, 500), "full already");
    assert!(none.is_empty());
}

#[test]
fn without_evidence_the_model_is_told_to_guess_openly() {
    assert!(evidence_block(&[]).contains("没有任何证据"));
}

#[test]
fn a_rejected_search_key_is_an_error_but_flaky_searches_only_degrade() {
    assert_eq!(search_step(&SearchFailure::Auth), SearchStep::Abort);
    assert_eq!(search_step(&SearchFailure::InsufficientBalance), SearchStep::Abort);
    assert_eq!(search_step(&SearchFailure::MissingKey), SearchStep::StopSearching);
    assert_eq!(search_step(&SearchFailure::Other("timeout".into())), SearchStep::SkipQuery);
}

#[test]
fn citing_a_nonexistent_evidence_card_is_sent_back_for_correction() {
    let known: HashSet<u32> = HashSet::from([1, 2]);
    assert_eq!(citation_problem(&[1, 99, 100], &known), Some(CitationProblem::Unknown(99)));
    assert_eq!(citation_problem(&[], &known), Some(CitationProblem::Uncited));
    assert_eq!(citation_problem(&[], &HashSet::new()), None);
    assert_eq!(citation_problem(&[2], &known), None);
}

#[test]
fn review_can_be_switched_off_and_needs_evidence() {
    assert!(should_review(true, 3));
    assert!(!should_review(false, 3));
    assert!(!should_review(true, 0));
}

#[test]
fn the_target_price_reads_as_the_prompt_states_it() {
    assert_eq!(price_text(Some(29), Some(59)), "¥29~¥59");
    assert_eq!(price_text(Some(29), None), "¥29 以上");
    assert_eq!(price_text(None, Some(59)), "¥59 以内");
    assert_eq!(price_text(None, None), "不限");
}

#[test]
fn scored_answers_are_checked_card_by_card() {
    assert_eq!(scored_shape_problem("  ", 3).as_deref(), Some("summary_md 不能为空"));
    assert_eq!(scored_shape_problem("结论", 0).as_deref(), Some("opportunities 应为 3~5 个,现在是 0 个"));
    assert_eq!(scored_shape_problem("结论", 7).as_deref(), Some("opportunities 应为 3~5 个,现在是 7 个"));
    assert_eq!(scored_shape_problem("结论", 6), None);

    assert_eq!(card_problem(0, " ", 2, 10, 20).as_deref(), Some("第 1 个机会缺少 title"));
    assert_eq!(card_problem(1, "磁吸线槽", 0, 10, 20).as_deref(), Some("第 2 个机会「磁吸线槽」 缺少 selling_points"));
    assert_eq!(card_problem(2, "磁吸线槽", 3, 30, 20).as_deref(), Some("第 3 个机会「磁吸线槽」 的价格带不合理:30~20"));
    assert_eq!(card_problem(2, "磁吸线槽", 3, 0, 0).as_deref(), Some("第 3 个机会「磁吸线槽」 的价格带不合理:0~0"));
    assert_eq!(card_problem(2, "磁吸线槽", 3, 19, 39), None);

    assert_eq!(
        citation_message(0, "笔筒", CitationProblem::Unknown(9)),
        "第 1 个机会「笔筒」 引用了不存在的证据编号 [9];只能引用给出的证据卡"
    );
    assert_eq!(citation_message(4, "笔筒", CitationProblem::Uncited), "第 5 个机会「笔筒」 没有引用任何证据卡;评分依据必须引用证据编号");
}

#[test]
fn cited_numbers_are_kept_once_in_order() {
    assert_eq!(tidy_ids(&[3, 1, 3, 2, 1]), vec![1, 2, 3]);
    assert_eq!(tidy_ids(&[]), Vec::<u32>::new());
    assert_eq!(tidy_ids(&[7]), vec![7]);
}

#[test]
fn prompt_templates_are_filled_in() {
    assert_eq!(replaced("最多 {{max_queries}} 条,别超过 {{max_queries}}", "{{max_queries}}", "8"), "最多 8 条,别超过 8");
    assert_eq!(replaced("没有占位符", "{{channel}}", "小红书"), "没有占位符");
    assert_eq!(replaced("aaa", "aa", "b"), "ba");
    assert_eq!(retry_message("JSON 结构不对"), "上一次输出不合格:JSON 结构不对。请只输出修正后的 json 对象,不要解释。");
}

#[test]
fn a_run_searches_each_planned_query_then_scores_and_reviews() {
    let s = RunState::new(true, true);
    let (s, a) = s.step(RunEvent::Start);
    assert_eq!(a, RunAction::Plan);
    let (s, a) = s.step(RunEvent::Planned { queries: 2 });
    assert_eq!(a, RunAction::Search { index: 0, total: 2 });
    let (s, a) = s.step(RunEvent::SearchFailed { step: SearchStep::SkipQuery });
    assert_eq!(a, RunAction::Search { index: 1, total: 2 });
    let (s, a) = s.step(RunEvent::Searched { added: true });
    assert_eq!(a, RunAction::Score);
    let (s, a) = s.step(RunEvent::Scored { evidence: 3 });
    assert_eq!(a, RunAction::Review);
    let (s, a) = s.step(RunEvent::ReviewAnswered { usable: true });
    assert_eq!(a, RunAction::Finish { degraded: false, reviewed: true });
    assert_eq!(s.phase, RunPhase::Finished);
}

#[test]
fn a_run_without_search_is_degraded_and_skips_planning() {
    let (s, a) = RunState::new(false, true).step(RunEvent::Start);
    assert_eq!(a, RunAction::Score);
    // no evidence at all: nothing for the critic to hold the conclusions against
    let (_, a) = s.step(RunEvent::Scored { evidence: 0 });
    assert_eq!(a, RunAction::Finish { degraded: true, reviewed: false });
}

#[test]
fn a_failed_review_keeps_the_scored_conclusions() {
    let (s, _) = RunState::new(true, true).step(RunEvent::Start);
    let (s, _) = s.step(RunEvent::Planned { queries: 1 });
    let (s, a) = s.step(RunEvent::Searched { added: false });
    assert_eq!(a, RunAction::Score);
    let (s, a) = s.step(RunEvent::Scored { evidence: 1 });
    assert_eq!(a, RunAction::Review);
    let (_, a) = s.step(RunEvent::ReviewAnswered { usable: false });
    assert_eq!(a, RunAction::Finish { degraded: true, reviewed: false });
}

#[test]
fn a_refused_search_key_stops_the_run_and_a_missing_one_ends_searching() {
    let (s, _) = RunState::new(true, false).step(RunEvent::Start);
    let (s, _) = s.step(RunEvent::Planned { queries: 3 });
    let (_, a) = s.step(RunEvent::SearchFailed { step: SearchStep::Abort });
    assert_eq!(a, RunAction::Stop);
    let (_, a) = s.step(RunEvent::SearchFailed { step: SearchStep::StopSearching });
    assert_eq!(a, RunAction::Score);
    let (s, _) = RunState::new(true, false).step(RunEvent::Start);
    let (_, a) = s.step(RunEvent::Planned { queries: 0 });
    assert_eq!(a, RunAction::Score);
}
