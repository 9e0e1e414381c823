use printpilot::errcode::{err, split, IO_FAILED, NOT_FOUND};
use printpilot::gate::{gate_passed, needs_reason, stage_gate, unmet_on_the_way, GateKey, ProjectFacts};
use printpilot::project::Project;
use printpilot::stage::ProjectStatus;
use printpilot::stage::Stage;

fn facts() -> ProjectFacts {
    ProjectFacts::default()
}

#[test]
fn each_early_stage_asks_for_the_output_of_its_own_workbench() {
    let mut f = facts();
    assert!(!gate_passed(Stage::Idea, &f));
    f.has_hypothesis = true;
    assert!(gate_passed(Stage::Idea, &f));

    assert!(!gate_passed(Stage::Research, &f));
    f.research_runs = 1;
    assert!(gate_passed(Stage::Research, &f));

    f.images = 4;
    assert!(!gate_passed(Stage::Concept, &f), "出了图但一张都没采用,不算");
    f.adopted_images = 1;
    assert!(gate_passed(Stage::Concept, &f));

    f.designs = 1;
    assert!(!gate_passed(Stage::Model, &f), "只有设计、还没建出模型,不算");
    f.models = 1;
    assert!(gate_passed(Stage::Model, &f));

    f.print_successes = 1;
    assert!(!gate_passed(Stage::Prototype, &f), "只打成了、还没定价,不算");
    assert_eq!(unmet_on_the_way(Stage::Prototype, Stage::Listing, &f), vec![(Stage::Prototype, GateKey::Price)]);
    f.has_price = true;
    assert!(gate_passed(Stage::Prototype, &f));
}

#[test]
fn stages_without_tools_yet_can_never_pass_automatically() {
    let f = ProjectFacts {
        has_hypothesis: true,
        research_runs: 9,
        boards: 9,
        images: 9,
        adopted_images: 9,
        designs: 9,
        models: 9,
        print_successes: 9,
        has_price: true,
        publish_packs: 9,
        published: 9,
    };
    for s in [Stage::Operating, Stage::Review] {
        assert!(stage_gate(s, &f).is_empty());
        assert!(!gate_passed(s, &f), "{s:?}:空清单是「没法判断」,不是「完成了」");
    }
}

#[test]
fn a_reason_is_needed_exactly_when_the_evidence_is_missing() {
    let mut f = facts();
    assert!(needs_reason(Stage::Idea, Stage::Research, &f));
    f.has_hypothesis = true;
    assert!(!needs_reason(Stage::Idea, Stage::Research, &f));

    f.research_runs = 1;
    assert!(!needs_reason(Stage::Idea, Stage::Concept, &f));
    assert_eq!(unmet_on_the_way(Stage::Idea, Stage::Model, &f), vec![(Stage::Concept, GateKey::AdoptedImage)]);
    assert!(needs_reason(Stage::Idea, Stage::Model, &f));

    assert!(!needs_reason(Stage::Listing, Stage::Model, &facts()));
    assert!(!needs_reason(Stage::Model, Stage::Model, &facts()));
}

#[test]
fn walking_out_of_a_manual_stage_is_fine_but_skipping_one_is_not() {
    let f = ProjectFacts {
        has_hypothesis: true,
        research_runs: 1,
        adopted_images: 1,
        models: 1,
        print_successes: 1,
        has_price: true,
        ..Default::default()
    };
    assert!(!needs_reason(Stage::Model, Stage::Listing, &f), "打样的证据齐了,一次走两步也不拦");
    assert!(needs_reason(Stage::Listing, Stage::Operating, &f), "还没发出去就想进运营");
    let listed = ProjectFacts { publish_packs: 1, published: 1, ..f };
    assert!(!needs_reason(Stage::Listing, Stage::Operating, &listed));
    assert!(!needs_reason(Stage::Operating, Stage::Review, &listed), "运营的工具还没做,顺着走不拦");
    assert!(needs_reason(Stage::Listing, Stage::Review, &listed), "整个跳过了运营(没法自动判断的阶段)");
}

#[test]
fn roundtrip() {
    let e = err(NOT_FOUND, "project 42");
    assert_eq!(e, "#not_found#project 42");
    assert_eq!(split(&e), Some((NOT_FOUND.to_string(), "project 42".to_string())));
}

#[test]
fn plain_string_is_not_a_code() {
    assert_eq!(split("boom"), None);
    assert_eq!(split("#only_one_hash"), None);
}

#[test]
fn detail_may_contain_hash() {
    assert_eq!(split("#io_failed#C:\\a#b"), Some((IO_FAILED.to_string(), "C:\\a#b".to_string())));
}

#[test]
fn str_roundtrip_for_every_stage() {
    for s in Stage::ALL {
        assert_eq!(Stage::parse(s.as_str()), Some(s));
    }
    assert_eq!(Stage::parse("nope"), None);
}

#[test]
fn next_walks_the_pipeline_and_stops() {
    let mut cur = Stage::Idea;
    let mut seen = vec![cur];
    while let Some(n) = cur.next() {
        seen.push(n);
        cur = n;
    }
    assert_eq!(seen, Stage::ALL);
    assert_eq!(Stage::Review.next(), None);
}

#[test]
fn serde_string_matches_as_str() {
    for st in ["active", "paused", "killed", "done"] {
        let parsed = ProjectStatus::parse(st).unwrap();
        assert_eq!(parsed.as_str(), st);
    }
}

fn project(stage: Stage, status: ProjectStatus, entered: i64) -> Project {
    Project {
        id: "p".into(),
        code: "PP-0001".into(),
        title: "t".into(),
        stage,
        status,
        category: String::new(),
        hypothesis: String::new(),
        kill_reason: None,
        cover_asset_id: None,
        stage_entered_at: entered,
        created_at: entered,
        updated_at: entered,
    }
}

const DAY: i64 = 86_400_000;

#[test]
fn days_in_stage_floors_and_never_goes_negative() {
    let p = project(Stage::Research, ProjectStatus::Active, 10 * DAY);
    assert_eq!(p.days_in_stage(10 * DAY + DAY - 1), 0);
    assert_eq!(p.days_in_stage(12 * DAY), 2);
    assert_eq!(p.days_in_stage(0), 0);
}

#[test]
fn stale_only_for_active_projects_past_the_limit() {
    let p = project(Stage::Research, ProjectStatus::Active, 0);
    assert!(!p.is_stale(DAY));
    assert!(p.is_stale(2 * DAY));
    let paused = project(Stage::Research, ProjectStatus::Paused, 0);
    assert!(!paused.is_stale(30 * DAY));
    let op = project(Stage::Operating, ProjectStatus::Active, 0);
    assert!(!op.is_stale(365 * DAY));
}
