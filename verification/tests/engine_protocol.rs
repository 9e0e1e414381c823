use printpilot::build_loop::{BuildAction, BuildEvent, BuildLoop, Phase};
use printpilot::cad::{CadError, CadScriptError};
use printpilot::publish::NoteAngle;
use printpilot::publish_draft::{bare_tags, check_listing, listing_candidate, note_candidates, RawNote};
use printpilot::worker::{answers_job, job_limit, job_outcome, keeps_worker, marked_payload, ready_versions, retires, JobOutcome, SENTINEL};

#[test]
fn protocol_lines_are_found_even_when_the_kernel_shares_the_line() {
    let line = format!("OCC warning: tolerance{SENTINEL}DONE  7 \r");
    assert_eq!(marked_payload(&line, "DONE").as_deref(), Some("7"));
    let ready = format!("{SENTINEL}READY 3.12.4 0.12.0");
    assert_eq!(marked_payload(&ready, "READY").as_deref(), Some("3.12.4 0.12.0"));
    assert_eq!(marked_payload(&ready, "DONE"), None);
    assert_eq!(marked_payload("PP-DONE 7", "DONE"), None);
    // the first marker counts
    let twice = format!("{SENTINEL}DONE 1 {SENTINEL}DONE 2");
    assert_eq!(marked_payload(&twice, "DONE").as_deref(), Some(format!("1 {SENTINEL}DONE 2").as_str()));
}

#[test]
fn the_ready_line_names_python_and_build123d() {
    assert_eq!(ready_versions("3.12.4 0.12.0"), ("3.12.4".to_string(), "0.12.0".to_string()));
    assert_eq!(ready_versions("  3.11.9\t0.9.1  extra"), ("3.11.9".to_string(), "0.9.1".to_string()));
    assert_eq!(ready_versions("3.13.0"), ("3.13.0".to_string(), String::new()));
    assert_eq!(ready_versions(""), (String::new(), String::new()));
}

#[test]
fn only_the_job_that_was_sent_counts_as_done() {
    assert!(answers_job("12", 12));
    assert!(answers_job("0", 0));
    assert!(!answers_job("11", 12));
    assert!(!answers_job("012", 12));
    assert!(!answers_job("", 1));
}

#[test]
fn a_process_is_kept_until_its_share_or_until_it_is_lost() {
    assert_eq!(job_limit(0), 1);
    assert_eq!(job_limit(40), 40);
    assert!(retires(40, 40));
    assert!(!retires(39, 40));

    let script = CadError::Script(CadScriptError {
        stage: "exec".into(),
        error_type: "ValueError".into(),
        message: "x".into(),
        line: Some(1),
        traceback: String::new(),
    });
    assert_eq!(job_outcome(None), JobOutcome::Built);
    assert_eq!(job_outcome(Some(&script)), JobOutcome::ScriptFailed);
    assert_eq!(job_outcome(Some(&CadError::Cancelled)), JobOutcome::ProcessLost);
    assert_eq!(job_outcome(Some(&CadError::Timeout(std::time::Duration::from_secs(5)))), JobOutcome::ProcessLost);

    assert!(keeps_worker(JobOutcome::Built, 3, 40));
    assert!(keeps_worker(JobOutcome::ScriptFailed, 3, 40));
    assert!(!keeps_worker(JobOutcome::ProcessLost, 3, 40));
    assert!(!keeps_worker(JobOutcome::Built, 40, 40));
}

#[test]
fn drafted_notes_follow_the_angles_asked_for() {
    let notes = vec![
        RawNote { title: "  桌面终于整齐了 ".into(), body: "\n正文一\n".into(), tags: vec![" #桌搭".into(), "##".into(), "收纳".into()] },
        RawNote { title: "通勤党必备".into(), body: "正文二".into(), tags: vec![] },
        RawNote { title: "多出来的一篇".into(), body: "正文三".into(), tags: vec![] },
    ];
    let got = note_candidates(&notes, &[NoteAngle::Scene, NoteAngle::Pain]);
    assert_eq!(got.len(), 2);
    assert_eq!(got[0].angle, NoteAngle::Scene);
    assert_eq!(got[0].title, "桌面终于整齐了");
    assert_eq!(got[0].body, "正文一");
    assert_eq!(got[0].tags, vec!["桌搭".to_string(), "收纳".to_string()]);
    assert_eq!(got[1].angle, NoteAngle::Pain);
    assert_eq!(note_candidates(&notes[..1], &[NoteAngle::Scene, NoteAngle::Pain]).len(), 1);
    assert_eq!(bare_tags(&vec![" # 3D打印 ".into(), "".into()]), vec![" 3D打印".to_string()]);
}

#[test]
fn listing_copy_is_trimmed_and_keeps_six_points() {
    let points: Vec<String> = (1..=8).map(|i| format!(" 卖点{i} ")).chain(["  ".to_string()]).collect();
    let c = listing_candidate("  磁吸线槽 ", &points, "\n详情\n");
    assert_eq!(c.title, "磁吸线槽");
    assert_eq!(c.body, "详情");
    assert_eq!(c.selling_points, (1..=6).map(|i| format!("卖点{i}")).collect::<Vec<_>>());
}

#[test]
fn the_build_loop_repairs_until_the_attempts_run_out_and_delivers_the_least_bad_version() {
    let (mut l, first) = BuildLoop::new(2);
    assert_eq!(first, BuildAction::Ask { attempt: 1, feedback: false });
    assert_eq!(l.step(BuildEvent::Answered { unchanged: false }), BuildAction::Run { attempt: 1 });
    assert_eq!(l.step(BuildEvent::Checked { ran: true, problems: 2 }), BuildAction::Ask { attempt: 2, feedback: true });
    assert_eq!(l.step(BuildEvent::Answered { unchanged: false }), BuildAction::Run { attempt: 2 });
    assert_eq!(l.step(BuildEvent::Checked { ran: true, problems: 1 }), BuildAction::Ask { attempt: 3, feedback: true });
    assert_eq!(l.step(BuildEvent::Answered { unchanged: false }), BuildAction::Run { attempt: 3 });
    // the third version is worse: the second one is delivered
    assert_eq!(l.step(BuildEvent::Checked { ran: true, problems: 3 }), BuildAction::Deliver(Some(1)));
    assert_eq!(l.phase(), Phase::Finished);
    // nothing more happens after the end
    assert_eq!(l.step(BuildEvent::Answered { unchanged: false }), BuildAction::Fail);
}

#[test]
fn the_build_loop_stops_on_a_pass_and_keeps_what_already_runs() {
    let (mut l, _) = BuildLoop::new(3);
    l.step(BuildEvent::Answered { unchanged: false });
    assert_eq!(l.step(BuildEvent::Checked { ran: false, problems: 1 }), BuildAction::Ask { attempt: 2, feedback: true });
    l.step(BuildEvent::Answered { unchanged: false });
    assert_eq!(l.step(BuildEvent::Checked { ran: true, problems: 0 }), BuildAction::Deliver(Some(0)));

    // the model goes away after one version ran: that version is delivered
    let (mut l, _) = BuildLoop::new(3);
    l.step(BuildEvent::Answered { unchanged: false });
    l.step(BuildEvent::Checked { ran: true, problems: 4 });
    assert_eq!(l.step(BuildEvent::ModelFailed), BuildAction::Deliver(Some(0)));

    // … and before any ran, the turn fails
    let (mut l, _) = BuildLoop::new(3);
    assert_eq!(l.step(BuildEvent::ModelFailed), BuildAction::Fail);

    // the engine is missing: nothing the model can do
    let (mut l, _) = BuildLoop::new(3);
    l.step(BuildEvent::Answered { unchanged: false });
    assert_eq!(l.step(BuildEvent::EngineFailed), BuildAction::Fail);

    // an edit that returns the script unchanged counts as a failed round, without running it
    let (mut l, _) = BuildLoop::new(0);
    assert_eq!(l.step(BuildEvent::Answered { unchanged: true }), BuildAction::Deliver(None));
}

#[test]
fn a_drafted_listing_is_sent_back_once_for_rule_problems() {
    let points = vec!["磁吸安装".to_string()];
    assert_eq!(check_listing("  ", &points, "详情", true).unwrap_err(), "标题和详情不能是空的");
    assert_eq!(check_listing("线槽", &[], " ", false).unwrap_err(), "标题和详情不能是空的");
    assert_eq!(check_listing("线槽", &points, "", true), Ok(()));
    let long = vec!["这是一个非常非常长的卖点描述文字超过了三十个字的限制所以应该被退回来重写一遍".to_string()];
    let first = check_listing("线槽", &long, "详情", true).unwrap_err();
    assert!(first.starts_with("卖点太长:「这是一个"), "{first}");
    assert!(first.ends_with(";请改掉这些地方"), "{first}");
    assert_eq!(check_listing("线槽", &long, "详情", false), Ok(()));
}
