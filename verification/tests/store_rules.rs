use printpilot::provider::ProviderId;
use printpilot::pricing::price_band;
use printpilot::research::IpRisk;
use printpilot::stage::{ProjectStatus, Stage};
use printpilot::store::{
    adoptable, adopted_hypothesis, adoption_note, asset_path_ok, kill_reason, note_room, print_run_ok, project_code, published_link,
    required_name, stage_move, thumb_ok, StageMove, MAX_THUMB_BYTES,
};

#[test]
fn project_codes_are_zero_padded_to_four_places() {
    assert_eq!(project_code(1), "PP-0001");
    assert_eq!(project_code(12), "PP-0012");
    assert_eq!(project_code(0), "PP-0000");
    assert_eq!(project_code(12345), "PP-12345");
    assert_eq!(project_code(-4), "PP--004");
    for n in [0i64, 7, 99, 1000, 9999, 10000, -1, -123, -1234, i64::MAX, i64::MIN] {
        assert_eq!(project_code(n), format!("PP-{n:04}"));
    }
}

#[test]
fn names_are_trimmed_and_must_not_be_blank() {
    assert_eq!(required_name("  笔筒 ").as_deref(), Some("笔筒"));
    assert_eq!(required_name(" \t\n"), None);
    assert_eq!(required_name(""), None);
}

#[test]
fn a_forced_move_needs_a_reason_and_a_drop_on_the_same_column_changes_nothing() {
    assert_eq!(stage_move(Stage::Idea, Stage::Idea, true, ""), StageMove::Unchanged);
    assert_eq!(stage_move(Stage::Idea, Stage::Model, true, "  "), StageMove::NeedsReason);
    assert_eq!(stage_move(Stage::Idea, Stage::Model, true, "老板说先做"), StageMove::Move);
    assert_eq!(stage_move(Stage::Idea, Stage::Research, false, ""), StageMove::Move);
}

#[test]
fn killing_needs_a_reason_that_only_a_killed_project_keeps() {
    assert_eq!(kill_reason(ProjectStatus::Killed, None), None);
    assert_eq!(kill_reason(ProjectStatus::Killed, Some("   ")), None);
    assert_eq!(kill_reason(ProjectStatus::Killed, Some(" 撞款 ")), Some(Some("撞款".to_string())));
    assert_eq!(kill_reason(ProjectStatus::Paused, Some("等料")), Some(None));
    assert_eq!(kill_reason(ProjectStatus::Active, None), Some(None));
}

#[test]
fn asset_paths_stay_inside_the_library() {
    for good in ["assets/lab/x.STL", "assets/PP-0001/a.png", "a.b/..c/d..", "x"] {
        assert!(asset_path_ok(good), "{good:?}");
    }
    for bad in [
        "",
        "/etc/passwd",
        "C:/Windows/x.stl",
        "assets\\x.stl",
        "assets/../../x.stl",
        "assets//x.stl",
        "./x.stl",
        "assets/",
        "assets/.",
        "..",
        "a/./b",
    ] {
        assert!(!asset_path_ok(bad), "{bad:?}");
    }
}

#[test]
fn thumbnails_are_small_image_data_urls() {
    assert!(thumb_ok("data:image/png;base64,AAAA"));
    assert!(!thumb_ok("https://example.com/a.png"));
    let big = format!("data:image/png;base64,{}", "A".repeat(MAX_THUMB_BYTES));
    assert!(!thumb_ok(&big));
    let exact = format!("data:image/{}", "A".repeat(MAX_THUMB_BYTES - "data:image/".len()));
    assert!(thumb_ok(&exact));
}

#[test]
fn published_links_must_be_web_addresses() {
    assert_eq!(published_link("  https://www.xiaohongshu.com/explore/1 ").as_deref(), Some("https://www.xiaohongshu.com/explore/1"));
    assert_eq!(published_link("http://a.b").as_deref(), Some("http://a.b"));
    assert_eq!(published_link("javascript:alert(1)"), None);
    assert_eq!(published_link(&format!("https://{}", "a".repeat(2000))), None);
}

#[test]
fn notes_and_print_runs_follow_the_log_rules() {
    assert!(note_room(0));
    assert!(note_room(59));
    assert!(!note_room(60));
    assert!(print_run_ok(true, ""));
    assert!(!print_run_ok(false, "  "));
    assert!(print_run_ok(false, "翘边"));
}

#[test]
fn an_adopted_card_becomes_the_project_hypothesis() {
    assert_eq!(adopted_hypothesis("上班族", "磁吸理线", 29, 49), "上班族。磁吸理线。预期价格带 ¥29~49。");
    assert_eq!(adoption_note("  桌面收纳 "), "采用自调研「桌面收纳」");
    assert!(adoptable(IpRisk::Medium));
    assert!(!adoptable(IpRisk::High));
}

#[test]
fn the_price_band_covers_every_valid_card() {
    assert_eq!(price_band(&[]), None);
    assert_eq!(price_band(&[(29, 49)]), Some((29, 49)));
    assert_eq!(price_band(&[(29, 49), (19, 39), (35, 69)]), Some((19, 69)));
    // no lower end, or running backwards: ignored
    assert_eq!(price_band(&[(0, 99), (50, 40), (30, 30)]), Some((30, 30)));
    assert_eq!(price_band(&[(0, 0), (9, 1)]), None);
}

#[test]
fn every_key_page_is_https() {
    for id in ProviderId::ALL {
        assert!(id.console_url().starts_with("https://"), "{}", id.as_str());
    }
    assert_eq!(ProviderId::Deepseek.console_url(), "https://platform.deepseek.com/api_keys");
    assert_eq!(ProviderId::ZhipuSearch.as_str(), "zhipu_search");
}
