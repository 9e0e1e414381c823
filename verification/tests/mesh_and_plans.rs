use printpilot::chat::ChatLine;
use printpilot::gate::{apply_counts, FactSource, ProjectFacts};
use printpilot::image_plan::{context_block, finish_plan, purpose_name, recent_lines, validate, ImageAction, ImageTurn};
use printpilot::imagery::{ImageAspect, ImagePurpose};
use printpilot::publish::{LintCode, LintField, LintIssue, NoteAngle, Severity};
use printpilot::publish_draft::{
    bare_tag, brief_block, check_notes, field_name, listing_points, listing_problems, note_angles, note_problems, text_problems,
    PublishBrief, RawNote,
};
use printpilot::topology::{classify_edge, count_components, edge_direction, edge_key, edge_kind_counts, EdgeKind, Rim, UnionFind};
use printpilot::stl::binary_stl_count;
use printpilot::xml::xml_escape;

#[test]
fn union_find_names_each_set_by_its_smallest_member() {
    let mut uf = UnionFind::new(5);
    uf.union(3, 4);
    uf.union(4, 1);
    assert_eq!(uf.find(4), 1);
    assert_eq!(uf.find(3), 1);
    assert_eq!(uf.find(0), 0);
    assert_eq!(uf.find(2), 2);
}

#[test]
fn loose_triangles_form_their_own_component() {
    // two triangles sharing an edge, plus a loose one, plus an unused vertex 7
    let tris = [[0, 1, 2], [2, 1, 3], [4, 5, 6]];
    assert_eq!(count_components(8, &tris), (2, 7));
    assert_eq!(count_components(3, &[]), (0, 0));
}

#[test]
fn edge_kinds_are_counted_per_edge() {
    // a closed tetrahedron, every face wound outwards: no open, odd or flipped edge
    let tetra = [[0, 2, 1], [0, 1, 3], [1, 2, 3], [0, 3, 2]];
    assert_eq!(edge_kind_counts(&tetra), (0, 0, 0));
    // one triangle: three boundary edges
    assert_eq!(edge_kind_counts(&[[0, 1, 2]]), (3, 0, 0));
    // two triangles sharing edge 1–2, the second wound the same way along it: flipped
    assert_eq!(edge_kind_counts(&[[0, 1, 2], [3, 1, 2]]), (4, 0, 1));
    // three triangles on edge 0–1: non-manifold
    assert_eq!(edge_kind_counts(&[[0, 1, 2], [1, 0, 3], [0, 1, 4]]), (6, 1, 0));
    assert_eq!(edge_kind_counts(&[]), (0, 0, 0));
}

#[test]
fn edges_are_keyed_and_classified() {
    assert_eq!(edge_key(3, 7), edge_key(7, 3));
    assert_eq!(edge_key(1, 2), (1u64 << 32) | 2);
    assert_eq!(edge_direction(1, 2), 1);
    assert_eq!(edge_direction(2, 1), -1);
    assert_eq!(classify_edge(1, 1), EdgeKind::Boundary);
    assert_eq!(classify_edge(2, 0), EdgeKind::Manifold);
    assert_eq!(classify_edge(2, 2), EdgeKind::Flipped);
    assert_eq!(classify_edge(3, 1), EdgeKind::NonManifold);
}

#[test]
fn rim_edges_cancel_with_their_reverse() {
    let mut rim = Rim::new();
    rim.add(1, 2);
    rim.add(2, 3);
    rim.add(5, 5);
    assert_eq!(rim.edges().len(), 2);
    rim.add(2, 1);
    assert_eq!(rim.edges().keys().copied().collect::<Vec<_>>(), [(2, 3)]);
    rim.add(3, 2);
    assert!(rim.is_empty());
}

#[test]
fn title_is_escaped() {
    assert_eq!(xml_escape("A&B <\"x\">"), "A&amp;B &lt;&quot;x&quot;&gt;");
}

#[test]
fn stored_counts_fill_the_facts() {
    let f = apply_counts(ProjectFacts::default(), FactSource::Images, 4, 1);
    assert_eq!((f.images, f.adopted_images), (4, 1));
    let f = apply_counts(f, FactSource::Price, 1, 0);
    assert!(f.has_price);
    let f = apply_counts(f, FactSource::ResearchRuns, -3, 0);
    assert_eq!(f.research_runs, 0);
}

fn turn<'a>(message: &'a str, images: usize, has_current: bool, can_edit: bool, prompt: Option<&'a str>) -> ImageTurn<'a> {
    ImageTurn {
        message,
        purpose: ImagePurpose::Scene,
        aspect: ImageAspect::Portrait,
        can_edit,
        max_count: 4,
        default_count: 2,
        current_prompt: prompt,
        images,
        has_current,
    }
}

#[test]
fn the_planner_is_told_the_situation() {
    let text = context_block(&turn(" 换个背景 ", 2, true, true, Some(" 木桌上的线缆夹 ")));
    assert!(text.contains("- 用途:场景图\n- 画幅:3:4\n"));
    assert!(text.contains("它当初的提示词:木桌上的线缆夹\n"));
    assert!(text.contains("新贴了 1 张图(排在当前图之后)"));
    assert!(text.ends_with("## 用户这句话\n换个背景\n"));
    let imported = context_block(&turn("x", 1, true, false, None));
    assert!(imported.contains("用户自己导入的") && imported.contains("不能(只能从文字重新生成)"));
    assert_eq!(purpose_name(ImagePurpose::ModelRef), "建模参考图");
}

#[test]
fn an_edit_with_nothing_to_edit_is_sent_back() {
    assert!(validate("edit", "改成蓝色", "", &turn("x", 0, false, true, None)).is_err());
    assert!(validate("edit", "改成蓝色", "", &turn("x", 1, true, false, None)).is_err());
    assert!(validate("edit", "改成蓝色", "", &turn("x", 1, true, true, None)).is_ok());
    assert!(validate("reply", "", " ", &turn("x", 0, false, true, None)).is_err());
    assert_eq!(validate("draw", "p", "", &turn("x", 0, false, true, None)), Err("action 只能是 generate / edit / reply,现在是 draw".to_string()));
}

#[test]
fn questions_get_answers_and_counts_are_clamped() {
    let (a, p, n, r) = finish_plan("reply", "", None, " 可以 ", 3, 4);
    assert_eq!((a, p.as_str(), n, r.as_str()), (ImageAction::Reply, "", 3, "可以"));
    let (a, _, n, _) = finish_plan("edit", "p", None, "", 4, 4);
    assert_eq!((a, n), (ImageAction::Edit, 2));
    let (_, _, n, _) = finish_plan("generate", "p", Some(9), "", 1, 4);
    assert_eq!(n, 4);
    let (_, p, _, _) = finish_plan("generate", &"字".repeat(1000), Some(0), "", 1, 0);
    assert_eq!(p.chars().count(), 900);
}

#[test]
fn recent_picture_history_starts_with_the_user() {
    let mut h = vec![ChatLine { from_user: false, text: "欢迎".into() }];
    for i in 0..12 {
        h.push(ChatLine { from_user: i % 2 == 0, text: format!("{i}") });
    }
    let r = recent_lines(&h);
    assert!(r[0].from_user);
    assert!(r.len() <= 10);
}

#[test]
fn the_brief_lists_only_what_is_known() {
    let b = PublishBrief { product: " 线缆夹 ".into(), facts: vec!["60 mm".into(), " ".into()], ..Default::default() };
    assert_eq!(brief_block(&b), "## 产品信息\n- 名称:线缆夹\n- 60 mm\n\n## 品牌语气\n(没有给出)\n");
}

#[test]
fn text_problems_are_written_for_the_model() {
    let issues = vec![
        LintIssue { code: LintCode::TitleTooLong, severity: Severity::Block, field: LintField::Title, hit: "21/20".into() },
        LintIssue { code: LintCode::TooFewImages, severity: Severity::Block, field: LintField::Images, hit: "0/1".into() },
        LintIssue { code: LintCode::CategoryKids, severity: Severity::Warn, field: LintField::Body, hit: "宝宝".into() },
    ];
    assert_eq!(text_problems(&issues), ["标题「21/20」(TitleTooLong)"]);
    assert_eq!(field_name(LintField::Tags), "话题");
    assert_eq!(note_problems("全网第一", "正文", &vec![]), ["标题「第一」(Extreme)", "标题「全网」(Extreme)"]);
}

#[test]
fn a_draft_that_breaks_the_rules_is_sent_back_once_with_the_reasons() {
    let good = RawNote { title: "线缆夹".into(), body: "正文".into(), tags: vec![] };
    let bad = RawNote { title: "全网最好".into(), body: "正文".into(), tags: vec![] };
    assert_eq!(check_notes(&[good.clone()], 2, true), Err("要 2 篇,只给了 1 篇".to_string()));
    let blank = RawNote { title: " ".into(), body: "x".into(), tags: vec![] };
    assert_eq!(check_notes(&[good.clone(), blank], 2, true), Err("第 2 篇的标题或正文是空的".to_string()));
    let err = check_notes(&[good.clone(), bad.clone()], 2, true).unwrap_err();
    assert!(err.starts_with("第 2 篇 标题「最好」(Extreme);第 2 篇 标题「全网」(Extreme);请改掉这些地方"), "{err}");
    assert!(check_notes(&[good, bad], 2, false).is_ok(), "second answers go to the person");
}

#[test]
fn listing_copy_is_a_title_a_few_selling_points_and_a_detail_text() {
    let points: Vec<String> = vec![" 三道线槽 ".into(), "".into(), "磁吸底座".into()];
    assert_eq!(listing_points(&points), ["三道线槽", "磁吸底座"]);
    let long = vec!["这是一条非常非常长的卖点文字,超过了三十个字符的限制,应该被退回来重写一遍".to_string()];
    let probs = listing_problems("线缆夹", &long, "详情");
    assert!(probs.last().unwrap().starts_with("卖点太长:「"));
    assert_eq!(note_angles(&[]), [NoteAngle::Pain, NoteAngle::Scene]);
    assert_eq!(bare_tag(&" ##桌搭 ".to_string()).as_deref(), Some("桌搭"));
    assert_eq!(bare_tag(&" # ".to_string()), None);
}

#[test]
fn binary_stl_is_told_apart_by_its_length() {
    let mut one = vec![0u8; 84 + 50];
    one[80] = 1;
    assert_eq!(binary_stl_count(&one), Some(1));
    let empty = vec![0u8; 84];
    assert_eq!(binary_stl_count(&empty), Some(0));
    // a header that starts with "solid" but whose length matches its count is still binary
    let mut solid = vec![0u8; 84 + 2 * 50];
    solid[..5].copy_from_slice(b"solid");
    solid[80] = 2;
    assert_eq!(binary_stl_count(&solid), Some(2));
    // a count in the higher bytes
    let mut big = vec![0u8; 84];
    big[81] = 1;
    assert_eq!(binary_stl_count(&big), None);
    assert_eq!(binary_stl_count(b"solid cube\nendsolid cube\n"), None);
    one.push(0);
    assert_eq!(binary_stl_count(&one), None);
}
