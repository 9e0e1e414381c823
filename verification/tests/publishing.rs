use printpilot::imagery::{is_importable_image, ImageAspect, ImagePurpose};
use printpilot::publish::{
    char_len, has_blockers, has_phone_number, lint_listing_parts, lint_note, parse_tags, sort_by_severity, spec, tags_line,
    Channel, DraftKind, LintCode, LintField, LintIssue, ModelLicense, NoteAngle, NoteDraft, PriceCheck, PublishImage, Severity,
};

fn note(title: &str, body: &str) -> NoteDraft {
    NoteDraft {
        title: title.into(),
        body: body.into(),
        tags: vec!["桌搭".into(), "3D打印".into()],
        images: vec!["a".into()],
        ..Default::default()
    }
}

fn pool() -> Vec<PublishImage> {
    vec![
        PublishImage { asset_id: "a".into(), ai_generated: false, source: "photo".into(), ..Default::default() },
        PublishImage { asset_id: "g".into(), ai_generated: true, source: "board".into(), ..Default::default() },
    ]
}

fn codes(issues: &[LintIssue]) -> Vec<(LintCode, &str)> {
    issues.iter().map(|i| (i.code, i.hit.as_str())).collect()
}

#[test]
fn a_clean_note_passes() {
    let issues = lint_note(&note("桌面乱线终结者|磁吸线缆夹", "三道线槽,磁吸底座,桌面一下子就清爽了。第一步先把底座贴好,最后把线按进去。"), &pool());
    assert!(issues.is_empty(), "「第一步」「最后」不是极限词:{issues:?}");
}

#[test]
fn lengths_are_counted_in_characters_not_bytes() {
    assert_eq!(char_len("  桌面乱线终结者 ✨ "), 9);
    let long = lint_note(&note(&"字".repeat(21), "正文"), &pool());
    assert_eq!(codes(&long), [(LintCode::TitleTooLong, "21/20")]);
    let empty = lint_note(&note("", " "), &pool());
    assert_eq!(empty.iter().map(|i| i.code).collect::<Vec<_>>(), [LintCode::TitleEmpty, LintCode::BodyEmpty]);
    assert!(has_blockers(&empty));
}

#[test]
fn risky_words_are_found_with_the_word_that_hit() {
    let issues = lint_note(&note("全网第一的线缆夹", "加我微信 13812345678 领好评返现,皮卡丘同款,还能缓解疼痛"), &pool());
    let found = codes(&issues);
    for expected in [
        (LintCode::Extreme, "全网"),
        (LintCode::Extreme, "第一"),
        (LintCode::Diversion, "微信"),
        (LintCode::Diversion, "加我"),
        (LintCode::Diversion, "手机号"),
        (LintCode::FakeReview, "好评返现"),
        (LintCode::IpName, "皮卡丘"),
        (LintCode::Medical, "缓解疼痛"),
    ] {
        assert!(found.contains(&expected), "{expected:?} 应该被查出来:{found:?}");
    }
    assert!(issues.iter().filter(|i| i.code == LintCode::Extreme).all(|i| i.field == LintField::Title));
}

#[test]
fn category_words_only_warn() {
    let issues = lint_note(&note("月球小夜灯", "USB 供电,放在宝宝房间。"), &pool());
    assert!(!has_blockers(&issues), "{issues:?}");
    let kinds: Vec<LintCode> = issues.iter().map(|i| i.code).collect();
    assert!(kinds.contains(&LintCode::CategoryElectric) && kinds.contains(&LintCode::CategoryKids));
}

#[test]
fn ai_images_are_a_reminder_for_notes_but_cannot_lead_a_listing() {
    let mut n = note("磁吸线缆夹", "正文");
    n.images = vec!["g".into(), "a".into()];
    assert_eq!(codes(&lint_note(&n, &pool())), [(LintCode::AiImages, "1")], "笔记可以用 AI 图,只提醒勾选 AI 内容声明");

    // 29.9 yuan against a unit cost of 12.0: the price is fine.
    let images: Vec<String> = vec!["g".into(), "a".into(), "a".into()];
    let issues = lint_listing_parts(
        Channel::Xhs,
        "磁吸线缆夹 三槽 桌面理线",
        &[],
        "PLA 打印,三道线槽。",
        &images,
        Some(ModelLicense::Original),
        &pool(),
        &PriceCheck::Fine,
    );
    assert!(issues.iter().any(|i| i.code == LintCode::FirstImageNotPhoto && i.severity == Severity::Block), "{issues:?}");
}

#[test]
fn a_listing_needs_images_a_price_and_a_sellable_model() {
    let points: Vec<String> = vec!["三道线槽".into()];
    let one: Vec<String> = vec!["a".into()];
    let kinds: Vec<LintCode> = lint_listing_parts(Channel::Xhs, "磁吸线缆夹", &points, "", &one, None, &pool(), &PriceCheck::Missing)
        .iter()
        .map(|i| i.code)
        .collect();
    assert_eq!(kinds, [LintCode::TooFewImages, LintCode::PriceMissing, LintCode::LicenseMissing], "卖点可以顶替详情");

    // 9.9 yuan against a unit cost of 12.5: below cost.
    let three: Vec<String> = vec!["a".into(); 3];
    let issues = lint_listing_parts(
        Channel::Xhs,
        "磁吸线缆夹",
        &points,
        "",
        &three,
        Some(ModelLicense::NonCommercial),
        &pool(),
        &PriceCheck::BelowCost("9.90".into()),
    );
    assert!(issues.iter().any(|i| i.code == LintCode::LicenseNonCommercial && i.severity == Severity::Block));
    assert!(issues.iter().any(|i| i.code == LintCode::PriceBelowCost && i.severity == Severity::Warn));

    assert!(lint_listing_parts(Channel::Xhs, "磁吸线缆夹", &points, "", &three, Some(ModelLicense::Original), &pool(), &PriceCheck::Fine)
        .is_empty());
}

#[test]
fn tags_are_split_deduplicated_and_joined_for_pasting() {
    let tags = parse_tags("#桌搭 #3D打印,线缆收纳、桌搭 ;理线\u{ff0c}桌面\u{ff1b}收纳");
    assert_eq!(tags, ["桌搭", "3D打印", "线缆收纳", "理线", "桌面", "收纳"]);
    assert_eq!(tags_line(&tags[..4]), "#桌搭 #3D打印 #线缆收纳 #理线");
    assert_eq!(tags_line(&["#已经带了".into(), " ".into()]), "#已经带了");
    let mut n = note("磁吸线缆夹", "正文");
    n.tags = (0..6).map(|i| format!("话题{i}")).collect();
    assert_eq!(codes(&lint_note(&n, &pool())), [(LintCode::TooManyTags, "6/5")]);
}

#[test]
fn phone_numbers_are_eleven_digits_starting_with_1() {
    assert!(has_phone_number("联系 13812345678"));
    assert!(has_phone_number("13812345678"));
    assert!(!has_phone_number("订单号 202609211234567"), "更长的数字串不是手机号");
    assert!(!has_phone_number("尺寸 12012345678"), "第二位不是 3~9");
}

#[test]
fn drafts_travel_as_tagged_json() {
    assert_eq!(NoteAngle::parse("backstage"), NoteAngle::Backstage);
    assert_eq!(NoteAngle::parse("???"), NoteAngle::Pain);
    assert_eq!(spec(Channel::Xhs, DraftKind::Note).title_max, 20);
    assert!(spec(Channel::Xhs, DraftKind::Listing).first_image_must_be_photo);
}

#[test]
fn warnings_follow_blocks_in_their_own_order() {
    let issue = |code, severity, hit: &str| LintIssue { code, severity, field: LintField::Body, hit: hit.into() };
    let mixed = vec![
        issue(LintCode::CategoryKids, Severity::Warn, "宝宝"),
        issue(LintCode::Extreme, Severity::Block, "全网"),
        issue(LintCode::CategoryFood, Severity::Warn, "杯子"),
        issue(LintCode::Medical, Severity::Block, "助眠"),
    ];
    let sorted = sort_by_severity(&mixed);
    assert_eq!(codes(&sorted), [
        (LintCode::Extreme, "全网"),
        (LintCode::Medical, "助眠"),
        (LintCode::CategoryKids, "宝宝"),
        (LintCode::CategoryFood, "杯子"),
    ]);
}

#[test]
fn an_ordinal_after_first_is_no_superlative_but_a_bare_one_is() {
    let ok = lint_note(&note("线缆夹", "第一次打印就成功了"), &pool());
    assert!(ok.is_empty(), "{ok:?}");
    let flagged = lint_note(&note("线缆夹", "第一次打印,销量第一"), &pool());
    assert_eq!(codes(&flagged), [(LintCode::Extreme, "第一")]);
}

#[test]
fn an_overlong_body_reports_its_count() {
    let body = "好".repeat(1001);
    assert_eq!(codes(&lint_note(&note("线缆夹", &body), &pool())), [(LintCode::BodyTooLong, "1001/1000")]);
}

#[test]
fn an_imported_picture_gets_the_closest_aspect() {
    assert_eq!(ImageAspect::nearest(1000, 1000), ImageAspect::Square);
    assert_eq!(ImageAspect::nearest(3024, 4032), ImageAspect::Portrait, "手机竖拍");
    assert_eq!(ImageAspect::nearest(4032, 3024), ImageAspect::Landscape);
    assert_eq!(ImageAspect::nearest(1080, 1920), ImageAspect::Tall);
    assert_eq!(ImageAspect::nearest(2560, 1440), ImageAspect::Wide, "屏幕截图");
    assert_eq!(ImageAspect::nearest(1080, 1440), ImageAspect::Portrait);
    assert_eq!(ImageAspect::nearest(5000, 1000), ImageAspect::Wide, "比 16:9 还扁的归到最扁的那一档");
    assert_eq!(ImageAspect::nearest(0, 10), ImageAspect::Square, "坏尺寸不 panic");
}

#[test]
fn only_files_with_a_supported_picture_extension_are_importable() {
    for ok in ["C:\\图\\线缆夹.JPG", "/home/u/a.b/ref.webp", "shot.png", "x.jpeg", "saved-from-browser.jfif"] {
        assert!(is_importable_image(ok), "{ok}");
    }
    for no in ["C:\\图\\IMG_0001.HEIC", "model.stl", "noext", "C:\\folder.png\\readme", ".png", "a.avif", ""] {
        assert!(!is_importable_image(no), "{no}");
    }
}

#[test]
fn purposes_and_aspects_roundtrip_and_have_sensible_defaults() {
    for p in [ImagePurpose::ModelRef, ImagePurpose::Scene, ImagePurpose::Cover, ImagePurpose::Free] {
        assert_eq!(ImagePurpose::parse(p.as_str()), p);
    }
    for a in ImageAspect::ALL {
        assert_eq!(ImageAspect::parse(a.as_str()), a);
        assert_eq!(ImageAspect::parse(a.ratio()), a, "也认 3:4 这种写法(模型的回答里会这么写)");
    }
    assert_eq!(ImagePurpose::ModelRef.default_aspect(), ImageAspect::Square);
    assert_eq!(ImagePurpose::Cover.default_aspect().ratio(), "3:4", "小红书封面推荐 3:4");
}
