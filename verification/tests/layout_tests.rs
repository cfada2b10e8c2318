use wechat_writer::cost::{TokenTotals, TokenUsage};
use wechat_writer::formatter::{extract_html, orientation, template_display_name, FormatTask, PhotoRef};
use wechat_writer::templates::{
    asset_content_type, asset_dir, asset_placeholder, asset_upload_size_ok, collect_asset_refs, fmt_kind,
    is_custom_template, is_sticker_candidate, normalize_img_url, sanitize_template_id, sanitize_template_id_at,
    valid_asset_file, valid_template_id,
};

#[test]
fn html_is_taken_from_fenced_reply() {
    assert_eq!(extract_html("```html\n<div>hi</div>\n```"), "<div>hi</div>");
    assert_eq!(extract_html("好的：<section>a</section> 完成"), "<section>a</section>");
    assert_eq!(extract_html("没有标签"), "");
}

#[test]
fn orientation_notes() {
    assert_eq!(orientation(1600, 900), "横图 1600x900，");
    assert_eq!(orientation(900, 1600), "竖图 900x1600，");
    assert_eq!(orientation(1000, 1000), "方图 1000x1000，");
    assert_eq!(orientation(0, 100), "");
}

#[test]
fn layout_messages() {
    let task = FormatTask {
        draft: "正文".into(),
        photos: vec![PhotoRef { name: "a.jpg".into(), description: String::new(), width: 0, height: 0, required: true }],
        template: Some("fresh_green".into()),
    };
    let templates = vec![("fresh_green".to_string(), "清新绿\n主色".to_string())];
    let ms = task.build_messages("排版规则", &templates);
    assert_eq!(ms.len(), 2);
    assert!(ms[0].content.starts_with("排版规则\n\n可用模板库（用户已指定模板: fresh_green，必须沿用该模板的样式与贴图，不要改配色）：\n"));
    assert!(ms[0].content.contains("\n====== 模板 fresh_green ======\n清新绿\n主色\n"));
    assert!(ms[1].content.starts_with("请将以下文章排版为公众号 HTML：\n\n正文\n\n"));
    assert!(ms[1].content.contains("- a.jpg（必选，）：（无描述）\n"));
}

#[test]
fn layout_without_photos() {
    let task = FormatTask { draft: "D".into(), photos: Vec::new(), template: None };
    let ms = task.build_messages("S", &Vec::new());
    assert_eq!(ms[0].content, "S");
    assert_eq!(ms[1].content, "请将以下文章排版为公众号 HTML：\n\nD\n\n（本次无照片提供）");
}

#[test]
fn template_names() {
    assert_eq!(template_display_name("fresh_green", "  清新绿 \n主色"), "清新绿");
    assert_eq!(template_display_name("fresh_green", ""), "fresh_green");
}

#[test]
fn template_ids() {
    assert_eq!(sanitize_template_id_at("my style!", 5), "custom_my_style_");
    assert_eq!(sanitize_template_id_at("", 17), "custom_17");
    assert_eq!(sanitize_template_id_at(" custom_ok ", 1), "custom_ok");
    assert!(sanitize_template_id("秋日").starts_with("custom_"));
    assert!(valid_template_id("custom_a-1"));
    assert!(!valid_template_id("a b"));
    assert!(!valid_template_id(""));
    assert!(is_custom_template("custom_x"));
    assert!(!is_custom_template("fresh_green"));
}

#[test]
fn asset_files() {
    assert!(valid_asset_file("a.png"));
    assert!(!valid_asset_file("../x"));
    assert!(!valid_asset_file(".hidden"));
    assert!(!valid_asset_file("a/b"));
    assert_eq!(asset_content_type("x.svg"), "image/svg+xml");
    assert_eq!(asset_content_type("x"), "image/jpeg");
    assert_eq!(asset_dir("custom_a"), "prompts/templates/custom_a/assets");
    assert_eq!(asset_placeholder("custom_a", "s.gif"), "{{asset:custom_a/s.gif}}");
    assert!(asset_upload_size_ok(2 * 1024 * 1024));
    assert!(!asset_upload_size_ok(2 * 1024 * 1024 + 1));
}

#[test]
fn asset_references() {
    let refs = collect_asset_refs("x{{asset: custom_a / s.gif }}y{{asset:bad id/s.gif}}{{asset:noslash}}");
    assert_eq!(refs, vec![("{{asset: custom_a / s.gif }}".to_string(), "custom_a".to_string(), "s.gif".to_string())]);
}

#[test]
fn image_kinds() {
    assert_eq!(fmt_kind("https://mmbiz.qpic.cn/x/640?wx_fmt=GIF&tp=webp"), "gif");
    assert_eq!(fmt_kind("https://a/b/c.PNG?x=1#f"), "png");
    assert_eq!(normalize_img_url("https://a/x.gif?tp=webp&y=1#z"), "https://a/x.gif?y=1");
    assert_eq!(normalize_img_url("https://a/x.png?tp=webp&y=1"), "https://a/x.png?tp=webp&y=1");
    assert!(is_sticker_candidate("https://a/x.gif", 1000));
    assert!(is_sticker_candidate("https://a/x.png", 400));
    assert!(!is_sticker_candidate("https://a/x.png", 0));
}

#[test]
fn token_totals() {
    let mut t = TokenTotals::new();
    let u = TokenUsage { prompt_tokens: 1000, completion_tokens: 500, total_tokens: 1500 };
    assert!(t.can_record(&u));
    t.record(&u);
    t.record(&TokenUsage { prompt_tokens: 2000, completion_tokens: 1000, total_tokens: 3000 });
    assert_eq!(t.call_count, 2);
    assert_eq!(t.total_input_tokens, 3000);
    assert_eq!(t.total_output_tokens, 1500);
    assert_eq!(t.total_tokens(), 4500);
}

#[test]
fn unnamed_template_gets_time_id() {
    let id = sanitize_template_id("  ");
    let digits = id.strip_prefix("custom_").unwrap();
    assert!(!digits.is_empty());
    assert!(digits.chars().all(|c| c.is_ascii_digit()));
    assert_eq!(sanitize_template_id("秋日"), "custom___");
}

#[test]
fn extracted_html_is_stable_and_taken_from_reply() {
    for reply in ["```html\n<div>hi</div>\n```", "好的：<section>a</section> 完成", "  <p>x", "没有标签", "<a>b</a> <i>c"] {
        let r = extract_html(reply);
        assert!(reply.contains(r.as_str()));
        assert_eq!(r, r.trim());
        assert_eq!(extract_html(&r), r);
    }
}
