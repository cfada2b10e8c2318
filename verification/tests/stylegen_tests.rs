use wechat_writer::stylegen::{
    asset_placeholder_lines, finish_template, sticker_file_name, sticker_plan, sticker_size_ok,
    strip_template_preamble, template_description, template_request, StickerAsset,
};

#[test]
fn description_must_have_six_chars() {
    assert_eq!(template_description("  清新  ").unwrap_err(), "风格描述太短，请写清楚想要的颜色气质、用的场景等");
    assert_eq!(template_description("  清新的绿色校园风 ").unwrap(), "清新的绿色校园风");
}

#[test]
fn sticker_choice() {
    assert_eq!(sticker_plan("https://x/a.gif", 0), Some(("https://x/a.gif".to_string(), "gif".to_string())));
    assert_eq!(sticker_plan("https://x/a.png", 500), None);
    assert_eq!(sticker_plan("https://x/a.png", 300), Some(("https://x/a.png".to_string(), "png".to_string())));
    assert_eq!(sticker_plan("https://x/a.bmp", 100), None);
    assert_eq!(
        sticker_plan("https://mmbiz.qpic.cn/x/640?wx_fmt=gif&tp=webp&wxfrom=5#imgIndex=1", 0),
        Some(("https://mmbiz.qpic.cn/x/640?wx_fmt=gif&wxfrom=5".to_string(), "gif".to_string()))
    );
}

#[test]
fn sticker_sizes_and_names() {
    assert!(!sticker_size_ok(0));
    assert!(sticker_size_ok(4_800_000));
    assert!(!sticker_size_ok(4_800_001));
    assert_eq!(sticker_file_name(0, "gif"), "asset1.gif");
    assert_eq!(sticker_file_name(11, "png"), "asset12.png");
}

fn stickers() -> Vec<StickerAsset> {
    vec![
        StickerAsset { file: "asset1.gif".into(), w: 230, h: 172 },
        StickerAsset { file: "asset2.png".into(), w: 0, h: 0 },
        StickerAsset { file: "asset3.png".into(), w: 100, h: 0 },
    ]
}

#[test]
fn sticker_lines() {
    assert_eq!(
        asset_placeholder_lines("custom_x", &stickers()),
        "{{asset:custom_x/asset1.gif}}（GIF 动画贴纸，约 230×172px）\n\
         {{asset:custom_x/asset2.png}}（静态贴纸，小尺寸）\n\
         {{asset:custom_x/asset3.png}}（静态贴纸，宽约 100px）\n"
    );
}

#[test]
fn request_text() {
    assert_eq!(template_request("绿色", None, "custom_x", &Vec::new()), "用户想要的模板风格：绿色\n");
    let r = template_request("绿色", Some("正文"), "custom_x", &stickers());
    assert!(r.starts_with("用户想要的模板风格：绿色\n\n参考页面内容节选（参考其配色与气质）：\n正文\n\n以下贴纸素材已从参考页面采集并保存到本地（id=custom_x）"));
    assert!(r.contains("（那类图排版时走 {photo:...}）"));
    assert!(r.ends_with("（静态贴纸，宽约 100px）\n"));
}

#[test]
fn preamble_is_dropped() {
    let reply = "好的，我来想一想。\n清新绿\n主色：#3a7\n<section>x</section>\n";
    assert_eq!(strip_template_preamble(reply), "清新绿\n主色：#3a7\n<section>x</section>");
    assert_eq!(strip_template_preamble("  <p>无色板</p>  "), "<p>无色板</p>");
}

#[test]
fn invalid_template_is_refused() {
    let err = finish_template("太短了", "custom_x", &Vec::new()).unwrap_err();
    assert_eq!(err, "AI 生成的模板内容无效：太短了");
    let no_tag = "x".repeat(150);
    assert!(finish_template(&no_tag, "custom_x", &Vec::new()).is_err());
}

#[test]
fn template_gets_sticker_appendix_and_name() {
    let body = format!("清新绿\n主色：#3a7\n<section style=\"color:#3a7\">{}</section>", "内容".repeat(40));
    let (content, name) = finish_template(&body, "custom_x", &stickers()).unwrap();
    assert_eq!(name, "清新绿");
    assert!(content.starts_with(&body));
    assert!(content.contains("\n\n==== 可用贴纸素材，逐个编写具体使用方法 ====\n"));
    assert!(content.ends_with("（静态贴纸，宽约 100px）\n"));
    let (plain, _) = finish_template(&body, "custom_x", &Vec::new()).unwrap();
    assert_eq!(plain, body);
}

#[test]
fn sticker_names_are_valid_asset_files() {
    for (n, kind) in [(0usize, "gif"), (3, "webp"), (23, "jpeg")] {
        assert!(wechat_writer::templates::valid_asset_file(&sticker_file_name(n, kind)));
    }
}
