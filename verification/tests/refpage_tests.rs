use wechat_writer::refpage::{find_img_attr, page_plain_text, parse_u32, read_reference_page, reference_bases};

#[test]
fn bases_of_a_page() {
    let (origin, dir) = reference_bases("https://mp.weixin.qq.com/s/abc?x=1").unwrap();
    assert_eq!(origin, "https://mp.weixin.qq.com");
    assert_eq!(dir, "https://mp.weixin.qq.com/s");
}

#[test]
fn bases_without_path() {
    let (origin, dir) = reference_bases("https://example.com").unwrap();
    assert_eq!(origin, "https://example.com");
    assert_eq!(dir, "https:/");
}

#[test]
fn bases_refused_inside_a_character() {
    // with a second "://" the origin offset is counted from the wrong end and
    // lands inside the two-byte "é"
    assert!(reference_bases("a://b/://éé").is_none());
}

#[test]
fn attribute_values() {
    assert_eq!(find_img_attr(" data-src=\"https://a/b.png\" src='x'", "data-src"), Some("https://a/b.png".to_string()));
    assert_eq!(find_img_attr(" src=' y.png ' ", "src"), Some("y.png".to_string()));
    assert_eq!(find_img_attr(" src=plain ", "src"), Some(String::new()));
    assert_eq!(find_img_attr(" src=\"open", "src"), None);
    assert_eq!(find_img_attr(" alt=\"x\"", "src"), None);
}

#[test]
fn integers_like_std() {
    assert_eq!(parse_u32("+12"), Some(12));
    assert_eq!(parse_u32("4294967295"), Some(4294967295));
    assert_eq!(parse_u32("4294967296"), None);
    assert_eq!(parse_u32(""), None);
    assert_eq!(parse_u32("12a"), None);
    assert_eq!(parse_u32("-1"), None);
}

#[test]
fn page_text_drops_tags() {
    let v: Vec<char> = "<p>你好</p>\n<b>世界</b>".chars().collect();
    assert_eq!(page_plain_text(&v), "你好 世界");
    let v: Vec<char> = "<div class=\"x\" data-a='1'>正文<br/>第二行</div>".chars().collect();
    assert_eq!(page_plain_text(&v), "正文 第二行");
}

#[test]
fn images_are_resolved_and_hinted() {
    let html = "<img data-src=\"https://mmbiz.qpic.cn/a/640?wx_fmt=gif\" data-w=\"200\" data-ratio=\"0.75\">\
                <img src=\"/img/b.png\"><img src='c.jpg'><img src=\"data:image/png;base64,xx\">";
    let page = read_reference_page(html, "https://site.org", "https://site.org/post").unwrap();
    let urls: Vec<String> = page.images.iter().map(|c| c.url.clone()).collect();
    assert_eq!(
        urls,
        vec![
            "https://mmbiz.qpic.cn/a/640?wx_fmt=gif".to_string(),
            "https://site.org/img/b.png".to_string(),
            "https://site.org/post/c.jpg".to_string(),
            "https://site.org/post/data:image/png;base64,xx".to_string(),
        ]
    );
    assert_eq!(page.images[0].w, 200);
    assert_eq!(page.images[0].ratio.as_deref(), Some("0.75"));
    assert_eq!(page.images[1].w, 0);
    assert_eq!(page.images[1].ratio, None);
}

#[test]
fn at_most_sixteen_images() {
    let html = "<img src=\"https://a/x.png\">".repeat(20);
    let page = read_reference_page(&html, "https://a", "https://a").unwrap();
    assert_eq!(page.images.len(), 16);
}

#[test]
fn verification_wall_is_refused() {
    let err = read_reference_page("<p>环境异常</p>", "https://a", "https://a").err().unwrap();
    assert!(err.starts_with("该链接被微信要求安全验证"));
}

#[test]
fn empty_page_is_refused() {
    let err = read_reference_page("<p>短</p>", "https://a", "https://a").err().unwrap();
    assert_eq!(err, "参考页面内容过少（可能是保护页或空页），请换链接或直接粘贴正文");
}

#[test]
fn long_text_page_is_read() {
    let html = format!("<p>{}</p>", "字".repeat(250));
    let page = read_reference_page(&html, "https://a", "https://a").unwrap();
    assert!(page.images.is_empty());
    assert_eq!(page.text, "字".repeat(250));
}
