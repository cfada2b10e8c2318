use wechat_writer::materials::PhotoEntry;
use wechat_writer::text::trimmed_nonblank;
use wechat_writer::publish::{
    compress_html, compress_html_checked, cover_photo, inline_uploaded_images, photo_uploads, publish_assets,
    sanitize_title, title_source,
};

#[test]
fn title_drops_trailing_punctuation() {
    assert_eq!(sanitize_title("  校园歌手大赛落幕。 "), "校园歌手大赛落幕");
}

#[test]
fn title_skips_markup_lines_and_prefixes() {
    assert_eq!(sanitize_title("# 思考\n- 列表\n【标题：春日读书会】"), "春日读书会】");
}

#[test]
fn title_removes_quotes() {
    assert_eq!(sanitize_title("《秋天的第一杯奶茶》！"), "秋天的第一杯奶茶");
}

#[test]
fn title_too_short_is_untitled() {
    assert_eq!(sanitize_title(""), "未命名文章");
    assert_eq!(sanitize_title("「好」"), "未命名文章");
}

#[test]
fn title_is_cut_to_twenty_chars() {
    let t = sanitize_title("一二三四五六七八九十一二三四五六七八九十一二三");
    assert_eq!(t.chars().count(), 20);
    assert_eq!(t, "一二三四五六七八九十一二三四五六七八九十");
}

#[test]
fn title_source_takes_five_hundred_chars() {
    let d = "字".repeat(600);
    assert_eq!(title_source(&d).chars().count(), 500);
    assert_eq!(title_source("短"), "短");
}

#[test]
fn typed_title_is_trimmed() {
    assert_eq!(trimmed_nonblank(Some("  标题 ".into())), Some("标题".to_string()));
    assert_eq!(trimmed_nonblank(Some("   ".into())), None);
    assert_eq!(trimmed_nonblank(None), None);
}

#[test]
fn compress_removes_styles_comments_and_gaps() {
    let html = "<div>\n  <style>.a{color:red}</style>  <p>hi</p> <!-- note -->\n</div>";
    assert_eq!(compress_html(html), "<div><p>hi</p></div>");
}

#[test]
fn compress_keeps_unclosed_style() {
    assert_eq!(compress_html("<style>x  y"), "<style>x y");
}

#[test]
fn compress_cuts_at_limit() {
    let long = "a".repeat(19001);
    let c = compress_html_checked(&long).unwrap();
    assert_eq!(c.len(), 19000);
}

#[test]
fn compress_refuses_cut_inside_a_character() {
    let long = "中".repeat(6334);
    assert!(compress_html_checked(&long).is_none());
    let even = "é".repeat(9501);
    assert_eq!(compress_html_checked(&even).unwrap().len(), 19000);
}

#[test]
fn cover_is_first_real_photo_placed() {
    let names = vec!["a.jpg".to_string(), "b.jpg".to_string(), "__tpl_asset_0.png".to_string()];
    let content = "{{photo:__tpl_asset_0.png}} 然后 {{photo:b.jpg}}";
    assert_eq!(cover_photo(content, &names), Some(1));
    assert_eq!(cover_photo("没有占位符", &names), Some(0));
    assert_eq!(cover_photo("{{photo:zzz.jpg}}", &names), Some(0));
    assert_eq!(cover_photo("x", &Vec::new()), None);
}

#[test]
fn uploads_become_img_tags() {
    let ups = vec![
        ("a.jpg".to_string(), "http://u/a".to_string()),
        ("__tpl_asset_0.png".to_string(), "http://u/t".to_string()),
    ];
    let html = "x{{photo:a.jpg}}y{{photo:__tpl_asset_0.png}}";
    assert_eq!(
        inline_uploaded_images(html, &ups),
        "x<img src=\"http://u/a\" style=\"width:100%;border-radius:8px\" />y<img src=\"http://u/t\" style=\"width:100%;display:block\" />"
    );
}

fn photo(name: &str, url: &str) -> PhotoEntry {
    PhotoEntry {
        name: name.into(),
        data_url: url.into(),
        description: String::new(),
        width: 0,
        height: 0,
        required: false,
    }
}

#[test]
fn photo_uploads_decode_data_urls() {
    let photos = vec![photo("p.png", "data:image/png;base64,aGVsbG8="), photo("skip", "nocomma")];
    let ups = photo_uploads(&photos).unwrap();
    assert_eq!(ups, vec![("p.png".to_string(), b"hello".to_vec(), "image/png".to_string())]);
}

#[test]
fn photo_uploads_report_bad_base64() {
    let photos = vec![photo("p.png", "data:image/png;base64,@@@")];
    let err = photo_uploads(&photos).unwrap_err();
    assert!(err.starts_with("图片解码失败: "));
}

#[test]
fn assets_ride_as_pseudo_photos() {
    let html = "a{{asset:custom_x/s1.gif}}b{{asset:custom_x/s2.png}}";
    let (out, ups) = publish_assets(html, &vec![Some(vec![1u8, 2]), None]);
    assert_eq!(out, "a{{photo:__tpl_asset_0.gif}}b");
    assert_eq!(ups, vec![("__tpl_asset_0.gif".to_string(), vec![1u8, 2], "image/gif".to_string())]);
}

#[test]
fn compress_removes_every_closed_style_block() {
    assert_eq!(compress_html("<style>a</style>x<style>b</style>y<style>c"), "xy<style>c");
    assert_eq!(compress_html("a<!-- one -->b<!-- two"), "ab<!-- two");
}
