use std::io::Read;
use wechat_writer::export::{export_entries, export_photo_html_exec, export_zip};
use wechat_writer::materials::PhotoEntry;
use wechat_writer::templates::collect_asset_refs;

fn photo(name: &str, url: &str) -> PhotoEntry {
    PhotoEntry {
        name: name.into(),
        data_url: url.into(),
        description: String::new(),
        width: 0,
        height: 0,
        required: false,
    }
}

#[test]
fn photos_become_relative_images() {
    let photos = vec![photo("a.jpg", "data:image/jpeg;base64,aGk="), photo("b.png", "data:image/png;base64,aGk=")];
    let html = export_photo_html_exec("<p>{{photo:b.png}}</p>", &photos);
    assert_eq!(html, "<p><img src=\"images/img2.png\" style=\"width:100%;border-radius:8px;margin:10px 0\" /></p>");
}

#[test]
fn entries_in_archive_order() {
    let photos = vec![photo("a.jpg", "data:image/jpeg;base64,aGk="), photo("bad", "nocomma")];
    let html = "{{photo:a.jpg}}{{asset:custom_t/s.gif}}{{asset:custom_t/gone.png}}";
    let h1 = export_photo_html_exec(html, &photos);
    assert_eq!(collect_asset_refs(&h1).len(), 2);
    let loaded = vec![Some(vec![7u8, 8]), None];
    let entries = export_entries(html, &photos, &loaded).unwrap();
    let names: Vec<&str> = entries.iter().map(|e| e.0.as_str()).collect();
    assert_eq!(names, vec!["images/img1.jpeg", "images/img2.jpeg", "images/asset1.gif", "article.html"]);
    assert_eq!(entries[0].1, b"hi".to_vec());
    assert!(entries[1].1.is_empty());
    assert_eq!(entries[2].1, vec![7u8, 8]);
    let article = String::from_utf8(entries[3].1.clone()).unwrap();
    assert_eq!(
        article,
        "<img src=\"images/img1.jpeg\" style=\"width:100%;border-radius:8px;margin:10px 0\" />\
         <img src=\"images/asset1.gif\" style=\"width:100%;display:block\" />"
    );
}

#[test]
fn undecodable_photo_fails_export() {
    let photos = vec![photo("a.jpg", "data:image/jpeg;base64,!!")];
    let err = export_entries("x", &photos, &Vec::new()).unwrap_err();
    assert!(err.starts_with("解码失败: "));
}

#[test]
fn archive_holds_the_files() {
    let photos = vec![photo("a.jpg", "data:image/jpeg;base64,aGk=")];
    let bytes = export_zip("<p>{{photo:a.jpg}}</p>", &photos, &Vec::new()).unwrap();
    let mut archive = zip::ZipArchive::new(std::io::Cursor::new(bytes)).unwrap();
    assert_eq!(archive.len(), 2);
    let mut img = Vec::new();
    archive.by_name("images/img1.jpeg").unwrap().read_to_end(&mut img).unwrap();
    assert_eq!(img, b"hi".to_vec());
    let mut page = String::new();
    archive.by_name("article.html").unwrap().read_to_string(&mut page).unwrap();
    assert!(page.contains("images/img1.jpeg"));
}
