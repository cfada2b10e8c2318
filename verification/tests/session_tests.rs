use std::io::Read;
use wechat_writer::archive::build_zip;
use wechat_writer::cost::{TokenTotals, TokenUsage};
use wechat_writer::materials::PhotoEntry;
use wechat_writer::session::{restore_session, session_doc, MaterialRecord, PhotoRecord, SessionDoc};
use wechat_writer::store::{material_entry, MaterialEntry, Shelf};
use wechat_writer::writer::Annotation;

fn photo(name: &str) -> PhotoEntry {
    PhotoEntry {
        name: name.into(),
        data_url: "data:image/png;base64,aGk=".into(),
        description: "一张图".into(),
        width: 640,
        height: 480,
        required: true,
    }
}

fn empty_doc() -> SessionDoc {
    SessionDoc { topic: None, article_type: None, draft: None, annotations: None, materials: None, photos: None }
}

#[test]
fn record_single_call() {
    let mut t = TokenTotals::new();
    t.record(&TokenUsage { prompt_tokens: 1000, completion_tokens: 500, total_tokens: 1500 });
    assert_eq!(t.total_tokens(), 1500);
    assert_eq!(t.call_count, 1);
}

#[test]
fn record_multiple_calls() {
    let mut t = TokenTotals::new();
    t.record(&TokenUsage { prompt_tokens: 1000, completion_tokens: 500, total_tokens: 1500 });
    t.record(&TokenUsage { prompt_tokens: 2000, completion_tokens: 1000, total_tokens: 3000 });
    assert_eq!(t.total_input_tokens, 3000);
    assert_eq!(t.total_output_tokens, 1500);
    assert_eq!(t.total_tokens(), 4500);
    assert_eq!(t.call_count, 2);
}

#[test]
fn missing_fields_take_defaults_and_keep_lists() {
    let mut mats: Shelf<MaterialEntry> = Shelf::new();
    mats.upsert(material_entry("a.txt".into(), "甲".into()));
    let mut photos: Shelf<PhotoEntry> = Shelf::new();
    photos.upsert(photo("p.png"));
    let r = restore_session(empty_doc(), &mut mats, &mut photos);
    assert_eq!(r.topic, "");
    assert_eq!(r.article_type, None);
    assert_eq!(r.draft, "");
    assert!(r.annotations.is_empty());
    assert_eq!(mats.len(), 1);
    assert_eq!(photos.items()[0].name, "p.png");
}

#[test]
fn present_lists_replace_with_defaults_inside() {
    let mut mats: Shelf<MaterialEntry> = Shelf::new();
    mats.upsert(material_entry("old.txt".into(), "旧".into()));
    let mut photos: Shelf<PhotoEntry> = Shelf::new();
    photos.upsert(photo("old.png"));
    let mut doc = empty_doc();
    doc.topic = Some("选题".into());
    doc.materials = Some(vec![MaterialRecord { name: Some("b.md".into()), content: None, size: Some(7) }]);
    doc.photos = Some(vec![PhotoRecord {
        name: Some("q.jpg".into()),
        data_url: None,
        description: None,
        width: Some(5_000_000_000),
        height: None,
        required: None,
    }]);
    doc.annotations = Some(vec![Annotation { selected_text: "一句".into(), comment: "改".into() }]);
    let r = restore_session(doc, &mut mats, &mut photos);
    assert_eq!(r.topic, "选题");
    assert_eq!(r.annotations.len(), 1);
    let m = &mats.items()[0];
    assert_eq!((m.name.as_str(), m.content.as_str(), m.size), ("b.md", "", 7));
    let p = &photos.items()[0];
    assert_eq!(p.name, "q.jpg");
    assert_eq!(p.data_url, "");
    assert_eq!(p.width, 5_000_000_000u64 as u32);
    assert_eq!(p.height, 0);
    assert!(!p.required);
    let mut doc = empty_doc();
    doc.materials = Some(Vec::new());
    restore_session(doc, &mut mats, &mut photos);
    assert_eq!(mats.len(), 0);
    assert_eq!(photos.len(), 1);
}

#[test]
fn saved_session_loads_back() {
    let mut mats: Shelf<MaterialEntry> = Shelf::new();
    mats.upsert(material_entry("a.txt".into(), "甲乙".into()));
    let mut photos: Shelf<PhotoEntry> = Shelf::new();
    photos.upsert(photo("p.png"));
    let ann = vec![Annotation { selected_text: "x".into(), comment: "y".into() }];
    let doc = session_doc("题".into(), Some("活动报道".into()), "稿".into(), ann, &mats, &photos);
    let mut mats2: Shelf<MaterialEntry> = Shelf::new();
    let mut photos2: Shelf<PhotoEntry> = Shelf::new();
    let r = restore_session(doc, &mut mats2, &mut photos2);
    assert_eq!(r.topic, "题");
    assert_eq!(r.article_type.as_deref(), Some("活动报道"));
    assert_eq!(r.draft, "稿");
    assert_eq!(r.annotations[0].comment, "y");
    let (a, b) = (&mats.items()[0], &mats2.items()[0]);
    assert_eq!((a.name.as_str(), a.content.as_str(), a.size), (b.name.as_str(), b.content.as_str(), b.size));
    assert_eq!(a.size, 6);
    let (p, q) = (&photos.items()[0], &photos2.items()[0]);
    assert_eq!((p.width, p.height, p.required, p.description.as_str()), (q.width, q.height, q.required, q.description.as_str()));
}

#[test]
fn zip_refuses_duplicate_names() {
    let entries = vec![("a.txt".to_string(), b"1".to_vec()), ("a.txt".to_string(), b"2".to_vec())];
    assert!(build_zip(&entries).is_err());
}

#[test]
fn zip_holds_entries_in_order() {
    let entries = vec![("a.txt".to_string(), b"one".to_vec()), ("empty".to_string(), Vec::new())];
    let bytes = build_zip(&entries).unwrap();
    let mut archive = zip::ZipArchive::new(std::io::Cursor::new(bytes)).unwrap();
    assert_eq!(archive.len(), 2);
    assert_eq!(archive.by_index(0).unwrap().name(), "a.txt");
    let mut s = String::new();
    archive.by_name("a.txt").unwrap().read_to_string(&mut s).unwrap();
    assert_eq!(s, "one");
    assert_eq!(archive.by_name("empty").unwrap().size(), 0);
    let empty: Vec<(String, Vec<u8>)> = Vec::new();
    let bytes = build_zip(&empty).unwrap();
    assert_eq!(zip::ZipArchive::new(std::io::Cursor::new(bytes)).unwrap().len(), 0);
}
