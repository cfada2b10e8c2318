use wechat_writer::store::{material_entry, new_photo, MaterialEntry, Shelf};
use wechat_writer::materials::PhotoEntry;

fn names_m(s: &Shelf<MaterialEntry>) -> Vec<String> {
    s.items().iter().map(|m| m.name.clone()).collect()
}

#[test]
fn upload_of_same_name_replaces_and_moves_to_end() {
    let mut s: Shelf<MaterialEntry> = Shelf::new();
    s.upsert(material_entry("a.txt".into(), "一".into()));
    s.upsert(material_entry("b.txt".into(), "二".into()));
    s.upsert(material_entry("a.txt".into(), "三三".into()));
    assert_eq!(names_m(&s), vec!["b.txt".to_string(), "a.txt".to_string()]);
    assert_eq!(s.items()[1].content, "三三");
    assert_eq!(s.items()[1].size, 6);
}

#[test]
fn remove_drops_every_entry_of_that_name() {
    let mut s: Shelf<MaterialEntry> = Shelf::new();
    s.replace_all(vec![
        material_entry("a".into(), "1".into()),
        material_entry("b".into(), "2".into()),
        material_entry("a".into(), "3".into()),
    ]);
    s.remove("a");
    assert_eq!(names_m(&s), vec!["b".to_string()]);
    s.remove("zzz");
    assert_eq!(s.len(), 1);
}

#[test]
fn library_keeps_upload_order() {
    let mut s: Shelf<MaterialEntry> = Shelf::new();
    s.upsert(material_entry("a.txt".into(), "甲".into()));
    s.upsert(material_entry("b.txt".into(), "乙".into()));
    let ctx = s.library().build_context();
    assert_eq!(ctx, "[参考资料]\n--- 素材: a.txt ---\n甲\n\n--- 素材: b.txt ---\n乙\n\n");
}

#[test]
fn photo_description_and_required_mark() {
    let mut s: Shelf<PhotoEntry> = Shelf::new();
    s.upsert(new_photo("p.jpg".into(), "data:image/jpeg;base64,AA==".into(), 800, 600));
    assert!(s.set_description("p.jpg", "操场".into()));
    assert!(s.set_required("p.jpg", true));
    assert!(!s.set_description("q.jpg", "x".into()));
    assert!(!s.set_required("q.jpg", true));
    let p = &s.items()[0];
    assert_eq!(p.description, "操场");
    assert!(p.required);
    assert_eq!((p.width, p.height), (800, 600));
    assert_eq!(s.data_url_of("p.jpg"), Some("data:image/jpeg;base64,AA==".to_string()));
    assert_eq!(s.data_url_of("q.jpg"), None);
    assert_eq!(s.position("p.jpg"), Some(0));
}

#[test]
fn new_photo_has_no_description() {
    let p = new_photo("x".into(), "u".into(), 1, 2);
    assert_eq!(p.description, "");
    assert!(!p.required);
}
