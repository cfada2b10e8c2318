use wechat_writer::writer::{build_revision_messages, revised_draft, Annotation, WritingTask};

const SYSTEM: &str = "你是公众号写作助手。";
const USER_TEMPLATE: &str = "选题：{topic}\n{article_type}{materials}\n请写一篇公众号文章。";
const REVISION_SYSTEM: &str = "你是修订助手。";
const REVISION_TEMPLATE: &str = "以下是文章初稿：\n{draft}\n\n用户批注：\n选中文字：{selected_text}\n批注意见：{comment}\n";

#[test]
fn writing_task_without_article_type() {
    let task = WritingTask {
        topic: "Rust 异步编程入门".into(),
        article_type: None,
        materials_context: String::new(),
    };
    let messages = task.build_messages(SYSTEM, USER_TEMPLATE);
    assert_eq!(messages.len(), 2);
    assert_eq!(messages[0].role, "system");
    assert_eq!(messages[1].role, "user");
    assert!(messages[1].content.contains("Rust 异步编程入门"));
    assert!(!messages[1].content.contains("文章类型"));
}

#[test]
fn writing_task_with_article_type() {
    let task = WritingTask {
        topic: "测试选题".into(),
        article_type: Some("活动报道".into()),
        materials_context: "[参考资料]\n--- 素材: 公告.txt ---\n活动时间地点\n".into(),
    };
    let messages = task.build_messages(SYSTEM, USER_TEMPLATE);
    assert!(messages[1].content.contains("活动报道"));
    assert!(messages[1].content.contains("参考资料"));
}

#[test]
fn revision_messages_contain_draft_and_annotations() {
    let draft = "# 测试标题\n\n这是初稿内容。";
    let annotations = vec![Annotation {
        selected_text: "这是初稿内容。".into(),
        comment: "太干了，加个例子".into(),
    }];
    let messages = build_revision_messages(draft, &annotations, REVISION_SYSTEM, REVISION_TEMPLATE);
    assert_eq!(messages.len(), 2);
    assert!(messages[1].content.contains("初稿"));
    assert!(messages[1].content.contains("批注"));
    assert!(messages[1].content.contains("太干了"));
}

#[test]
fn writing_prompt_fills_every_placeholder() {
    let task = WritingTask {
        topic: "春游".into(),
        article_type: Some("活动报道".into()),
        materials_context: "M".into(),
    };
    let messages = task.build_messages(SYSTEM, USER_TEMPLATE);
    assert_eq!(messages[0].content, SYSTEM);
    assert_eq!(messages[1].content, "选题：春游\n文章类型：活动报道\nM\n请写一篇公众号文章。");
}

#[test]
fn empty_article_type_adds_no_line() {
    let task = WritingTask { topic: "T".into(), article_type: Some(String::new()), materials_context: String::new() };
    let messages = task.build_messages(SYSTEM, USER_TEMPLATE);
    assert_eq!(messages[1].content, "选题：T\n\n请写一篇公众号文章。");
}

#[test]
fn revision_without_annotation_uses_empty_fields() {
    let messages = build_revision_messages("草稿", &[], REVISION_SYSTEM, REVISION_TEMPLATE);
    assert_eq!(messages[1].content, "以下是文章初稿：\n草稿\n\n用户批注：\n选中文字：\n批注意见：\n");
}

#[test]
fn revised_draft_keeps_draft_on_empty_reply() {
    assert_eq!(revised_draft(String::new(), "原稿".into()), "原稿");
    assert_eq!(revised_draft("新稿".into(), "原稿".into()), "新稿");
}
