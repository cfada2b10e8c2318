use wechat_writer::settings::ModelSettings;
use wechat_writer::vision::{vision_debug_messages, vision_description, vision_request, ReplyContent};

#[test]
fn vision_needs_a_model() {
    let s = ModelSettings::defaults();
    let err = vision_request(&s).err().unwrap();
    assert_eq!(err, "未配置 vision 模型，请在设置页填写 vision_model");
}

#[test]
fn vision_needs_a_key() {
    let mut s = ModelSettings::defaults();
    s.vision_model = Some("vl".into());
    let err = vision_request(&s).err().unwrap();
    assert_eq!(err, "未配置 API Key，请在设置页填写 API Key 或 vision_api_key");
}

#[test]
fn vision_falls_back_to_chat_settings() {
    let mut s = ModelSettings::defaults();
    s.vision_model = Some("vl".into());
    s.api_key = "sk".into();
    let q = vision_request(&s).ok().unwrap();
    assert_eq!(q.endpoint, "https://api.openai.com/v1/chat/completions");
    assert_eq!(q.api_key, "sk");
    assert_eq!(q.model, "vl");
    assert_eq!(q.prompt, "用中文简洁描述这张图片，30字以内。");
    assert_eq!(q.max_tokens, 4000);
}

#[test]
fn vision_uses_its_own_settings() {
    let mut s = ModelSettings::defaults();
    s.vision_model = Some("vl".into());
    s.vision_endpoint = Some("https://v".into());
    s.vision_api_key = Some("vk".into());
    s.vision_desc_max_chars = Some(50);
    s.vision_max_tokens = Some(300);
    let q = vision_request(&s).ok().unwrap();
    assert_eq!(q.endpoint, "https://v");
    assert_eq!(q.api_key, "vk");
    assert_eq!(q.prompt, "用中文简洁描述这张图片，50字以内。");
    assert_eq!(q.max_tokens, 300);
}

#[test]
fn description_from_text_or_parts() {
    assert_eq!(vision_description(ReplyContent::Text("操场".into())).unwrap(), "操场");
    let parts = ReplyContent::Parts(vec![Some("蓝".into()), None, Some("天".into())]);
    assert_eq!(vision_description(parts).unwrap(), "蓝天");
    assert_eq!(vision_description(ReplyContent::Other).unwrap_err(), "vision API 未返回有效描述");
    assert!(vision_description(ReplyContent::Text(String::new())).is_err());
}

#[test]
fn debug_messages_of_a_description() {
    let ms = vision_debug_messages("p.jpg", "操场");
    assert_eq!(ms.len(), 3);
    assert_eq!(ms[0].content, "vision 识图");
    assert_eq!(ms[1].content, "识别图片: p.jpg");
    assert_eq!(ms[2].role, "assistant");
    assert_eq!(ms[2].content, "操场");
}
