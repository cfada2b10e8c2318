use wechat_writer::settings::{
    budget_exceeded, default_context_length, default_endpoint, default_max_tokens, default_model, progress_message,
    wx_credentials, ModelSettings, SettingsUpdate,
};

fn empty_update() -> SettingsUpdate {
    SettingsUpdate {
        endpoint: None,
        api_key: None,
        model: None,
        context_length: None,
        thinking_mode: None,
        max_tokens: None,
        vision_endpoint: None,
        vision_api_key: None,
        vision_model: None,
        vision_max_tokens: None,
        vision_desc_max_chars: None,
        wx_app_id: None,
        wx_app_secret: None,
        token_budget: None,
    }
}

#[test]
fn defaults() {
    assert_eq!(default_endpoint(), "https://api.openai.com/v1/chat/completions");
    assert_eq!(default_model(), "gpt-4o-mini");
    assert_eq!(default_context_length(), 128_000);
    assert_eq!(default_max_tokens(), 100000);
    let s = ModelSettings::defaults();
    assert!(!s.api_key_configured());
    assert!(!s.vision_configured());
    assert!(!s.wx_configured());
    assert_eq!(s.token_budget, None);
}

#[test]
fn env_key_overrides_when_not_empty() {
    let s = ModelSettings::defaults().with_env_key(Some("sk-1".into()));
    assert_eq!(s.api_key, "sk-1");
    let s = s.with_env_key(Some(String::new()));
    assert_eq!(s.api_key, "sk-1");
    let s = s.with_env_key(None);
    assert!(s.api_key_configured());
}

#[test]
fn apply_replaces_given_fields() {
    let mut u = empty_update();
    u.model = Some("deepseek-chat".into());
    u.vision_model = Some("vl".into());
    u.token_budget = Some(5000);
    let s = ModelSettings::defaults().apply(u);
    assert_eq!(s.model, "deepseek-chat");
    assert_eq!(s.vision_model.as_deref(), Some("vl"));
    assert_eq!(s.token_budget, Some(5000));
    assert_eq!(s.endpoint, "https://api.openai.com/v1/chat/completions");
}

#[test]
fn form_differences() {
    let s = ModelSettings::defaults();
    assert!(!s.form_differs(&empty_update()));
    let mut u = empty_update();
    u.model = Some("gpt-4o-mini".into());
    u.api_key = Some(String::new());
    assert!(!s.form_differs(&u));
    u.api_key = Some("sk".into());
    assert!(s.form_differs(&u));
    let mut u = empty_update();
    u.vision_max_tokens = Some(10);
    assert!(s.form_differs(&u));
}

#[test]
fn saved_form_reports_no_change() {
    let mut u = empty_update();
    u.endpoint = Some("https://e".into());
    u.wx_app_id = Some("wx1".into());
    let s = ModelSettings::defaults().apply(u.clone());
    assert!(!s.form_differs(&u));
}

#[test]
fn wx_credentials_need_both() {
    let mut s = ModelSettings::defaults();
    assert_eq!(wx_credentials(&s).unwrap_err(), "未配置公众号 AppID/AppSecret，请在设置页填写");
    s.wx_app_id = Some("id".into());
    s.wx_app_secret = Some(String::new());
    assert!(wx_credentials(&s).is_err());
    s.wx_app_secret = Some("sec".into());
    assert_eq!(wx_credentials(&s).unwrap(), ("id".to_string(), "sec".to_string()));
}

#[test]
fn budget_message() {
    assert_eq!(budget_exceeded(Some(100), 150), Some("Token 用量 (150) 已达预算上限 (100)，自动中断".to_string()));
    assert_eq!(budget_exceeded(Some(100), 100), Some("Token 用量 (100) 已达预算上限 (100)，自动中断".to_string()));
    assert_eq!(budget_exceeded(Some(100), 99), None);
    assert_eq!(budget_exceeded(None, 1_000_000), None);
}

#[test]
fn progress_lines() {
    assert_eq!(progress_message(12, 0), "已生成 12 字...");
    assert_eq!(progress_message(0, 7), "思考中 7 字...");
    assert_eq!(progress_message(3, 9), "已生成 3 字...");
}

#[test]
fn empty_key_in_form_reports_no_change_and_keeps_key() {
    let s = ModelSettings::defaults().with_env_key(Some("sk-1".into()));
    let mut u = empty_update();
    u.api_key = Some(String::new());
    assert!(!s.form_differs(&u));
    u.wx_app_secret = Some(String::new());
    let saved = s.apply(u);
    assert_eq!(saved.api_key, "sk-1");
    assert_eq!(saved.wx_app_secret, None);
    let mut u = empty_update();
    u.vision_api_key = Some("vk".into());
    let saved = saved.apply(u);
    let mut u = empty_update();
    u.vision_api_key = Some(String::new());
    u.api_key = Some("sk-2".into());
    let saved = saved.apply(u);
    assert_eq!(saved.vision_api_key.as_deref(), Some("vk"));
    assert_eq!(saved.api_key, "sk-2");
}

#[test]
fn shown_settings_leave_out_the_secrets() {
    let mut s = ModelSettings::defaults().with_env_key(Some("sk-secret".into()));
    s.wx_app_id = Some("wx1".into());
    s.wx_app_secret = Some("sec".into());
    let v = s.shown();
    assert!(v.api_key_configured);
    assert!(v.wx_configured);
    assert!(!v.vision_configured);
    assert_eq!(v.wx_app_id.as_deref(), Some("wx1"));
    assert_eq!(v.model, "gpt-4o-mini");
}
