use wechat_writer::cost::TokenUsage;
use wechat_writer::llm::{
    missing_api_key_message, plain_reply, plan_after, rejects_stream_options, response_text, ChoiceText, LineEvent,
    Message, StreamAttempt, StreamDecoder, StreamDelta, StreamPlan,
};

#[test]
fn message_roles() {
    assert_eq!(Message::system("s".into()).role, "system");
    assert_eq!(Message::user("u".into()).role, "user");
    assert_eq!(Message::assistant("a".into()).role, "assistant");
}

#[test]
fn stream_lines_are_split_and_classified() {
    let mut d = StreamDecoder::new();
    d.feed(b": keep-alive\r\ndata: {\"a\":1}\r\n\ndata:[DONE]\npartial");
    assert!(matches!(d.next_line(), LineEvent::Skip));
    match d.next_line() {
        LineEvent::Data(x) => assert_eq!(x, "{\"a\":1}"),
        _ => panic!("expected data"),
    }
    assert!(matches!(d.next_line(), LineEvent::Skip));
    assert!(matches!(d.next_line(), LineEvent::Done));
    assert!(matches!(d.next_line(), LineEvent::NeedMore));
}

#[test]
fn stream_deltas_accumulate() {
    let mut d = StreamDecoder::new();
    let p = d.apply(StreamDelta { usage: None, content: None, reasoning: Some("想".into()) }).unwrap();
    assert_eq!((p.content, p.reasoning), (0, 1));
    let p = d.apply(StreamDelta { usage: None, content: Some("你好".into()), reasoning: None }).unwrap();
    assert_eq!((p.content, p.reasoning), (2, 1));
    let usage = TokenUsage { prompt_tokens: 3, completion_tokens: 4, total_tokens: 7 };
    assert!(d.apply(StreamDelta { usage: Some(usage), content: None, reasoning: None }).is_none());
    assert_eq!(d.content_chars(), 2);
    let r = d.finish();
    assert_eq!(r.content, "你好");
    assert_eq!(r.usage, usage);
}

#[test]
fn stream_without_usage_reports_zero() {
    let d = StreamDecoder::new();
    let r = d.finish();
    assert_eq!(r.usage, TokenUsage::zero());
    assert_eq!(r.content, "");
}

#[test]
fn invalid_utf8_is_replaced() {
    let mut d = StreamDecoder::new();
    d.feed(&[b'd', b'a', b't', b'a', b':', 0xff, b'\n']);
    match d.next_line() {
        LineEvent::Data(x) => assert_eq!(x, "\u{fffd}"),
        _ => panic!("expected data"),
    }
}

#[test]
fn fallback_plans() {
    assert_eq!(plan_after(true, StreamAttempt::Completed), StreamPlan::Return);
    assert_eq!(plan_after(true, StreamAttempt::OptionsRejected), StreamPlan::RetryWithoutOptions);
    assert_eq!(plan_after(true, StreamAttempt::Failed { received: 0 }), StreamPlan::FallBackToPlain);
    assert_eq!(plan_after(true, StreamAttempt::Failed { received: 5 }), StreamPlan::Fail);
    assert_eq!(plan_after(false, StreamAttempt::Failed { received: 5 }), StreamPlan::Fail);
    assert_eq!(plan_after(false, StreamAttempt::Failed { received: 0 }), StreamPlan::FallBackToPlain);
    assert_eq!(plan_after(false, StreamAttempt::OptionsRejected), StreamPlan::FallBackToPlain);
    assert!(rejects_stream_options(true, 422));
    assert!(!rejects_stream_options(false, 400));
    assert!(!rejects_stream_options(true, 500));
}

#[test]
fn plain_replies() {
    let usage = TokenUsage { prompt_tokens: 1, completion_tokens: 2, total_tokens: 3 };
    assert_eq!(plain_reply(Vec::new(), usage).err().unwrap(), "响应中没有 choices");
    let r = plain_reply(vec![ChoiceText { content: String::new(), reasoning: Some("推理".into()) }], usage).ok().unwrap();
    assert_eq!(r.content, "推理");
    assert_eq!(r.usage, usage);
    assert_eq!(response_text("答".into(), Some("推理".into())), "答");
    assert_eq!(response_text(String::new(), None), "");
    assert!(missing_api_key_message().starts_with("未配置 API Key"));
}
