use wechat_writer::dataurl::{make_data_url, parse_data_url, photo_export_ext, DataUrlError};

#[test]
fn data_url_is_built_from_type_and_bytes() {
    assert_eq!(make_data_url("image/png", b"hello"), "data:image/png;base64,aGVsbG8=");
}

#[test]
fn data_url_round_trip() {
    let bytes: Vec<u8> = (0u8..=255).collect();
    let url = make_data_url("image/webp", &bytes);
    let (ct, back) = parse_data_url(&url).unwrap();
    assert_eq!(ct, "image/webp");
    assert_eq!(back, bytes);
}

#[test]
fn data_url_without_comma_is_malformed() {
    let err = parse_data_url("data:image/png;base64").unwrap_err();
    assert!(matches!(err, DataUrlError::Malformed));
    assert_eq!(err.message(), "图片数据格式错误");
}

#[test]
fn data_url_with_bad_payload() {
    let err = parse_data_url("data:image/png;base64,***").unwrap_err();
    assert!(matches!(err, DataUrlError::Undecodable(_)));
    assert!(err.message().starts_with("解码失败: "));
}

#[test]
fn header_without_scheme_defaults_to_jpeg() {
    let (ct, bytes) = parse_data_url("xyz,aGk=").unwrap();
    assert_eq!(ct, "image/jpeg");
    assert_eq!(bytes, b"hi".to_vec());
}

#[test]
fn export_extension_follows_media_type() {
    assert_eq!(photo_export_ext("data:image/png;base64,xx"), "png");
    assert_eq!(photo_export_ext("data:text;base64,xx"), "jpeg");
    assert_eq!(photo_export_ext("data:a/b/c;x"), "b");
}
