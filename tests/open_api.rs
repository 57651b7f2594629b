use quickrest::http::{CharacterSet, HTTPMethod, HTTPStatus, MimeData, MimeSubType, MimeType, MultipartSubType};
use quickrest::open_api::{parse_method_str, parse_mime_types_string, parse_status_code, ParseContext};

#[test]
fn parse_mime_types() {
    let mut ctx = ParseContext::new();

    let unsupported = parse_mime_types_string(&mut ctx, "foo");
    let json = parse_mime_types_string(&mut ctx, "application/json");
    let xml = parse_mime_types_string(&mut ctx, "application/xml");
    let multipart_form_data = parse_mime_types_string(&mut ctx, "multipart/form-data");
    let vendor = parse_mime_types_string(
        &mut ctx,
        "application/vnd.tsdes.news+json;charset=UTF-8;version=2",
    );
    let json_utf_8 = parse_mime_types_string(&mut ctx, "application/json;charset=UTF-8");

    assert_eq!(unsupported, MimeData::new(MimeType::Unsupported, None));
    assert_eq!(
        json,
        MimeData::new(MimeType::Application(MimeSubType::Json), None)
    );
    assert_eq!(
        json_utf_8,
        MimeData::new(
            MimeType::Application(MimeSubType::Json),
            Some(CharacterSet::UTF_8)
        )
    );
    assert_eq!(
        xml,
        MimeData::new(MimeType::Application(MimeSubType::XML), None)
    );
    assert_eq!(
        vendor,
        MimeData::new(
            MimeType::Application(MimeSubType::Vendor),
            Some(CharacterSet::UTF_8)
        )
    );
    assert_eq!(
        multipart_form_data,
        MimeData::new(MimeType::Multipart(MultipartSubType::FormData), None)
    );
}

#[test]
fn unspecified_mime_type_warns() {
    let mut ctx = ParseContext::new();
    let any = parse_mime_types_string(&mut ctx, "*/*");
    assert_eq!(any, MimeData::new(MimeType::Unspecified, None));
    assert_eq!(ctx.warnings.len(), 1);
    let other = parse_mime_types_string(&mut ctx, "application/json;charset=ISO-8859-1");
    assert_eq!(other, MimeData::new(MimeType::Application(MimeSubType::Json), None));
    assert_eq!(ctx.warnings.len(), 1);
}

#[test]
fn status_codes_and_methods() {
    let mut ctx = ParseContext::new();
    assert_eq!(parse_status_code(&mut ctx, "200"), HTTPStatus::OK);
    assert_eq!(parse_status_code(&mut ctx, "405"), HTTPStatus::MethodNotAllowed);
    assert_eq!(parse_status_code(&mut ctx, "default"), HTTPStatus::Default);
    assert_eq!(ctx.warnings.len(), 0);
    assert_eq!(parse_status_code(&mut ctx, "418"), HTTPStatus::Unsupported);
    assert_eq!(ctx.warnings.len(), 1);
    assert_eq!(parse_method_str(&mut ctx, "post"), HTTPMethod::POST);
    assert_eq!(ctx.current_method, Some("post".to_string()));
    assert_eq!(parse_method_str(&mut ctx, "patch"), HTTPMethod::Unsupported);
    assert_eq!(ctx.warnings.len(), 2);
    assert_eq!(ctx.warnings[1].method, Some("patch".to_string()));
}
