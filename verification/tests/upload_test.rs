use fp::github::{link_header_readable, mime_type_for_extension, mime_type_from_filename, parse_next_link, s3_upload_failed,
    upload_cookie_header};

#[test]
fn mime_types_follow_the_extension() {
    assert_eq!(mime_type_from_filename("shot.png"), "image/png");
    assert_eq!(mime_type_from_filename("Shot.JPG"), "image/jpeg");
    assert_eq!(mime_type_from_filename("a.b.jpeg"), "image/jpeg");
    assert_eq!(mime_type_from_filename("anim.gif"), "image/gif");
    assert_eq!(mime_type_from_filename("pic.webp"), "image/webp");
    assert_eq!(mime_type_from_filename("logo.svg"), "image/svg+xml");
    assert_eq!(mime_type_from_filename("notes.txt"), "application/octet-stream");
    assert_eq!(mime_type_from_filename("png"), "image/png");
}

#[test]
fn cookie_header_carries_the_session_twice() {
    assert_eq!(upload_cookie_header("abc"), "user_session=abc; __Host-user_session_same_site=abc");
}

#[test]
fn storage_upload_status() {
    assert!(!s3_upload_failed(200));
    assert!(!s3_upload_failed(204));
    assert!(!s3_upload_failed(299));
    assert!(s3_upload_failed(300));
    assert!(s3_upload_failed(403));
}

#[test]
fn next_page_link() {
    let h = "<https://api.github.com/x?page=2>; rel=\"next\", <https://api.github.com/x?page=5>; rel=\"last\"";
    assert!(link_header_readable(h));
    assert_eq!(parse_next_link(h), Some("https://api.github.com/x?page=2".to_string()));
    let last = "<https://api.github.com/x?page=1>; rel=\"prev\", <https://api.github.com/x?page=5>; rel=\"last\"";
    assert_eq!(parse_next_link(last), None);
    assert_eq!(parse_next_link(""), None);
    assert!(!link_header_readable(">x<; rel=\"next\""));
}

#[test]
fn mime_types_of_lowered_extensions() {
    assert_eq!(mime_type_for_extension("jpeg"), "image/jpeg");
    assert_eq!(mime_type_for_extension("JPEG"), "application/octet-stream");
    assert_eq!(mime_type_for_extension(""), "application/octet-stream");
}

#[test]
fn parse_upload_policy_response_extracts_fields() {
    let json = r#"{
        "upload_url": "https://s3.example.com/upload",
        "asset": {"id": 42, "href": "https://github.com/user-attachments/assets/abc"},
        "form": {"key": "val1", "Content-Type": "image/png"},
        "asset_upload_authenticity_token": "auth-tok-xyz"
    }"#;
    let policy = fp::github::parse_upload_policy_response(json).unwrap();
    assert_eq!(policy.upload_url, "https://s3.example.com/upload");
    assert_eq!(policy.asset_id, 42);
    assert_eq!(policy.asset_href, "https://github.com/user-attachments/assets/abc");
    assert_eq!(policy.asset_upload_authenticity_token, "auth-tok-xyz");
    assert_eq!(policy.form_fields.iter().find(|(k, _)| k == "key").map(|(_, v)| v.as_str()), Some("val1"));
}

#[test]
fn upload_policy_names_the_first_missing_field() {
    let missing_id = r#"{"upload_url": "u", "asset": {"href": "h"}, "asset_upload_authenticity_token": "t"}"#;
    assert_eq!(fp::github::parse_upload_policy_response(missing_id).err().unwrap(), "missing asset.id");
    let missing_all = r#"{}"#;
    assert_eq!(fp::github::parse_upload_policy_response(missing_all).err().unwrap(), "missing upload_url");
    let missing_token = r#"{"upload_url": "u", "asset": {"id": 7, "href": "h"}}"#;
    assert_eq!(fp::github::parse_upload_policy_response(missing_token).err().unwrap(),
        "missing asset_upload_authenticity_token");
    assert!(fp::github::parse_upload_policy_response("{").is_err());
}

#[test]
fn upload_policy_form_values_that_are_not_text_are_blank() {
    let json = r#"{"upload_url": "u", "asset": {"id": 7, "href": "h"}, "asset_upload_authenticity_token": "t",
        "form": {"n": 5}}"#;
    let policy = fp::github::parse_upload_policy_response(json).unwrap();
    assert_eq!(policy.form_fields, vec![("n".to_string(), String::new())]);
}
