use arena_core::archive::FileSet;
use arena_core::dispatch::{
    interpret_send_outcome, HttpOutcome, Judge0Service, SubmissionRequest, MULTIFILE_LANGUAGE_ID,
};
use arena_core::AppError;

#[test]
fn submission_url_appends_fixed_path() {
    let service = Judge0Service::new("http://judge0:2358");
    assert_eq!(service.submission_url(), "http://judge0:2358/submissions/?wait=false");
}

#[test]
fn transport_failure_is_network() {
    let r = interpret_send_outcome(&HttpOutcome::TransportFailure);
    assert!(matches!(r, Err(AppError::Network)));
}

#[test]
fn body_without_token_is_decode_error() {
    for body in [
        "{}",
        "{\"other\":\"x\"}",
        "",
        "null",
        "{\"token\":5}",
        "token",
        "{\"token\":\"a\",\"token\":\"b\"}",
        "{\"token\":\"a\"} trailing",
    ] {
        let r = interpret_send_outcome(&HttpOutcome::Response { body: body.to_string() });
        assert!(matches!(r, Err(AppError::DecodeError)));
    }
}

#[test]
fn token_is_found_among_other_members() {
    for body in [
        "{\"token\":\"abc123\",\"queued\":true}",
        "{\"queued\":false,\"token\":\"abc123\"}",
        "{\"attempt\":-2.5e3,\"token\":\"abc123\",\"note\":\"ok\",\"extra\":null}",
    ] {
        let r = interpret_send_outcome(&HttpOutcome::Response { body: body.to_string() });
        assert_eq!(r.unwrap().token, "abc123");
    }
}

#[test]
fn acknowledged_token_is_returned() {
    let r = interpret_send_outcome(&HttpOutcome::Response {
        body: "{\"token\":\"abc123\"}".to_string(),
    });
    assert_eq!(r.unwrap().token, "abc123");
}

#[test]
fn token_parsing_accepts_whitespace_and_escapes() {
    let r = interpret_send_outcome(&HttpOutcome::Response {
        body: " {\n\t\"token\" : \"a\\\"b\\\\c\\n\" } ".to_string(),
    });
    assert_eq!(r.unwrap().token, "a\"b\\c\n");
}

#[test]
fn multifile_request_packages_both_files() {
    let mut files = FileSet::new();
    assert!(files.insert("main.py".to_string(), b"print(1)".to_vec()));
    assert!(files.insert("helper.py".to_string(), b"x=1".to_vec()));
    let service = Judge0Service::new("http://judge0:2358");
    let req = service
        .multifile_request(&files, "http://example.com/callback".to_string())
        .unwrap();
    assert_eq!(req.language_id, MULTIFILE_LANGUAGE_ID);
    assert_eq!(req.callback_url.as_deref(), Some("http://example.com/callback"));

    // Decode and unzip the payload with the real codecs: both files must
    // come back byte for byte.
    let bytes = base64::Engine::decode(
        &base64::engine::general_purpose::STANDARD,
        req.additional_files.as_str(),
    )
    .unwrap();
    let mut archive = zip::ZipArchive::new(std::io::Cursor::new(bytes)).unwrap();
    let mut main_src = String::new();
    std::io::Read::read_to_string(&mut archive.by_name("main.py").unwrap(), &mut main_src).unwrap();
    assert_eq!(main_src, "print(1)");
    let mut helper_src = String::new();
    std::io::Read::read_to_string(&mut archive.by_name("helper.py").unwrap(), &mut helper_src)
        .unwrap();
    assert_eq!(helper_src, "x=1");

    // Sent to a stub that echoes an acknowledgement, the dispatch yields
    // that token.
    let r = interpret_send_outcome(&HttpOutcome::Response {
        body: "{\"token\":\"abc123\"}".to_string(),
    });
    assert_eq!(r.unwrap().token, "abc123");
}

#[test]
fn multifile_request_succeeds_on_empty_set() {
    let files = FileSet::new();
    let service = Judge0Service::new("http://judge0:2358");
    let req = service
        .multifile_request(&files, "http://example.com/callback".to_string())
        .unwrap();
    assert_eq!(req.language_id, MULTIFILE_LANGUAGE_ID);
    let out = arena_core::archive::unpack_archive(req.additional_files.as_str()).unwrap();
    assert_eq!(out.len(), 0);
}

#[test]
fn request_body_is_the_wire_json() {
    let service = Judge0Service::new("http://judge0:2358");
    let req = SubmissionRequest {
        language_id: 89,
        additional_files: "UEsFBg==".to_string(),
        callback_url: Some("http://example.com/cb".to_string()),
    };
    let body = service.submission_request_body(&req);
    assert_eq!(
        body,
        "{\"languageId\":89,\"additionalFiles\":\"UEsFBg==\",\"callbackUrl\":\"http://example.com/cb\"}"
    );

    let parsed: serde_json::Value = serde_json::from_str(body.as_str()).unwrap();
    assert_eq!(parsed.get("languageId").unwrap().as_i64(), Some(89));
    assert_eq!(
        parsed.get("additionalFiles").unwrap().as_str(),
        Some("UEsFBg==")
    );
    assert_eq!(
        parsed.get("callbackUrl").unwrap().as_str(),
        Some("http://example.com/cb")
    );
}

#[test]
fn request_body_renders_extreme_language_id() {
    let service = Judge0Service::new("http://judge0:2358");
    let req = SubmissionRequest {
        language_id: i64::MIN,
        additional_files: "".to_string(),
        callback_url: None,
    };
    let body = service.submission_request_body(&req);
    assert_eq!(
        body,
        "{\"languageId\":-9223372036854775808,\"additionalFiles\":\"\",\"callbackUrl\":null}"
    );
}

#[test]
fn request_body_renders_null_callback_and_negative_id() {
    let service = Judge0Service::new("http://judge0:2358");
    let req = SubmissionRequest {
        language_id: -7,
        additional_files: "".to_string(),
        callback_url: None,
    };
    let body = service.submission_request_body(&req);
    assert_eq!(body, "{\"languageId\":-7,\"additionalFiles\":\"\",\"callbackUrl\":null}");
    let parsed: serde_json::Value = serde_json::from_str(body.as_str()).unwrap();
    assert_eq!(parsed.get("languageId").unwrap().as_i64(), Some(-7));
    assert!(parsed.get("callbackUrl").unwrap().is_null());
}
