use danmaku::align::EpisodeKind;
use danmaku::ident::ResolveError;
use danmaku::service::{
    auth_headers_at, build_auth_headers, calculate_signature, get_timestamp, timestamp_from, comment_path, search_path, DandanplayService,
};

#[test]
fn test_calculate_signature() {
    let app_id = "test_app_id";
    let timestamp = 1234567890i64;
    let path = "/api/v2/comment/123450001";
    let app_secret = "test_app_secret";

    let signature = calculate_signature(app_id, timestamp, path, app_secret);
    assert!(!signature.is_empty());
    assert!(
        signature
            .chars()
            .all(|c| c.is_ascii_alphanumeric() || c == '+' || c == '/' || c == '=')
    );
}

#[test]
fn signature_is_base64_of_sha256() {
    assert_eq!(
        calculate_signature("test_app_id", 1234567890, "/api/v2/comment/123450001", "test_app_secret"),
        "rFXjmcXSLKs+H8AFvB+Pbh9FHqA6c7VkcDgQPb8WMLQ="
    );
    assert_eq!(
        calculate_signature("id", -5, "/p", "secret"),
        "kYcUpRvfD5wiRZvaBf/FMJPDwWa/zqIcsZubZg3yMaU="
    );
}

#[test]
fn headers_need_credentials() {
    let s = DandanplayService { app_id: String::new(), app_secret: "x".to_string() };
    assert!(!s.is_auth_configured());
    assert_eq!(s.ensure_auth_configured(), Err(ResolveError::ConfigurationError));
    assert_eq!(build_auth_headers(&s, "/p").err(), Some(ResolveError::ConfigurationError));
}

#[test]
fn headers_carry_signature_of_their_timestamp() {
    let s = DandanplayService { app_id: "id".to_string(), app_secret: "secret".to_string() };
    assert!(s.is_auth_configured());
    assert_eq!(s.ensure_auth_configured(), Ok(()));
    let h = build_auth_headers(&s, "/p").unwrap();
    assert_eq!(h[0], ("X-AppId".to_string(), "id".to_string()));
    assert_eq!(h[1].0, "X-Signature");
    assert_eq!(h[2].0, "X-Timestamp");
    let t: i64 = h[2].1.parse().unwrap();
    assert!(t > 0);
    assert_eq!(h[1].1, calculate_signature("id", t, "/p", "secret"));
}

#[test]
fn request_paths_are_built() {
    assert_eq!(comment_path(123450001), "/api/v2/comment/123450001?withRelated=true");
    assert_eq!(
        search_path("a b&c", EpisodeKind::Tv),
        "/api/v2/search/anime?keyword=a+b%26c&type=tv"
    );
    assert_eq!(
        search_path("\u{e9}", EpisodeKind::Ova),
        "/api/v2/search/anime?keyword=%C3%A9&type=ova"
    );
    assert_eq!(
        DandanplayService::url("/api/v2/match"),
        "https://api.dandanplay.net/api/v2/match"
    );
}

#[test]
fn clock_reads_after_the_epoch() {
    let t = get_timestamp().unwrap();
    assert!(t > 1_600_000_000);
}

#[test]
fn clock_readings_become_timestamps() {
    assert_eq!(timestamp_from(Some(1234567890)), Some(1234567890));
    assert_eq!(timestamp_from(Some(u64::MAX)), None);
    assert_eq!(timestamp_from(None), None);
}

#[test]
fn headers_at_a_given_time() {
    let s = DandanplayService {
        app_id: "test_app_id".to_string(),
        app_secret: "test_app_secret".to_string(),
    };
    let h = auth_headers_at(&s, "/api/v2/comment/123450001", 1234567890);
    assert_eq!(h[0], ("X-AppId".to_string(), "test_app_id".to_string()));
    assert_eq!(
        h[1],
        ("X-Signature".to_string(), "rFXjmcXSLKs+H8AFvB+Pbh9FHqA6c7VkcDgQPb8WMLQ=".to_string())
    );
    assert_eq!(h[2], ("X-Timestamp".to_string(), "1234567890".to_string()));
}
