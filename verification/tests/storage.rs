use degen_music_library::storage::{
    is_audio_key, kind_order, normalize_endpoint, ConnectError, ConnectionDetails, EndpointError,
    EntryKind, Storage,
};

fn details(endpoint: &str, region: &str, bucket: &str, access: &str, secret: &str) -> ConnectionDetails {
    ConnectionDetails {
        endpoint: endpoint.to_owned(),
        region: region.to_owned(),
        bucket: bucket.to_owned(),
        access_key: access.to_owned(),
        secret_key: secret.to_owned(),
    }
}

fn refusal(connection: &ConnectionDetails) -> ConnectError {
    match Storage::connect(connection) {
        Err(error) => error,
        Ok(storage) => panic!("connected to {}", storage.bucket()),
    }
}

#[test]
fn endpoint_defaults_to_https_and_drops_trailing_slash() {
    assert_eq!(
        normalize_endpoint("account.r2.cloudflarestorage.com/").unwrap(),
        "https://account.r2.cloudflarestorage.com"
    );
}

#[test]
fn audio_filter_is_case_insensitive_and_rejects_other_objects() {
    assert!(is_audio_key("Albums/Track.MP3"));
    assert!(is_audio_key("Albums/Track.flac"));
    assert!(!is_audio_key("Albums/cover.jpg"));
    assert!(!is_audio_key("Albums/no-extension"));
}

#[test]
fn audio_filter_uses_the_last_dot() {
    assert!(is_audio_key("a.jpg.WaVe"));
    assert!(!is_audio_key("a.mp3.jpg"));
    assert!(!is_audio_key("folder.mp3/cover"));
    assert!(is_audio_key(".ogg"));
    assert!(!is_audio_key("track."));
}

#[test]
fn endpoint_keeps_an_explicit_scheme_and_trims() {
    assert_eq!(normalize_endpoint("  http://127.0.0.1:9000//  ").unwrap(), "http://127.0.0.1:9000");
    assert_eq!(normalize_endpoint("HTTPS://Example.com").unwrap(), "HTTPS://Example.com");
}

#[test]
fn endpoint_refusals() {
    assert!(matches!(normalize_endpoint(" \t "), Err(EndpointError::Missing)));
    assert!(matches!(normalize_endpoint("ftp://example.com"), Err(EndpointError::NotHttp)));
    match normalize_endpoint("http://exa mple.com") {
        Err(EndpointError::Invalid(detail)) => assert!(!detail.is_empty()),
        other => panic!("unexpected {other:?}"),
    }
}

#[test]
fn connection_checks_each_field() {
    let ok = details("example.com", " auto ", " music ", " key ", "secret");
    let storage = match Storage::connect(&ok) {
        Ok(storage) => storage,
        Err(error) => panic!("{}", error.message()),
    };
    assert_eq!(storage.bucket(), "music");
    assert_eq!(storage.clone().bucket(), "music");

    let error = refusal(&details("", "auto", "b", "k", "s"));
    assert_eq!(error.message(), "S3 endpoint is required");
    let error = refusal(&details("ftp://x", "auto", "b", "k", "s"));
    assert_eq!(error.message(), "S3 endpoint must be an HTTP or HTTPS URL");
    let error = refusal(&details("example.com", " ", "b", "k", "s"));
    assert!(matches!(error, ConnectError::MissingRegion));
    assert_eq!(error.message(), "Region is required (Cloudflare R2 uses 'auto')");
    let error = refusal(&details("example.com", "auto", "", "k", "s"));
    assert_eq!(error.message(), "Bucket name is required");
    let error = refusal(&details("example.com", "auto", "b", "  ", "s"));
    assert_eq!(error.message(), "Access key ID and secret access key are required");
    let error = refusal(&details("example.com", "auto", "b", "k", ""));
    assert!(matches!(error, ConnectError::MissingKeys));
    let error = refusal(&details("http://[::1", "auto", "b", "k", "s"));
    assert!(error.message().starts_with("invalid S3 endpoint: "));
}

#[test]
fn scrub_empties_the_keys() {
    let mut connection = details("e", "r", "b", "access", "secret");
    connection.scrub();
    assert_eq!(connection.access_key, "");
    assert_eq!(connection.secret_key, "");
    assert_eq!(connection.endpoint, "e");
}

#[test]
fn folders_rank_before_tracks() {
    assert_eq!(kind_order(EntryKind::Folder), 0);
    assert_eq!(kind_order(EntryKind::Track), 1);
}
