use media_archiver::domain::MediaCategory;
use media_archiver::error::ArchiveError;
use media_archiver::identity::UrlOrigin;
use media_archiver::media::{
    candidate_executable_paths, decode_media_source, encode_media_source, final_file_name,
    is_remote_media, is_remote_media_for_host, lower_hex, parse_mxc_url, plan_remote_download,
    relative_storage_path, remote_media_candidate_paths, request_mime, same_origin, sha256_hex,
    storage_path_from, temp_download_path, temp_file_name, tries_direct_download,
    validate_downloaded_media, StoredMediaSource,
};
use media_archiver::paths::ensure_relative_to_root;

#[test]
fn mxc_urls_split_into_server_and_media_id() {
    assert_eq!(
        parse_mxc_url("mxc://example.org/abc123"),
        Some(("example.org".to_owned(), "abc123".to_owned()))
    );
    assert_eq!(parse_mxc_url("mxc://a/b/c"), Some(("a".to_owned(), "b/c".to_owned())));
    assert_eq!(parse_mxc_url("mxc://example.org/"), None);
    assert_eq!(parse_mxc_url("mxc:///abc"), None);
    assert_eq!(parse_mxc_url("mxc://example.org"), None);
    assert_eq!(parse_mxc_url("https://example.org/abc"), None);
}

#[test]
fn remote_media_is_media_of_another_host() {
    assert!(is_remote_media("mxc://other.org/abc", "https://matrix.example.org"));
    assert!(!is_remote_media("mxc://Matrix.Example.ORG:8448/abc", "https://matrix.example.org"));
    assert!(!is_remote_media("not-mxc", "https://matrix.example.org"));
    assert!(!is_remote_media("mxc://:8448/abc", "https://matrix.example.org"));
    assert!(is_remote_media_for_host("mxc://other.org/abc", None));
    assert!(!is_remote_media_for_host("mxc://other.org/abc", Some("OTHER.org")));
}

#[test]
fn direct_download_is_tried_only_for_plain_remote_media() {
    let plain = StoredMediaSource::Plain("mxc://other.org/abc".to_owned());
    let encrypted = StoredMediaSource::Encrypted("{}".to_owned());
    assert!(tries_direct_download(&plain, "https://matrix.example.org"));
    assert!(!tries_direct_download(&encrypted, "https://matrix.example.org"));
}

#[test]
fn candidate_paths_percent_encode_server_and_media() {
    assert_eq!(
        remote_media_candidate_paths("example.org:8448", "ab cd~é"),
        vec![
            "/_matrix/client/v1/media/download/example.org%3A8448/ab%20cd~%C3%A9".to_owned(),
            "/_matrix/media/v3/download/example.org%3A8448/ab%20cd~%C3%A9".to_owned(),
            "/_matrix/media/r0/download/example.org%3A8448/ab%20cd~%C3%A9".to_owned(),
        ]
    );
}

#[test]
fn remote_download_plan_sends_the_token_to_the_homeserver_only() {
    let plan = plan_remote_download("https://matrix.example.org", "mxc://other.org/abc", Some("tok"))
        .expect("plan")
        .expect("requests");
    assert_eq!(plan.len(), 3);
    assert_eq!(plan[0].url, "https://matrix.example.org/_matrix/client/v1/media/download/other.org/abc");
    assert_eq!(plan[1].url, "https://matrix.example.org/_matrix/media/v3/download/other.org/abc");
    assert_eq!(plan[2].url, "https://matrix.example.org/_matrix/media/r0/download/other.org/abc");
    for request in &plan {
        assert_eq!(request.bearer_token.as_deref(), Some("tok"));
    }
    let anonymous = plan_remote_download("https://matrix.example.org", "mxc://other.org/abc", None)
        .expect("plan")
        .expect("requests");
    assert!(anonymous.iter().all(|request| request.bearer_token.is_none()));
    assert!(plan_remote_download("https://matrix.example.org", "mxc://matrix.example.org/abc", Some("tok"))
        .expect("plan")
        .is_none());
    assert!(plan_remote_download("https://matrix.example.org", "bogus", Some("tok"))
        .expect("plan")
        .is_none());
    match plan_remote_download("not a url", "mxc://other.org/abc", Some("tok")) {
        Err(ArchiveError::InvalidUrl { url }) => assert_eq!(url, "not a url"),
        other => panic!("unexpected {:?}", other),
    }
    assert_eq!(
        ArchiveError::InvalidUrl { url: "x".to_owned() }.message(),
        "Invalid URL: x"
    );
}

#[test]
fn origins_compare_scheme_host_and_port() {
    let a = UrlOrigin { scheme: "https".to_owned(), host: Some("a.org".to_owned()), port: Some(443) };
    let b = UrlOrigin { scheme: "https".to_owned(), host: Some("a.org".to_owned()), port: Some(8448) };
    let c = UrlOrigin { scheme: "http".to_owned(), host: Some("a.org".to_owned()), port: Some(443) };
    assert!(same_origin(&a, &a.clone()));
    assert!(!same_origin(&a, &b));
    assert!(!same_origin(&a, &c));
}

#[test]
fn media_sources_round_trip_through_queue_text() {
    let encrypted = StoredMediaSource::Encrypted("{\"url\":\"mxc://a/b\"}".to_owned());
    let text = encode_media_source(&encrypted);
    assert_eq!(text, "encrypted:{\"url\":\"mxc://a/b\"}");
    match decode_media_source(&text) {
        StoredMediaSource::Encrypted(json) => assert_eq!(json, "{\"url\":\"mxc://a/b\"}"),
        other => panic!("unexpected {:?}", other),
    }
    let plain = StoredMediaSource::Plain("mxc://a/b".to_owned());
    assert_eq!(encode_media_source(&plain), "mxc://a/b");
    match decode_media_source("mxc://a/b") {
        StoredMediaSource::Plain(uri) => assert_eq!(uri, "mxc://a/b"),
        other => panic!("unexpected {:?}", other),
    }
}

#[test]
fn requests_use_the_job_mime_type_when_it_parses() {
    assert_eq!(request_mime(Some("image/png")), "image/png");
    assert_eq!(request_mime(Some("not a mime type")), "application/octet-stream");
    assert_eq!(request_mime(None), "application/octet-stream");
}

#[test]
fn file_names_for_temporary_and_stored_files() {
    assert_eq!(temp_file_name("id", Some("png")), "id.png");
    assert_eq!(temp_file_name("id", Some("")), "id");
    assert_eq!(temp_file_name("id", None), "id");
    assert_eq!(final_file_name("abc", Some("png")), "abc.png");
    assert_eq!(final_file_name("abc", None), "abc");
    let path = temp_download_path("/tmp/downloads", Some("jpg"));
    assert!(path.starts_with("/tmp/downloads/"));
    assert!(path.ends_with(".jpg"));
    assert_eq!(path.len(), "/tmp/downloads/".len() + 36 + ".jpg".len());
    let other = temp_download_path("/tmp/downloads", Some("jpg"));
    assert_ne!(path, other);
}

#[test]
fn executable_candidates_join_the_directory() {
    assert_eq!(candidate_executable_paths("/usr/bin", "ffprobe"), vec!["/usr/bin/ffprobe".to_owned()]);
    assert_eq!(candidate_executable_paths("/usr/bin/", "ffmpeg"), vec!["/usr/bin/ffmpeg".to_owned()]);
}

#[test]
fn stored_paths_are_recorded_relative_to_the_root() {
    assert_eq!(
        relative_storage_path("/data/archive", "/data/archive/Room/Images/x.png"),
        "Room/Images/x.png"
    );
    assert_eq!(relative_storage_path("/data/archive", "/other/x.png"), "other/x.png");
    assert_eq!(relative_storage_path("/data", "/data/a\\b.png"), "a/b.png");
    assert_eq!(relative_storage_path("/data/arch", "/data/archive/x.png"), "data/archive/x.png");
    assert_eq!(storage_path_from(Some("\\\\x/y".to_owned()), "ignored"), "x/y");
    assert_eq!(storage_path_from(None, "/a/b"), "a/b");
}

#[test]
fn ensure_relative_to_root_strips_the_root_folder() {
    assert_eq!(ensure_relative_to_root("/root", "/root/a/b").expect("inside"), "a/b");
    match ensure_relative_to_root("/root", "/rooted/a") {
        Err(error) => assert_eq!(error.message(), "Path /rooted/a is not inside root /root"),
        Ok(value) => panic!("unexpected {}", value),
    }
    assert!(ensure_relative_to_root("/root", "/root").is_err());
}

#[test]
fn content_hash_is_lowercase_sha256() {
    assert_eq!(
        sha256_hex(b""),
        "e3b0c44298fc1c149afbf4c8996fb92427ae41e4649b934ca495991b7852b855"
    );
    assert_eq!(
        sha256_hex(b"abc"),
        "ba7816bf8f01cfea414140de5dae2223b00361a396177a9cb410ff61f20015ad"
    );
    assert_eq!(lower_hex(&[0x00, 0xab, 0xff, 0x10]), "00abff10");
}

fn tiny_png() -> Vec<u8> {
    let image = image::RgbImage::new(2, 2);
    let mut bytes = std::io::Cursor::new(Vec::new());
    image.write_to(&mut bytes, image::ImageFormat::Png).expect("encode png");
    bytes.into_inner()
}

#[test]
fn downloaded_media_is_checked_before_storing() {
    assert!(matches!(
        validate_downloaded_media(&[], MediaCategory::Images),
        Err(ArchiveError::EmptyFile)
    ));
    assert!(matches!(
        validate_downloaded_media(&[], MediaCategory::Videos),
        Err(ArchiveError::EmptyFile)
    ));
    assert!(matches!(
        validate_downloaded_media(&[1, 2, 3], MediaCategory::Images),
        Err(ArchiveError::UndecodableImage)
    ));
    assert!(validate_downloaded_media(&[1, 2, 3], MediaCategory::Videos).is_ok());
    assert!(validate_downloaded_media(&[1, 2, 3], MediaCategory::Other).is_ok());
    assert!(validate_downloaded_media(&tiny_png(), MediaCategory::Images).is_ok());
    assert_eq!(ArchiveError::EmptyFile.message(), "file is empty");
    assert_eq!(ArchiveError::UndecodableImage.message(), "Downloaded image could not be decoded");
}
