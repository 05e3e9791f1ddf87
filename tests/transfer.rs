use talecast::transfer::{
    final_file_name, get_extension_from_response, partial_name, pick_extension, range_header,
    symlink_target, Transfer,
};

#[test]
fn range_header_from_offset() {
    assert_eq!(range_header(0), "bytes=0-");
    assert_eq!(range_header(1024), "bytes=1024-");
    assert_eq!(range_header(u64::MAX), format!("bytes={}-", u64::MAX));
}

#[test]
fn resumed_transfer_size() {
    let mut t = Transfer::resume(1000);
    assert_eq!(t.range(), "bytes=1000-");
    t.on_response(Some(500));
    assert_eq!(t.total(), 1500);
    for len in [200u64, 200, 100] {
        t.on_chunk(len);
    }
    assert_eq!(t.written, 1500);
    assert_eq!(t.progress(), 1500);
}

#[test]
fn progress_is_capped() {
    let mut t = Transfer::resume(0);
    t.on_response(None);
    t.on_chunk(10);
    assert_eq!(t.total(), 0);
    assert_eq!(t.progress(), 0);
    assert_eq!(t.written, 10);
}

#[test]
fn extension_choice() {
    assert_eq!(pick_extension(Some("mp3?x=1".to_string()), None), Some("mp3".to_string()));
    assert_eq!(
        pick_extension(None, Some(vec!["m2a".to_string(), "mp3".to_string()])),
        Some("mp3".to_string())
    );
    assert_eq!(
        pick_extension(None, Some(vec!["ogg".to_string(), "oga".to_string()])),
        Some("ogg".to_string())
    );
    assert_eq!(pick_extension(None, Some(vec![])), None);
    assert_eq!(pick_extension(None, None), None);
}

#[test]
fn extension_from_response() {
    assert_eq!(
        get_extension_from_response("https://x.org/a/ep.m4a?token=1", Some("audio/mpeg")),
        Some("m4a".to_string())
    );
    assert_eq!(
        get_extension_from_response("https://x.org/a/episode", Some("audio/mpeg")),
        Some("mp3".to_string())
    );
    assert_eq!(get_extension_from_response("https://x.org/a/episode", Some("nonsense")), None);
}

#[test]
fn partial_and_final_names() {
    assert_eq!(partial_name("a/b:c"), "abc.partial");
    assert_eq!(final_file_name("2024 Ep: one", Some("mp3")), "2024 Ep one.mp3");
    assert_eq!(final_file_name("plain", None), "plain");
    let long = "x".repeat(300);
    let name = final_file_name(&long, Some("mp3"));
    assert_eq!(name.len(), 255);
    assert!(name.ends_with(".mp3"));
}

#[test]
fn multibyte_names_keep_what_fits() {
    let long = "é".repeat(200);
    let name = final_file_name(&long, Some("mp3"));
    assert_eq!(name, format!("{}.mp3", "é".repeat(125)));
    assert!(name.len() <= 255);
}

#[test]
fn symlink_targets() {
    assert_eq!(symlink_target("/a/ep.mp3", "/links", "ep.mp3"), Some("/links/ep.mp3".to_string()));
    assert_eq!(symlink_target("/a/ep.mp3", "/links/", "ep.mp3"), Some("/links/ep.mp3".to_string()));
    assert_eq!(symlink_target("/a/ep.mp3", "/a", "ep.mp3"), None);
}
