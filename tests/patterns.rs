use talecast::patterns::{
    Attributes, EvalData, FullPattern, PatternError, RawPodcast, SourceType, Sources, APPNAME,
    NULL_VALUE,
};

fn episode() -> Attributes {
    Attributes {
        title: "First light".to_string(),
        url: "https://example.com/ep1.mp3".to_string(),
        mime: Some("audio/mpeg".to_string()),
        guid: "guid-1".to_string(),
        published: 86400,
        raw: vec![
            ("title".to_string(), "First light".to_string()),
            ("itunes:episode".to_string(), "7".to_string()),
        ],
    }
}

fn podcast() -> RawPodcast {
    RawPodcast::new(
        "Night Show".to_string(),
        vec![("title".to_string(), "The Night Show".to_string())],
    )
}

fn all_data() -> EvalData {
    EvalData::new(
        Some(podcast()),
        Some(episode()),
        Some(vec![("TALB".to_string(), "Album".to_string())]),
    )
}

fn all_sources() -> Sources {
    Sources::new(true, true, true)
}

#[test]
fn plain_template_is_unchanged() {
    for t in ["", "plain text", "a/b c.mp3", "ünïcode"] {
        let p = FullPattern::from_str(t, Sources::new(false, false, false)).unwrap();
        let empty = EvalData::new(None, None, None);
        assert_eq!(p.evaluate_at(&empty, 0, &None), t);
        assert_eq!(p.evaluate_at(&all_data(), 12345, &Some("/home/x".to_string())), t);
    }
}

#[test]
fn missing_source_is_refused_and_present_source_accepted() {
    let t = "{guid}.mp3";
    match FullPattern::from_str(t, Sources::new(false, true, true)) {
        Err(PatternError::MissingSource { template, source }) => {
            assert_eq!(template, t);
            assert_eq!(source, SourceType::Episode);
        }
        other => panic!("unexpected {:?}", other),
    }
    assert!(FullPattern::from_str(t, Sources::new(true, false, false)).is_ok());
    let tracker = "{home}/{podname}/.downloaded";
    assert!(FullPattern::from_str(tracker, Sources::new(false, true, false)).is_ok());
    assert!(matches!(
        FullPattern::from_str("{id3::TALB}", Sources::new(true, true, false)),
        Err(PatternError::MissingSource { source: SourceType::Tags, .. })
    ));
}

#[test]
fn syntax_errors_echo_the_template() {
    assert!(matches!(
        FullPattern::from_str("a}b", all_sources()),
        Err(PatternError::UnexpectedClose { ref template }) if template == "a}b"
    ));
    assert!(matches!(
        FullPattern::from_str("{a{b}}", all_sources()),
        Err(PatternError::NestedOpen { .. })
    ));
    assert!(matches!(
        FullPattern::from_str("x{guid", all_sources()),
        Err(PatternError::Unclosed { .. })
    ));
    match FullPattern::from_str("x{bogus}", all_sources()) {
        Err(PatternError::UnknownToken { template, span }) => {
            assert_eq!(template, "x{bogus}");
            assert_eq!(span, "bogus");
        }
        other => panic!("unexpected {:?}", other),
    }
    assert!(matches!(
        FullPattern::from_str("{pubdate::}", all_sources()),
        Err(PatternError::UnknownToken { .. })
    ));
}

#[test]
fn tokens_evaluate() {
    let p = FullPattern::from_str(
        "{podname}/{guid} {url} {appname} {home} {rss::episode::itunes:episode} {rss::channel::title} {id3::TALB}",
        all_sources(),
    )
    .unwrap();
    let out = p.evaluate_at(&all_data(), 0, &Some("/home/me".to_string()));
    assert_eq!(
        out,
        format!(
            "Night Show/guid-1 https://example.com/ep1.mp3 {} /home/me 7 The Night Show Album",
            APPNAME
        )
    );
}

#[test]
fn missing_attribute_gives_sentinel() {
    let p = FullPattern::from_str("[{rss::episode::nope}]", all_sources()).unwrap();
    assert_eq!(p.evaluate_at(&all_data(), 0, &None), format!("[{}]", NULL_VALUE));
    let h = FullPattern::from_str("{home}", all_sources()).unwrap();
    assert_eq!(h.evaluate_at(&all_data(), 0, &None), NULL_VALUE);
}

#[test]
fn dates_evaluate() {
    let p = FullPattern::from_str("{pubdate::unix}|{pubdate::%Y-%m-%d}|{currdate::unix}", all_sources())
        .unwrap();
    assert_eq!(p.evaluate_at(&all_data(), -5, &None), "86400|1970-01-02|-5");
    let c = FullPattern::from_str("{currdate::%Y}", Sources::new(false, false, false)).unwrap();
    assert_eq!(c.evaluate_at(&EvalData::new(None, None, None), 1_700_000_000, &None), "2023");
    let bad = FullPattern::from_str("{pubdate::%Q}", all_sources()).unwrap();
    assert_eq!(bad.evaluate_at(&all_data(), 0, &None), NULL_VALUE);
}

#[test]
fn evaluate_uses_current_time() {
    let p = FullPattern::from_str("{currdate::unix}", Sources::new(false, false, false)).unwrap();
    let out = p.evaluate(&EvalData::new(None, None, None));
    let secs: i64 = out.parse().unwrap();
    assert!(secs > 1_600_000_000);
}

#[test]
fn raw_lookups() {
    let e = episode();
    assert_eq!(e.get_str("itunes:episode"), Some("7".to_string()));
    assert_eq!(e.get_str("missing"), None);
    assert_eq!(podcast().get_str("title"), Some("The Night Show".to_string()));
    assert_eq!(e.title(), "First light");
    assert_eq!(e.guid(), "guid-1");
    assert_eq!(e.published(), 86400);
}
