use talecast::config::{
    long_offset,
    Config, ConfigOption, DownloadMode, GlobalConfig, IndicatifSettings, LogConfig, LogLevel,
    ModeError, PodcastConfig, PodcastConfigs, SearchSettings,
};
use talecast::patterns::{Attributes, EvalData, PatternError, RawPodcast};

fn global() -> GlobalConfig {
    GlobalConfig {
        download_path: "{home}/talecast/{podname}".to_string(),
        partial_path: None,
        name_pattern: "{pubdate::%Y-%m-%d} {rss::episode::title}".to_string(),
        id_pattern: "{guid}".to_string(),
        max_days: None,
        max_episodes: Some(10),
        earliest_date: None,
        id3_tags: vec![("TPE1".to_string(), "Global".to_string()), ("TCON".to_string(), "Podcast".to_string())],
        download_hook: Some("/bin/hook".to_string()),
        tracker_path: None,
        style: IndicatifSettings {
            enabled: None,
            download_bar: None,
            completed: Some("done {msg}".to_string()),
            hooks: None,
            spinner_speed: None,
            title_length: Some(20),
        },
        user_agent: None,
        search: SearchSettings { max_results: None, line_width: Some(100), pattern: None },
        symlink: None,
        log: LogConfig { path: None, level: None, third_party: Some(false) },
    }
}

fn data() -> EvalData {
    EvalData::new(
        Some(RawPodcast::new("Show".to_string(), vec![])),
        Some(Attributes {
            title: "Hello".to_string(),
            url: "https://e.org/1.mp3".to_string(),
            mime: None,
            guid: "g 1".to_string(),
            published: 0,
            raw: vec![("title".to_string(), "Hello".to_string())],
        }),
        None,
    )
}

#[test]
fn config_option_resolution() {
    assert_eq!(ConfigOption::Enabled(3).into_val(Some(5)), Some(3));
    assert_eq!(ConfigOption::<i32>::Disabled.into_val(Some(5)), None);
    assert_eq!(ConfigOption::<i32>::UseGlobal.into_val(Some(5)), Some(5));
    assert_eq!(ConfigOption::<i32>::UseGlobal.into_val(None), None);
    assert!(ConfigOption::Enabled(1).is_enabled());
    assert!(!ConfigOption::<i32>::UseGlobal.is_enabled());
}

#[test]
fn config_merge_evaluates_templates() {
    let mut feed = PodcastConfig::new("https://e.org/feed".to_string());
    feed.id3_tags = vec![("TPE1".to_string(), "Feed".to_string())];
    feed.download_hook = ConfigOption::Disabled;
    let c = Config::new_at(&global(), &feed, &data(), 0, &Some("/home/u".to_string())).unwrap();
    assert_eq!(c.url, "https://e.org/feed");
    assert_eq!(c.download_path, "/home/u/talecast/Show");
    assert_eq!(c.tracker_path, "/home/u/talecast/Show/.downloaded");
    assert_eq!(c.name_pattern, "1970-01-01 Hello");
    assert_eq!(c.id_pattern, "g 1");
    assert_eq!(c.symlink, None);
    assert_eq!(c.partial_path, None);
    assert_eq!(c.download_hook, None);
    assert_eq!(
        c.id3_tags,
        vec![("TPE1".to_string(), "Feed".to_string()), ("TCON".to_string(), "Podcast".to_string())]
    );
}

#[test]
fn tracker_path_cannot_read_the_episode() {
    let mut feed = PodcastConfig::new("u".to_string());
    feed.tracker_path = ConfigOption::Enabled("/t/{guid}".to_string());
    let r = Config::new_at(&global(), &feed, &data(), 0, &None);
    assert!(matches!(r, Err(PatternError::MissingSource { .. })));
    let mut feed = PodcastConfig::new("u".to_string());
    feed.download_path = Some("/d/".to_string());
    let c = Config::new_at(&global(), &feed, &data(), 0, &None).unwrap();
    assert_eq!(c.tracker_path, "/d/.downloaded");
    let mut feed = PodcastConfig::new("u".to_string());
    feed.name_pattern = Some("{oops}".to_string());
    assert!(matches!(
        Config::new_at(&global(), &feed, &data(), 0, &None),
        Err(PatternError::UnknownToken { .. })
    ));
    assert!(Config::new(&global(), &PodcastConfig::new("u".to_string()), &data()).is_ok());
}

#[test]
fn standard_mode_from_settings() {
    let mut feed = PodcastConfig::new("u".to_string());
    feed.max_days = ConfigOption::Enabled(2);
    match DownloadMode::from_settings(&global(), &feed, None, None) {
        Ok(DownloadMode::Standard { max_time, earliest_date, max_episodes }) => {
            assert_eq!(max_time, Some(2 * 86400));
            assert_eq!(earliest_date, None);
            assert_eq!(max_episodes, Some(10));
        }
        other => panic!("unexpected {:?}", other),
    }
    feed.earliest_date = ConfigOption::Enabled("garbage".to_string());
    assert!(matches!(
        DownloadMode::from_settings(&global(), &feed, None, None),
        Err(ModeError::InvalidEarliestDate)
    ));
    assert!(matches!(
        DownloadMode::new(&global(), &feed),
        Err(ModeError::InvalidEarliestDate)
    ));
    feed.max_days = ConfigOption::Enabled(i64::MAX);
    feed.earliest_date = ConfigOption::UseGlobal;
    assert!(matches!(DownloadMode::from_settings(&global(), &feed, None, None), Err(ModeError::OutOfRange)));
}

#[test]
fn backlog_mode_from_settings() {
    let mut feed = PodcastConfig::new("u".to_string());
    feed.backlog_start = Some("2024-01-01".to_string());
    assert!(matches!(
        DownloadMode::from_settings(&global(), &feed, None, Some(5)),
        Err(ModeError::MissingBacklogInterval)
    ));
    feed.backlog_interval = Some(3);
    match DownloadMode::from_settings(&global(), &feed, None, Some(1_704_067_200)) {
        Ok(DownloadMode::Backlog { start, interval, max_episodes }) => {
            assert_eq!(start, 1_704_067_200);
            assert_eq!(interval, 3 * 86400);
            assert_eq!(max_episodes, Some(10));
        }
        other => panic!("unexpected {:?}", other),
    }
    assert!(matches!(DownloadMode::new(&global(), &feed), Ok(DownloadMode::Backlog { .. })));
    assert!(matches!(
        DownloadMode::from_settings(&global(), &feed, None, None),
        Err(ModeError::InvalidBacklogStart)
    ));
    feed.backlog_interval = Some(0);
    assert!(matches!(
        DownloadMode::from_settings(&global(), &feed, None, Some(1)),
        Err(ModeError::InvalidBacklogInterval)
    ));
    feed.backlog_interval = Some(1);
    feed.earliest_date = ConfigOption::Enabled("2024-01-01".to_string());
    assert!(matches!(
        DownloadMode::from_settings(&global(), &feed, Some(1), Some(1)),
        Err(ModeError::IncompatibleWithBacklog)
    ));
    let mut only_interval = PodcastConfig::new("u".to_string());
    only_interval.backlog_interval = Some(1);
    assert!(matches!(
        DownloadMode::from_settings(&global(), &only_interval, None, None),
        Err(ModeError::MissingBacklogStart)
    ));
}

#[test]
fn catch_up_sets_earliest_date() {
    let mut feed = PodcastConfig::new("u".to_string());
    assert!(feed.catch_up("2024-05-01 00:00:00".to_string()));
    assert!(matches!(feed.earliest_date, ConfigOption::Enabled(ref d) if d == "2024-05-01 00:00:00"));
    let mut backlog = PodcastConfig::new("u".to_string());
    backlog.backlog_interval = Some(1);
    assert!(!backlog.catch_up("x".to_string()));
    assert!(matches!(backlog.earliest_date, ConfigOption::UseGlobal));
}

#[test]
fn settings_defaults() {
    let g = global();
    assert_eq!(g.max_search_results(), 9);
    assert_eq!(g.max_line_width(), 100);
    assert!(g.user_agent().starts_with("Mozilla/5.0"));
    assert_eq!(g.search_settings().pattern(), "{collectionName} - {artistName}");
    let s = g.style();
    assert_eq!(s.completion_template(), "done {msg}");
    assert_eq!(s.error_template(), "❌ {msg}");
    assert_eq!(s.hook_template(), "{spinner:.green} finishing up download hooks...");
    assert_eq!(s.spinner_speed(), 100);
    assert_eq!(s.title_length(), 20);
    assert!(s.enabled());
    assert!(s.download_template().contains("{bar:15.cyan/blue}"));
    assert_eq!(IndicatifSettings::podcast_fetch_template(), "{spinner:.green}  {msg}fetching podcast...");
    assert_eq!(g.log().level(), LogLevel::Trace);
    assert!(!g.log().third_party());
    assert_eq!(g.log().path(), None);
}

#[test]
fn subscription_list() {
    let mut feeds = PodcastConfigs::new();
    assert!(feeds.is_empty());
    assert_eq!(feeds.longest_name(), None);
    assert!(feeds.push("short".to_string(), PodcastConfig::new("a".to_string())));
    assert!(feeds.push("längerer".to_string(), PodcastConfig::new("b".to_string())));
    assert!(!feeds.push("short".to_string(), PodcastConfig::new("c".to_string())));
    assert_eq!(feeds.len(), 2);
    assert_eq!(feeds.longest_name(), Some(8));
    feeds.extend(vec![
        ("short".to_string(), PodcastConfig::new("d".to_string())),
        ("new".to_string(), PodcastConfig::new("e".to_string())),
    ]);
    assert_eq!(feeds.len(), 3);
    assert!(feeds.contains_name("new"));
    assert_eq!(feeds.0[0].1.url, "a");
}

#[test]
fn filter_by_name() {
    let mut feeds = PodcastConfigs::new();
    for name in ["Alpha", "beta", "Gamma"] {
        feeds.push(name.to_string(), PodcastConfig::new(name.to_string()));
    }
    let kept = feeds.clone().filter(Some("(?i)^[ab]")).unwrap();
    let names: Vec<&str> = kept.0.iter().map(|(n, _)| n.as_str()).collect();
    assert_eq!(names, vec!["Alpha", "beta"]);
    assert_eq!(feeds.clone().filter(None).unwrap().len(), 3);
    assert!(feeds.filter(Some("(")).is_none());
}

#[test]
fn defaults() {
    let g = GlobalConfig::default();
    assert_eq!(g.download_path, "{home}/talecast/{podname}");
    assert_eq!(g.name_pattern, "{pubdate::%Y-%m-%d} {rss::episode::title}");
    assert_eq!(g.id_pattern, "{guid}");
    assert_eq!(g.max_episodes, Some(10));
    assert!(g.style.is_default());
    assert!(g.search.is_default());
    assert!(g.log.is_default());
    assert!(!global().style.is_default());
    assert!(matches!(
        DownloadMode::default(),
        DownloadMode::Standard { max_time: None, earliest_date: None, max_episodes: None }
    ));
}

#[test]
fn save_modified_overlays() {
    let mut all = PodcastConfigs::new();
    all.push("a".to_string(), PodcastConfig::new("old-a".to_string()));
    all.push("b".to_string(), PodcastConfig::new("old-b".to_string()));
    let mut changed = PodcastConfigs::new();
    changed.push("b".to_string(), PodcastConfig::new("new-b".to_string()));
    changed.push("c".to_string(), PodcastConfig::new("new-c".to_string()));
    changed.save_modified(&mut all);
    let v = all.into_inner();
    let urls: Vec<(&str, &str)> = v.iter().map(|(n, c)| (n.as_str(), c.url.as_str())).collect();
    assert_eq!(urls, vec![("a", "old-a"), ("b", "new-b"), ("c", "new-c")]);
}

#[test]
fn extend_keeps_first_of_new_names() {
    let mut feeds = PodcastConfigs::new();
    feeds.push("a".to_string(), PodcastConfig::new("a1".to_string()));
    feeds.extend(vec![
        ("b".to_string(), PodcastConfig::new("b1".to_string())),
        ("a".to_string(), PodcastConfig::new("a2".to_string())),
        ("b".to_string(), PodcastConfig::new("b2".to_string())),
    ]);
    let v: Vec<(&str, &str)> = feeds.0.iter().map(|(n, c)| (n.as_str(), c.url.as_str())).collect();
    assert_eq!(v, vec![("a", "a1"), ("b", "b1")]);
    assert_eq!(feeds.position_of("b"), Some(1));
    assert_eq!(feeds.position_of("z"), None);
}

#[test]
fn long_zone_offsets_are_refused() {
    assert!(long_offset("2021-05-01 +9900"));
    assert!(long_offset("2021-05-01 10:00 -24:00"));
    assert!(!long_offset("2021-05-01 +0930"));
    assert!(!long_offset("2021-12-30"));
    let mut feed = PodcastConfig::new("u".to_string());
    feed.earliest_date = ConfigOption::Enabled("2021-05-01 +9900".to_string());
    assert!(matches!(DownloadMode::new(&global(), &feed), Err(ModeError::InvalidEarliestDate)));
}

#[test]
fn merged_tags_keep_unique_keys() {
    let mut feed = PodcastConfig::new("u".to_string());
    feed.id3_tags = vec![
        ("TCON".to_string(), "A".to_string()),
        ("TCON".to_string(), "B".to_string()),
    ];
    let c = Config::new_at(&global(), &feed, &data(), 0, &None).unwrap();
    assert_eq!(
        c.id3_tags,
        vec![("TPE1".to_string(), "Global".to_string()), ("TCON".to_string(), "B".to_string())]
    );
}

#[test]
fn negative_limits_are_refused() {
    let mut feed = PodcastConfig::new("u".to_string());
    feed.max_days = ConfigOption::Enabled(-1);
    assert!(matches!(DownloadMode::from_settings(&global(), &feed, None, None), Err(ModeError::NegativeLimit)));
    let mut feed = PodcastConfig::new("u".to_string());
    feed.max_episodes = ConfigOption::Enabled(-2);
    assert!(matches!(DownloadMode::from_settings(&global(), &feed, None, None), Err(ModeError::NegativeLimit)));
    feed.backlog_start = Some("2024-01-01".to_string());
    feed.backlog_interval = Some(1);
    assert!(matches!(DownloadMode::from_settings(&global(), &feed, None, Some(0)), Err(ModeError::NegativeLimit)));
    feed.max_episodes = ConfigOption::Enabled(0);
    assert!(matches!(
        DownloadMode::from_settings(&global(), &feed, None, Some(0)),
        Ok(DownloadMode::Backlog { max_episodes: Some(0), .. })
    ));
}
