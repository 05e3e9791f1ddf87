use talecast::config::DownloadMode;
use talecast::download_tracker::{entry_text, DownloadedEpisodes};
use talecast::episode::{episode_id, Episode};
use talecast::patterns::Attributes;
use talecast::podcast::{pending_episodes, sort_by_published};

const DAY: i64 = 86400;
const TODAY: i64 = 1_700_000_000;

fn attrs(guid: &str, published: i64) -> Attributes {
    Attributes {
        title: format!("Episode {}", guid),
        url: format!("https://example.com/{}.mp3", guid),
        mime: None,
        guid: guid.to_string(),
        published,
        raw: vec![],
    }
}

/// Five episodes, one per day, the newest published today.
fn five_daily() -> Vec<Episode> {
    (0..5)
        .map(|i| Episode::new(attrs(&format!("e{}", i), TODAY - (4 - i as i64) * DAY), i, format!("e{}", i)))
        .collect()
}

fn standard(max_time: Option<i64>, earliest: Option<i64>, max_episodes: Option<i64>) -> DownloadMode {
    DownloadMode::Standard { max_time, earliest_date: earliest, max_episodes }
}

#[test]
fn standard_newest_two_end_to_end() {
    let eps = five_daily();
    let ledger = DownloadedEpisodes::new();
    let pending = pending_episodes(&eps, &standard(None, None, Some(2)), &ledger, TODAY);
    assert_eq!(pending, vec![4, 3]);
}

#[test]
fn backlog_from_three_days_ago_end_to_end() {
    let eps = five_daily();
    let ledger = DownloadedEpisodes::new();
    let mode = DownloadMode::Backlog { start: TODAY - 3 * DAY, interval: DAY, max_episodes: None };
    let pending = pending_episodes(&eps, &mode, &ledger, TODAY);
    assert_eq!(pending, vec![0, 1, 2, 3]);
}

#[test]
fn standard_count_window() {
    let eps = five_daily();
    let ledger = DownloadedEpisodes::new();
    for k in 0..7i64 {
        let pending = pending_episodes(&eps, &standard(None, None, Some(k)), &ledger, TODAY);
        let expected: Vec<usize> = (0..5usize).rev().filter(|i| (*i as i64) >= 5 - k).collect();
        assert_eq!(pending, expected);
    }
}

#[test]
fn standard_count_window_ignores_ledger() {
    let eps = five_daily();
    let ledger = DownloadedEpisodes::from_text(&entry_text("e4", 0, "x"));
    let pending = pending_episodes(&eps, &standard(None, None, Some(2)), &ledger, TODAY);
    assert_eq!(pending, vec![3]);
}

#[test]
fn standard_age_and_date_limits() {
    let eps = five_daily();
    let ledger = DownloadedEpisodes::new();
    let pending = pending_episodes(&eps, &standard(Some(2 * DAY), None, None), &ledger, TODAY);
    assert_eq!(pending, vec![4, 3, 2]);
    let pending = pending_episodes(&eps, &standard(None, Some(TODAY - DAY), None), &ledger, TODAY);
    assert_eq!(pending, vec![4, 3]);
    let pending = pending_episodes(&eps, &standard(Some(3 * DAY), Some(TODAY - DAY), Some(4)), &ledger, TODAY);
    assert_eq!(pending, vec![4, 3]);
}

#[test]
fn backlog_window_and_limits() {
    let eps = five_daily();
    let ledger = DownloadedEpisodes::new();
    let start = TODAY - 10 * DAY;
    for (now, expected) in [
        (start - 1, vec![]),
        (start, vec![0]),
        (start + DAY - 1, vec![0]),
        (start + DAY, vec![0, 1]),
        (start + 100 * DAY, vec![0, 1, 2, 3, 4]),
    ] {
        let mode = DownloadMode::Backlog { start, interval: DAY, max_episodes: None };
        assert_eq!(pending_episodes(&eps, &mode, &ledger, now), expected);
    }
    let ledger = DownloadedEpisodes::from_text("e0 1 \"a\"\ne2 2 \"b\"\n");
    let mode = DownloadMode::Backlog { start, interval: DAY, max_episodes: Some(2) };
    assert_eq!(pending_episodes(&eps, &mode, &ledger, start + 100 * DAY), vec![1, 3]);
    let mode = DownloadMode::Backlog { start, interval: DAY, max_episodes: Some(0) };
    assert!(pending_episodes(&eps, &mode, &ledger, start + 100 * DAY).is_empty());
}

#[test]
fn within_age_limits_checks_ledger() {
    let eps = five_daily();
    let ledger = DownloadedEpisodes::from_text("e3 1 \"t\"\n");
    let mode = standard(None, None, None);
    assert!(!eps[3].within_age_limits(&mode, TODAY, &ledger));
    assert!(eps[2].within_age_limits(&mode, TODAY, &ledger));
    let none_kept = standard(None, None, Some(0));
    assert!(eps[2].within_age_limits(&none_kept, TODAY, &ledger));
    assert!(pending_episodes(&eps, &none_kept, &ledger, TODAY).is_empty());
    let future = Episode::new(attrs("f", TODAY + DAY), 0, "f".to_string());
    assert!(future.within_age_limits(&standard(Some(0), None, None), TODAY, &ledger));
}

#[test]
fn ids_replace_spaces() {
    assert_eq!(episode_id("a b  c"), "a_b__c");
    assert_eq!(episode_id(""), "");
}

#[test]
fn sorting_assigns_indices_oldest_first() {
    let items = vec![attrs("c", 30), attrs("a", 10), attrs("b1", 20), attrs("b2", 20), attrs("z", -5)];
    let sorted = sort_by_published(items);
    let guids: Vec<&str> = sorted.iter().map(|a| a.guid.as_str()).collect();
    assert_eq!(guids, vec!["z", "a", "b1", "b2", "c"]);
    assert!(sort_by_published(vec![]).is_empty());
}
