use talecast::sync::{FeedSync, Stage, SyncAction};

fn run(mut s: FeedSync, outcome: impl Fn(&SyncAction) -> bool) -> Vec<SyncAction> {
    let mut seen = vec![];
    for _ in 0..100 {
        let a = s.action();
        seen.push(a);
        if matches!(a, SyncAction::Complete | SyncAction::Fail) {
            break;
        }
        s.on_result(outcome(&a));
    }
    seen
}

#[test]
fn stages_run_in_order_then_hooks_join() {
    let seen = run(FeedSync::new(vec![4, 3], false, true), |_| true);
    let mut expected = vec![];
    for e in [4usize, 3] {
        for stage in [Stage::Download, Stage::Tag, Stage::Rename, Stage::Hook, Stage::Record] {
            expected.push(SyncAction::Run { episode: e, stage });
        }
    }
    expected.push(SyncAction::JoinHooks);
    expected.push(SyncAction::Complete);
    assert_eq!(seen, expected);
}

#[test]
fn failed_download_stops_the_feed_without_recording() {
    let seen = run(FeedSync::new(vec![0, 1, 2], true, false), |a| {
        !matches!(a, SyncAction::Run { episode: 1, stage: Stage::Download })
    });
    assert!(seen.contains(&SyncAction::Run { episode: 0, stage: Stage::Symlink }));
    assert!(seen.contains(&SyncAction::Run { episode: 0, stage: Stage::Record }));
    assert!(!seen.contains(&SyncAction::Run { episode: 1, stage: Stage::Record }));
    assert!(!seen.iter().any(|a| matches!(a, SyncAction::Run { episode: 2, .. })));
    assert_eq!(&seen[seen.len() - 2..], &[SyncAction::JoinHooks, SyncAction::Fail]);
}

#[test]
fn tag_failure_is_ignored() {
    let seen = run(FeedSync::new(vec![7], false, false), |a| {
        !matches!(a, SyncAction::Run { stage: Stage::Tag, .. })
    });
    assert!(seen.contains(&SyncAction::Run { episode: 7, stage: Stage::Record }));
    assert_eq!(seen.last(), Some(&SyncAction::Complete));
}

#[test]
fn empty_queue_completes() {
    assert_eq!(run(FeedSync::new(vec![], false, false), |_| true), vec![SyncAction::JoinHooks, SyncAction::Complete]);
}
