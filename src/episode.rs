//! One episode of a feed, and what decides whether it is due.
use vstd::prelude::*;

use crate::config::DownloadMode;
use crate::download_tracker::DownloadedEpisodes;
use crate::patterns::Attributes;
use crate::text::{chars_of, string_of};

verus! {

/// Whether `published` is recent enough at `now` for a limit `max_time`.
pub open spec fn young_enough(max_time: Option<i64>, published: int, now: int) -> bool {
    match max_time {
        Some(m) => now - published <= m,
        None => true,
    }
}

/// Whether `published` is no earlier than the limit `earliest_date`.
pub open spec fn late_enough(earliest_date: Option<i64>, published: int) -> bool {
    match earliest_date {
        Some(d) => published >= d,
        None => true,
    }
}

/// Whether index `index` of `qty` is among the newest `max_episodes`.
pub open spec fn among_newest(max_episodes: Option<i64>, index: int, qty: int) -> bool {
    match max_episodes {
        Some(k) => index >= qty - k,
        None => true,
    }
}

/// The number of whole intervals from `start` to `now`, rounded down.
pub open spec fn elapsed_intervals(start: int, interval: int, now: int) -> int {
    (now - start) / interval
}

/// Whether the mode's limits of age, date and release pacing let the
/// episode at `index`, published at `published`, through at time `now`,
/// whatever the ledger holds and before any count limit.
pub open spec fn passes_filters(mode: DownloadMode, index: int, published: int, now: int) -> bool {
    match mode {
        DownloadMode::Standard { max_time, earliest_date, .. } => {
            &&& young_enough(max_time, published, now)
            &&& late_enough(earliest_date, published)
        },
        DownloadMode::Backlog { start, interval, .. } => index <= elapsed_intervals(
            start as int,
            interval as int,
            now,
        ),
    }
}

/// Whether the mode lets the episode at `index` of `qty`, published at
/// `published`, through at time `now`, whatever the ledger holds: its
/// filters, and in standard mode the count limit, which keeps the newest
/// `max_episodes`. (Backlog mode applies its count limit to the due list.)
pub open spec fn passes_mode(mode: DownloadMode, index: int, qty: int, published: int, now: int) -> bool {
    &&& passes_filters(mode, index, published, now)
    &&& match mode {
        DownloadMode::Standard { max_episodes, .. } => among_newest(max_episodes, index, qty),
        DownloadMode::Backlog { .. } => true,
    }
}

/// One episode of a feed: its attributes, its position when the feed is
/// ordered by publication time (oldest first), and the id it is recorded
/// under.
#[derive(Clone, Debug)]
pub struct Episode {
    pub attrs: Attributes,
    pub index: usize,
    pub id: String,
}

/// The id an evaluated id pattern gives: spaces become underscores.
pub open spec fn id_of(evaluated: Seq<char>) -> Seq<char> {
    evaluated.map_values(|c: char| if c == ' ' { '_' } else { c })
}

/// The id an evaluated id pattern gives: spaces become underscores.
pub fn episode_id(evaluated: &str) -> (r: String)
    ensures
        r@ == id_of(evaluated@),
{
    let cs = chars_of(evaluated);
    let mut out: Vec<char> = Vec::new();
    let mut i: usize = 0;
    while i < cs.len()
        invariant
            i <= cs@.len(),
            cs@ == evaluated@,
            out@ == id_of(cs@.take(i as int)),
        decreases cs@.len() - i,
    {
        let c = cs[i];
        out.push(if c == ' ' { '_' } else { c });
        proof {
            assert(id_of(cs@.take(i + 1)) =~= id_of(cs@.take(i as int)).push(
                if c == ' ' { '_' } else { c },
            ));
        }
        i = i + 1;
    }
    proof {
        assert(cs@.take(cs@.len() as int) =~= cs@);
    }
    string_of(out.as_slice())
}

impl Episode {
    pub fn new(attrs: Attributes, index: usize, id: String) -> (r: Episode)
        ensures
            r.attrs == attrs,
            r.index == index,
            r.id == id,
    {
        Episode { attrs, index, id }
    }

    /// Whether the episode passes the mode's limits of age, date and release
    /// pacing at `now`, and the ledger does not hold its id. Count limits are
    /// applied to the feed as a whole, by `pending_episodes`.
    pub fn within_age_limits(&self, mode: &DownloadMode, now: i64, downloaded: &DownloadedEpisodes) -> (r: bool)
        requires
            mode.wf(),
        ensures
            r == (passes_filters(*mode, self.index as int, self.attrs.published as int, now as int)
                && !downloaded@.contains(self.id@)),
    {
        let published = self.attrs.published as i128;
        let now_i = now as i128;
        let passed_filter = match mode {
            DownloadMode::Backlog { start, interval, .. } => {
                let passed = now_i - (*start as i128);
                if passed < 0 {
                    proof {
                        assert((now - *start) / (*interval as int) < 0) by (nonlinear_arith)
                            requires
                                now - *start < 0,
                                *interval > 0,
                        ;
                    }
                    false
                } else {
                    let intervals = passed / (*interval as i128);
                    intervals >= self.index as i128
                }
            },
            DownloadMode::Standard { max_time, earliest_date, .. } => {
                let young = match max_time {
                    Some(m) => now_i - published <= *m as i128,
                    None => true,
                };
                let late = match earliest_date {
                    Some(d) => published >= *d as i128,
                    None => true,
                };
                young && late
            },
        };
        passed_filter && !downloaded.contains_episode(self.id.as_str())
    }
}

} // verus!
