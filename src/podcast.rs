//! A feed's episodes, and which of them are due, in the order they are
//! fetched.
use vstd::prelude::*;

use crate::config::DownloadMode;
use crate::download_tracker::DownloadedEpisodes;
use crate::episode::{elapsed_intervals, late_enough, passes_mode, young_enough, Episode};
use crate::patterns::Attributes;

verus! {

/// Whether the episode at position `i` is due.
pub open spec fn eligible_at(
    mode: DownloadMode,
    eps: Seq<Episode>,
    ledger: Set<Seq<char>>,
    now: int,
    i: int,
) -> bool {
    passes_mode(mode, i, eps.len() as int, eps[i].attrs.published as int, now) && !ledger.contains(
        eps[i].id@,
    )
}

/// The due positions below `hi`, oldest first.
pub open spec fn ascending(
    mode: DownloadMode,
    eps: Seq<Episode>,
    ledger: Set<Seq<char>>,
    now: int,
    hi: int,
) -> Seq<usize>
    decreases hi,
{
    if hi <= 0 {
        seq![]
    } else {
        let prev = ascending(mode, eps, ledger, now, hi - 1);
        if eligible_at(mode, eps, ledger, now, hi - 1) {
            prev.push((hi - 1) as usize)
        } else {
            prev
        }
    }
}

/// The due positions from `lo` on, newest first.
pub open spec fn descending(
    mode: DownloadMode,
    eps: Seq<Episode>,
    ledger: Set<Seq<char>>,
    now: int,
    lo: int,
) -> Seq<usize>
    decreases eps.len() - lo,
{
    if lo >= eps.len() || lo < 0 {
        seq![]
    } else {
        let rest = descending(mode, eps, ledger, now, lo + 1);
        if eligible_at(mode, eps, ledger, now, lo) {
            rest.push(lo as usize)
        } else {
            rest
        }
    }
}

/// The due positions in the order they are fetched: newest first in standard
/// mode; oldest first in backlog mode, keeping the first `max_episodes` where
/// that count is set.
pub open spec fn pending_order(
    mode: DownloadMode,
    eps: Seq<Episode>,
    ledger: Set<Seq<char>>,
    now: int,
) -> Seq<usize> {
    match mode {
        DownloadMode::Standard { .. } => descending(mode, eps, ledger, now, 0),
        DownloadMode::Backlog { max_episodes, .. } => {
            let a = ascending(mode, eps, ledger, now, eps.len() as int);
            match max_episodes {
                Some(k) => if 0 <= k < a.len() {
                    a.take(k as int)
                } else {
                    a
                },
                None => a,
            }
        },
    }
}

/// Each episode's index is its position.
pub open spec fn indexed(eps: Seq<Episode>) -> bool {
    forall|i: int| 0 <= i < eps.len() ==> (#[trigger] eps[i]).index == i
}

/// The positions of the due episodes, in the order they are to be fetched.
pub fn pending_episodes(
    episodes: &Vec<Episode>,
    mode: &DownloadMode,
    downloaded: &DownloadedEpisodes,
    now: i64,
) -> (r: Vec<usize>)
    requires
        mode.wf(),
        indexed(episodes@),
    ensures
        r@ == pending_order(*mode, episodes@, downloaded@, now as int),
{
    let qty = episodes.len();
    let mut pending: Vec<usize> = Vec::new();
    match mode {
        DownloadMode::Standard { max_episodes, .. } => {
            let mut j: usize = qty;
            while j > 0
                invariant
                    j <= qty == episodes@.len(),
                    mode.wf(),
                    *mode is Standard,
                    *max_episodes == mode->Standard_max_episodes,
                    indexed(episodes@),
                    pending@ == descending(*mode, episodes@, downloaded@, now as int, j as int),
                decreases j,
            {
                let i = j - 1;
                let newest = match max_episodes {
                    Some(k) => i as i128 >= qty as i128 - *k as i128,
                    None => true,
                };
                let due = newest && episodes[i].within_age_limits(mode, now, downloaded);
                proof {
                    assert(episodes@[i as int].index == i);
                    assert(due == eligible_at(*mode, episodes@, downloaded@, now as int, i as int));
                }
                if due {
                    pending.push(i);
                }
                j = i;
            }
        },
        DownloadMode::Backlog { max_episodes, .. } => {
            let mut i: usize = 0;
            while i < qty
                invariant
                    i <= qty == episodes@.len(),
                    mode.wf(),
                    *mode is Backlog,
                    indexed(episodes@),
                    pending@ == ascending(*mode, episodes@, downloaded@, now as int, i as int),
                decreases qty - i,
            {
                let due = episodes[i].within_age_limits(mode, now, downloaded);
                proof {
                    assert(episodes@[i as int].index == i);
                    assert(due == eligible_at(*mode, episodes@, downloaded@, now as int, i as int));
                }
                if due {
                    pending.push(i);
                }
                i = i + 1;
            }
            if let Some(k) = max_episodes {
                if *k >= 0 && (*k as u64) < (pending.len() as u64) {
                    pending.truncate(*k as usize);
                    proof {
                        assert(pending@ =~= ascending(
                            *mode,
                            episodes@,
                            downloaded@,
                            now as int,
                            qty as int,
                        ).take(*k as int));
                    }
                }
            }
        },
    }
    pending
}

proof fn lemma_descending(
    mode: DownloadMode,
    eps: Seq<Episode>,
    ledger: Set<Seq<char>>,
    now: int,
    lo: int,
)
    requires
        0 <= lo <= eps.len(),
        eps.len() <= usize::MAX,
    ensures
        forall|x: usize| #[trigger]
            descending(mode, eps, ledger, now, lo).contains(x) <==> lo <= x < eps.len()
                && eligible_at(mode, eps, ledger, now, x as int),
        forall|a: int, b: int|
            0 <= a < b < descending(mode, eps, ledger, now, lo).len() ==> #[trigger] descending(
                mode,
                eps,
                ledger,
                now,
                lo,
            )[a] > #[trigger] descending(mode, eps, ledger, now, lo)[b],
        forall|a: int|
            0 <= a < descending(mode, eps, ledger, now, lo).len() ==> lo <= #[trigger] descending(
                mode,
                eps,
                ledger,
                now,
                lo,
            )[a] < eps.len(),
    decreases eps.len() - lo,
{
    if lo < eps.len() {
        lemma_descending(mode, eps, ledger, now, lo + 1);
        let rest = descending(mode, eps, ledger, now, lo + 1);
        if eligible_at(mode, eps, ledger, now, lo) {
            let d = rest.push(lo as usize);
            assert(descending(mode, eps, ledger, now, lo) == d);
            assert forall|x: usize| #[trigger] d.contains(x) <==> lo <= x < eps.len()
                && eligible_at(mode, eps, ledger, now, x as int) by {
                if x == lo {
                    assert(d[rest.len() as int] == x);
                }
                if d.contains(x) && x != lo {
                    let k = choose|k: int| 0 <= k < d.len() && d[k] == x;
                    assert(k < rest.len());
                    assert(rest[k] == x);
                    assert(rest.contains(x));
                }
                if rest.contains(x) {
                    let k = choose|k: int| 0 <= k < rest.len() && rest[k] == x;
                    assert(d[k] == x);
                }
            }
            assert forall|a: int, b: int| 0 <= a < b < d.len() implies #[trigger] d[a] > #[trigger] d[b] by {
                if b < rest.len() {
                    assert(d[a] == rest[a] && d[b] == rest[b]);
                } else {
                    assert(d[a] == rest[a]);
                    assert(rest[a] >= lo + 1);
                }
            }
            assert forall|a: int| 0 <= a < d.len() implies lo <= #[trigger] d[a] < eps.len() by {
                if a < rest.len() {
                    assert(d[a] == rest[a]);
                }
            }
        } else {
            assert(descending(mode, eps, ledger, now, lo) == rest);
            assert forall|x: usize| #[trigger] rest.contains(x) <==> lo <= x < eps.len()
                && eligible_at(mode, eps, ledger, now, x as int) by {
                if rest.contains(x) {
                    let k = choose|k: int| 0 <= k < rest.len() && rest[k] == x;
                    assert(rest[k] >= lo + 1);
                }
            }
        }
    }
}

proof fn lemma_ascending(
    mode: DownloadMode,
    eps: Seq<Episode>,
    ledger: Set<Seq<char>>,
    now: int,
    hi: int,
)
    requires
        0 <= hi <= eps.len(),
        eps.len() <= usize::MAX,
    ensures
        forall|x: usize| #[trigger]
            ascending(mode, eps, ledger, now, hi).contains(x) <==> x < hi
                && eligible_at(mode, eps, ledger, now, x as int),
        forall|a: int, b: int|
            0 <= a < b < ascending(mode, eps, ledger, now, hi).len() ==> #[trigger] ascending(
                mode,
                eps,
                ledger,
                now,
                hi,
            )[a] < #[trigger] ascending(mode, eps, ledger, now, hi)[b],
        forall|a: int|
            0 <= a < ascending(mode, eps, ledger, now, hi).len() ==> #[trigger] ascending(
                mode,
                eps,
                ledger,
                now,
                hi,
            )[a] < hi,
    decreases hi,
{
    if hi > 0 {
        lemma_ascending(mode, eps, ledger, now, hi - 1);
        let prev = ascending(mode, eps, ledger, now, hi - 1);
        if eligible_at(mode, eps, ledger, now, hi - 1) {
            let d = prev.push((hi - 1) as usize);
            assert(ascending(mode, eps, ledger, now, hi) == d);
            assert forall|x: usize| #[trigger] d.contains(x) <==> x < hi && eligible_at(
                mode,
                eps,
                ledger,
                now,
                x as int,
            ) by {
                if x == hi - 1 {
                    assert(d[prev.len() as int] == x);
                }
                if d.contains(x) && x != hi - 1 {
                    let k = choose|k: int| 0 <= k < d.len() && d[k] == x;
                    assert(k < prev.len());
                    assert(prev[k] == x);
                    assert(prev.contains(x));
                }
                if prev.contains(x) {
                    let k = choose|k: int| 0 <= k < prev.len() && prev[k] == x;
                    assert(d[k] == x);
                }
            }
            assert forall|a: int, b: int| 0 <= a < b < d.len() implies #[trigger] d[a] < #[trigger] d[b] by {
                if b < prev.len() {
                    assert(d[a] == prev[a] && d[b] == prev[b]);
                } else {
                    assert(d[a] == prev[a]);
                    assert(prev[a] < hi - 1);
                }
            }
            assert forall|a: int| 0 <= a < d.len() implies #[trigger] d[a] < hi by {
                if a < prev.len() {
                    assert(d[a] == prev[a]);
                }
            }
        } else {
            assert(ascending(mode, eps, ledger, now, hi) == prev);
            assert forall|x: usize| #[trigger] prev.contains(x) <==> x < hi && eligible_at(
                mode,
                eps,
                ledger,
                now,
                x as int,
            ) by {
                if prev.contains(x) {
                    let k = choose|k: int| 0 <= k < prev.len() && prev[k] == x;
                    assert(prev[k] < hi - 1);
                }
            }
        }
    }
}

/// Standard mode with a count limit `k` on a feed of `N` episodes: an episode
/// is fetched exactly when its index is in `[N - k, N - 1]`, it is young and
/// late enough, and the ledger does not hold it; episodes are fetched newest
/// first.
pub proof fn lemma_standard_window(
    mode: DownloadMode,
    eps: Seq<Episode>,
    ledger: Set<Seq<char>>,
    now: int,
    i: int,
)
    requires
        mode is Standard,
        mode->Standard_max_episodes is Some,
        0 <= i < eps.len() <= usize::MAX,
    ensures
        pending_order(mode, eps, ledger, now).contains(i as usize) <==> {
            &&& eps.len() - mode->Standard_max_episodes->Some_0 <= i <= eps.len() - 1
            &&& young_enough(mode->Standard_max_time, eps[i].attrs.published as int, now)
            &&& late_enough(mode->Standard_earliest_date, eps[i].attrs.published as int)
            &&& !ledger.contains(eps[i].id@)
        },
        forall|a: int, b: int|
            0 <= a < b < pending_order(mode, eps, ledger, now).len() ==> #[trigger] pending_order(
                mode,
                eps,
                ledger,
                now,
            )[a] > #[trigger] pending_order(mode, eps, ledger, now)[b],
{
    lemma_descending(mode, eps, ledger, now, 0);
    assert(eligible_at(mode, eps, ledger, now, i) == (passes_mode(
        mode,
        i,
        eps.len() as int,
        eps[i].attrs.published as int,
        now,
    ) && !ledger.contains(eps[i].id@)));
}

/// Backlog mode: before the ledger and the count limit, the episode at index
/// `i` is let through exactly when `0 <= i <= floor((now - start) / interval)`;
/// episodes are fetched oldest first.
pub proof fn lemma_backlog_window(
    mode: DownloadMode,
    eps: Seq<Episode>,
    ledger: Set<Seq<char>>,
    now: int,
    i: int,
)
    requires
        mode is Backlog,
        mode.wf(),
        0 <= i < eps.len() <= usize::MAX,
    ensures
        passes_mode(mode, i, eps.len() as int, eps[i].attrs.published as int, now) <==> 0 <= i
            <= elapsed_intervals(mode->Backlog_start as int, mode->Backlog_interval as int, now),
        forall|a: int, b: int|
            0 <= a < b < pending_order(mode, eps, ledger, now).len() ==> #[trigger] pending_order(
                mode,
                eps,
                ledger,
                now,
            )[a] < #[trigger] pending_order(mode, eps, ledger, now)[b],
{
    let a = ascending(mode, eps, ledger, now, eps.len() as int);
    lemma_ascending(mode, eps, ledger, now, eps.len() as int);
    let p = pending_order(mode, eps, ledger, now);
    assert forall|x: int, y: int| 0 <= x < y < p.len() implies #[trigger] p[x] < #[trigger] p[y] by {
        assert(p[x] == a[x] && p[y] == a[y]);
    }
}

/// Whether the item at `a` comes before the one at `b` in publication order:
/// it is older, or as old and earlier in the feed.
pub open spec fn precedes(items: Seq<Attributes>, a: int, b: int) -> bool {
    items[a].published < items[b].published || (items[a].published == items[b].published && a < b)
}

/// Whether `order` lists every position of `items` once, in publication
/// order.
pub open spec fn chronological(items: Seq<Attributes>, order: Seq<int>) -> bool {
    &&& order.len() == items.len()
    &&& forall|k: int| 0 <= k < order.len() ==> 0 <= #[trigger] order[k] < items.len()
    &&& forall|x: int| 0 <= x < items.len() ==> #[trigger] order.contains(x)
    &&& forall|a: int, b: int| 0 <= a < b < order.len() ==> precedes(items, #[trigger] order[a], #[trigger] order[b])
}

/// A feed's items ordered by publication time, oldest first; items published
/// at the same time keep their order. An item's position in the result is
/// its index.
pub fn sort_by_published(items: Vec<Attributes>) -> (r: Vec<Attributes>)
    ensures
        exists|order: Seq<int>| {
            &&& chronological(items@, order)
            &&& r@.len() == items@.len()
            &&& forall|k: int| 0 <= k < r@.len() ==> #[trigger] r@[k] == items@[order[k]]
        },
{
    let ghost input = items@;
    let n = items.len();
    let mut rest = items;
    let mut out: Vec<Attributes> = Vec::new();
    let ghost mut pos: Seq<int> = Seq::empty();
    let mut i: usize = 0;
    proof {
        assert(input.skip(0) =~= input);
    }
    while i < n
        invariant
            n == input.len(),
            i <= n,
            rest@ == input.skip(i as int),
            out@.len() == i,
            pos.len() == i,
            forall|k: int| 0 <= k < i ==> 0 <= #[trigger] pos[k] < i && out@[k] == input[pos[k]],
            forall|x: int| 0 <= x < i ==> #[trigger] pos.contains(x),
            forall|a: int, b: int| 0 <= a < b < i ==> precedes(input, #[trigger] pos[a], #[trigger] pos[b]),
        decreases n - i,
    {
        let e = rest.remove(0);
        proof {
            assert(e == input[i as int]);
            assert(rest@ =~= input.skip(i + 1));
        }
        let mut p: usize = out.len();
        while p > 0 && out[p - 1].published > e.published
            invariant
                p <= i == out@.len(),
                forall|k: int| p <= k < i ==> (#[trigger] out@[k]).published > e.published,
            decreases p,
        {
            p = p - 1;
        }
        proof {
            assert forall|k: int| 0 <= k < p implies (#[trigger] out@[k]).published <= e.published by {
                if k < p - 1 {
                    assert(precedes(input, pos[k], pos[p - 1]));
                }
            }
        }
        let ghost old_pos = pos;
        let ghost old_out = out@;
        out.insert(p, e);
        proof {
            pos = old_pos.insert(p as int, i as int);
            assert forall|k: int| 0 <= k < i + 1 implies 0 <= #[trigger] pos[k] < i + 1 && out@[k] == input[pos[k]] by {
                if k < p {
                    assert(pos[k] == old_pos[k]);
                } else if k > p {
                    assert(pos[k] == old_pos[k - 1]);
                }
            }
            assert forall|x: int| 0 <= x < i + 1 implies #[trigger] pos.contains(x) by {
                if x == i {
                    assert(pos[p as int] == x);
                } else {
                    assert(old_pos.contains(x));
                    let k = choose|k: int| 0 <= k < old_pos.len() && old_pos[k] == x;
                    if k < p {
                        assert(pos[k] == x);
                    } else {
                        assert(pos[k + 1] == x);
                    }
                }
            }
            assert forall|a: int, b: int| 0 <= a < b < i + 1 implies precedes(input, #[trigger] pos[a], #[trigger] pos[b]) by {
                if b < p {
                    assert(pos[a] == old_pos[a] && pos[b] == old_pos[b]);
                } else if b == p {
                    assert(pos[a] == old_pos[a]);
                    assert(old_out[a].published <= e.published);
                } else if a < p {
                    assert(pos[a] == old_pos[a] && pos[b] == old_pos[b - 1]);
                } else if a == p {
                    assert(pos[b] == old_pos[b - 1]);
                    assert(old_out[b - 1].published > e.published);
                } else {
                    assert(pos[a] == old_pos[a - 1] && pos[b] == old_pos[b - 1]);
                }
            }
        }
        i = i + 1;
    }
    proof {
        assert(chronological(input, pos));
    }
    out
}

} // verus!
