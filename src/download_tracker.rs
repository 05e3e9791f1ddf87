//! The per-feed record of finished downloads: one line per episode,
//! `<id> <unix seconds> "<title>"`.
use vstd::prelude::*;

use crate::text::{
    chars_of, decimal, digit_char, eq_chars, push_chars, push_signed_decimal, push_string,
    signed_decimal, string_of,
};

verus! {

/// Whether `c` is white space in Unicode's sense.
pub open spec fn is_space(c: char) -> bool {
    ||| c == '\t'
    ||| c == '\n'
    ||| c == '\u{0B}'
    ||| c == '\u{0C}'
    ||| c == '\r'
    ||| c == ' '
    ||| c == '\u{85}'
    ||| c == '\u{A0}'
    ||| c == '\u{1680}'
    ||| ('\u{2000}' <= c && c <= '\u{200A}')
    ||| c == '\u{2028}'
    ||| c == '\u{2029}'
    ||| c == '\u{202F}'
    ||| c == '\u{205F}'
    ||| c == '\u{3000}'
}

/// Whether `c` is white space in Unicode's sense.
pub fn is_whitespace(c: char) -> (r: bool)
    ensures
        r == is_space(c),
{
    c == '\t' || c == '\n' || c == '\u{0B}' || c == '\u{0C}' || c == '\r' || c == ' ' || c
        == '\u{85}' || c == '\u{A0}' || c == '\u{1680}' || ('\u{2000}' <= c && c <= '\u{200A}')
        || c == '\u{2028}' || c == '\u{2029}' || c == '\u{202F}' || c == '\u{205F}' || c
        == '\u{3000}'
}

/// `s` split at its first space: what comes before and what comes after.
pub open spec fn split_space(s: Seq<char>) -> Option<(Seq<char>, Seq<char>)>
    decreases s.len(),
{
    if s.len() == 0 {
        None
    } else if s[0] == ' ' {
        Some((seq![], s.skip(1)))
    } else {
        match split_space(s.skip(1)) {
            Some((a, b)) => Some((seq![s[0]] + a, b)),
            None => None,
        }
    }
}

/// An id: non-empty, without white space.
pub open spec fn valid_id(id: Seq<char>) -> bool {
    id.len() > 0 && forall|i: int| 0 <= i < id.len() ==> !is_space(#[trigger] id[i])
}

pub open spec fn all_digits(n: Seq<char>) -> bool {
    forall|i: int| 0 <= i < n.len() ==> '0' <= #[trigger] n[i] && n[i] <= '9'
}

/// A decimal number of seconds, possibly negative.
pub open spec fn valid_number(n: Seq<char>) -> bool {
    (n.len() > 0 && all_digits(n)) || (n.len() > 1 && n[0] == '-' && all_digits(n.skip(1)))
}

/// The id a ledger line records: the line must be `<id> <number> "<title>"`.
pub open spec fn line_id(l: Seq<char>) -> Option<Seq<char>> {
    match split_space(l) {
        Some((id, r1)) => if valid_id(id) {
            match split_space(r1) {
                Some((num, r2)) => if valid_number(num) && r2.len() >= 2 && r2[0] == '"' && r2.last()
                    == '"' {
                    Some(id)
                } else {
                    None
                },
                None => None,
            }
        } else {
            None
        },
        None => None,
    }
}

/// Where a reading of a ledger text stands: the ids of the complete lines
/// read so far, and the line being read.
pub struct LedgerScan {
    pub ids: Set<Seq<char>>,
    pub line: Seq<char>,
}

/// Reading one more character of a ledger text: a newline completes the
/// line, which records its id where it is well formed.
pub open spec fn ledger_step(st: LedgerScan, c: char) -> LedgerScan {
    if c == '\n' {
        LedgerScan { ids: with_line(st.ids, st.line), line: seq![] }
    } else {
        LedgerScan { ids: st.ids, line: st.line.push(c) }
    }
}

/// Reading `t` from state `st`.
pub open spec fn ledger_scan_from(st: LedgerScan, t: Seq<char>) -> LedgerScan
    decreases t.len(),
{
    if t.len() == 0 {
        st
    } else {
        ledger_step(ledger_scan_from(st, t.drop_last()), t.last())
    }
}

pub open spec fn ledger_start() -> LedgerScan {
    LedgerScan { ids: Set::empty(), line: seq![] }
}

/// The ids a ledger text records: those of its well-formed lines, the last
/// one included where it lacks its newline. A line may end in `\r\n`. A
/// malformed line, such as a half-written last one, records nothing.
pub open spec fn ledger_ids(t: Seq<char>) -> Set<Seq<char>> {
    let st = ledger_scan_from(ledger_start(), t);
    with_line(st.ids, st.line)
}

/// A line without the carriage return that may end it.
pub open spec fn without_cr(l: Seq<char>) -> Seq<char> {
    if l.len() > 0 && l.last() == '\r' {
        l.drop_last()
    } else {
        l
    }
}

/// `ids` with the id of `line`, where the line is well formed.
pub open spec fn with_line(ids: Set<Seq<char>>, line: Seq<char>) -> Set<Seq<char>> {
    match line_id(without_cr(line)) {
        Some(id) => ids.insert(id),
        None => ids,
    }
}

/// A title as a ledger line holds it: line breaks become spaces.
pub open spec fn one_line(title: Seq<char>) -> Seq<char> {
    title.map_values(|c: char| if c == '\n' || c == '\r' { ' ' } else { c })
}

/// The line that records one download: id, time, and title in quotes.
pub open spec fn entry_line(id: Seq<char>, downloaded_at: i64, title: Seq<char>) -> Seq<char> {
    id + seq![' '] + signed_decimal(downloaded_at as int) + seq![' ', '"'] + one_line(title) + seq![
        '"',
        '\n',
    ]
}

/// The text to append to a ledger file holding `existing`: a newline first
/// where the file ends in a half-written line, then the entry.
pub open spec fn append_line(existing: Seq<char>, id: Seq<char>, downloaded_at: i64, title: Seq<char>) -> Seq<char> {
    if existing.len() > 0 && existing.last() != '\n' {
        seq!['\n'] + entry_line(id, downloaded_at, title)
    } else {
        entry_line(id, downloaded_at, title)
    }
}

/// Keeps track of which episodes have already been downloaded.
#[derive(Clone, Debug)]
pub struct DownloadedEpisodes {
    ids: Vec<String>,
}

impl View for DownloadedEpisodes {
    type V = Set<Seq<char>>;

    closed spec fn view(&self) -> Set<Seq<char>> {
        Set::new(|s: Seq<char>| exists|i: int| 0 <= i < self.ids@.len() && self.ids@[i]@ == s)
    }
}

impl DownloadedEpisodes {
    /// A ledger that records nothing.
    pub fn new() -> (r: DownloadedEpisodes)
        ensures
            r@ == Set::<Seq<char>>::empty(),
    {
        let r = DownloadedEpisodes { ids: Vec::new() };
        assert(r@ =~= Set::<Seq<char>>::empty());
        r
    }

    /// Records one more id.
    pub fn insert(&mut self, id: String)
        ensures
            final(self)@ == old(self)@.insert(id@),
    {
        let ghost before = self.ids@;
        self.ids.push(id);
        proof {
            assert forall|s: Seq<char>| final(self)@.contains(s) <==> old(self)@.insert(id@).contains(s) by {
                if old(self)@.contains(s) {
                    let i = choose|i: int| 0 <= i < before.len() && before[i]@ == s;
                    assert(self.ids@[i]@ == s);
                }
                if s == id@ {
                    assert(self.ids@[before.len() as int]@ == s);
                }
                if final(self)@.contains(s) && s != id@ {
                    let i = choose|i: int| 0 <= i < self.ids@.len() && self.ids@[i]@ == s;
                    assert(i < before.len());
                    assert(before[i]@ == s);
                }
            }
            assert(final(self)@ =~= old(self)@.insert(id@));
        }
    }

    /// Whether the ledger records `episode_id`.
    pub fn contains_episode(&self, episode_id: &str) -> (r: bool)
        ensures
            r == self@.contains(episode_id@),
    {
        let key = chars_of(episode_id);
        let mut i: usize = 0;
        while i < self.ids.len()
            invariant
                i <= self.ids@.len(),
                key@ == episode_id@,
                forall|j: int| 0 <= j < i ==> self.ids@[j]@ != episode_id@,
            decreases self.ids@.len() - i,
        {
            let k = chars_of(self.ids[i].as_str());
            assert(k@ == self.ids@[i as int]@);
            if eq_chars(k.as_slice(), key.as_slice()) {
                proof {
                    assert(self.ids@[i as int]@ == episode_id@);
                    assert(self@.contains(episode_id@));
                }
                return true;
            }
            i = i + 1;
        }
        false
    }

    /// The ledger a file's text records: the ids of its well-formed lines.
    pub fn from_text(text: &str) -> (r: DownloadedEpisodes)
        ensures
            r@ == ledger_ids(text@),
    {
        let cs = chars_of(text);
        let mut r = DownloadedEpisodes::new();
        let mut line: Vec<char> = Vec::new();
        let mut i: usize = 0;
        proof {
            assert(cs@.take(0) =~= Seq::<char>::empty());
            assert(line@ =~= Seq::<char>::empty());
        }
        while i < cs.len()
            invariant
                i <= cs@.len(),
                cs@ == text@,
                ledger_scan_from(ledger_start(), cs@.take(i as int)) == (LedgerScan {
                    ids: r@,
                    line: line@,
                }),
            decreases cs@.len() - i,
        {
            proof {
                assert(cs@.take(i + 1).drop_last() =~= cs@.take(i as int));
            }
            let c = cs[i];
            if c == '\n' {
                record_line(&mut r, &line);
                line = Vec::new();
                proof {
                    assert(line@ =~= Seq::<char>::empty());
                }
            } else {
                line.push(c);
            }
            i = i + 1;
        }
        proof {
            assert(cs@.take(cs@.len() as int) =~= cs@);
        }
        record_line(&mut r, &line);
        r
    }
}

/// Records the id of `line` where it is well formed.
fn record_line(r: &mut DownloadedEpisodes, line: &Vec<char>)
    ensures
        final(r)@ == with_line(old(r)@, line@),
{
    let mut l: Vec<char> = Vec::new();
    let mut i: usize = 0;
    let n = if line.len() > 0 && line[line.len() - 1] == '\r' {
        line.len() - 1
    } else {
        line.len()
    };
    while i < n
        invariant
            n <= line@.len(),
            i <= n,
            l@ == line@.take(i as int),
        decreases n - i,
    {
        l.push(line[i]);
        proof {
            assert(line@.take(i + 1) =~= line@.take(i as int).push(line@[i as int]));
        }
        i = i + 1;
    }
    proof {
        assert(l@ =~= without_cr(line@));
    }
    match line_id_of(&l) {
        Some(id) => r.insert(id),
        None => {},
    }
}

/// The position of the first space in `v` from `from` on, where there is one.
fn find_space(v: &Vec<char>, from: usize) -> (r: Option<usize>)
    requires
        from <= v@.len(),
    ensures
        match r {
            Some(i) => from <= i < v@.len() && v@[i as int] == ' ' && forall|t: int|
                from <= t < i ==> v@[t] != ' ',
            None => forall|t: int| from <= t < v@.len() ==> v@[t] != ' ',
        },
{
    let mut i = from;
    while i < v.len()
        invariant
            from <= i <= v@.len(),
            forall|t: int| from <= t < i ==> v@[t] != ' ',
        decreases v@.len() - i,
    {
        if v[i] == ' ' {
            return Some(i);
        }
        i = i + 1;
    }
    None
}

proof fn lemma_split_space(s: Seq<char>, i: int)
    requires
        0 <= i < s.len(),
        s[i] == ' ',
        forall|t: int| 0 <= t < i ==> s[t] != ' ',
    ensures
        split_space(s) == Some((s.take(i), s.skip(i + 1))),
    decreases i,
{
    if i > 0 {
        let r = s.skip(1);
        assert forall|t: int| 0 <= t < i - 1 implies r[t] != ' ' by {
            assert(r[t] == s[t + 1]);
        }
        lemma_split_space(r, i - 1);
        assert(seq![s[0]] + r.take(i - 1) =~= s.take(i));
        assert(r.skip(i) =~= s.skip(i + 1));
    } else {
        assert(s.take(0) =~= Seq::<char>::empty());
    }
}

proof fn lemma_no_space(s: Seq<char>)
    requires
        forall|t: int| 0 <= t < s.len() ==> s[t] != ' ',
    ensures
        split_space(s) is None,
    decreases s.len(),
{
    if s.len() > 0 {
        let r = s.skip(1);
        assert forall|t: int| 0 <= t < r.len() implies r[t] != ' ' by {
            assert(r[t] == s[t + 1]);
        }
        lemma_no_space(r);
    }
}

fn chars_between(v: &Vec<char>, from: usize, to: usize) -> (r: Vec<char>)
    requires
        from <= to <= v@.len(),
    ensures
        r@ == v@.subrange(from as int, to as int),
{
    let mut r: Vec<char> = Vec::new();
    let mut i = from;
    while i < to
        invariant
            from <= i <= to <= v@.len(),
            r@ == v@.subrange(from as int, i as int),
        decreases to - i,
    {
        r.push(v[i]);
        proof {
            assert(v@.subrange(from as int, i + 1) =~= v@.subrange(from as int, i as int).push(
                v@[i as int],
            ));
        }
        i = i + 1;
    }
    r
}

fn is_valid_id(v: &Vec<char>) -> (r: bool)
    ensures
        r == valid_id(v@),
{
    if v.len() == 0 {
        return false;
    }
    let mut i: usize = 0;
    while i < v.len()
        invariant
            i <= v@.len(),
            forall|t: int| 0 <= t < i ==> !is_space(#[trigger] v@[t]),
        decreases v@.len() - i,
    {
        if is_whitespace(v[i]) {
            return false;
        }
        i = i + 1;
    }
    true
}

fn digits_from(v: &Vec<char>, from: usize) -> (r: bool)
    requires
        from <= v@.len(),
    ensures
        r == all_digits(v@.skip(from as int)),
{
    let mut i = from;
    while i < v.len()
        invariant
            from <= i <= v@.len(),
            forall|t: int| from <= t < i ==> '0' <= #[trigger] v@[t] && v@[t] <= '9',
        decreases v@.len() - i,
    {
        if !('0' <= v[i] && v[i] <= '9') {
            assert(v@.skip(from as int)[i - from] == v@[i as int]);
            return false;
        }
        i = i + 1;
    }
    assert forall|t: int| 0 <= t < v@.skip(from as int).len() implies '0' <= #[trigger] v@.skip(
        from as int,
    )[t] && v@.skip(from as int)[t] <= '9' by {
        assert(v@.skip(from as int)[t] == v@[from + t]);
    }
    true
}

fn is_valid_number(v: &Vec<char>) -> (r: bool)
    ensures
        r == valid_number(v@),
{
    proof {
        assert(v@.skip(0) =~= v@);
    }
    if v.len() > 0 && digits_from(v, 0) {
        return true;
    }
    v.len() > 1 && v[0] == '-' && digits_from(v, 1)
}

/// The id a ledger line records, where it is well formed.
fn line_id_of(line: &Vec<char>) -> (r: Option<String>)
    ensures
        match r {
            Some(id) => line_id(line@) == Some(id@),
            None => line_id(line@) is None,
        },
{
    let i = match find_space(line, 0) {
        None => {
            proof {
                lemma_no_space(line@);
            }
            return None;
        },
        Some(i) => i,
    };
    proof {
        lemma_split_space(line@, i as int);
    }
    let id = chars_between(line, 0, i);
    proof {
        assert(id@ =~= line@.take(i as int));
    }
    if !is_valid_id(&id) {
        return None;
    }
    let n = line.len();
    assert(i < n);
    let rest = chars_between(line, i + 1, n);
    proof {
        assert(rest@ =~= line@.skip(i + 1));
    }
    let j = match find_space(&rest, 0) {
        None => {
            proof {
                lemma_no_space(rest@);
            }
            return None;
        },
        Some(j) => j,
    };
    proof {
        lemma_split_space(rest@, j as int);
    }
    let num = chars_between(&rest, 0, j);
    let tail = chars_between(&rest, j + 1, rest.len());
    proof {
        assert(num@ =~= rest@.take(j as int));
        assert(tail@ =~= rest@.skip(j + 1));
    }
    if is_valid_number(&num) && tail.len() >= 2 && tail[0] == '"' && tail[tail.len() - 1] == '"' {
        Some(string_of(id.as_slice()))
    } else {
        None
    }
}

/// The line to append to a ledger file for one finished download. Line
/// breaks in the title become spaces.
pub fn entry_text(id: &str, downloaded_at: i64, title: &str) -> (r: String)
    ensures
        r@ == entry_line(id@, downloaded_at, title@),
{
    let mut s = String::new();
    push_string(&mut s, id);
    push_chars(&mut s, &[' ']);
    push_signed_decimal(&mut s, downloaded_at);
    push_chars(&mut s, &[' ', '"']);
    let t = chars_of(title);
    let mut clean: Vec<char> = Vec::new();
    let mut i: usize = 0;
    while i < t.len()
        invariant
            i <= t@.len(),
            t@ == title@,
            clean@ == one_line(t@.take(i as int)),
        decreases t@.len() - i,
    {
        let c = t[i];
        clean.push(if c == '\n' || c == '\r' { ' ' } else { c });
        proof {
            assert(one_line(t@.take(i + 1)) =~= one_line(t@.take(i as int)).push(
                if c == '\n' || c == '\r' { ' ' } else { c },
            ));
        }
        i = i + 1;
    }
    proof {
        assert(t@.take(t@.len() as int) =~= t@);
    }
    push_chars(&mut s, clean.as_slice());
    push_chars(&mut s, &['"', '\n']);
    proof {
        assert(s@ =~= entry_line(id@, downloaded_at, title@));
    }
    s
}

/// The text to append to a ledger file whose content is `existing`: a
/// newline first where the file ends in a half-written line, then the entry.
pub fn append_text(existing: &str, id: &str, downloaded_at: i64, title: &str) -> (r: String)
    ensures
        r@ == append_line(existing@, id@, downloaded_at, title@),
{
    let cs = chars_of(existing);
    let entry = entry_text(id, downloaded_at, title);
    if cs.len() > 0 && cs[cs.len() - 1] != '\n' {
        let mut s = String::new();
        push_chars(&mut s, &['\n']);
        push_string(&mut s, entry.as_str());
        proof {
            assert(s@ =~= seq!['\n'] + entry_line(id@, downloaded_at, title@));
        }
        s
    } else {
        entry
    }
}

proof fn lemma_scan_concat(st: LedgerScan, t: Seq<char>, u: Seq<char>)
    ensures
        ledger_scan_from(st, t + u) == ledger_scan_from(ledger_scan_from(st, t), u),
    decreases u.len(),
{
    if u.len() == 0 {
        assert(t + u =~= t);
    } else {
        lemma_scan_concat(st, t, u.drop_last());
        assert((t + u).drop_last() =~= t + u.drop_last());
        assert((t + u).last() == u.last());
    }
}

proof fn lemma_scan_grows(st: LedgerScan, u: Seq<char>)
    ensures
        st.ids.subset_of(ledger_scan_from(st, u).ids),
    decreases u.len(),
{
    if u.len() > 0 {
        lemma_scan_grows(st, u.drop_last());
    }
}

/// Reading characters without a newline only extends the current line.
proof fn lemma_scan_no_newline(st: LedgerScan, u: Seq<char>)
    requires
        forall|i: int| 0 <= i < u.len() ==> u[i] != '\n',
    ensures
        ledger_scan_from(st, u) == (LedgerScan { ids: st.ids, line: st.line + u }),
    decreases u.len(),
{
    if u.len() == 0 {
        assert(st.line + u =~= st.line);
    } else {
        let init = u.drop_last();
        assert forall|i: int| 0 <= i < init.len() implies init[i] != '\n' by {
            assert(init[i] == u[i]);
        }
        lemma_scan_no_newline(st, init);
        assert(u[u.len() - 1] == u.last());
        assert(st.line + init.push(u.last()) =~= (st.line + init).push(u.last()));
        assert(init.push(u.last()) =~= u);
    }
}

proof fn lemma_decimal_digits(n: nat)
    ensures
        decimal(n).len() > 0,
        all_digits(decimal(n)),
    decreases n,
{
    if n >= 10 {
        lemma_decimal_digits(n / 10);
        let d = decimal(n / 10);
        let r = d.push(digit_char(n % 10));
        assert forall|i: int| 0 <= i < r.len() implies '0' <= #[trigger] r[i] && r[i] <= '9' by {
            if i < d.len() {
                assert(r[i] == d[i]);
            }
        }
    }
}

proof fn lemma_number_ok(at: i64)
    ensures
        valid_number(signed_decimal(at as int)),
        forall|i: int|
            0 <= i < signed_decimal(at as int).len() ==> #[trigger] signed_decimal(at as int)[i]
                != ' ' && signed_decimal(at as int)[i] != '\n',
{
    let n = signed_decimal(at as int);
    if at < 0 {
        lemma_decimal_digits((-at) as nat);
        let d = decimal((-at) as nat);
        assert(n.skip(1) =~= d);
        assert forall|i: int| 0 <= i < n.len() implies #[trigger] n[i] != ' ' && n[i] != '\n' by {
            if i > 0 {
                assert(n[i] == d[i - 1]);
            }
        }
    } else {
        lemma_decimal_digits(at as nat);
    }
}

proof fn lemma_entry_id(id: Seq<char>, at: i64, title: Seq<char>)
    requires
        valid_id(id),
    ensures
        line_id(entry_line(id, at, title).drop_last()) == Some(id),
        forall|i: int|
            0 <= i < entry_line(id, at, title).len() - 1 ==> #[trigger] entry_line(id, at, title)[i]
                != '\n',
{
    let num = signed_decimal(at as int);
    let t = one_line(title);
    let body = entry_line(id, at, title).drop_last();
    let rest = num + seq![' ', '"'] + t + seq!['"'];
    let tail = seq!['"'] + t + seq!['"'];
    assert(body =~= id + seq![' '] + rest);
    lemma_number_ok(at);
    assert(is_space(' '));
    assert forall|k: int| 0 <= k < id.len() implies (id + seq![' '] + rest)[k] != ' ' by {
        assert((id + seq![' '] + rest)[k] == id[k]);
    }
    lemma_split_space(body, id.len() as int);
    assert(body.take(id.len() as int) =~= id);
    assert(body.skip(id.len() as int + 1) =~= rest);
    assert forall|k: int| 0 <= k < num.len() implies rest[k] != ' ' by {
        assert(rest[k] == num[k]);
    }
    lemma_split_space(rest, num.len() as int);
    assert(rest.take(num.len() as int) =~= num);
    assert(rest.skip(num.len() as int + 1) =~= tail);
    let e = entry_line(id, at, title);
    assert forall|i: int| 0 <= i < e.len() - 1 implies #[trigger] e[i] != '\n' by {
        assert(e[i] == body[i]);
        if i < id.len() {
            assert(body[i] == id[i]);
        } else if i == id.len() {
        } else if i < id.len() + 1 + num.len() {
            assert(body[i] == num[i - id.len() - 1]);
        } else if i < id.len() + 3 + num.len() {
        } else if i < id.len() + 3 + num.len() + t.len() {
            assert(body[i] == t[i - id.len() - 3 - num.len()]);
            assert(t[i - id.len() - 3 - num.len()] == (if title[i - id.len() - 3 - num.len()]
                == '\n' || title[i - id.len() - 3 - num.len()] == '\r' {
                ' '
            } else {
                title[i - id.len() - 3 - num.len()]
            }));
        }
    }
}

/// Appending to a ledger text, with `append_text`, the entry of an id that
/// is non-empty and holds no white space: the result records that id and
/// every id the text recorded before, whatever the text held (a half-written
/// last line included). An empty text records no id.
pub proof fn lemma_append_then_contains(t: Seq<char>, id: Seq<char>, at: i64, title: Seq<char>)
    requires
        valid_id(id),
    ensures
        ledger_ids(t + append_line(t, id, at, title)).contains(id),
        ledger_ids(t).subset_of(ledger_ids(t + append_line(t, id, at, title))),
        ledger_ids(Seq::<char>::empty()) == Set::<Seq<char>>::empty(),
{
    let e = entry_line(id, at, title);
    let body = e.drop_last();
    lemma_entry_id(id, at, title);
    let pre: Seq<char> = if t.len() > 0 && t.last() != '\n' {
        seq!['\n']
    } else {
        seq![]
    };
    assert(append_line(t, id, at, title) =~= pre + e);
    assert(t + (pre + e) =~= (t + pre) + e);
    let s0 = ledger_scan_from(ledger_start(), t);
    lemma_scan_concat(ledger_start(), t, pre);
    let s1 = ledger_scan_from(s0, pre);
    let empty = Seq::<char>::empty();
    assert(without_cr(empty) == empty);
    assert(split_space(empty) is None);
    assert(s1.line == Seq::<char>::empty()) by {
        if pre.len() > 0 {
            assert(pre.drop_last() =~= Seq::<char>::empty());
            assert(ledger_scan_from(s0, Seq::<char>::empty()) == s0);
        } else {
            assert(t.len() == 0 || t.last() == '\n');
            if t.len() > 0 {
                assert(s0 == ledger_step(ledger_scan_from(ledger_start(), t.drop_last()), t.last()));
            }
            assert(pre =~= Seq::<char>::empty());
        }
    }
    lemma_scan_concat(ledger_start(), t + pre, e);
    assert(e =~= body.push('\n'));
    lemma_scan_concat(s1, body, seq!['\n']);
    assert forall|i: int| 0 <= i < body.len() implies body[i] != '\n' by {
        assert(body[i] == e[i]);
    }
    lemma_scan_no_newline(s1, body);
    let s2 = ledger_scan_from(s1, body);
    assert(s2.line =~= body);
    assert(seq!['\n'].drop_last() =~= Seq::<char>::empty());
    assert(ledger_scan_from(s2, Seq::<char>::empty()) == s2);
    assert(ledger_scan_from(s2, seq!['\n']) == ledger_step(s2, '\n'));
    assert(ledger_step(s2, '\n').ids == s1.ids.insert(id));
    assert(ledger_ids(t).subset_of(s1.ids)) by {
        if pre.len() > 0 {
            assert(pre.drop_last() =~= empty);
            assert(ledger_scan_from(s0, empty) == s0);
            assert(s1 == ledger_step(s0, '\n'));
        } else {
            assert(pre =~= empty);
            assert(s1 == s0);
            assert(s0.line == empty);
        }
    }
    assert(ledger_ids(t + append_line(t, id, at, title)) == s1.ids.insert(id));
}

} // verus!
