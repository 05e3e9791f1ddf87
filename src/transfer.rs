//! The decisions of a resumable download: where the partial file lives, what
//! range to ask for, how far the transfer has come, and what the finished
//! file is called.
use vstd::prelude::*;

use crate::text::{chars_of, decimal, eq_chars, push_chars, push_decimal, push_string, string_of};

verus! {

/// What `sanitize_filename::sanitize` makes of a name.
pub uninterp spec fn sanitized(s: Seq<char>) -> Seq<char>;

/// Relies on `sanitize_filename::sanitize`: the name with the characters a
/// file name cannot hold replaced; its result depends on the name alone.
#[verifier::external_body]
fn sanitize(s: &str) -> (r: String)
    ensures
        r@ == sanitized(s@),
{
    sanitize_filename::sanitize(s)
}

/// The extension std's `Path::extension` finds in a path.
pub uninterp spec fn path_extension_of(s: Seq<char>) -> Option<Seq<char>>;

/// Relies on `std::path::Path::extension`: the part of the last component
/// after its last dot, where there is one.
#[verifier::external_body]
fn path_extension(s: &str) -> (r: Option<String>)
    ensures
        match r {
            Some(e) => path_extension_of(s@) == Some(e@),
            None => path_extension_of(s@) is None,
        },
{
    std::path::Path::new(s).extension().and_then(|e| e.to_str()).map(String::from)
}

/// The extensions `mime_guess` lists for a content type.
pub uninterp spec fn mime_extensions_of(ct: Seq<char>) -> Option<Seq<Seq<char>>>;

/// Relies on `mime_guess::get_mime_extensions_str`: the file extensions
/// registered for a MIME type, in the crate's order.
#[verifier::external_body]
fn mime_extensions(ct: &str) -> (r: Option<Vec<String>>)
    ensures
        match r {
            Some(v) => mime_extensions_of(ct@) == Some(v@.map_values(|e: String| e@)),
            None => mime_extensions_of(ct@) is None,
        },
{
    mime_guess::get_mime_extensions_str(ct).map(|exts| exts.iter().map(|e| e.to_string()).collect())
}

/// The content type assumed where a response declares none.
pub const DEFAULT_CONTENT_TYPE: &'static str = "application/octet-stream";

/// The name of a partial file: the sanitized guid with `.partial` appended.
pub open spec fn partial_name_of(guid: Seq<char>) -> Seq<char> {
    sanitized(guid) + ".partial"@
}

/// The name of the file an episode is downloaded into before it is complete.
pub fn partial_name(guid: &str) -> (r: String)
    ensures
        r@ == partial_name_of(guid@),
{
    let mut s = sanitize(guid);
    push_string(&mut s, ".partial");
    s
}

/// The value of the `Range` header that asks for every byte from `offset` on.
pub open spec fn range_value(offset: u64) -> Seq<char> {
    "bytes="@ + decimal(offset as nat) + seq!['-']
}

/// The value of the `Range` header that asks for every byte from `offset` on.
pub fn range_header(offset: u64) -> (r: String)
    ensures
        r@ == range_value(offset),
{
    let mut s = String::new();
    push_string(&mut s, "bytes=");
    push_decimal(&mut s, offset);
    push_chars(&mut s, &['-']);
    proof {
        assert(s@ =~= range_value(offset));
    }
    s
}

/// A transfer into a partial file: the bytes it held when the request was
/// made, the length the server declared for the rest, and the bytes the file
/// holds now.
#[derive(Clone, Copy, Debug, PartialEq, Eq, Structural)]
pub struct Transfer {
    pub offset: u64,
    pub remaining: u64,
    pub written: u64,
}

impl Transfer {
    /// A transfer resumed over a partial file of `existing` bytes.
    pub fn resume(existing: u64) -> (r: Transfer)
        ensures
            r == (Transfer { offset: existing, remaining: 0, written: existing }),
    {
        Transfer { offset: existing, remaining: 0, written: existing }
    }

    /// The `Range` header the request carries.
    pub fn range(&self) -> (r: String)
        ensures
            r@ == range_value(self.offset),
    {
        range_header(self.offset)
    }

    /// The response declared `content_length` more bytes (none where absent).
    pub fn on_response(&mut self, content_length: Option<u64>)
        ensures
            *final(self) == (Transfer {
                remaining: match content_length {
                    Some(n) => n,
                    None => 0,
                },
                ..*old(self)
            }),
    {
        self.remaining = match content_length {
            Some(n) => n,
            None => 0,
        };
    }

    /// A chunk of `len` bytes was appended to the file.
    pub fn on_chunk(&mut self, len: u64)
        requires
            old(self).written + len <= u64::MAX,
        ensures
            *final(self) == (Transfer { written: (old(self).written + len) as u64, ..*old(self) }),
    {
        self.written = self.written + len;
    }

    /// The size of the whole file: what was there plus what was declared.
    pub open spec fn total_spec(self) -> int {
        self.offset + self.remaining
    }

    /// The size of the whole file, saturating at the largest `u64`.
    pub fn total(&self) -> (r: u64)
        ensures
            r == if self.total_spec() <= u64::MAX {
                self.total_spec()
            } else {
                u64::MAX as int
            },
    {
        self.offset.saturating_add(self.remaining)
    }

    /// Progress for display: the bytes written, never above the total.
    pub fn progress(&self) -> (r: u64)
        ensures
            r <= self.written,
            r as int <= self.total_spec(),
            r == self.written || r as int == self.total_spec(),
    {
        let t = self.total();
        if self.written < t {
            self.written
        } else {
            t
        }
    }
}

/// The sum of a list of chunk lengths.
pub open spec fn sum(chunks: Seq<u64>) -> int
    decreases chunks.len(),
{
    if chunks.len() == 0 {
        0
    } else {
        sum(chunks.drop_last()) + chunks.last()
    }
}

/// A transfer after each chunk of `chunks` was appended.
pub open spec fn after_chunks(t: Transfer, chunks: Seq<u64>) -> Transfer
    decreases chunks.len(),
{
    if chunks.len() == 0 {
        t
    } else {
        let p = after_chunks(t, chunks.drop_last());
        Transfer { written: (p.written + chunks.last()) as u64, ..p }
    }
}

proof fn lemma_after_chunks(t: Transfer, chunks: Seq<u64>)
    requires
        t.written + sum(chunks) <= u64::MAX,
    ensures
        after_chunks(t, chunks).written == t.written + sum(chunks),
        after_chunks(t, chunks).offset == t.offset,
        after_chunks(t, chunks).remaining == t.remaining,
    decreases chunks.len(),
{
    if chunks.len() > 0 {
        lemma_sum_parts(chunks);
        lemma_after_chunks(t, chunks.drop_last());
    }
}

proof fn lemma_sum_parts(chunks: Seq<u64>)
    requires
        chunks.len() > 0,
    ensures
        sum(chunks.drop_last()) <= sum(chunks),
        sum(chunks) >= 0,
    decreases chunks.len(),
{
    if chunks.drop_last().len() > 0 {
        lemma_sum_parts(chunks.drop_last());
    }
}

/// A transfer resumed over a partial file of `k` bytes (whose request asks,
/// by `range_value`, for the bytes from `k` on): once a response declaring `n`
/// more bytes is consumed in chunks that add up to `n`, the file holds
/// `k + n` bytes, its declared total.
pub proof fn lemma_resume_size(k: u64, n: u64, chunks: Seq<u64>)
    requires
        sum(chunks) == n,
        k + n <= u64::MAX,
    ensures
        after_chunks(Transfer { offset: k, remaining: n, written: k }, chunks).written == k + n,
        after_chunks(Transfer { offset: k, remaining: n, written: k }, chunks).total_spec() == k + n,
{
    lemma_after_chunks(Transfer { offset: k, remaining: n, written: k }, chunks);
}

/// The part of `e` before its first `?`.
pub open spec fn before_query(e: Seq<char>) -> Seq<char>
    decreases e.len(),
{
    if e.len() == 0 {
        e
    } else if e[0] == '?' {
        seq![]
    } else {
        seq![e[0]] + before_query(e.skip(1))
    }
}

/// The extension to give a finished download: the one in the URL where it has
/// one, else `mp3` where the content type allows it, else the first extension
/// the content type allows; a query string after it is dropped.
pub open spec fn chosen_extension(
    url_ext: Option<Seq<char>>,
    candidates: Option<Seq<Seq<char>>>,
) -> Option<Seq<char>> {
    let e = match url_ext {
        Some(e) => Some(e),
        None => match candidates {
            Some(c) => if c.contains("mp3"@) {
                Some("mp3"@)
            } else if c.len() > 0 {
                Some(c[0])
            } else {
                None
            },
            None => None,
        },
    };
    match e {
        Some(x) => Some(before_query(x)),
        None => None,
    }
}

fn strip_query(e: &str) -> (r: String)
    ensures
        r@ == before_query(e@),
{
    let cs = chars_of(e);
    let mut i: usize = 0;
    proof {
        assert(cs@.skip(0) =~= cs@);
        assert(cs@.take(0) + before_query(cs@) =~= before_query(cs@));
    }
    while i < cs.len() && cs[i] != '?'
        invariant
            i <= cs@.len(),
            cs@ == e@,
            before_query(e@) == cs@.take(i as int) + before_query(cs@.skip(i as int)),
        decreases cs@.len() - i,
    {
        proof {
            let rest = cs@.skip(i as int);
            assert(rest.skip(1) =~= cs@.skip(i + 1));
            assert(cs@.take(i + 1) =~= cs@.take(i as int) + seq![rest[0]]);
        }
        i = i + 1;
    }
    proof {
        let rest = cs@.skip(i as int);
        if i < cs@.len() {
            assert(rest[0] == '?');
        } else {
            assert(rest.len() == 0);
        }
        assert(cs@.take(i as int) + before_query(rest) =~= cs@.take(i as int));
    }
    let head = string_of(&cs.as_slice()[0..i]);
    proof {
        assert(head@ =~= cs@.take(i as int));
    }
    head
}

/// The extension to give a finished download, from the extension found in
/// its URL and the extensions its content type allows.
pub fn pick_extension(url_ext: Option<String>, candidates: Option<Vec<String>>) -> (r: Option<String>)
    ensures
        match r {
            Some(e) => chosen_extension(
                match url_ext {
                    Some(u) => Some(u@),
                    None => None,
                },
                match candidates {
                    Some(c) => Some(c@.map_values(|x: String| x@)),
                    None => None,
                },
            ) == Some(e@),
            None => chosen_extension(
                match url_ext {
                    Some(u) => Some(u@),
                    None => None,
                },
                match candidates {
                    Some(c) => Some(c@.map_values(|x: String| x@)),
                    None => None,
                },
            ) is None,
        },
{
    let e = match url_ext {
        Some(e) => e,
        None => match candidates {
            None => return None,
            Some(c) => {
                let ghost cv = c@.map_values(|x: String| x@);
                let mp3 = chars_of("mp3");
                let mut i: usize = 0;
                let mut found = false;
                while i < c.len()
                    invariant
                        i <= c@.len(),
                        mp3@ == "mp3"@,
                        cv == c@.map_values(|x: String| x@),
                        found == exists|j: int| 0 <= j < i && cv[j] == "mp3"@,
                    decreases c@.len() - i,
                {
                    let x = chars_of(c[i].as_str());
                    if eq_chars(x.as_slice(), mp3.as_slice()) {
                        found = true;
                        assert(cv[i as int] == "mp3"@);
                    }
                    i = i + 1;
                }
                if found {
                    assert(cv.contains("mp3"@));
                    string_of(mp3.as_slice())
                } else if c.len() > 0 {
                    assert(!cv.contains("mp3"@));
                    c[0].clone()
                } else {
                    return None;
                }
            },
        },
    };
    Some(strip_query(e.as_str()))
}

/// The extension to give a download of `url` whose response declared
/// `content_type`.
pub fn get_extension_from_response(url: &str, content_type: Option<&str>) -> (r: Option<String>)
    ensures
        match r {
            Some(e) => chosen_extension(
                path_extension_of(url@),
                mime_extensions_of(
                    match content_type {
                        Some(ct) => ct@,
                        None => DEFAULT_CONTENT_TYPE@,
                    },
                ),
            ) == Some(e@),
            None => chosen_extension(
                path_extension_of(url@),
                mime_extensions_of(
                    match content_type {
                        Some(ct) => ct@,
                        None => DEFAULT_CONTENT_TYPE@,
                    },
                ),
            ) is None,
        },
{
    let from_url = path_extension(url);
    let candidates = match from_url {
        Some(_) => None,
        None => match content_type {
            Some(ct) => mime_extensions(ct),
            None => mime_extensions(DEFAULT_CONTENT_TYPE),
        },
    };
    pick_extension(from_url, candidates)
}

/// The number of bytes UTF-8 takes for `c`.
pub open spec fn utf8_width(c: char) -> nat {
    if (c as u32) < 0x80 {
        1
    } else if (c as u32) < 0x800 {
        2
    } else if (c as u32) < 0x10000 {
        3
    } else {
        4
    }
}

/// The number of bytes UTF-8 takes for `s`.
pub open spec fn utf8_len(s: Seq<char>) -> nat
    decreases s.len(),
{
    if s.len() == 0 {
        0
    } else {
        utf8_len(s.drop_last()) + utf8_width(s.last())
    }
}

/// The longest file name a file system takes, in bytes.
pub const MAX_FILE_LEN: usize = 255;

/// How many leading characters of `s` fit in `budget` bytes of UTF-8: the
/// longest prefix that fits, as every character takes at least one byte.
pub open spec fn fit_bytes(s: Seq<char>, budget: int) -> nat
    decreases s.len(),
{
    if s.len() == 0 || utf8_width(s[0]) > budget {
        0
    } else {
        1 + fit_bytes(s.skip(1), budget - utf8_width(s[0]))
    }
}

/// The final file name: the longest prefix of the sanitized evaluated name
/// pattern that, with the dot and the extension, fits in `MAX_FILE_LEN`
/// bytes, then the extension, where there is one.
pub open spec fn final_name_of(name: Seq<char>, ext: Option<Seq<char>>) -> Seq<char> {
    let base = sanitized(name);
    match ext {
        Some(e) => base.take(fit_bytes(base, MAX_FILE_LEN - utf8_len(e) - 1) as int) + seq!['.']
            + e,
        None => base,
    }
}

fn utf8_count(s: &[char]) -> (r: u128)
    ensures
        r == utf8_len(s@),
        r <= 4 * (usize::MAX as int),
{
    let mut n: u128 = 0;
    let mut i: usize = 0;
    while i < s.len()
        invariant
            i <= s@.len(),
            n == utf8_len(s@.take(i as int)),
            n <= 4 * i,
        decreases s@.len() - i,
    {
        let c = s[i];
        let w: u128 = if (c as u32) < 0x80 {
            1
        } else if (c as u32) < 0x800 {
            2
        } else if (c as u32) < 0x10000 {
            3
        } else {
            4
        };
        proof {
            assert(s@.take(i + 1).drop_last() =~= s@.take(i as int));
        }
        n = n + w;
        i = i + 1;
    }
    proof {
        assert(s@.take(s@.len() as int) =~= s@);
    }
    n
}

/// The name the downloaded file is renamed to, from the evaluated name
/// pattern and the extension of the download.
pub fn final_file_name(name: &str, extension: Option<&str>) -> (r: String)
    ensures
        r@ == final_name_of(
            name@,
            match extension {
                Some(e) => Some(e@),
                None => None,
            },
        ),
{
    let base = sanitize(name);
    match extension {
        None => base,
        Some(e) => {
            let bs = chars_of(base.as_str());
            let es = chars_of(e);
            let used = utf8_count(es.as_slice()) + 1;
            let budget: i128 = MAX_FILE_LEN as i128 - used as i128;
            let mut left: i128 = budget;
            let mut keep: usize = 0;
            let mut stopped = false;
            proof {
                assert(bs@.skip(0) =~= bs@);
            }
            while keep < bs.len() && !stopped
                invariant
                    keep <= bs@.len(),
                    budget == MAX_FILE_LEN - utf8_len(es@) - 1,
                    left <= budget,
                    fit_bytes(bs@, budget as int) == keep + fit_bytes(bs@.skip(keep as int), left as int),
                    stopped ==> keep < bs@.len() && fit_bytes(bs@.skip(keep as int), left as int) == 0,
                    left >= -(4 * (usize::MAX as int)) - 1,
                decreases bs@.len() - keep + (if stopped { 0int } else { 1int }),
            {
                let c = bs[keep];
                let w: i128 = if (c as u32) < 0x80 {
                    1
                } else if (c as u32) < 0x800 {
                    2
                } else if (c as u32) < 0x10000 {
                    3
                } else {
                    4
                };
                proof {
                    assert(bs@.skip(keep as int)[0] == bs@[keep as int]);
                    assert(bs@.skip(keep as int).skip(1) =~= bs@.skip(keep + 1));
                }
                if w > left {
                    stopped = true;
                } else {
                    left = left - w;
                    keep = keep + 1;
                }
            }
            proof {
                if !stopped {
                    assert(bs@.skip(keep as int).len() == 0);
                }
            }
            let mut out = string_of(&bs.as_slice()[0..keep]);
            push_chars(&mut out, &['.']);
            push_chars(&mut out, es.as_slice());
            proof {
                assert(bs@.subrange(0, keep as int) =~= bs@.take(keep as int));
                assert(out@ =~= final_name_of(name@, Some(e@)));
            }
            out
        },
    }
}

/// The path of `name` inside the directory `dir`.
pub open spec fn joined(dir: Seq<char>, name: Seq<char>) -> Seq<char> {
    if dir.len() > 0 && dir.last() == '/' {
        dir + name
    } else {
        dir + seq!['/'] + name
    }
}

/// Where the link to a downloaded file goes: the file's name inside the
/// symlink directory; `None` where that is the file itself, which the link
/// would replace.
pub fn symlink_target(source: &str, dir: &str, file_name: &str) -> (r: Option<String>)
    ensures
        match r {
            Some(t) => t@ == joined(dir@, file_name@) && t@ != source@,
            None => joined(dir@, file_name@) == source@,
        },
{
    let ds = chars_of(dir);
    let mut t = String::new();
    push_string(&mut t, dir);
    if !(ds.len() > 0 && ds[ds.len() - 1] == '/') {
        push_chars(&mut t, &['/']);
    }
    push_string(&mut t, file_name);
    proof {
        assert(t@ =~= joined(dir@, file_name@));
    }
    let tc = chars_of(t.as_str());
    let sc = chars_of(source);
    if eq_chars(tc.as_slice(), sc.as_slice()) {
        None
    } else {
        Some(t)
    }
}

} // verus!
