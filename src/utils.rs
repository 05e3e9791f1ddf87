//! Small text helpers: quotes, quoted pairs, display-width truncation, and
//! the hashed names of cached files.
use vstd::prelude::*;
use vstd::string::StringSliceAdditionalSpecFns;

use crate::patterns::{find_entry, lookup};
use crate::text::{chars_of, push_chars, push_string, string_of};

verus! {

/// `s` without the double quotes at its end.
pub open spec fn strip_trailing_quotes(s: Seq<char>) -> Seq<char>
    decreases s.len(),
{
    if s.len() > 0 && s.last() == '"' {
        strip_trailing_quotes(s.drop_last())
    } else {
        s
    }
}

/// `s` without the double quotes at its start.
pub open spec fn strip_leading_quotes(s: Seq<char>) -> Seq<char>
    decreases s.len(),
{
    if s.len() > 0 && s[0] == '"' {
        strip_leading_quotes(s.skip(1))
    } else {
        s
    }
}

/// `s` without the double quotes at its end and then at its start.
pub fn trim_quotes(s: &str) -> (r: String)
    ensures
        r@ == strip_leading_quotes(strip_trailing_quotes(s@)),
{
    let cs = chars_of(s);
    let mut end: usize = cs.len();
    proof {
        assert(cs@.take(cs@.len() as int) =~= cs@);
    }
    while end > 0 && cs[end - 1] == '"'
        invariant
            end <= cs@.len(),
            cs@ == s@,
            strip_trailing_quotes(s@) == strip_trailing_quotes(cs@.take(end as int)),
        decreases end,
    {
        proof {
            assert(cs@.take(end as int).drop_last() =~= cs@.take(end - 1));
        }
        end = end - 1;
    }
    let mut start: usize = 0;
    let ghost t = cs@.take(end as int);
    proof {
        assert(t.skip(0) =~= t);
    }
    while start < end && cs[start] == '"'
        invariant
            start <= end <= cs@.len(),
            cs@ == s@,
            t == cs@.take(end as int),
            strip_trailing_quotes(s@) == t,
            strip_leading_quotes(t) == strip_leading_quotes(t.skip(start as int)),
        decreases end - start,
    {
        proof {
            assert(t.skip(start as int).skip(1) =~= t.skip(start + 1));
        }
        start = start + 1;
    }
    let r = string_of(&cs.as_slice()[start..end]);
    proof {
        assert(r@ =~= t.skip(start as int));
    }
    r
}

/// The position of the first space in `s`.
pub open spec fn first_space(s: Seq<char>) -> Option<int> {
    if exists|i: int| 0 <= i < s.len() && s[i] == ' ' {
        Some(choose|i: int| 0 <= i < s.len() && s[i] == ' ' && forall|j: int| 0 <= j < i ==> s[j] != ' ')
    } else {
        None
    }
}

/// `w` without its first and last characters, where it has both.
pub open spec fn unquoted(w: Seq<char>) -> Option<Seq<char>> {
    if w.len() >= 2 {
        Some(w.subrange(1, w.len() - 1))
    } else {
        None
    }
}

/// A line `"key" "value"` split at its first space, with the enclosing
/// character of each word dropped; `None` where there is no space or a word
/// is shorter than two characters.
pub open spec fn quoted_words(line: Seq<char>) -> Option<(Seq<char>, Seq<char>)> {
    match first_space(line) {
        Some(i) => match (unquoted(line.take(i)), unquoted(line.skip(i + 1))) {
            (Some(k), Some(v)) => Some((k, v)),
            _ => None,
        },
        None => None,
    }
}

/// A line `"key" "value"` split at its first space, with the enclosing
/// character of each word dropped.
pub fn parse_quoted_words(line: &str) -> (r: Option<(String, String)>)
    ensures
        match r {
            Some((k, v)) => quoted_words(line@) == Some((k@, v@)),
            None => quoted_words(line@) is None,
        },
{
    let cs = chars_of(line);
    let mut i: usize = 0;
    while i < cs.len() && cs[i] != ' '
        invariant
            i <= cs@.len(),
            cs@ == line@,
            forall|j: int| 0 <= j < i ==> cs@[j] != ' ',
        decreases cs@.len() - i,
    {
        i = i + 1;
    }
    if i == cs.len() {
        return None;
    }
    proof {
        let c = choose|c: int| 0 <= c < cs@.len() && cs@[c] == ' ' && forall|j: int| 0 <= j < c ==> cs@[j] != ' ';
        if c < i {
        } else if c > i {
        }
        assert(first_space(line@) == Some(i as int));
    }
    let n = cs.len();
    if i < 2 || n - (i + 1) < 2 {
        return None;
    }
    let k = string_of(&cs.as_slice()[1..i - 1]);
    let v = string_of(&cs.as_slice()[i + 2..n - 1]);
    proof {
        assert(k@ =~= line@.take(i as int).subrange(1, i - 1));
        assert(v@ =~= line@.skip(i + 1).subrange(1, (n - (i + 1)) - 1));
    }
    Some((k, v))
}

/// The display width `unicode_width` gives a one-character string.
pub uninterp spec fn char_width(c: char) -> nat;

/// Relies on `unicode_width::UnicodeWidthStr::width`: the columns a string of
/// the one character `c` takes on a terminal.
#[verifier::external_body]
fn display_width(c: char) -> (r: usize)
    ensures
        r == char_width(c),
{
    let mut buf = [0u8; 4];
    unicode_width::UnicodeWidthStr::width(&*c.encode_utf8(&mut buf))
}

/// How many leading characters of `s` fit in `max` columns.
pub open spec fn fitting(s: Seq<char>, max: int) -> nat
    decreases s.len(),
{
    if s.len() == 0 || char_width(s[0]) > max {
        0
    } else {
        1 + fitting(s.skip(1), max - char_width(s[0]))
    }
}

/// `s` cut to the characters that fit in `max_width` columns; where that cuts
/// something off and `append_dots` is set, the last three kept characters
/// give way to `...`.
pub open spec fn truncated(s: Seq<char>, max_width: int, append_dots: bool) -> Seq<char> {
    let k = fitting(s, max_width);
    if k < s.len() && append_dots {
        s.take(if k >= 3 { k - 3 } else { 0 }) + "..."@
    } else {
        s.take(k as int)
    }
}

/// `s` cut to fit `max_width` columns, ending in `...` where it was cut and
/// `append_dots` is set.
pub fn truncate_string(s: &str, max_width: usize, append_dots: bool) -> (r: String)
    ensures
        r@ == truncated(s@, max_width as int, append_dots),
{
    let cs = chars_of(s);
    let mut width: u128 = 0;
    let mut i: usize = 0;
    proof {
        assert(cs@.skip(0) =~= cs@);
    }
    let mut stopped = false;
    while i < cs.len() && !stopped
        invariant
            i <= cs@.len(),
            cs@ == s@,
            width <= max_width,
            fitting(s@, max_width as int) == i + fitting(cs@.skip(i as int), max_width - width),
            stopped ==> i < cs@.len() && fitting(cs@.skip(i as int), max_width - width) == 0,
        decreases cs@.len() - i + (if stopped { 0int } else { 1int }),
    {
        let w = display_width(cs[i]);
        proof {
            assert(cs@.skip(i as int)[0] == cs@[i as int]);
            assert(cs@.skip(i as int).skip(1) =~= cs@.skip(i + 1));
        }
        if width + w as u128 > max_width as u128 {
            stopped = true;
        } else {
            width = width + w as u128;
            i = i + 1;
        }
    }
    proof {
        if !stopped {
            assert(cs@.skip(i as int).len() == 0);
        }
    }
    let reached_max = i < cs.len();
    if reached_max && append_dots {
        let keep: usize = if i >= 3 {
            i - 3
        } else {
            0
        };
        let mut r = string_of(&cs.as_slice()[0..keep]);
        push_string(&mut r, "...");
        proof {
            assert(cs@.subrange(0, keep as int) =~= s@.take(keep as int));
        }
        r
    } else {
        let r = string_of(&cs.as_slice()[0..i]);
        proof {
            assert(cs@.subrange(0, i as int) =~= s@.take(i as int));
        }
        r
    }
}

/// The 64-bit FNV-1a hash of `bytes`: from the offset basis, each byte is
/// xored in and the hash multiplied by the FNV prime, modulo 2^64.
pub open spec fn fnv1a(bytes: Seq<u8>) -> u64
    decreases bytes.len(),
{
    if bytes.len() == 0 {
        0xcbf29ce484222325u64
    } else {
        (((fnv1a(bytes.drop_last()) ^ (bytes.last() as u64)) as int * 0x100000001b3int)
            % 0x10000000000000000int) as u64
    }
}

/// Relies on `fnv::FnvHasher` (`write`, then `finish`): the FNV-1a hash of
/// the UTF-8 bytes of `s`.
#[verifier::external_body]
fn fnv_hash(s: &str) -> (r: u64)
    ensures
        r == fnv1a(s.spec_bytes()),
{
    let mut h = fnv::FnvHasher::default();
    std::hash::Hasher::write(&mut h, s.as_bytes());
    std::hash::Hasher::finish(&h)
}

/// The character of a hexadecimal digit, in lower case.
pub open spec fn hex_char(d: nat) -> char {
    if d < 10 {
        crate::text::digit_char(d)
    } else if d == 10 {
        'a'
    } else if d == 11 {
        'b'
    } else if d == 12 {
        'c'
    } else if d == 13 {
        'd'
    } else if d == 14 {
        'e'
    } else {
        'f'
    }
}

/// The hexadecimal numeral of `n`, in lower case, without leading zeros.
pub open spec fn hex(n: nat) -> Seq<char>
    decreases n,
{
    if n < 16 {
        seq![hex_char(n)]
    } else {
        hex(n / 16).push(hex_char(n % 16))
    }
}

fn hex_digit(d: u64) -> (c: char)
    requires
        d < 16,
    ensures
        c == hex_char(d as nat),
{
    if d == 0 { '0' }
    else if d == 1 { '1' }
    else if d == 2 { '2' }
    else if d == 3 { '3' }
    else if d == 4 { '4' }
    else if d == 5 { '5' }
    else if d == 6 { '6' }
    else if d == 7 { '7' }
    else if d == 8 { '8' }
    else if d == 9 { '9' }
    else if d == 10 { 'a' }
    else if d == 11 { 'b' }
    else if d == 12 { 'c' }
    else if d == 13 { 'd' }
    else if d == 14 { 'e' }
    else { 'f' }
}

fn push_hex(s: &mut String, n: u64)
    ensures
        final(s)@ == old(s)@ + hex(n as nat),
    decreases n,
{
    if n >= 16 {
        push_hex(s, n / 16);
    }
    let c = hex_digit(n % 16);
    push_chars(s, &[c]);
    proof {
        if n >= 16 {
            assert(hex(n as nat) == hex((n / 16) as nat).push(hex_char((n % 16) as nat)));
        }
    }
}

/// The name a cached file for `url` is stored under: the FNV-1a hash of the
/// URL in lower-case hexadecimal.
pub fn hashed_url(url: &str) -> (r: String)
    ensures
        r@ == hex(fnv1a(url.spec_bytes()) as nat),
{
    let h = fnv_hash(url);
    let mut s = String::new();
    push_hex(&mut s, h);
    s
}

/// The text a `{key}` span of a search-result template stands for: the
/// field's text, or `<key>` where the result has no such field.
pub open spec fn field_text(fields: Seq<(String, String)>, key: Seq<char>) -> Seq<char> {
    match lookup(fields, key) {
        Some(v) => v,
        None => seq!['<'] + key + seq!['>'],
    }
}

/// Where filling a template stands: the text so far, the key being read,
/// and whether a span is open.
pub struct FillState {
    pub out: Seq<char>,
    pub key: Seq<char>,
    pub inside: bool,
}

/// Reading one more character of a template.
pub open spec fn fill_step(fields: Seq<(String, String)>, st: FillState, c: char) -> FillState {
    if c == '{' && !st.inside {
        FillState { out: st.out, key: seq![], inside: true }
    } else if c == '}' && st.inside {
        FillState { out: st.out + field_text(fields, st.key), key: seq![], inside: false }
    } else if st.inside {
        FillState { key: st.key.push(c), ..st }
    } else {
        FillState { out: st.out.push(c), ..st }
    }
}

/// Reading all of `t`.
pub open spec fn fill_scan(fields: Seq<(String, String)>, t: Seq<char>) -> FillState
    decreases t.len(),
{
    if t.len() == 0 {
        FillState { out: seq![], key: seq![], inside: false }
    } else {
        fill_step(fields, fill_scan(fields, t.drop_last()), t.last())
    }
}

/// A search result laid out by a template: each `{key}` span is replaced by
/// the result's field of that name; a span left open at the end is dropped.
pub fn replacer(fields: &Vec<(String, String)>, input: &str) -> (r: String)
    ensures
        r@ == fill_scan(fields@, input@).out,
{
    let cs = chars_of(input);
    let mut out = String::new();
    let mut key: Vec<char> = Vec::new();
    let mut inside = false;
    let mut i: usize = 0;
    proof {
        assert(cs@.take(0) =~= Seq::<char>::empty());
    }
    while i < cs.len()
        invariant
            i <= cs@.len(),
            cs@ == input@,
            fill_scan(fields@, cs@.take(i as int)) == (FillState { out: out@, key: key@, inside }),
        decreases cs@.len() - i,
    {
        proof {
            assert(cs@.take(i + 1).drop_last() =~= cs@.take(i as int));
        }
        let c = cs[i];
        if c == '{' && !inside {
            key = Vec::new();
            inside = true;
            proof {
                assert(key@ =~= Seq::<char>::empty());
            }
        } else if c == '}' && inside {
            match find_entry(fields, key.as_slice()) {
                Some(v) => push_string(&mut out, v.as_str()),
                None => {
                    push_chars(&mut out, &['<']);
                    push_chars(&mut out, key.as_slice());
                    push_chars(&mut out, &['>']);
                    proof {
                        assert(out@ =~= fill_scan(fields@, cs@.take(i as int)).out + (seq!['<']
                            + key@ + seq!['>']));
                    }
                },
            }
            key = Vec::new();
            inside = false;
            proof {
                assert(key@ =~= Seq::<char>::empty());
            }
        } else if inside {
            key.push(c);
        } else {
            let ghost before = out@;
            push_chars(&mut out, &[c]);
            proof {
                assert(out@ =~= before.push(c));
            }
        }
        i = i + 1;
    }
    proof {
        assert(cs@.take(cs@.len() as int) =~= cs@);
    }
    out
}

} // verus!
