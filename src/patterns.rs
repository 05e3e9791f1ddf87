//! Templates: text with `{token}` spans, compiled against the data sources a
//! call site can offer and evaluated against a bundle of those sources.
use std::fmt::Write;
use vstd::prelude::*;

use crate::text::{
    chars_from, chars_of, eq_chars, has_prefix, push_signed_decimal, push_string, signed_decimal,
    starts_with, string_of,
};

verus! {

/// The program's name, as the `{appname}` token yields it.
pub const APPNAME: &'static str = "talecast";

/// What a lookup of a missing attribute yields.
pub const NULL_VALUE: &'static str = "<value not found>";

/// A kind of data that a token reads.
#[derive(Clone, Copy, Debug, PartialEq, Eq, Structural)]
pub enum SourceType {
    Episode,
    Podcast,
    Tags,
}

/// The set of source kinds a call site can supply.
#[derive(Clone, Copy, Debug, PartialEq, Eq, Structural)]
pub struct Sources {
    pub episode: bool,
    pub podcast: bool,
    pub tags: bool,
}

impl Sources {
    pub open spec fn has(self, s: SourceType) -> bool {
        match s {
            SourceType::Episode => self.episode,
            SourceType::Podcast => self.podcast,
            SourceType::Tags => self.tags,
        }
    }

    pub fn new(episode: bool, podcast: bool, tags: bool) -> (r: Sources)
        ensures
            r == (Sources { episode, podcast, tags }),
    {
        Sources { episode, podcast, tags }
    }

    pub fn contains(&self, s: SourceType) -> (r: bool)
        ensures
            r == self.has(s),
    {
        match s {
            SourceType::Episode => self.episode,
            SourceType::Podcast => self.podcast,
            SourceType::Tags => self.tags,
        }
    }
}

/// A token without an argument.
#[derive(Clone, Copy, Debug, PartialEq, Eq, Structural)]
pub enum UnitPattern {
    Guid,
    Url,
    PodName,
    AppName,
    Home,
}

/// The kind of a token of the form `prefix::argument`.
#[derive(Clone, Copy, Debug, PartialEq, Eq, Structural)]
pub enum DataPatternType {
    RssEpisode,
    RssChannel,
    PubDate,
    CurrDate,
    Id3,
}

#[derive(Clone, Debug)]
pub struct DataPattern {
    pub ty: DataPatternType,
    pub data: String,
}

#[derive(Clone, Debug)]
pub enum Pattern {
    Unit(UnitPattern),
    Data(DataPattern),
}

#[derive(Clone, Debug)]
pub enum Segment {
    Text(String),
    Pattern(Pattern),
}

/// A compiled template: its segments in order.
#[derive(Clone, Debug)]
pub struct FullPattern(pub Vec<Segment>);

/// What a segment stands for.
pub enum SegmentModel {
    Text(Seq<char>),
    Unit(UnitPattern),
    Data(DataPatternType, Seq<char>),
}

impl Segment {
    pub open spec fn model(self) -> SegmentModel {
        match self {
            Segment::Text(t) => SegmentModel::Text(t@),
            Segment::Pattern(Pattern::Unit(u)) => SegmentModel::Unit(u),
            Segment::Pattern(Pattern::Data(d)) => SegmentModel::Data(d.ty, d.data@),
        }
    }
}

impl View for FullPattern {
    type V = Seq<SegmentModel>;

    open spec fn view(&self) -> Seq<SegmentModel> {
        seg_models(self.0@)
    }
}

/// What each of a list of segments stands for.
pub open spec fn seg_models(v: Seq<Segment>) -> Seq<SegmentModel> {
    v.map_values(|s: Segment| s.model())
}

/// Why a template was refused.
#[derive(Clone, Debug, PartialEq, Eq)]
pub enum PatternError {
    /// A `}` with no open span.
    UnexpectedClose { template: String },
    /// A `{` inside a span.
    NestedOpen { template: String },
    /// A span still open at the end.
    Unclosed { template: String },
    /// A span that names no token.
    UnknownToken { template: String, span: String },
    /// A token that needs a source the call site cannot supply.
    MissingSource { template: String, source: SourceType },
}

/// The kind of a refusal, with what it names.
pub enum ErrorModel {
    UnexpectedClose,
    NestedOpen,
    Unclosed,
    UnknownToken(Seq<char>),
    MissingSource(SourceType),
}

impl PatternError {
    pub open spec fn model(self) -> ErrorModel {
        match self {
            PatternError::UnexpectedClose { .. } => ErrorModel::UnexpectedClose,
            PatternError::NestedOpen { .. } => ErrorModel::NestedOpen,
            PatternError::Unclosed { .. } => ErrorModel::Unclosed,
            PatternError::UnknownToken { span, .. } => ErrorModel::UnknownToken(span@),
            PatternError::MissingSource { source, .. } => ErrorModel::MissingSource(source),
        }
    }

    pub open spec fn template_of(self) -> Seq<char> {
        match self {
            PatternError::UnexpectedClose { template } => template@,
            PatternError::NestedOpen { template } => template@,
            PatternError::Unclosed { template } => template@,
            PatternError::UnknownToken { template, .. } => template@,
            PatternError::MissingSource { template, .. } => template@,
        }
    }
}

/// Whether `span` is `prefix` followed by a non-empty argument.
pub open spec fn data_match(span: Seq<char>, prefix: Seq<char>) -> bool {
    has_prefix(span, prefix) && span.len() > prefix.len()
}

/// The token a span names, if any.
pub open spec fn classify(span: Seq<char>) -> Option<SegmentModel> {
    if span == "guid"@ {
        Some(SegmentModel::Unit(UnitPattern::Guid))
    } else if span == "url"@ {
        Some(SegmentModel::Unit(UnitPattern::Url))
    } else if span == "podname"@ {
        Some(SegmentModel::Unit(UnitPattern::PodName))
    } else if span == "appname"@ {
        Some(SegmentModel::Unit(UnitPattern::AppName))
    } else if span == "home"@ {
        Some(SegmentModel::Unit(UnitPattern::Home))
    } else if data_match(span, "rss::episode::"@) {
        Some(SegmentModel::Data(DataPatternType::RssEpisode, span.skip("rss::episode::"@.len() as int)))
    } else if data_match(span, "rss::channel::"@) {
        Some(SegmentModel::Data(DataPatternType::RssChannel, span.skip("rss::channel::"@.len() as int)))
    } else if data_match(span, "pubdate::"@) {
        Some(SegmentModel::Data(DataPatternType::PubDate, span.skip("pubdate::"@.len() as int)))
    } else if data_match(span, "currdate::"@) {
        Some(SegmentModel::Data(DataPatternType::CurrDate, span.skip("currdate::"@.len() as int)))
    } else if data_match(span, "id3::"@) {
        Some(SegmentModel::Data(DataPatternType::Id3, span.skip("id3::"@.len() as int)))
    } else {
        None
    }
}

/// Where a left-to-right reading of a template stands.
pub struct ScanState {
    pub segs: Seq<SegmentModel>,
    pub text: Seq<char>,
    pub span: Seq<char>,
    pub inside: bool,
}

/// Reading one more character.
pub open spec fn scan_step(st: ScanState, c: char) -> Result<ScanState, ErrorModel> {
    if c == '}' {
        if !st.inside {
            Err(ErrorModel::UnexpectedClose)
        } else {
            match classify(st.span) {
                None => Err(ErrorModel::UnknownToken(st.span)),
                Some(tok) => Ok(
                    ScanState { segs: st.segs.push(tok), text: st.text, span: seq![], inside: false },
                ),
            }
        }
    } else if c == '{' {
        if st.inside {
            Err(ErrorModel::NestedOpen)
        } else {
            Ok(
                ScanState {
                    segs: st.segs.push(SegmentModel::Text(st.text)),
                    text: seq![],
                    span: st.span,
                    inside: true,
                },
            )
        }
    } else if st.inside {
        Ok(ScanState { span: st.span.push(c), ..st })
    } else {
        Ok(ScanState { text: st.text.push(c), ..st })
    }
}

/// Reading all of `t`.
pub open spec fn scan(t: Seq<char>) -> Result<ScanState, ErrorModel>
    decreases t.len(),
{
    if t.len() == 0 {
        Ok(ScanState { segs: seq![], text: seq![], span: seq![], inside: false })
    } else {
        match scan(t.drop_last()) {
            Err(e) => Err(e),
            Ok(st) => scan_step(st, t.last()),
        }
    }
}

/// The segments of a well-formed template, by syntax alone.
pub open spec fn parse(t: Seq<char>) -> Result<Seq<SegmentModel>, ErrorModel> {
    match scan(t) {
        Err(e) => Err(e),
        Ok(st) => if st.inside {
            Err(ErrorModel::Unclosed)
        } else if st.text.len() > 0 {
            Ok(st.segs.push(SegmentModel::Text(st.text)))
        } else {
            Ok(st.segs)
        },
    }
}

/// The source a segment reads, if it reads one.
pub open spec fn needs(seg: SegmentModel) -> Option<SourceType> {
    match seg {
        SegmentModel::Text(_) => None,
        SegmentModel::Unit(u) => match u {
            UnitPattern::Guid => Some(SourceType::Episode),
            UnitPattern::Url => Some(SourceType::Episode),
            UnitPattern::PodName => Some(SourceType::Podcast),
            UnitPattern::AppName => None,
            UnitPattern::Home => None,
        },
        SegmentModel::Data(ty, _) => match ty {
            DataPatternType::RssEpisode => Some(SourceType::Episode),
            DataPatternType::RssChannel => Some(SourceType::Podcast),
            DataPatternType::PubDate => Some(SourceType::Episode),
            DataPatternType::CurrDate => None,
            DataPatternType::Id3 => Some(SourceType::Tags),
        },
    }
}

/// Whether the segment reads a source outside `avail`.
pub open spec fn lacks(seg: SegmentModel, avail: Sources) -> bool {
    match needs(seg) {
        Some(s) => !avail.has(s),
        None => false,
    }
}

/// The source needed by the first segment whose source is not in `avail`.
pub open spec fn first_missing(segs: Seq<SegmentModel>, avail: Sources) -> Option<SourceType>
    decreases segs.len(),
{
    if segs.len() == 0 {
        None
    } else if lacks(segs[0], avail) {
        needs(segs[0])
    } else {
        first_missing(segs.skip(1), avail)
    }
}

/// Compiling a template against the sources a call site can supply.
pub open spec fn compile(t: Seq<char>, avail: Sources) -> Result<Seq<SegmentModel>, ErrorModel> {
    match parse(t) {
        Err(e) => Err(e),
        Ok(segs) => match first_missing(segs, avail) {
            Some(s) => Err(ErrorModel::MissingSource(s)),
            None => Ok(segs),
        },
    }
}

/// The value of the first entry under `key`.
pub open spec fn lookup(entries: Seq<(String, String)>, key: Seq<char>) -> Option<Seq<char>>
    decreases entries.len(),
{
    if entries.len() == 0 {
        None
    } else if entries[0].0@ == key {
        Some(entries[0].1@)
    } else {
        lookup(entries.skip(1), key)
    }
}

/// The value of the first entry under `key`.
pub fn find_entry(entries: &Vec<(String, String)>, key: &[char]) -> (r: Option<String>)
    ensures
        match r {
            Some(v) => lookup(entries@, key@) == Some(v@),
            None => lookup(entries@, key@) is None,
        },
{
    let mut i: usize = 0;
    proof {
        assert(entries@.skip(0) =~= entries@);
    }
    while i < entries.len()
        invariant
            i <= entries@.len(),
            lookup(entries@, key@) == lookup(entries@.skip(i as int), key@),
        decreases entries@.len() - i,
    {
        proof {
            assert(entries@.skip(i as int).skip(1) =~= entries@.skip(i + 1));
        }
        let k = chars_of(entries[i].0.as_str());
        if eq_chars(k.as_slice(), key) {
            return Some(entries[i].1.clone());
        }
        i = i + 1;
    }
    None
}

/// The channel-level data of a feed, with the name it is subscribed under.
#[derive(Clone, Debug)]
pub struct RawPodcast {
    pub name: String,
    pub entries: Vec<(String, String)>,
}

impl RawPodcast {
    pub fn new(name: String, entries: Vec<(String, String)>) -> (r: RawPodcast)
        ensures
            r.name == name,
            r.entries == entries,
    {
        RawPodcast { name, entries }
    }

    /// The text of a channel attribute, keyed as `namespace:name` or `name`.
    pub fn get_str(&self, key: &str) -> (r: Option<String>)
        ensures
            match r {
                Some(v) => lookup(self.entries@, key@) == Some(v@),
                None => lookup(self.entries@, key@) is None,
            },
    {
        let k = chars_of(key);
        find_entry(&self.entries, k.as_slice())
    }
}

/// The attributes of one episode.
#[derive(Clone, Debug)]
pub struct Attributes {
    pub title: String,
    pub url: String,
    pub mime: Option<String>,
    pub guid: String,
    /// Publication time, in seconds since the epoch.
    pub published: i64,
    /// Every text attribute of the item, keyed as `namespace:name` or `name`.
    pub raw: Vec<(String, String)>,
}

impl Attributes {
    pub fn published(&self) -> (r: i64)
        ensures
            r == self.published,
    {
        self.published
    }

    pub fn title(&self) -> (r: &str)
        ensures
            r@ == self.title@,
    {
        self.title.as_str()
    }

    pub fn guid(&self) -> (r: &str)
        ensures
            r@ == self.guid@,
    {
        self.guid.as_str()
    }

    pub fn url(&self) -> (r: &str)
        ensures
            r@ == self.url@,
    {
        self.url.as_str()
    }

    /// The text of an item attribute.
    pub fn get_str(&self, key: &str) -> (r: Option<String>)
        ensures
            match r {
                Some(v) => lookup(self.raw@, key@) == Some(v@),
                None => lookup(self.raw@, key@) is None,
            },
    {
        let k = chars_of(key);
        find_entry(&self.raw, k.as_slice())
    }
}

/// The sources one evaluation may read; each is optional.
#[derive(Clone, Debug)]
pub struct EvalData {
    pub podcast: Option<RawPodcast>,
    pub episode: Option<Attributes>,
    /// Tag frames, as frame id and text.
    pub tags: Option<Vec<(String, String)>>,
}

impl EvalData {
    pub fn new(
        podcast: Option<RawPodcast>,
        episode: Option<Attributes>,
        tags: Option<Vec<(String, String)>>,
    ) -> (r: EvalData)
        ensures
            r.podcast == podcast,
            r.episode == episode,
            r.tags == tags,
    {
        EvalData { podcast, episode, tags }
    }

    /// The kinds of source this bundle holds.
    pub open spec fn offers(self) -> Sources {
        Sources {
            episode: self.episode is Some,
            podcast: self.podcast is Some,
            tags: self.tags is Some,
        }
    }
}

/// What chrono's `%`-format of a UTC time gives, or `None` where the time is
/// out of range or the format is invalid.
pub uninterp spec fn formatted_time(secs: int, fmt: Seq<char>) -> Option<Seq<char>>;

/// Relies on chrono's `DateTime::from_timestamp` and `DateTime::format`: the text
/// of the UTC time `secs` under the format `fmt`.
#[verifier::external_body]
fn format_timestamp(secs: i64, fmt: &str) -> (r: Option<String>)
    ensures
        match r {
            Some(s) => formatted_time(secs as int, fmt@) == Some(s@),
            None => formatted_time(secs as int, fmt@) is None,
        },
{
    let dt = chrono::DateTime::from_timestamp(secs, 0)?;
    let mut s = String::new();
    match write!(s, "{}", dt.format(fmt)) {
        Ok(()) => Some(s),
        Err(_) => None,
    }
}

/// Relies on `chrono::Utc::now`: the current time in seconds since the epoch.
#[verifier::external_body]
pub fn current_unix() -> (r: i64) {
    chrono::Utc::now().timestamp()
}

/// Relies on `dirs::home_dir`: the user's home directory, where it is known
/// and is valid Unicode.
#[verifier::external_body]
pub(crate) fn home() -> (r: Option<String>) {
    dirs::home_dir().and_then(|p| p.to_str().map(String::from))
}

/// A time under a date format: `unix` gives the seconds, any other format goes
/// to chrono, and a time or format chrono refuses gives the null value.
pub open spec fn date_value(secs: i64, fmt: Seq<char>) -> Seq<char> {
    if fmt == "unix"@ {
        signed_decimal(secs as int)
    } else {
        match formatted_time(secs as int, fmt) {
            Some(s) => s,
            None => NULL_VALUE@,
        }
    }
}

fn push_date(out: &mut String, secs: i64, fmt: &String)
    ensures
        final(out)@ == old(out)@ + date_value(secs, fmt@),
{
    let f = chars_of(fmt.as_str());
    let unix = chars_of("unix");
    if eq_chars(f.as_slice(), unix.as_slice()) {
        push_signed_decimal(out, secs);
    } else {
        match format_timestamp(secs, fmt.as_str()) {
            Some(s) => push_string(out, s.as_str()),
            None => push_string(out, NULL_VALUE),
        }
    }
}

/// Where no value is found.
pub open spec fn or_null(v: Option<Seq<char>>) -> Seq<char> {
    match v {
        Some(s) => s,
        None => NULL_VALUE@,
    }
}

/// The text one segment yields, given the time `now` and the home directory.
pub open spec fn seg_value(seg: SegmentModel, d: EvalData, now: i64, home: Option<Seq<char>>) -> Seq<char> {
    match seg {
        SegmentModel::Text(t) => t,
        SegmentModel::Unit(u) => match u {
            UnitPattern::Guid => match d.episode {
                Some(e) => e.guid@,
                None => NULL_VALUE@,
            },
            UnitPattern::Url => match d.episode {
                Some(e) => e.url@,
                None => NULL_VALUE@,
            },
            UnitPattern::PodName => match d.podcast {
                Some(p) => p.name@,
                None => NULL_VALUE@,
            },
            UnitPattern::AppName => APPNAME@,
            UnitPattern::Home => or_null(home),
        },
        SegmentModel::Data(ty, arg) => match ty {
            DataPatternType::RssEpisode => match d.episode {
                Some(e) => or_null(lookup(e.raw@, arg)),
                None => NULL_VALUE@,
            },
            DataPatternType::RssChannel => match d.podcast {
                Some(p) => or_null(lookup(p.entries@, arg)),
                None => NULL_VALUE@,
            },
            DataPatternType::PubDate => match d.episode {
                Some(e) => date_value(e.published, arg),
                None => NULL_VALUE@,
            },
            DataPatternType::CurrDate => date_value(now, arg),
            DataPatternType::Id3 => match d.tags {
                Some(t) => or_null(lookup(t@, arg)),
                None => NULL_VALUE@,
            },
        },
    }
}

/// The text a list of segments yields: the concatenation of each one's text.
pub open spec fn eval_segs(
    segs: Seq<SegmentModel>,
    d: EvalData,
    now: i64,
    home: Option<Seq<char>>,
) -> Seq<char>
    decreases segs.len(),
{
    if segs.len() == 0 {
        seq![]
    } else {
        eval_segs(segs.drop_last(), d, now, home) + seg_value(segs.last(), d, now, home)
    }
}

pub open spec fn opt_view(h: Option<String>) -> Option<Seq<char>> {
    match h {
        Some(s) => Some(s@),
        None => None,
    }
}

fn push_lookup(out: &mut String, entries: &Vec<(String, String)>, key: &String)
    ensures
        final(out)@ == old(out)@ + or_null(lookup(entries@, key@)),
{
    let k = chars_of(key.as_str());
    match find_entry(entries, k.as_slice()) {
        Some(v) => push_string(out, v.as_str()),
        None => push_string(out, NULL_VALUE),
    }
}

fn push_segment(out: &mut String, seg: &Segment, data: &EvalData, now: i64, home: &Option<String>)
    ensures
        final(out)@ == old(out)@ + seg_value(seg.model(), *data, now, opt_view(*home)),
{
    match seg {
        Segment::Text(t) => push_string(out, t.as_str()),
        Segment::Pattern(Pattern::Unit(u)) => match u {
            UnitPattern::Guid => match &data.episode {
                Some(e) => push_string(out, e.guid.as_str()),
                None => push_string(out, NULL_VALUE),
            },
            UnitPattern::Url => match &data.episode {
                Some(e) => push_string(out, e.url.as_str()),
                None => push_string(out, NULL_VALUE),
            },
            UnitPattern::PodName => match &data.podcast {
                Some(p) => push_string(out, p.name.as_str()),
                None => push_string(out, NULL_VALUE),
            },
            UnitPattern::AppName => push_string(out, APPNAME),
            UnitPattern::Home => match home {
                Some(h) => push_string(out, h.as_str()),
                None => push_string(out, NULL_VALUE),
            },
        },
        Segment::Pattern(Pattern::Data(d)) => match d.ty {
            DataPatternType::RssEpisode => match &data.episode {
                Some(e) => push_lookup(out, &e.raw, &d.data),
                None => push_string(out, NULL_VALUE),
            },
            DataPatternType::RssChannel => match &data.podcast {
                Some(p) => push_lookup(out, &p.entries, &d.data),
                None => push_string(out, NULL_VALUE),
            },
            DataPatternType::PubDate => match &data.episode {
                Some(e) => push_date(out, e.published, &d.data),
                None => push_string(out, NULL_VALUE),
            },
            DataPatternType::CurrDate => push_date(out, now, &d.data),
            DataPatternType::Id3 => match &data.tags {
                Some(t) => push_lookup(out, t, &d.data),
                None => push_string(out, NULL_VALUE),
            },
        },
    }
}


fn data_arg(span: &[char], prefix: &str) -> (r: Option<Vec<char>>)
    ensures
        match r {
            Some(a) => data_match(span@, prefix@) && a@ == span@.skip(prefix@.len() as int),
            None => !data_match(span@, prefix@),
        },
{
    let p = chars_of(prefix);
    if p.len() < span.len() && starts_with(span, p.as_slice()) {
        Some(chars_from(span, p.len()))
    } else {
        None
    }
}

fn data_pattern(ty: DataPatternType, arg: Vec<char>) -> (r: Option<Pattern>)
    ensures
        r matches Some(Pattern::Data(d)) && d.ty == ty && d.data@ == arg@,
{
    Some(Pattern::Data(DataPattern { ty, data: string_of(arg.as_slice()) }))
}

fn is_word(span: &[char], w: &str) -> (r: bool)
    ensures
        r == (span@ == w@),
{
    let v = chars_of(w);
    eq_chars(span, v.as_slice())
}

/// The token a span names.
fn classify_span(span: &[char]) -> (r: Option<Pattern>)
    ensures
        match r {
            Some(p) => classify(span@) == Some(Segment::Pattern(p).model()),
            None => classify(span@) is None,
        },
{
    if is_word(span, "guid") {
        return Some(Pattern::Unit(UnitPattern::Guid));
    }
    if is_word(span, "url") {
        return Some(Pattern::Unit(UnitPattern::Url));
    }
    if is_word(span, "podname") {
        return Some(Pattern::Unit(UnitPattern::PodName));
    }
    if is_word(span, "appname") {
        return Some(Pattern::Unit(UnitPattern::AppName));
    }
    if is_word(span, "home") {
        return Some(Pattern::Unit(UnitPattern::Home));
    }
    if let Some(a) = data_arg(span, "rss::episode::") {
        return data_pattern(DataPatternType::RssEpisode, a);
    }
    if let Some(a) = data_arg(span, "rss::channel::") {
        return data_pattern(DataPatternType::RssChannel, a);
    }
    if let Some(a) = data_arg(span, "pubdate::") {
        return data_pattern(DataPatternType::PubDate, a);
    }
    if let Some(a) = data_arg(span, "currdate::") {
        return data_pattern(DataPatternType::CurrDate, a);
    }
    if let Some(a) = data_arg(span, "id3::") {
        return data_pattern(DataPatternType::Id3, a);
    }
    None
}

/// The source a segment reads.
fn segment_needs(seg: &Segment) -> (r: Option<SourceType>)
    ensures
        r == needs(seg.model()),
{
    match seg {
        Segment::Text(_) => None,
        Segment::Pattern(Pattern::Unit(u)) => match u {
            UnitPattern::Guid => Some(SourceType::Episode),
            UnitPattern::Url => Some(SourceType::Episode),
            UnitPattern::PodName => Some(SourceType::Podcast),
            UnitPattern::AppName => None,
            UnitPattern::Home => None,
        },
        Segment::Pattern(Pattern::Data(d)) => match d.ty {
            DataPatternType::RssEpisode => Some(SourceType::Episode),
            DataPatternType::RssChannel => Some(SourceType::Podcast),
            DataPatternType::PubDate => Some(SourceType::Episode),
            DataPatternType::CurrDate => None,
            DataPatternType::Id3 => Some(SourceType::Tags),
        },
    }
}

proof fn lemma_seg_models_push(v: Seq<Segment>, x: Segment)
    ensures
        seg_models(v.push(x)) == seg_models(v).push(x.model()),
{
    assert(seg_models(v.push(x)) =~= seg_models(v).push(x.model()));
}

impl FullPattern {
    /// Compiles a template against the sources the caller can supply.
    pub fn from_str(s: &str, available: Sources) -> (r: Result<FullPattern, PatternError>)
        ensures
            match r {
                Ok(p) => compile(s@, available) == Ok::<Seq<SegmentModel>, ErrorModel>(p@),
                Err(e) => compile(s@, available) == Err::<Seq<SegmentModel>, ErrorModel>(e.model())
                    && e.template_of() == s@,
            },
    {
        let cs = chars_of(s);
        let mut segments: Vec<Segment> = Vec::new();
        let mut text: Vec<char> = Vec::new();
        let mut span: Vec<char> = Vec::new();
        let mut inside = false;
        let mut i: usize = 0;
        proof {
            assert(cs@.take(0) =~= Seq::<char>::empty());
            assert(seg_models(segments@) =~= Seq::<SegmentModel>::empty());
        }
        while i < cs.len()
            invariant
                i <= cs@.len(),
                cs@ == s@,
                scan(cs@.take(i as int)) == Ok::<ScanState, ErrorModel>(
                    ScanState { segs: seg_models(segments@), text: text@, span: span@, inside },
                ),
            decreases cs@.len() - i,
        {
            proof {
                assert(cs@.take(i + 1).drop_last() =~= cs@.take(i as int));
            }
            let c = cs[i];
            let ghost before = segments@;
            if c == '}' {
                if !inside {
                    proof {
                        lemma_scan_err_extends(cs@, i + 1);
                    }
                    return Err(PatternError::UnexpectedClose { template: s.to_owned() });
                }
                match classify_span(span.as_slice()) {
                    None => {
                        proof {
                            lemma_scan_err_extends(cs@, i + 1);
                        }
                        return Err(
                            PatternError::UnknownToken {
                                template: s.to_owned(),
                                span: string_of(span.as_slice()),
                            },
                        );
                    },
                    Some(p) => {
                        segments.push(Segment::Pattern(p));
                        proof {
                            lemma_seg_models_push(before, Segment::Pattern(p));
                        }
                        span = Vec::new();
                        inside = false;
                        proof {
                            assert(span@ =~= seq![]);
                        }
                    },
                }
            } else if c == '{' {
                if inside {
                    proof {
                        lemma_scan_err_extends(cs@, i + 1);
                    }
                    return Err(PatternError::NestedOpen { template: s.to_owned() });
                }
                let t = string_of(text.as_slice());
                segments.push(Segment::Text(t));
                proof {
                    lemma_seg_models_push(before, Segment::Text(t));
                }
                text = Vec::new();
                inside = true;
                proof {
                    assert(text@ =~= seq![]);
                }
            } else if inside {
                span.push(c);
            } else {
                text.push(c);
            }
            i = i + 1;
        }
        proof {
            assert(cs@.take(cs@.len() as int) =~= cs@);
        }
        if inside {
            return Err(PatternError::Unclosed { template: s.to_owned() });
        }
        if text.len() > 0 {
            let ghost before = segments@;
            let t = string_of(text.as_slice());
            segments.push(Segment::Text(t));
            proof {
                lemma_seg_models_push(before, Segment::Text(t));
            }
        }
        let ghost segs = seg_models(segments@);
        assert(parse(s@) == Ok::<Seq<SegmentModel>, ErrorModel>(segs));
        let mut j: usize = 0;
        proof {
            assert(segs.skip(0) =~= segs);
        }
        while j < segments.len()
            invariant
                j <= segments@.len(),
                segs == seg_models(segments@),
                parse(s@) == Ok::<Seq<SegmentModel>, ErrorModel>(segs),
                first_missing(segs, available) == first_missing(segs.skip(j as int), available),
            decreases segments@.len() - j,
        {
            proof {
                assert(segs.skip(j as int).skip(1) =~= segs.skip(j + 1));
                assert(segs.skip(j as int)[0] == segments@[j as int].model());
            }
            if let Some(src) = segment_needs(&segments[j]) {
                if !available.contains(src) {
                    proof {
                        assert(lacks(segs.skip(j as int)[0], available));
                    }
                    return Err(PatternError::MissingSource { template: s.to_owned(), source: src });
                }
            }
            j = j + 1;
        }
        proof {
            assert(segs.skip(j as int) =~= Seq::<SegmentModel>::empty());
        }
        Ok(FullPattern(segments))
    }

    /// The text this pattern yields for `data`, at time `now`, with `home` as
    /// the home directory.
    pub fn evaluate_at(&self, data: &EvalData, now: i64, home: &Option<String>) -> (r: String)
        ensures
            r@ == eval_segs(self@, *data, now, opt_view(*home)),
    {
        let mut out = String::new();
        let mut i: usize = 0;
        proof {
            assert(self@.take(0) =~= Seq::<SegmentModel>::empty());
        }
        while i < self.0.len()
            invariant
                i <= self.0@.len(),
                self@.len() == self.0@.len(),
                out@ == eval_segs(self@.take(i as int), *data, now, opt_view(*home)),
            decreases self.0@.len() - i,
        {
            push_segment(&mut out, &self.0[i], data, now, home);
            proof {
                assert(self@.take(i + 1).drop_last() =~= self@.take(i as int));
                assert(self@[i as int] == self.0@[i as int].model());
            }
            i = i + 1;
        }
        proof {
            assert(self@.take(self@.len() as int) =~= self@);
        }
        out
    }

    /// The text this pattern yields for `data`, now, with the user's home
    /// directory.
    pub fn evaluate(&self, data: &EvalData) -> (r: String)
        ensures
            exists|now: i64, home: Option<Seq<char>>| r@ == eval_segs(self@, *data, now, home),
    {
        let now = current_unix();
        let h = home();
        let r = self.evaluate_at(data, now, &h);
        assert(r@ == eval_segs(self@, *data, now, opt_view(h)));
        r
    }
}

proof fn lemma_scan_err_extends(t: Seq<char>, k: int)
    requires
        0 <= k <= t.len(),
        scan(t.take(k)) is Err,
    ensures
        scan(t) == scan(t.take(k)),
    decreases t.len() - k,
{
    if k < t.len() {
        assert(t.take(k + 1).drop_last() =~= t.take(k));
        lemma_scan_err_extends(t, k + 1);
    } else {
        assert(t.take(k) =~= t);
    }
}

proof fn lemma_scan_plain(t: Seq<char>)
    requires
        forall|i: int| 0 <= i < t.len() ==> t[i] != '{' && t[i] != '}',
    ensures
        scan(t) == Ok::<ScanState, ErrorModel>(
            ScanState { segs: seq![], text: t, span: seq![], inside: false },
        ),
    decreases t.len(),
{
    if t.len() > 0 {
        let init = t.drop_last();
        assert forall|i: int| 0 <= i < init.len() implies init[i] != '{' && init[i] != '}' by {
            assert(init[i] == t[i]);
        }
        lemma_scan_plain(init);
        let c = t[t.len() - 1];
        assert(c == t.last());
        assert(c != '{' && c != '}');
        assert(init.push(c) =~= t);
    } else {
        assert(t =~= Seq::<char>::empty());
    }
}

/// A template with no braces compiles against any sources, and the pattern
/// yields the template itself for every bundle, time and home directory.
pub proof fn lemma_plain_template_unchanged(
    t: Seq<char>,
    avail: Sources,
    d: EvalData,
    now: i64,
    home: Option<Seq<char>>,
)
    requires
        forall|i: int| 0 <= i < t.len() ==> t[i] != '{' && t[i] != '}',
    ensures
        compile(t, avail) is Ok,
        eval_segs(compile(t, avail)->Ok_0, d, now, home) == t,
{
    lemma_scan_plain(t);
    let one: Seq<SegmentModel> = seq![SegmentModel::Text(t)];
    assert(one.drop_last() =~= Seq::<SegmentModel>::empty());
    assert(one.skip(1) =~= Seq::<SegmentModel>::empty());
    assert(one.last() == SegmentModel::Text(t));
    assert(seg_value(one.last(), d, now, home) == t);
    assert(eval_segs(one.drop_last(), d, now, home) == Seq::<char>::empty());
    assert(eval_segs(one, d, now, home) =~= t);
    assert(!lacks(one[0], avail));
    assert(first_missing(Seq::<SegmentModel>::empty(), avail) is None);
    assert(first_missing(one.skip(1), avail) is None);
    assert(first_missing(one, avail) is None);
    if t.len() == 0 {
        assert(t =~= Seq::<char>::empty());
        assert(compile(t, avail) == Ok::<Seq<SegmentModel>, ErrorModel>(seq![]));
    } else {
        assert(compile(t, avail) == Ok::<Seq<SegmentModel>, ErrorModel>(one));
    }
}

proof fn lemma_first_missing(segs: Seq<SegmentModel>, avail: Sources)
    ensures
        first_missing(segs, avail) matches Some(x) ==> exists|i: int|
            0 <= i < segs.len() && lacks(#[trigger] segs[i], avail) && needs(segs[i]) == Some(x),
        first_missing(segs, avail) is None <==> forall|i: int|
            0 <= i < segs.len() ==> !lacks(#[trigger] segs[i], avail),
    decreases segs.len(),
{
    if segs.len() > 0 {
        lemma_first_missing(segs.skip(1), avail);
        if !lacks(segs[0], avail) && first_missing(segs.skip(1), avail) is Some {
            let k = choose|k: int|
                0 <= k < segs.skip(1).len() && lacks(#[trigger] segs.skip(1)[k], avail) && needs(
                    segs.skip(1)[k],
                ) == first_missing(segs.skip(1), avail);
            assert(segs[k + 1] == segs.skip(1)[k]);
        }
        if first_missing(segs, avail) is None {
            assert forall|i: int| 0 <= i < segs.len() implies !lacks(#[trigger] segs[i], avail) by {
                if i > 0 {
                    assert(segs.skip(1)[i - 1] == segs[i]);
                }
            }
        } else if !lacks(segs[0], avail) {
            let k = choose|k: int| 0 <= k < segs.skip(1).len() && lacks(#[trigger] segs.skip(1)[k], avail);
            assert(lacks(segs[k + 1], avail));
        }
    }
}

/// A well-formed template holding a token that reads source `s`: it is refused
/// against sources that lack `s`, and it compiles against sources that hold
/// every source its tokens read.
pub proof fn lemma_sources_decide(t: Seq<char>, i: int, s: SourceType, avail: Sources)
    requires
        parse(t) is Ok,
        0 <= i < parse(t)->Ok_0.len(),
        needs(parse(t)->Ok_0[i]) == Some(s),
    ensures
        !avail.has(s) ==> compile(t, avail) is Err && compile(t, avail)->Err_0 is MissingSource,
        !avail.has(s) && (forall|j: int|
            0 <= j < parse(t)->Ok_0.len() && lacks(#[trigger] parse(t)->Ok_0[j], avail) ==> needs(
                parse(t)->Ok_0[j],
            ) == Some(s)) ==> compile(t, avail) == Err::<Seq<SegmentModel>, ErrorModel>(
            ErrorModel::MissingSource(s),
        ),
        (forall|j: int| 0 <= j < parse(t)->Ok_0.len() ==> !lacks(#[trigger] parse(t)->Ok_0[j], avail))
            ==> compile(t, avail) == parse(t),
{
    let segs = parse(t)->Ok_0;
    lemma_first_missing(segs, avail);
    if !avail.has(s) {
        assert(lacks(segs[i], avail));
    }
}

} // verus!
