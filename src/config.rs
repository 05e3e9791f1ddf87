//! Settings: the global ones, each feed's own, and the configuration of one
//! episode that merges the two and evaluates their templates.
use vstd::prelude::*;

use crate::patterns::{
    compile, current_unix, eval_segs, home, opt_view, ErrorModel, EvalData, FullPattern,
    PatternError, Sources,
};
use crate::text::{chars_of, push_string};

verus! {

/// A feed setting that is set, switched off, or left to the global setting.
#[derive(Clone, Copy, Debug)]
pub enum ConfigOption<T> {
    /// Defer to the value in the global config.
    UseGlobal,
    /// Use this value for configuration.
    Enabled(T),
    /// Don't use any value.
    Disabled,
}

impl<T> ConfigOption<T> {
    pub fn is_enabled(&self) -> (r: bool)
        ensures
            r == (*self is Enabled),
    {
        match self {
            ConfigOption::Enabled(_) => true,
            _ => false,
        }
    }

    /// The value in force, given the global value.
    pub open spec fn resolved(self, global_value: Option<T>) -> Option<T> {
        match self {
            ConfigOption::Disabled => None,
            ConfigOption::Enabled(t) => Some(t),
            ConfigOption::UseGlobal => global_value,
        }
    }

    /// The value in force, given the global value.
    pub fn into_val(self, global_value: Option<T>) -> (r: Option<T>)
        ensures
            r == self.resolved(global_value),
    {
        match self {
            ConfigOption::Disabled => None,
            ConfigOption::Enabled(t) => Some(t),
            ConfigOption::UseGlobal => global_value,
        }
    }
}

/// How a feed's episodes become due. Times are seconds since the epoch;
/// durations are seconds.
#[derive(Clone, Copy, Debug)]
pub enum DownloadMode {
    /// Episodes young enough, late enough, and among the newest ones.
    Standard { max_time: Option<i64>, earliest_date: Option<i64>, max_episodes: Option<i64> },
    /// Episodes released anew one per interval, counting from `start`.
    Backlog { start: i64, interval: i64, max_episodes: Option<i64> },
}

impl DownloadMode {
    /// Limits are not negative, and a backlog's interval is positive.
    pub open spec fn wf(self) -> bool {
        match self {
            DownloadMode::Standard { max_time, max_episodes, .. } => {
                &&& (max_time matches Some(t) ==> t >= 0)
                &&& (max_episodes matches Some(k) ==> k >= 0)
            },
            DownloadMode::Backlog { interval, max_episodes, .. } => {
                &&& interval > 0
                &&& (max_episodes matches Some(k) ==> k >= 0)
            },
        }
    }
}

impl Default for DownloadMode {
    /// Standard mode without limits.
    fn default() -> (r: DownloadMode)
        ensures
            r == (DownloadMode::Standard { max_time: None, earliest_date: None, max_episodes: None }),
    {
        DownloadMode::Standard { max_time: None, earliest_date: None, max_episodes: None }
    }
}

/// Why the settings of a feed give no download mode.
#[derive(Clone, Copy, Debug, PartialEq, Eq, Structural)]
pub enum ModeError {
    /// A backlog start without an interval.
    MissingBacklogInterval,
    /// A backlog interval without a start.
    MissingBacklogStart,
    /// A backlog interval that is not a positive number of days.
    InvalidBacklogInterval,
    /// A backlog start that is not a date.
    InvalidBacklogStart,
    /// An earliest date that is not a date.
    InvalidEarliestDate,
    /// An age limit or earliest date set for a feed in backlog mode.
    IncompatibleWithBacklog,
    /// A number of days too large to count in seconds.
    OutOfRange,
    /// A negative age limit or episode count.
    NegativeLimit,
}

/// Seconds in a day.
pub const DAY: i64 = 86400;

/// Whether `c` is an ASCII digit.
pub open spec fn is_digit(c: char) -> bool {
    '0' <= c && c <= '9'
}

/// The value of an ASCII digit.
pub open spec fn digit_value(c: char) -> int {
    c as int - '0' as int
}

/// Whether a zone offset of 24 hours or more starts at `p`: a sign, two
/// hour digits reading 24 or more, then two minute digits, directly or after
/// one colon.
pub open spec fn long_offset_at(s: Seq<char>, p: int) -> bool {
    &&& 0 <= p
    &&& p + 5 <= s.len()
    &&& (s[p] == '+' || s[p] == '-')
    &&& is_digit(s[p + 1]) && is_digit(s[p + 2])
    &&& 10 * digit_value(s[p + 1]) + digit_value(s[p + 2]) >= 24
    &&& ((is_digit(s[p + 3]) && is_digit(s[p + 4])) || (p + 6 <= s.len() && s[p + 3] == ':'
        && is_digit(s[p + 4]) && is_digit(s[p + 5])))
}

/// Whether the zone suffix of a date text (its last five or six characters)
/// is an offset of 24 hours or more, which `dateparser` cannot represent.
pub open spec fn has_long_offset(s: Seq<char>) -> bool {
    long_offset_at(s, s.len() - 6) || long_offset_at(s, s.len() - 5)
}

fn long_offset_at_exec(cs: &Vec<char>, p: usize) -> (r: bool)
    requires
        p <= cs@.len(),
    ensures
        r == long_offset_at(cs@, p as int),
{
    if cs.len() - p < 5 {
        return false;
    }
    let sign = cs[p] == '+' || cs[p] == '-';
    let h1 = cs[p + 1];
    let h2 = cs[p + 2];
    if !sign || !('0' <= h1 && h1 <= '9') || !('0' <= h2 && h2 <= '9') {
        return false;
    }
    let hours = (h1 as u32 - '0' as u32) * 10 + (h2 as u32 - '0' as u32);
    if hours < 24 {
        return false;
    }
    let m1 = cs[p + 3];
    let m2 = cs[p + 4];
    if '0' <= m1 && m1 <= '9' && '0' <= m2 && m2 <= '9' {
        return true;
    }
    cs.len() - p >= 6 && m1 == ':' && '0' <= m2 && m2 <= '9' && '0' <= cs[p + 5] && cs[p + 5]
        <= '9'
}

/// Whether the zone suffix of a date text is an offset of 24 hours or more.
pub fn long_offset(s: &str) -> (r: bool)
    ensures
        r == has_long_offset(s@),
{
    let cs = chars_of(s);
    let n = cs.len();
    let a = if n >= 6 {
        long_offset_at_exec(&cs, n - 6)
    } else {
        false
    };
    let b = if n >= 5 {
        long_offset_at_exec(&cs, n - 5)
    } else {
        false
    };
    a || b
}

/// Relies on `dateparser::parse`: the time a date text denotes, in seconds
/// since the epoch, where it can be read. A text without a zone is read in
/// the machine's zone, so nothing is stated of the result. A zone offset of
/// 24 hours or more makes chrono's `FixedOffset::east` panic inside the
/// call, so such texts are not admitted.
#[verifier::external_body]
fn parse_date(s: &str) -> (r: Option<i64>)
    requires
        !has_long_offset(s@),
{
    dateparser::parse(s).ok().map(|d| d.timestamp())
}

/// The download mode the settings give, with `earliest` and `start` the times
/// the earliest-date and backlog-start texts were read as (`None` where a
/// text could not be read or is absent).
pub open spec fn mode_of(
    global: GlobalConfig,
    podcast: PodcastConfig,
    earliest: Option<i64>,
    start: Option<i64>,
) -> Result<DownloadMode, ModeError> {
    let max_episodes = podcast.max_episodes.resolved(global.max_episodes);
    match (podcast.backlog_start, podcast.backlog_interval) {
        (None, None) => {
            let days = podcast.max_days.resolved(global.max_days);
            let date = podcast.earliest_date.resolved(global.earliest_date);
            if (days matches Some(d) && d < 0) || (max_episodes matches Some(k) && k < 0) {
                Err(ModeError::NegativeLimit)
            } else if days is Some && !(i64::MIN <= days->Some_0 * DAY <= i64::MAX) {
                Err(ModeError::OutOfRange)
            } else if date is Some && earliest is None {
                Err(ModeError::InvalidEarliestDate)
            } else {
                Ok(
                    DownloadMode::Standard {
                        max_time: match days {
                            Some(d) => Some((d * DAY) as i64),
                            None => None,
                        },
                        earliest_date: match date {
                            Some(_) => earliest,
                            None => None,
                        },
                        max_episodes,
                    },
                )
            }
        },
        (Some(_), None) => Err(ModeError::MissingBacklogInterval),
        (None, Some(_)) => Err(ModeError::MissingBacklogStart),
        (Some(_), Some(interval)) => {
            if podcast.earliest_date is Enabled || podcast.max_days is Enabled {
                Err(ModeError::IncompatibleWithBacklog)
            } else if interval <= 0 {
                Err(ModeError::InvalidBacklogInterval)
            } else if max_episodes matches Some(k) && k < 0 {
                Err(ModeError::NegativeLimit)
            } else if interval * DAY > i64::MAX {
                Err(ModeError::OutOfRange)
            } else if start is None {
                Err(ModeError::InvalidBacklogStart)
            } else {
                Ok(
                    DownloadMode::Backlog {
                        start: start->Some_0,
                        interval: (interval * DAY) as i64,
                        max_episodes,
                    },
                )
            }
        },
    }
}

impl DownloadMode {
    /// The download mode the settings give, from the times their date texts
    /// were read as.
    pub fn from_settings(
        global: &GlobalConfig,
        podcast: &PodcastConfig,
        earliest: Option<i64>,
        start: Option<i64>,
    ) -> (r: Result<DownloadMode, ModeError>)
        ensures
            r == mode_of(*global, *podcast, earliest, start),
            r matches Ok(m) ==> m.wf(),
    {
        let max_episodes = podcast.max_episodes.into_val(global.max_episodes);
        match (&podcast.backlog_start, podcast.backlog_interval) {
            (None, None) => {
                let days = podcast.max_days.into_val(global.max_days);
                let has_date = match &podcast.earliest_date {
                    ConfigOption::Disabled => false,
                    ConfigOption::Enabled(_) => true,
                    ConfigOption::UseGlobal => global.earliest_date.is_some(),
                };
                let negative_days = match days {
                    Some(d) => d < 0,
                    None => false,
                };
                let negative_count = match max_episodes {
                    Some(k) => k < 0,
                    None => false,
                };
                if negative_days || negative_count {
                    return Err(ModeError::NegativeLimit);
                }
                let max_time = match days {
                    Some(d) => match d.checked_mul(DAY) {
                        Some(t) => Some(t),
                        None => return Err(ModeError::OutOfRange),
                    },
                    None => None,
                };
                if has_date && earliest.is_none() {
                    return Err(ModeError::InvalidEarliestDate);
                }
                Ok(
                    DownloadMode::Standard {
                        max_time,
                        earliest_date: if has_date {
                            earliest
                        } else {
                            None
                        },
                        max_episodes,
                    },
                )
            },
            (Some(_), None) => Err(ModeError::MissingBacklogInterval),
            (None, Some(_)) => Err(ModeError::MissingBacklogStart),
            (Some(_), Some(interval)) => {
                if podcast.earliest_date.is_enabled() || podcast.max_days.is_enabled() {
                    return Err(ModeError::IncompatibleWithBacklog);
                }
                if interval <= 0 {
                    return Err(ModeError::InvalidBacklogInterval);
                }
                if let Some(k) = max_episodes {
                    if k < 0 {
                        return Err(ModeError::NegativeLimit);
                    }
                }
                let secs = match interval.checked_mul(DAY) {
                    Some(s) => s,
                    None => return Err(ModeError::OutOfRange),
                };
                match start {
                    None => Err(ModeError::InvalidBacklogStart),
                    Some(s) => Ok(DownloadMode::Backlog { start: s, interval: secs, max_episodes }),
                }
            },
        }
    }

    /// The download mode the settings give; date texts are read by
    /// `dateparser`.
    pub fn new(global: &GlobalConfig, podcast: &PodcastConfig) -> (r: Result<DownloadMode, ModeError>)
        ensures
            exists|earliest: Option<i64>, start: Option<i64>|
                r == mode_of(*global, *podcast, earliest, start),
            r matches Ok(m) ==> m.wf(),
    {
        let date_text = match &podcast.earliest_date {
            ConfigOption::Disabled => None,
            ConfigOption::Enabled(d) => Some(d),
            ConfigOption::UseGlobal => global.earliest_date.as_ref(),
        };
        let earliest = match date_text {
            Some(d) => if long_offset(d.as_str()) {
                None
            } else {
                parse_date(d.as_str())
            },
            None => None,
        };
        let start = match &podcast.backlog_start {
            Some(s) => if long_offset(s.as_str()) {
                None
            } else {
                parse_date(s.as_str())
            },
            None => None,
        };
        let r = DownloadMode::from_settings(global, podcast, earliest, start);
        assert(r == mode_of(*global, *podcast, earliest, start));
        r
    }
}

/// Settings of the search of a podcast directory.
#[derive(Clone, Debug)]
pub struct SearchSettings {
    pub max_results: Option<usize>,
    pub line_width: Option<usize>,
    pub pattern: Option<String>,
}

impl SearchSettings {
    /// Whether no setting is made.
    pub fn is_default(&self) -> (r: bool)
        ensures
            r == (self.max_results is None && self.line_width is None && self.pattern is None),
    {
        self.max_results.is_none() && self.line_width.is_none() && self.pattern.is_none()
    }

    pub fn pattern(&self) -> (r: String)
        ensures
            r@ == match self.pattern {
                Some(p) => p@,
                None => "{collectionName} - {artistName}"@,
            },
    {
        match &self.pattern {
            Some(p) => p.clone(),
            None => String::from_str("{collectionName} - {artistName}"),
        }
    }
}

/// Settings of the progress display.
#[derive(Clone, Debug)]
pub struct IndicatifSettings {
    pub enabled: Option<bool>,
    pub download_bar: Option<String>,
    pub completed: Option<String>,
    pub hooks: Option<String>,
    pub spinner_speed: Option<u64>,
    pub title_length: Option<usize>,
}

/// The text of `o`, or `default` where it is absent.
pub open spec fn or_default(o: Option<String>, default: Seq<char>) -> Seq<char> {
    match o {
        Some(s) => s@,
        None => default,
    }
}

fn text_or(o: &Option<String>, default: &str) -> (r: String)
    ensures
        r@ == or_default(*o, default@),
{
    match o {
        Some(s) => s.clone(),
        None => String::from_str(default),
    }
}

impl IndicatifSettings {
    /// Whether no setting is made.
    pub open spec fn is_default_spec(&self) -> bool {
        self.enabled is None && self.download_bar is None && self.completed is None
            && self.hooks is None && self.spinner_speed is None && self.title_length is None
    }

    /// Whether no setting is made.
    pub fn is_default(&self) -> (r: bool)
        ensures
            r == self.is_default_spec(),
    {
        self.enabled.is_none() && self.download_bar.is_none() && self.completed.is_none()
            && self.hooks.is_none() && self.spinner_speed.is_none() && self.title_length.is_none()
    }

    pub fn podcast_fetch_template() -> (r: String)
        ensures
            r@ == "{spinner:.green}  {msg}fetching podcast..."@,
    {
        String::from_str("{spinner:.green}  {msg}fetching podcast...")
    }

    pub fn download_template(&self) -> (r: String)
        ensures
            r@ == or_default(
                self.download_bar,
                "{spinner:.green}  {msg} {bar:15.cyan/blue} {bytes}/{total_bytes}"@,
            ),
    {
        text_or(&self.download_bar, "{spinner:.green}  {msg} {bar:15.cyan/blue} {bytes}/{total_bytes}")
    }

    pub fn completion_template(&self) -> (r: String)
        ensures
            r@ == or_default(self.completed, "✅ {msg}"@),
    {
        text_or(&self.completed, "✅ {msg}")
    }

    pub fn error_template(&self) -> (r: String)
        ensures
            r@ == "❌ {msg}"@,
    {
        String::from_str("❌ {msg}")
    }

    pub fn hook_template(&self) -> (r: String)
        ensures
            r@ == or_default(self.hooks, "{spinner:.green} finishing up download hooks..."@),
    {
        text_or(&self.hooks, "{spinner:.green} finishing up download hooks...")
    }

    /// The spinner's tick, in milliseconds.
    pub fn spinner_speed(&self) -> (r: u64)
        ensures
            r == match self.spinner_speed {
                Some(s) => s,
                None => 100,
            },
    {
        match self.spinner_speed {
            Some(s) => s,
            None => 100,
        }
    }

    pub fn title_length(&self) -> (r: usize)
        ensures
            r == match self.title_length {
                Some(t) => t,
                None => 30,
            },
    {
        match self.title_length {
            Some(t) => t,
            None => 30,
        }
    }

    pub fn enabled(&self) -> (r: bool)
        ensures
            r == match self.enabled {
                Some(e) => e,
                None => true,
            },
    {
        match self.enabled {
            Some(e) => e,
            None => true,
        }
    }
}

/// How much is logged.
#[derive(Clone, Copy, Debug, PartialEq, Eq, Structural)]
pub enum LogLevel {
    Off,
    Error,
    Warn,
    Info,
    Debug,
    Trace,
}

/// Settings of the log.
#[derive(Clone, Debug)]
pub struct LogConfig {
    pub path: Option<String>,
    pub level: Option<LogLevel>,
    pub third_party: Option<bool>,
}

impl LogConfig {
    /// Whether no setting is made.
    pub fn is_default(&self) -> (r: bool)
        ensures
            r == (self.path is None && self.level is None && self.third_party is None),
    {
        self.path.is_none() && self.level.is_none() && self.third_party.is_none()
    }

    pub fn level(&self) -> (r: LogLevel)
        ensures
            r == match self.level {
                Some(l) => l,
                None => LogLevel::Trace,
            },
    {
        match self.level {
            Some(l) => l,
            None => LogLevel::Trace,
        }
    }

    pub fn third_party(&self) -> (r: bool)
        ensures
            r == match self.third_party {
                Some(t) => t,
                None => true,
            },
    {
        match self.third_party {
            Some(t) => t,
            None => true,
        }
    }

    pub fn path(&self) -> (r: Option<&String>)
        ensures
            r == match &self.path {
                Some(p) => Some(p),
                None => None::<&String>,
            },
    {
        self.path.as_ref()
    }
}

/// The global settings.
#[derive(Clone, Debug)]
pub struct GlobalConfig {
    pub download_path: String,
    pub partial_path: Option<String>,
    pub name_pattern: String,
    pub id_pattern: String,
    pub max_days: Option<i64>,
    pub max_episodes: Option<i64>,
    pub earliest_date: Option<String>,
    pub id3_tags: Vec<(String, String)>,
    pub download_hook: Option<String>,
    pub tracker_path: Option<String>,
    pub style: IndicatifSettings,
    pub user_agent: Option<String>,
    pub search: SearchSettings,
    pub symlink: Option<String>,
    pub log: LogConfig,
}

impl Default for GlobalConfig {
    /// The settings a new installation starts with: files under
    /// `{home}/talecast/{podname}`, named by date and title, identified by
    /// guid, and the ten newest episodes of each feed.
    fn default() -> (r: GlobalConfig)
        ensures
            r.download_path@ == "{home}/talecast/{podname}"@,
            r.name_pattern@ == "{pubdate::%Y-%m-%d} {rss::episode::title}"@,
            r.id_pattern@ == "{guid}"@,
            r.max_episodes == Some(10i64),
            r.partial_path is None,
            r.max_days is None,
            r.earliest_date is None,
            r.id3_tags@.len() == 0,
            r.download_hook is None,
            r.tracker_path is None,
            r.user_agent is None,
            r.symlink is None,
            r.style.is_default_spec(),
            r.search.max_results is None && r.search.line_width is None && r.search.pattern is None,
            r.log.path is None && r.log.level is None && r.log.third_party is None,
    {
        GlobalConfig {
            download_path: String::from_str("{home}/talecast/{podname}"),
            partial_path: None,
            name_pattern: String::from_str("{pubdate::%Y-%m-%d} {rss::episode::title}"),
            id_pattern: String::from_str("{guid}"),
            max_days: None,
            max_episodes: Some(10),
            earliest_date: None,
            id3_tags: Vec::new(),
            download_hook: None,
            tracker_path: None,
            style: IndicatifSettings {
                enabled: None,
                download_bar: None,
                completed: None,
                hooks: None,
                spinner_speed: None,
                title_length: None,
            },
            user_agent: None,
            search: SearchSettings { max_results: None, line_width: None, pattern: None },
            symlink: None,
            log: LogConfig { path: None, level: None, third_party: None },
        }
    }
}

impl GlobalConfig {
    pub fn style(&self) -> (r: &IndicatifSettings)
        ensures
            r == &self.style,
    {
        &self.style
    }

    pub fn log(&self) -> (r: &LogConfig)
        ensures
            r == &self.log,
    {
        &self.log
    }

    pub fn user_agent(&self) -> (r: String)
        ensures
            r@ == or_default(
                self.user_agent,
                "Mozilla/5.0 (Windows NT 10.0; Win64; x64) AppleWebKit/537.36 (KHTML, like Gecko) Chrome/58.0.3029.110 Safari/537.36"@,
            ),
    {
        text_or(
            &self.user_agent,
            "Mozilla/5.0 (Windows NT 10.0; Win64; x64) AppleWebKit/537.36 (KHTML, like Gecko) Chrome/58.0.3029.110 Safari/537.36",
        )
    }

    pub fn search_settings(&self) -> (r: &SearchSettings)
        ensures
            r == &self.search,
    {
        &self.search
    }

    pub fn max_search_results(&self) -> (r: usize)
        ensures
            r == match self.search.max_results {
                Some(m) => m,
                None => 9,
            },
    {
        match self.search.max_results {
            Some(m) => m,
            None => 9,
        }
    }

    pub fn max_line_width(&self) -> (r: usize)
        ensures
            r == match self.search.line_width {
                Some(w) => w,
                None => 79,
            },
    {
        match self.search.line_width {
            Some(w) => w,
            None => 79,
        }
    }
}

/// The settings of one feed.
#[derive(Clone, Debug)]
pub struct PodcastConfig {
    pub url: String,
    pub name_pattern: Option<String>,
    pub id_pattern: Option<String>,
    pub download_path: Option<String>,
    pub partial_path: Option<String>,
    pub backlog_start: Option<String>,
    pub backlog_interval: Option<i64>,
    pub id3_tags: Vec<(String, String)>,
    pub max_days: ConfigOption<i64>,
    pub max_episodes: ConfigOption<i64>,
    pub earliest_date: ConfigOption<String>,
    pub download_hook: ConfigOption<String>,
    pub tracker_path: ConfigOption<String>,
    pub symlink: Option<String>,
}

impl PodcastConfig {
    /// A feed at `url` with every setting left to the global settings.
    pub fn new(url: String) -> (r: PodcastConfig)
        ensures
            r.url == url,
            r.name_pattern is None,
            r.id_pattern is None,
            r.download_path is None,
            r.partial_path is None,
            r.backlog_start is None,
            r.backlog_interval is None,
            r.id3_tags@.len() == 0,
            r.max_days is UseGlobal,
            r.max_episodes is UseGlobal,
            r.earliest_date is UseGlobal,
            r.download_hook is UseGlobal,
            r.tracker_path is UseGlobal,
            r.symlink is None,
    {
        PodcastConfig {
            url,
            name_pattern: None,
            id_pattern: None,
            download_path: None,
            partial_path: None,
            backlog_start: None,
            backlog_interval: None,
            id3_tags: Vec::new(),
            max_days: ConfigOption::UseGlobal,
            max_episodes: ConfigOption::UseGlobal,
            earliest_date: ConfigOption::UseGlobal,
            download_hook: ConfigOption::UseGlobal,
            tracker_path: ConfigOption::UseGlobal,
            symlink: None,
        }
    }

    /// Only episodes published from `now` on will be fetched: sets the
    /// earliest date to the text `now_text`. A feed in backlog mode is left
    /// as it is; the result says whether the setting changed.
    pub fn catch_up(&mut self, now_text: String) -> (r: bool)
        ensures
            r == (old(self).backlog_start is None && old(self).backlog_interval is None),
            r ==> *final(self) == (PodcastConfig {
                earliest_date: ConfigOption::Enabled(now_text),
                ..*old(self)
            }),
            !r ==> *final(self) == *old(self),
    {
        if self.backlog_start.is_some() || self.backlog_interval.is_some() {
            return false;
        }
        self.earliest_date = ConfigOption::Enabled(now_text);
        true
    }
}

/// The template in force: the feed's own where set, else the global one.
pub open spec fn chosen(own: Option<String>, global: String) -> Seq<char> {
    match own {
        Some(s) => s@,
        None => global@,
    }
}

/// A template compiled against `avail` and evaluated.
pub open spec fn rendered(
    t: Seq<char>,
    avail: Sources,
    d: EvalData,
    now: i64,
    home: Option<Seq<char>>,
) -> Result<Seq<char>, ErrorModel> {
    match compile(t, avail) {
        Ok(segs) => Ok(eval_segs(segs, d, now, home)),
        Err(e) => Err(e),
    }
}

fn render(t: &str, avail: Sources, d: &EvalData, now: i64, home: &Option<String>) -> (r: Result<
    String,
    PatternError,
>)
    ensures
        match r {
            Ok(s) => rendered(t@, avail, *d, now, opt_view(*home)) == Ok::<Seq<char>, ErrorModel>(s@),
            Err(e) => rendered(t@, avail, *d, now, opt_view(*home)) == Err::<Seq<char>, ErrorModel>(
                e.model(),
            ),
        },
{
    match FullPattern::from_str(t, avail) {
        Ok(p) => Ok(p.evaluate_at(d, now, home)),
        Err(e) => Err(e),
    }
}

fn render_opt(t: &Option<String>, avail: Sources, d: &EvalData, now: i64, home: &Option<String>) -> (r: Result<
    Option<String>,
    PatternError,
>)
    ensures
        match t {
            None => r == Ok::<Option<String>, PatternError>(None),
            Some(ts) => match r {
                Ok(Some(s)) => rendered(ts@, avail, *d, now, opt_view(*home)) == Ok::<
                    Seq<char>,
                    ErrorModel,
                >(s@),
                Ok(None) => false,
                Err(e) => rendered(ts@, avail, *d, now, opt_view(*home)) == Err::<
                    Seq<char>,
                    ErrorModel,
                >(e.model()),
            },
        },
{
    match t {
        None => Ok(None),
        Some(ts) => match render(ts.as_str(), avail, d, now, home) {
            Ok(s) => Ok(Some(s)),
            Err(e) => Err(e),
        },
    }
}

/// The sources the tracker path may read: the podcast's, where offered.
pub open spec fn tracker_sources(d: EvalData) -> Sources {
    Sources { episode: false, podcast: d.podcast is Some, tags: false }
}

/// The tracker path template where none is set: the download path with
/// `.downloaded` appended as a file of that directory.
pub open spec fn default_tracker(download_path: Seq<char>) -> Seq<char> {
    if download_path.len() > 0 && download_path.last() == '/' {
        download_path + ".downloaded"@
    } else {
        download_path + "/.downloaded"@
    }
}

/// The tracker path template in force.
pub open spec fn tracker_template(global: GlobalConfig, podcast: PodcastConfig) -> Seq<char> {
    match podcast.tracker_path.resolved(global.tracker_path) {
        Some(t) => t@,
        None => default_tracker(chosen(podcast.download_path, global.download_path)),
    }
}

/// The tag entries of `base` overridden by those of `over`.
pub open spec fn tags_merged(base: Seq<(String, String)>, over: Seq<(String, String)>) -> Seq<
    (String, String),
>
    decreases over.len(),
{
    if over.len() == 0 {
        base
    } else {
        set_tag(tags_merged(base, over.drop_last()), over.last())
    }
}

/// The entries of `m` with `e` set: replacing the entry of the same key, or
/// appended.
pub open spec fn set_tag(m: Seq<(String, String)>, e: (String, String)) -> Seq<(String, String)> {
    match index_of_key(m, e.0@) {
        Some(i) => m.update(i, e),
        None => m.push(e),
    }
}

/// The position of the first entry under `key`.
pub open spec fn index_of_key(m: Seq<(String, String)>, key: Seq<char>) -> Option<int> {
    if exists|i: int| 0 <= i < m.len() && (#[trigger] m[i]).0@ == key {
        Some(choose|i: int| 0 <= i < m.len() && (#[trigger] m[i]).0@ == key && forall|j: int| 0 <= j < i ==> (#[trigger] m[j]).0@ != key)
    } else {
        None
    }
}

/// Whether no two entries share a key.
pub open spec fn unique_keys(m: Seq<(String, String)>) -> bool {
    forall|i: int, j: int| 0 <= i < j < m.len() ==> (#[trigger] m[i]).0@ != (#[trigger] m[j]).0@
}

proof fn lemma_set_tag_unique(m: Seq<(String, String)>, e: (String, String))
    requires
        unique_keys(m),
    ensures
        unique_keys(set_tag(m, e)),
{
    let r = set_tag(m, e);
    match index_of_key(m, e.0@) {
        Some(k) => {
            assert(m[k].0@ == e.0@);
            assert forall|i: int, j: int| 0 <= i < j < r.len() implies (#[trigger] r[i]).0@ != (#[trigger] r[j]).0@ by {
                if i != k && j != k {
                    assert(r[i] == m[i] && r[j] == m[j]);
                } else if i == k {
                    assert(r[j] == m[j]);
                } else {
                    assert(r[i] == m[i]);
                }
            }
        },
        None => {
            assert forall|i: int, j: int| 0 <= i < j < r.len() implies (#[trigger] r[i]).0@ != (#[trigger] r[j]).0@ by {
                if j < m.len() {
                    assert(r[i] == m[i] && r[j] == m[j]);
                } else {
                    assert(r[i] == m[i]);
                    assert(!(0 <= i < m.len() && m[i].0@ == e.0@));
                }
            }
        },
    }
}

proof fn lemma_tags_merged_unique(base: Seq<(String, String)>, over: Seq<(String, String)>)
    requires
        unique_keys(base),
    ensures
        unique_keys(tags_merged(base, over)),
    decreases over.len(),
{
    if over.len() > 0 {
        lemma_tags_merged_unique(base, over.drop_last());
        lemma_set_tag_unique(tags_merged(base, over.drop_last()), over.last());
    }
}

/// The settings of one episode: the feed's merged over the global ones, with
/// every template evaluated.
#[derive(Clone, Debug)]
pub struct Config {
    pub url: String,
    pub name_pattern: String,
    pub id_pattern: String,
    pub download_path: String,
    pub partial_path: Option<String>,
    pub tracker_path: String,
    pub symlink: Option<String>,
    pub id3_tags: Vec<(String, String)>,
    pub download_hook: Option<String>,
}

fn clone_opt(o: &Option<String>) -> (r: Option<String>)
    ensures
        r == *o,
{
    match o {
        Some(s) => Some(s.clone()),
        None => None,
    }
}

fn key_position(m: &Vec<(String, String)>, key: &String) -> (r: Option<usize>)
    ensures
        match r {
            Some(i) => index_of_key(m@, key@) == Some(i as int) && i < m@.len(),
            None => index_of_key(m@, key@) is None,
        },
{
    let k = chars_of(key.as_str());
    let mut i: usize = 0;
    while i < m.len()
        invariant
            i <= m@.len(),
            k@ == key@,
            forall|j: int| 0 <= j < i ==> (#[trigger] m@[j]).0@ != key@,
        decreases m@.len() - i,
    {
        let x = chars_of(m[i].0.as_str());
        if crate::text::eq_chars(x.as_slice(), k.as_slice()) {
            proof {
                assert(m@[i as int].0@ == key@);
                let c = choose|c: int| 0 <= c < m@.len() && (#[trigger] m@[c]).0@ == key@ && forall|j: int| 0 <= j < c ==> (#[trigger] m@[j]).0@ != key@;
                if c < i {
                } else if c > i {
                    assert(m@[i as int].0@ != key@);
                }
            }
            return Some(i);
        }
        i = i + 1;
    }
    None
}

fn merge_tags(base: &Vec<(String, String)>, over: &Vec<(String, String)>) -> (r: Vec<(String, String)>)
    ensures
        r@ == tags_merged(base@, over@),
{
    let mut m: Vec<(String, String)> = Vec::new();
    let mut i: usize = 0;
    while i < base.len()
        invariant
            i <= base@.len(),
            m@ == base@.take(i as int),
        decreases base@.len() - i,
    {
        m.push((base[i].0.clone(), base[i].1.clone()));
        proof {
            assert(base@.take(i + 1) =~= base@.take(i as int).push(base@[i as int]));
        }
        i = i + 1;
    }
    proof {
        assert(base@.take(base@.len() as int) =~= base@);
        assert(over@.take(0) =~= Seq::<(String, String)>::empty());
    }
    let mut j: usize = 0;
    while j < over.len()
        invariant
            j <= over@.len(),
            m@ == tags_merged(base@, over@.take(j as int)),
        decreases over@.len() - j,
    {
        let e = (over[j].0.clone(), over[j].1.clone());
        match key_position(&m, &e.0) {
            Some(p) => {
                m.set(p, e);
            },
            None => {
                m.push(e);
            },
        }
        proof {
            assert(over@.take(j + 1).drop_last() =~= over@.take(j as int));
            assert(over@.take(j + 1).last() == over@[j as int]);
        }
        j = j + 1;
    }
    proof {
        assert(over@.take(over@.len() as int) =~= over@);
    }
    m
}

/// What `Config::new_at` gives for these arguments: success exactly when
/// every template is accepted, each field then the evaluated template or the
/// merged setting, and otherwise the error of the first template refused.
pub open spec fn config_result(
    global_config: GlobalConfig,
    podcast_config: PodcastConfig,
    data: EvalData,
    now: i64,
    home: Option<String>,
    r: Result<Config, PatternError>,
) -> bool {
        let avail = data.offers();
        let h = opt_view(home);
        let dl = rendered(
            chosen(podcast_config.download_path, global_config.download_path),
            avail,
            data,
            now,
            h,
        );
        let tr = rendered(
            tracker_template(global_config, podcast_config),
            tracker_sources(data),
            data,
            now,
            h,
        );
        let nm = rendered(
            chosen(podcast_config.name_pattern, global_config.name_pattern),
            avail,
            data,
            now,
            h,
        );
        let id = rendered(
            chosen(podcast_config.id_pattern, global_config.id_pattern),
            avail,
            data,
            now,
            h,
        );
        let sl = match podcast_config.symlink {
            Some(s) => Some(s),
            None => global_config.symlink,
        };
        let pp = match podcast_config.partial_path {
            Some(s) => Some(s),
            None => global_config.partial_path,
        };
        let sl_ok = match sl {
            Some(s) => rendered(s@, avail, data, now, h) is Ok,
            None => true,
        };
        let pp_ok = match pp {
            Some(s) => rendered(s@, avail, data, now, h) is Ok,
            None => true,
        };
        &&& (r is Ok <==> dl is Ok && tr is Ok && nm is Ok && id is Ok && sl_ok && pp_ok)
        &&& r matches Ok(c) ==> {
            &&& c.url == podcast_config.url
            &&& dl == Ok::<Seq<char>, ErrorModel>(c.download_path@)
            &&& tr == Ok::<Seq<char>, ErrorModel>(c.tracker_path@)
            &&& nm == Ok::<Seq<char>, ErrorModel>(c.name_pattern@)
            &&& id == Ok::<Seq<char>, ErrorModel>(c.id_pattern@)
            &&& match sl {
                Some(s) => c.symlink matches Some(v) && rendered(s@, avail, data, now, h)
                    == Ok::<Seq<char>, ErrorModel>(v@),
                None => c.symlink is None,
            }
            &&& match pp {
                Some(s) => c.partial_path matches Some(v) && rendered(
                    s@,
                    avail,
                    data,
                    now,
                    h,
                ) == Ok::<Seq<char>, ErrorModel>(v@),
                None => c.partial_path is None,
            }
            &&& c.id3_tags@ == tags_merged(global_config.id3_tags@, podcast_config.id3_tags@)
        &&& unique_keys(global_config.id3_tags@) ==> unique_keys(c.id3_tags@)
            &&& c.download_hook == podcast_config.download_hook.resolved(
                global_config.download_hook,
            )
        }
        &&& r matches Err(e) ==> {
            ||| dl == Err::<Seq<char>, ErrorModel>(e.model())
            ||| dl is Ok && tr == Err::<Seq<char>, ErrorModel>(e.model())
            ||| dl is Ok && tr is Ok && nm == Err::<Seq<char>, ErrorModel>(e.model())
            ||| dl is Ok && tr is Ok && nm is Ok && id == Err::<Seq<char>, ErrorModel>(
                e.model(),
            )
            ||| dl is Ok && tr is Ok && nm is Ok && id is Ok && (sl matches Some(s)
                && rendered(s@, avail, data, now, h) == Err::<Seq<char>, ErrorModel>(
                e.model(),
            ))
            ||| dl is Ok && tr is Ok && nm is Ok && id is Ok && sl_ok && (pp matches Some(
                s,
            ) && rendered(s@, avail, data, now, h) == Err::<Seq<char>, ErrorModel>(
                e.model(),
            ))
        }
}

impl Config {
    /// The settings of the episode that `data` describes, with `now` as the
    /// current time and `home` as the home directory. The download path,
    /// name, id, symlink and partial path templates may read every source
    /// that `data` holds; the tracker path only the podcast. The first
    /// template refused, in that order with the tracker path second, gives
    /// the error.
    pub fn new_at(
        global_config: &GlobalConfig,
        podcast_config: &PodcastConfig,
        data: &EvalData,
        now: i64,
        home: &Option<String>,
    ) -> (r: Result<Config, PatternError>)
        ensures
            config_result(*global_config, *podcast_config, *data, now, *home, r),
    {
        let avail = Sources::new(data.episode.is_some(), data.podcast.is_some(), data.tags.is_some());
        let tracker_avail = Sources::new(false, data.podcast.is_some(), false);
        let id3_tags = merge_tags(&global_config.id3_tags, &podcast_config.id3_tags);
        proof {
            if unique_keys(global_config.id3_tags@) {
                lemma_tags_merged_unique(global_config.id3_tags@, podcast_config.id3_tags@);
            }
        }
        let download_hook = match &podcast_config.download_hook {
            ConfigOption::Disabled => None,
            ConfigOption::Enabled(h) => Some(h.clone()),
            ConfigOption::UseGlobal => clone_opt(&global_config.download_hook),
        };
        let download_path_str = match &podcast_config.download_path {
            Some(p) => p.clone(),
            None => global_config.download_path.clone(),
        };
        let download_path = match render(download_path_str.as_str(), avail, data, now, home) {
            Ok(p) => p,
            Err(e) => return Err(e),
        };
        let tracker_str = match &podcast_config.tracker_path {
            ConfigOption::Enabled(t) => t.clone(),
            ConfigOption::UseGlobal if global_config.tracker_path.is_some() => {
                match &global_config.tracker_path {
                    Some(t) => t.clone(),
                    None => String::new(),
                }
            },
            _ => {
                let cs = chars_of(download_path_str.as_str());
                let mut t = download_path_str.clone();
                if cs.len() > 0 && cs[cs.len() - 1] == '/' {
                    push_string(&mut t, ".downloaded");
                } else {
                    push_string(&mut t, "/.downloaded");
                }
                t
            },
        };
        assert(tracker_str@ == tracker_template(*global_config, *podcast_config));
        let tracker_path = match render(tracker_str.as_str(), tracker_avail, data, now, home) {
            Ok(p) => p,
            Err(e) => return Err(e),
        };
        let name_str = match &podcast_config.name_pattern {
            Some(p) => p.as_str(),
            None => global_config.name_pattern.as_str(),
        };
        let name_pattern = match render(name_str, avail, data, now, home) {
            Ok(p) => p,
            Err(e) => return Err(e),
        };
        let id_str = match &podcast_config.id_pattern {
            Some(p) => p.as_str(),
            None => global_config.id_pattern.as_str(),
        };
        let id_pattern = match render(id_str, avail, data, now, home) {
            Ok(p) => p,
            Err(e) => return Err(e),
        };
        let symlink_str = match &podcast_config.symlink {
            Some(s) => Some(s.clone()),
            None => clone_opt(&global_config.symlink),
        };
        let symlink = match render_opt(&symlink_str, avail, data, now, home) {
            Ok(s) => s,
            Err(e) => return Err(e),
        };
        let partial_str = match &podcast_config.partial_path {
            Some(s) => Some(s.clone()),
            None => clone_opt(&global_config.partial_path),
        };
        let partial_path = match render_opt(&partial_str, avail, data, now, home) {
            Ok(s) => s,
            Err(e) => return Err(e),
        };
        Ok(
            Config {
                url: podcast_config.url.clone(),
                name_pattern,
                id_pattern,
                download_path,
                partial_path,
                tracker_path,
                symlink,
                id3_tags,
                download_hook,
            },
        )
    }

    /// The settings of the episode that `data` describes, evaluated now with
    /// the user's home directory; see `new_at`.
    pub fn new(global_config: &GlobalConfig, podcast_config: &PodcastConfig, data: &EvalData) -> (r:
        Result<Config, PatternError>)
        ensures
            exists|now: i64, h: Option<String>|
                config_result(*global_config, *podcast_config, *data, now, h, r),
    {
        let now = current_unix();
        let h = home();
        let r = Config::new_at(global_config, podcast_config, data, now, &h);
        assert(config_result(*global_config, *podcast_config, *data, now, h, r));
        r
    }
}

/// Whether a subscription list holds a feed named `name`.
pub open spec fn has_name(feeds: Seq<(String, PodcastConfig)>, name: Seq<char>) -> bool {
    exists|i: int| 0 <= i < feeds.len() && (#[trigger] feeds[i]).0@ == name
}

/// What `regex` says of `text` under `pattern`: whether it matches anywhere,
/// or `None` where the pattern is not a valid regular expression.
pub uninterp spec fn regex_match_of(pattern: Seq<char>, text: Seq<char>) -> Option<bool>;

/// Relies on `regex::Regex::new` and `Regex::is_match`: compiles `pattern`
/// and tells whether it matches somewhere in `text`.
#[verifier::external_body]
fn regex_match(pattern: &str, text: &str) -> (r: Option<bool>)
    ensures
        r == regex_match_of(pattern@, text@),
{
    regex::Regex::new(pattern).ok().map(|re| re.is_match(text))
}

/// The feeds whose names `pattern` matches, in order; `None` where the
/// pattern is invalid for some name.
pub open spec fn kept(feeds: Seq<(String, PodcastConfig)>, pattern: Seq<char>) -> Option<
    Seq<(String, PodcastConfig)>,
>
    decreases feeds.len(),
{
    if feeds.len() == 0 {
        Some(seq![])
    } else {
        match kept(feeds.drop_last(), pattern) {
            None => None,
            Some(k) => match regex_match_of(pattern, feeds.last().0@) {
                None => None,
                Some(true) => Some(k.push(feeds.last())),
                Some(false) => Some(k),
            },
        }
    }
}

/// The feeds one subscribes to, each under a name of its own.
#[derive(Clone, Debug)]
pub struct PodcastConfigs(pub Vec<(String, PodcastConfig)>);

impl PodcastConfigs {
    /// No two feeds share a name.
    pub open spec fn wf(&self) -> bool {
        names_distinct(self.0@)
    }

    /// A list with no feed.
    pub fn new() -> (r: PodcastConfigs)
        ensures
            r.0@.len() == 0,
            r.wf(),
    {
        PodcastConfigs(Vec::new())
    }

    pub fn len(&self) -> (r: usize)
        ensures
            r == self.0@.len(),
    {
        self.0.len()
    }

    pub fn is_empty(&self) -> (r: bool)
        ensures
            r == (self.0@.len() == 0),
    {
        self.0.len() == 0
    }

    /// Whether a feed goes by `name`.
    pub fn contains_name(&self, name: &str) -> (r: bool)
        ensures
            r == has_name(self.0@, name@),
    {
        let key = chars_of(name);
        let mut i: usize = 0;
        while i < self.0.len()
            invariant
                i <= self.0@.len(),
                key@ == name@,
                forall|j: int| 0 <= j < i ==> (#[trigger] self.0@[j]).0@ != name@,
            decreases self.0@.len() - i,
        {
            let k = chars_of(self.0[i].0.as_str());
            if crate::text::eq_chars(k.as_slice(), key.as_slice()) {
                assert(self.0@[i as int].0@ == name@);
                return true;
            }
            i = i + 1;
        }
        false
    }

    /// The length in characters of the longest feed name, where there is a
    /// feed.
    pub fn longest_name(&self) -> (r: Option<usize>)
        ensures
            match r {
                None => self.0@.len() == 0,
                Some(m) => {
                    &&& forall|i: int| 0 <= i < self.0@.len() ==> (#[trigger] self.0@[i]).0@.len() <= m
                    &&& exists|i: int| 0 <= i < self.0@.len() && (#[trigger] self.0@[i]).0@.len() == m
                },
            },
    {
        let mut best: Option<usize> = None;
        let mut i: usize = 0;
        while i < self.0.len()
            invariant
                i <= self.0@.len(),
                match best {
                    None => i == 0,
                    Some(m) => {
                        &&& forall|j: int| 0 <= j < i ==> (#[trigger] self.0@[j]).0@.len() <= m
                        &&& exists|j: int| 0 <= j < i && (#[trigger] self.0@[j]).0@.len() == m
                    },
                },
            decreases self.0@.len() - i,
        {
            let n = self.0[i].0.as_str().unicode_len();
            best = match best {
                None => Some(n),
                Some(m) => if n > m {
                    Some(n)
                } else {
                    Some(m)
                },
            };
            i = i + 1;
        }
        best
    }

    /// The feeds whose names the regular expression `pattern` matches; all of
    /// them where there is no pattern, and `None` where it is invalid.
    pub fn filter(self, pattern: Option<&str>) -> (r: Option<PodcastConfigs>)
        ensures
            match pattern {
                None => r == Some(self),
                Some(p) => match kept(self.0@, p@) {
                    None => r is None,
                    Some(k) => r matches Some(c) && c.0@ == k,
                },
            },
            self.wf() ==> (r matches Some(c) ==> c.wf()),
    {
        let p = match pattern {
            None => return Some(self),
            Some(p) => p,
        };
        let ghost all = self.0@;
        let mut rest = self.0;
        let n = rest.len();
        let mut out: Vec<(String, PodcastConfig)> = Vec::new();
        let mut i: usize = 0;
        proof {
            assert(all.skip(0) =~= all);
            assert(all.take(0) =~= Seq::<(String, PodcastConfig)>::empty());
        }
        while i < n
            invariant
                n == all.len(),
                i <= n,
                pattern == Some(p),
                all == self.0@,
                rest@ == all.skip(i as int),
                kept(all.take(i as int), p@) == Some(out@),
            decreases n - i,
        {
            let e = rest.remove(0);
            proof {
                assert(e == all[i as int]);
                assert(rest@ =~= all.skip(i + 1));
                assert(all.take(i + 1).drop_last() =~= all.take(i as int));
                assert(all.take(i + 1).last() == all[i as int]);
            }
            match regex_match(p, e.0.as_str()) {
                None => {
                    proof {
                        lemma_kept_none(all, p@, i as int + 1);
                    }
                    return None;
                },
                Some(true) => out.push(e),
                Some(false) => {},
            }
            i = i + 1;
        }
        proof {
            assert(all.take(n as int) =~= all);
            if names_distinct(all) {
                lemma_kept_distinct(all, p@);
            }
        }
        Some(PodcastConfigs(out))
    }

    /// The feeds with their names.
    pub fn into_inner(self) -> (r: Vec<(String, PodcastConfig)>)
        ensures
            r == self.0,
    {
        self.0
    }

    /// Writes the feeds of `self` into `all`, in order: a feed of the same
    /// name is replaced in place, another is appended.
    pub fn save_modified(self, all: &mut PodcastConfigs)
        ensures
            final(all).0@ == overlaid(old(all).0@, self.0@),
            old(all).wf() ==> final(all).wf(),
    {
        let ghost start = all.0@;
        let ghost mine = self.0@;
        let mut rest = self.0;
        let n = rest.len();
        let mut k: usize = 0;
        proof {
            assert(mine.skip(0) =~= mine);
            assert(mine.take(0) =~= Seq::<(String, PodcastConfig)>::empty());
        }
        while k < n
            invariant
                n == mine.len(),
                k <= n,
                rest@ == mine.skip(k as int),
                all.0@ == overlaid(start, mine.take(k as int)),
                names_distinct(start) ==> names_distinct(all.0@),
            decreases n - k,
        {
            let e = rest.remove(0);
            proof {
                assert(e == mine[k as int]);
                assert(rest@ =~= mine.skip(k + 1));
                assert(mine.take(k + 1).drop_last() =~= mine.take(k as int));
                assert(mine.take(k + 1).last() == mine[k as int]);
            }
            let ghost before = all.0@;
            match all.position_of(e.0.as_str()) {
                Some(j) => {
                    all.0.set(j, e);
                },
                None => {
                    all.0.push(e);
                },
            }
            proof {
                lemma_overlay_one_distinct(before, e);
            }
            k = k + 1;
        }
        proof {
            assert(mine.take(n as int) =~= mine);
        }
    }

    /// The position of the feed named `name`, where there is one.
    pub fn position_of(&self, name: &str) -> (r: Option<usize>)
        ensures
            match r {
                Some(i) => name_index(self.0@, name@) == Some(i as int) && i < self.0@.len(),
                None => name_index(self.0@, name@) is None,
            },
    {
        let key = chars_of(name);
        let mut i: usize = 0;
        while i < self.0.len()
            invariant
                i <= self.0@.len(),
                key@ == name@,
                forall|t: int| 0 <= t < i ==> (#[trigger] self.0@[t]).0@ != name@,
            decreases self.0@.len() - i,
        {
            let x = chars_of(self.0[i].0.as_str());
            if crate::text::eq_chars(x.as_slice(), key.as_slice()) {
                proof {
                    assert(self.0@[i as int].0@ == name@);
                    let c = choose|c: int|
                        0 <= c < self.0@.len() && (#[trigger] self.0@[c]).0@ == name@ && forall|t: int|
                            0 <= t < c ==> (#[trigger] self.0@[t]).0@ != name@;
                    if c > i {
                        assert(self.0@[i as int].0@ != name@);
                    }
                }
                return Some(i);
            }
            i = i + 1;
        }
        None
    }

    /// Adds a feed under a name no feed has yet; says whether it was added.
    pub fn push(&mut self, name: String, podcast: PodcastConfig) -> (r: bool)
        ensures
            r == !has_name(old(self).0@, name@),
            r ==> final(self).0@ == old(self).0@.push((name, podcast)),
            !r ==> final(self).0@ == old(self).0@,
            old(self).wf() ==> final(self).wf(),
    {
        if self.contains_name(name.as_str()) {
            false
        } else {
            let ghost before = self.0@;
            self.0.push((name, podcast));
            proof {
                assert forall|i: int, j: int| 0 <= i < j < self.0@.len() && names_distinct(before)
                    implies (#[trigger] self.0@[i]).0@ != (#[trigger] self.0@[j]).0@ by {
                    if j < before.len() {
                        assert(self.0@[i] == before[i] && self.0@[j] == before[j]);
                    } else {
                        assert(self.0@[i] == before[i]);
                    }
                }
            }
            true
        }
    }

    /// Adds each feed of `new_podcasts` whose name is not taken yet, in order;
    /// of two new feeds with one name the first is kept.
    pub fn extend(&mut self, new_podcasts: Vec<(String, PodcastConfig)>)
        ensures
            final(self).0@ == extended(old(self).0@, new_podcasts@),
            old(self).wf() ==> final(self).wf(),
    {
        let ghost start = self.0@;
        let ghost all = new_podcasts@;
        let mut rest = new_podcasts;
        let n = rest.len();
        let mut k: usize = 0;
        proof {
            assert(all.skip(0) =~= all);
            assert(all.take(0) =~= Seq::<(String, PodcastConfig)>::empty());
        }
        while k < n
            invariant
                all.len() == n,
                k <= n,
                rest@ == all.skip(k as int),
                self.0@ == extended(start, all.take(k as int)),
                names_distinct(start) ==> self.wf(),
            decreases n - k,
        {
            let e = rest.remove(0);
            proof {
                assert(e == all[k as int]);
                assert(rest@ =~= all.skip(k + 1));
                assert(all.take(k + 1).drop_last() =~= all.take(k as int));
                assert(all.take(k + 1).last() == all[k as int]);
            }
            self.push(e.0, e.1);
            k = k + 1;
        }
        proof {
            assert(all.take(n as int) =~= all);
        }
    }
}

/// Whether no two feeds share a name.
pub open spec fn names_distinct(m: Seq<(String, PodcastConfig)>) -> bool {
    forall|i: int, j: int| 0 <= i < j < m.len() ==> (#[trigger] m[i]).0@ != (#[trigger] m[j]).0@
}

/// The position of the first feed named `name`.
pub open spec fn name_index(m: Seq<(String, PodcastConfig)>, name: Seq<char>) -> Option<int> {
    if has_name(m, name) {
        Some(
            choose|i: int|
                0 <= i < m.len() && (#[trigger] m[i]).0@ == name && forall|t: int|
                    0 <= t < i ==> (#[trigger] m[t]).0@ != name,
        )
    } else {
        None
    }
}

/// A list with `e` written in: replacing the feed of the same name, or
/// appended.
pub open spec fn overlay_one(m: Seq<(String, PodcastConfig)>, e: (String, PodcastConfig)) -> Seq<
    (String, PodcastConfig),
> {
    match name_index(m, e.0@) {
        Some(i) => m.update(i, e),
        None => m.push(e),
    }
}

/// A list with each feed of `mine` written in, in order.
pub open spec fn overlaid(m: Seq<(String, PodcastConfig)>, mine: Seq<(String, PodcastConfig)>) -> Seq<
    (String, PodcastConfig),
>
    decreases mine.len(),
{
    if mine.len() == 0 {
        m
    } else {
        overlay_one(overlaid(m, mine.drop_last()), mine.last())
    }
}

/// A list with each feed of `new` whose name is not taken yet appended, in
/// order.
pub open spec fn extended(m: Seq<(String, PodcastConfig)>, new: Seq<(String, PodcastConfig)>) -> Seq<
    (String, PodcastConfig),
>
    decreases new.len(),
{
    if new.len() == 0 {
        m
    } else {
        let b = extended(m, new.drop_last());
        if has_name(b, new.last().0@) {
            b
        } else {
            b.push(new.last())
        }
    }
}

proof fn lemma_overlay_one_distinct(m: Seq<(String, PodcastConfig)>, e: (String, PodcastConfig))
    ensures
        names_distinct(m) ==> names_distinct(overlay_one(m, e)),
{
    if names_distinct(m) {
        let r = overlay_one(m, e);
        match name_index(m, e.0@) {
            Some(k) => {
                assert(m[k].0@ == e.0@);
                assert forall|i: int, j: int| 0 <= i < j < r.len() implies (#[trigger] r[i]).0@ != (#[trigger] r[j]).0@ by {
                    if i != k && j != k {
                        assert(r[i] == m[i] && r[j] == m[j]);
                    } else if i == k {
                        assert(r[j] == m[j]);
                    } else {
                        assert(r[i] == m[i]);
                    }
                }
            },
            None => {
                assert forall|i: int, j: int| 0 <= i < j < r.len() implies (#[trigger] r[i]).0@ != (#[trigger] r[j]).0@ by {
                    if j < m.len() {
                        assert(r[i] == m[i] && r[j] == m[j]);
                    } else {
                        assert(r[i] == m[i]);
                        assert(!(0 <= i < m.len() && m[i].0@ == e.0@));
                    }
                }
            },
        }
    }
}

proof fn lemma_kept_distinct(feeds: Seq<(String, PodcastConfig)>, pattern: Seq<char>)
    requires
        names_distinct(feeds),
        kept(feeds, pattern) is Some,
    ensures
        names_distinct(kept(feeds, pattern)->Some_0),
        forall|j: int|
            0 <= j < kept(feeds, pattern)->Some_0.len() ==> has_name(
                feeds,
                (#[trigger] kept(feeds, pattern)->Some_0[j]).0@,
            ),
    decreases feeds.len(),
{
    if feeds.len() > 0 {
        let init = feeds.drop_last();
        assert forall|i: int, j: int| 0 <= i < j < init.len() implies (#[trigger] init[i]).0@ != (#[trigger] init[j]).0@ by {
            assert(init[i] == feeds[i] && init[j] == feeds[j]);
        }
        lemma_kept_distinct(init, pattern);
        let k = kept(init, pattern)->Some_0;
        let r = kept(feeds, pattern)->Some_0;
        let last = feeds.last();
        assert forall|j: int| 0 <= j < k.len() implies has_name(feeds, (#[trigger] k[j]).0@) && k[j].0@ != last.0@ by {
            let w = choose|w: int| 0 <= w < init.len() && (#[trigger] init[w]).0@ == k[j].0@;
            assert(feeds[w] == init[w]);
            assert(feeds[feeds.len() - 1] == last);
        }
        if r.len() > k.len() {
            assert(r == k.push(last));
            assert forall|i: int, j: int| 0 <= i < j < r.len() implies (#[trigger] r[i]).0@ != (#[trigger] r[j]).0@ by {
                if j < k.len() {
                    assert(r[i] == k[i] && r[j] == k[j]);
                } else {
                    assert(r[i] == k[i]);
                }
            }
            assert forall|j: int| 0 <= j < r.len() implies has_name(feeds, (#[trigger] r[j]).0@) by {
                if j < k.len() {
                    assert(r[j] == k[j]);
                } else {
                    assert(feeds[feeds.len() - 1] == last);
                }
            }
        }
    }
}

proof fn lemma_kept_none(feeds: Seq<(String, PodcastConfig)>, pattern: Seq<char>, k: int)
    requires
        0 <= k <= feeds.len(),
        kept(feeds.take(k), pattern) is None,
    ensures
        kept(feeds, pattern) is None,
    decreases feeds.len() - k,
{
    if k < feeds.len() {
        assert(feeds.take(k + 1).drop_last() =~= feeds.take(k));
        lemma_kept_none(feeds, pattern, k + 1);
    } else {
        assert(feeds.take(k) =~= feeds);
    }
}

} // verus!
