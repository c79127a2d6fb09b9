//! User settings: sort order, game mode, time format, language and the
//! saved configuration, with the names under which they are stored.
use vstd::prelude::*;
use crate::text::{lowercase, to_lowercase, str_eq};

verus! {

#[derive(Debug, Clone, Copy, PartialEq, Eq, Structural)]
pub enum SortOrder {
    Default,
    Killer,
    Survivor,
    Ping,
}

#[derive(Debug, Clone, Copy, PartialEq, Eq, Structural)]
pub enum GameMode {
    Standard,
    Event,
}

#[derive(Debug, Clone, Copy, PartialEq, Eq, Structural)]
pub enum TimeFormat {
    Exact,
    Rounded,
}

#[derive(Debug, Clone, Copy, PartialEq, Eq, Structural)]
pub enum Language {
    Auto,
    En,
    Ru,
}

impl Default for SortOrder {
    fn default() -> (r: Self)
        ensures
            r == SortOrder::Default,
    {
        SortOrder::Default
    }
}

impl Default for GameMode {
    fn default() -> (r: Self)
        ensures
            r == GameMode::Standard,
    {
        GameMode::Standard
    }
}

impl Default for TimeFormat {
    fn default() -> (r: Self)
        ensures
            r == TimeFormat::Exact,
    {
        TimeFormat::Exact
    }
}

impl Default for Language {
    fn default() -> (r: Self)
        ensures
            r == Language::Auto,
    {
        Language::Auto
    }
}

/// The names under which the settings are stored.
pub open spec fn sort_name(v: SortOrder) -> &'static str {
    match v {
        SortOrder::Default => "default",
        SortOrder::Killer => "killer",
        SortOrder::Survivor => "survivor",
        SortOrder::Ping => "ping",
    }
}

pub open spec fn mode_name(v: GameMode) -> &'static str {
    match v {
        GameMode::Standard => "standard",
        GameMode::Event => "event",
    }
}

pub open spec fn format_name(v: TimeFormat) -> &'static str {
    match v {
        TimeFormat::Exact => "exact",
        TimeFormat::Rounded => "rounded",
    }
}

pub open spec fn language_name(v: Language) -> &'static str {
    match v {
        Language::Auto => "auto",
        Language::En => "en",
        Language::Ru => "ru",
    }
}

/// The sort order that a stored name stands for, given the name in lower case.
pub open spec fn sort_order_named(lower: Seq<char>) -> SortOrder {
    if lower == "killer"@ {
        SortOrder::Killer
    } else if lower == "survivor"@ {
        SortOrder::Survivor
    } else if lower == "ping"@ || lower == "priority"@ {
        SortOrder::Ping
    } else {
        SortOrder::Default
    }
}

pub open spec fn game_mode_named(lower: Seq<char>) -> GameMode {
    if lower == "event"@ {
        GameMode::Event
    } else {
        GameMode::Standard
    }
}

pub open spec fn time_format_named(lower: Seq<char>) -> TimeFormat {
    if lower == "rounded"@ {
        TimeFormat::Rounded
    } else {
        TimeFormat::Exact
    }
}

pub open spec fn language_named(lower: Seq<char>) -> Language {
    if lower == "en"@ {
        Language::En
    } else if lower == "ru"@ {
        Language::Ru
    } else {
        Language::Auto
    }
}

impl SortOrder {
    /// Reads a stored sort name, ignoring case; an unknown name gives `Default`,
    /// and the retired name "priority" gives `Ping`.
    pub fn from_name(name: &str) -> (r: SortOrder)
        ensures
            r == sort_order_named(lowercase(name@)),
    {
        let lower = to_lowercase(name);
        let l = lower.as_str();
        if str_eq(l, "killer") {
            SortOrder::Killer
        } else if str_eq(l, "survivor") {
            SortOrder::Survivor
        } else if str_eq(l, "ping") || str_eq(l, "priority") {
            SortOrder::Ping
        } else {
            SortOrder::Default
        }
    }

    /// The name under which the sort order is stored.
    pub fn name(self) -> (r: &'static str)
        ensures
            r == sort_name(self),
    {
        match self {
            SortOrder::Default => "default",
            SortOrder::Killer => "killer",
            SortOrder::Survivor => "survivor",
            SortOrder::Ping => "ping",
        }
    }
}

impl GameMode {
    /// Reads a stored mode name, ignoring case; anything but "event" gives
    /// `Standard` (the retired "both" among them).
    pub fn from_name(name: &str) -> (r: GameMode)
        ensures
            r == game_mode_named(lowercase(name@)),
    {
        let lower = to_lowercase(name);
        if str_eq(lower.as_str(), "event") {
            GameMode::Event
        } else {
            GameMode::Standard
        }
    }

    pub fn name(self) -> (r: &'static str)
        ensures
            r == mode_name(self),
    {
        match self {
            GameMode::Standard => "standard",
            GameMode::Event => "event",
        }
    }

    pub open spec fn toggled(self) -> GameMode {
        match self {
            GameMode::Standard => GameMode::Event,
            GameMode::Event => GameMode::Standard,
        }
    }

    /// The other mode.
    pub fn toggle(self) -> (r: GameMode)
        ensures
            r == self.toggled(),
    {
        match self {
            GameMode::Standard => GameMode::Event,
            GameMode::Event => GameMode::Standard,
        }
    }
}

impl TimeFormat {
    pub fn from_name(name: &str) -> (r: TimeFormat)
        ensures
            r == time_format_named(lowercase(name@)),
    {
        let lower = to_lowercase(name);
        if str_eq(lower.as_str(), "rounded") {
            TimeFormat::Rounded
        } else {
            TimeFormat::Exact
        }
    }

    pub fn name(self) -> (r: &'static str)
        ensures
            r == format_name(self),
    {
        match self {
            TimeFormat::Exact => "exact",
            TimeFormat::Rounded => "rounded",
        }
    }

    pub open spec fn toggled(self) -> TimeFormat {
        match self {
            TimeFormat::Exact => TimeFormat::Rounded,
            TimeFormat::Rounded => TimeFormat::Exact,
        }
    }

    /// The other format.
    pub fn toggle(self) -> (r: TimeFormat)
        ensures
            r == self.toggled(),
    {
        match self {
            TimeFormat::Exact => TimeFormat::Rounded,
            TimeFormat::Rounded => TimeFormat::Exact,
        }
    }
}

impl Language {
    pub fn from_name(name: &str) -> (r: Language)
        ensures
            r == language_named(lowercase(name@)),
    {
        let lower = to_lowercase(name);
        let l = lower.as_str();
        if str_eq(l, "en") {
            Language::En
        } else if str_eq(l, "ru") {
            Language::Ru
        } else {
            Language::Auto
        }
    }

    pub fn name(self) -> (r: &'static str)
        ensures
            r == language_name(self),
    {
        match self {
            Language::Auto => "auto",
            Language::En => "en",
            Language::Ru => "ru",
        }
    }
}

/// The settings that are saved between runs.
#[derive(Debug, Clone, PartialEq, Eq)]
pub struct AppConfig {
    /// Kept so that configuration files that still hold it load; not used.
    pub priority: Vec<String>,
    pub locked: Vec<String>,
    pub sort: SortOrder,
    pub mode: GameMode,
    pub time_format: TimeFormat,
    pub lang: Language,
    pub api_url: Option<String>,
}

impl Default for AppConfig {
    fn default() -> (r: Self)
        ensures
            r.priority@.len() == 0,
            r.locked@.len() == 0,
            r.sort == SortOrder::Default,
            r.mode == GameMode::Standard,
            r.time_format == TimeFormat::Exact,
            r.lang == Language::Auto,
            r.api_url is None,
    {
        AppConfig {
            priority: Vec::new(),
            locked: Vec::new(),
            sort: SortOrder::Default,
            mode: GameMode::Standard,
            time_format: TimeFormat::Exact,
            lang: Language::Auto,
            api_url: None,
        }
    }
}

impl AppConfig {
    /// The settings after the command line's `--sort`, `--mode` and `--time`:
    /// each one given replaces the stored value, read as the configuration
    /// file reads it. The flag tells whether any was given, so that the
    /// settings are to be saved.
    pub fn with_cli(self, sort: Option<&str>, mode: Option<&str>, time: Option<&str>) -> (r: (
        AppConfig,
        bool,
    ))
        ensures
            r.0.sort == (match sort {
                Some(s) => sort_order_named(lowercase(s@)),
                None => self.sort,
            }),
            r.0.mode == (match mode {
                Some(m) => game_mode_named(lowercase(m@)),
                None => self.mode,
            }),
            r.0.time_format == (match time {
                Some(t) => time_format_named(lowercase(t@)),
                None => self.time_format,
            }),
            r.0 == (AppConfig { sort: r.0.sort, mode: r.0.mode, time_format: r.0.time_format, ..self }),
            r.1 == (sort is Some || mode is Some || time is Some),
    {
        let mut c = self;
        let mut changed = false;
        if let Some(s) = sort {
            c.sort = SortOrder::from_name(s);
            changed = true;
        }
        if let Some(m) = mode {
            c.mode = GameMode::from_name(m);
            changed = true;
        }
        if let Some(t) = time {
            c.time_format = TimeFormat::from_name(t);
            changed = true;
        }
        (c, changed)
    }
}

/// The file name of the configuration.
pub const CONFIG_FILE_NAME: &'static str = "config.toml";

/// The components of the configuration file's path: on Windows under
/// `%APPDATA%\dbdqueue`, else under `%USERPROFILE%\.config\dbdqueue`;
/// elsewhere under `$HOME/.config/dbdqueue`; in the working directory when
/// the variable is not set.
pub open spec fn config_path_spec(
    windows: bool,
    appdata: Option<Seq<char>>,
    userprofile: Option<Seq<char>>,
    home: Option<Seq<char>>,
) -> Seq<Seq<char>> {
    if windows {
        match appdata {
            Some(a) => seq![a, "dbdqueue"@, CONFIG_FILE_NAME@],
            None => match userprofile {
                Some(u) => seq![u, ".config"@, "dbdqueue"@, CONFIG_FILE_NAME@],
                None => seq![CONFIG_FILE_NAME@],
            },
        }
    } else {
        match home {
            Some(h) => seq![h, ".config"@, "dbdqueue"@, CONFIG_FILE_NAME@],
            None => seq![CONFIG_FILE_NAME@],
        }
    }
}

pub open spec fn opt_text(o: Option<&str>) -> Option<Seq<char>> {
    match o {
        Some(s) => Some(s@),
        None => None,
    }
}

/// The components of the configuration file's path, from the environment
/// variables `APPDATA`, `USERPROFILE` and `HOME` where they are set.
pub fn config_path_parts(
    windows: bool,
    appdata: Option<&str>,
    userprofile: Option<&str>,
    home: Option<&str>,
) -> (r: Vec<String>)
    ensures
        r@.map_values(|x: String| x@) == config_path_spec(
            windows,
            opt_text(appdata),
            opt_text(userprofile),
            opt_text(home),
        ),
{
    let mut v: Vec<String> = Vec::new();
    let base = if windows {
        match appdata {
            Some(a) => {
                v.push(String::from_str(a));
                v.push(String::from_str("dbdqueue"));
                v.push(String::from_str(CONFIG_FILE_NAME));
                return v;
            },
            None => userprofile,
        }
    } else {
        home
    };
    if let Some(b) = base {
        v.push(String::from_str(b));
        v.push(String::from_str(".config"));
        v.push(String::from_str("dbdqueue"));
    }
    v.push(String::from_str(CONFIG_FILE_NAME));
    proof {
        assert(v@.map_values(|x: String| x@) =~= config_path_spec(
            windows,
            opt_text(appdata),
            opt_text(userprofile),
            opt_text(home),
        ));
    }
    v
}

/// A stored name reads back as the setting it was stored for.
pub proof fn lemma_names_read_back(s: SortOrder, m: GameMode, f: TimeFormat, l: Language)
    ensures
        sort_order_named(sort_name(s)@) == s,
        game_mode_named(mode_name(m)@) == m,
        time_format_named(format_name(f)@) == f,
        language_named(language_name(l)@) == l,
{
    reveal_strlit("default");
    reveal_strlit("killer");
    reveal_strlit("survivor");
    reveal_strlit("ping");
    reveal_strlit("priority");
    reveal_strlit("standard");
    reveal_strlit("event");
    reveal_strlit("exact");
    reveal_strlit("rounded");
    reveal_strlit("auto");
    reveal_strlit("en");
    reveal_strlit("ru");
    assert("default"@.len() == 7 && "default"@[0] == 'd');
    assert("killer"@.len() == 6 && "killer"@[0] == 'k');
    assert("survivor"@.len() == 8 && "survivor"@[0] == 's');
    assert("ping"@.len() == 4 && "ping"@[0] == 'p');
    assert("priority"@.len() == 8 && "priority"@[0] == 'p');
    assert("standard"@.len() == 8 && "standard"@[0] == 's');
    assert("event"@.len() == 5 && "event"@[0] == 'e');
    assert("exact"@.len() == 5 && "exact"@[0] == 'e');
    assert("rounded"@.len() == 7 && "rounded"@[0] == 'r');
    assert("auto"@.len() == 4 && "auto"@[0] == 'a');
    assert("en"@.len() == 2 && "en"@[0] == 'e');
    assert("ru"@.len() == 2 && "ru"@[0] == 'r');
}

/// Toggling the mode or the time format twice gives back what one started with,
/// and toggling once always changes it.
pub proof fn lemma_toggle_twice(m: GameMode, f: TimeFormat)
    ensures
        m.toggled().toggled() == m,
        m.toggled() != m,
        f.toggled().toggled() == f,
        f.toggled() != f,
{
}

} // verus!
