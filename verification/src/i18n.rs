//! Texts of the interface in English and Russian, and the choice of language.
use vstd::prelude::*;
use crate::config::{GameMode, Language, SortOrder, TimeFormat};
use crate::text::{chars_of, decimal, lowercase, push_decimal, push_str, string_from_chars, to_lowercase, trim, trim_range};

verus! {

#[derive(Debug, Clone, Copy, PartialEq, Eq, Structural)]
pub enum Locale {
    En,
    Ru,
}

#[derive(Debug, Clone, Copy, PartialEq, Eq, Structural)]
pub enum TextKey {
    HeaderTitle,
    SortLabel,
    ModeLabel,
    TimeLabel,
    LockLabel,
    LockNone,
    LockActive,
    ColRegion,
    ColPing,
    ColSurvivor,
    ColKiller,
    FetchingQueues,
    FailedQueues,
    NoDataForMode,
    ActionSelect,
    ActionLock,
    ActionSort,
    ActionMode,
    ActionTime,
    ActionRefresh,
    ActionQuit,
    TimeFetching,
    TimeJustNow,
    StatusFetching,
    StatusApiUpdated,
    FeedbackUpToDate,
    FeedbackUpdated,
    ErrorPrefix,
    ErrorConfigSave,
    ModalTitle,
    ModalSelect,
    ModalToggle,
    ModalApply,
    ModalCancel,
    HostsUpdated,
    HostsAlreadyUpToDate,
    HostsElevationFailed,
    SummaryTitle,
    SummaryKiller,
    SummarySurvivor,
    SummarySimilar,
    EventLeft,
    EventUpcoming,
    EventStartsIn,
    EventIn,
}

/// The English text of each key.
pub open spec fn text_en(key: TextKey) -> &'static str {
    match key {
        TextKey::HeaderTitle => " Dead By Queue ",
        TextKey::SortLabel => "Sort: ",
        TextKey::ModeLabel => "Mode: ",
        TextKey::TimeLabel => "Time: ",
        TextKey::LockLabel => "Lock: ",
        TextKey::LockNone => "None",
        TextKey::LockActive => "Active",
        TextKey::ColRegion => "Region",
        TextKey::ColPing => "Ping",
        TextKey::ColSurvivor => "Survivor",
        TextKey::ColKiller => "Killer",
        TextKey::FetchingQueues => "  Fetching queue times...",
        TextKey::FailedQueues => "  Failed to load queue data. Check network or proxy. Press 'R' to retry.",
        TextKey::NoDataForMode => "  No queue data available for this mode.",
        TextKey::ActionSelect => "Select ",
        TextKey::ActionLock => "Lock ",
        TextKey::ActionSort => "Sort ",
        TextKey::ActionMode => "Mode ",
        TextKey::ActionTime => "Time ",
        TextKey::ActionRefresh => "Refresh ",
        TextKey::ActionQuit => "Quit ",
        TextKey::TimeFetching => "fetching...",
        TextKey::TimeJustNow => "just now",
        TextKey::StatusFetching => "Fetching...",
        TextKey::StatusApiUpdated => "API Updated: ",
        TextKey::FeedbackUpToDate => "[✓ Up to date]",
        TextKey::FeedbackUpdated => "[✓ Updated]",
        TextKey::ErrorPrefix => "Error: ",
        TextKey::ErrorConfigSave => "Failed to save config",
        TextKey::ModalTitle => " Region Locker ",
        TextKey::ModalSelect => "Select",
        TextKey::ModalToggle => "Toggle",
        TextKey::ModalApply => "Apply",
        TextKey::ModalCancel => "Cancel",
        TextKey::HostsUpdated => "Region locks updated!",
        TextKey::HostsAlreadyUpToDate => "Hosts file is up to date",
        TextKey::HostsElevationFailed => "Error: admin elevation denied",
        TextKey::SummaryTitle => "Best Pick",
        TextKey::SummaryKiller => "Killer:",
        TextKey::SummarySurvivor => "Survivor:",
        TextKey::SummarySimilar => "similar",
        TextKey::EventLeft => "left",
        TextKey::EventUpcoming => "Upcoming",
        TextKey::EventStartsIn => "starts",
        TextKey::EventIn => "in",
    }
}

/// The Russian text of each key.
pub open spec fn text_ru(key: TextKey) -> &'static str {
    match key {
        TextKey::HeaderTitle => " Dead By Queue ",
        TextKey::SortLabel => "Сортировка: ",
        TextKey::ModeLabel => "Режим: ",
        TextKey::TimeLabel => "Время: ",
        TextKey::LockLabel => "Блокировка: ",
        TextKey::LockNone => "Все",
        TextKey::LockActive => "Активен",
        TextKey::ColRegion => "Регион",
        TextKey::ColPing => "Пинг",
        TextKey::ColSurvivor => "Выживший",
        TextKey::ColKiller => "Маньяк",
        TextKey::FetchingQueues => "  Загрузка данных очередей...",
        TextKey::FailedQueues => "  Не удалось загрузить данные очередей. Проверьте сеть или прокси. Нажмите 'R' для повтора.",
        TextKey::NoDataForMode => "  Нет данных для выбранного режима.",
        TextKey::ActionSelect => "Выбор ",
        TextKey::ActionLock => "Блокировка ",
        TextKey::ActionSort => "Сортировка ",
        TextKey::ActionMode => "Режим ",
        TextKey::ActionTime => "Время ",
        TextKey::ActionRefresh => "Обновить ",
        TextKey::ActionQuit => "Выход ",
        TextKey::TimeFetching => "Загрузка...",
        TextKey::TimeJustNow => "только что",
        TextKey::StatusFetching => "Обновление...",
        TextKey::StatusApiUpdated => "API обновлено: ",
        TextKey::FeedbackUpToDate => "[✓ Актуально]",
        TextKey::FeedbackUpdated => "[✓ Обновлено]",
        TextKey::ErrorPrefix => "Ошибка: ",
        TextKey::ErrorConfigSave => "Не удалось сохранить конфигурацию",
        TextKey::ModalTitle => " Блокировка регионов ",
        TextKey::ModalSelect => "Выбор",
        TextKey::ModalToggle => "Вкл/Выкл",
        TextKey::ModalApply => "Применить",
        TextKey::ModalCancel => "Отмена",
        TextKey::HostsUpdated => "Блокировка регионов обновлена!",
        TextKey::HostsAlreadyUpToDate => "Файл hosts уже актуален",
        TextKey::HostsElevationFailed => "Ошибка: отказ в правах Администратора",
        TextKey::SummaryTitle => "Лучший выбор",
        TextKey::SummaryKiller => "Маньяк:",
        TextKey::SummarySurvivor => "Выживший:",
        TextKey::SummarySimilar => "похожих",
        TextKey::EventLeft => "осталось",
        TextKey::EventUpcoming => "Скоро",
        TextKey::EventStartsIn => "начало",
        TextKey::EventIn => "через",
    }
}

pub open spec fn spec_tr(locale: Locale, key: TextKey) -> &'static str {
    match locale {
        Locale::En => text_en(key),
        Locale::Ru => text_ru(key),
    }
}

/// The text of `key` in `locale`.
pub fn tr(locale: Locale, key: TextKey) -> (r: &'static str)
    ensures
        r == spec_tr(locale, key),
{
    match locale {
        Locale::En => match key {
            TextKey::HeaderTitle => " Dead By Queue ",
            TextKey::SortLabel => "Sort: ",
            TextKey::ModeLabel => "Mode: ",
            TextKey::TimeLabel => "Time: ",
            TextKey::LockLabel => "Lock: ",
            TextKey::LockNone => "None",
            TextKey::LockActive => "Active",
            TextKey::ColRegion => "Region",
            TextKey::ColPing => "Ping",
            TextKey::ColSurvivor => "Survivor",
            TextKey::ColKiller => "Killer",
            TextKey::FetchingQueues => "  Fetching queue times...",
            TextKey::FailedQueues => "  Failed to load queue data. Check network or proxy. Press 'R' to retry.",
            TextKey::NoDataForMode => "  No queue data available for this mode.",
            TextKey::ActionSelect => "Select ",
            TextKey::ActionLock => "Lock ",
            TextKey::ActionSort => "Sort ",
            TextKey::ActionMode => "Mode ",
            TextKey::ActionTime => "Time ",
            TextKey::ActionRefresh => "Refresh ",
            TextKey::ActionQuit => "Quit ",
            TextKey::TimeFetching => "fetching...",
            TextKey::TimeJustNow => "just now",
            TextKey::StatusFetching => "Fetching...",
            TextKey::StatusApiUpdated => "API Updated: ",
            TextKey::FeedbackUpToDate => "[✓ Up to date]",
            TextKey::FeedbackUpdated => "[✓ Updated]",
            TextKey::ErrorPrefix => "Error: ",
            TextKey::ErrorConfigSave => "Failed to save config",
            TextKey::ModalTitle => " Region Locker ",
            TextKey::ModalSelect => "Select",
            TextKey::ModalToggle => "Toggle",
            TextKey::ModalApply => "Apply",
            TextKey::ModalCancel => "Cancel",
            TextKey::HostsUpdated => "Region locks updated!",
            TextKey::HostsAlreadyUpToDate => "Hosts file is up to date",
            TextKey::HostsElevationFailed => "Error: admin elevation denied",
            TextKey::SummaryTitle => "Best Pick",
            TextKey::SummaryKiller => "Killer:",
            TextKey::SummarySurvivor => "Survivor:",
            TextKey::SummarySimilar => "similar",
            TextKey::EventLeft => "left",
            TextKey::EventUpcoming => "Upcoming",
            TextKey::EventStartsIn => "starts",
            TextKey::EventIn => "in",
        },
        Locale::Ru => match key {
            TextKey::HeaderTitle => " Dead By Queue ",
            TextKey::SortLabel => "Сортировка: ",
            TextKey::ModeLabel => "Режим: ",
            TextKey::TimeLabel => "Время: ",
            TextKey::LockLabel => "Блокировка: ",
            TextKey::LockNone => "Все",
            TextKey::LockActive => "Активен",
            TextKey::ColRegion => "Регион",
            TextKey::ColPing => "Пинг",
            TextKey::ColSurvivor => "Выживший",
            TextKey::ColKiller => "Маньяк",
            TextKey::FetchingQueues => "  Загрузка данных очередей...",
            TextKey::FailedQueues => "  Не удалось загрузить данные очередей. Проверьте сеть или прокси. Нажмите 'R' для повтора.",
            TextKey::NoDataForMode => "  Нет данных для выбранного режима.",
            TextKey::ActionSelect => "Выбор ",
            TextKey::ActionLock => "Блокировка ",
            TextKey::ActionSort => "Сортировка ",
            TextKey::ActionMode => "Режим ",
            TextKey::ActionTime => "Время ",
            TextKey::ActionRefresh => "Обновить ",
            TextKey::ActionQuit => "Выход ",
            TextKey::TimeFetching => "Загрузка...",
            TextKey::TimeJustNow => "только что",
            TextKey::StatusFetching => "Обновление...",
            TextKey::StatusApiUpdated => "API обновлено: ",
            TextKey::FeedbackUpToDate => "[✓ Актуально]",
            TextKey::FeedbackUpdated => "[✓ Обновлено]",
            TextKey::ErrorPrefix => "Ошибка: ",
            TextKey::ErrorConfigSave => "Не удалось сохранить конфигурацию",
            TextKey::ModalTitle => " Блокировка регионов ",
            TextKey::ModalSelect => "Выбор",
            TextKey::ModalToggle => "Вкл/Выкл",
            TextKey::ModalApply => "Применить",
            TextKey::ModalCancel => "Отмена",
            TextKey::HostsUpdated => "Блокировка регионов обновлена!",
            TextKey::HostsAlreadyUpToDate => "Файл hosts уже актуален",
            TextKey::HostsElevationFailed => "Ошибка: отказ в правах Администратора",
            TextKey::SummaryTitle => "Лучший выбор",
            TextKey::SummaryKiller => "Маньяк:",
            TextKey::SummarySurvivor => "Выживший:",
            TextKey::SummarySimilar => "похожих",
            TextKey::EventLeft => "осталось",
            TextKey::EventUpcoming => "Скоро",
            TextKey::EventStartsIn => "начало",
            TextKey::EventIn => "через",
        },
    }
}

/// The header's name of each sort order.
pub open spec fn sort_label(locale: Locale, sort: SortOrder) -> &'static str {
    match (locale, sort) {
        (Locale::En, SortOrder::Default) => "Default",
        (Locale::En, SortOrder::Killer) => "Killer",
        (Locale::En, SortOrder::Survivor) => "Survivor",
        (Locale::En, SortOrder::Ping) => "Ping",
        (Locale::Ru, SortOrder::Default) => "По умолчанию",
        (Locale::Ru, SortOrder::Killer) => "Маньяк",
        (Locale::Ru, SortOrder::Survivor) => "Выживший",
        (Locale::Ru, SortOrder::Ping) => "Пинг",
    }
}

/// The name of a sort order shown in the header.
pub fn tr_sort(locale: Locale, sort: SortOrder) -> (r: &'static str)
    ensures
        r == sort_label(locale, sort),
{
    match locale {
        Locale::En => match sort {
            SortOrder::Default => "Default",
            SortOrder::Killer => "Killer",
            SortOrder::Survivor => "Survivor",
            SortOrder::Ping => "Ping",
        },
        Locale::Ru => match sort {
            SortOrder::Default => "По умолчанию",
            SortOrder::Killer => "Маньяк",
            SortOrder::Survivor => "Выживший",
            SortOrder::Ping => "Пинг",
        },
    }
}

/// The header's name of each game mode.
pub open spec fn mode_label(locale: Locale, mode: GameMode) -> &'static str {
    match (locale, mode) {
        (Locale::En, GameMode::Standard) => "Standard",
        (Locale::En, GameMode::Event) => "Event",
        (Locale::Ru, GameMode::Standard) => "Обычный",
        (Locale::Ru, GameMode::Event) => "Ивент",
    }
}

/// The name of a game mode shown in the header.
pub fn tr_mode(locale: Locale, mode: GameMode) -> (r: &'static str)
    ensures
        r == mode_label(locale, mode),
{
    match locale {
        Locale::En => match mode {
            GameMode::Standard => "Standard",
            GameMode::Event => "Event",
        },
        Locale::Ru => match mode {
            GameMode::Standard => "Обычный",
            GameMode::Event => "Ивент",
        },
    }
}

/// The header's name of each time format.
pub open spec fn format_label(locale: Locale, format: TimeFormat) -> &'static str {
    match (locale, format) {
        (Locale::En, TimeFormat::Exact) => "Exact",
        (Locale::En, TimeFormat::Rounded) => "~Rounded",
        (Locale::Ru, TimeFormat::Exact) => "Точно",
        (Locale::Ru, TimeFormat::Rounded) => "~Округлённо",
    }
}

/// The name of a time format shown in the header.
pub fn tr_time_format(locale: Locale, format: TimeFormat) -> (r: &'static str)
    ensures
        r == format_label(locale, format),
{
    match locale {
        Locale::En => match format {
            TimeFormat::Exact => "Exact",
            TimeFormat::Rounded => "~Rounded",
        },
        Locale::Ru => match format {
            TimeFormat::Exact => "Точно",
            TimeFormat::Rounded => "~Округлённо",
        },
    }
}

/// How long ago the queue data was updated: "just now" below a minute, then
/// whole minutes, then hours and minutes.
pub open spec fn spec_time_diff(locale: Locale, diff: i64) -> Seq<char> {
    if diff < 60 {
        spec_tr(locale, TextKey::TimeJustNow)@
    } else if diff < 3600 {
        let mins = (diff / 60) as nat;
        match locale {
            Locale::En => decimal(mins) + "m ago"@,
            Locale::Ru => decimal(mins) + " мин. назад"@,
        }
    } else {
        let hours = (diff / 3600) as nat;
        let mins = ((diff % 3600) / 60) as nat;
        match locale {
            Locale::En => decimal(hours) + "h "@ + decimal(mins) + "m ago"@,
            Locale::Ru => decimal(hours) + " ч. "@ + decimal(mins) + " мин. назад"@,
        }
    }
}

pub fn format_time_diff(locale: Locale, diff_secs: i64) -> (r: String)
    ensures
        r@ == spec_time_diff(locale, diff_secs),
{
    if diff_secs < 60 {
        return String::from_str(tr(locale, TextKey::TimeJustNow));
    }
    let mut out: Vec<char> = Vec::new();
    if diff_secs < 3600 {
        let mins = (diff_secs / 60) as u64;
        push_decimal(&mut out, mins);
        match locale {
            Locale::En => push_str(&mut out, "m ago"),
            Locale::Ru => push_str(&mut out, " мин. назад"),
        }
    } else {
        let hours = (diff_secs / 3600) as u64;
        let mins = ((diff_secs % 3600) / 60) as u64;
        push_decimal(&mut out, hours);
        match locale {
            Locale::En => push_str(&mut out, "h "),
            Locale::Ru => push_str(&mut out, " ч. "),
        }
        push_decimal(&mut out, mins);
        match locale {
            Locale::En => push_str(&mut out, "m ago"),
            Locale::Ru => push_str(&mut out, " мин. назад"),
        }
    }
    string_from_chars(&out)
}

/// Whether a locale name is Russian: in lower case it starts with "ru" or
/// holds "ru_" or "ru-".
pub open spec fn is_russian(s: Seq<char>) -> bool {
    let l = lowercase(s);
    ||| l.len() >= 2 && l.take(2) == seq!['r', 'u']
    ||| exists|i: int| 0 <= i && i + 3 <= l.len() && #[trigger] l.subrange(i, i + 3) == seq!['r', 'u', '_']
    ||| exists|i: int| 0 <= i && i + 3 <= l.len() && #[trigger] l.subrange(i, i + 3) == seq!['r', 'u', '-']
}

fn has_ru_at(l: &Vec<char>, sep: char) -> (r: bool)
    ensures
        r == exists|i: int| 0 <= i && i + 3 <= l@.len() && #[trigger] l@.subrange(i, i + 3) == seq!['r', 'u', sep],
{
    let mut i: usize = 0;
    while l.len() >= 3 && i <= l.len() - 3
        invariant
            0 <= i,
            i <= l@.len(),
            forall|k: int| 0 <= k < i && k + 3 <= l@.len() ==> #[trigger] l@.subrange(k, k + 3) != seq!['r', 'u', sep],
        decreases l@.len() - i,
    {
        if l[i] == 'r' && l[i + 1] == 'u' && l[i + 2] == sep {
            assert(l@.subrange(i as int, i + 3) =~= seq!['r', 'u', sep]);
            return true;
        }
        assert(l@.subrange(i as int, i + 3)[0] == l@[i as int]);
        assert(l@.subrange(i as int, i + 3)[1] == l@[i + 1]);
        assert(l@.subrange(i as int, i + 3)[2] == l@[i + 2]);
        i += 1;
    }
    false
}

fn is_russian_str(s: &str) -> (r: bool)
    ensures
        r == is_russian(s@),
{
    let lower = to_lowercase(s);
    let l = chars_of(lower.as_str());
    if l.len() >= 2 && l[0] == 'r' && l[1] == 'u' {
        assert(l@.take(2) =~= seq!['r', 'u']);
        return true;
    }
    if l.len() >= 2 {
        assert(l@.take(2)[0] == l@[0] && l@.take(2)[1] == l@[1]);
    }
    has_ru_at(&l, '_') || has_ru_at(&l, '-')
}

pub open spec fn nonblank(s: Option<&str>) -> bool {
    s matches Some(v) && trim(v@).len() > 0
}

/// The interface language: an explicit setting wins; with `Auto` the system
/// locale decides when it is not blank, else the first non-blank of `LC_ALL`,
/// `LC_MESSAGES` and `LANG`; English when none is Russian or all are blank.
pub open spec fn spec_resolve_locale(
    config_lang: Language,
    sys_locale: Option<&str>,
    lc_all: Option<&str>,
    lc_messages: Option<&str>,
    lang: Option<&str>,
) -> Locale {
    match config_lang {
        Language::En => Locale::En,
        Language::Ru => Locale::Ru,
        Language::Auto => if nonblank(sys_locale) {
            if is_russian(trim(sys_locale->0@)) {
                Locale::Ru
            } else {
                Locale::En
            }
        } else {
            let env = if nonblank(lc_all) {
                lc_all
            } else if nonblank(lc_messages) {
                lc_messages
            } else if nonblank(lang) {
                lang
            } else {
                None
            };
            if env is Some && is_russian(trim(env->0@)) {
                Locale::Ru
            } else {
                Locale::En
            }
        },
    }
}

/// The trimmed text, when it is not blank.
fn trimmed_nonblank(s: Option<&str>) -> (r: Option<String>)
    ensures
        r is Some <==> nonblank(s),
        r matches Some(t) ==> t@ == trim(s->0@),
{
    match s {
        None => None,
        Some(v) => {
            let cs = chars_of(v);
            let (a, b) = trim_range(&cs, 0, cs.len());
            assert(cs@.subrange(0, cs@.len() as int) =~= cs@);
            if a == b {
                None
            } else {
                let mut t: Vec<char> = Vec::new();
                let mut i = a;
                while i < b
                    invariant
                        a <= i <= b <= cs@.len(),
                        t@ == cs@.subrange(a as int, i as int),
                    decreases b - i,
                {
                    t.push(cs[i]);
                    i += 1;
                    assert(t@ =~= cs@.subrange(a as int, i as int));
                }
                Some(string_from_chars(&t))
            }
        },
    }
}

pub fn resolve_locale_from_sources(
    config_lang: Language,
    sys_locale: Option<&str>,
    lc_all: Option<&str>,
    lc_messages: Option<&str>,
    lang: Option<&str>,
) -> (r: Locale)
    ensures
        r == spec_resolve_locale(config_lang, sys_locale, lc_all, lc_messages, lang),
{
    match config_lang {
        Language::En => Locale::En,
        Language::Ru => Locale::Ru,
        Language::Auto => {
            if let Some(sys) = trimmed_nonblank(sys_locale) {
                return if is_russian_str(sys.as_str()) {
                    Locale::Ru
                } else {
                    Locale::En
                };
            }
            let env = match trimmed_nonblank(lc_all) {
                Some(v) => Some(v),
                None => match trimmed_nonblank(lc_messages) {
                    Some(v) => Some(v),
                    None => trimmed_nonblank(lang),
                },
            };
            match env {
                Some(v) => if is_russian_str(v.as_str()) {
                    Locale::Ru
                } else {
                    Locale::En
                },
                None => Locale::En,
            }
        },
    }
}

/// An explicit language setting always wins over the system's locale.
pub proof fn lemma_explicit_language_wins(
    sys_locale: Option<&str>,
    lc_all: Option<&str>,
    lc_messages: Option<&str>,
    lang: Option<&str>,
)
    ensures
        spec_resolve_locale(Language::En, sys_locale, lc_all, lc_messages, lang) == Locale::En,
        spec_resolve_locale(Language::Ru, sys_locale, lc_all, lc_messages, lang) == Locale::Ru,
{
}

} // verus!
