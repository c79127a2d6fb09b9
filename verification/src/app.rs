//! The state of the dashboard and how keys and background results change it.
use vstd::prelude::*;
use crate::api::{
    EventItem, MiscResponse, RegionQueueData, aws_code_of, aws_code_for_name, api_name_of, api_name_for_code,
    all_regions, get_all_aws_regions, get_disabled_aws_regions, disabled_codes, spec_parse_time,
    parse_time_to_seconds,
};
use crate::config::{AppConfig, GameMode, Language, SortOrder, TimeFormat};
use crate::i18n::{Locale, TextKey, spec_tr, tr};
use crate::order::{KeyView, SortKey, key_view, key_views, stable_order, sort_positions, usize_seq_view};
use crate::ping::PingMap;
use crate::sets::StringSet;
use crate::text::{chars_of, str_eq, string_views};

verus! {

/// Maps a key typed on a Russian (ЙЦУКЕН) layout to the Latin key in the same
/// place, and any other character to its ASCII lower case.
pub open spec fn spec_normalize_key(c: char) -> char {
    if c == 'й' || c == 'Й' {
        'q'
    } else if c == 'ц' || c == 'Ц' {
        'w'
    } else if c == 'у' || c == 'У' {
        'e'
    } else if c == 'к' || c == 'К' {
        'r'
    } else if c == 'е' || c == 'Е' {
        't'
    } else if c == 'н' || c == 'Н' {
        'y'
    } else if c == 'г' || c == 'Г' {
        'u'
    } else if c == 'ш' || c == 'Ш' {
        'i'
    } else if c == 'щ' || c == 'Щ' {
        'o'
    } else if c == 'з' || c == 'З' {
        'p'
    } else if c == 'ф' || c == 'Ф' {
        'a'
    } else if c == 'ы' || c == 'Ы' {
        's'
    } else if c == 'в' || c == 'В' {
        'd'
    } else if c == 'а' || c == 'А' {
        'f'
    } else if c == 'п' || c == 'П' {
        'g'
    } else if c == 'р' || c == 'Р' {
        'h'
    } else if c == 'о' || c == 'О' {
        'j'
    } else if c == 'л' || c == 'Л' {
        'k'
    } else if c == 'д' || c == 'Д' {
        'l'
    } else if c == 'я' || c == 'Я' {
        'z'
    } else if c == 'ч' || c == 'Ч' {
        'x'
    } else if c == 'с' || c == 'С' {
        'c'
    } else if c == 'м' || c == 'М' {
        'v'
    } else if c == 'и' || c == 'И' {
        'b'
    } else if c == 'т' || c == 'Т' {
        'n'
    } else if c == 'ь' || c == 'Ь' {
        'm'
    } else if 'A' <= c <= 'Z' {
        ((c as u32) + 32) as char
    } else {
        c
    }
}

pub fn normalize_key_char(c: char) -> (r: char)
    ensures
        r == spec_normalize_key(c),
{
    match c {
        'й' | 'Й' => 'q',
        'ц' | 'Ц' => 'w',
        'у' | 'У' => 'e',
        'к' | 'К' => 'r',
        'е' | 'Е' => 't',
        'н' | 'Н' => 'y',
        'г' | 'Г' => 'u',
        'ш' | 'Ш' => 'i',
        'щ' | 'Щ' => 'o',
        'з' | 'З' => 'p',
        'ф' | 'Ф' => 'a',
        'ы' | 'Ы' => 's',
        'в' | 'В' => 'd',
        'а' | 'А' => 'f',
        'п' | 'П' => 'g',
        'р' | 'Р' => 'h',
        'о' | 'О' => 'j',
        'л' | 'Л' => 'k',
        'д' | 'Д' => 'l',
        'я' | 'Я' => 'z',
        'ч' | 'Ч' => 'x',
        'с' | 'С' => 'c',
        'м' | 'М' => 'v',
        'и' | 'И' => 'b',
        'т' | 'Т' => 'n',
        'ь' | 'Ь' => 'm',
        other => {
            if 'A' <= other && other <= 'Z' {
                ((other as u8) + 32) as char
            } else {
                other
            }
        },
    }
}

/// What the dashboard asks its surroundings to do after an input.
#[derive(Debug, PartialEq, Eq, Clone)]
pub enum AppAction {
    Nothing,
    Refresh,
    SaveConfig(AppConfig),
    ApplyLocks(Vec<String>),
}

#[derive(Debug, Clone, Copy, PartialEq, Eq, Structural)]
pub enum NoticeKind {
    Error,
    Info,
    Success,
}

/// A message in the footer; it disappears at `expires_at` (milliseconds of
/// the monotonic clock), or stays when there is none.
#[derive(Debug, Clone, PartialEq, Eq)]
pub struct Notice {
    pub message: String,
    pub kind: NoticeKind,
    pub expires_at: Option<u64>,
}

impl Notice {
    /// An error message, which stays until replaced.
    pub fn error(message: &str) -> (r: Notice)
        ensures
            r.message@ == message@,
            r.kind == NoticeKind::Error,
            r.expires_at is None,
    {
        Notice { message: String::from_str(message), kind: NoticeKind::Error, expires_at: None }
    }

    /// An informational message that expires `duration` milliseconds after `now`.
    pub fn info(message: &str, now: u64, duration: u64) -> (r: Notice)
        ensures
            r.message@ == message@,
            r.kind == NoticeKind::Info,
            r.expires_at == Some(sat_u64(now + duration)),
    {
        Notice {
            message: String::from_str(message),
            kind: NoticeKind::Info,
            expires_at: Some(now.saturating_add(duration)),
        }
    }

    /// A success message that expires `duration` milliseconds after `now`.
    pub fn success(message: &str, now: u64, duration: u64) -> (r: Notice)
        ensures
            r.message@ == message@,
            r.kind == NoticeKind::Success,
            r.expires_at == Some(sat_u64(now + duration)),
    {
        Notice {
            message: String::from_str(message),
            kind: NoticeKind::Success,
            expires_at: Some(now.saturating_add(duration)),
        }
    }
}

pub open spec fn sat_u64(n: int) -> u64 {
    if n > u64::MAX {
        u64::MAX
    } else {
        n as u64
    }
}

/// The number of frames of the "fetching" spinner.
pub const SPINNER_LEN: usize = 10;

/// How long a success or info notice stays, in milliseconds.
pub const NOTICE_MS: u64 = 3000;

/// How far above the best queue time a region still counts as "similar".
pub const NEAR_BEST_TOLERANCE_SECS: u32 = 10;

#[derive(Debug, Clone, Copy, PartialEq, Eq, Structural)]
pub enum Direction {
    Up,
    Down,
}

#[derive(Debug, Clone, Copy, PartialEq, Eq, Structural)]
pub enum Role {
    Killer,
    Survivor,
}

impl Role {
    pub open spec fn time_text(self, row: RegionQueueData) -> Seq<char> {
        match self {
            Role::Killer => row.killer@,
            Role::Survivor => row.survivor@,
        }
    }

    /// The queue time shown for this role.
    pub fn queue_time(self, row: &RegionQueueData) -> (r: &str)
        ensures
            r@ == self.time_text(*row),
    {
        match self {
            Role::Killer => row.killer.as_str(),
            Role::Survivor => row.survivor.as_str(),
        }
    }
}

/// The selected row of the table.
#[derive(Debug, Clone, Copy, PartialEq, Eq, Structural)]
pub struct TableState {
    pub selected: Option<usize>,
}

impl TableState {
    pub fn default() -> (r: TableState)
        ensures
            r.selected is None,
    {
        TableState { selected: None }
    }

    pub fn select(&mut self, index: Option<usize>)
        ensures
            final(self).selected == index,
    {
        self.selected = index;
    }

    pub fn selected(&self) -> (r: Option<usize>)
        ensures
            r == self.selected,
    {
        self.selected
    }
}

/// The outcome of applying region locks to the firewall.
#[derive(Debug, Clone, PartialEq, Eq)]
pub enum UpdateHostsResult {
    Updated,
    AlreadyUpToDate,
    ElevationFailed,
    Error(String),
}

/// The best region for a role, and how many other regions are about as fast.
#[derive(Debug, Clone, PartialEq, Eq)]
pub struct BestPick<'a> {
    pub row: &'a RegionQueueData,
    pub similar: usize,
}

/// The "Best Pick" panel: the best region per role and the lowest ping.
#[derive(Debug, Clone, PartialEq, Eq)]
pub struct Summary<'a> {
    pub killer: Option<BestPick<'a>>,
    pub survivor: Option<BestPick<'a>>,
    pub lowest_ping: Option<&'a RegionQueueData>,
}

/// A key the dashboard reacts to.
#[derive(Debug, Clone, Copy, PartialEq, Eq, Structural)]
pub enum Key {
    Char(char),
    Up,
    Down,
    Enter,
    Esc,
    /// Any other key, which does nothing.
    Other,
}

/// What a key does: `o` before, `f` after, `r` the action asked for.
pub open spec fn input_effect(o: App, key: Key, f: App, r: AppAction) -> bool {
    match key {
        Key::Char(c) => key_effect(o, c, f, r),
        Key::Up => f == up_effect(o) && r == AppAction::Nothing,
        Key::Down => f == down_effect(o) && r == AppAction::Nothing,
        Key::Enter => enter_effect(o, f, r),
        Key::Esc => f == esc_effect(o) && r == AppAction::Nothing,
        Key::Other => f == o && r == AppAction::Nothing,
    }
}

/// What a typed character does (see `App::handle_key`): `o` before, `f`
/// after, `r` the action asked for.
pub open spec fn key_effect(o: App, c: char, f: App, r: AppAction) -> bool {
    let k = spec_normalize_key(c);
    if o.show_lock_modal {
        &&& r == AppAction::Nothing
        &&& k == ' ' ==> toggled_selection(o, f)
        &&& k != ' ' ==> f == o
    } else if k == 's' {
        &&& f == (App { sort: next_sort(o.sort), ..o })
        &&& r matches AppAction::SaveConfig(cfg) && f.config_of(cfg)
    } else if k == 'l' {
        &&& opened_modal(o, f)
        &&& r == AppAction::Nothing
    } else if k == 'm' {
        &&& f == (App {
            mode: o.mode.toggled(),
            table_state: TableState {
                selected: clamped(o.table_state.selected, rows_in(o.queues@, o.mode.toggled(), o.sort, o.pings@).len()),
            },
            lock_modal_cursor: clamped_cursor(o.lock_modal_cursor, o.modal_regions().len()),
            ..o
        })
        &&& r matches AppAction::SaveConfig(cfg) && f.config_of(cfg)
    } else if k == 't' {
        &&& f.time_format == o.time_format.toggled()
        &&& rows_reformatted(o.queues@, f.queues@, f.time_format)
        &&& f == (App { time_format: f.time_format, queues: f.queues, ..o })
        &&& r matches AppAction::SaveConfig(cfg) && f.config_of(cfg)
    } else if k == 'r' && !o.is_fetching {
        &&& f == (App { is_fetching: true, notice: None, ..o })
        &&& r == AppAction::Refresh
    } else {
        &&& f == o
        &&& r == AppAction::Nothing
    }
}

/// The state after the up arrow: the lock-list cursor moves when the list is
/// open, else the table's selection.
pub open spec fn up_effect(o: App) -> App {
    if o.show_lock_modal {
        App { lock_modal_cursor: moved_cursor(o.lock_modal_cursor, o.modal_regions().len(), Direction::Up), ..o }
    } else {
        App { table_state: TableState { selected: moved(o.table_state.selected, o.display_rows().len(), Direction::Up) }, ..o }
    }
}

/// The state after the down arrow.
pub open spec fn down_effect(o: App) -> App {
    if o.show_lock_modal {
        App { lock_modal_cursor: moved_cursor(o.lock_modal_cursor, o.modal_regions().len(), Direction::Down), ..o }
    } else {
        App { table_state: TableState { selected: moved(o.table_state.selected, o.display_rows().len(), Direction::Down) }, ..o }
    }
}

/// The state after Escape: the lock list closes when it is open, else the
/// dashboard quits.
pub open spec fn esc_effect(o: App) -> App {
    if o.show_lock_modal {
        App { show_lock_modal: false, ..o }
    } else {
        App { should_quit: true, ..o }
    }
}

/// What Enter does: it applies the lock list when it is open (asking for the
/// selected regions to be locked), and nothing otherwise.
pub open spec fn enter_effect(o: App, f: App, r: AppAction) -> bool {
    if o.show_lock_modal {
        f == (App { show_lock_modal: false, ..o }) && (r matches AppAction::ApplyLocks(v) && v@ == o.lock_modal_selected@)
    } else {
        f == o && r == AppAction::Nothing
    }
}

/// The dashboard.
pub struct App {
    pub queues: Vec<RegionQueueData>,
    pub api_last_updated: i64,
    pub pings: PingMap,
    pub sort: SortOrder,
    pub mode: GameMode,
    pub time_format: TimeFormat,
    pub locked: StringSet,
    pub notice: Option<Notice>,
    pub should_quit: bool,
    pub is_fetching: bool,
    pub table_state: TableState,
    pub show_lock_modal: bool,
    pub lock_modal_selected: Vec<String>,
    pub lock_modal_cursor: usize,
    pub spinner_frame: usize,
    pub locale: Locale,
    pub lang: Language,
    pub api_url: Option<String>,
    pub current_event: Option<EventItem>,
    pub upcoming_event: Option<EventItem>,
}

pub open spec fn deref_rows(rows: Seq<&RegionQueueData>) -> Seq<RegionQueueData> {
    rows.map_values(|r: &RegionQueueData| *r)
}

/// The positions `0..n` of the rows that `keep` accepts, in order.
pub open spec fn kept_prefix(rows: Seq<RegionQueueData>, keep: spec_fn(RegionQueueData) -> bool, n: nat) -> Seq<int>
    decreases n,
{
    if n == 0 {
        Seq::empty()
    } else {
        let r = kept_prefix(rows, keep, (n - 1) as nat);
        if keep(rows[n - 1]) {
            r.push(n - 1)
        } else {
            r
        }
    }
}

/// Whether the table shows a row in `mode`.
pub open spec fn shows_in(mode: GameMode, r: RegionQueueData) -> bool {
    match mode {
        GameMode::Standard => r.mode@ == "Standard"@,
        GameMode::Event => r.mode@ == "Event"@,
    }
}

/// The ping that the Ping sort uses for a region name: the measured value,
/// or `u32::MAX` when there is none.
pub open spec fn ping_rank_in(pings: Map<Seq<char>, u32>, name: Seq<char>) -> u64 {
    let code = match aws_code_of(name) {
        Some(c) => c@,
        None => ""@,
    };
    if pings.dom().contains(code) {
        pings[code] as u64
    } else {
        u32::MAX as u64
    }
}

/// The sort key of a row: disabled rows last, then the sort's column,
/// then the region name.
pub open spec fn row_key_in(sort: SortOrder, pings: Map<Seq<char>, u32>, r: RegionQueueData) -> KeyView {
    (
        if r.disabled() {
            1
        } else {
            0
        },
        match sort {
            SortOrder::Survivor => spec_parse_time(r.survivor@) as u64,
            SortOrder::Killer => spec_parse_time(r.killer@) as u64,
            SortOrder::Ping => ping_rank_in(pings, r.name@),
            SortOrder::Default => 0,
        },
        r.name@,
    )
}

/// Positions of the rows shown in `mode`, in stored order.
pub open spec fn shown_indices_in(queues: Seq<RegionQueueData>, mode: GameMode) -> Seq<int> {
    kept_prefix(queues, |r: RegionQueueData| shows_in(mode, r), queues.len())
}

pub open spec fn shown_keys_in(
    queues: Seq<RegionQueueData>,
    mode: GameMode,
    sort: SortOrder,
    pings: Map<Seq<char>, u32>,
) -> Seq<KeyView> {
    shown_indices_in(queues, mode).map_values(|i: int| row_key_in(sort, pings, queues[i]))
}

/// The rows of the table: those of `mode`, stably sorted by key.
pub open spec fn rows_in(
    queues: Seq<RegionQueueData>,
    mode: GameMode,
    sort: SortOrder,
    pings: Map<Seq<char>, u32>,
) -> Seq<RegionQueueData> {
    stable_order(shown_keys_in(queues, mode, sort, pings)).map_values(
        |p: int| queues[shown_indices_in(queues, mode)[p]],
    )
}

/// The ping shown for an AWS code in the lock list, `u32::MAX` when unmeasured.
pub open spec fn code_rank_in(pings: Map<Seq<char>, u32>, code: Seq<char>) -> u64 {
    if pings.dom().contains(code) {
        pings[code] as u64
    } else {
        u32::MAX as u64
    }
}

/// The lock list orders regions by ping, then by name.
pub open spec fn modal_key_in(pings: Map<Seq<char>, u32>, code: Seq<char>) -> KeyView {
    (code_rank_in(pings, code), 0, modal_name(code))
}

pub open spec fn modal_kept_in(queues: Seq<RegionQueueData>) -> Seq<int> {
    kept_regions(disabled_codes(queues), all_regions().len())
}

pub open spec fn modal_keys_in(queues: Seq<RegionQueueData>, pings: Map<Seq<char>, u32>) -> Seq<KeyView> {
    modal_kept_in(queues).map_values(|i: int| modal_key_in(pings, all_regions()[i]@))
}

/// The regions of the lock list: every region whose Standard queue is not
/// disabled, sorted by ping and then name.
pub open spec fn modal_regions_in(queues: Seq<RegionQueueData>, pings: Map<Seq<char>, u32>) -> Seq<&'static str> {
    stable_order(modal_keys_in(queues, pings)).map_values(|p: int| all_regions()[modal_kept_in(queues)[p]])
}

impl App {
    pub open spec fn shows(self, r: RegionQueueData) -> bool {
        shows_in(self.mode, r)
    }

    pub open spec fn shown_indices(self) -> Seq<int> {
        shown_indices_in(self.queues@, self.mode)
    }

    pub open spec fn ping_rank(self, name: Seq<char>) -> u64 {
        ping_rank_in(self.pings@, name)
    }

    pub open spec fn row_key(self, r: RegionQueueData) -> KeyView {
        row_key_in(self.sort, self.pings@, r)
    }

    pub open spec fn shown_keys(self) -> Seq<KeyView> {
        shown_keys_in(self.queues@, self.mode, self.sort, self.pings@)
    }

    /// The rows of the table in display order.
    pub open spec fn display_rows(self) -> Seq<RegionQueueData> {
        rows_in(self.queues@, self.mode, self.sort, self.pings@)
    }

    fn shows_row(&self, r: &RegionQueueData) -> (b: bool)
        ensures
            b == self.shows(*r),
    {
        match self.mode {
            GameMode::Standard => str_eq(r.mode.as_str(), "Standard"),
            GameMode::Event => str_eq(r.mode.as_str(), "Event"),
        }
    }

    fn ping_rank_of(&self, name: &str) -> (r: u64)
        ensures
            r == self.ping_rank(name@),
    {
        let code = match aws_code_for_name(name) {
            Some(c) => c,
            None => "",
        };
        match self.pings.get(code) {
            Some(ms) => ms as u64,
            None => u32::MAX as u64,
        }
    }

    fn key_of(&self, r: &RegionQueueData) -> (k: SortKey)
        ensures
            key_view(k) == self.row_key(*r),
    {
        let rank: u64 = if r.is_disabled() {
            1
        } else {
            0
        };
        let secondary: u64 = match self.sort {
            SortOrder::Survivor => parse_time_to_seconds(r.survivor.as_str()) as u64,
            SortOrder::Killer => parse_time_to_seconds(r.killer.as_str()) as u64,
            SortOrder::Ping => self.ping_rank_of(r.name.as_str()),
            SortOrder::Default => 0,
        };
        SortKey { rank, secondary, name: chars_of(r.name.as_str()) }
    }

    /// The rows of the table in display order.
    pub fn get_filtered_sorted_rows(&self) -> (rows: Vec<&RegionQueueData>)
        ensures
            deref_rows(rows@) == self.display_rows(),
    {
        let ghost keep = |r: RegionQueueData| shows_in(self.mode, r);
        let mut idx: Vec<usize> = Vec::new();
        let mut keys: Vec<SortKey> = Vec::new();
        let mut i: usize = 0;
        while i < self.queues.len()
            invariant
                0 <= i <= self.queues@.len(),
                keep == (|r: RegionQueueData| shows_in(self.mode, r)),
                usize_seq_view(idx@) == kept_prefix(self.queues@, keep, i as nat),
                key_views(keys@) == usize_seq_view(idx@).map_values(
                    |j: int| self.row_key(self.queues@[j]),
                ),
                forall|k: int| 0 <= k < idx@.len() ==> idx@[k] < i,
            decreases self.queues@.len() - i,
        {
            let ghost before_idx = usize_seq_view(idx@);
            let ghost before_keys = key_views(keys@);
            let ghost old_keys = keys@;
            let ghost old_idx = idx@;
            let r = &self.queues[i];
            if self.shows_row(r) {
                idx.push(i);
                let kr = self.key_of(r);
                let ghost kv = key_view(kr);
                keys.push(kr);
                assert(usize_seq_view(idx@) =~= before_idx.push(i as int));
                assert(key_views(keys@) =~= before_keys.push(kv));
                assert(before_idx.push(i as int).map_values(|j: int| self.row_key(self.queues@[j]))
                    =~= before_idx.map_values(|j: int| self.row_key(self.queues@[j])).push(
                    self.row_key(self.queues@[i as int]),
                ));
            }
            i += 1;
        }
        let order = sort_positions(&keys);
        let ghost ord = usize_seq_view(order@);
        let ghost shown = self.shown_indices();
        assert(shown == usize_seq_view(idx@));
        assert(key_views(keys@) =~= self.shown_keys());
        let mut rows: Vec<&RegionQueueData> = Vec::new();
        let mut k: usize = 0;
        while k < order.len()
            invariant
                0 <= k <= order@.len(),
                order@.len() == keys@.len(),
                keys@.len() == idx@.len(),
                ord == usize_seq_view(order@),
                ord == stable_order(self.shown_keys()),
                shown == usize_seq_view(idx@),
                shown == self.shown_indices(),
                forall|q: int| 0 <= q < order@.len() ==> order@[q] < keys@.len(),
                forall|q: int| 0 <= q < idx@.len() ==> idx@[q] < self.queues@.len(),
                deref_rows(rows@) == ord.take(k as int).map_values(
                    |p: int| self.queues@[shown[p]],
                ),
            decreases order@.len() - k,
        {
            let ghost before = deref_rows(rows@);
            let p = order[k];
            let qi = idx[p];
            rows.push(&self.queues[qi]);
            assert(ord[k as int] == p as int);
            assert(shown[p as int] == qi as int);
            assert(deref_rows(rows@) =~= before.push(self.queues@[qi as int]));
            assert(ord.take(k + 1) =~= ord.take(k as int).push(p as int));
            assert(ord.take(k as int).push(p as int).map_values(|p: int| self.queues@[shown[p]])
                =~= ord.take(k as int).map_values(|p: int| self.queues@[shown[p]]).push(
                self.queues@[shown[p as int]],
            ));
            k += 1;
        }
        assert(ord.take(order@.len() as int) =~= ord);
        rows
    }

    pub open spec fn modal_key(self, code: Seq<char>) -> KeyView {
        modal_key_in(self.pings@, code)
    }

    pub open spec fn modal_kept(self) -> Seq<int> {
        modal_kept_in(self.queues@)
    }

    pub open spec fn modal_keys(self) -> Seq<KeyView> {
        modal_keys_in(self.queues@, self.pings@)
    }

    /// The regions of the lock list in order.
    pub open spec fn modal_regions(self) -> Seq<&'static str> {
        modal_regions_in(self.queues@, self.pings@)
    }

    /// The regions of the lock list, in order.
    pub fn get_modal_regions(&self) -> (r: Vec<&'static str>)
        ensures
            r@ == self.modal_regions(),
    {
        let disabled = get_disabled_aws_regions(self.queues.as_slice());
        let all = get_all_aws_regions();
        let ghost d = disabled_codes(self.queues@);
        let mut kept: Vec<usize> = Vec::new();
        let mut keys: Vec<SortKey> = Vec::new();
        let mut i: usize = 0;
        while i < all.len()
            invariant
                0 <= i <= all@.len(),
                all@ == all_regions(),
                disabled@ == d,
                d == disabled_codes(self.queues@),
                usize_seq_view(kept@) == kept_regions(d, i as nat),
                key_views(keys@) == usize_seq_view(kept@).map_values(
                    |j: int| self.modal_key(all_regions()[j]@),
                ),
                forall|k: int| 0 <= k < kept@.len() ==> kept@[k] < i,
            decreases all@.len() - i,
        {
            let ghost before_kept = usize_seq_view(kept@);
            let ghost before_keys = key_views(keys@);
            let code = all[i];
            if !disabled.contains(code) {
                kept.push(i);
                let rank: u64 = match self.pings.get(code) {
                    Some(ms) => ms as u64,
                    None => u32::MAX as u64,
                };
                let name = match api_name_for_code(code) {
                    Some(n) => n,
                    None => code,
                };
                let k = SortKey { rank, secondary: 0, name: chars_of(name) };
                let ghost kv = key_view(k);
                keys.push(k);
                assert(usize_seq_view(kept@) =~= before_kept.push(i as int));
                assert(key_views(keys@) =~= before_keys.push(kv));
                assert(before_kept.push(i as int).map_values(
                    |j: int| self.modal_key(all_regions()[j]@),
                ) =~= before_kept.map_values(|j: int| self.modal_key(all_regions()[j]@)).push(
                    self.modal_key(all_regions()[i as int]@),
                ));
            }
            i += 1;
        }
        let order = sort_positions(&keys);
        let ghost ord = usize_seq_view(order@);
        assert(key_views(keys@) =~= self.modal_keys());
        let mut out: Vec<&'static str> = Vec::new();
        let mut k: usize = 0;
        while k < order.len()
            invariant
                0 <= k <= order@.len(),
                order@.len() == keys@.len(),
                keys@.len() == kept@.len(),
                all@ == all_regions(),
                ord == usize_seq_view(order@),
                ord == stable_order(self.modal_keys()),
                usize_seq_view(kept@) == self.modal_kept(),
                forall|q: int| 0 <= q < order@.len() ==> order@[q] < keys@.len(),
                forall|q: int| 0 <= q < kept@.len() ==> kept@[q] < all@.len(),
                out@ == ord.take(k as int).map_values(
                    |p: int| all_regions()[self.modal_kept()[p]],
                ),
            decreases order@.len() - k,
        {
            let p = order[k];
            let ri = kept[p];
            let ghost before = out@;
            out.push(all[ri]);
            assert(ord[k as int] == p as int);
            assert(self.modal_kept()[p as int] == ri as int);
            assert(ord.take(k + 1) =~= ord.take(k as int).push(p as int));
            assert(ord.take(k as int).push(p as int).map_values(
                |p: int| all_regions()[self.modal_kept()[p]],
            ) =~= ord.take(k as int).map_values(|p: int| all_regions()[self.modal_kept()[p]]).push(
                all_regions()[self.modal_kept()[p as int]],
            ));
            k += 1;
        }
        assert(ord.take(order@.len() as int) =~= ord);
        out
    }
}

/// The selection after one step `dir` in a list of `total` rows, wrapping
/// around at either end; with no selection the first row is selected.
pub open spec fn moved(sel: Option<usize>, total: nat, dir: Direction) -> Option<usize> {
    if total == 0 {
        None
    } else {
        match sel {
            Some(i) => match dir {
                Direction::Down => if i >= total - 1 {
                    Some(0)
                } else {
                    Some((i + 1) as usize)
                },
                Direction::Up => if i == 0 {
                    Some((total - 1) as usize)
                } else {
                    Some((i - 1) as usize)
                },
            },
            None => Some(0),
        }
    }
}

/// The cursor after one step `dir` in a list of `total` entries, wrapping.
pub open spec fn moved_cursor(cur: usize, total: nat, dir: Direction) -> usize {
    if total == 0 {
        0
    } else {
        match dir {
            Direction::Up => if cur == 0 {
                (total - 1) as usize
            } else {
                (cur - 1) as usize
            },
            Direction::Down => if cur >= total - 1 {
                0
            } else {
                (cur + 1) as usize
            },
        }
    }
}

/// A selection kept inside a list of `total` rows.
pub open spec fn clamped(sel: Option<usize>, total: nat) -> Option<usize> {
    if total == 0 {
        None
    } else {
        match sel {
            Some(s) => if s >= total {
                Some((total - 1) as usize)
            } else {
                Some(s)
            },
            None => None,
        }
    }
}

pub open spec fn clamped_cursor(cur: usize, total: nat) -> usize {
    if total == 0 {
        0
    } else if cur >= total {
        (total - 1) as usize
    } else {
        cur
    }
}

/// The sort order after pressing the sort key.
pub open spec fn next_sort(s: SortOrder) -> SortOrder {
    match s {
        SortOrder::Default => SortOrder::Killer,
        SortOrder::Killer => SortOrder::Survivor,
        SortOrder::Survivor => SortOrder::Ping,
        SortOrder::Ping => SortOrder::Killer,
    }
}

/// Position of the first entry equal to `x`.
pub open spec fn position_of(s: Seq<Seq<char>>, x: Seq<char>) -> Option<int>
    decreases s.len(),
{
    if s.len() == 0 {
        None
    } else if s[0] == x {
        Some(0)
    } else {
        match position_of(s.drop_first(), x) {
            Some(k) => Some(k + 1),
            None => None,
        }
    }
}

/// The lock selection after toggling `x`: removed if present, else appended.
pub open spec fn toggled_in(s: Seq<Seq<char>>, x: Seq<char>) -> Seq<Seq<char>> {
    match position_of(s, x) {
        Some(p) => s.remove(p),
        None => s.push(x),
    }
}

pub(crate) fn find_position(v: &Vec<String>, x: &str) -> (r: Option<usize>)
    ensures
        r matches Some(i) ==> position_of(string_views(v@), x@) == Some(i as int) && i < v@.len(),
        r is None ==> position_of(string_views(v@), x@) is None,
{
    let ghost s = string_views(v@);
    let mut i: usize = 0;
    assert(s.skip(0) =~= s);
    while i < v.len()
        invariant
            0 <= i <= v@.len(),
            s == string_views(v@),
            position_of(s, x@) == (match position_of(s.skip(i as int), x@) {
                Some(k) => Some(k + i),
                None => None::<int>,
            }),
        decreases v@.len() - i,
    {
        assert(s.skip(i as int).drop_first() =~= s.skip(i + 1));
        assert(s.skip(i as int)[0] == v@[i as int]@);
        if str_eq(v[i].as_str(), x) {
            return Some(i);
        }
        i += 1;
    }
    None
}

fn clone_strings(v: &Vec<String>) -> (r: Vec<String>)
    ensures
        r@ == v@,
{
    let mut out: Vec<String> = Vec::new();
    let mut i: usize = 0;
    while i < v.len()
        invariant
            0 <= i <= v@.len(),
            out@ == v@.take(i as int),
        decreases v@.len() - i,
    {
        out.push(v[i].clone());
        assert(out@ =~= v@.take(i + 1));
        i += 1;
    }
    assert(v@.take(v@.len() as int) =~= v@);
    out
}

fn clone_opt_string(o: &Option<String>) -> (r: Option<String>)
    ensures
        r == *o,
{
    match o {
        Some(s) => Some(s.clone()),
        None => None,
    }
}

/// Whether every row can be shown in `format`.
pub open spec fn all_reformattable(rows: Seq<RegionQueueData>, format: TimeFormat) -> bool {
    forall|i: int| 0 <= i < rows.len() ==> (#[trigger] rows[i]).reformattable(format)
}

/// What `reformat` makes of a row.
pub open spec fn reformatted(r: RegionQueueData, format: TimeFormat) -> RegionQueueData {
    let s = match r.survivor_secs {
        Some(x) => Some(x),
        None => crate::api::secs_of_text(r.survivor@),
    };
    let k = match r.killer_secs {
        Some(x) => Some(x),
        None => crate::api::secs_of_text(r.killer@),
    };
    RegionQueueData { survivor_secs: s, killer_secs: k, ..r }
}

/// Row `n` is row `o` with its times shown in `format`: the seconds known
/// before, or read from the texts, and the texts written from them.
pub open spec fn row_reformatted(o: RegionQueueData, n: RegionQueueData, format: TimeFormat) -> bool {
    let e = reformatted(o, format);
    &&& n.flag == e.flag
    &&& n.name == e.name
    &&& n.mode == e.mode
    &&& n.survivor_secs == e.survivor_secs
    &&& n.killer_secs == e.killer_secs
    &&& n.survivor@ == crate::api::spec_format_seconds_opt(n.survivor_secs, format)
    &&& n.killer@ == crate::api::spec_format_seconds_opt(n.killer_secs, format)
}

/// The rows with their times shown in `format`: the texts are then the
/// formatted seconds.
pub open spec fn rows_reformatted(
    old_rows: Seq<RegionQueueData>,
    new_rows: Seq<RegionQueueData>,
    format: TimeFormat,
) -> bool {
    &&& new_rows.len() == old_rows.len()
    &&& forall|i: int|
        0 <= i < new_rows.len() ==> {
            let o = reformatted(old_rows[i], format);
            let n = #[trigger] new_rows[i];
            &&& n.flag == o.flag
            &&& n.name == o.name
            &&& n.mode == o.mode
            &&& n.survivor_secs == o.survivor_secs
            &&& n.killer_secs == o.killer_secs
            &&& n.survivor@ == crate::api::spec_format_seconds_opt(n.survivor_secs, format)
            &&& n.killer@ == crate::api::spec_format_seconds_opt(n.killer_secs, format)
        }
}

/// Shows every row's times in `format`.
pub fn reformat_rows(rows: &mut Vec<RegionQueueData>, format: TimeFormat)
    requires
        all_reformattable(old(rows)@, format),
    ensures
        rows_reformatted(old(rows)@, final(rows)@, format),
{
    let ghost start = rows@;
    let mut i: usize = 0;
    while i < rows.len()
        invariant
            0 <= i <= rows@.len(),
            rows@.len() == start.len(),
            all_reformattable(start, format),
            forall|j: int| i <= j < rows@.len() ==> rows@[j] == start[j],
            forall|j: int|
                0 <= j < i ==> {
                    let o = reformatted(start[j], format);
                    let n = #[trigger] rows@[j];
                    &&& n.flag == o.flag
                    &&& n.name == o.name
                    &&& n.mode == o.mode
                    &&& n.survivor_secs == o.survivor_secs
                    &&& n.killer_secs == o.killer_secs
                    &&& n.survivor@ == crate::api::spec_format_seconds_opt(n.survivor_secs, format)
                    &&& n.killer@ == crate::api::spec_format_seconds_opt(n.killer_secs, format)
                },
        decreases rows@.len() - i,
    {
        let mut row = rows.remove(i);
        assert(row == start[i as int]);
        assert(start[i as int].reformattable(format));
        row.reformat(format);
        rows.insert(i, row);
        i += 1;
    }
}

impl App {
    /// A dashboard with no data yet, fetching. An explicit language sets the
    /// locale; `Auto` gives English here, and the caller may set `locale` from
    /// the system.
    pub fn new(
        sort: SortOrder,
        mode: GameMode,
        time_format: TimeFormat,
        locked: Vec<String>,
        lang: Language,
        api_url: Option<String>,
    ) -> (r: App)
        ensures
            r.queues@.len() == 0,
            r.api_last_updated == 0,
            r.pings@ == Map::<Seq<char>, u32>::empty(),
            r.sort == sort,
            r.mode == mode,
            r.time_format == time_format,
            r.locked@ == string_views(locked@).to_set(),
            r.notice is None,
            !r.should_quit,
            r.is_fetching,
            r.table_state.selected is None,
            !r.show_lock_modal,
            r.lock_modal_selected@.len() == 0,
            r.lock_modal_cursor == 0,
            r.spinner_frame == 0,
            r.locale == crate::i18n::spec_resolve_locale(lang, None, None, None, None),
            r.lang == lang,
            r.api_url == api_url,
            r.current_event is None,
            r.upcoming_event is None,
    {
        let locale = crate::i18n::resolve_locale_from_sources(lang, None, None, None, None);
        App {
            queues: Vec::new(),
            api_last_updated: 0,
            pings: PingMap::new(),
            sort,
            mode,
            time_format,
            locked: StringSet::from_vec(locked),
            notice: None,
            should_quit: false,
            is_fetching: true,
            table_state: TableState::default(),
            show_lock_modal: false,
            lock_modal_selected: Vec::new(),
            lock_modal_cursor: 0,
            spinner_frame: 0,
            locale,
            lang,
            api_url,
            current_event: None,
            upcoming_event: None,
        }
    }

    /// The settings to save: the locked regions sorted, each once.
    pub open spec fn config_of(self, c: AppConfig) -> bool {
        &&& c.priority@.len() == 0
        &&& crate::text::strictly_sorted(string_views(c.locked@))
        &&& string_views(c.locked@).to_set() == self.locked@
        &&& c.sort == self.sort
        &&& c.mode == self.mode
        &&& c.time_format == self.time_format
        &&& c.lang == self.lang
        &&& c.api_url == self.api_url
    }

    pub fn to_config(&self) -> (r: AppConfig)
        ensures
            self.config_of(r),
    {
        AppConfig {
            priority: Vec::new(),
            locked: self.locked.to_sorted_vec(),
            sort: self.sort,
            mode: self.mode,
            time_format: self.time_format,
            lang: self.lang,
            api_url: clone_opt_string(&self.api_url),
        }
    }

    /// Moves the table selection one row, wrapping around.
    pub fn move_selection(&mut self, direction: Direction)
        ensures
            *final(self) == (App {
                table_state: TableState {
                    selected: moved(old(self).table_state.selected, old(self).display_rows().len(), direction),
                },
                ..*old(self)
            }),
    {
        let total = self.get_filtered_sorted_rows().len();
        proof {
            assert(self.display_rows().len() == total);
        }
        if total == 0 {
            self.table_state.select(None);
            return;
        }
        let i = match self.table_state.selected() {
            Some(i) => match direction {
                Direction::Down => {
                    if i >= total - 1 {
                        0
                    } else {
                        i + 1
                    }
                },
                Direction::Up => {
                    if i == 0 {
                        total - 1
                    } else {
                        i - 1
                    }
                },
            },
            None => 0,
        };
        self.table_state.select(Some(i));
    }

    pub fn next(&mut self)
        ensures
            *final(self) == (App {
                table_state: TableState {
                    selected: moved(old(self).table_state.selected, old(self).display_rows().len(), Direction::Down),
                },
                ..*old(self)
            }),
    {
        self.move_selection(Direction::Down);
    }

    pub fn previous(&mut self)
        ensures
            *final(self) == (App {
                table_state: TableState {
                    selected: moved(old(self).table_state.selected, old(self).display_rows().len(), Direction::Up),
                },
                ..*old(self)
            }),
    {
        self.move_selection(Direction::Up);
    }

    /// Keeps the table selection and the lock-list cursor inside their lists.
    pub fn clamp_selection(&mut self)
        ensures
            *final(self) == (App {
                table_state: TableState {
                    selected: clamped(old(self).table_state.selected, old(self).display_rows().len()),
                },
                lock_modal_cursor: clamped_cursor(old(self).lock_modal_cursor, old(self).modal_regions().len()),
                ..*old(self)
            }),
    {
        let total = self.get_filtered_sorted_rows().len();
        let modal_total = self.get_modal_regions().len();
        if total == 0 {
            self.table_state.select(None);
        } else if let Some(sel) = self.table_state.selected() {
            if sel >= total {
                self.table_state.select(Some(total - 1));
            }
        }
        if modal_total == 0 {
            self.lock_modal_cursor = 0;
        } else if self.lock_modal_cursor >= modal_total {
            self.lock_modal_cursor = modal_total - 1;
        }
    }

    /// Opens the lock list with the locked regions ticked.
    pub fn open_lock_modal(&mut self)
        ensures
            final(self).show_lock_modal,
            crate::text::strictly_sorted(string_views(final(self).lock_modal_selected@)),
            string_views(final(self).lock_modal_selected@).to_set() == old(self).locked@,
            final(self).lock_modal_cursor == 0,
            final(self).table_state.selected == clamped(old(self).table_state.selected, old(self).display_rows().len()),
            *final(self) == (App {
                show_lock_modal: true,
                lock_modal_selected: final(self).lock_modal_selected,
                lock_modal_cursor: 0,
                table_state: final(self).table_state,
                ..*old(self)
            }),
    {
        self.show_lock_modal = true;
        self.lock_modal_selected = self.locked.to_sorted_vec();
        self.lock_modal_cursor = 0;
        self.clamp_selection();
    }

    /// Moves the lock-list cursor one entry, wrapping around.
    pub fn move_modal_cursor(&mut self, direction: Direction)
        ensures
            *final(self) == (App {
                lock_modal_cursor: moved_cursor(old(self).lock_modal_cursor, old(self).modal_regions().len(), direction),
                ..*old(self)
            }),
    {
        let n = self.get_modal_regions().len();
        if n == 0 {
            self.lock_modal_cursor = 0;
            return;
        }
        match direction {
            Direction::Up => {
                if self.lock_modal_cursor == 0 {
                    self.lock_modal_cursor = n - 1;
                } else {
                    self.lock_modal_cursor = self.lock_modal_cursor - 1;
                }
            },
            Direction::Down => {
                if self.lock_modal_cursor >= n - 1 {
                    self.lock_modal_cursor = 0;
                } else {
                    self.lock_modal_cursor = self.lock_modal_cursor + 1;
                }
            },
        }
    }

    pub fn lock_modal_up(&mut self)
        ensures
            *final(self) == (App {
                lock_modal_cursor: moved_cursor(old(self).lock_modal_cursor, old(self).modal_regions().len(), Direction::Up),
                ..*old(self)
            }),
    {
        self.move_modal_cursor(Direction::Up);
    }

    pub fn lock_modal_down(&mut self)
        ensures
            *final(self) == (App {
                lock_modal_cursor: moved_cursor(old(self).lock_modal_cursor, old(self).modal_regions().len(), Direction::Down),
                ..*old(self)
            }),
    {
        self.move_modal_cursor(Direction::Down);
    }

    /// Ticks or unticks the region under the cursor.
    pub fn lock_modal_toggle(&mut self)
        ensures
            old(self).lock_modal_cursor < old(self).modal_regions().len() ==> string_views(final(self).lock_modal_selected@)
                == toggled_in(string_views(old(self).lock_modal_selected@), old(self).modal_regions()[old(self).lock_modal_cursor as int]@),
            old(self).lock_modal_cursor >= old(self).modal_regions().len() ==> final(self).lock_modal_selected == old(self).lock_modal_selected,
            *final(self) == (App { lock_modal_selected: final(self).lock_modal_selected, ..*old(self) }),
    {
        let regions = self.get_modal_regions();
        if self.lock_modal_cursor < regions.len() {
            let code = regions[self.lock_modal_cursor];
            assert(code@ == old(self).modal_regions()[old(self).lock_modal_cursor as int]@);
            let ghost before = string_views(self.lock_modal_selected@);
            match find_position(&self.lock_modal_selected, code) {
                Some(pos) => {
                    self.lock_modal_selected.remove(pos);
                    assert(string_views(self.lock_modal_selected@) =~= before.remove(pos as int));
                    assert(toggled_in(before, code@) == before.remove(pos as int));
                },
                None => {
                    self.lock_modal_selected.push(String::from_str(code));
                    assert(string_views(self.lock_modal_selected@) =~= before.push(code@));
                },
            }
        }
    }

    /// Closes the lock list and asks for the ticked regions to be locked; the
    /// locked set itself changes only once the firewall reports back.
    pub fn apply_lock_modal(&mut self) -> (r: AppAction)
        ensures
            *final(self) == (App { show_lock_modal: false, ..*old(self) }),
            r matches AppAction::ApplyLocks(v) && v@ == old(self).lock_modal_selected@,
    {
        self.show_lock_modal = false;
        AppAction::ApplyLocks(clone_strings(&self.lock_modal_selected))
    }

    pub fn cancel_lock_modal(&mut self)
        ensures
            *final(self) == (App { show_lock_modal: false, ..*old(self) }),
    {
        self.show_lock_modal = false;
    }

    /// Killer, then Survivor, then Ping, then Killer again.
    pub fn cycle_sort(&mut self)
        ensures
            *final(self) == (App { sort: next_sort(old(self).sort), ..*old(self) }),
    {
        self.sort = match self.sort {
            SortOrder::Default => SortOrder::Killer,
            SortOrder::Killer => SortOrder::Survivor,
            SortOrder::Survivor => SortOrder::Ping,
            SortOrder::Ping => SortOrder::Killer,
        };
    }

    /// Switches between exact and rounded times and shows every row anew.
    pub fn toggle_time_format(&mut self)
        requires
            all_reformattable(old(self).queues@, old(self).time_format.toggled()),
        ensures
            final(self).time_format == old(self).time_format.toggled(),
            rows_reformatted(old(self).queues@, final(self).queues@, final(self).time_format),
            *final(self) == (App {
                time_format: old(self).time_format.toggled(),
                queues: final(self).queues,
                ..*old(self)
            }),
    {
        self.time_format = self.time_format.toggle();
        let fmt = self.time_format;
        reformat_rows(&mut self.queues, fmt);
    }

    /// Advances the spinner and drops a notice whose time is up.
    pub fn on_tick(&mut self, now: u64)
        requires
            old(self).spinner_frame < usize::MAX,
        ensures
            final(self).spinner_frame == (old(self).spinner_frame + 1) % (SPINNER_LEN as int),
            final(self).notice == (match old(self).notice {
                Some(n) => match n.expires_at {
                    Some(t) => if now >= t {
                        None
                    } else {
                        Some(n)
                    },
                    None => Some(n),
                },
                None => None,
            }),
            *final(self) == (App { spinner_frame: final(self).spinner_frame, notice: final(self).notice, ..*old(self) }),
    {
        self.spinner_frame = (self.spinner_frame + 1) % SPINNER_LEN;
        let expired = match &self.notice {
            Some(n) => match n.expires_at {
                Some(t) => now >= t,
                None => false,
            },
            None => false,
        };
        if expired {
            self.notice = None;
        }
    }

    /// Handles a typed character. In the lock list only the space bar counts
    /// (it ticks the region under the cursor); elsewhere `s` cycles the sort,
    /// `l` opens the lock list, `m` switches the mode, `t` the time format
    /// and `r` asks for a refresh unless one is running. Keys on a Russian
    /// layout count as the Latin key in the same place.
    pub fn handle_key(&mut self, c: char) -> (r: AppAction)
        requires
            spec_normalize_key(c) == 't' && !old(self).show_lock_modal ==> all_reformattable(
                old(self).queues@,
                old(self).time_format.toggled(),
            ),
        ensures
            key_effect(*old(self), c, *final(self), r),
    {
        let norm = normalize_key_char(c);
        if self.show_lock_modal {
            if norm == ' ' {
                self.lock_modal_toggle();
            }
            AppAction::Nothing
        } else {
            match norm {
                's' => {
                    self.cycle_sort();
                    AppAction::SaveConfig(self.to_config())
                },
                'l' => {
                    self.open_lock_modal();
                    AppAction::Nothing
                },
                'm' => {
                    self.mode = self.mode.toggle();
                    self.clamp_selection();
                    AppAction::SaveConfig(self.to_config())
                },
                't' => {
                    self.toggle_time_format();
                    AppAction::SaveConfig(self.to_config())
                },
                'r' => {
                    if !self.is_fetching {
                        self.is_fetching = true;
                        self.notice = None;
                        AppAction::Refresh
                    } else {
                        AppAction::Nothing
                    }
                },
                _ => AppAction::Nothing,
            }
        }
    }

    /// The up arrow: the lock-list cursor when the list is open, else the table.
    pub fn handle_up(&mut self)
        ensures
            *final(self) == up_effect(*old(self)),
    {
        if self.show_lock_modal {
            self.lock_modal_up();
        } else {
            self.previous();
        }
    }

    /// The down arrow: the lock-list cursor when the list is open, else the table.
    pub fn handle_down(&mut self)
        ensures
            *final(self) == down_effect(*old(self)),
    {
        if self.show_lock_modal {
            self.lock_modal_down();
        } else {
            self.next();
        }
    }

    /// Enter applies the lock list when it is open and does nothing otherwise.
    pub fn handle_enter(&mut self) -> (r: AppAction)
        ensures
            enter_effect(*old(self), *final(self), r),
    {
        if self.show_lock_modal {
            self.apply_lock_modal()
        } else {
            AppAction::Nothing
        }
    }

    /// Escape closes the lock list when it is open and quits otherwise.
    pub fn handle_esc(&mut self)
        ensures
            *final(self) == esc_effect(*old(self)),
    {
        if self.show_lock_modal {
            self.cancel_lock_modal();
        } else {
            self.should_quit = true;
        }
    }

    /// Handles a key press.
    pub fn handle_input(&mut self, key: Key) -> (r: AppAction)
        requires
            (key matches Key::Char(c) && spec_normalize_key(c) == 't' && !old(self).show_lock_modal)
                ==> all_reformattable(old(self).queues@, old(self).time_format.toggled()),
        ensures
            input_effect(*old(self), key, *final(self), r),
    {
        match key {
            Key::Char(c) => self.handle_key(c),
            Key::Up => {
                self.handle_up();
                AppAction::Nothing
            },
            Key::Down => {
                self.handle_down();
                AppAction::Nothing
            },
            Key::Enter => self.handle_enter(),
            Key::Esc => {
                self.handle_esc();
                AppAction::Nothing
            },
            Key::Other => AppAction::Nothing,
        }
    }

    /// Takes in the firewall's answer to a lock request. On success the
    /// requested regions become the locked set and the settings are to be
    /// saved; on failure the locked set stays and an error is shown.
    pub fn handle_hosts_result(&mut self, res: UpdateHostsResult, target_locked: Vec<String>, now: u64) -> (r: AppAction)
        ensures
            *final(self) == (App { locked: final(self).locked, notice: final(self).notice, ..*old(self) }),
            match res {
                UpdateHostsResult::Updated => {
                    &&& final(self).locked@ == string_views(target_locked@).to_set()
                    &&& final(self).notice matches Some(n) && n.kind == NoticeKind::Success
                        && n.message@ == spec_tr(old(self).locale, TextKey::HostsUpdated)@
                        && n.expires_at == Some(sat_u64(now + NOTICE_MS))
                    &&& r matches AppAction::SaveConfig(cfg) && final(self).config_of(cfg)
                },
                UpdateHostsResult::AlreadyUpToDate => {
                    &&& final(self).locked@ == string_views(target_locked@).to_set()
                    &&& final(self).notice matches Some(n) && n.kind == NoticeKind::Info
                        && n.message@ == spec_tr(old(self).locale, TextKey::HostsAlreadyUpToDate)@
                        && n.expires_at == Some(sat_u64(now + NOTICE_MS))
                    &&& r matches AppAction::SaveConfig(cfg) && final(self).config_of(cfg)
                },
                UpdateHostsResult::ElevationFailed => {
                    &&& final(self).locked == old(self).locked
                    &&& final(self).notice matches Some(n) && n.kind == NoticeKind::Error
                        && n.message@ == spec_tr(old(self).locale, TextKey::HostsElevationFailed)@
                        && n.expires_at is None
                    &&& r == AppAction::Nothing
                },
                UpdateHostsResult::Error(e) => {
                    &&& final(self).locked == old(self).locked
                    &&& final(self).notice matches Some(n) && n.kind == NoticeKind::Error
                        && n.message@ == spec_tr(old(self).locale, TextKey::ErrorPrefix)@ + e@
                        && n.expires_at is None
                    &&& r == AppAction::Nothing
                },
            },
    {
        match res {
            UpdateHostsResult::Updated => {
                self.locked = StringSet::from_vec(target_locked);
                let msg = tr(self.locale, TextKey::HostsUpdated);
                self.notice = Some(Notice::success(msg, now, NOTICE_MS));
                AppAction::SaveConfig(self.to_config())
            },
            UpdateHostsResult::AlreadyUpToDate => {
                self.locked = StringSet::from_vec(target_locked);
                let msg = tr(self.locale, TextKey::HostsAlreadyUpToDate);
                self.notice = Some(Notice::info(msg, now, NOTICE_MS));
                AppAction::SaveConfig(self.to_config())
            },
            UpdateHostsResult::ElevationFailed => {
                let msg = tr(self.locale, TextKey::HostsElevationFailed);
                self.notice = Some(Notice::error(msg));
                AppAction::Nothing
            },
            UpdateHostsResult::Error(e) => {
                let prefix = tr(self.locale, TextKey::ErrorPrefix);
                let msg = String::from_str(prefix).concat(e.as_str());
                self.notice = Some(Notice::error(msg.as_str()));
                AppAction::Nothing
            },
        }
    }

    /// Takes in the result of a refresh the user asked for: the new pings
    /// are merged in, and on success the rows are replaced (shown in the
    /// current time format) with a notice that says whether anything changed.
    pub fn handle_manual_refresh_complete(
        &mut self,
        api_res: Result<(Vec<RegionQueueData>, i64), String>,
        ping_res: PingMap,
        now: u64,
    )
        requires
            api_res matches Ok(d) ==> all_reformattable(d.0@, old(self).time_format),
        ensures
            !final(self).is_fetching,
            final(self).pings@ == old(self).pings@.union_prefer_right(ping_res@),
            match api_res {
                Ok(d) => {
                    let same = old(self).api_last_updated == d.1 && old(self).queues@.len() > 0;
                    &&& rows_reformatted(d.0@, final(self).queues@, old(self).time_format)
                    &&& final(self).api_last_updated == d.1
                    &&& final(self).table_state.selected == clamped(
                        old(self).table_state.selected,
                        rows_in(final(self).queues@, old(self).mode, old(self).sort, final(self).pings@).len(),
                    )
                    &&& final(self).lock_modal_cursor == clamped_cursor(
                        old(self).lock_modal_cursor,
                        modal_regions_in(final(self).queues@, final(self).pings@).len(),
                    )
                    &&& final(self).notice matches Some(n) && n.kind == NoticeKind::Success
                        && n.expires_at == Some(sat_u64(now + NOTICE_MS))
                        && n.message@ == (if same {
                            spec_tr(old(self).locale, TextKey::FeedbackUpToDate)
                        } else {
                            spec_tr(old(self).locale, TextKey::FeedbackUpdated)
                        })@
                    &&& *final(self) == (App {
                        is_fetching: false,
                        pings: final(self).pings,
                        queues: final(self).queues,
                        api_last_updated: d.1,
                        table_state: final(self).table_state,
                        lock_modal_cursor: final(self).lock_modal_cursor,
                        notice: final(self).notice,
                        ..*old(self)
                    })
                },
                Err(e) => {
                    &&& final(self).notice matches Some(n) && n.kind == NoticeKind::Error && n.message@ == e@
                        && n.expires_at is None
                    &&& *final(self) == (App {
                        is_fetching: false,
                        pings: final(self).pings,
                        notice: final(self).notice,
                        ..*old(self)
                    })
                },
            },
    {
        self.is_fetching = false;
        self.pings.merge(&ping_res);
        match api_res {
            Ok((queues, last_updated)) => {
                let is_same = self.api_last_updated == last_updated && self.queues.len() > 0;
                let mut rows = queues;
                let fmt = self.time_format;
                reformat_rows(&mut rows, fmt);
                self.queues = rows;
                self.api_last_updated = last_updated;
                self.clamp_selection();
                let feedback = if is_same {
                    tr(self.locale, TextKey::FeedbackUpToDate)
                } else {
                    tr(self.locale, TextKey::FeedbackUpdated)
                };
                self.notice = Some(Notice::success(feedback, now, NOTICE_MS));
            },
            Err(e) => {
                self.notice = Some(Notice::error(e.as_str()));
            },
        }
    }

    /// Takes in a periodic queue update: on success the rows are replaced and
    /// an error notice is cleared; a failure is shown only while there are no
    /// rows at all.
    pub fn handle_api_update(&mut self, res: Result<(Vec<RegionQueueData>, i64), String>)
        requires
            res matches Ok(d) ==> all_reformattable(d.0@, old(self).time_format),
        ensures
            match res {
                Ok(d) => {
                    &&& rows_reformatted(d.0@, final(self).queues@, old(self).time_format)
                    &&& final(self).api_last_updated == d.1
                    &&& final(self).table_state.selected == clamped(
                        old(self).table_state.selected,
                        rows_in(final(self).queues@, old(self).mode, old(self).sort, old(self).pings@).len(),
                    )
                    &&& final(self).lock_modal_cursor == clamped_cursor(
                        old(self).lock_modal_cursor,
                        modal_regions_in(final(self).queues@, old(self).pings@).len(),
                    )
                    &&& final(self).notice == (match old(self).notice {
                        Some(n) => if n.kind == NoticeKind::Error {
                            None
                        } else {
                            Some(n)
                        },
                        None => None,
                    })
                    &&& *final(self) == (App {
                        queues: final(self).queues,
                        api_last_updated: d.1,
                        table_state: final(self).table_state,
                        lock_modal_cursor: final(self).lock_modal_cursor,
                        notice: final(self).notice,
                        ..*old(self)
                    })
                },
                Err(e) => if old(self).queues@.len() == 0 {
                    &&& final(self).notice matches Some(n) && n.kind == NoticeKind::Error && n.message@ == e@
                        && n.expires_at is None
                    &&& *final(self) == (App { notice: final(self).notice, ..*old(self) })
                } else {
                    *final(self) == *old(self)
                },
            },
    {
        match res {
            Ok((queues, last_updated)) => {
                let mut rows = queues;
                let fmt = self.time_format;
                reformat_rows(&mut rows, fmt);
                self.queues = rows;
                self.api_last_updated = last_updated;
                self.clamp_selection();
                let is_error = match &self.notice {
                    Some(n) => n.kind == NoticeKind::Error,
                    None => false,
                };
                if is_error {
                    self.notice = None;
                }
            },
            Err(e) => {
                if self.queues.len() == 0 {
                    self.notice = Some(Notice::error(e.as_str()));
                }
            },
        }
    }

    /// Merges new measurements in: a region that did not answer this time
    /// keeps its earlier value.
    pub fn handle_ping_update(&mut self, pings: PingMap)
        ensures
            final(self).pings@ == old(self).pings@.union_prefer_right(pings@),
            *final(self) == (App { pings: final(self).pings, ..*old(self) }),
    {
        self.pings.merge(&pings);
    }

    /// Takes in the queue site's news: the first running event and the first
    /// coming one become the ones shown; a failed request changes nothing.
    pub fn handle_misc_update(&mut self, res: Result<MiscResponse, String>)
        ensures
            match res {
                Ok(m) => {
                    &&& final(self).current_event == (if m.current_events@.len() > 0 {
                        Some(m.current_events@[0])
                    } else {
                        None
                    })
                    &&& final(self).upcoming_event == (if m.upcoming_events@.len() > 0 {
                        Some(m.upcoming_events@[0])
                    } else {
                        None
                    })
                    &&& *final(self) == (App {
                        current_event: final(self).current_event,
                        upcoming_event: final(self).upcoming_event,
                        ..*old(self)
                    })
                },
                Err(_) => *final(self) == *old(self),
            },
    {
        if let Ok(m) = res {
            let mut current = m.current_events;
            let mut upcoming = m.upcoming_events;
            self.current_event = if current.len() > 0 {
                Some(current.remove(0))
            } else {
                None
            };
            self.upcoming_event = if upcoming.len() > 0 {
                Some(upcoming.remove(0))
            } else {
                None
            };
        }
    }
}

/// `f` is `o` with the lock list opened: the locked regions ticked in
/// code-point order, the cursor at the top, the table selection kept in range.
pub open spec fn opened_modal(o: App, f: App) -> bool {
    &&& f.show_lock_modal
    &&& crate::text::strictly_sorted(string_views(f.lock_modal_selected@))
    &&& string_views(f.lock_modal_selected@).to_set() == o.locked@
    &&& f.lock_modal_cursor == 0
    &&& f.table_state.selected == clamped(o.table_state.selected, o.display_rows().len())
    &&& f == (App {
        show_lock_modal: true,
        lock_modal_selected: f.lock_modal_selected,
        lock_modal_cursor: 0,
        table_state: f.table_state,
        ..o
    })
}

/// `f` is `o` with the region under the lock-list cursor ticked or unticked.
pub open spec fn toggled_selection(o: App, f: App) -> bool {
    &&& o.lock_modal_cursor < o.modal_regions().len() ==> string_views(f.lock_modal_selected@)
        == toggled_in(string_views(o.lock_modal_selected@), o.modal_regions()[o.lock_modal_cursor as int]@)
    &&& o.lock_modal_cursor >= o.modal_regions().len() ==> f.lock_modal_selected == o.lock_modal_selected
    &&& f == (App { lock_modal_selected: f.lock_modal_selected, ..o })
}

/// The name by which the lock list sorts a region: its site name, else its code.
pub open spec fn modal_name(code: Seq<char>) -> Seq<char> {
    match api_name_of(code) {
        Some(n) => n@,
        None => code,
    }
}

/// Positions `0..n` of the game's regions that are not in `d`.
pub open spec fn kept_regions(d: Set<Seq<char>>, n: nat) -> Seq<int>
    decreases n,
{
    if n == 0 {
        Seq::empty()
    } else {
        let r = kept_regions(d, (n - 1) as nat);
        if !d.contains(all_regions()[n - 1]@) {
            r.push(n - 1)
        } else {
            r
        }
    }
}

} // verus!
