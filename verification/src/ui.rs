//! What the dashboard shows: the text and colour of every part of the
//! screen, and how the screen's height is shared out. A terminal front end
//! paints these as they are.
use vstd::prelude::*;
use crate::api::{
    RegionQueueData, spec_parse_time, parse_time_to_seconds, event_time, event_timestamp, secs_until,
    seconds_until, spec_event_countdown, format_event_countdown, aws_code_of, aws_code_for_name,
    api_name_of, flag_of, api_name_for_code, flag_for_code,
};
use crate::app::{App, BestPick, NoticeKind, Role, Summary, deref_rows, position_of, find_position};
use crate::config::GameMode;
use crate::i18n::{
    TextKey, spec_tr, tr, sort_label, mode_label, format_label, tr_sort, tr_mode, tr_time_format,
    spec_time_diff, format_time_diff,
};
use crate::ping::{ping_tone, color_for_ping};
use crate::text::{chars_of, decimal, push_decimal, push_str, str_eq, string_from_chars, string_views};

verus! {

/// The colours of the screen's palette.
#[derive(Debug, Clone, Copy, PartialEq, Eq, Structural)]
pub enum Tone {
    /// The terminal's own text colour, left as it is.
    Plain,
    /// The terminal's own text colour, set back explicitly.
    Reset,
    DarkGray,
    White,
    LightRed,
    Red,
    Green,
    Yellow,
    LightYellow,
}

/// A run of text in one colour, bold or not.
#[derive(Debug, Clone, PartialEq, Eq)]
pub struct Piece {
    pub text: String,
    pub tone: Tone,
    pub bold: bool,
}

pub type PieceView = (Seq<char>, Tone, bool);

pub open spec fn piece_view(p: Piece) -> PieceView {
    (p.text@, p.tone, p.bold)
}

pub open spec fn piece_views(ps: Seq<Piece>) -> Seq<PieceView> {
    ps.map_values(|p: Piece| piece_view(p))
}

pub fn piece(text: &str, tone: Tone, bold: bool) -> (r: Piece)
    ensures
        piece_view(r) == (text@, tone, bold),
{
    Piece { text: String::from_str(text), tone, bold }
}

pub fn piece_of(text: &Vec<char>, tone: Tone, bold: bool) -> (r: Piece)
    ensures
        piece_view(r) == (text@, tone, bold),
{
    Piece { text: string_from_chars(text), tone, bold }
}

/// Rows of the header panel.
pub const HEADER_HEIGHT: u16 = 3;
/// Rows of the footer line.
pub const FOOTER_HEIGHT: u16 = 1;
/// The margin round the screen, where the terminal is tall enough.
pub const LAYOUT_MARGIN: u16 = 1;
/// Rows of the table when it only shows a message.
pub const EMPTY_TABLE_HEIGHT: u16 = 6;
/// Rows that the table's border and heading take.
pub const TABLE_CHROME_HEIGHT: u16 = 4;
/// Width of the lock list, in percent of the screen.
pub const MODAL_WIDTH_PERCENT: u16 = 65;
/// Height of the lock list, in percent of the screen.
pub const MODAL_HEIGHT_PERCENT: u16 = 80;
/// Width of the table: its four columns, the spacing and the border.
pub const TABLE_WIDTH: u16 = 69;
/// Rows of the "Best Pick" panel.
pub const SUMMARY_HEIGHT: u16 = 4;
pub const SUMMARY_LABEL_WIDTH: usize = 11;
pub const SUMMARY_TIME_WIDTH: usize = 8;
pub const SUMMARY_REGION_WIDTH: usize = 18;
pub const SUMMARY_PING_WIDTH: usize = 9;

/// The colour of a queue time: grey when there is none, green under a
/// minute, yellow under three minutes, red from then on.
pub open spec fn time_tone(text: Seq<char>) -> Tone {
    if text == "—"@ || text.len() == 0 {
        Tone::DarkGray
    } else {
        let sec = spec_parse_time(text);
        if sec < 60 {
            Tone::Green
        } else if sec < 180 {
            Tone::Yellow
        } else {
            Tone::Red
        }
    }
}

pub fn color_for_time(time_str: &str) -> (r: Tone)
    ensures
        r == time_tone(time_str@),
{
    if str_eq(time_str, "—") || time_str.unicode_len() == 0 {
        return Tone::DarkGray;
    }
    let sec = parse_time_to_seconds(time_str);
    if sec < 60 {
        Tone::Green
    } else if sec < 180 {
        Tone::Yellow
    } else {
        Tone::Red
    }
}

/// `n` spaces.
pub open spec fn spaces(n: nat) -> Seq<char> {
    Seq::new(n, |i: int| ' ')
}

/// `s` followed by spaces up to `width` characters.
pub open spec fn padded(s: Seq<char>, width: nat) -> Seq<char> {
    if s.len() < width {
        s + spaces((width - s.len()) as nat)
    } else {
        s
    }
}

pub fn push_spaces(out: &mut Vec<char>, n: usize)
    ensures
        final(out)@ == old(out)@ + spaces(n as nat),
{
    let ghost start = out@;
    let mut i: usize = 0;
    while i < n
        invariant
            0 <= i <= n,
            out@ == start + spaces(i as nat),
        decreases n - i,
    {
        out.push(' ');
        i += 1;
        assert(out@ =~= start + spaces(i as nat));
    }
}

/// `s` padded with spaces on the right to `width` characters.
pub fn pad_right(s: &str, width: usize) -> (r: String)
    ensures
        r@ == padded(s@, width as nat),
{
    let mut out = chars_of(s);
    let n = out.len();
    let pad: usize = if width > n {
        width - n
    } else {
        0
    };
    push_spaces(&mut out, pad);
    assert(out@ =~= padded(s@, width as nat));
    string_from_chars(&out)
}

/// How the screen's rows are shared out.
#[derive(Debug, Clone, Copy, PartialEq, Eq, Structural)]
pub struct ScreenPlan {
    pub margin: u16,
    pub table_height: u16,
    pub show_summary: bool,
}

pub open spec fn min_u16(a: int, b: int) -> u16 {
    if a < b {
        a as u16
    } else {
        b as u16
    }
}

/// The plan for a terminal `height` rows tall whose table has `rows` rows:
/// no margin below twenty rows; the "Best Pick" panel only where four table
/// rows still fit beside it; the table as tall as its rows (counted in a
/// `u16`) and chrome, or as what is left.
pub open spec fn plan_for(height: u16, rows: nat) -> ScreenPlan {
    let desired: int = if rows == 0 {
        EMPTY_TABLE_HEIGHT as int
    } else {
        rows % 0x10000 + TABLE_CHROME_HEIGHT
    };
    let margin: u16 = if height < 20 {
        0
    } else {
        LAYOUT_MARGIN
    };
    let fixed: int = HEADER_HEIGHT + SUMMARY_HEIGHT + FOOTER_HEIGHT + 2 * margin;
    if height >= fixed + 4 {
        ScreenPlan { margin, table_height: min_u16(desired, height - fixed), show_summary: true }
    } else {
        let rest: int = height - (HEADER_HEIGHT + FOOTER_HEIGHT + 2 * margin);
        ScreenPlan {
            margin,
            table_height: min_u16(desired, if rest > 0 {
                rest
            } else {
                0
            }),
            show_summary: false,
        }
    }
}

/// The plan of the screen for a terminal `height` rows tall whose table has
/// `row_count` rows.
pub fn screen_plan(height: u16, row_count: usize) -> (r: ScreenPlan)
    requires
        row_count % 0x10000 + TABLE_CHROME_HEIGHT <= u16::MAX,
    ensures
        r == plan_for(height, row_count as nat),
{
    let desired: u16 = if row_count == 0 {
        EMPTY_TABLE_HEIGHT
    } else {
        (row_count % 0x10000) as u16 + TABLE_CHROME_HEIGHT
    };
    let margin: u16 = if height < 20 {
        0
    } else {
        LAYOUT_MARGIN
    };
    let fixed: u16 = HEADER_HEIGHT + SUMMARY_HEIGHT + FOOTER_HEIGHT + 2 * margin;
    if height >= fixed + 4 {
        let avail = height - fixed;
        let t = if desired < avail {
            desired
        } else {
            avail
        };
        ScreenPlan { margin, table_height: t, show_summary: true }
    } else {
        let avail = height.saturating_sub(HEADER_HEIGHT + FOOTER_HEIGHT + 2 * margin);
        let t = if desired < avail {
            desired
        } else {
            avail
        };
        ScreenPlan { margin, table_height: t, show_summary: false }
    }
}

pub open spec fn opt_view(o: Option<&str>) -> Option<Seq<char>> {
    match o {
        Some(s) => Some(s@),
        None => None,
    }
}

/// The thin divider between parts of the header.
pub open spec fn divider() -> PieceView {
    ("  │  "@, Tone::DarkGray, false)
}

/// The badge of the running event: its name and how long it has left.
pub open spec fn current_badge(app: App, now: i64) -> Option<PieceView> {
    match app.current_event {
        Some(ev) => match event_time(ev.end@) {
            Some(end) => Some(
                (
                    " ["@ + ev.name@ + " - "@ + spec_event_countdown(secs_until(end, now), app.time_format)
                        + " "@ + spec_tr(app.locale, TextKey::EventLeft)@ + "]"@,
                    Tone::LightYellow,
                    false,
                ),
            ),
            None => None,
        },
        None => None,
    }
}

/// The badge of the next event, where its start has a local date (`when`).
pub open spec fn upcoming_badge(app: App, when: Option<Seq<char>>) -> Option<PieceView> {
    match (app.upcoming_event, when) {
        (Some(ev), Some(w)) => Some(
            (
                " ["@ + spec_tr(app.locale, TextKey::EventUpcoming)@ + ": "@ + ev.name@ + " - "@
                    + spec_tr(app.locale, TextKey::EventStartsIn)@ + " "@ + w + "]"@,
                Tone::DarkGray,
                false,
            ),
        ),
        _ => None,
    }
}

/// The event badge: only in Event mode; the running event first, else the next.
pub open spec fn event_badge(app: App, now: i64, when: Option<Seq<char>>) -> Seq<PieceView> {
    if app.mode == GameMode::Event {
        match current_badge(app, now) {
            Some(b) => seq![b],
            None => match upcoming_badge(app, when) {
                Some(b) => seq![b],
                None => seq![],
            },
        }
    } else {
        seq![]
    }
}

/// The header line: sort, mode (with the event badge), time format and lock.
pub open spec fn header_view(app: App, now: i64, when: Option<Seq<char>>) -> Seq<PieceView> {
    let l = app.locale;
    let locked = app.locked@ != Set::<Seq<char>>::empty();
    seq![
        (spec_tr(l, TextKey::SortLabel)@, Tone::DarkGray, false),
        (sort_label(l, app.sort)@, Tone::White, true),
        divider(),
        (spec_tr(l, TextKey::ModeLabel)@, Tone::DarkGray, false),
        (mode_label(l, app.mode)@, Tone::White, true),
    ] + event_badge(app, now, when) + seq![
        divider(),
        (spec_tr(l, TextKey::TimeLabel)@, Tone::DarkGray, false),
        (format_label(l, app.time_format)@, Tone::White, true),
        divider(),
        (spec_tr(l, TextKey::LockLabel)@, Tone::DarkGray, false),
        if locked {
            (spec_tr(l, TextKey::LockActive)@, Tone::Green, true)
        } else {
            (spec_tr(l, TextKey::LockNone)@, Tone::DarkGray, false)
        },
    ]
}

fn event_badge_piece(app: &App, now: i64, upcoming_when: Option<&str>) -> (r: Option<Piece>)
    ensures
        match r {
            Some(p) => event_badge(*app, now, opt_view(upcoming_when)) == seq![piece_view(p)],
            None => event_badge(*app, now, opt_view(upcoming_when)) == Seq::<PieceView>::empty(),
        },
{
    if app.mode != GameMode::Event {
        return None;
    }
    if let Some(ev) = &app.current_event {
        if let Some(end) = event_timestamp(ev.end.as_str()) {
            let countdown = format_event_countdown(seconds_until(end, now), app.time_format);
            let mut t: Vec<char> = Vec::new();
            push_str(&mut t, " [");
            push_str(&mut t, ev.name.as_str());
            push_str(&mut t, " - ");
            push_str(&mut t, countdown.as_str());
            push_str(&mut t, " ");
            push_str(&mut t, tr(app.locale, TextKey::EventLeft));
            push_str(&mut t, "]");
            return Some(piece_of(&t, Tone::LightYellow, false));
        }
    }
    match (&app.upcoming_event, upcoming_when) {
        (Some(ev), Some(w)) => {
            let mut t: Vec<char> = Vec::new();
            push_str(&mut t, " [");
            push_str(&mut t, tr(app.locale, TextKey::EventUpcoming));
            push_str(&mut t, ": ");
            push_str(&mut t, ev.name.as_str());
            push_str(&mut t, " - ");
            push_str(&mut t, tr(app.locale, TextKey::EventStartsIn));
            push_str(&mut t, " ");
            push_str(&mut t, w);
            push_str(&mut t, "]");
            Some(piece_of(&t, Tone::DarkGray, false))
        },
        _ => None,
    }
}

/// The header line. `now` is the current Unix time; `upcoming_when` is the
/// local date and time of the next event's start, where it has one.
pub fn header_line(app: &App, now: i64, upcoming_when: Option<&str>) -> (r: Vec<Piece>)
    ensures
        piece_views(r@) == header_view(*app, now, opt_view(upcoming_when)),
{
    let l = app.locale;
    let mut v: Vec<Piece> = Vec::new();
    v.push(piece(tr(l, TextKey::SortLabel), Tone::DarkGray, false));
    v.push(piece(tr_sort(l, app.sort), Tone::White, true));
    v.push(piece("  │  ", Tone::DarkGray, false));
    v.push(piece(tr(l, TextKey::ModeLabel), Tone::DarkGray, false));
    v.push(piece(tr_mode(l, app.mode), Tone::White, true));
    let ghost head = piece_views(v@);
    let badge = event_badge_piece(app, now, upcoming_when);
    if let Some(b) = badge {
        v.push(b);
    }
    let ghost with_badge = piece_views(v@);
    assert(with_badge =~= head + event_badge(*app, now, opt_view(upcoming_when)));
    v.push(piece("  │  ", Tone::DarkGray, false));
    v.push(piece(tr(l, TextKey::TimeLabel), Tone::DarkGray, false));
    v.push(piece(tr_time_format(l, app.time_format), Tone::White, true));
    v.push(piece("  │  ", Tone::DarkGray, false));
    v.push(piece(tr(l, TextKey::LockLabel), Tone::DarkGray, false));
    if !app.locked.is_empty() {
        v.push(piece(tr(l, TextKey::LockActive), Tone::Green, true));
    } else {
        v.push(piece(tr(l, TextKey::LockNone), Tone::DarkGray, false));
    }
    assert(piece_views(v@) =~= header_view(*app, now, opt_view(upcoming_when)));
    v
}

/// One row of the table: region, ping, survivor time, killer time.
#[derive(Debug, Clone, PartialEq, Eq)]
pub struct TableRow {
    pub region: Piece,
    pub ping: Piece,
    pub survivor: Piece,
    pub killer: Piece,
}

pub type RowView = (PieceView, PieceView, PieceView, PieceView);

pub open spec fn row_piece_views(r: TableRow) -> RowView {
    (piece_view(r.region), piece_view(r.ping), piece_view(r.survivor), piece_view(r.killer))
}

/// What the table shows: a message when it has no rows, else its rows.
#[derive(Debug, Clone, PartialEq, Eq)]
pub enum TableView {
    Message(Piece),
    Rows(Vec<TableRow>),
}

/// A region as the table names it: its country tag, a space and its name.
pub open spec fn region_text(r: RegionQueueData) -> Seq<char> {
    if r.flag@.len() == 0 {
        r.name@
    } else {
        r.flag@ + " "@ + r.name@
    }
}

/// The AWS code of a region name, empty where it has none.
pub open spec fn code_text(name: Seq<char>) -> Seq<char> {
    match aws_code_of(name) {
        Some(c) => c@,
        None => ""@,
    }
}

/// "N ms".
pub open spec fn ms_text(ms: u32) -> Seq<char> {
    decimal(ms as nat) + " ms"@
}

/// The ping cell: the measured ping, "..." while nothing at all has been
/// measured, else a dash.
pub open spec fn ping_cell(pings: Map<Seq<char>, u32>, code: Seq<char>) -> PieceView {
    if pings.dom().contains(code) {
        (ms_text(pings[code]), ping_tone(Some(pings[code])), false)
    } else if pings.dom() == Set::<Seq<char>>::empty() {
        ("..."@, Tone::DarkGray, false)
    } else {
        ("—"@, Tone::DarkGray, false)
    }
}

/// A row of the table: greyed out with dashes when the queue is disabled;
/// else the region in bold red when it is locked, its ping and its times.
pub open spec fn row_view(app: App, r: RegionQueueData) -> RowView {
    let dim = Tone::DarkGray;
    if r.disabled() {
        ((region_text(r), dim, false), ("—"@, dim, false), ("—"@, dim, false), ("—"@, dim, false))
    } else {
        let code = code_text(r.name@);
        let locked = app.locked@.contains(code);
        (
            (region_text(r), if locked {
                Tone::LightRed
            } else {
                Tone::Plain
            }, locked),
            ping_cell(app.pings@, code),
            (r.survivor@, time_tone(r.survivor@), false),
            (r.killer@, time_tone(r.killer@), false),
        )
    }
}

/// The message of an empty table: fetching, failed, the next event in Event
/// mode where its start has a local date (`when`), or that there is no data.
pub open spec fn empty_message(app: App, now: i64, when: Option<Seq<char>>) -> PieceView {
    let l = app.locale;
    if app.is_fetching {
        (spec_tr(l, TextKey::FetchingQueues)@, Tone::LightRed, false)
    } else if app.notice matches Some(n) && n.kind == NoticeKind::Error {
        (spec_tr(l, TextKey::FailedQueues)@, Tone::Red, false)
    } else if app.mode == GameMode::Event {
        match (app.upcoming_event, when) {
            (Some(ev), Some(w)) => {
                let start = match event_time(ev.start@) {
                    Some(t) => t,
                    None => 0,
                };
                (
                    "  "@ + spec_tr(l, TextKey::EventUpcoming)@ + ": "@ + ev.name@ + " ("@ + spec_tr(
                        l,
                        TextKey::EventStartsIn,
                    )@ + " "@ + w + " - "@ + spec_tr(l, TextKey::EventIn)@ + " "@
                        + spec_event_countdown(secs_until(start, now), app.time_format) + ")"@,
                    Tone::LightYellow,
                    false,
                )
            },
            _ => ("  "@ + spec_tr(l, TextKey::NoDataForMode)@, Tone::DarkGray, false),
        }
    } else {
        (spec_tr(l, TextKey::NoDataForMode)@, Tone::DarkGray, false)
    }
}

/// `table` shows what the table holds for `app`.
pub open spec fn is_table_view(app: App, now: i64, when: Option<Seq<char>>, table: TableView) -> bool {
    let rows = app.display_rows();
    match table {
        TableView::Message(p) => rows.len() == 0 && piece_view(p) == empty_message(app, now, when),
        TableView::Rows(v) => {
            &&& rows.len() > 0
            &&& v@.map_values(|t: TableRow| row_piece_views(t)) == rows.map_values(
                |r: RegionQueueData| row_view(app, r),
            )
        },
    }
}

fn ms_piece(ms: u32, prefix: &str, tone: Tone) -> (r: Piece)
    ensures
        piece_view(r) == (prefix@ + ms_text(ms), tone, false),
{
    let mut t: Vec<char> = Vec::new();
    push_str(&mut t, prefix);
    push_decimal(&mut t, ms as u64);
    push_str(&mut t, " ms");
    assert(t@ =~= prefix@ + ms_text(ms));
    piece_of(&t, tone, false)
}

fn region_piece_text(r: &RegionQueueData) -> (t: Vec<char>)
    ensures
        t@ == region_text(*r),
{
    let mut t: Vec<char> = Vec::new();
    if r.flag.unicode_len() == 0 {
        push_str(&mut t, r.name.as_str());
        assert(t@ =~= region_text(*r));
    } else {
        push_str(&mut t, r.flag.as_str());
        push_str(&mut t, " ");
        push_str(&mut t, r.name.as_str());
    }
    t
}

fn code_for(name: &str) -> (c: &'static str)
    ensures
        c@ == code_text(name@),
{
    match aws_code_for_name(name) {
        Some(c) => c,
        None => "",
    }
}

fn table_row(app: &App, r: &RegionQueueData) -> (t: TableRow)
    ensures
        row_piece_views(t) == row_view(*app, *r),
{
    let reg = region_piece_text(r);
    let dim = Tone::DarkGray;
    if r.is_disabled() {
        return TableRow {
            region: piece_of(&reg, dim, false),
            ping: piece("—", dim, false),
            survivor: piece("—", dim, false),
            killer: piece("—", dim, false),
        };
    }
    let code = code_for(r.name.as_str());
    let locked = app.locked.contains(code);
    let region = piece_of(&reg, if locked {
        Tone::LightRed
    } else {
        Tone::Plain
    }, locked);
    let ping = match app.pings.get(code) {
        Some(ms) => ms_piece(ms, "", color_for_ping(Some(ms))),
        None => if app.pings.is_empty() {
            piece("...", dim, false)
        } else {
            piece("—", dim, false)
        },
    };
    proof {
        reveal_strlit("");
        assert forall|m: u32| ""@ + ms_text(m) == ms_text(m) by {
            assert(""@ + ms_text(m) =~= ms_text(m));
        }
    }
    let survivor = piece(r.survivor.as_str(), color_for_time(r.survivor.as_str()), false);
    let killer = piece(r.killer.as_str(), color_for_time(r.killer.as_str()), false);
    TableRow { region, ping, survivor, killer }
}

fn empty_table_message(app: &App, now: i64, upcoming_when: Option<&str>) -> (p: Piece)
    ensures
        piece_view(p) == empty_message(*app, now, opt_view(upcoming_when)),
{
    let l = app.locale;
    if app.is_fetching {
        return piece(tr(l, TextKey::FetchingQueues), Tone::LightRed, false);
    }
    let failed = match &app.notice {
        Some(n) => n.kind == NoticeKind::Error,
        None => false,
    };
    if failed {
        return piece(tr(l, TextKey::FailedQueues), Tone::Red, false);
    }
    if app.mode == GameMode::Event {
        match (&app.upcoming_event, upcoming_when) {
            (Some(ev), Some(w)) => {
                let start = match event_timestamp(ev.start.as_str()) {
                    Some(t) => t,
                    None => 0,
                };
                let countdown = format_event_countdown(seconds_until(start, now), app.time_format);
                let mut t: Vec<char> = Vec::new();
                push_str(&mut t, "  ");
                push_str(&mut t, tr(l, TextKey::EventUpcoming));
                push_str(&mut t, ": ");
                push_str(&mut t, ev.name.as_str());
                push_str(&mut t, " (");
                push_str(&mut t, tr(l, TextKey::EventStartsIn));
                push_str(&mut t, " ");
                push_str(&mut t, w);
                push_str(&mut t, " - ");
                push_str(&mut t, tr(l, TextKey::EventIn));
                push_str(&mut t, " ");
                push_str(&mut t, countdown.as_str());
                push_str(&mut t, ")");
                piece_of(&t, Tone::LightYellow, false)
            },
            _ => {
                let mut t: Vec<char> = Vec::new();
                push_str(&mut t, "  ");
                push_str(&mut t, tr(l, TextKey::NoDataForMode));
                piece_of(&t, Tone::DarkGray, false)
            },
        }
    } else {
        piece(tr(l, TextKey::NoDataForMode), Tone::DarkGray, false)
    }
}

/// What the table shows. `now` is the current Unix time; `upcoming_when` is
/// the local date and time of the next event's start, where it has one.
pub fn table_view(app: &App, now: i64, upcoming_when: Option<&str>) -> (r: TableView)
    ensures
        is_table_view(*app, now, opt_view(upcoming_when), r),
{
    let rows = app.get_filtered_sorted_rows();
    let ghost all = deref_rows(rows@);
    if rows.len() == 0 {
        return TableView::Message(empty_table_message(app, now, upcoming_when));
    }
    let mut out: Vec<TableRow> = Vec::new();
    let mut i: usize = 0;
    while i < rows.len()
        invariant
            0 <= i <= rows@.len(),
            all == deref_rows(rows@),
            out@.map_values(|t: TableRow| row_piece_views(t)) == all.take(i as int).map_values(
                |r: RegionQueueData| row_view(*app, r),
            ),
        decreases rows@.len() - i,
    {
        let ghost before = out@;
        let t = table_row(app, rows[i]);
        out.push(t);
        assert(all[i as int] == *rows@[i as int]);
        assert(out@ =~= before.push(t));
        assert(all.take(i + 1) =~= all.take(i as int).push(all[i as int]));
        assert(before.push(t).map_values(|t: TableRow| row_piece_views(t)) =~= before.map_values(
            |t: TableRow| row_piece_views(t),
        ).push(row_piece_views(t)));
        assert(all.take(i as int).push(all[i as int]).map_values(|r: RegionQueueData| row_view(*app, r))
            =~= all.take(i as int).map_values(|r: RegionQueueData| row_view(*app, r)).push(
            row_view(*app, all[i as int]),
        ));
        i += 1;
    }
    assert(all.take(rows@.len() as int) =~= all);
    TableView::Rows(out)
}

/// The frames of the "fetching" spinner, one per tick.
pub open spec fn spinner_text(i: nat) -> &'static str {
    let k = i % 10;
    if k == 0 {
        "⠋"
    } else if k == 1 {
        "⠙"
    } else if k == 2 {
        "⠹"
    } else if k == 3 {
        "⠸"
    } else if k == 4 {
        "⠼"
    } else if k == 5 {
        "⠴"
    } else if k == 6 {
        "⠦"
    } else if k == 7 {
        "⠧"
    } else if k == 8 {
        "⠇"
    } else {
        "⠏"
    }
}

pub fn spinner_frame_text(i: usize) -> (r: &'static str)
    ensures
        r == spinner_text(i as nat),
{
    let k = i % 10;
    if k == 0 {
        "⠋"
    } else if k == 1 {
        "⠙"
    } else if k == 2 {
        "⠹"
    } else if k == 3 {
        "⠸"
    } else if k == 4 {
        "⠼"
    } else if k == 5 {
        "⠴"
    } else if k == 6 {
        "⠦"
    } else if k == 7 {
        "⠧"
    } else if k == 8 {
        "⠇"
    } else {
        "⠏"
    }
}

/// The status at the end of the footer: the notice, else the spinner while
/// fetching, else how long ago the data was updated.
pub open spec fn status_view(app: App, now: i64) -> PieceView {
    let l = app.locale;
    match app.notice {
        Some(n) => (
            n.message@,
            match n.kind {
                NoticeKind::Error => Tone::Red,
                NoticeKind::Info => Tone::LightRed,
                NoticeKind::Success => Tone::Green,
            },
            true,
        ),
        None => if app.is_fetching {
            (
                spinner_text(app.spinner_frame as nat)@ + " "@ + spec_tr(l, TextKey::StatusFetching)@,
                Tone::LightRed,
                true,
            )
        } else {
            (
                spec_tr(l, TextKey::StatusApiUpdated)@ + if app.api_last_updated == 0 {
                    spec_tr(l, TextKey::TimeFetching)@
                } else {
                    spec_time_diff(l, (now - app.api_last_updated) as i64)
                },
                Tone::DarkGray,
                false,
            )
        },
    }
}

/// A key and what it does, as the footer and the lock list show them.
pub open spec fn key_hint(key: Seq<char>, action: Seq<char>, tone: Tone) -> Seq<PieceView> {
    seq![(key, Tone::LightRed, false), (action, tone, false)]
}

/// The footer line: the keys and what they do, then the status.
pub open spec fn footer_view(app: App, now: i64) -> Seq<PieceView> {
    let l = app.locale;
    key_hint(" [↑↓] "@, spec_tr(l, TextKey::ActionSelect)@, Tone::Plain) + key_hint(
        " [L] "@,
        spec_tr(l, TextKey::ActionLock)@,
        Tone::Plain,
    ) + key_hint(" [S] "@, spec_tr(l, TextKey::ActionSort)@, Tone::Plain) + key_hint(
        " [M] "@,
        spec_tr(l, TextKey::ActionMode)@,
        Tone::Plain,
    ) + key_hint(" [T] "@, spec_tr(l, TextKey::ActionTime)@, Tone::Plain) + key_hint(
        " [R] "@,
        spec_tr(l, TextKey::ActionRefresh)@,
        Tone::Plain,
    ) + key_hint(" [Esc] "@, spec_tr(l, TextKey::ActionQuit)@, Tone::Plain) + seq![
        (" │ "@, Tone::DarkGray, false),
        status_view(app, now),
    ]
}

fn push_hint(v: &mut Vec<Piece>, key: &str, action: &str, tone: Tone)
    ensures
        piece_views(final(v)@) == piece_views(old(v)@) + key_hint(key@, action@, tone),
{
    let ghost before = piece_views(v@);
    v.push(piece(key, Tone::LightRed, false));
    v.push(piece(action, tone, false));
    assert(piece_views(v@) =~= before + key_hint(key@, action@, tone));
}

fn status_piece(app: &App, now: i64) -> (p: Piece)
    requires
        i64::MIN <= now - app.api_last_updated <= i64::MAX,
    ensures
        piece_view(p) == status_view(*app, now),
{
    let l = app.locale;
    match &app.notice {
        Some(n) => {
            let tone = match n.kind {
                NoticeKind::Error => Tone::Red,
                NoticeKind::Info => Tone::LightRed,
                NoticeKind::Success => Tone::Green,
            };
            Piece { text: n.message.clone(), tone, bold: true }
        },
        None => if app.is_fetching {
            let mut t: Vec<char> = Vec::new();
            push_str(&mut t, spinner_frame_text(app.spinner_frame));
            push_str(&mut t, " ");
            push_str(&mut t, tr(l, TextKey::StatusFetching));
            piece_of(&t, Tone::LightRed, true)
        } else {
            let mut t: Vec<char> = Vec::new();
            push_str(&mut t, tr(l, TextKey::StatusApiUpdated));
            if app.api_last_updated == 0 {
                push_str(&mut t, tr(l, TextKey::TimeFetching));
            } else {
                let d = format_time_diff(l, now - app.api_last_updated);
                push_str(&mut t, d.as_str());
            }
            piece_of(&t, Tone::DarkGray, false)
        },
    }
}

/// The footer line. `now` is the current Unix time.
pub fn footer_line(app: &App, now: i64) -> (r: Vec<Piece>)
    requires
        i64::MIN <= now - app.api_last_updated <= i64::MAX,
    ensures
        piece_views(r@) == footer_view(*app, now),
{
    let l = app.locale;
    let mut v: Vec<Piece> = Vec::new();
    assert(piece_views(v@) =~= Seq::<PieceView>::empty());
    push_hint(&mut v, " [↑↓] ", tr(l, TextKey::ActionSelect), Tone::Plain);
    push_hint(&mut v, " [L] ", tr(l, TextKey::ActionLock), Tone::Plain);
    push_hint(&mut v, " [S] ", tr(l, TextKey::ActionSort), Tone::Plain);
    push_hint(&mut v, " [M] ", tr(l, TextKey::ActionMode), Tone::Plain);
    push_hint(&mut v, " [T] ", tr(l, TextKey::ActionTime), Tone::Plain);
    push_hint(&mut v, " [R] ", tr(l, TextKey::ActionRefresh), Tone::Plain);
    push_hint(&mut v, " [Esc] ", tr(l, TextKey::ActionQuit), Tone::Plain);
    let ghost keys = piece_views(v@);
    v.push(piece(" │ ", Tone::DarkGray, false));
    v.push(status_piece(app, now));
    assert(piece_views(v@) =~= keys + seq![(" │ "@, Tone::DarkGray, false), status_view(*app, now)]);
    assert(piece_views(v@) =~= footer_view(*app, now));
    v
}

/// An entry of the lock list.
#[derive(Debug, Clone, PartialEq, Eq)]
pub struct ModalItem {
    pub text: String,
    pub tone: Tone,
    /// Whether the cursor is on it (shown reversed and bold).
    pub highlighted: bool,
}

pub type ModalItemView = (Seq<char>, Tone, bool);

pub open spec fn modal_item_view(m: ModalItem) -> ModalItemView {
    (m.text@, m.tone, m.highlighted)
}

/// An entry of the lock list: its box, country tag, name, code and ping; green
/// when it is selected.
pub open spec fn modal_entry(app: App, idx: int, code: Seq<char>) -> ModalItemView {
    let name = match api_name_of(code) {
        Some(n) => n@,
        None => code,
    };
    let flag = match flag_of(code) {
        Some(f) => f@,
        None => ""@,
    };
    let selected = position_of(string_views(app.lock_modal_selected@), code) is Some;
    (
        (if selected {
            "[*] "@
        } else {
            "[ ] "@
        }) + (if flag.len() == 0 {
            ""@
        } else {
            flag + " "@
        }) + name + " ("@ + code + ")"@ + (if app.pings@.dom().contains(code) {
            " - "@ + ms_text(app.pings@[code])
        } else {
            ""@
        }),
        if selected {
            Tone::Green
        } else {
            Tone::DarkGray
        },
        idx == app.lock_modal_cursor,
    )
}

/// The entries of the lock list, in the list's order.
pub open spec fn modal_view(app: App) -> Seq<ModalItemView> {
    let regions = app.modal_regions();
    Seq::new(regions.len(), |i: int| modal_entry(app, i, regions[i]@))
}

fn modal_item(app: &App, idx: usize, code: &str) -> (m: ModalItem)
    ensures
        modal_item_view(m) == modal_entry(*app, idx as int, code@),
{
    let name = match api_name_for_code(code) {
        Some(n) => n,
        None => code,
    };
    let flag = match flag_for_code(code) {
        Some(f) => f,
        None => "",
    };
    let selected = find_position(&app.lock_modal_selected, code).is_some();
    let mut t: Vec<char> = Vec::new();
    if selected {
        push_str(&mut t, "[*] ");
    } else {
        push_str(&mut t, "[ ] ");
    }
    let ghost head = t@;
    if flag.unicode_len() > 0 {
        push_str(&mut t, flag);
        push_str(&mut t, " ");
    }
    proof {
        reveal_strlit("");
    }
    assert(t@ =~= head + (if flag@.len() == 0 {
        ""@
    } else {
        flag@ + " "@
    }));
    push_str(&mut t, name);
    push_str(&mut t, " (");
    push_str(&mut t, code);
    push_str(&mut t, ")");
    let ghost body = t@;
    match app.pings.get(code) {
        Some(ms) => {
            push_str(&mut t, " - ");
            push_decimal(&mut t, ms as u64);
            push_str(&mut t, " ms");
            assert(t@ =~= body + (" - "@ + ms_text(ms)));
        },
        None => {
            assert(t@ =~= body + ""@);
        },
    }
    let tone = if selected {
        Tone::Green
    } else {
        Tone::DarkGray
    };
    ModalItem { text: string_from_chars(&t), tone, highlighted: idx == app.lock_modal_cursor }
}

/// The entries of the lock list.
pub fn modal_items(app: &App) -> (r: Vec<ModalItem>)
    ensures
        r@.map_values(|m: ModalItem| modal_item_view(m)) == modal_view(*app),
{
    let regions = app.get_modal_regions();
    let mut out: Vec<ModalItem> = Vec::new();
    let mut i: usize = 0;
    while i < regions.len()
        invariant
            0 <= i <= regions@.len(),
            regions@ == app.modal_regions(),
            out@.len() == i,
            forall|k: int| 0 <= k < i ==> modal_item_view(#[trigger] out@[k]) == modal_entry(
                *app,
                k,
                regions@[k]@,
            ),
        decreases regions@.len() - i,
    {
        let m = modal_item(app, i, regions[i]);
        out.push(m);
        i += 1;
    }
    assert(out@.map_values(|m: ModalItem| modal_item_view(m)) =~= modal_view(*app));
    out
}

/// The line of keys under the lock list.
pub open spec fn modal_keys_view(l: crate::i18n::Locale) -> Seq<PieceView> {
    key_hint(" [↑↓] "@, spec_tr(l, TextKey::ModalSelect)@, Tone::Reset) + key_hint(
        "  [Space] "@,
        spec_tr(l, TextKey::ModalToggle)@,
        Tone::Reset,
    ) + key_hint("  [Enter] "@, spec_tr(l, TextKey::ModalApply)@, Tone::Reset) + key_hint(
        "  [Esc] "@,
        spec_tr(l, TextKey::ModalCancel)@,
        Tone::Reset,
    )
}

pub fn modal_keys_line(l: crate::i18n::Locale) -> (r: Vec<Piece>)
    ensures
        piece_views(r@) == modal_keys_view(l),
{
    let mut v: Vec<Piece> = Vec::new();
    assert(piece_views(v@) =~= Seq::<PieceView>::empty());
    push_hint(&mut v, " [↑↓] ", tr(l, TextKey::ModalSelect), Tone::Reset);
    push_hint(&mut v, "  [Space] ", tr(l, TextKey::ModalToggle), Tone::Reset);
    push_hint(&mut v, "  [Enter] ", tr(l, TextKey::ModalApply), Tone::Reset);
    push_hint(&mut v, "  [Esc] ", tr(l, TextKey::ModalCancel), Tone::Reset);
    assert(piece_views(v@) =~= modal_keys_view(l));
    v
}

/// A line of the "Best Pick" panel: the role's label, then the pick's time,
/// region (bold, red when locked) and ping in aligned columns, and how many
/// other regions are about as fast; a dash when there is no pick.
pub open spec fn pick_line(app: App, key: TextKey, role: Role, pick: Option<BestPick>) -> Seq<PieceView> {
    let l = app.locale;
    let label = (padded(spec_tr(l, key)@, SUMMARY_LABEL_WIDTH as nat), Tone::DarkGray, false);
    match pick {
        Some(b) => {
            let row = *b.row;
            let t = role.time_text(row);
            let code = code_text(row.name@);
            let locked = app.locked@.contains(code);
            let measured = app.pings@.dom().contains(code);
            let ping_text = if measured {
                ms_text(app.pings@[code])
            } else {
                "—"@
            };
            let ping_color = if measured {
                ping_tone(Some(app.pings@[code]))
            } else {
                Tone::DarkGray
            };
            seq![
                label,
                (padded(t, SUMMARY_TIME_WIDTH as nat), time_tone(t), false),
                (padded(region_text(row), SUMMARY_REGION_WIDTH as nat), if locked {
                    Tone::LightRed
                } else {
                    Tone::Plain
                }, true),
                (padded(ping_text, SUMMARY_PING_WIDTH as nat), ping_color, false),
            ] + if b.similar > 0 {
                seq![
                    (
                        "+"@ + decimal(b.similar as nat) + " "@ + spec_tr(l, TextKey::SummarySimilar)@,
                        Tone::DarkGray,
                        false,
                    ),
                ]
            } else {
                seq![]
            }
        },
        None => seq![label, ("—"@, Tone::DarkGray, false)],
    }
}

fn pick_line_pieces(app: &App, key: TextKey, role: Role, pick: &Option<BestPick>) -> (r: Vec<Piece>)
    ensures
        piece_views(r@) == pick_line(*app, key, role, *pick),
{
    let l = app.locale;
    let label = pad_right(tr(l, key), SUMMARY_LABEL_WIDTH);
    let mut v: Vec<Piece> = Vec::new();
    v.push(Piece { text: label, tone: Tone::DarkGray, bold: false });
    match pick {
        Some(b) => {
            let row = b.row;
            let t = role.queue_time(row);
            v.push(Piece { text: pad_right(t, SUMMARY_TIME_WIDTH), tone: color_for_time(t), bold: false });
            let code = code_for(row.name.as_str());
            let locked = app.locked.contains(code);
            let reg = string_from_chars(&region_piece_text(row));
            v.push(
                Piece {
                    text: pad_right(reg.as_str(), SUMMARY_REGION_WIDTH),
                    tone: if locked {
                        Tone::LightRed
                    } else {
                        Tone::Plain
                    },
                    bold: true,
                },
            );
            let (ping_text, ping_color) = match app.pings.get(code) {
                Some(ms) => {
                    let mut t: Vec<char> = Vec::new();
                    push_decimal(&mut t, ms as u64);
                    push_str(&mut t, " ms");
                    (string_from_chars(&t), color_for_ping(Some(ms)))
                },
                None => (String::from_str("—"), Tone::DarkGray),
            };
            v.push(Piece { text: pad_right(ping_text.as_str(), SUMMARY_PING_WIDTH), tone: ping_color, bold: false });
            let ghost cols = piece_views(v@);
            if b.similar > 0 {
                let mut t: Vec<char> = Vec::new();
                push_str(&mut t, "+");
                push_decimal(&mut t, b.similar as u64);
                push_str(&mut t, " ");
                push_str(&mut t, tr(l, TextKey::SummarySimilar));
                v.push(piece_of(&t, Tone::DarkGray, false));
            }
            assert(piece_views(v@) =~= pick_line(*app, key, role, *pick));
        },
        None => {
            v.push(piece("—", Tone::DarkGray, false));
            assert(piece_views(v@) =~= pick_line(*app, key, role, *pick));
        },
    }
    v
}

/// The two lines of the "Best Pick" panel for `summary`: killer, then survivor.
pub fn summary_lines(app: &App, summary: &Summary) -> (r: (Vec<Piece>, Vec<Piece>))
    ensures
        piece_views(r.0@) == pick_line(*app, TextKey::SummaryKiller, Role::Killer, summary.killer),
        piece_views(r.1@) == pick_line(*app, TextKey::SummarySurvivor, Role::Survivor, summary.survivor),
{
    (
        pick_line_pieces(app, TextKey::SummaryKiller, Role::Killer, &summary.killer),
        pick_line_pieces(app, TextKey::SummarySurvivor, Role::Survivor, &summary.survivor),
    )
}

/// The title of the "Best Pick" panel, with a space on each side.
pub fn summary_title(l: crate::i18n::Locale) -> (r: String)
    ensures
        r@ == " "@ + spec_tr(l, TextKey::SummaryTitle)@ + " "@,
{
    let mut t: Vec<char> = Vec::new();
    push_str(&mut t, " ");
    push_str(&mut t, tr(l, TextKey::SummaryTitle));
    push_str(&mut t, " ");
    string_from_chars(&t)
}

} // verus!
