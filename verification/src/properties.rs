//! Properties of the dashboard that span several operations: how the table
//! and the lock list are ordered, how the cursor moves, what the "Best Pick"
//! panel picks, and what a region lock leaves reachable.
use vstd::prelude::*;
use crate::api::{
    RegionQueueData, all_regions, disabled_codes, aws_code_of, lookup, api_to_aws_table, is_region,
    code_entry, codes_of, sat, NO_TIME, aws_to_api_table, api_name_of, normalized_names, word_name, spec_parse_time, spec_format_seconds, spec_event_countdown, round_half_up, flag_of, spec_format_seconds_opt, QueueReport, report_rows, mode_lookup, mode_rows, sample_lookup, sample_secs,
    pair_name, opt_seq, resolve_words, resolve_part, resolve_parts, nonempty_trimmed, spec_resolve_region_names,
};
use crate::app::{
    App, BestPick, Direction, Role, NEAR_BEST_TOLERANCE_SECS, shows_in, kept_prefix, kept_regions, moved,
    moved_cursor, clamped, next_sort, spec_normalize_key, rows_reformatted, row_reformatted, Key, AppAction, input_effect,
    key_effect, up_effect, down_effect, esc_effect, enter_effect, rows_in, shown_indices_in, shown_keys_in,
};
use crate::best::{
    is_pick, is_lowest_ping, min_secs_in, near_best_in, role_secs, pick_key, pick_keys, pinged_in,
    ping_key, ping_keys, measured_ping, lemma_first_min_unique,
};
use crate::config::{SortOrder, TimeFormat};
use crate::i18n::{Locale, TextKey, spec_tr, spec_time_diff};
use crate::firewall::{
    regions_to_block_of, str_views, allowed_pops_of, sdr_lookup, aws_to_sdr_table, blocked_subnets,
    relay_subnets, subnet_of, SdrPop,
};
use crate::order::{
    key_lt, stable_order, is_first_min, lemma_stable_order, lemma_key_lt_irreflexive,
    lemma_key_lt_asymmetric,
};
use crate::text::{capitalized, uppercase_char, all_digits, digits_value, decimal, decimal2, lemma_decimal_digits, lemma_decimal2_digits, seq_less, string_views, trim, lowercase, ws_words, split_on, join_spaced, is_ws, lemma_trim_noop, lemma_split_extend};

verus! {

/// The positions that `kept_prefix` keeps are increasing, below `n`, and
/// are exactly those whose row `keep` accepts.
pub proof fn lemma_kept_prefix(rows: Seq<RegionQueueData>, keep: spec_fn(RegionQueueData) -> bool, n: nat)
    requires
        n <= rows.len(),
    ensures
        forall|k: int|
            0 <= k < kept_prefix(rows, keep, n).len() ==> 0 <= #[trigger] kept_prefix(rows, keep, n)[k] < n
                && keep(rows[kept_prefix(rows, keep, n)[k]]),
        forall|i: int| 0 <= i < n && keep(rows[i]) ==> #[trigger] kept_prefix(rows, keep, n).contains(i),
    decreases n,
{
    if n > 0 {
        lemma_kept_prefix(rows, keep, (n - 1) as nat);
        let r = kept_prefix(rows, keep, (n - 1) as nat);
        let s = kept_prefix(rows, keep, n);
        assert forall|i: int| 0 <= i < n && keep(rows[i]) implies #[trigger] s.contains(i) by {
            if i < n - 1 {
                assert(r.contains(i));
                let k = choose|k: int| 0 <= k < r.len() && r[k] == i;
                assert(s[k] == i);
            } else {
                assert(s[s.len() - 1] == i);
            }
        }
    }
}

/// The table shows the rows of the current mode and no others, as many as
/// there are, ordered by their sort key; disabled rows come last.
pub proof fn lemma_table_rows(app: App)
    ensures
        app.display_rows().len() == app.shown_indices().len(),
        forall|p: int| 0 <= p < app.display_rows().len() ==> app.shows(#[trigger] app.display_rows()[p]),
        forall|i: int|
            0 <= i < app.queues@.len() && app.shows(app.queues@[i]) ==> app.display_rows().contains(
                #[trigger] app.queues@[i],
            ),
        forall|p: int, q: int|
            #![trigger app.display_rows()[p], app.display_rows()[q]]
            0 <= p < q < app.display_rows().len() ==> !key_lt(
                app.row_key(app.display_rows()[q]),
                app.row_key(app.display_rows()[p]),
            ),
        forall|p: int, q: int|
            #![trigger app.display_rows()[p], app.display_rows()[q]]
            0 <= p < q < app.display_rows().len() && app.display_rows()[p].disabled()
                ==> app.display_rows()[q].disabled(),
{
    let q = app.queues@;
    let keep = |r: RegionQueueData| shows_in(app.mode, r);
    let shown = app.shown_indices();
    let ks = app.shown_keys();
    let ord = stable_order(ks);
    let rows = app.display_rows();
    lemma_kept_prefix(q, keep, q.len());
    lemma_stable_order(ks);
    assert(rows.len() == shown.len());
    assert forall|p: int| 0 <= p < rows.len() implies rows[p] == q[shown[ord[p]]] && ks[ord[p]]
        == app.row_key(rows[p]) && app.shows(rows[p]) by {
        assert(0 <= ord[p] < shown.len());
        assert(0 <= shown[ord[p]] < q.len());
    }
    assert forall|i: int| 0 <= i < q.len() && app.shows(q[i]) implies rows.contains(#[trigger] q[i]) by {
        assert(shown.contains(i));
        let t = choose|t: int| 0 <= t < shown.len() && shown[t] == i;
        assert(ord.contains(t));
        let p = choose|p: int| 0 <= p < ord.len() && ord[p] == t;
        assert(rows[p] == q[i]);
    }
    assert forall|a: int, b: int|
        #![trigger rows[a], rows[b]]
        0 <= a < b < rows.len() implies !key_lt(app.row_key(rows[b]), app.row_key(rows[a])) && (
        rows[a].disabled() ==> rows[b].disabled()) by {
        assert(!key_lt(ks[ord[b]], ks[ord[a]]));
    }
}

/// Among the enabled rows of the table, the sort's column never goes down:
/// by the survivor time read from the survivor text when sorting by
/// survivor, by the killer time read from the killer text when sorting by
/// killer, by the region's measured ping (unmeasured last) when sorting by
/// ping, and by region name in the default order. Under the ping sort a
/// region without a measured ping comes after every region measured below
/// `u32::MAX` milliseconds.
/// Rows level on the sort's column come in order of region name. (Under
/// the ping sort this is stated of rows whose pings are both measured.)
pub proof fn lemma_sorted_by_column(app: App)
    ensures
        forall|p: int, q: int|
            #![trigger app.display_rows()[p], app.display_rows()[q]]
            0 <= p < q < app.display_rows().len() && !app.display_rows()[p].disabled()
                && !app.display_rows()[q].disabled() ==> {
                let a = app.display_rows()[p];
                let b = app.display_rows()[q];
                &&& app.sort == SortOrder::Survivor ==> spec_parse_time(a.survivor@) <= spec_parse_time(
                    b.survivor@,
                )
                &&& app.sort == SortOrder::Killer ==> spec_parse_time(a.killer@) <= spec_parse_time(b.killer@)
                &&& app.sort == SortOrder::Ping && measured_ping(app.pings@, a.name@) is Some && measured_ping(
                    app.pings@,
                    b.name@,
                ) is Some ==> measured_ping(app.pings@, a.name@)->0 <= measured_ping(app.pings@, b.name@)->0
                &&& app.sort == SortOrder::Default ==> !seq_less(b.name@, a.name@)
                &&& app.sort == SortOrder::Survivor && spec_parse_time(a.survivor@) == spec_parse_time(b.survivor@)
                    ==> !seq_less(b.name@, a.name@)
                &&& app.sort == SortOrder::Killer && spec_parse_time(a.killer@) == spec_parse_time(b.killer@)
                    ==> !seq_less(b.name@, a.name@)
                &&& app.sort == SortOrder::Ping && aws_code_of(a.name@) is Some && measured_ping(app.pings@, b.name@)
                    is Some && measured_ping(app.pings@, b.name@)->0 < u32::MAX ==> measured_ping(
                    app.pings@,
                    a.name@,
                ) is Some
                &&& app.sort == SortOrder::Ping && measured_ping(app.pings@, a.name@) is Some
                    && measured_ping(app.pings@, a.name@) == measured_ping(app.pings@, b.name@) ==> !seq_less(
                    b.name@,
                    a.name@,
                )
            },
{
    lemma_table_rows(app);
}

/// The rows of a queue report: one per region, in the table's order, for
/// each of the two mode keys the report holds. The rows from the "live"
/// samples come first and are labelled "Standard"; those from the
/// "live-event" samples follow and are labelled "Event". Each row carries
/// its region's country tag and queue-site name (its code where it has
/// none), the seconds of that region's sample in that mode, and those
/// seconds written in exact form (a dash where there are none).
pub proof fn lemma_report_row_modes(rep: QueueReport)
    ensures
        ({
            let rows = report_rows(rep);
            let live = mode_lookup(rep.modes@, "live"@);
            let event = mode_lookup(rep.modes@, "live-event"@);
            let ns: int = if live is Some { all_regions().len() as int } else { 0 };
            let ne: int = if event is Some { all_regions().len() as int } else { 0 };
            &&& rows.len() == ns + ne
            &&& forall|k: int|
                0 <= k < ns ==> {
                    let row = #[trigger] rows[k];
                    let code = all_regions()[k]@;
                    let sample = sample_lookup(live->0, code);
                    &&& row.2 == "Standard"@
                    &&& row.0 == (if flag_of(code) is Some { (flag_of(code)->0)@ } else { Seq::<char>::empty() })
                    &&& row.3 == spec_format_seconds_opt(row.5, TimeFormat::Exact)
                    &&& row.4 == spec_format_seconds_opt(row.6, TimeFormat::Exact)
                    &&& row.1 == (if api_name_of(code) is Some { (api_name_of(code)->0)@ } else { code })
                    &&& row.5 == (if sample is Some { sample_secs((sample->0).survivor) } else { None })
                    &&& row.6 == (if sample is Some { sample_secs((sample->0).killer) } else { None })
                }
            &&& forall|k: int|
                ns <= k < ns + ne ==> {
                    let row = #[trigger] rows[k];
                    let code = all_regions()[k - ns]@;
                    let sample = sample_lookup(event->0, code);
                    &&& row.2 == "Event"@
                    &&& row.0 == (if flag_of(code) is Some { (flag_of(code)->0)@ } else { Seq::<char>::empty() })
                    &&& row.3 == spec_format_seconds_opt(row.5, TimeFormat::Exact)
                    &&& row.4 == spec_format_seconds_opt(row.6, TimeFormat::Exact)
                    &&& row.1 == (if api_name_of(code) is Some { (api_name_of(code)->0)@ } else { code })
                    &&& row.5 == (if sample is Some { sample_secs((sample->0).survivor) } else { None })
                    &&& row.6 == (if sample is Some { sample_secs((sample->0).killer) } else { None })
                }
        }),
{
    let rows = report_rows(rep);
    let live = mode_lookup(rep.modes@, "live"@);
    let event = mode_lookup(rep.modes@, "live-event"@);
    let a = mode_rows("Standard"@, live);
    let b = mode_rows("Event"@, event);
    assert(rows == a + b);
    assert forall|k: int| 0 <= k < a.len() implies #[trigger] rows[k] == a[k] by {}
    assert forall|k: int| a.len() <= k < a.len() + b.len() implies #[trigger] rows[k] == b[k - a.len()] by {}
}

/// Exactly two decimal digits.
pub open spec fn two_digits(x: Seq<char>) -> bool {
    x.len() == 2 && all_digits(x)
}

/// The exact event countdown reads back to the time left: its fields are
/// decimal digits, hours below 24, minutes and seconds below 60 and written
/// with two digits, and days, hours, minutes and seconds add up to the
/// remaining seconds. Days are shown from one day on, hours from one hour on,
/// and minutes always.
pub proof fn lemma_countdown_reads_back(remaining: u64)
    ensures
        remaining >= 86400 ==> exists|d: Seq<char>, h: Seq<char>, m: Seq<char>, s: Seq<char>|
            {
                &&& all_digits(d) && d.len() >= 1 && two_digits(h) && two_digits(m) && two_digits(s)
                &&& spec_event_countdown(remaining, TimeFormat::Exact) == d + seq!['d', ' '] + h + seq![':'] + m
                    + seq![':'] + s
                &&& digits_value(h) < 24 && digits_value(m) < 60 && digits_value(s) < 60
                &&& digits_value(d) * 86400 + digits_value(h) * 3600 + digits_value(m) * 60 + digits_value(s)
                    == remaining
            },
        3600 <= remaining < 86400 ==> exists|h: Seq<char>, m: Seq<char>, s: Seq<char>|
            {
                &&& two_digits(h) && two_digits(m) && two_digits(s)
                &&& spec_event_countdown(remaining, TimeFormat::Exact) == h + seq![':'] + m + seq![':'] + s
                &&& digits_value(m) < 60 && digits_value(s) < 60
                &&& digits_value(h) * 3600 + digits_value(m) * 60 + digits_value(s) == remaining
            },
        60 <= remaining < 3600 ==> exists|m: Seq<char>, s: Seq<char>|
            {
                &&& two_digits(m) && two_digits(s)
                &&& spec_event_countdown(remaining, TimeFormat::Exact) == m + seq![':'] + s
                &&& digits_value(s) < 60
                &&& digits_value(m) * 60 + digits_value(s) == remaining
            },
        remaining < 60 ==> exists|s: Seq<char>|
            {
                &&& two_digits(s)
                &&& spec_event_countdown(remaining, TimeFormat::Exact) == seq!['0', '0', ':'] + s
                &&& digits_value(s) == remaining
            },
{
    let days = remaining / 86400;
    let hours = (remaining % 86400) / 3600;
    let mins = (remaining % 3600) / 60;
    let secs = remaining % 60;
    assert(days * 86400 + hours * 3600 + mins * 60 + secs == remaining) by (nonlinear_arith)
        requires
            days == remaining / 86400,
            hours == (remaining % 86400) / 3600,
            mins == (remaining % 3600) / 60,
            secs == remaining % 60,
    ;
    assert(hours < 24 && mins < 60 && secs < 60);
    lemma_decimal_digits(days as nat);
    lemma_decimal2_digits(hours as nat);
    lemma_decimal2_digits(mins as nat);
    lemma_decimal2_digits(secs as nat);
    let d = decimal(days as nat);
    let h = decimal2(hours as nat);
    let m = decimal2(mins as nat);
    let s = decimal2(secs as nat);
    if remaining >= 86400 {
        assert(spec_event_countdown(remaining, TimeFormat::Exact) == d + seq!['d', ' '] + h + seq![':'] + m
            + seq![':'] + s);
    } else if remaining >= 3600 {
        assert(days == 0);
        assert(spec_event_countdown(remaining, TimeFormat::Exact) == h + seq![':'] + m + seq![':'] + s);
    } else if remaining >= 60 {
        assert(days == 0 && hours == 0);
        assert(spec_event_countdown(remaining, TimeFormat::Exact) == m + seq![':'] + s);
    } else {
        assert(spec_event_countdown(remaining, TimeFormat::Exact) == seq!['0', '0', ':'] + s);
    }
}

/// How long ago the data was updated, as the footer shows it: under a minute
/// "just now"; under an hour the whole minutes elapsed; from an hour on the
/// whole hours and the whole minutes left over. Reading the numbers back
/// gives the elapsed time to within the minute below it.
pub proof fn lemma_time_diff_reads_back(locale: Locale, diff: i64)
    ensures
        diff < 60 ==> spec_time_diff(locale, diff) == spec_tr(locale, TextKey::TimeJustNow)@,
        60 <= diff < 3600 ==> exists|m: Seq<char>|
            {
                &&& all_digits(m) && m.len() >= 1
                &&& spec_time_diff(locale, diff) == m + match locale {
                    Locale::En => "m ago"@,
                    Locale::Ru => " мин. назад"@,
                }
                &&& digits_value(m) * 60 <= diff < digits_value(m) * 60 + 60
            },
        diff >= 3600 ==> exists|h: Seq<char>, m: Seq<char>|
            {
                &&& all_digits(h) && h.len() >= 1 && all_digits(m) && m.len() >= 1
                &&& spec_time_diff(locale, diff) == match locale {
                    Locale::En => h + "h "@ + m + "m ago"@,
                    Locale::Ru => h + " ч. "@ + m + " мин. назад"@,
                }
                &&& digits_value(m) < 60
                &&& digits_value(h) * 3600 + digits_value(m) * 60 <= diff < digits_value(h) * 3600 + digits_value(m)
                    * 60 + 60
            },
{
    if 60 <= diff < 3600 {
        lemma_decimal_digits((diff / 60) as nat);
        assert(spec_time_diff(locale, diff) == decimal((diff / 60) as nat) + match locale {
            Locale::En => "m ago"@,
            Locale::Ru => " мин. назад"@,
        });
    } else if diff >= 3600 {
        let hours = diff / 3600;
        let mins = (diff % 3600) / 60;
        assert(hours * 3600 + mins * 60 <= diff < hours * 3600 + mins * 60 + 60) by (nonlinear_arith)
            requires
                diff >= 3600,
                hours == diff / 3600,
                mins == (diff % 3600) / 60,
        ;
        lemma_decimal_digits(hours as nat);
        lemma_decimal_digits(mins as nat);
        let h = decimal(hours as nat);
        let m = decimal(mins as nat);
        assert(spec_time_diff(locale, diff) == match locale {
            Locale::En => h + "h "@ + m + "m ago"@,
            Locale::Ru => h + " ч. "@ + m + " мин. назад"@,
        });
    }
}

/// `n` whole units is the time `r` rounded to the nearest unit, halves up:
/// `n * unit - unit / 2 <= r < n * unit + unit / 2`.
pub open spec fn nearest_units(r: int, unit: int, n: int) -> bool {
    2 * n * unit <= 2 * r + unit && 2 * r + unit < 2 * n * unit + 2 * unit
}

/// The rounded event countdown is the time left rounded to the nearest
/// whole unit, halves up: days from one day on, else hours from one hour on,
/// else minutes from one minute on, else the seconds themselves. Where the
/// rounding reaches the next unit it is shown as one of that unit.
pub proof fn lemma_rounded_countdown(remaining: u64)
    ensures
        remaining >= 86400 ==> exists|d: Seq<char>|
            {
                &&& all_digits(d) && d.len() >= 1
                &&& spec_event_countdown(remaining, TimeFormat::Rounded) == d + seq!['d']
                &&& nearest_units(remaining as int, 86400, digits_value(d) as int)
            },
        3600 <= remaining < 86400 ==> (if 2 * remaining + 3600 >= 2 * 24 * 3600 {
            spec_event_countdown(remaining, TimeFormat::Rounded) == seq!['1', 'd']
        } else {
            exists|h: Seq<char>|
                {
                    &&& all_digits(h) && h.len() >= 1
                    &&& spec_event_countdown(remaining, TimeFormat::Rounded) == h + seq!['h']
                    &&& nearest_units(remaining as int, 3600, digits_value(h) as int)
                }
        }),
        60 <= remaining < 3600 ==> (if 2 * remaining + 60 >= 2 * 60 * 60 {
            spec_event_countdown(remaining, TimeFormat::Rounded) == seq!['1', 'h']
        } else {
            exists|m: Seq<char>|
                {
                    &&& all_digits(m) && m.len() >= 1
                    &&& spec_event_countdown(remaining, TimeFormat::Rounded) == m + seq!['m']
                    &&& nearest_units(remaining as int, 60, digits_value(m) as int)
                }
        }),
        remaining < 60 ==> exists|s: Seq<char>|
            {
                &&& all_digits(s) && s.len() >= 1
                &&& spec_event_countdown(remaining, TimeFormat::Rounded) == s + seq!['s']
                &&& digits_value(s) == remaining
            },
{
    let r = remaining as nat;
    if remaining >= 86400 {
        lemma_round_half_up(r, 86400);
        lemma_decimal_digits(round_half_up(r, 86400));
    } else if remaining >= 3600 {
        lemma_round_half_up(r, 3600);
        lemma_decimal_digits(round_half_up(r, 3600));
    } else if remaining >= 60 {
        lemma_round_half_up(r, 60);
        lemma_decimal_digits(round_half_up(r, 60));
    } else {
        lemma_decimal_digits(r % 60);
        assert(r % 60 == r);
    }
}

proof fn lemma_round_half_up(r: nat, unit: nat)
    requires
        unit == 60 || unit == 3600 || unit == 86400,
    ensures
        nearest_units(r as int, unit as int, round_half_up(r, unit) as int),
        round_half_up(r, unit) >= 24 <==> 2 * r + unit >= 2 * 24 * unit,
        round_half_up(r, unit) >= 60 <==> 2 * r + unit >= 2 * 60 * unit,
{
    let q = r / unit;
    let m = r % unit;
    assert(r == q * unit + m && m < unit) by (nonlinear_arith)
        requires
            unit > 0,
            q == r / unit,
            m == r % unit,
    ;
    assert(unit % 2 == 0);
    let n = round_half_up(r, unit);
    if m >= unit / 2 {
        assert(n == q + 1);
    } else {
        assert(n == q);
    }
    assert(2 * n * unit <= 2 * r + unit && 2 * r + unit < 2 * n * unit + 2 * unit) by (nonlinear_arith)
        requires
            r == q * unit + m,
            m < unit,
            unit % 2 == 0,
            m >= unit / 2 ==> n == q + 1,
            m < unit / 2 ==> n == q,
    ;
    assert(n >= 24 <==> 2 * r + unit >= 2 * 24 * unit) by (nonlinear_arith)
        requires
            2 * n * unit <= 2 * r + unit,
            2 * r + unit < 2 * n * unit + 2 * unit,
            unit > 0,
    ;
    assert(n >= 60 <==> 2 * r + unit >= 2 * 60 * unit) by (nonlinear_arith)
        requires
            2 * n * unit <= 2 * r + unit,
            2 * r + unit < 2 * n * unit + 2 * unit,
            unit > 0,
    ;
}

/// A rounded queue time is the time rounded to the nearest whole unit,
/// halves up: seconds under a minute, minutes under an hour (shown as one
/// hour where they round up to it), hours from an hour on.
pub proof fn lemma_rounded_format(sec: u32)
    ensures
        sec == 0 ==> spec_format_seconds(sec, TimeFormat::Rounded) == seq!['—'],
        0 < sec < 60 ==> exists|s: Seq<char>|
            {
                &&& all_digits(s) && s.len() >= 1
                &&& spec_format_seconds(sec, TimeFormat::Rounded) == s + seq!['s']
                &&& digits_value(s) == sec
            },
        60 <= sec < 3600 ==> (if 2 * sec + 60 >= 2 * 60 * 60 {
            spec_format_seconds(sec, TimeFormat::Rounded) == seq!['1', 'h']
        } else {
            exists|m: Seq<char>|
                {
                    &&& all_digits(m) && m.len() >= 1
                    &&& spec_format_seconds(sec, TimeFormat::Rounded) == m + seq!['m']
                    &&& nearest_units(sec as int, 60, digits_value(m) as int)
                }
        }),
        sec >= 3600 ==> exists|h: Seq<char>|
            {
                &&& all_digits(h) && h.len() >= 1
                &&& spec_format_seconds(sec, TimeFormat::Rounded) == h + seq!['h']
                &&& nearest_units(sec as int, 3600, digits_value(h) as int)
            },
{
    if 0 < sec < 60 {
        lemma_decimal_digits(sec as nat);
    } else if 60 <= sec < 3600 {
        let n = (sec + 30) / 60;
        assert(2 * n * 60 <= 2 * sec + 60 && 2 * sec + 60 < 2 * n * 60 + 2 * 60) by (nonlinear_arith)
            requires
                n == (sec + 30) / 60,
        ;
        lemma_decimal_digits(n as nat);
    } else if sec >= 3600 {
        let n = (sec + 1800) / 3600;
        assert(2 * n * 3600 <= 2 * sec + 3600 && 2 * sec + 3600 < 2 * n * 3600 + 2 * 3600) by (nonlinear_arith)
            requires
                n == (sec + 1800) / 3600,
        ;
        lemma_decimal_digits(n as nat);
    }
}

/// The lock list holds exactly the game's regions whose Standard queue is
/// not disabled, ordered by ping (unmeasured last) and then by name.
pub proof fn lemma_lock_list(app: App)
    ensures
        forall|p: int|
            0 <= p < app.modal_regions().len() ==> all_regions().contains(#[trigger] app.modal_regions()[p])
                && !disabled_codes(app.queues@).contains(app.modal_regions()[p]@),
        forall|i: int|
            0 <= i < all_regions().len() && !disabled_codes(app.queues@).contains(all_regions()[i]@)
                ==> app.modal_regions().contains(#[trigger] all_regions()[i]),
        forall|p: int, q: int|
            #![trigger app.modal_regions()[p], app.modal_regions()[q]]
            0 <= p < q < app.modal_regions().len() ==> !key_lt(
                app.modal_key(app.modal_regions()[q]@),
                app.modal_key(app.modal_regions()[p]@),
            ),
{
    let d = disabled_codes(app.queues@);
    let kept = app.modal_kept();
    let ks = app.modal_keys();
    let ord = stable_order(ks);
    let regions = app.modal_regions();
    lemma_kept_regions(d, all_regions().len());
    lemma_stable_order(ks);
    assert forall|p: int| 0 <= p < regions.len() implies regions[p] == all_regions()[kept[ord[p]]] && ks[ord[p]]
        == app.modal_key(regions[p]@) && all_regions().contains(regions[p]) && !d.contains(regions[p]@) by {
        assert(0 <= ord[p] < kept.len());
        assert(0 <= kept[ord[p]] < all_regions().len());
    }
    assert forall|i: int| 0 <= i < all_regions().len() && !d.contains(all_regions()[i]@) implies regions.contains(
        #[trigger] all_regions()[i],
    ) by {
        assert(kept.contains(i));
        let t = choose|t: int| 0 <= t < kept.len() && kept[t] == i;
        assert(ord.contains(t));
        let p = choose|p: int| 0 <= p < ord.len() && ord[p] == t;
        assert(regions[p] == all_regions()[i]);
    }
    assert forall|a: int, b: int|
        #![trigger regions[a], regions[b]]
        0 <= a < b < regions.len() implies !key_lt(app.modal_key(regions[b]@), app.modal_key(regions[a]@)) by {
        assert(!key_lt(ks[ord[b]], ks[ord[a]]));
    }
}

/// The positions that `kept_regions` keeps are below `n` and are exactly
/// those of regions outside `d`.
pub proof fn lemma_kept_regions(d: Set<Seq<char>>, n: nat)
    requires
        n <= all_regions().len(),
    ensures
        forall|k: int|
            0 <= k < kept_regions(d, n).len() ==> 0 <= #[trigger] kept_regions(d, n)[k] < n && !d.contains(
                all_regions()[kept_regions(d, n)[k]]@,
            ),
        forall|i: int| 0 <= i < n && !d.contains(all_regions()[i]@) ==> #[trigger] kept_regions(d, n).contains(i),
    decreases n,
{
    if n > 0 {
        lemma_kept_regions(d, (n - 1) as nat);
        let r = kept_regions(d, (n - 1) as nat);
        let s = kept_regions(d, n);
        assert forall|i: int| 0 <= i < n && !d.contains(all_regions()[i]@) implies #[trigger] s.contains(i) by {
            if i < n - 1 {
                assert(r.contains(i));
                let k = choose|k: int| 0 <= k < r.len() && r[k] == i;
                assert(s[k] == i);
            } else {
                assert(s[s.len() - 1] == i);
            }
        }
    }
}

/// One step down and one step up bring a selection inside the list back to
/// where it was, and the other way round; a step keeps a selection inside
/// the list.
pub proof fn lemma_moves_undo(sel: usize, total: nat)
    requires
        sel < total,
        total <= usize::MAX,
    ensures
        moved(moved(Some(sel), total, Direction::Down), total, Direction::Up) == Some(sel),
        moved(moved(Some(sel), total, Direction::Up), total, Direction::Down) == Some(sel),
        moved(Some(sel), total, Direction::Down) matches Some(d) && d < total,
        moved(Some(sel), total, Direction::Up) matches Some(u) && u < total,
        moved_cursor(moved_cursor(sel, total, Direction::Down), total, Direction::Up) == sel,
        moved_cursor(moved_cursor(sel, total, Direction::Up), total, Direction::Down) == sel,
{
}

/// A clamped selection is inside the list: one beyond the end moves to the
/// last row, one inside stays, none stays none.
pub proof fn lemma_clamp_bounds(sel: Option<usize>, total: nat)
    ensures
        clamped(sel, total) matches Some(i) ==> i < total,
        total > 0 && sel is Some ==> clamped(sel, total) is Some,
        sel is None ==> clamped(sel, total) is None,
        (sel matches Some(i) && i < total) ==> clamped(sel, total) == sel,
{
}

/// The sort key cycles Killer, Survivor, Ping and back; Default is only
/// ever a starting point.
pub proof fn lemma_sort_cycle(s: SortOrder)
    ensures
        next_sort(s) != SortOrder::Default,
        s != SortOrder::Default ==> next_sort(next_sort(next_sort(s))) == s,
        next_sort(SortOrder::Default) == SortOrder::Killer,
{
}

/// Reading a key on the Russian layout twice changes nothing more.
pub proof fn lemma_normalize_idempotent(c: char)
    ensures
        spec_normalize_key(spec_normalize_key(c)) == spec_normalize_key(c),
{
}

/// The fastest time of a role is at most that of every row, and some row
/// has it.
pub proof fn lemma_min_secs(rows: Seq<RegionQueueData>, role: Role)
    ensures
        forall|i: int| 0 <= i < rows.len() ==> min_secs_in(rows, role) <= role_secs(role, #[trigger] rows[i]),
        rows.len() > 0 ==> exists|i: int| 0 <= i < rows.len() && role_secs(role, #[trigger] rows[i]) == min_secs_in(rows, role),
    decreases rows.len(),
{
    if rows.len() > 0 {
        let d = rows.drop_last();
        lemma_min_secs(d, role);
        assert forall|i: int| 0 <= i < rows.len() implies min_secs_in(rows, role) <= role_secs(role, #[trigger] rows[i]) by {
            if i < d.len() {
                assert(rows[i] == d[i]);
            }
        }
        if role_secs(role, rows.last()) < min_secs_in(d, role) || d.len() == 0 {
            assert(role_secs(role, rows[rows.len() - 1]) == min_secs_in(rows, role));
        } else {
            let i = choose|i: int| 0 <= i < d.len() && role_secs(role, #[trigger] d[i]) == min_secs_in(d, role);
            assert(rows[i] == d[i]);
        }
    }
}

/// The pick for a role is one of the rows; its time is within the tolerance
/// of the fastest time, which no row beats; no other candidate within the
/// tolerance has a smaller key (ping, then time, then name). There is no
/// pick exactly when no row has a time.
pub proof fn lemma_pick(rows: Seq<RegionQueueData>, pings: Map<Seq<char>, u32>, role: Role, p: Option<BestPick>)
    requires
        is_pick(rows, pings, role, p),
    ensures
        forall|i: int| 0 <= i < rows.len() ==> min_secs_in(rows, role) <= role_secs(role, #[trigger] rows[i]),
        p is None <==> min_secs_in(rows, role) >= NO_TIME,
        p matches Some(b) ==> {
            &&& rows.contains(*b.row)
            &&& role_secs(role, *b.row) <= sat(min_secs_in(rows, role) + NEAR_BEST_TOLERANCE_SECS)
            &&& forall|j: int|
                0 <= j < near_best_in(rows, role).len() ==> !key_lt(
                    pick_key(pings, role, #[trigger] near_best_in(rows, role)[j]),
                    pick_key(pings, role, *b.row),
                )
        },
{
    lemma_min_secs(rows, role);
    if let Some(b) = p {
        let c = near_best_in(rows, role);
        let limit = sat(min_secs_in(rows, role) + NEAR_BEST_TOLERANCE_SECS);
        let pred = |r: RegionQueueData| role_secs(role, r) <= limit;
        let ks = pick_keys(pings, role, c);
        let k = choose|k: int| is_first_min(ks, k) && c[k] == *b.row;
        rows.lemma_filter_pred(pred, k);
        assert(c.contains(c[k]));
        rows.lemma_filter_contains_rev(pred, c[k]);
        assert forall|j: int| 0 <= j < c.len() implies !key_lt(pick_key(pings, role, #[trigger] c[j]), pick_key(pings, role, *b.row)) by {
            assert(ks[j] == pick_key(pings, role, c[j]));
            assert(ks[k] == pick_key(pings, role, c[k]));
            if j < k {
                lemma_key_lt_asymmetric(ks[k], ks[j]);
            } else if j == k {
                lemma_key_lt_irreflexive(ks[k]);
            }
        }
    }
}

/// The rows that the panel considers are rows of the table that are not
/// disabled.
pub proof fn lemma_eligible(app: App)
    ensures
        forall|r: RegionQueueData| #[trigger] app.eligible_rows().contains(r) ==> !r.disabled() && app.display_rows().contains(r),
{
    let pred = |r: RegionQueueData| !r.disabled();
    assert forall|r: RegionQueueData| #[trigger] app.eligible_rows().contains(r) implies !r.disabled() && app.display_rows().contains(r) by {
        let e = app.eligible_rows();
        let i = choose|i: int| 0 <= i < e.len() && e[i] == r;
        app.display_rows().lemma_filter_pred(pred, i);
        app.display_rows().lemma_filter_contains_rev(pred, r);
    }
}

/// The lowest-ping row is one of the rows, has a measured ping, and no row
/// with a measured ping has a smaller key (ping, then name). There is none
/// exactly when no row has a measured ping.
pub proof fn lemma_lowest_ping(rows: Seq<RegionQueueData>, pings: Map<Seq<char>, u32>, p: Option<&RegionQueueData>)
    requires
        is_lowest_ping(rows, pings, p),
    ensures
        p is None <==> pinged_in(rows, pings).len() == 0,
        p matches Some(r) ==> {
            &&& rows.contains(*r)
            &&& measured_ping(pings, r.name@) is Some
            &&& forall|j: int|
                0 <= j < pinged_in(rows, pings).len() ==> !key_lt(
                    ping_key(pings, #[trigger] pinged_in(rows, pings)[j]),
                    ping_key(pings, *r),
                )
        },
{
    if let Some(r) = p {
        let c = pinged_in(rows, pings);
        let pred = |x: RegionQueueData| measured_ping(pings, x.name@) is Some;
        let ks = ping_keys(pings, c);
        let k = choose|k: int| is_first_min(ks, k) && c[k] == *r;
        rows.lemma_filter_pred(pred, k);
        assert(c.contains(c[k]));
        rows.lemma_filter_contains_rev(pred, c[k]);
        assert forall|j: int| 0 <= j < c.len() implies !key_lt(ping_key(pings, #[trigger] c[j]), ping_key(pings, *r)) by {
            assert(ks[j] == ping_key(pings, c[j]));
            assert(ks[k] == ping_key(pings, c[k]));
            if j < k {
                lemma_key_lt_asymmetric(ks[k], ks[j]);
            } else if j == k {
                lemma_key_lt_irreflexive(ks[k]);
            }
        }
    }
}

/// A region lock blocks exactly the regions that are neither selected nor
/// `us-east-1`: the selected regions stay reachable, and so does `us-east-1`,
/// which hosts the game's login services.
pub proof fn lemma_lock_spares(sel: Seq<Seq<char>>)
    ensures
        forall|r: Seq<char>|
            #[trigger] regions_to_block_of(sel).contains(r) ==> r != "us-east-1"@ && !sel.contains(r)
                && str_views(all_regions()).contains(r),
        forall|i: int|
            0 <= i < all_regions().len() && all_regions()[i]@ != "us-east-1"@ && !sel.contains(all_regions()[i]@)
                ==> #[trigger] regions_to_block_of(sel).contains(all_regions()[i]@),
{
    let names = str_views(all_regions());
    let pred = |r: Seq<char>| r != "us-east-1"@ && !sel.contains(r);
    assert forall|r: Seq<char>| #[trigger] regions_to_block_of(sel).contains(r) implies r != "us-east-1"@
        && !sel.contains(r) && names.contains(r) by {
        let b = regions_to_block_of(sel);
        let k = choose|k: int| 0 <= k < b.len() && b[k] == r;
        names.lemma_filter_pred(pred, k);
        names.lemma_filter_contains_rev(pred, r);
    }
    assert forall|i: int|
        0 <= i < all_regions().len() && all_regions()[i]@ != "us-east-1"@ && !sel.contains(all_regions()[i]@)
            implies #[trigger] regions_to_block_of(sel).contains(all_regions()[i]@) by {
        assert(names[i] == all_regions()[i]@);
        names.lemma_filter_contains(pred, i);
    }
}

/// Merging new pings keeps every region measured before: a region measured
/// again takes its new value, one that timed out keeps its old value.
pub proof fn lemma_merge_keeps(before: Map<Seq<char>, u32>, newer: Map<Seq<char>, u32>)
    ensures
        forall|k: Seq<char>| #[trigger] before.union_prefer_right(newer).dom().contains(k) <==> before.dom().contains(k)
            || newer.dom().contains(k),
        forall|k: Seq<char>| newer.dom().contains(k) ==> #[trigger] before.union_prefer_right(newer)[k] == newer[k],
        forall|k: Seq<char>|
            before.dom().contains(k) && !newer.dom().contains(k) ==> #[trigger] before.union_prefer_right(newer)[k]
                == before[k],
{
}

/// The value that a table of pairs gives for a key is the second part of
/// a pair whose first part is that key.
pub proof fn lemma_lookup_value(t: Seq<(&'static str, &'static str)>, key: Seq<char>)
    ensures
        lookup(t, key) matches Some(v) ==> exists|i: int|
            0 <= i < t.len() && (#[trigger] t[i]).1 == v && t[i].0@ == key,
    decreases t.len(),
{
    if t.len() > 0 && t[0].0@ != key {
        lemma_lookup_value(t.drop_first(), key);
        if let Some(v) = lookup(t, key) {
            let i = choose|i: int|
                0 <= i < t.drop_first().len() && (#[trigger] t.drop_first()[i]).1 == v
                    && t.drop_first()[i].0@ == key;
            assert(t[i + 1] == t.drop_first()[i]);
        }
    }
}

/// In a table whose keys all differ, each key gives the value beside it.
pub proof fn lemma_lookup_at(t: Seq<(&'static str, &'static str)>, i: int)
    requires
        0 <= i < t.len(),
        forall|j: int, k: int| 0 <= j < k < t.len() ==> (#[trigger] t[j]).0@ != (#[trigger] t[k]).0@,
    ensures
        lookup(t, t[i].0@) == Some(t[i].1),
    decreases i,
{
    if i > 0 {
        let u = t.drop_first();
        assert forall|j: int, k: int| 0 <= j < k < u.len() implies (#[trigger] u[j]).0@ != (#[trigger] u[k]).0@ by {
            assert(u[j] == t[j + 1]);
            assert(u[k] == t[k + 1]);
        }
        lemma_lookup_at(u, i - 1);
        assert(u[i - 1] == t[i]);
        assert(t[0].0@ != t[i].0@);
    }
}

/// Every code that region resolution gives is one of the game's regions.
pub proof fn lemma_codes_are_regions(names: Seq<Seq<char>>)
    ensures
        forall|i: int| 0 <= i < codes_of(names).len() ==> is_region(#[trigger] codes_of(names)[i]),
    decreases names.len(),
{
    if names.len() > 0 {
        lemma_codes_are_regions(names.drop_last());
        let n = names.last();
        let e = code_entry(n);
        let c = codes_of(names);
        let d = codes_of(names.drop_last());
        if aws_code_of(n) is Some {
            lemma_lookup_value(api_to_aws_table(), n);
            let v = aws_code_of(n)->0;
            let i = choose|i: int| 0 <= i < api_to_aws_table().len() && (#[trigger] api_to_aws_table()[i]).1 == v;
            assert(api_to_aws_table()[i].1 == all_regions()[i]);
            assert(is_region(v@));
        }
        assert forall|i: int| 0 <= i < c.len() implies is_region(#[trigger] c[i]) by {
            if i < d.len() {
                assert(c[i] == d[i]);
            } else {
                assert(c[i] == e[i - d.len()]);
            }
        }
    }
}

/// Showing the rows in one format and then in another gives the rows that
/// showing them in the second format at once gives: the times read as
/// before, the texts in the second format.
pub proof fn lemma_reformat_twice(
    rows: Seq<RegionQueueData>,
    mid: Seq<RegionQueueData>,
    back: Seq<RegionQueueData>,
    first: TimeFormat,
    second: TimeFormat,
)
    requires
        rows_reformatted(rows, mid, first),
        rows_reformatted(mid, back, second),
    ensures
        rows_reformatted(rows, back, second),
{
    assert forall|i: int| 0 <= i < back.len() implies {
        let o = crate::app::reformatted(rows[i], second);
        let n = #[trigger] back[i];
        &&& n.flag == o.flag
        &&& n.name == o.name
        &&& n.mode == o.mode
        &&& n.survivor_secs == o.survivor_secs
        &&& n.killer_secs == o.killer_secs
        &&& n.survivor@ == crate::api::spec_format_seconds_opt(n.survivor_secs, second)
        &&& n.killer@ == crate::api::spec_format_seconds_opt(n.killer_secs, second)
    } by {
        crate::api::lemma_dash_has_no_time();
    }
}

/// The same for one row, as `RegionQueueData::reformat` describes it:
/// reformatting in one format and then in another equals reformatting
/// straight into the second, and the second reformat changes nothing more.
pub proof fn lemma_row_reformat_twice(
    r0: RegionQueueData,
    r1: RegionQueueData,
    r2: RegionQueueData,
    first: TimeFormat,
    second: TimeFormat,
)
    requires
        row_reformatted(r0, r1, first),
        row_reformatted(r1, r2, second),
    ensures
        row_reformatted(r0, r2, second),
        r2.survivor_secs == r1.survivor_secs,
        r2.killer_secs == r1.killer_secs,
{
    crate::api::lemma_dash_has_no_time();
}

/// The pick for a role is determined by the rows and the pings: two picks
/// that both meet its description are the same row with the same count.
pub proof fn lemma_pick_determined(
    rows: Seq<RegionQueueData>,
    pings: Map<Seq<char>, u32>,
    role: Role,
    p: Option<BestPick>,
    q: Option<BestPick>,
)
    requires
        is_pick(rows, pings, role, p),
        is_pick(rows, pings, role, q),
    ensures
        p is None <==> q is None,
        p matches Some(a) ==> (q matches Some(b) && *a.row == *b.row && a.similar == b.similar),
{
    if let (Some(a), Some(b)) = (p, q) {
        let c = near_best_in(rows, role);
        let ks = pick_keys(pings, role, c);
        let i = choose|k: int| is_first_min(ks, k) && c[k] == *a.row;
        let j = choose|k: int| is_first_min(ks, k) && c[k] == *b.row;
        lemma_first_min_unique(ks, i, j);
    }
}

/// Every relay site of a selected region stays open.
pub proof fn lemma_selected_relays_open(sel: Seq<Seq<char>>)
    ensures
        forall|i: int, p: &'static str|
            0 <= i < sel.len() && (sdr_lookup(aws_to_sdr_table(), #[trigger] sel[i]) matches Some(ps) && ps.contains(p))
                ==> #[trigger] allowed_pops_of(sel).contains(p@),
    decreases sel.len(),
{
    if sel.len() > 0 {
        let d = sel.drop_last();
        lemma_selected_relays_open(d);
        assert forall|i: int, p: &'static str|
            0 <= i < sel.len() && (sdr_lookup(aws_to_sdr_table(), #[trigger] sel[i]) matches Some(ps) && ps.contains(p))
                implies #[trigger] allowed_pops_of(sel).contains(p@) by {
            let ps = sdr_lookup(aws_to_sdr_table(), sel[i])->0;
            let k = choose|k: int| 0 <= k < ps.len() && ps[k] == p;
            if i < d.len() {
                assert(d[i] == sel[i]);
                assert(allowed_pops_of(d).contains(p@));
                let j = choose|j: int| 0 <= j < allowed_pops_of(d).len() && allowed_pops_of(d)[j] == p@;
                assert(allowed_pops_of(sel)[j] == p@);
            } else {
                let base = allowed_pops_of(d);
                assert(allowed_pops_of(sel)[base.len() + k] == str_views(ps)[k]);
            }
        }
    }
}

/// The address of the `j`-th relay of a site.
pub open spec fn relay_address(p: SdrPop, j: int) -> Seq<char> {
    (p.relays->0)@[j]@
}

/// Whether a site lists a `j`-th relay.
pub open spec fn has_relay(p: SdrPop, j: int) -> bool {
    p.relays matches Some(rs) && 0 <= j < rs@.len()
}

/// `n` is the subnet of a relay of a site that is not allowed.
pub open spec fn from_blocked_site(pops: Seq<SdrPop>, allowed: Seq<Seq<char>>, n: Seq<char>) -> bool {
    exists|i: int, j: int|
        #![trigger relay_address(pops[i], j)]
        0 <= i < pops.len() && !allowed.contains(pops[i].code@) && has_relay(pops[i], j) && subnet_of(
            relay_address(pops[i], j),
        ) == Some(n)
}

/// Each blocked relay subnet comes from a relay of a site that is not
/// allowed.
pub proof fn lemma_blocked_relays_not_allowed(pops: Seq<SdrPop>, allowed: Seq<Seq<char>>)
    ensures
        forall|k: int|
            0 <= k < blocked_subnets(pops, allowed).len() ==> from_blocked_site(
                pops,
                allowed,
                #[trigger] blocked_subnets(pops, allowed)[k],
            ),
    decreases pops.len(),
{
    if pops.len() > 0 {
        let d = pops.drop_last();
        lemma_blocked_relays_not_allowed(d, allowed);
        let b = blocked_subnets(pops, allowed);
        let bd = blocked_subnets(d, allowed);
        let last = pops.last();
        assert forall|k: int| 0 <= k < b.len() implies from_blocked_site(pops, allowed, #[trigger] b[k]) by {
            if k < bd.len() {
                assert(b[k] == bd[k]);
                assert(from_blocked_site(d, allowed, bd[k]));
                let (i, j) = choose|i: int, j: int|
                    #![trigger relay_address(d[i], j)]
                    0 <= i < d.len() && !allowed.contains(d[i].code@) && has_relay(d[i], j) && subnet_of(
                        relay_address(d[i], j),
                    ) == Some(bd[k]);
                assert(pops[i] == d[i]);
                assert(relay_address(pops[i], j) == relay_address(d[i], j));
            } else {
                let rs = last.relays->0;
                lemma_relay_subnets_from(string_views(rs@));
                let j = choose|j: int|
                    0 <= j < string_views(rs@).len() && subnet_of(#[trigger] string_views(rs@)[j]) == Some(
                        relay_subnets(string_views(rs@))[k - bd.len()],
                    );
                assert(string_views(rs@)[j] == rs@[j]@);
                assert(pops[pops.len() - 1] == last);
                assert(relay_address(pops[pops.len() - 1], j) == rs@[j]@);
            }
        }
    }
}

/// Each subnet of a list of relays is the subnet of one of them.
pub proof fn lemma_relay_subnets_from(ips: Seq<Seq<char>>)
    ensures
        forall|k: int|
            #![trigger relay_subnets(ips)[k]]
            0 <= k < relay_subnets(ips).len() ==> exists|j: int|
                0 <= j < ips.len() && subnet_of(#[trigger] ips[j]) == Some(relay_subnets(ips)[k]),
    decreases ips.len(),
{
    if ips.len() > 0 {
        let d = ips.drop_last();
        lemma_relay_subnets_from(d);
        let r = relay_subnets(ips);
        let rd = relay_subnets(d);
        assert forall|k: int| #![trigger r[k]] 0 <= k < r.len() implies exists|j: int|
            0 <= j < ips.len() && subnet_of(#[trigger] ips[j]) == Some(r[k]) by {
            if k < rd.len() {
                let j = choose|j: int| 0 <= j < d.len() && subnet_of(#[trigger] d[j]) == Some(rd[k]);
                assert(ips[j] == d[j]);
            } else {
                assert(subnet_of(ips[ips.len() - 1]) == Some(r[k]));
            }
        }
    }
}

/// The table's selection, where there is one, points at a row.
pub open spec fn selection_in_table(a: App) -> bool {
    a.table_state.selected matches Some(i) ==> i < a.display_rows().len()
}

/// The table has as many rows as the queues have rows of the mode, whatever
/// the sort and the pings.
pub proof fn lemma_rows_count(q: Seq<RegionQueueData>, mode: crate::config::GameMode, sort: SortOrder, pings: Map<Seq<char>, u32>)
    ensures
        rows_in(q, mode, sort, pings).len() == shown_indices_in(q, mode).len(),
{
    lemma_stable_order(shown_keys_in(q, mode, sort, pings));
}

/// Rows that agree, position by position, on whether `keep` accepts them
/// keep the same positions.
pub proof fn lemma_kept_prefix_same(
    a: Seq<RegionQueueData>,
    b: Seq<RegionQueueData>,
    keep: spec_fn(RegionQueueData) -> bool,
    n: nat,
)
    requires
        n <= a.len(),
        n <= b.len(),
        forall|i: int| 0 <= i < n ==> keep(a[i]) == keep(b[i]),
    ensures
        kept_prefix(a, keep, n) == kept_prefix(b, keep, n),
    decreases n,
{
    if n > 0 {
        lemma_kept_prefix_same(a, b, keep, (n - 1) as nat);
    }
}

/// Every key leaves the table's selection pointing at a row, if it did
/// before.
pub proof fn lemma_keys_keep_selection(o: App, key: Key, f: App, r: AppAction)
    requires
        selection_in_table(o),
        input_effect(o, key, f, r),
    ensures
        selection_in_table(f),
{
    lemma_rows_count(o.queues@, o.mode, o.sort, o.pings@);
    lemma_rows_count(f.queues@, f.mode, f.sort, f.pings@);
    lemma_rows_count(o.queues@, o.mode.toggled(), o.sort, o.pings@);
    if let Key::Char(c) = key {
        let k = spec_normalize_key(c);
        if !o.show_lock_modal && k == 't' {
            let keep = |r: RegionQueueData| shows_in(o.mode, r);
            assert forall|i: int| 0 <= i < o.queues@.len() implies keep(o.queues@[i]) == keep(f.queues@[i]) by {
                assert(f.queues@[i].mode == crate::app::reformatted(o.queues@[i], f.time_format).mode);
            }
            lemma_kept_prefix_same(o.queues@, f.queues@, keep, o.queues@.len());
        }
    }
}

/// A selection clamped to the table points at a row: so do the selections
/// after new queue data (plain or on refresh), which are clamped to the new
/// table, and after new pings, which reorder the table without changing its
/// size.
pub proof fn lemma_updates_keep_selection(o: App, f: App)
    requires
        f.table_state.selected == clamped(o.table_state.selected, f.display_rows().len())
            || (selection_in_table(o) && f.table_state == o.table_state && f.queues == o.queues
            && f.mode == o.mode),
    ensures
        selection_in_table(f),
{
    lemma_rows_count(o.queues@, o.mode, o.sort, o.pings@);
    lemma_rows_count(f.queues@, f.mode, f.sort, f.pings@);
}

/// The two region tables are inverse to each other: a name gives a code
/// exactly when that code gives the name back. The code table is keyed by
/// exactly the game's regions, in their display order, and no region code
/// or queue-site name is listed twice.
pub proof fn lemma_region_tables()
    ensures
        api_to_aws_table().len() == all_regions().len(),
        aws_to_api_table().len() == all_regions().len(),
        forall|i: int, j: int|
            0 <= i < j < all_regions().len() ==> (#[trigger] all_regions()[i])@ != (#[trigger] all_regions()[j])@,
        forall|i: int, j: int|
            0 <= i < j < all_regions().len() ==> (#[trigger] api_to_aws_table()[i]).0@
                != (#[trigger] api_to_aws_table()[j]).0@,
        forall|i: int| 0 <= i < all_regions().len() ==> (#[trigger] aws_to_api_table()[i]).0 == all_regions()[i],
        forall|i: int|
            0 <= i < all_regions().len() ==> api_name_of((#[trigger] all_regions()[i])@) == Some(
                api_to_aws_table()[i].0,
            ) && aws_code_of(api_to_aws_table()[i].0@) == Some(all_regions()[i]),
        forall|code: Seq<char>| #[trigger] api_name_of(code) is Some <==> is_region(code),
        forall|name: Seq<char>, code: Seq<char>|
            (#[trigger] aws_code_of(name) is Some && (aws_code_of(name)->0)@ == code) <==> (
            #[trigger] api_name_of(code) is Some && (api_name_of(code)->0)@ == name),
{
    lemma_table_entries();
    let a = api_to_aws_table();
    let b = aws_to_api_table();
    assert forall|i: int| 0 <= i < b.len() implies (#[trigger] b[i]) == (a[i].1, a[i].0) && b[i].0 == all_regions()[i] by {}
    assert forall|i: int, j: int| 0 <= i < j < a.len() implies (#[trigger] a[i]).0@ != (#[trigger] a[j]).0@ by {
        assert(name_index(a[i].0@) == i);
        assert(name_index(a[j].0@) == j);
    }
    assert forall|i: int, j: int| 0 <= i < j < b.len() implies (#[trigger] b[i]).0@ != (#[trigger] b[j]).0@ by {
        assert(code_index(all_regions()[i]@) == i);
        assert(code_index(all_regions()[j]@) == j);
    }
    assert forall|i: int| 0 <= i < all_regions().len() implies api_name_of((#[trigger] all_regions()[i])@) == Some(
        a[i].0,
    ) && aws_code_of(a[i].0@) == Some(all_regions()[i]) by {
        lemma_lookup_at(b, i);
        lemma_lookup_at(a, i);
    }
    assert forall|code: Seq<char>| #[trigger] api_name_of(code) is Some <==> is_region(code) by {
        lemma_lookup_value(b, code);
        if is_region(code) {
            let i = choose|i: int| 0 <= i < all_regions().len() && (#[trigger] all_regions()[i])@ == code;
            lemma_lookup_at(b, i);
        }
        if api_name_of(code) is Some {
            let i = choose|i: int| 0 <= i < b.len() && (#[trigger] b[i]).1 == api_name_of(code)->0 && b[i].0@ == code;
            assert(all_regions()[i]@ == code);
        }
    }
    assert forall|name: Seq<char>, code: Seq<char>|
        (#[trigger] aws_code_of(name) is Some && (aws_code_of(name)->0)@ == code) <==> (
        #[trigger] api_name_of(code) is Some && (api_name_of(code)->0)@ == name) by {
        lemma_lookup_value(a, name);
        lemma_lookup_value(b, code);
        if aws_code_of(name) is Some && (aws_code_of(name)->0)@ == code {
            let i = choose|i: int| 0 <= i < a.len() && (#[trigger] a[i]).1 == aws_code_of(name)->0 && a[i].0@ == name;
            lemma_lookup_at(b, i);
        }
        if api_name_of(code) is Some && (api_name_of(code)->0)@ == name {
            let i = choose|i: int| 0 <= i < b.len() && (#[trigger] b[i]).1 == api_name_of(code)->0 && b[i].0@ == code;
            lemma_lookup_at(a, i);
        }
    }
}

/// Names that all have an AWS code.
pub open spec fn all_coded(ns: Seq<Seq<char>>) -> bool {
    forall|k: int| 0 <= k < ns.len() ==> aws_code_of(#[trigger] ns[k]) is Some
}

proof fn lemma_coded_concat(x: Seq<Seq<char>>, y: Seq<Seq<char>>)
    requires
        all_coded(x),
        all_coded(y),
    ensures
        all_coded(x + y),
{
    assert forall|k: int| 0 <= k < (x + y).len() implies aws_code_of(#[trigger] (x + y)[k]) is Some by {
        if k < x.len() {
            assert((x + y)[k] == x[k]);
        } else {
            assert((x + y)[k] == y[k - x.len()]);
        }
    }
}

/// Each region name that a known spelling stands for has an AWS code.
proof fn lemma_spelling_codes()
    ensures
        forall|i: int|
            0 <= i < normalized_names().len() ==> aws_code_of((#[trigger] normalized_names()[i]).1@) is Some,
{
    lemma_region_tables();
    let a = api_to_aws_table();
    assert(aws_code_of(a[7].0@) is Some);
    assert(aws_code_of(a[8].0@) is Some);
    assert(aws_code_of(a[10].0@) is Some);
    assert forall|i: int| 0 <= i < normalized_names().len() implies aws_code_of(
        (#[trigger] normalized_names()[i]).1@,
    ) is Some by {
        assert(i == 0 || i == 1 || i == 2 || i == 3 || i == 4 || i == 5 || i == 6);
    }
}

proof fn lemma_word_name_coded(w: Seq<char>)
    ensures
        word_name(w) matches Some(n) ==> aws_code_of(n) is Some,
{
    let l = lowercase(w);
    lemma_spelling_codes();
    lemma_region_tables();
    lemma_lookup_value(normalized_names(), l);
    lemma_lookup_value(aws_to_api_table(), l);
    if lookup(normalized_names(), l) is Some {
        let v = lookup(normalized_names(), l)->0;
        let i = choose|i: int|
            0 <= i < normalized_names().len() && (#[trigger] normalized_names()[i]).1 == v
                && normalized_names()[i].0@ == l;
        assert(aws_code_of(normalized_names()[i].1@) is Some);
    } else if api_name_of(l) is Some {
        let v = api_name_of(l)->0;
        assert(aws_code_of(v@) is Some && (aws_code_of(v@)->0)@ == l);
    }
}

proof fn lemma_pair_name_coded(w0: Seq<char>, w1: Seq<char>)
    ensures
        pair_name(w0, w1) matches Some(n) ==> aws_code_of(n) is Some,
{
    let key = lowercase(w0) + seq![' '] + lowercase(w1);
    lemma_spelling_codes();
    lemma_lookup_value(normalized_names(), key);
    if lookup(normalized_names(), key) is Some {
        let v = lookup(normalized_names(), key)->0;
        let i = choose|i: int|
            0 <= i < normalized_names().len() && (#[trigger] normalized_names()[i]).1 == v
                && normalized_names()[i].0@ == key;
        assert(aws_code_of(normalized_names()[i].1@) is Some);
    }
}

proof fn lemma_words_coded(ws: Seq<Seq<char>>)
    ensures
        all_coded(resolve_words(ws)),
    decreases ws.len(),
{
    if ws.len() > 0 {
        if ws.len() >= 2 && pair_name(ws[0], ws[1]) is Some {
            lemma_pair_name_coded(ws[0], ws[1]);
            lemma_words_coded(ws.skip(2));
            lemma_coded_concat(seq![pair_name(ws[0], ws[1])->0], resolve_words(ws.skip(2)));
        } else {
            lemma_word_name_coded(ws[0]);
            lemma_words_coded(ws.skip(1));
            lemma_coded_concat(opt_seq(word_name(ws[0])), resolve_words(ws.skip(1)));
        }
    }
}

proof fn lemma_parts_coded(ps: Seq<Seq<char>>)
    ensures
        all_coded(resolve_parts(ps)),
    decreases ps.len(),
{
    if ps.len() > 0 {
        lemma_parts_coded(ps.drop_last());
        lemma_word_name_coded(ps.last());
        lemma_words_coded(ws_words(ps.last()));
        lemma_coded_concat(resolve_parts(ps.drop_last()), resolve_part(ps.last()));
    }
}

/// The codes of names that all have one are those codes, in order.
proof fn lemma_codes_of_coded(ns: Seq<Seq<char>>)
    requires
        all_coded(ns),
    ensures
        codes_of(ns) == ns.map_values(|n: Seq<char>| (aws_code_of(n)->0)@),
    decreases ns.len(),
{
    if ns.len() > 0 {
        let d = ns.drop_last();
        assert forall|k: int| 0 <= k < d.len() implies aws_code_of(#[trigger] d[k]) is Some by {
            assert(d[k] == ns[k]);
        }
        lemma_codes_of_coded(d);
        assert(aws_code_of(ns.last()) is Some);
        assert(codes_of(ns) =~= ns.map_values(|n: Seq<char>| (aws_code_of(n)->0)@));
    }
}

/// Every region name that resolution gives has an AWS code, so the codes of
/// the resolved names are each name's code, in the same order, and each is
/// one of the game's regions.
pub proof fn lemma_resolved_names_coded(words: Seq<Seq<char>>)
    ensures
        forall|k: int|
            0 <= k < spec_resolve_region_names(words).len() ==> aws_code_of(
                #[trigger] spec_resolve_region_names(words)[k],
            ) is Some,
        codes_of(spec_resolve_region_names(words)) == spec_resolve_region_names(words).map_values(
            |n: Seq<char>| (aws_code_of(n)->0)@,
        ),
        forall|k: int|
            0 <= k < codes_of(spec_resolve_region_names(words)).len() ==> is_region(
                #[trigger] codes_of(spec_resolve_region_names(words))[k],
            ),
{
    let ns = spec_resolve_region_names(words);
    lemma_parts_coded(nonempty_trimmed(split_on(join_spaced(words), ',')));
    lemma_codes_of_coded(ns);
    lemma_codes_are_regions(ns);
}

/// No known spelling has a dash where every region code has one.
proof fn lemma_spellings_not_codes()
    ensures
        forall|j: int| 0 <= j < normalized_names().len() ==> (#[trigger] normalized_names()[j]).0@.len() > 2
            && normalized_names()[j].0@[2] != '-',
{
    reveal_strlit("sao paulo");
    reveal_strlit("sao_paulo");
    reveal_strlit("saopaulo");
    reveal_strlit("hong kong");
    reveal_strlit("hong_kong");
    reveal_strlit("hongkong");
    reveal_strlit("montreal");
    assert forall|j: int| 0 <= j < normalized_names().len() implies (#[trigger] normalized_names()[j]).0@.len() > 2
        && normalized_names()[j].0@[2] != '-' by {
        assert(j == 0 || j == 1 || j == 2 || j == 3 || j == 4 || j == 5 || j == 6);
    }
}

/// A region code typed in any letter case, as one word without white space
/// or commas, resolves to that region's queue-site name: the word is read
/// through its lower-case form, whatever case it was typed in.
pub proof fn lemma_code_any_case(w: Seq<char>, i: int)
    requires
        0 <= i < all_regions().len(),
        lowercase(w) == all_regions()[i]@,
        w.len() > 0,
        forall|k: int| 0 <= k < w.len() ==> !is_ws(#[trigger] w[k]) && w[k] != ',',
    ensures
        spec_resolve_region_names(seq![w]) == seq![api_to_aws_table()[i].0@],
{
    let c = all_regions()[i]@;
    lemma_table_entries();
    lemma_region_tables();
    lemma_spellings_not_codes();
    assert(join_spaced(seq![w]) == w);
    lemma_split_extend(Seq::<char>::empty(), w, ',');
    assert(Seq::<char>::empty() + w =~= w);
    assert(split_on(w, ',') =~= seq![w]);
    lemma_trim_noop(w);
    assert(seq![w].drop_last() =~= Seq::<Seq<char>>::empty());
    assert(seq![w].last() == w);
    assert(nonempty_trimmed(seq![w].drop_last()) == Seq::<Seq<char>>::empty());
    assert(trim(w).len() > 0);
    assert(nonempty_trimmed(seq![w]) =~= seq![w]);
    lemma_lookup_value(normalized_names(), c);
    if lookup(normalized_names(), c) is Some {
        let j = choose|j: int|
            0 <= j < normalized_names().len() && (#[trigger] normalized_names()[j]).1 == lookup(
                normalized_names(),
                c,
            )->0 && normalized_names()[j].0@ == c;
        assert(normalized_names()[j].0@[2] != c[2]);
    }
    assert(api_name_of(c) == Some(api_to_aws_table()[i].0));
    assert(word_name(w) == Some(api_to_aws_table()[i].0@));
    assert(resolve_part(w) == seq![api_to_aws_table()[i].0@]);
    assert(resolve_parts(seq![w]) =~= resolve_parts(Seq::<Seq<char>>::empty()) + resolve_part(w));
}

/// Word lists that agree word by word once lower-cased.
pub open spec fn same_lowercase_words(ws: Seq<Seq<char>>, vs: Seq<Seq<char>>) -> bool {
    &&& ws.len() == vs.len()
    &&& forall|k: int| 0 <= k < ws.len() ==> lowercase(#[trigger] ws[k]) == lowercase(vs[k])
}

/// Reading a list of words finds the same region names whatever case the
/// words are typed in: two lists that agree word by word once lower-cased
/// give the same names, two-word names such as "Hong Kong" included.
pub proof fn lemma_words_case_insensitive(ws: Seq<Seq<char>>, vs: Seq<Seq<char>>)
    requires
        same_lowercase_words(ws, vs),
    ensures
        resolve_words(ws) == resolve_words(vs),
    decreases ws.len(),
{
    if ws.len() > 0 {
        assert(lowercase(ws[0]) == lowercase(vs[0]));
        assert(word_name(ws[0]) == word_name(vs[0]));
        assert(same_lowercase_words(ws.skip(1), vs.skip(1))) by {
            assert forall|k: int| 0 <= k < ws.skip(1).len() implies lowercase(#[trigger] ws.skip(1)[k])
                == lowercase(vs.skip(1)[k]) by {
                assert(ws.skip(1)[k] == ws[k + 1]);
                assert(vs.skip(1)[k] == vs[k + 1]);
            }
        }
        lemma_words_case_insensitive(ws.skip(1), vs.skip(1));
        if ws.len() >= 2 {
            assert(lowercase(ws[1]) == lowercase(vs[1]));
            assert(pair_name(ws[0], ws[1]) == pair_name(vs[0], vs[1]));
            assert(same_lowercase_words(ws.skip(2), vs.skip(2))) by {
                assert forall|k: int| 0 <= k < ws.skip(2).len() implies lowercase(#[trigger] ws.skip(2)[k])
                    == lowercase(vs.skip(2)[k]) by {
                    assert(ws.skip(2)[k] == ws[k + 2]);
                    assert(vs.skip(2)[k] == vs[k + 2]);
                }
            }
            lemma_words_case_insensitive(ws.skip(2), vs.skip(2));
        }
    }
}

/// A typed word: not empty, with no white space and no comma in it.
pub open spec fn plain_word(w: Seq<char>) -> bool {
    &&& w.len() > 0
    &&& forall|i: int| 0 <= i < w.len() ==> !is_ws(#[trigger] w[i]) && w[i] != ','
}

proof fn lemma_ws_words_append(s: Seq<char>, t: Seq<char>)
    requires
        s.len() == 0 || is_ws(s.last()),
        t.len() > 0,
        forall|i: int| 0 <= i < t.len() ==> !is_ws(#[trigger] t[i]),
    ensures
        ws_words(s + t) == ws_words(s).push(t),
    decreases t.len(),
{
    let u = s + t;
    assert(u.drop_last() =~= s + t.drop_last());
    assert(u.last() == t.last());
    if t.len() == 1 {
        assert(s + t.drop_last() =~= s);
        if s.len() > 0 {
            assert(u[u.len() - 2] == s.last());
        }
        assert(seq![t.last()] =~= t);
    } else {
        let t1 = t.drop_last();
        assert forall|i: int| 0 <= i < t1.len() implies !is_ws(#[trigger] t1[i]) by {
            assert(t1[i] == t[i]);
        }
        lemma_ws_words_append(s, t1);
        assert(u[u.len() - 2] == t[t.len() - 2]);
        assert(t1.push(t.last()) =~= t);
        assert(ws_words(s).push(t1).update(ws_words(s).len() as int, t1.push(t.last())) =~= ws_words(s).push(t));
    }
}

proof fn lemma_join_plain(ws: Seq<Seq<char>>)
    requires
        ws.len() > 0,
        forall|k: int| 0 <= k < ws.len() ==> plain_word(#[trigger] ws[k]),
    ensures
        ws_words(join_spaced(ws)) == ws,
        join_spaced(ws).len() > 0,
        join_spaced(ws)[0] == ws[0][0],
        join_spaced(ws).last() == ws.last().last(),
        forall|i: int| 0 <= i < join_spaced(ws).len() ==> #[trigger] join_spaced(ws)[i] != ',',
    decreases ws.len(),
{
    let w = ws.last();
    assert(plain_word(w));
    if ws.len() == 1 {
        lemma_ws_words_append(Seq::empty(), w);
        assert(Seq::<char>::empty() + w =~= w);
        assert(Seq::<Seq<char>>::empty().push(w) =~= ws);
    } else {
        let d = ws.drop_last();
        assert forall|k: int| 0 <= k < d.len() implies plain_word(#[trigger] d[k]) by {
            assert(d[k] == ws[k]);
        }
        lemma_join_plain(d);
        let j = join_spaced(d);
        let js = j + seq![' '];
        assert(is_ws(' '));
        assert(js.drop_last() =~= j);
        assert(ws_words(js) == ws_words(j));
        lemma_ws_words_append(js, w);
        assert(join_spaced(ws) == js + w);
        assert(d.push(w) =~= ws);
        assert(d[0] == ws[0]);
        assert((js + w)[0] == j[0]);
        assert forall|i: int| 0 <= i < (js + w).len() implies #[trigger] (js + w)[i] != ',' by {
            if i < j.len() {
                assert((js + w)[i] == j[i]);
            } else if i > j.len() {
                assert((js + w)[i] == w[i - js.len()]);
            }
        }
    }
}

proof fn lemma_resolve_plain(ws: Seq<Seq<char>>)
    requires
        ws.len() > 0,
        forall|k: int| 0 <= k < ws.len() ==> plain_word(#[trigger] ws[k]),
    ensures
        spec_resolve_region_names(ws) == resolve_part(join_spaced(ws)),
        ws_words(join_spaced(ws)) == ws,
{
    lemma_join_plain(ws);
    let j = join_spaced(ws);
    assert(plain_word(ws[0]));
    assert(plain_word(ws.last()));
    assert(!is_ws(ws[0][0]));
    assert(!is_ws(ws.last().last()));
    lemma_split_extend(Seq::<char>::empty(), j, ',');
    assert(Seq::<char>::empty() + j =~= j);
    assert(split_on(j, ',') =~= seq![j]);
    lemma_trim_noop(j);
    assert(seq![j].last() == j);
    assert(seq![j].drop_last() =~= Seq::<Seq<char>>::empty());
    assert(nonempty_trimmed(seq![j].drop_last()) == Seq::<Seq<char>>::empty());
    assert(nonempty_trimmed(seq![j]) =~= seq![j]);
    assert(resolve_parts(seq![j]) =~= resolve_parts(Seq::<Seq<char>>::empty()) + resolve_part(j));
}

/// Resolution reads what the user typed only through its lower-case form:
/// two lists of typed words (each word without white space or commas) that
/// agree word by word once lower-cased, and whose joined texts agree once
/// lower-cased, resolve to the same region names. So "Frankfurt Hong Kong"
/// gives what "frankfurt hong kong" gives.
pub proof fn lemma_resolve_case_insensitive(ws: Seq<Seq<char>>, vs: Seq<Seq<char>>)
    requires
        forall|k: int| 0 <= k < ws.len() ==> plain_word(#[trigger] ws[k]),
        forall|k: int| 0 <= k < vs.len() ==> plain_word(#[trigger] vs[k]),
        same_lowercase_words(ws, vs),
        lowercase(join_spaced(ws)) == lowercase(join_spaced(vs)),
    ensures
        spec_resolve_region_names(ws) == spec_resolve_region_names(vs),
{
    if ws.len() == 0 {
        assert(ws =~= vs);
    } else {
        lemma_resolve_plain(ws);
        lemma_resolve_plain(vs);
        lemma_words_case_insensitive(ws, vs);
        assert(word_name(join_spaced(ws)) == word_name(join_spaced(vs)));
    }
}

/// Which known spelling a text is, told apart by a few of its letters.
spec fn spelling_index(s: Seq<char>) -> int {
    if s.len() < 5 {
        -1
    } else if s[0] == 's' {
        if s[3] == ' ' { 0 } else if s[3] == '_' { 1 } else { 2 }
    } else if s[0] == 'h' {
        if s[4] == ' ' { 3 } else if s[4] == '_' { 4 } else { 5 }
    } else {
        6
    }
}

proof fn lemma_spellings_distinct()
    ensures
        forall|j: int, k: int|
            0 <= j < k < normalized_names().len() ==> (#[trigger] normalized_names()[j]).0@
                != (#[trigger] normalized_names()[k]).0@,
{
    reveal_strlit("sao paulo");
    reveal_strlit("sao_paulo");
    reveal_strlit("saopaulo");
    reveal_strlit("hong kong");
    reveal_strlit("hong_kong");
    reveal_strlit("hongkong");
    reveal_strlit("montreal");
    assert forall|j: int| 0 <= j < normalized_names().len() implies spelling_index(
        (#[trigger] normalized_names()[j]).0@,
    ) == j by {
        assert(j == 0 || j == 1 || j == 2 || j == 3 || j == 4 || j == 5 || j == 6);
    }
}

/// Two typed words that together spell a known name in any case, such as
/// "Hong Kong" or "SAO PAULO", give that region's name, and the words after
/// them are read on from there.
pub proof fn lemma_two_word_name(w0: Seq<char>, w1: Seq<char>, rest: Seq<Seq<char>>, j: int)
    requires
        0 <= j < normalized_names().len(),
        lowercase(w0) + seq![' '] + lowercase(w1) == normalized_names()[j].0@,
    ensures
        resolve_words(seq![w0, w1] + rest) == seq![normalized_names()[j].1@] + resolve_words(rest),
{
    lemma_spellings_distinct();
    lemma_lookup_at(normalized_names(), j);
    let ws = seq![w0, w1] + rest;
    assert(ws[0] == w0 && ws[1] == w1);
    assert(ws.skip(2) =~= rest);
}

/// Whether two texts differ in length or in one of their second, fourth,
/// fifth or sixth letters.
spec fn differ_early(a: Seq<char>, b: Seq<char>) -> bool {
    a.len() != b.len() || (a.len() >= 6 && (a[1] != b[1] || a[3] != b[3] || a[4] != b[4] || a[5] != b[5]))
}

/// No region name has a dash as its third letter, and none matches a known
/// spelling beyond its first letter.
proof fn lemma_name_letters()
    ensures
        forall|i: int|
            0 <= i < api_to_aws_table().len() ==> (#[trigger] api_to_aws_table()[i]).0@.len() >= 4
                && api_to_aws_table()[i].0@[2] != '-',
        forall|i: int, j: int|
            0 <= i < api_to_aws_table().len() && 0 <= j < normalized_names().len() ==> differ_early(
                (#[trigger] normalized_names()[j]).0@,
                (#[trigger] api_to_aws_table()[i]).0@,
            ),
{
    reveal_strlit("Frankfurt");
    reveal_strlit("Dublin");
    reveal_strlit("London");
    reveal_strlit("Virginia");
    reveal_strlit("Ohio");
    reveal_strlit("California");
    reveal_strlit("Oregon");
    reveal_strlit("Montréal");
    reveal_strlit("São Paulo");
    reveal_strlit("Mumbai");
    reveal_strlit("Hong Kong");
    reveal_strlit("Tokyo");
    reveal_strlit("Seoul");
    reveal_strlit("Singapore");
    reveal_strlit("Sydney");
    reveal_strlit("sao paulo");
    reveal_strlit("sao_paulo");
    reveal_strlit("saopaulo");
    reveal_strlit("hong kong");
    reveal_strlit("hong_kong");
    reveal_strlit("hongkong");
    reveal_strlit("montreal");
    assert forall|i: int|
        0 <= i < api_to_aws_table().len() implies (#[trigger] api_to_aws_table()[i]).0@.len() >= 4
            && api_to_aws_table()[i].0@[2] != '-' by {
        assert(i == 0 || i == 1 || i == 2 || i == 3 || i == 4 || i == 5 || i == 6 || i == 7 || i == 8 || i == 9 || i == 10 || i == 11 || i == 12 || i == 13 || i == 14);
    }
    assert forall|i: int, j: int|
        0 <= i < api_to_aws_table().len() && 0 <= j < normalized_names().len() implies differ_early(
            (#[trigger] normalized_names()[j]).0@,
            (#[trigger] api_to_aws_table()[i]).0@,
        ) by {
        assert(i == 0 || i == 1 || i == 2 || i == 3 || i == 4 || i == 5 || i == 6 || i == 7 || i == 8 || i == 9 || i == 10 || i == 11 || i == 12 || i == 13 || i == 14);
        assert(j == 0 || j == 1 || j == 2 || j == 3 || j == 4 || j == 5 || j == 6);
    }
}

/// A region's name typed with its first letter in either case and the rest
/// in any case (one word, as "tokyo" or "TOKYO") resolves to that name: the
/// word is read through its lower-case form, whose first letter upper-cased
/// gives the name back.
pub proof fn lemma_name_any_case(w: Seq<char>, i: int)
    requires
        0 <= i < api_to_aws_table().len(),
        plain_word(w),
        lowercase(w).len() == api_to_aws_table()[i].0@.len(),
        lowercase(w).drop_first() == api_to_aws_table()[i].0@.drop_first(),
        uppercase_char(lowercase(w)[0]) == seq![api_to_aws_table()[i].0@[0]],
    ensures
        spec_resolve_region_names(seq![w]) == seq![api_to_aws_table()[i].0@],
{
    let name = api_to_aws_table()[i].0@;
    let l = lowercase(w);
    lemma_name_letters();
    lemma_region_tables();
    lemma_table_entries();
    assert(name.len() >= 4 && name[2] != '-');
    assert forall|k: int| 1 <= k < l.len() implies l[k] == name[k] by {
        assert(l[k] == l.drop_first()[k - 1]);
        assert(name[k] == name.drop_first()[k - 1]);
    }
    lemma_lookup_value(normalized_names(), l);
    if lookup(normalized_names(), l) is Some {
        let j = choose|j: int|
            0 <= j < normalized_names().len() && (#[trigger] normalized_names()[j]).1 == lookup(
                normalized_names(),
                l,
            )->0 && normalized_names()[j].0@ == l;
        assert(differ_early(normalized_names()[j].0@, api_to_aws_table()[i].0@));
    }
    if api_name_of(l) is Some {
        assert(is_region(l));
        let k = choose|k: int| 0 <= k < all_regions().len() && (#[trigger] all_regions()[k])@ == l;
        assert(all_regions()[k]@[2] == '-');
    }
    assert(capitalized(l) =~= name);
    assert(aws_code_of(name) == Some(all_regions()[i]));
    assert(word_name(w) == Some(name));
    lemma_resolve_plain(seq![w]);
    assert(join_spaced(seq![w]) == w);
}

/// Which of the game's regions a code is, told apart by a few of its letters.
spec fn code_index(s: Seq<char>) -> int {
    if s.len() < 9 {
        -1
    } else {
        let a = s[0];
        let d = s[3];
        let z = s[s.len() - 1];
        if a == 'e' {
            if d == 'c' { 0 } else if z == '1' { 1 } else { 2 }
        } else if a == 'u' {
            if d == 'e' {
                if z == '1' { 3 } else { 4 }
            } else if z == '1' { 5 } else { 6 }
        } else if a == 'c' {
            7
        } else if a == 's' {
            8
        } else if s.len() == 10 {
            9
        } else if d == 'e' {
            10
        } else if d == 'n' {
            if z == '1' { 11 } else { 12 }
        } else if z == '1' {
            13
        } else {
            14
        }
    }
}

/// Which of the game's regions a queue-site name is, told apart by its
/// first two letters.
spec fn name_index(s: Seq<char>) -> int {
    if s.len() < 2 {
        -1
    } else {
        let a = s[0];
        let b = s[1];
        if a == 'F' {
            0
        } else if a == 'D' {
            1
        } else if a == 'L' {
            2
        } else if a == 'V' {
            3
        } else if a == 'O' {
            if b == 'h' { 4 } else { 6 }
        } else if a == 'C' {
            5
        } else if a == 'M' {
            if b == 'o' { 7 } else { 9 }
        } else if a == 'H' {
            10
        } else if a == 'T' {
            11
        } else if a == 'S' {
            if b == 'ã' { 8 } else if b == 'e' { 12 } else if b == 'i' { 13 } else { 14 }
        } else {
            -1
        }
    }
}

/// The region codes, and the queue-site names, all differ from each other,
/// and the two tables list the same regions in the same order.
proof fn lemma_table_entries()
    ensures
        api_to_aws_table().len() == all_regions().len(),
        forall|i: int| 0 <= i < all_regions().len() ==> code_index((#[trigger] all_regions()[i])@) == i
            && all_regions()[i]@.len() > 2 && all_regions()[i]@[2] == '-',
        forall|i: int| 0 <= i < all_regions().len() ==> name_index((#[trigger] api_to_aws_table()[i]).0@) == i
            && api_to_aws_table()[i].1 == all_regions()[i],
{
    reveal_strlit("eu-central-1");
    reveal_strlit("eu-west-1");
    reveal_strlit("eu-west-2");
    reveal_strlit("us-east-1");
    reveal_strlit("us-east-2");
    reveal_strlit("us-west-1");
    reveal_strlit("us-west-2");
    reveal_strlit("ca-central-1");
    reveal_strlit("sa-east-1");
    reveal_strlit("ap-south-1");
    reveal_strlit("ap-east-1");
    reveal_strlit("ap-northeast-1");
    reveal_strlit("ap-northeast-2");
    reveal_strlit("ap-southeast-1");
    reveal_strlit("ap-southeast-2");
    reveal_strlit("Frankfurt");
    reveal_strlit("Dublin");
    reveal_strlit("London");
    reveal_strlit("Virginia");
    reveal_strlit("Ohio");
    reveal_strlit("California");
    reveal_strlit("Oregon");
    reveal_strlit("Montréal");
    reveal_strlit("São Paulo");
    reveal_strlit("Mumbai");
    reveal_strlit("Hong Kong");
    reveal_strlit("Tokyo");
    reveal_strlit("Seoul");
    reveal_strlit("Singapore");
    reveal_strlit("Sydney");
    assert forall|i: int| 0 <= i < all_regions().len() implies code_index((#[trigger] all_regions()[i])@) == i
        && all_regions()[i]@.len() > 2 && all_regions()[i]@[2] == '-' by {
        assert(i == 0 || i == 1 || i == 2 || i == 3 || i == 4 || i == 5 || i == 6 || i == 7 || i == 8 || i == 9 || i == 10 || i == 11 || i == 12 || i == 13 || i == 14);
    }
    assert forall|i: int| 0 <= i < all_regions().len() implies name_index((#[trigger] api_to_aws_table()[i]).0@) == i
        && api_to_aws_table()[i].1 == all_regions()[i] by {
        assert(i == 0 || i == 1 || i == 2 || i == 3 || i == 4 || i == 5 || i == 6 || i == 7 || i == 8 || i == 9 || i == 10 || i == 11 || i == 12 || i == 13 || i == 14);
    }
}

} // verus!
