//! The "Best Pick" panel: for each role the fastest region, preferring a
//! closer server among those within a few seconds of the fastest, and the
//! region with the lowest measured ping.
use vstd::prelude::*;
use crate::api::{RegionQueueData, aws_code_of, aws_code_for_name, spec_parse_time, parse_time_to_seconds, NO_TIME, sat};
use crate::app::{App, BestPick, Summary, Role, NEAR_BEST_TOLERANCE_SECS, deref_rows};
use crate::order::{KeyView, SortKey, key_view, key_views, key_lt, is_first_min, first_min};
use crate::ping::PingMap;
use crate::text::chars_of;

verus! {

/// The rows that count for the panel: those of the table that are not disabled.
pub open spec fn eligible_in(rows: Seq<RegionQueueData>) -> Seq<RegionQueueData> {
    rows.filter(|r: RegionQueueData| !r.disabled())
}

/// The queue time of a row for a role, in seconds.
pub open spec fn role_secs(role: Role, r: RegionQueueData) -> u32 {
    spec_parse_time(role.time_text(r))
}

/// The smallest queue time of the rows for a role; `u32::MAX` for no rows.
pub open spec fn min_secs_in(rows: Seq<RegionQueueData>, role: Role) -> u32
    decreases rows.len(),
{
    if rows.len() == 0 {
        u32::MAX
    } else {
        let m = min_secs_in(rows.drop_last(), role);
        let s = role_secs(role, rows.last());
        if s < m {
            s
        } else {
            m
        }
    }
}

/// The rows whose time for the role is within the tolerance of the fastest.
pub open spec fn near_best_in(rows: Seq<RegionQueueData>, role: Role) -> Seq<RegionQueueData> {
    let limit = sat(min_secs_in(rows, role) + NEAR_BEST_TOLERANCE_SECS);
    rows.filter(|r: RegionQueueData| role_secs(role, r) <= limit)
}

/// The measured ping of a region named as on the queue site.
pub open spec fn measured_ping(pings: Map<Seq<char>, u32>, name: Seq<char>) -> Option<u32> {
    match aws_code_of(name) {
        Some(code) => if pings.dom().contains(code@) {
            Some(pings[code@])
        } else {
            None
        },
        None => None,
    }
}

/// How candidates for a role compare: by ping (unmeasured last), then by
/// queue time, then by name.
pub open spec fn pick_key(pings: Map<Seq<char>, u32>, role: Role, r: RegionQueueData) -> KeyView {
    (
        match measured_ping(pings, r.name@) {
            Some(p) => p as u64,
            None => u32::MAX as u64,
        },
        role_secs(role, r) as u64,
        r.name@,
    )
}

pub open spec fn pick_keys(pings: Map<Seq<char>, u32>, role: Role, rows: Seq<RegionQueueData>) -> Seq<KeyView> {
    rows.map_values(|r: RegionQueueData| pick_key(pings, role, r))
}

/// `p` is the pick for `role` among `rows`: none when no row has a time;
/// otherwise the first candidate with the smallest key, and the number of
/// other candidates.
pub open spec fn is_pick(
    rows: Seq<RegionQueueData>,
    pings: Map<Seq<char>, u32>,
    role: Role,
    p: Option<BestPick>,
) -> bool {
    let c = near_best_in(rows, role);
    match p {
        None => min_secs_in(rows, role) >= NO_TIME,
        Some(b) => {
            &&& min_secs_in(rows, role) < NO_TIME
            &&& b.similar == c.len() - 1
            &&& exists|k: int| is_first_min(pick_keys(pings, role, c), k) && c[k] == *b.row
        },
    }
}

/// The rows with a measured ping.
pub open spec fn pinged_in(rows: Seq<RegionQueueData>, pings: Map<Seq<char>, u32>) -> Seq<RegionQueueData> {
    rows.filter(|r: RegionQueueData| measured_ping(pings, r.name@) is Some)
}

/// Rows with a ping compare by ping, then by name.
pub open spec fn ping_key(pings: Map<Seq<char>, u32>, r: RegionQueueData) -> KeyView {
    (
        match measured_ping(pings, r.name@) {
            Some(p) => p as u64,
            None => u32::MAX as u64,
        },
        0,
        r.name@,
    )
}

pub open spec fn ping_keys(pings: Map<Seq<char>, u32>, rows: Seq<RegionQueueData>) -> Seq<KeyView> {
    rows.map_values(|r: RegionQueueData| ping_key(pings, r))
}

/// `p` is the row with the lowest ping among `rows`: the first one with the
/// smallest key among those with a measured ping, none when no row has one.
pub open spec fn is_lowest_ping(
    rows: Seq<RegionQueueData>,
    pings: Map<Seq<char>, u32>,
    p: Option<&RegionQueueData>,
) -> bool {
    let c = pinged_in(rows, pings);
    match p {
        None => c.len() == 0,
        Some(r) => exists|k: int| is_first_min(ping_keys(pings, c), k) && c[k] == *r,
    }
}

/// One more row of a sequence, seen through a filter.
pub proof fn lemma_filter_take<A>(s: Seq<A>, pred: spec_fn(A) -> bool, i: int)
    requires
        0 <= i < s.len(),
    ensures
        s.take(i + 1).filter(pred) == (if pred(s[i]) {
            s.take(i).filter(pred).push(s[i])
        } else {
            s.take(i).filter(pred)
        }),
{
    reveal(Seq::filter);
    assert(s.take(i + 1).drop_last() =~= s.take(i));
    assert(s.take(i + 1).last() == s[i]);
}

/// At most one position holds the first smallest key.
pub proof fn lemma_first_min_unique(ks: Seq<KeyView>, a: int, b: int)
    requires
        is_first_min(ks, a),
        is_first_min(ks, b),
    ensures
        a == b,
{
    if a < b {
        assert(key_lt(ks[b], ks[a]));
    } else if b < a {
        assert(key_lt(ks[a], ks[b]));
    }
}

fn measured_ping_of(pings: &PingMap, name: &str) -> (r: Option<u32>)
    ensures
        r == measured_ping(pings@, name@),
{
    match aws_code_for_name(name) {
        Some(code) => pings.get(code),
        None => None,
    }
}

fn ping_value(p: Option<u32>) -> (r: u64)
    ensures
        r == (match p {
            Some(v) => v as u64,
            None => u32::MAX as u64,
        }),
{
    match p {
        Some(v) => v as u64,
        None => u32::MAX as u64,
    }
}

/// The pick for a role among `rows`.
pub fn pick_best<'a>(rows: &Vec<&'a RegionQueueData>, role: Role, pings: &PingMap) -> (r: Option<BestPick<'a>>)
    ensures
        is_pick(deref_rows(rows@), pings@, role, r),
{
    let ghost all = deref_rows(rows@);
    let mut min: u32 = u32::MAX;
    let ghost mut arg: int = 0;
    let mut i: usize = 0;
    while i < rows.len()
        invariant
            0 <= i <= rows@.len(),
            all == deref_rows(rows@),
            min == min_secs_in(all.take(i as int), role),
            min < u32::MAX ==> 0 <= arg < i && role_secs(role, all[arg]) == min,
        decreases rows@.len() - i,
    {
        let s = parse_time_to_seconds(role.queue_time(rows[i]));
        assert(all.take(i + 1).drop_last() =~= all.take(i as int));
        if s < min {
            min = s;
            proof {
                arg = i as int;
            }
        }
        i += 1;
    }
    assert(all.take(rows@.len() as int) =~= all);
    if min >= NO_TIME {
        return None;
    }
    let limit = min.saturating_add(NEAR_BEST_TOLERANCE_SECS);
    let ghost keep = |r: RegionQueueData| role_secs(role, r) <= limit;
    let mut cands: Vec<&'a RegionQueueData> = Vec::new();
    let mut keys: Vec<SortKey> = Vec::new();
    let mut j: usize = 0;
    while j < rows.len()
        invariant
            0 <= j <= rows@.len(),
            all == deref_rows(rows@),
            keep == (|r: RegionQueueData| role_secs(role, r) <= limit),
            min < u32::MAX ==> 0 <= arg < rows@.len() && role_secs(role, all[arg]) == min,
            limit >= min,
            min < NO_TIME,
            deref_rows(cands@) == all.take(j as int).filter(keep),
            key_views(keys@) == pick_keys(pings@, role, deref_rows(cands@)),
            j > arg ==> cands@.len() > 0,
        decreases rows@.len() - j,
    {
        proof {
            lemma_filter_take(all, keep, j as int);
        }
        let row = rows[j];
        let s = parse_time_to_seconds(role.queue_time(row));
        if s <= limit {
            let ghost before = deref_rows(cands@);
            let ghost kb = key_views(keys@);
            cands.push(row);
            let ping = ping_value(measured_ping_of(pings, row.name.as_str()));
            let k = SortKey { rank: ping, secondary: s as u64, name: chars_of(row.name.as_str()) };
            keys.push(k);
            assert(deref_rows(cands@) =~= before.push(*row));
            assert(key_views(keys@) =~= kb.push(key_view(k)));
            assert(pick_keys(pings@, role, before.push(*row)) =~= pick_keys(pings@, role, before).push(
                pick_key(pings@, role, *row),
            ));
        }
        j += 1;
    }
    assert(all.take(rows@.len() as int) =~= all);
    assert(deref_rows(cands@) == near_best_in(all, role));
    let b = first_min(&keys);
    let best = BestPick { row: cands[b], similar: cands.len() - 1 };
    let ghost c = near_best_in(all, role);
    assert(is_first_min(pick_keys(pings@, role, c), b as int));
    assert(c[b as int] == *best.row);
    assert(is_first_min(pick_keys(pings@, role, c), b as int) && c[b as int] == *best.row);
    Some(best)
}

/// The row with the lowest measured ping among `rows`.
pub fn lowest_ping_row<'a>(rows: &Vec<&'a RegionQueueData>, pings: &PingMap) -> (r: Option<&'a RegionQueueData>)
    ensures
        is_lowest_ping(deref_rows(rows@), pings@, r),
{
    let ghost all = deref_rows(rows@);
    let ghost keep = |r: RegionQueueData| measured_ping(pings@, r.name@) is Some;
    let mut cands: Vec<&'a RegionQueueData> = Vec::new();
    let mut keys: Vec<SortKey> = Vec::new();
    let mut j: usize = 0;
    while j < rows.len()
        invariant
            0 <= j <= rows@.len(),
            all == deref_rows(rows@),
            keep == (|r: RegionQueueData| measured_ping(pings@, r.name@) is Some),
            deref_rows(cands@) == all.take(j as int).filter(keep),
            key_views(keys@) == ping_keys(pings@, deref_rows(cands@)),
        decreases rows@.len() - j,
    {
        proof {
            lemma_filter_take(all, keep, j as int);
        }
        let row = rows[j];
        let p = measured_ping_of(pings, row.name.as_str());
        if let Some(ms) = p {
            let ghost before = deref_rows(cands@);
            let ghost kb = key_views(keys@);
            cands.push(row);
            let k = SortKey { rank: ms as u64, secondary: 0, name: chars_of(row.name.as_str()) };
            keys.push(k);
            assert(deref_rows(cands@) =~= before.push(*row));
            assert(key_views(keys@) =~= kb.push(key_view(k)));
            assert(ping_keys(pings@, before.push(*row)) =~= ping_keys(pings@, before).push(
                ping_key(pings@, *row),
            ));
        }
        j += 1;
    }
    assert(all.take(rows@.len() as int) =~= all);
    if cands.len() == 0 {
        return None;
    }
    let b = first_min(&keys);
    let ghost c = pinged_in(all, pings@);
    assert(c[b as int] == *cands@[b as int]);
    assert(is_first_min(ping_keys(pings@, c), b as int) && c[b as int] == *cands@[b as int]);
    Some(cands[b])
}

impl App {
    /// The rows that count for the panel, in table order.
    pub open spec fn eligible_rows(self) -> Seq<RegionQueueData> {
        eligible_in(self.display_rows())
    }

    /// The "Best Pick" panel for the current table.
    pub fn summary(&self) -> (s: Summary<'_>)
        ensures
            is_pick(self.eligible_rows(), self.pings@, Role::Killer, s.killer),
            is_pick(self.eligible_rows(), self.pings@, Role::Survivor, s.survivor),
            is_lowest_ping(self.eligible_rows(), self.pings@, s.lowest_ping),
    {
        let rows = self.get_filtered_sorted_rows();
        let ghost all = deref_rows(rows@);
        let ghost keep = |r: RegionQueueData| !r.disabled();
        let mut eligible: Vec<&RegionQueueData> = Vec::new();
        let mut i: usize = 0;
        while i < rows.len()
            invariant
                0 <= i <= rows@.len(),
                all == deref_rows(rows@),
                keep == (|r: RegionQueueData| !r.disabled()),
                deref_rows(eligible@) == all.take(i as int).filter(keep),
            decreases rows@.len() - i,
        {
            proof {
                lemma_filter_take(all, keep, i as int);
            }
            let row = rows[i];
            if !row.is_disabled() {
                let ghost before = deref_rows(eligible@);
                eligible.push(row);
                assert(deref_rows(eligible@) =~= before.push(*row));
            }
            i += 1;
        }
        assert(all.take(rows@.len() as int) =~= all);
        let killer = pick_best(&eligible, Role::Killer, &self.pings);
        let survivor = pick_best(&eligible, Role::Survivor, &self.pings);
        let lowest_ping = lowest_ping_row(&eligible, &self.pings);
        Summary { killer, survivor, lowest_ping }
    }
}

} // verus!
