//! Regions, queue rows, and the reading and writing of queue durations.
use vstd::prelude::*;
use crate::config::TimeFormat;
use crate::sets::StringSet;
use crate::text::{all_digits, chars_of, seq_eq, str_eq, lowercase, to_lowercase, capitalized, capitalize, ws_words, split_whitespace_range, join_spaced, join_with_spaces, string_views, push_str, is_ws, lemma_decimal_digits, lemma_decimal2_digits, lemma_trim_noop, lemma_h_index_none, lemma_split_two, lemma_split_three, lemma_parse_digits, decimal, decimal2, push_decimal, push_decimal2, string_from_chars, digit_val, find_h, h_index, is_digit, parse_u32, parse_u32_range, split_on, split_range, trim, trim_range, views, parse_i64, parse_i64_str, trim_str, subrange_chars, all_ws, lemma_trim_padding, lemma_split_extend, digits_value};

verus! {

// ---------------------------------------------------------------------------
// Regions
// ---------------------------------------------------------------------------

/// The queue site's name of each region and its AWS region code.
pub open spec fn api_to_aws_table() -> Seq<(&'static str, &'static str)> {
    seq![
        ("Frankfurt", "eu-central-1"),
        ("Dublin", "eu-west-1"),
        ("London", "eu-west-2"),
        ("Virginia", "us-east-1"),
        ("Ohio", "us-east-2"),
        ("California", "us-west-1"),
        ("Oregon", "us-west-2"),
        ("Montréal", "ca-central-1"),
        ("São Paulo", "sa-east-1"),
        ("Mumbai", "ap-south-1"),
        ("Hong Kong", "ap-east-1"),
        ("Tokyo", "ap-northeast-1"),
        ("Seoul", "ap-northeast-2"),
        ("Singapore", "ap-southeast-1"),
        ("Sydney", "ap-southeast-2"),
    ]
}

/// Each AWS region code and its name on the queue site.
pub open spec fn aws_to_api_table() -> Seq<(&'static str, &'static str)> {
    api_to_aws_table().map_values(|p: (&'static str, &'static str)| (p.1, p.0))
}

/// Each AWS region code and the country tag shown beside it.
pub open spec fn aws_to_flag_table() -> Seq<(&'static str, &'static str)> {
    seq![
        ("eu-central-1", "[DE]"),
        ("eu-west-1", "[IE]"),
        ("eu-west-2", "[GB]"),
        ("us-east-1", "[US]"),
        ("us-east-2", "[US]"),
        ("us-west-1", "[US]"),
        ("us-west-2", "[US]"),
        ("ca-central-1", "[CA]"),
        ("sa-east-1", "[BR]"),
        ("ap-south-1", "[IN]"),
        ("ap-east-1", "[HK]"),
        ("ap-northeast-1", "[JP]"),
        ("ap-northeast-2", "[KR]"),
        ("ap-southeast-1", "[SG]"),
        ("ap-southeast-2", "[AU]"),
    ]
}

/// The AWS regions that the game uses, in display order.
pub open spec fn all_regions() -> Seq<&'static str> {
    seq![
        "eu-central-1",
        "eu-west-1",
        "eu-west-2",
        "us-east-1",
        "us-east-2",
        "us-west-1",
        "us-west-2",
        "ca-central-1",
        "sa-east-1",
        "ap-south-1",
        "ap-east-1",
        "ap-northeast-1",
        "ap-northeast-2",
        "ap-southeast-1",
        "ap-southeast-2",
    ]
}

/// The value that `key` maps to in a table of pairs (its first entry).
pub open spec fn lookup(t: Seq<(&'static str, &'static str)>, key: Seq<char>) -> Option<
    &'static str,
>
    decreases t.len(),
{
    if t.len() == 0 {
        None
    } else if t[0].0@ == key {
        Some(t[0].1)
    } else {
        lookup(t.drop_first(), key)
    }
}

/// The AWS code of a region named as on the queue site.
pub open spec fn aws_code_of(name: Seq<char>) -> Option<&'static str> {
    lookup(api_to_aws_table(), name)
}

/// The queue site's name of an AWS region code.
pub open spec fn api_name_of(code: Seq<char>) -> Option<&'static str> {
    lookup(aws_to_api_table(), code)
}

/// The country tag of an AWS region code.
pub open spec fn flag_of(code: Seq<char>) -> Option<&'static str> {
    lookup(aws_to_flag_table(), code)
}

/// Whether `code` is one of the game's AWS regions.
pub open spec fn is_region(code: Seq<char>) -> bool {
    exists|i: int| 0 <= i < all_regions().len() && (#[trigger] all_regions()[i])@ == code
}

pub fn get_api_to_aws() -> (r: Vec<(&'static str, &'static str)>)
    ensures
        r@ == api_to_aws_table(),
{
    let r = vec![
        ("Frankfurt", "eu-central-1"),
        ("Dublin", "eu-west-1"),
        ("London", "eu-west-2"),
        ("Virginia", "us-east-1"),
        ("Ohio", "us-east-2"),
        ("California", "us-west-1"),
        ("Oregon", "us-west-2"),
        ("Montréal", "ca-central-1"),
        ("São Paulo", "sa-east-1"),
        ("Mumbai", "ap-south-1"),
        ("Hong Kong", "ap-east-1"),
        ("Tokyo", "ap-northeast-1"),
        ("Seoul", "ap-northeast-2"),
        ("Singapore", "ap-southeast-1"),
        ("Sydney", "ap-southeast-2"),
    ];
    assert(r@ =~= api_to_aws_table());
    r
}

pub fn get_all_aws_regions() -> (r: Vec<&'static str>)
    ensures
        r@ == all_regions(),
{
    let r = vec![
        "eu-central-1",
        "eu-west-1",
        "eu-west-2",
        "us-east-1",
        "us-east-2",
        "us-west-1",
        "us-west-2",
        "ca-central-1",
        "sa-east-1",
        "ap-south-1",
        "ap-east-1",
        "ap-northeast-1",
        "ap-northeast-2",
        "ap-southeast-1",
        "ap-southeast-2",
    ];
    assert(r@ =~= all_regions());
    r
}

/// Each AWS region code and its name on the queue site: the name table with
/// each pair turned round. It has one entry per region, keyed by the game's
/// regions in display order, and a name gives a code in the name table
/// exactly when that code gives the name back here.
pub fn get_aws_to_api() -> (r: Vec<(&'static str, &'static str)>)
    ensures
        r@ == aws_to_api_table(),
        r@.len() == all_regions().len(),
        api_to_aws_table().len() == all_regions().len(),
        forall|i: int| 0 <= i < r@.len() ==> (#[trigger] r@[i]).0 == all_regions()[i],
        forall|code: Seq<char>| #[trigger] lookup(r@, code) is Some <==> is_region(code),
        forall|name: Seq<char>, code: Seq<char>|
            (#[trigger] lookup(api_to_aws_table(), name) is Some && (lookup(api_to_aws_table(), name)->0)@
                == code) <==> (#[trigger] lookup(r@, code) is Some && (lookup(r@, code)->0)@ == name),
{
    proof {
        crate::properties::lemma_region_tables();
    }
    let t = get_api_to_aws();
    let mut r: Vec<(&'static str, &'static str)> = Vec::new();
    let mut i: usize = 0;
    while i < t.len()
        invariant
            0 <= i <= t.len(),
            t@ == api_to_aws_table(),
            r@ == t@.take(i as int).map_values(|p: (&'static str, &'static str)| (p.1, p.0)),
        decreases t.len() - i,
    {
        let (name, code) = t[i];
        r.push((code, name));
        assert(t@.take(i + 1) =~= t@.take(i as int).push(t@[i as int]));
        i += 1;
    }
    assert(t@.take(t.len() as int) =~= t@);
    assert forall|code: Seq<char>| #[trigger] lookup(r@, code) is Some <==> is_region(code) by {
        assert(api_name_of(code) == lookup(r@, code));
    }
    assert forall|name: Seq<char>, code: Seq<char>|
        (#[trigger] lookup(api_to_aws_table(), name) is Some && (lookup(api_to_aws_table(), name)->0)@ == code)
            <==> (#[trigger] lookup(r@, code) is Some && (lookup(r@, code)->0)@ == name) by {
        assert(aws_code_of(name) == lookup(api_to_aws_table(), name));
        assert(api_name_of(code) == lookup(r@, code));
    }
    r
}

pub fn get_aws_to_flag() -> (r: Vec<(&'static str, &'static str)>)
    ensures
        r@ == aws_to_flag_table(),
{
    let r = vec![
        ("eu-central-1", "[DE]"),
        ("eu-west-1", "[IE]"),
        ("eu-west-2", "[GB]"),
        ("us-east-1", "[US]"),
        ("us-east-2", "[US]"),
        ("us-west-1", "[US]"),
        ("us-west-2", "[US]"),
        ("ca-central-1", "[CA]"),
        ("sa-east-1", "[BR]"),
        ("ap-south-1", "[IN]"),
        ("ap-east-1", "[HK]"),
        ("ap-northeast-1", "[JP]"),
        ("ap-northeast-2", "[KR]"),
        ("ap-southeast-1", "[SG]"),
        ("ap-southeast-2", "[AU]"),
    ];
    assert(r@ =~= aws_to_flag_table());
    r
}

/// The value of `key` in the table `t`.
pub fn lookup_in(t: &Vec<(&'static str, &'static str)>, key: &str) -> (r: Option<&'static str>)
    ensures
        r == lookup(t@, key@),
{
    let kv = chars_of(key);
    let mut i: usize = 0;
    assert(t@.skip(0) =~= t@);
    while i < t.len()
        invariant
            0 <= i <= t.len(),
            kv@ == key@,
            lookup(t@, key@) == lookup(t@.skip(i as int), key@),
        decreases t.len() - i,
    {
        assert(t@.skip(i as int).drop_first() =~= t@.skip(i + 1));
        let (k, v) = t[i];
        let kw = chars_of(k);
        if seq_eq(&kw, &kv) {
            return Some(v);
        }
        i += 1;
    }
    None
}

/// The AWS code of a region named as on the queue site.
pub fn aws_code_for_name(name: &str) -> (r: Option<&'static str>)
    ensures
        r == aws_code_of(name@),
{
    let t = get_api_to_aws();
    lookup_in(&t, name)
}

/// The queue site's name of an AWS code.
pub fn api_name_for_code(code: &str) -> (r: Option<&'static str>)
    ensures
        r == api_name_of(code@),
{
    let t = get_aws_to_api();
    lookup_in(&t, code)
}

/// The country tag of an AWS code.
pub fn flag_for_code(code: &str) -> (r: Option<&'static str>)
    ensures
        r == flag_of(code@),
{
    let t = get_aws_to_flag();
    lookup_in(&t, code)
}

/// Whether `code` is one of the game's AWS regions.
pub fn is_aws_region(code: &str) -> (r: bool)
    ensures
        r == is_region(code@),
{
    let all = get_all_aws_regions();
    let cv = chars_of(code);
    let mut i: usize = 0;
    while i < all.len()
        invariant
            0 <= i <= all.len(),
            all@ == all_regions(),
            cv@ == code@,
            forall|j: int| 0 <= j < i ==> (#[trigger] all_regions()[j])@ != code@,
        decreases all.len() - i,
    {
        let w = chars_of(all[i]);
        if seq_eq(&w, &cv) {
            return true;
        }
        i += 1;
    }
    false
}

// ---------------------------------------------------------------------------
// Durations
// ---------------------------------------------------------------------------

/// The value that stands for "no time": a disabled or unreadable queue.
pub const NO_TIME: u32 = 999999;

/// `n` clamped to the range of `u32`, as saturating arithmetic gives it.
pub open spec fn sat(n: int) -> u32 {
    if n > u32::MAX {
        u32::MAX
    } else {
        n as u32
    }
}

fn sat_mul(a: u32, b: u32) -> (r: u32)
    ensures
        r == sat(a * b),
{
    assert(a * b <= 0xffff_ffffu64 * 0xffff_ffffu64) by (nonlinear_arith)
        requires
            a <= 0xffff_ffffu64,
            b <= 0xffff_ffffu64,
    ;
    let p: u64 = (a as u64) * (b as u64);
    if p > 4294967295 {
        u32::MAX
    } else {
        p as u32
    }
}

fn sat_add(a: u32, b: u32) -> (r: u32)
    ensures
        r == sat(a + b),
{
    let p: u64 = (a as u64) + (b as u64);
    if p > 4294967295 {
        u32::MAX
    } else {
        p as u32
    }
}

/// A positive total, or `NO_TIME` for zero.
pub open spec fn nonzero_or_none(t: u32) -> u32 {
    if t > 0 {
        t
    } else {
        NO_TIME
    }
}

/// "N h" with an optional suffix: the number before the first `h`/`H`.
pub open spec fn hours_form(s: Seq<char>) -> Option<u32> {
    match h_index(s) {
        Some(p) => match parse_u32(trim(s.take(p as int))) {
            Some(h) => Some(sat(h * 3600)),
            None => None,
        },
        None => None,
    }
}

/// "m:ss" or "h:mm:ss", each field a number, spaces around fields allowed.
pub open spec fn colon_form(s: Seq<char>) -> Option<u32> {
    let parts = split_on(s, ':');
    if parts.len() == 2 && parse_u32(trim(parts[0])) is Some && parse_u32(trim(parts[1])) is Some {
        let m = parse_u32(trim(parts[0]))->0;
        let sec = parse_u32(trim(parts[1]))->0;
        Some(sat(sat(m * 60) + sec))
    } else if parts.len() == 3 && parse_u32(trim(parts[0])) is Some && parse_u32(
        trim(parts[1]),
    ) is Some && parse_u32(trim(parts[2])) is Some {
        let h = parse_u32(trim(parts[0]))->0;
        let m = parse_u32(trim(parts[1]))->0;
        let sec = parse_u32(trim(parts[2]))->0;
        Some(sat(sat(sat(h * 3600) + sat(m * 60)) + sec))
    } else {
        None
    }
}

/// One step of reading "3m27s"-like text: digits build a number, `m`/`M`
/// adds it as minutes, `s`/`S` adds it as seconds, anything else is skipped.
pub open spec fn unit_step(st: (u32, u32, bool), c: char) -> (u32, u32, bool) {
    if is_digit(c) {
        (st.0, sat(sat(st.1 * 10) + digit_val(c)), true)
    } else if c == 'm' || c == 'M' {
        if st.2 {
            (sat(st.0 + sat(st.1 * 60)), 0, false)
        } else {
            st
        }
    } else if (c == 's' || c == 'S') && st.2 {
        (sat(st.0 + st.1), 0, false)
    } else {
        st
    }
}

/// The state (total, pending number, whether a number is pending) after
/// reading `s`.
pub open spec fn unit_scan(s: Seq<char>) -> (u32, u32, bool)
    decreases s.len(),
{
    if s.len() == 0 {
        (0, 0, false)
    } else {
        unit_step(unit_scan(s.drop_last()), s.last())
    }
}

/// The total of "3m27s"-like text; a trailing number counts as seconds.
pub open spec fn unit_form(s: Seq<char>) -> u32 {
    let st = unit_scan(s);
    if st.2 {
        sat(st.0 + st.1)
    } else {
        st.0
    }
}

/// The number of seconds that a displayed queue time stands for.
/// Blank text and "—" give `NO_TIME`; "2h" and "2h+" give hours; "m:ss" and
/// "h:mm:ss" give their total; otherwise digits followed by `m` or `s` are
/// summed. A total of zero gives `NO_TIME`.
pub open spec fn spec_parse_time(raw: Seq<char>) -> u32 {
    let s = trim(raw);
    if s.len() == 0 || s == seq!['—'] {
        NO_TIME
    } else if hours_form(s) is Some {
        hours_form(s)->0
    } else if colon_form(s) is Some {
        nonzero_or_none(colon_form(s)->0)
    } else {
        nonzero_or_none(unit_form(s))
    }
}

fn trimmed_u32(part: &Vec<char>) -> (r: Option<u32>)
    ensures
        r == parse_u32(trim(part@)),
{
    let (c, d) = trim_range(part, 0, part.len());
    assert(part@.subrange(0, part@.len() as int) =~= part@);
    parse_u32_range(part, c, d)
}

fn colon_total(v: &Vec<char>, a: usize, b: usize) -> (r: Option<u32>)
    requires
        a <= b <= v@.len(),
    ensures
        r == colon_form(v@.subrange(a as int, b as int)),
{
    let parts = split_range(v, a, b, ':');
    let ghost ps = views(parts@);
    assert(forall|k: int| 0 <= k < parts@.len() ==> #[trigger] ps[k] == parts@[k]@);
    if parts.len() == 2 {
        let m = trimmed_u32(&parts[0]);
        let s = trimmed_u32(&parts[1]);
        if let (Some(m), Some(s)) = (m, s) {
            return Some(sat_add(sat_mul(m, 60), s));
        }
    } else if parts.len() == 3 {
        let h = trimmed_u32(&parts[0]);
        let m = trimmed_u32(&parts[1]);
        let s = trimmed_u32(&parts[2]);
        if let (Some(h), Some(m), Some(s)) = (h, m, s) {
            return Some(sat_add(sat_add(sat_mul(h, 3600), sat_mul(m, 60)), s));
        }
    }
    None
}

fn unit_total(v: &Vec<char>, a: usize, b: usize) -> (r: u32)
    requires
        a <= b <= v@.len(),
    ensures
        r == unit_form(v@.subrange(a as int, b as int)),
{
    let mut total: u32 = 0;
    let mut cur: u32 = 0;
    let mut has = false;
    let mut i = a;
    assert(v@.subrange(a as int, a as int) =~= Seq::<char>::empty());
    while i < b
        invariant
            a <= i <= b <= v@.len(),
            (total, cur, has) == unit_scan(v@.subrange(a as int, i as int)),
        decreases b - i,
    {
        let c = v[i];
        assert(v@.subrange(a as int, i + 1).drop_last() =~= v@.subrange(a as int, i as int));
        if '0' <= c && c <= '9' {
            let d: u32 = c as u32 - '0' as u32;
            cur = sat_add(sat_mul(cur, 10), d);
            has = true;
        } else if c == 'm' || c == 'M' {
            if has {
                total = sat_add(total, sat_mul(cur, 60));
                cur = 0;
                has = false;
            }
        } else if (c == 's' || c == 'S') && has {
            total = sat_add(total, cur);
            cur = 0;
            has = false;
        }
        i += 1;
    }
    if has {
        sat_add(total, cur)
    } else {
        total
    }
}

/// Reads a displayed queue time back into seconds.
pub fn parse_time_to_seconds(time_str: &str) -> (r: u32)
    ensures
        r == spec_parse_time(time_str@),
{
    let v = chars_of(time_str);
    let (a, b) = trim_range(&v, 0, v.len());
    assert(v@.subrange(0, v@.len() as int) =~= v@);
    let ghost s = v@.subrange(a as int, b as int);
    if a == b {
        return NO_TIME;
    }
    if b - a == 1 && v[a] == '—' {
        assert(s =~= seq!['—']);
        return NO_TIME;
    }
    assert(s != seq!['—']) by {
        if s == seq!['—'] {
            assert(s.len() == 1 && s[0] == v@[a as int]);
        }
    }
    let hp = find_h(&v, a, b);
    if let Some(p) = hp {
        let ghost k = h_index(s)->0;
        assert(p == a + k);
        let (c, d) = trim_range(&v, a, p);
        assert(v@.subrange(a as int, p as int) =~= s.take(k as int));
        let ph = parse_u32_range(&v, c, d);
        assert(ph == parse_u32(trim(s.take(k as int))));
        if let Some(h) = ph {
            assert(hours_form(s) == Some(sat(h * 3600)));
            return sat_mul(h, 3600);
        }
        assert(hours_form(s) is None);
    } else {
        assert(hours_form(s) is None);
    }
    if let Some(t) = colon_total(&v, a, b) {
        return if t > 0 {
            t
        } else {
            NO_TIME
        };
    }
    let t = unit_total(&v, a, b);
    if t > 0 {
        t
    } else {
        NO_TIME
    }
}

/// The text shown for a queue duration of `sec` seconds. Zero is shown as "—".
/// Exact: "m:ss" below an hour, "h:mm:ss" from an hour on. Rounded: "Ns" below
/// a minute, whole minutes "Nm" (rounded half up, "1h" when that reaches 60)
/// below an hour, whole hours "Nh" (rounded half up) from an hour on.
pub open spec fn spec_format_seconds(sec: u32, format: TimeFormat) -> Seq<char> {
    if sec == 0 {
        seq!['—']
    } else {
        match format {
            TimeFormat::Exact => if sec < 3600 {
                decimal((sec / 60) as nat) + seq![':'] + decimal2((sec % 60) as nat)
            } else {
                decimal((sec / 3600) as nat) + seq![':'] + decimal2(((sec % 3600) / 60) as nat)
                    + seq![':'] + decimal2((sec % 60) as nat)
            },
            TimeFormat::Rounded => if sec < 60 {
                decimal(sec as nat) + seq!['s']
            } else if sec < 3600 {
                if (sec + 30) / 60 >= 60 {
                    seq!['1', 'h']
                } else {
                    decimal(((sec + 30) / 60) as nat) + seq!['m']
                }
            } else {
                decimal(((sec + 1800) / 3600) as nat) + seq!['h']
            },
        }
    }
}

/// Whether `sec` can be shown in `format`: rounding to hours adds half an hour
/// in `u32` arithmetic, which must not overflow.
pub open spec fn formattable(sec: u32, format: TimeFormat) -> bool {
    format == TimeFormat::Rounded ==> sec + 1800 <= u32::MAX
}

fn format_chars(sec: u32, format: TimeFormat) -> (r: Vec<char>)
    requires
        formattable(sec, format),
    ensures
        r@ == spec_format_seconds(sec, format),
{
    let mut out: Vec<char> = Vec::new();
    if sec == 0 {
        out.push('—');
        assert(out@ =~= seq!['—']);
        return out;
    }
    match format {
        TimeFormat::Exact => {
            if sec < 3600 {
                push_decimal(&mut out, (sec / 60) as u64);
                out.push(':');
                push_decimal2(&mut out, (sec % 60) as u64);
                assert(out@ =~= decimal((sec / 60) as nat) + seq![':'] + decimal2(
                    (sec % 60) as nat,
                ));
            } else {
                push_decimal(&mut out, (sec / 3600) as u64);
                out.push(':');
                push_decimal2(&mut out, ((sec % 3600) / 60) as u64);
                out.push(':');
                push_decimal2(&mut out, (sec % 60) as u64);
                assert(out@ =~= decimal((sec / 3600) as nat) + seq![':'] + decimal2(
                    ((sec % 3600) / 60) as nat,
                ) + seq![':'] + decimal2((sec % 60) as nat));
            }
        },
        TimeFormat::Rounded => {
            if sec < 60 {
                push_decimal(&mut out, sec as u64);
                out.push('s');
                assert(out@ =~= decimal(sec as nat) + seq!['s']);
            } else if sec < 3600 {
                let mins = (sec + 30) / 60;
                if mins >= 60 {
                    out.push('1');
                    out.push('h');
                    assert(out@ =~= seq!['1', 'h']);
                } else {
                    push_decimal(&mut out, mins as u64);
                    out.push('m');
                    assert(out@ =~= decimal(mins as nat) + seq!['m']);
                }
            } else {
                let hours = (sec + 1800) / 3600;
                push_decimal(&mut out, hours as u64);
                out.push('h');
                assert(out@ =~= decimal(hours as nat) + seq!['h']);
            }
        },
    }
    out
}

/// The text shown for a queue duration of `sec` seconds.
pub fn format_seconds(sec: u32, format: TimeFormat) -> (r: String)
    requires
        formattable(sec, format),
    ensures
        r@ == spec_format_seconds(sec, format),
{
    let v = format_chars(sec, format);
    string_from_chars(&v)
}

/// The text shown for an optional duration: "—" when there is none or it is zero.
pub open spec fn spec_format_seconds_opt(secs: Option<u32>, format: TimeFormat) -> Seq<char> {
    match secs {
        Some(s) if s > 0 => spec_format_seconds(s, format),
        _ => seq!['—'],
    }
}

pub open spec fn opt_formattable(secs: Option<u32>, format: TimeFormat) -> bool {
    secs matches Some(s) ==> formattable(s, format)
}

pub fn format_seconds_opt(secs: Option<u32>, format: TimeFormat) -> (r: String)
    requires
        opt_formattable(secs, format),
    ensures
        r@ == spec_format_seconds_opt(secs, format),
{
    match secs {
        Some(s) if s > 0 => format_seconds(s, format),
        _ => {
            let mut v: Vec<char> = Vec::new();
            v.push('—');
            assert(v@ =~= seq!['—']);
            string_from_chars(&v)
        },
    }
}

/// Shows a count of seconds given as text; text that is not a `u32` gives "—".
pub fn format_seconds_to_time(seconds_str: &str, format: TimeFormat) -> (r: String)
    requires
        parse_u32(seconds_str@) matches Some(n) ==> formattable(n, format),
    ensures
        r@ == (match parse_u32(seconds_str@) {
            Some(n) => spec_format_seconds(n, format),
            None => seq!['—'],
        }),
{
    let v = chars_of(seconds_str);
    assert(v@.subrange(0, v@.len() as int) =~= v@);
    match parse_u32_range(&v, 0, v.len()) {
        Some(n) => format_seconds(n, format),
        None => {
            let mut w: Vec<char> = Vec::new();
            w.push('—');
            assert(w@ =~= seq!['—']);
            string_from_chars(&w)
        },
    }
}

/// The Unix time of an event's start or end, as the queue site writes it:
/// a decimal number of seconds, white space round it allowed.
pub open spec fn event_time(ts: Seq<char>) -> Option<i64> {
    parse_i64(trim(ts))
}

/// Reads an event's start or end time.
pub fn event_timestamp(ts_str: &str) -> (r: Option<i64>)
    ensures
        r == event_time(ts_str@),
{
    let t = trim_str(ts_str);
    parse_i64_str(t.as_str())
}

/// The whole seconds from `now` until `target`, none once it has passed.
pub open spec fn secs_until(target: i64, now: i64) -> u64 {
    if target > now {
        (target - now) as u64
    } else {
        0
    }
}

pub fn seconds_until(target: i64, now: i64) -> (r: u64)
    ensures
        r == secs_until(target, now),
{
    if target > now {
        let d: i128 = target as i128 - now as i128;
        d as u64
    } else {
        0
    }
}

/// `n / unit` rounded to the nearest whole unit, halves rounding up.
pub open spec fn round_half_up(n: nat, unit: nat) -> nat
    recommends
        unit > 0,
{
    n / unit + (if n % unit >= unit / 2 {
        1nat
    } else {
        0nat
    })
}

fn rounded_units(n: u64, unit: u64) -> (r: u64)
    requires
        unit >= 2,
    ensures
        r == round_half_up(n as nat, unit as nat),
{
    let q = n / unit;
    assert(q <= n / 2) by (nonlinear_arith)
        requires
            q == n / unit,
            unit >= 2,
    ;
    if n % unit >= unit / 2 {
        q + 1
    } else {
        q
    }
}

/// The countdown shown for an event, `remaining` seconds away.
/// Exact: "Nd HH:MM:SS" from a day on, "HH:MM:SS" from an hour on, "MM:SS"
/// below. Rounded: the largest unit only, "Nd", "Nh", "Nm" or "Ns", rounded
/// to the nearest unit with halves up.
pub open spec fn spec_event_countdown(remaining: u64, format: TimeFormat) -> Seq<char> {
    let days = remaining / 86400;
    let hours = (remaining % 86400) / 3600;
    let mins = (remaining % 3600) / 60;
    let secs = remaining % 60;
    match format {
        TimeFormat::Exact => if days >= 1 {
            decimal(days as nat) + seq!['d', ' '] + decimal2(hours as nat) + seq![':'] + decimal2(
                mins as nat,
            ) + seq![':'] + decimal2(secs as nat)
        } else if remaining >= 3600 {
            decimal2(hours as nat) + seq![':'] + decimal2(mins as nat) + seq![':'] + decimal2(
                secs as nat,
            )
        } else if remaining >= 60 {
            decimal2(mins as nat) + seq![':'] + decimal2(secs as nat)
        } else {
            seq!['0', '0', ':'] + decimal2(secs as nat)
        },
        TimeFormat::Rounded => if days >= 1 {
            decimal(round_half_up(remaining as nat, 86400)) + seq!['d']
        } else if remaining >= 3600 {
            if round_half_up(remaining as nat, 3600) >= 24 {
                seq!['1', 'd']
            } else {
                decimal(round_half_up(remaining as nat, 3600)) + seq!['h']
            }
        } else if remaining >= 60 {
            if round_half_up(remaining as nat, 60) >= 60 {
                seq!['1', 'h']
            } else {
                decimal(round_half_up(remaining as nat, 60)) + seq!['m']
            }
        } else {
            decimal(secs as nat) + seq!['s']
        },
    }
}

pub fn format_event_countdown(remaining_secs: u64, format: TimeFormat) -> (r: String)
    ensures
        r@ == spec_event_countdown(remaining_secs, format),
{
    let days = remaining_secs / 86400;
    let hours = (remaining_secs % 86400) / 3600;
    let mins = (remaining_secs % 3600) / 60;
    let secs = remaining_secs % 60;
    let mut out: Vec<char> = Vec::new();
    match format {
        TimeFormat::Exact => {
            if days >= 1 {
                push_decimal(&mut out, days);
                out.push('d');
                out.push(' ');
                push_decimal2(&mut out, hours);
                out.push(':');
                push_decimal2(&mut out, mins);
                out.push(':');
                push_decimal2(&mut out, secs);
                assert(out@ =~= decimal(days as nat) + seq!['d', ' '] + decimal2(hours as nat)
                    + seq![':'] + decimal2(mins as nat) + seq![':'] + decimal2(secs as nat));
            } else if remaining_secs >= 3600 {
                push_decimal2(&mut out, hours);
                out.push(':');
                push_decimal2(&mut out, mins);
                out.push(':');
                push_decimal2(&mut out, secs);
                assert(out@ =~= decimal2(hours as nat) + seq![':'] + decimal2(mins as nat)
                    + seq![':'] + decimal2(secs as nat));
            } else if remaining_secs >= 60 {
                push_decimal2(&mut out, mins);
                out.push(':');
                push_decimal2(&mut out, secs);
                assert(out@ =~= decimal2(mins as nat) + seq![':'] + decimal2(secs as nat));
            } else {
                out.push('0');
                out.push('0');
                out.push(':');
                push_decimal2(&mut out, secs);
                assert(out@ =~= seq!['0', '0', ':'] + decimal2(secs as nat));
            }
        },
        TimeFormat::Rounded => {
            if days >= 1 {
                let d = rounded_units(remaining_secs, 86400);
                push_decimal(&mut out, d);
                out.push('d');
                assert(out@ =~= decimal(d as nat) + seq!['d']);
            } else if remaining_secs >= 3600 {
                let h = rounded_units(remaining_secs, 3600);
                if h >= 24 {
                    out.push('1');
                    out.push('d');
                    assert(out@ =~= seq!['1', 'd']);
                } else {
                    push_decimal(&mut out, h);
                    out.push('h');
                    assert(out@ =~= decimal(h as nat) + seq!['h']);
                }
            } else if remaining_secs >= 60 {
                let m = rounded_units(remaining_secs, 60);
                if m >= 60 {
                    out.push('1');
                    out.push('h');
                    assert(out@ =~= seq!['1', 'h']);
                } else {
                    push_decimal(&mut out, m);
                    out.push('m');
                    assert(out@ =~= decimal(m as nat) + seq!['m']);
                }
            } else {
                push_decimal(&mut out, secs);
                out.push('s');
                assert(out@ =~= decimal(secs as nat) + seq!['s']);
            }
        },
    }
    string_from_chars(&out)
}

proof fn lemma_digits_plain(s: Seq<char>)
    requires
        all_digits(s),
    ensures
        forall|i: int|
            0 <= i < s.len() ==> s[i] != ':' && s[i] != 'h' && s[i] != 'H' && !is_ws(s[i])
                && s[i] != '—',
{
    assert forall|i: int| 0 <= i < s.len() implies s[i] != ':' && s[i] != 'h' && s[i] != 'H'
        && !is_ws(s[i]) && s[i] != '—' by {
        assert(is_digit(s[i]));
    }
}

/// Reading a run of digits leaves its value pending and adds nothing yet.
proof fn lemma_unit_scan_digits(d: Seq<char>)
    requires
        d.len() > 0,
        all_digits(d),
        digits_value(d) <= u32::MAX,
    ensures
        unit_scan(d) == (0u32, digits_value(d) as u32, true),
    decreases d.len(),
{
    let e = d.drop_last();
    assert(is_digit(d.last()));
    assert(all_digits(e)) by {
        assert forall|i: int| 0 <= i < e.len() implies #[trigger] is_digit(e[i]) by {
            assert(e[i] == d[i]);
        }
    }
    assert(digits_value(d) == digits_value(e) * 10 + digit_val(d.last()));
    if e.len() > 0 {
        lemma_unit_scan_digits(e);
    } else {
        assert(digits_value(e) == 0);
    }
}

/// A number followed by one unit letter reads as that number of units.
proof fn lemma_unit_form_one(n: nat, unit: char)
    requires
        n <= u32::MAX,
        unit == 's' || unit == 'm',
        unit == 'm' ==> n * 60 <= u32::MAX,
    ensures
        unit_form(decimal(n) + seq![unit]) == (if unit == 's' {
            n
        } else {
            n * 60
        }),
{
    let d = decimal(n);
    lemma_decimal_digits(n);
    let t = d + seq![unit];
    assert(t.drop_last() =~= d);
    assert(t.last() == unit);
    lemma_unit_scan_digits(d);
}

/// A rounded time text "Ns" or "Nm" reads back as N seconds or N minutes.
proof fn lemma_read_unit_text(n: nat, unit: char)
    requires
        0 < n <= u32::MAX,
        unit == 's' || unit == 'm',
        unit == 'm' ==> n * 60 <= u32::MAX,
    ensures
        spec_parse_time(decimal(n) + seq![unit]) == (if unit == 's' {
            n
        } else {
            n * 60
        }),
{
    let d = decimal(n);
    let t = d + seq![unit];
    lemma_decimal_digits(n);
    lemma_digits_plain(d);
    assert(t[0] == d[0]);
    assert(t.last() == unit);
    lemma_trim_noop(t);
    assert forall|i: int| 0 <= i < t.len() implies t[i] != 'h' && t[i] != 'H' && t[i] != ':' by {
        if i < d.len() {
            assert(t[i] == d[i]);
        }
    }
    lemma_h_index_none(t);
    lemma_split_extend(Seq::<char>::empty(), t, ':');
    assert(Seq::<char>::empty() + t =~= t);
    assert(split_on(t, ':') =~= seq![t]);
    assert(t != seq!['—']) by {
        if t.len() == 1 {
            assert(t[0] == d[0]);
        }
    }
    lemma_unit_form_one(n, unit);
}

/// Reading back a rounded time gives the seconds under a minute, and from a
/// minute to below an hour the time rounded to whole minutes.
pub proof fn lemma_rounded_roundtrip(sec: u32)
    requires
        0 < sec < 3600,
    ensures
        sec < 60 ==> spec_parse_time(spec_format_seconds(sec, TimeFormat::Rounded)) == sec,
        60 <= sec && (sec + 30) / 60 < 60 ==> spec_parse_time(spec_format_seconds(sec, TimeFormat::Rounded))
            == ((sec + 30) / 60) * 60,
{
    if sec < 60 {
        lemma_read_unit_text(sec as nat, 's');
    } else if (sec + 30) / 60 < 60 {
        lemma_read_unit_text(((sec + 30) / 60) as nat, 'm');
    }
}

proof fn lemma_h_index_end(s: Seq<char>)
    requires
        forall|i: int| 0 <= i < s.len() ==> s[i] != 'h' && s[i] != 'H',
    ensures
        h_index(s + seq!['h']) == Some(s.len()),
    decreases s.len(),
{
    if s.len() > 0 {
        lemma_h_index_end(s.drop_first());
        assert((s + seq!['h']).drop_first() =~= s.drop_first() + seq!['h']);
        assert((s + seq!['h'])[0] == s[0]);
    } else {
        assert((s + seq!['h'])[0] == 'h');
    }
}

/// A rounded time text "Nh" reads back as N hours.
proof fn lemma_read_hours_text(n: nat)
    requires
        0 < n,
        n * 3600 <= u32::MAX,
    ensures
        spec_parse_time(decimal(n) + seq!['h']) == n * 3600,
{
    let d = decimal(n);
    let t = d + seq!['h'];
    lemma_decimal_digits(n);
    lemma_digits_plain(d);
    assert(t[0] == d[0]);
    assert(t.last() == 'h');
    lemma_trim_noop(t);
    lemma_h_index_end(d);
    assert(t.take(d.len() as int) =~= d);
    lemma_parse_digits(d);
    assert(t != seq!['—']) by {
        if t.len() == 1 {
            assert(t[0] == d[0]);
        }
    }
}

/// Reading back a rounded time of an hour or more gives the time rounded to
/// whole hours, and a time just under an hour that rounds up reads as one
/// hour.
pub proof fn lemma_rounded_hours_roundtrip(sec: u32)
    requires
        sec >= 3600 ==> ((sec + 1800) / 3600) * 3600 <= u32::MAX,
    ensures
        sec >= 3600 ==> spec_parse_time(spec_format_seconds(sec, TimeFormat::Rounded)) == ((sec + 1800)
            / 3600) * 3600,
        60 <= sec < 3600 && (sec + 30) / 60 >= 60 ==> spec_parse_time(
            spec_format_seconds(sec, TimeFormat::Rounded),
        ) == 3600,
{
    if sec >= 3600 {
        lemma_read_hours_text(((sec + 1800) / 3600) as nat);
    } else if 60 <= sec && (sec + 30) / 60 >= 60 {
        lemma_read_hours_text(1);
        assert(decimal(1) + seq!['h'] =~= seq!['1', 'h']);
    }
}

/// White space around a time text does not change how it reads.
pub proof fn lemma_padded_time(p: Seq<char>, s: Seq<char>, q: Seq<char>)
    requires
        all_ws(p),
        all_ws(q),
    ensures
        spec_parse_time(p + s + q) == spec_parse_time(s),
{
    lemma_trim_padding(p, s, q);
}

/// A dash reads as no time at all.
pub proof fn lemma_dash_has_no_time()
    ensures
        secs_of_text(seq!['—']) is None,
{
}

/// Reading back an exact duration gives the same number of seconds:
/// `parse_time_to_seconds(format_seconds(s, Exact)) == s` for every `s > 0`.
pub proof fn lemma_exact_roundtrip(sec: u32)
    requires
        sec > 0,
    ensures
        spec_parse_time(spec_format_seconds(sec, TimeFormat::Exact)) == sec,
{
    let t = spec_format_seconds(sec, TimeFormat::Exact);
    let ss = decimal2((sec % 60) as nat);
    lemma_decimal2_digits((sec % 60) as nat);
    lemma_digits_plain(ss);
    if sec < 3600 {
        let m = decimal((sec / 60) as nat);
        lemma_decimal_digits((sec / 60) as nat);
        lemma_digits_plain(m);
        assert forall|i: int| 0 <= i < t.len() implies t[i] != 'h' && t[i] != 'H' by {
            if i < m.len() {
                assert(t[i] == m[i]);
            } else if i > m.len() {
                assert(t[i] == ss[i - m.len() - 1]);
            }
        }
        assert(t[0] == m[0]);
        assert(t.last() == ss.last());
        lemma_trim_noop(t);
        lemma_h_index_none(t);
        lemma_split_two(m, ss, ':');
        lemma_parse_digits(m);
        lemma_parse_digits(ss);
        assert((sec / 60) * 60 + sec % 60 == sec);
    } else {
        let h = decimal((sec / 3600) as nat);
        let mm = decimal2(((sec % 3600) / 60) as nat);
        lemma_decimal_digits((sec / 3600) as nat);
        lemma_decimal2_digits(((sec % 3600) / 60) as nat);
        lemma_digits_plain(h);
        lemma_digits_plain(mm);
        assert forall|i: int| 0 <= i < t.len() implies t[i] != 'h' && t[i] != 'H' by {
            if i < h.len() {
                assert(t[i] == h[i]);
            } else if h.len() < i < h.len() + 1 + mm.len() {
                assert(t[i] == mm[i - h.len() - 1]);
            } else if i > h.len() + 1 + mm.len() {
                assert(t[i] == ss[i - h.len() - 2 - mm.len()]);
            }
        }
        assert(t[0] == h[0]);
        assert(t.last() == ss.last());
        lemma_trim_noop(t);
        lemma_h_index_none(t);
        lemma_split_three(h, mm, ss, ':');
        lemma_parse_digits(h);
        lemma_parse_digits(mm);
        lemma_parse_digits(ss);
        assert((sec / 3600) * 3600 + ((sec % 3600) / 60) * 60 + sec % 60 == sec) by (nonlinear_arith);
        assert(split_on(t, ':').len() == 3);
    }
}

// ---------------------------------------------------------------------------
// Queue rows
// ---------------------------------------------------------------------------

/// The text "—" that marks a queue without a time.
pub open spec fn dash() -> Seq<char> {
    seq!['—']
}

/// The seconds that a displayed time holds, when it holds a real duration.
pub open spec fn secs_of_text(t: Seq<char>) -> Option<u32> {
    if spec_parse_time(t) < NO_TIME {
        Some(spec_parse_time(t))
    } else {
        None
    }
}

/// One region's queue times in one game mode.
#[derive(Debug, Clone, PartialEq, Eq)]
pub struct RegionQueueData {
    pub flag: String,
    pub name: String,
    /// "Standard" or "Event".
    pub mode: String,
    pub survivor: String,
    pub killer: String,
    pub survivor_secs: Option<u32>,
    pub killer_secs: Option<u32>,
}

/// Whether `s` is the text "—".
pub fn is_dash(s: &str) -> (r: bool)
    ensures
        r == (s@ == dash()),
{
    let v = chars_of(s);
    if v.len() == 1 && v[0] == '—' {
        assert(v@ =~= dash());
        true
    } else {
        false
    }
}

impl RegionQueueData {
    /// Whether the row is disabled: both roles show "—".
    pub open spec fn disabled(&self) -> bool {
        self.survivor@ == dash() && self.killer@ == dash()
    }

    /// A row from displayed times; the seconds are read from the texts.
    pub fn new(flag: &str, name: &str, mode: &str, survivor: &str, killer: &str) -> (r: Self)
        ensures
            r.flag@ == flag@,
            r.name@ == name@,
            r.mode@ == mode@,
            r.survivor@ == survivor@,
            r.killer@ == killer@,
            r.survivor_secs == secs_of_text(survivor@),
            r.killer_secs == secs_of_text(killer@),
    {
        let s = parse_time_to_seconds(survivor);
        let k = parse_time_to_seconds(killer);
        RegionQueueData {
            flag: String::from_str(flag),
            name: String::from_str(name),
            mode: String::from_str(mode),
            survivor: String::from_str(survivor),
            killer: String::from_str(killer),
            survivor_secs: if s < NO_TIME {
                Some(s)
            } else {
                None
            },
            killer_secs: if k < NO_TIME {
                Some(k)
            } else {
                None
            },
        }
    }

    pub fn is_disabled(&self) -> (r: bool)
        ensures
            r == self.disabled(),
    {
        is_dash(self.survivor.as_str()) && is_dash(self.killer.as_str())
    }

    /// Whether the row can be shown in `format` once its seconds are known.
    pub open spec fn reformattable(&self, format: TimeFormat) -> bool {
        &&& opt_formattable(self.survivor_secs, format)
        &&& opt_formattable(self.killer_secs, format)
    }

    /// Shows the row's times in `format`, reading the seconds from the texts
    /// first where they are not known yet.
    pub fn reformat(&mut self, format: TimeFormat)
        requires
            old(self).reformattable(format),
        ensures
            final(self).flag == old(self).flag,
            final(self).name == old(self).name,
            final(self).mode == old(self).mode,
            final(self).survivor_secs == (match old(self).survivor_secs {
                Some(s) => Some(s),
                None => secs_of_text(old(self).survivor@),
            }),
            final(self).killer_secs == (match old(self).killer_secs {
                Some(s) => Some(s),
                None => secs_of_text(old(self).killer@),
            }),
            final(self).survivor@ == spec_format_seconds_opt(final(self).survivor_secs, format),
            final(self).killer@ == spec_format_seconds_opt(final(self).killer_secs, format),
            crate::app::row_reformatted(*old(self), *final(self), format),
    {
        if self.survivor_secs.is_none() {
            let s = parse_time_to_seconds(self.survivor.as_str());
            if s < NO_TIME {
                self.survivor_secs = Some(s);
            }
        }
        if self.killer_secs.is_none() {
            let k = parse_time_to_seconds(self.killer.as_str());
            if k < NO_TIME {
                self.killer_secs = Some(k);
            }
        }
        self.survivor = format_seconds_opt(self.survivor_secs, format);
        self.killer = format_seconds_opt(self.killer_secs, format);
    }
}

/// Whether a row counts toward the disabled regions: a disabled Standard row.
pub open spec fn counts_as_disabled(q: RegionQueueData) -> bool {
    q.mode@ == "Standard"@ && q.disabled() && aws_code_of(q.name@) is Some
}

/// The AWS codes of the regions whose Standard queue is disabled.
pub open spec fn disabled_codes(queues: Seq<RegionQueueData>) -> Set<Seq<char>> {
    Set::new(
        |c: Seq<char>|
            exists|i: int|
                0 <= i < queues.len() && counts_as_disabled(#[trigger] queues[i]) && (aws_code_of(
                    queues[i].name@,
                )->0)@ == c,
    )
}

/// The AWS codes of the regions whose Standard queue is disabled.
pub fn get_disabled_aws_regions(queues: &[RegionQueueData]) -> (r: StringSet)
    ensures
        r@ == disabled_codes(queues@),
{
    let mut disabled = StringSet::new();
    let mut i: usize = 0;
    while i < queues.len()
        invariant
            0 <= i <= queues@.len(),
            forall|c: Seq<char>|
                disabled@.contains(c) <==> exists|j: int|
                    0 <= j < i && counts_as_disabled(#[trigger] queues@[j]) && (aws_code_of(
                        queues@[j].name@,
                    )->0)@ == c,
        decreases queues@.len() - i,
    {
        let q = &queues[i];
        if str_eq(q.mode.as_str(), "Standard") && q.is_disabled() {
            if let Some(code) = aws_code_for_name(q.name.as_str()) {
                disabled.insert(String::from_str(code));
            }
        }
        i += 1;
    }
    assert(disabled@ =~= disabled_codes(queues@));
    disabled
}

// ---------------------------------------------------------------------------
// Region names typed by the user
// ---------------------------------------------------------------------------

/// Spellings without accents or spaces, and the region name they stand for.
pub open spec fn normalized_names() -> Seq<(&'static str, &'static str)> {
    seq![
        ("sao paulo", "São Paulo"),
        ("sao_paulo", "São Paulo"),
        ("saopaulo", "São Paulo"),
        ("hong kong", "Hong Kong"),
        ("hong_kong", "Hong Kong"),
        ("hongkong", "Hong Kong"),
        ("montreal", "Montréal"),
    ]
}

fn get_normalized_names() -> (r: Vec<(&'static str, &'static str)>)
    ensures
        r@ == normalized_names(),
{
    let r = vec![
        ("sao paulo", "São Paulo"),
        ("sao_paulo", "São Paulo"),
        ("saopaulo", "São Paulo"),
        ("hong kong", "Hong Kong"),
        ("hong_kong", "Hong Kong"),
        ("hongkong", "Hong Kong"),
        ("montreal", "Montréal"),
    ];
    assert(r@ =~= normalized_names());
    r
}

/// The region name that one typed word (or phrase) stands for: a known
/// spelling, an AWS code, or a region name in any case.
pub open spec fn word_name(w: Seq<char>) -> Option<Seq<char>> {
    let l = lowercase(w);
    if lookup(normalized_names(), l) is Some {
        Some((lookup(normalized_names(), l)->0)@)
    } else if api_name_of(l) is Some {
        Some((api_name_of(l)->0)@)
    } else if aws_code_of(capitalized(l)) is Some {
        Some(capitalized(l))
    } else {
        None
    }
}

/// The region name that two consecutive words spell together, such as "sao paulo".
pub open spec fn pair_name(w0: Seq<char>, w1: Seq<char>) -> Option<Seq<char>> {
    match lookup(normalized_names(), lowercase(w0) + seq![' '] + lowercase(w1)) {
        Some(n) => Some(n@),
        None => None,
    }
}

pub open spec fn opt_seq(o: Option<Seq<char>>) -> Seq<Seq<char>> {
    match o {
        Some(x) => seq![x],
        None => Seq::empty(),
    }
}

/// The region names found in a list of words, two-word names first.
pub open spec fn resolve_words(ws: Seq<Seq<char>>) -> Seq<Seq<char>>
    decreases ws.len(),
{
    if ws.len() == 0 {
        Seq::empty()
    } else if ws.len() >= 2 && pair_name(ws[0], ws[1]) is Some {
        seq![pair_name(ws[0], ws[1])->0] + resolve_words(ws.skip(2))
    } else {
        opt_seq(word_name(ws[0])) + resolve_words(ws.skip(1))
    }
}

/// The region names in one comma-separated part: the whole part if it names a
/// region, else the names among its words.
pub open spec fn resolve_part(p: Seq<char>) -> Seq<Seq<char>> {
    match word_name(p) {
        Some(n) => seq![n],
        None => resolve_words(ws_words(p)),
    }
}

/// The trimmed pieces that are not empty.
pub open spec fn nonempty_trimmed(ps: Seq<Seq<char>>) -> Seq<Seq<char>>
    decreases ps.len(),
{
    if ps.len() == 0 {
        Seq::empty()
    } else {
        let r = nonempty_trimmed(ps.drop_last());
        if trim(ps.last()).len() > 0 {
            r.push(trim(ps.last()))
        } else {
            r
        }
    }
}

pub open spec fn resolve_parts(ps: Seq<Seq<char>>) -> Seq<Seq<char>>
    decreases ps.len(),
{
    if ps.len() == 0 {
        Seq::empty()
    } else {
        resolve_parts(ps.drop_last()) + resolve_part(ps.last())
    }
}

/// The region names that the user's words stand for: the words are joined
/// with spaces and split on commas, and each part is resolved.
pub open spec fn spec_resolve_region_names(words: Seq<Seq<char>>) -> Seq<Seq<char>> {
    resolve_parts(nonempty_trimmed(split_on(join_spaced(words), ',')))
}

fn word_name_of(w: &str) -> (r: Option<String>)
    ensures
        r matches Some(x) ==> word_name(w@) == Some(x@),
        r is None ==> word_name(w@) is None,
{
    let l = to_lowercase(w);
    let norm = get_normalized_names();
    if let Some(n) = lookup_in(&norm, l.as_str()) {
        return Some(String::from_str(n));
    }
    if let Some(n) = api_name_for_code(l.as_str()) {
        return Some(String::from_str(n));
    }
    let cap = capitalize(l.as_str());
    if aws_code_for_name(cap.as_str()).is_some() {
        return Some(cap);
    }
    None
}

fn pair_name_of(w0: &Vec<char>, w1: &Vec<char>) -> (r: Option<String>)
    ensures
        r matches Some(x) ==> pair_name(w0@, w1@) == Some(x@),
        r is None ==> pair_name(w0@, w1@) is None,
{
    let s0 = string_from_chars(w0);
    let s1 = string_from_chars(w1);
    let l0 = to_lowercase(s0.as_str());
    let l1 = to_lowercase(s1.as_str());
    let mut both = chars_of(l0.as_str());
    both.push(' ');
    push_str(&mut both, l1.as_str());
    assert(both@ =~= lowercase(w0@) + seq![' '] + lowercase(w1@));
    let joined = string_from_chars(&both);
    let norm = get_normalized_names();
    match lookup_in(&norm, joined.as_str()) {
        Some(n) => Some(String::from_str(n)),
        None => None,
    }
}

fn resolve_words_into(ws: &Vec<Vec<char>>, out: &mut Vec<String>)
    ensures
        string_views(final(out)@) == string_views(old(out)@) + resolve_words(views(ws@)),
{
    let ghost all = views(ws@);
    let ghost start = string_views(out@);
    let mut i: usize = 0;
    assert(all.skip(0) =~= all);
    assert(start + Seq::<Seq<char>>::empty() =~= start);
    while i < ws.len()
        invariant
            0 <= i <= ws@.len(),
            all == views(ws@),
            string_views(out@) + resolve_words(all.skip(i as int)) == start + resolve_words(all),
        decreases ws@.len() - i,
    {
        let ghost rest = all.skip(i as int);
        let ghost before = string_views(out@);
        assert(rest[0] == ws@[i as int]@);
        if i + 1 < ws.len() {
            assert(rest[1] == ws@[i + 1]@);
            let pn = pair_name_of(&ws[i], &ws[i + 1]);
            if let Some(n) = pn {
                let ghost nv = n@;
                out.push(n);
                assert(string_views(out@) =~= before.push(nv));
                assert(rest.skip(2) =~= all.skip(i + 2));
                assert(before.push(nv) + resolve_words(all.skip(i + 2)) =~= before + (seq![nv]
                    + resolve_words(rest.skip(2))));
                i += 2;
                continue;
            }
        }
        let w = string_from_chars(&ws[i]);
        let wn = word_name_of(w.as_str());
        assert(rest.skip(1) =~= all.skip(i + 1));
        match wn {
            Some(n) => {
                let ghost nv = n@;
                out.push(n);
                assert(string_views(out@) =~= before.push(nv));
                assert(before.push(nv) + resolve_words(all.skip(i + 1)) =~= before + (seq![nv]
                    + resolve_words(rest.skip(1))));
            },
            None => {
                assert(opt_seq(word_name(rest[0])) =~= Seq::<Seq<char>>::empty());
                assert(before + resolve_words(all.skip(i + 1)) =~= before + (Seq::<
                    Seq<char>,
                >::empty() + resolve_words(rest.skip(1))));
            },
        }
        i += 1;
    }
    assert(all.skip(ws@.len() as int) =~= Seq::<Seq<char>>::empty());
    assert(string_views(out@) + Seq::<Seq<char>>::empty() =~= string_views(out@));
}

/// Turns what the user typed ("Frankfurt,Dublin", "sao paulo, montreal",
/// "us-east-1") into region names as the queue site writes them.
pub fn resolve_region_names(words_list: &[String]) -> (r: Vec<String>)
    ensures
        string_views(r@) == spec_resolve_region_names(string_views(words_list@)),
{
    let raw = join_with_spaces(words_list);
    let pieces = split_range(&raw, 0, raw.len(), ',');
    assert(raw@.subrange(0, raw@.len() as int) =~= raw@);
    let ghost ps = views(pieces@);
    let mut resolved: Vec<String> = Vec::new();
    let mut k: usize = 0;
    assert(ps.take(0) =~= Seq::<Seq<char>>::empty());
    while k < pieces.len()
        invariant
            0 <= k <= pieces@.len(),
            ps == views(pieces@),
            string_views(resolved@) == resolve_parts(nonempty_trimmed(ps.take(k as int))),
        decreases pieces@.len() - k,
    {
        let piece = &pieces[k];
        let (a, b) = trim_range(piece, 0, piece.len());
        assert(piece@.subrange(0, piece@.len() as int) =~= piece@);
        assert(ps.take(k + 1).drop_last() =~= ps.take(k as int));
        assert(ps.take(k + 1).last() == piece@);
        let ghost part = trim(piece@);
        let ghost prev = nonempty_trimmed(ps.take(k as int));
        if a < b {
            assert(nonempty_trimmed(ps.take(k + 1)) == prev.push(part));
            assert(prev.push(part).drop_last() =~= prev);
            assert(resolve_parts(prev.push(part)) == resolve_parts(prev) + resolve_part(part));
            let ghost before = string_views(resolved@);
            let mut pv: Vec<char> = Vec::new();
            let mut j = a;
            while j < b
                invariant
                    a <= j <= b <= piece@.len(),
                    pv@ == piece@.subrange(a as int, j as int),
                decreases b - j,
            {
                pv.push(piece[j]);
                j += 1;
                assert(pv@ =~= piece@.subrange(a as int, j as int));
            }
            let part_str = string_from_chars(&pv);
            assert(part_str@ == part);
            match word_name_of(part_str.as_str()) {
                Some(n) => {
                    let ghost nv = n@;
                    resolved.push(n);
                    assert(string_views(resolved@) =~= before + seq![nv]);
                },
                None => {
                    let words = split_whitespace_range(piece, a, b);
                    resolve_words_into(&words, &mut resolved);
                },
            }
        } else {
            assert(nonempty_trimmed(ps.take(k + 1)) == prev);
        }
        k += 1;
    }
    assert(ps.take(pieces@.len() as int) =~= ps);
    resolved
}

/// The AWS codes that a resolved region name stands for.
pub open spec fn code_entry(n: Seq<char>) -> Seq<Seq<char>> {
    if aws_code_of(n) is Some {
        seq![(aws_code_of(n)->0)@]
    } else if is_region(n) {
        seq![n]
    } else {
        Seq::empty()
    }
}

pub open spec fn codes_of(ns: Seq<Seq<char>>) -> Seq<Seq<char>>
    decreases ns.len(),
{
    if ns.len() == 0 {
        Seq::empty()
    } else {
        codes_of(ns.drop_last()) + code_entry(ns.last())
    }
}

/// The AWS codes of the regions that the user's words name: every resolved
/// name has a code, so the result is each resolved name's code, in order,
/// and each is one of the game's regions.
pub fn resolve_to_aws_codes(words_list: &[String]) -> (r: Vec<String>)
    ensures
        string_views(r@) == codes_of(spec_resolve_region_names(string_views(words_list@))),
        forall|k: int|
            0 <= k < spec_resolve_region_names(string_views(words_list@)).len() ==> aws_code_of(
                #[trigger] spec_resolve_region_names(string_views(words_list@))[k],
            ) is Some,
        string_views(r@) == spec_resolve_region_names(string_views(words_list@)).map_values(
            |n: Seq<char>| (aws_code_of(n)->0)@,
        ),
        forall|k: int| 0 <= k < r@.len() ==> is_region(#[trigger] r@[k]@),
{
    proof {
        crate::properties::lemma_resolved_names_coded(string_views(words_list@));
    }
    let names = resolve_region_names(words_list);
    let ghost ns = string_views(names@);
    let mut resolved: Vec<String> = Vec::new();
    let mut i: usize = 0;
    assert(ns.take(0) =~= Seq::<Seq<char>>::empty());
    while i < names.len()
        invariant
            0 <= i <= names@.len(),
            ns == string_views(names@),
            string_views(resolved@) == codes_of(ns.take(i as int)),
        decreases names@.len() - i,
    {
        let ghost before = string_views(resolved@);
        assert(ns.take(i + 1).drop_last() =~= ns.take(i as int));
        assert(ns.take(i + 1).last() == names@[i as int]@);
        let r = names[i].as_str();
        if let Some(code) = aws_code_for_name(r) {
            resolved.push(String::from_str(code));
            assert(string_views(resolved@) =~= before + seq![code@]);
        } else if is_aws_region(r) {
            resolved.push(String::from_str(r));
            assert(string_views(resolved@) =~= before + seq![r@]);
        } else {
            assert(before + Seq::<Seq<char>>::empty() =~= before);
        }
        i += 1;
    }
    assert(ns.take(names@.len() as int) =~= ns);
    assert forall|k: int| 0 <= k < resolved@.len() implies is_region(#[trigger] resolved@[k]@) by {
        assert(string_views(resolved@)[k] == resolved@[k]@);
    }
    resolved
}

// ---------------------------------------------------------------------------
// The queue site's answers
// ---------------------------------------------------------------------------

/// An in-game event with its start and end as Unix seconds in text.
#[derive(Debug, Clone, PartialEq, Eq)]
pub struct EventItem {
    pub name: String,
    pub start: String,
    pub end: String,
}

/// The queue site's news: whether the game is online, and the running and
/// the coming events.
#[derive(Debug, Clone, PartialEq, Eq)]
pub struct MiscResponse {
    pub online: bool,
    pub current_events: Vec<EventItem>,
    pub upcoming_events: Vec<EventItem>,
}

/// The queue times of one region in one mode, as the site reports them:
/// seconds in text, for each role where it has one.
#[derive(Debug, Clone, PartialEq, Eq)]
pub struct QueueSample {
    pub killer: Option<String>,
    pub survivor: Option<String>,
}

/// The queue site's report: when it was updated, and for each mode key
/// ("live", "live-event") the samples of each AWS region.
#[derive(Debug, Clone, PartialEq, Eq)]
pub struct QueueReport {
    pub last_updated: i64,
    pub modes: Vec<(String, Vec<(String, QueueSample)>)>,
}

/// The samples of a mode key (its first entry).
pub open spec fn mode_lookup(modes: Seq<(String, Vec<(String, QueueSample)>)>, key: Seq<char>) -> Option<
    Seq<(String, QueueSample)>,
>
    decreases modes.len(),
{
    if modes.len() == 0 {
        None
    } else if modes[0].0@ == key {
        Some(modes[0].1@)
    } else {
        mode_lookup(modes.drop_first(), key)
    }
}

/// The sample of a region (its first entry).
pub open spec fn sample_lookup(samples: Seq<(String, QueueSample)>, code: Seq<char>) -> Option<QueueSample>
    decreases samples.len(),
{
    if samples.len() == 0 {
        None
    } else if samples[0].0@ == code {
        Some(samples[0].1)
    } else {
        sample_lookup(samples.drop_first(), code)
    }
}

/// The seconds of a reported time, where it reads as a `u32`.
pub open spec fn sample_secs(t: Option<String>) -> Option<u32> {
    match t {
        Some(s) => parse_u32(s@),
        None => None,
    }
}

/// The fields of a row: flag, name, mode, survivor and killer text, and
/// survivor and killer seconds.
pub type RowFields = (Seq<char>, Seq<char>, Seq<char>, Seq<char>, Seq<char>, Option<u32>, Option<u32>);

pub open spec fn row_fields(r: RegionQueueData) -> RowFields {
    (r.flag@, r.name@, r.mode@, r.survivor@, r.killer@, r.survivor_secs, r.killer_secs)
}

/// The row of an AWS region in a mode: named and tagged as the site names it
/// (its code where there is no name), with its times in exact form, or
/// dashes when the site has no sample for it.
pub open spec fn region_row(mode: Seq<char>, code: Seq<char>, sample: Option<QueueSample>) -> RowFields {
    let name = match api_name_of(code) {
        Some(n) => n@,
        None => code,
    };
    let flag = match flag_of(code) {
        Some(f) => f@,
        None => Seq::empty(),
    };
    match sample {
        Some(q) => {
            let s = sample_secs(q.survivor);
            let k = sample_secs(q.killer);
            (
                flag,
                name,
                mode,
                spec_format_seconds_opt(s, TimeFormat::Exact),
                spec_format_seconds_opt(k, TimeFormat::Exact),
                s,
                k,
            )
        },
        None => (flag, name, mode, seq!['—'], seq!['—'], None, None),
    }
}

/// The rows of a mode, one per region in the table's order; none when the
/// report lacks the mode.
pub open spec fn mode_rows(mode: Seq<char>, samples: Option<Seq<(String, QueueSample)>>) -> Seq<RowFields> {
    match samples {
        Some(q) => all_regions().map_values(|c: &'static str| region_row(mode, c@, sample_lookup(q, c@))),
        None => Seq::empty(),
    }
}

/// The rows of a report: the Standard rows ("live"), then the Event rows
/// ("live-event").
pub open spec fn report_rows(rep: QueueReport) -> Seq<RowFields> {
    mode_rows("Standard"@, mode_lookup(rep.modes@, "live"@)) + mode_rows(
        "Event"@,
        mode_lookup(rep.modes@, "live-event"@),
    )
}

fn find_mode<'a>(modes: &'a Vec<(String, Vec<(String, QueueSample)>)>, key: &str) -> (r: Option<&'a Vec<(String, QueueSample)>>)
    ensures
        match r {
            Some(v) => mode_lookup(modes@, key@) == Some(v@),
            None => mode_lookup(modes@, key@) is None,
        },
{
    let mut i: usize = 0;
    assert(modes@.skip(0) =~= modes@);
    while i < modes.len()
        invariant
            0 <= i <= modes@.len(),
            mode_lookup(modes@, key@) == mode_lookup(modes@.skip(i as int), key@),
        decreases modes@.len() - i,
    {
        assert(modes@.skip(i as int).drop_first() =~= modes@.skip(i + 1));
        if str_eq(modes[i].0.as_str(), key) {
            return Some(&modes[i].1);
        }
        i += 1;
    }
    None
}

fn find_sample<'a>(samples: &'a Vec<(String, QueueSample)>, code: &str) -> (r: Option<&'a QueueSample>)
    ensures
        match r {
            Some(q) => sample_lookup(samples@, code@) == Some(*q),
            None => sample_lookup(samples@, code@) is None,
        },
{
    let mut i: usize = 0;
    assert(samples@.skip(0) =~= samples@);
    while i < samples.len()
        invariant
            0 <= i <= samples@.len(),
            sample_lookup(samples@, code@) == sample_lookup(samples@.skip(i as int), code@),
        decreases samples@.len() - i,
    {
        assert(samples@.skip(i as int).drop_first() =~= samples@.skip(i + 1));
        if str_eq(samples[i].0.as_str(), code) {
            return Some(&samples[i].1);
        }
        i += 1;
    }
    None
}

fn secs_of_sample(t: &Option<String>) -> (r: Option<u32>)
    ensures
        r == sample_secs(*t),
{
    match t {
        Some(s) => {
            let v = chars_of(s.as_str());
            assert(v@.subrange(0, v@.len() as int) =~= v@);
            parse_u32_range(&v, 0, v.len())
        },
        None => None,
    }
}

fn dash_string() -> (r: String)
    ensures
        r@ == seq!['—'],
{
    let mut v: Vec<char> = Vec::new();
    v.push('—');
    string_from_chars(&v)
}

fn region_row_of(mode: &str, code: &str, sample: Option<&QueueSample>) -> (r: RegionQueueData)
    ensures
        row_fields(r) == region_row(mode@, code@, match sample {
            Some(q) => Some(*q),
            None => None,
        }),
{
    let name = match api_name_for_code(code) {
        Some(n) => n,
        None => code,
    };
    let flag = match flag_for_code(code) {
        Some(f) => String::from_str(f),
        None => string_from_chars(&Vec::new()),
    };
    match sample {
        Some(q) => {
            let s = secs_of_sample(&q.survivor);
            let k = secs_of_sample(&q.killer);
            RegionQueueData {
                flag,
                name: String::from_str(name),
                mode: String::from_str(mode),
                survivor: format_seconds_opt(s, TimeFormat::Exact),
                killer: format_seconds_opt(k, TimeFormat::Exact),
                survivor_secs: s,
                killer_secs: k,
            }
        },
        None => RegionQueueData {
            flag,
            name: String::from_str(name),
            mode: String::from_str(mode),
            survivor: dash_string(),
            killer: dash_string(),
            survivor_secs: None,
            killer_secs: None,
        },
    }
}

fn push_mode_rows(out: &mut Vec<RegionQueueData>, mode: &str, samples: Option<&Vec<(String, QueueSample)>>)
    ensures
        final(out)@.map_values(|r: RegionQueueData| row_fields(r)) == old(out)@.map_values(
            |r: RegionQueueData| row_fields(r),
        ) + mode_rows(mode@, match samples {
            Some(v) => Some(v@),
            None => None,
        }),
{
    let ghost start = out@.map_values(|r: RegionQueueData| row_fields(r));
    match samples {
        Some(q) => {
            let all = get_all_aws_regions();
            let ghost want = mode_rows(mode@, Some(q@));
            let mut i: usize = 0;
            while i < all.len()
                invariant
                    0 <= i <= all@.len(),
                    all@ == all_regions(),
                    want == all_regions().map_values(
                        |c: &'static str| region_row(mode@, c@, sample_lookup(q@, c@)),
                    ),
                    out@.map_values(|r: RegionQueueData| row_fields(r)) == start + want.take(i as int),
                decreases all@.len() - i,
            {
                let ghost before = out@;
                let row = region_row_of(mode, all[i], find_sample(q, all[i]));
                out.push(row);
                assert(out@ =~= before.push(row));
                assert(out@.map_values(|r: RegionQueueData| row_fields(r)) =~= before.map_values(
                    |r: RegionQueueData| row_fields(r),
                ).push(row_fields(row)));
                assert(want.take(i + 1) =~= want.take(i as int).push(want[i as int]));
                i += 1;
            }
            assert(want.take(all@.len() as int) =~= want);
        },
        None => {
            assert(out@.map_values(|r: RegionQueueData| row_fields(r)) =~= start + Seq::<RowFields>::empty());
        },
    }
}

/// The table rows of a queue report, with its update time.
pub fn rows_from_report(rep: &QueueReport) -> (r: (Vec<RegionQueueData>, i64))
    ensures
        r.0@.map_values(|r: RegionQueueData| row_fields(r)) == report_rows(*rep),
        r.1 == rep.last_updated,
{
    let mut out: Vec<RegionQueueData> = Vec::new();
    assert(out@.map_values(|r: RegionQueueData| row_fields(r)) =~= Seq::<RowFields>::empty());
    push_mode_rows(&mut out, "Standard", find_mode(&rep.modes, "live"));
    push_mode_rows(&mut out, "Event", find_mode(&rep.modes, "live-event"));
    assert(out@.map_values(|r: RegionQueueData| row_fields(r)) =~= report_rows(*rep));
    (out, rep.last_updated)
}

/// The start of a body for an error message: its first 80 characters with
/// line breaks turned into spaces, trimmed.
pub open spec fn snippet_of(t: Seq<char>) -> Seq<char> {
    let head = if t.len() > 80 {
        t.take(80)
    } else {
        t
    };
    trim(head.map_values(|c: char| if c == '\r' || c == '\n' {
        ' '
    } else {
        c
    }))
}

/// Why a body from the queue site cannot be JSON: it is empty, or it is an
/// HTML page (it starts with `<`); none otherwise.
pub open spec fn queue_body_error(body: Seq<char>, status: u16) -> Option<Seq<char>> {
    let t = trim(body);
    if t.len() == 0 {
        Some("Empty response received from API (HTTP "@ + decimal(status as nat) + ")"@)
    } else if t[0] == '<' {
        Some(
            "Received HTML block/page instead of JSON (HTTP "@ + decimal(status as nat) + "): "@
                + snippet_of(t) + "..."@,
        )
    } else {
        None
    }
}

/// The start of a body, for an error message.
pub fn body_snippet(t: &str) -> (r: String)
    ensures
        r@ == snippet_of(t@),
{
    let v = chars_of(t);
    let n: usize = if v.len() > 80 {
        80
    } else {
        v.len()
    };
    let mut w: Vec<char> = Vec::new();
    let mut i: usize = 0;
    let ghost head = if t@.len() > 80 {
        t@.take(80)
    } else {
        t@
    };
    assert(head.len() == n);
    while i < n
        invariant
            0 <= i <= n <= v@.len(),
            v@ == t@,
            head.len() == n,
            head == (if t@.len() > 80 {
                t@.take(80)
            } else {
                t@
            }),
            w@ == head.take(i as int).map_values(|c: char| if c == '\r' || c == '\n' {
                ' '
            } else {
                c
            }),
        decreases n - i,
    {
        let c = v[i];
        assert(head[i as int] == c);
        if c == '\r' || c == '\n' {
            w.push(' ');
        } else {
            w.push(c);
        }
        i += 1;
        assert(w@ =~= head.take(i as int).map_values(|c: char| if c == '\r' || c == '\n' {
            ' '
        } else {
            c
        }));
    }
    assert(head.take(n as int) =~= head);
    let (a, b) = trim_range(&w, 0, w.len());
    assert(w@.subrange(0, w@.len() as int) =~= w@);
    let t2 = subrange_chars(&w, a, b);
    string_from_chars(&t2)
}

/// The body trimmed, where it can be JSON; else why not.
pub fn check_queue_body(body: &str, status: u16) -> (r: Result<String, String>)
    ensures
        match r {
            Ok(t) => queue_body_error(body@, status) is None && t@ == trim(body@),
            Err(e) => queue_body_error(body@, status) == Some(e@),
        },
{
    let t = trim_str(body);
    let tv = chars_of(t.as_str());
    if tv.len() == 0 {
        let mut m: Vec<char> = Vec::new();
        push_str(&mut m, "Empty response received from API (HTTP ");
        push_decimal(&mut m, status as u64);
        push_str(&mut m, ")");
        return Err(string_from_chars(&m));
    }
    if tv[0] == '<' {
        let mut m: Vec<char> = Vec::new();
        push_str(&mut m, "Received HTML block/page instead of JSON (HTTP ");
        push_decimal(&mut m, status as u64);
        push_str(&mut m, "): ");
        let sn = body_snippet(t.as_str());
        push_str(&mut m, sn.as_str());
        push_str(&mut m, "...");
        return Err(string_from_chars(&m));
    }
    Ok(t)
}

/// The address of the queue site: the environment's, else the
/// configuration's, each trimmed and only where not blank; else the public
/// site.
pub open spec fn api_url_from(env: Option<Seq<char>>, config: Option<Seq<char>>) -> Seq<char> {
    match env {
        Some(e) if trim(e).len() > 0 => trim(e),
        _ => match config {
            Some(c) if trim(c).len() > 0 => trim(c),
            _ => DEFAULT_API_URL@,
        },
    }
}

/// The public queue site.
pub const DEFAULT_API_URL: &'static str = "https://api2.deadbyqueue.com/queues";

/// The address of the queue site, from the `DBD_API_URL` environment
/// variable (`env`) and the configuration's `api_url` (`config`).
pub fn select_api_url(env: Option<&str>, config: Option<&str>) -> (r: String)
    ensures
        r@ == api_url_from(
            match env {
                Some(e) => Some(e@),
                None => None,
            },
            match config {
                Some(c) => Some(c@),
                None => None,
            },
        ),
{
    if let Some(e) = env {
        let t = trim_str(e);
        if t.unicode_len() > 0 {
            return t;
        }
    }
    if let Some(c) = config {
        let t = trim_str(c);
        if t.unicode_len() > 0 {
            return t;
        }
    }
    String::from_str(DEFAULT_API_URL)
}

} // verus!
