//! Character-level text helpers: whitespace trimming, decimal numbers,
//! splitting on a separator and ordering of strings by code point.
use vstd::prelude::*;

verus! {

/// Unicode `White_Space` characters, the set that `char::is_whitespace` tests.
pub open spec fn is_ws(c: char) -> bool {
    let u = c as u32;
    ||| 0x09 <= u <= 0x0d
    ||| u == 0x20
    ||| u == 0x85
    ||| u == 0xa0
    ||| u == 0x1680
    ||| 0x2000 <= u <= 0x200a
    ||| u == 0x2028
    ||| u == 0x2029
    ||| u == 0x202f
    ||| u == 0x205f
    ||| u == 0x3000
}

pub fn is_whitespace_char(c: char) -> (r: bool)
    ensures
        r == is_ws(c),
{
    let u = c as u32;
    (0x09 <= u && u <= 0x0d) || u == 0x20 || u == 0x85 || u == 0xa0 || u == 0x1680 || (0x2000
        <= u && u <= 0x200a) || u == 0x2028 || u == 0x2029 || u == 0x202f || u == 0x205f || u
        == 0x3000
}

/// `s` without its leading whitespace.
pub open spec fn trim_start(s: Seq<char>) -> Seq<char>
    decreases s.len(),
{
    if s.len() > 0 && is_ws(s[0]) {
        trim_start(s.drop_first())
    } else {
        s
    }
}

/// `s` without its trailing whitespace.
pub open spec fn trim_end(s: Seq<char>) -> Seq<char>
    decreases s.len(),
{
    if s.len() > 0 && is_ws(s.last()) {
        trim_end(s.drop_last())
    } else {
        s
    }
}

/// `s` without leading and trailing whitespace, as `str::trim` gives it.
pub open spec fn trim(s: Seq<char>) -> Seq<char> {
    trim_end(trim_start(s))
}

pub open spec fn is_digit(c: char) -> bool {
    '0' <= c <= '9'
}

pub open spec fn digit_val(c: char) -> nat {
    (c as u32 - '0' as u32) as nat
}

pub open spec fn digit_char(d: nat) -> char {
    ((d + 48) as u32) as char
}

pub open spec fn all_digits(s: Seq<char>) -> bool {
    forall|i: int| 0 <= i < s.len() ==> #[trigger] is_digit(s[i])
}

/// The number that a string of decimal digits spells.
pub open spec fn digits_value(s: Seq<char>) -> nat
    decreases s.len(),
{
    if s.len() == 0 {
        0
    } else {
        digits_value(s.drop_last()) * 10 + digit_val(s.last())
    }
}

/// What `str::parse::<u32>` gives: an optional `+`, then one or more ASCII
/// digits whose value fits in a `u32`.
pub open spec fn parse_u32(s: Seq<char>) -> Option<u32> {
    let d = if s.len() > 0 && s[0] == '+' {
        s.drop_first()
    } else {
        s
    };
    if d.len() > 0 && all_digits(d) && digits_value(d) <= u32::MAX {
        Some(digits_value(d) as u32)
    } else {
        None
    }
}

/// The decimal digits of `n`, without leading zeros.
pub open spec fn decimal(n: nat) -> Seq<char>
    decreases n,
{
    if n < 10 {
        seq![digit_char(n)]
    } else {
        decimal(n / 10).push(digit_char(n % 10))
    }
}

/// `n` written with at least two digits, as `{:02}` does.
pub open spec fn decimal2(n: nat) -> Seq<char> {
    if n < 10 {
        seq!['0'].add(decimal(n))
    } else {
        decimal(n)
    }
}

pub proof fn lemma_digit_char(d: nat)
    requires
        d < 10,
    ensures
        is_digit(digit_char(d)),
        digit_val(digit_char(d)) == d,
        digit_char(d) != '0' || d == 0,
{
    let u = (d + 48) as u32;
    assert((u as char) as u32 == u);
}

pub proof fn lemma_decimal_digits(n: nat)
    ensures
        all_digits(decimal(n)),
        decimal(n).len() >= 1,
        digits_value(decimal(n)) == n,
        n < 10 <==> decimal(n).len() == 1,
        decimal(n)[0] != '0' || n == 0,
    decreases n,
{
    if n < 10 {
        lemma_digit_char(n);
        assert(decimal(n) =~= seq![digit_char(n)]);
        assert(seq![digit_char(n)].drop_last() =~= Seq::<char>::empty());
        assert(digits_value(Seq::<char>::empty()) == 0);
    } else {
        lemma_decimal_digits(n / 10);
        lemma_digit_char(n % 10);
        let d = decimal(n / 10);
        assert(decimal(n).drop_last() =~= d);
        assert forall|i: int| 0 <= i < decimal(n).len() implies #[trigger] is_digit(
            decimal(n)[i],
        ) by {
            if i < d.len() {
                assert(decimal(n)[i] == d[i]);
            }
        }
    }
}

pub proof fn lemma_decimal2_digits(n: nat)
    ensures
        all_digits(decimal2(n)),
        decimal2(n).len() >= 2,
        digits_value(decimal2(n)) == n,
        n < 100 ==> decimal2(n).len() == 2,
{
    lemma_decimal_digits(n);
    if n < 10 {
        let s = seq!['0'].add(decimal(n));
        assert(s =~= seq!['0', digit_char(n)]);
        assert(s.drop_last() =~= seq!['0']);
        assert(seq!['0'].drop_last() =~= Seq::<char>::empty());
        assert(digits_value(Seq::<char>::empty()) == 0);
        assert(digits_value(seq!['0']) == 0);
        assert(digits_value(s) == n);
    } else if n < 100 {
        lemma_decimal_digits(n / 10);
    }
}

/// Appends the decimal digits of `n` to `out`.
pub fn push_decimal(out: &mut Vec<char>, n: u64)
    ensures
        final(out)@ == old(out)@ + decimal(n as nat),
    decreases n,
{
    if n < 10 {
        let c = char_of_digit(n);
        out.push(c);
        assert(decimal(n as nat) =~= seq![c]);
    } else {
        push_decimal(out, n / 10);
        let c = char_of_digit(n % 10);
        out.push(c);
    }
}

/// Appends `n` with at least two digits.
pub fn push_decimal2(out: &mut Vec<char>, n: u64)
    ensures
        final(out)@ == old(out)@ + decimal2(n as nat),
{
    if n < 10 {
        out.push('0');
    }
    push_decimal(out, n);
}

fn char_of_digit(d: u64) -> (c: char)
    requires
        d < 10,
    ensures
        c == digit_char(d as nat),
{
    let b: u8 = 48 + (d as u8);
    b as char
}

/// Appends the characters of `s` to `out`.
pub fn push_str(out: &mut Vec<char>, s: &str)
    ensures
        final(out)@ == old(out)@ + s@,
{
    let v = chars_of(s);
    let ghost start = out@;
    let mut i: usize = 0;
    while i < v.len()
        invariant
            0 <= i <= v.len(),
            out@ == start + v@.take(i as int),
        decreases v.len() - i,
    {
        out.push(v[i]);
        i += 1;
        assert(v@.take(i as int) =~= v@.take((i - 1) as int).push(v@[i - 1]));
    }
    assert(v@.take(v.len() as int) =~= v@);
}

/// The characters of `s`.
pub fn chars_of(s: &str) -> (v: Vec<char>)
    ensures
        v@ == s@,
{
    let mut v: Vec<char> = Vec::new();
    for c in it: s.chars()
        invariant
            v@ == it.seq().take(it.index() as int),
            it.seq() == s@,
    {
        v.push(c);
    }
    v
}

/// What `str::to_lowercase` gives for a string: its lower-case form as the
/// Unicode case tables define it.
pub uninterp spec fn lowercase(s: Seq<char>) -> Seq<char>;

/// What `char::to_uppercase` gives for a character, one or more characters.
pub uninterp spec fn uppercase_char(c: char) -> Seq<char>;

/// Calls `str::to_lowercase`; the result is named `lowercase` of the argument,
/// and nothing more is claimed of the Unicode case tables.
#[verifier::external_body]
pub(crate) fn to_lowercase(s: &str) -> (r: String)
    ensures
        r@ == lowercase(s@),
{
    s.to_lowercase()
}

/// Calls `char::to_uppercase` and collects what it yields; the result is named
/// `uppercase_char` of the argument.
#[verifier::external_body]
pub(crate) fn char_to_uppercase(c: char) -> (r: String)
    ensures
        r@ == uppercase_char(c),
{
    c.to_uppercase().collect()
}

/// Builds a `String` from characters (`FromIterator<char>` for `String`).
#[verifier::external_body]
pub(crate) fn string_from_chars(v: &Vec<char>) -> (r: String)
    ensures
        r@ == v@,
{
    v.iter().collect()
}

/// Equality of two strings, character by character.
pub fn str_eq(a: &str, b: &str) -> (r: bool)
    ensures
        r == (a@ == b@),
{
    let va = chars_of(a);
    let vb = chars_of(b);
    seq_eq(&va, &vb)
}

pub fn seq_eq(va: &Vec<char>, vb: &Vec<char>) -> (r: bool)
    ensures
        r == (va@ == vb@),
{
    if va.len() != vb.len() {
        return false;
    }
    let mut i: usize = 0;
    while i < va.len()
        invariant
            va.len() == vb.len(),
            0 <= i <= va.len(),
            forall|k: int| 0 <= k < i ==> va@[k] == vb@[k],
        decreases va.len() - i,
    {
        if va[i] != vb[i] {
            return false;
        }
        i += 1;
    }
    assert(va@ =~= vb@);
    true
}

/// The pieces of `s` between occurrences of `sep`, as `str::split(sep)` yields
/// them: one more piece than there are separators, empty pieces included.
pub open spec fn split_on(s: Seq<char>, sep: char) -> Seq<Seq<char>>
    decreases s.len(),
{
    if s.len() == 0 {
        seq![Seq::<char>::empty()]
    } else {
        let r = split_on(s.drop_last(), sep);
        if s.last() == sep {
            r.push(Seq::<char>::empty())
        } else {
            r.update(r.len() - 1, r.last().push(s.last()))
        }
    }
}

pub proof fn lemma_split_on_nonempty(s: Seq<char>, sep: char)
    ensures
        split_on(s, sep).len() >= 1,
    decreases s.len(),
{
    if s.len() > 0 {
        lemma_split_on_nonempty(s.drop_last(), sep);
    }
}

/// Index of the first `h` or `H` in `s`.
pub open spec fn h_index(s: Seq<char>) -> Option<nat>
    decreases s.len(),
{
    if s.len() == 0 {
        None
    } else if s[0] == 'h' || s[0] == 'H' {
        Some(0)
    } else {
        match h_index(s.drop_first()) {
            Some(k) => Some(k + 1),
            None => None,
        }
    }
}

/// Bounds `(a, b)` such that `v[a..b]` is `v[lo..hi]` trimmed.
pub fn trim_range(v: &Vec<char>, lo: usize, hi: usize) -> (r: (usize, usize))
    requires
        lo <= hi <= v@.len(),
    ensures
        lo <= r.0 <= r.1 <= hi,
        v@.subrange(r.0 as int, r.1 as int) == trim(v@.subrange(lo as int, hi as int)),
{
    let mut a = lo;
    while a < hi && is_whitespace_char(v[a])
        invariant
            lo <= a <= hi <= v@.len(),
            trim_start(v@.subrange(lo as int, hi as int)) == trim_start(
                v@.subrange(a as int, hi as int),
            ),
        decreases hi - a,
    {
        assert(v@.subrange(a as int, hi as int).drop_first() =~= v@.subrange(
            a + 1,
            hi as int,
        ));
        a += 1;
    }
    let mut b = hi;
    while b > a && is_whitespace_char(v[b - 1])
        invariant
            lo <= a <= b <= hi <= v@.len(),
            trim_end(v@.subrange(a as int, hi as int)) == trim_end(
                v@.subrange(a as int, b as int),
            ),
        decreases b - a,
    {
        assert(v@.subrange(a as int, b as int).drop_last() =~= v@.subrange(
            a as int,
            b - 1,
        ));
        b -= 1;
    }
    (a, b)
}

pub proof fn lemma_digits_prefix(s: Seq<char>, k: int)
    requires
        0 <= k <= s.len(),
    ensures
        digits_value(s.take(k)) <= digits_value(s),
    decreases s.len(),
{
    if k < s.len() {
        assert(s.drop_last().take(k) =~= s.take(k));
        lemma_digits_prefix(s.drop_last(), k);
    } else {
        assert(s.take(k) =~= s);
    }
}

/// `str::parse::<u32>` on `v[lo..hi]`.
pub fn parse_u32_range(v: &Vec<char>, lo: usize, hi: usize) -> (r: Option<u32>)
    requires
        lo <= hi <= v@.len(),
    ensures
        r == parse_u32(v@.subrange(lo as int, hi as int)),
{
    let ghost s = v@.subrange(lo as int, hi as int);
    let mut start = lo;
    if lo < hi && v[lo] == '+' {
        start = lo + 1;
    }
    let ghost d = v@.subrange(start as int, hi as int);
    assert(d =~= (if s.len() > 0 && s[0] == '+' {
        s.drop_first()
    } else {
        s
    }));
    if start == hi {
        return None;
    }
    let mut acc: u64 = 0;
    let mut i = start;
    while i < hi
        invariant
            lo <= start <= i <= hi <= v@.len(),
            d == v@.subrange(start as int, hi as int),
            s == v@.subrange(lo as int, hi as int),
            d.len() > 0,
            d == (if s.len() > 0 && s[0] == '+' {
                s.drop_first()
            } else {
                s
            }),
            all_digits(v@.subrange(start as int, i as int)),
            acc == digits_value(v@.subrange(start as int, i as int)),
            acc <= u32::MAX,
        decreases hi - i,
    {
        let c = v[i];
        let ghost p = v@.subrange(start as int, i as int);
        let ghost p1 = v@.subrange(start as int, i + 1);
        assert(p1.drop_last() =~= p);
        assert(d.take(i + 1 - start) =~= p1);
        if !('0' <= c && c <= '9') {
            assert(!is_digit(d[i - start]));
            return None;
        }
        let dv: u64 = (c as u32 - '0' as u32) as u64;
        acc = acc * 10 + dv;
        assert(all_digits(p1)) by {
            assert forall|k: int| 0 <= k < p1.len() implies #[trigger] is_digit(p1[k]) by {
                if k < p.len() {
                    assert(p1[k] == p[k]);
                }
            }
        }
        if acc > 4294967295 {
            proof {
                lemma_digits_prefix(d, i + 1 - start);
            }
            return None;
        }
        i += 1;
    }
    assert(v@.subrange(start as int, hi as int) =~= d);
    Some(acc as u32)
}

/// The characters `v[lo..hi]`.
pub fn subrange_chars(v: &Vec<char>, lo: usize, hi: usize) -> (r: Vec<char>)
    requires
        lo <= hi <= v@.len(),
    ensures
        r@ == v@.subrange(lo as int, hi as int),
{
    let mut r: Vec<char> = Vec::new();
    let mut i = lo;
    while i < hi
        invariant
            lo <= i <= hi <= v@.len(),
            r@ == v@.subrange(lo as int, i as int),
        decreases hi - i,
    {
        r.push(v[i]);
        i += 1;
        assert(r@ =~= v@.subrange(lo as int, i as int));
    }
    r
}

/// `s` without its leading and trailing white space (`str::trim`).
pub fn trim_str(s: &str) -> (r: String)
    ensures
        r@ == trim(s@),
{
    let v = chars_of(s);
    let (a, b) = trim_range(&v, 0, v.len());
    assert(v@.subrange(0, v@.len() as int) =~= v@);
    let t = subrange_chars(&v, a, b);
    string_from_chars(&t)
}

/// What `str::parse::<i64>` gives: an optional `+` or `-`, then one or more
/// ASCII digits whose signed value fits in an `i64`.
pub open spec fn parse_i64(s: Seq<char>) -> Option<i64> {
    let neg = s.len() > 0 && s[0] == '-';
    let d = if s.len() > 0 && (s[0] == '+' || s[0] == '-') {
        s.drop_first()
    } else {
        s
    };
    if d.len() > 0 && all_digits(d) {
        if neg {
            if digits_value(d) <= 0x8000_0000_0000_0000 {
                Some((0 - digits_value(d)) as i64)
            } else {
                None
            }
        } else if digits_value(d) <= i64::MAX {
            Some(digits_value(d) as i64)
        } else {
            None
        }
    } else {
        None
    }
}

/// `str::parse::<i64>`.
pub fn parse_i64_str(text: &str) -> (r: Option<i64>)
    ensures
        r == parse_i64(text@),
{
    let v = chars_of(text);
    let ghost s = v@;
    let hi = v.len();
    let mut start: usize = 0;
    let mut neg = false;
    if hi > 0 && (v[0] == '+' || v[0] == '-') {
        neg = v[0] == '-';
        start = 1;
    }
    let ghost d = v@.subrange(start as int, hi as int);
    assert(d =~= (if s.len() > 0 && (s[0] == '+' || s[0] == '-') {
        s.drop_first()
    } else {
        s
    }));
    if start == hi {
        return None;
    }
    let mut acc: u64 = 0;
    let mut i = start;
    while i < hi
        invariant
            start <= i <= hi == v@.len(),
            s == v@,
            s == text@,
            d == v@.subrange(start as int, hi as int),
            d.len() > 0,
            d == (if s.len() > 0 && (s[0] == '+' || s[0] == '-') {
                s.drop_first()
            } else {
                s
            }),
            neg == (s.len() > 0 && s[0] == '-'),
            all_digits(v@.subrange(start as int, i as int)),
            acc == digits_value(v@.subrange(start as int, i as int)),
            acc <= 0x8000_0000_0000_0000,
        decreases hi - i,
    {
        let c = v[i];
        let ghost p = v@.subrange(start as int, i as int);
        let ghost p1 = v@.subrange(start as int, i + 1);
        assert(p1.drop_last() =~= p);
        assert(d.take(i + 1 - start) =~= p1);
        if !('0' <= c && c <= '9') {
            assert(!is_digit(d[i - start]));
            return None;
        }
        let dv: u64 = (c as u32 - '0' as u32) as u64;
        assert(all_digits(p1)) by {
            assert forall|k: int| 0 <= k < p1.len() implies #[trigger] is_digit(p1[k]) by {
                if k < p.len() {
                    assert(p1[k] == p[k]);
                }
            }
        }
        if acc > 922337203685477580 || (acc == 922337203685477580 && dv > 8) {
            assert(digits_value(p1) > 0x8000_0000_0000_0000) by (nonlinear_arith)
                requires
                    digits_value(p1) == acc * 10 + dv,
                    acc > 922337203685477580 || (acc == 922337203685477580 && dv > 8),
            ;
            proof {
                lemma_digits_prefix(d, i + 1 - start);
            }
            return None;
        }
        acc = acc * 10 + dv;
        i += 1;
    }
    assert(v@.subrange(start as int, hi as int) =~= d);
    if neg {
        if acc == 0x8000_0000_0000_0000 {
            Some(i64::MIN)
        } else {
            let m = acc as i64;
            Some(0 - m)
        }
    } else if acc > 0x7fff_ffff_ffff_ffff {
        None
    } else {
        Some(acc as i64)
    }
}

/// Index of the first `h` or `H` in `v[lo..hi]`, counted from `lo`.
pub fn find_h(v: &Vec<char>, lo: usize, hi: usize) -> (r: Option<usize>)
    requires
        lo <= hi <= v@.len(),
    ensures
        match h_index(v@.subrange(lo as int, hi as int)) {
            Some(k) => k < hi - lo && r == Some((lo + k) as usize),
            None => r is None,
        },
        r matches Some(p) ==> lo <= p < hi,
{
    let mut i = lo;
    while i < hi
        invariant
            lo <= i <= hi <= v@.len(),
            h_index(v@.subrange(lo as int, hi as int)) == (match h_index(
                v@.subrange(i as int, hi as int),
            ) {
                Some(k) => Some((k + (i - lo)) as nat),
                None => None::<nat>,
            }),
        decreases hi - i,
    {
        assert(v@.subrange(i as int, hi as int).drop_first() =~= v@.subrange(
            i + 1,
            hi as int,
        ));
        if v[i] == 'h' || v[i] == 'H' {
            return Some(i);
        }
        i += 1;
    }
    None
}

/// `v[lo..hi]` split on `sep`.
pub fn split_range(v: &Vec<char>, lo: usize, hi: usize, sep: char) -> (r: Vec<Vec<char>>)
    requires
        lo <= hi <= v@.len(),
    ensures
        views(r@) == split_on(v@.subrange(lo as int, hi as int), sep),
{
    let mut done: Vec<Vec<char>> = Vec::new();
    let mut cur: Vec<char> = Vec::new();
    let mut i = lo;
    assert(v@.subrange(lo as int, lo as int) =~= Seq::<char>::empty());
    assert(views(done@).push(cur@) =~= seq![Seq::<char>::empty()]);
    while i < hi
        invariant
            lo <= i <= hi <= v@.len(),
            views(done@).push(cur@) == split_on(v@.subrange(lo as int, i as int), sep),
        decreases hi - i,
    {
        let ghost before = views(done@).push(cur@);
        let ghost t = v@.subrange(lo as int, i + 1);
        assert(t.drop_last() =~= v@.subrange(lo as int, i as int));
        assert(t.last() == v@[i as int]);
        let c = v[i];
        if c == sep {
            let finished = cur;
            let ghost fv = finished@;
            let ghost old_done = done@;
            done.push(finished);
            assert(views(done@) =~= views(old_done).push(fv));
            cur = Vec::new();
            assert(views(done@).push(cur@) =~= before.push(Seq::<char>::empty()));
        } else {
            cur.push(c);
            assert(views(done@).push(cur@) =~= before.update(
                before.len() - 1,
                before.last().push(c),
            ));
        }
        i += 1;
    }
    let ghost old_done = done@;
    let ghost cv = cur@;
    done.push(cur);
    assert(views(done@) =~= views(old_done).push(cv));
    done
}

/// The views of a sequence of character vectors.
pub open spec fn views(s: Seq<Vec<char>>) -> Seq<Seq<char>> {
    s.map_values(|x: Vec<char>| x@)
}

pub proof fn lemma_trim_noop(s: Seq<char>)
    requires
        s.len() > 0,
        !is_ws(s[0]),
        !is_ws(s.last()),
    ensures
        trim(s) == s,
{
}

/// Text made only of white space.
pub open spec fn all_ws(s: Seq<char>) -> bool {
    forall|i: int| 0 <= i < s.len() ==> is_ws(#[trigger] s[i])
}

/// Leading white space does not change what trimming the start leaves.
pub proof fn lemma_trim_start_pad(p: Seq<char>, x: Seq<char>)
    requires
        all_ws(p),
    ensures
        trim_start(p + x) == trim_start(x),
    decreases p.len(),
{
    if p.len() > 0 {
        assert((p + x)[0] == p[0]);
        assert((p + x).drop_first() =~= p.drop_first() + x);
        lemma_trim_start_pad(p.drop_first(), x);
    } else {
        assert(p + x =~= x);
    }
}

/// Trailing white space does not change what trimming the end leaves.
pub proof fn lemma_trim_end_pad(x: Seq<char>, q: Seq<char>)
    requires
        all_ws(q),
    ensures
        trim_end(x + q) == trim_end(x),
    decreases q.len(),
{
    if q.len() > 0 {
        assert((x + q).last() == q.last());
        assert((x + q).drop_last() =~= x + q.drop_last());
        lemma_trim_end_pad(x, q.drop_last());
    } else {
        assert(x + q =~= x);
    }
}

proof fn lemma_trim_tail_pad(s: Seq<char>, q: Seq<char>)
    requires
        all_ws(q),
    ensures
        trim_end(trim_start(s + q)) == trim_end(trim_start(s)),
    decreases s.len(),
{
    if s.len() == 0 {
        assert(s + q =~= q + Seq::<char>::empty());
        lemma_trim_start_pad(q, Seq::<char>::empty());
        assert(q + Seq::<char>::empty() =~= q);
    } else if is_ws(s[0]) {
        assert((s + q)[0] == s[0]);
        assert((s + q).drop_first() =~= s.drop_first() + q);
        lemma_trim_tail_pad(s.drop_first(), q);
    } else {
        assert((s + q)[0] == s[0]);
        lemma_trim_end_pad(s, q);
    }
}

/// White space around a text does not change it trimmed.
pub proof fn lemma_trim_padding(p: Seq<char>, s: Seq<char>, q: Seq<char>)
    requires
        all_ws(p),
        all_ws(q),
    ensures
        trim(p + s + q) == trim(s),
{
    assert(p + s + q =~= p + (s + q));
    lemma_trim_start_pad(p, s + q);
    lemma_trim_tail_pad(s, q);
}

pub proof fn lemma_h_index_none(s: Seq<char>)
    requires
        forall|i: int| 0 <= i < s.len() ==> s[i] != 'h' && s[i] != 'H',
    ensures
        h_index(s) is None,
    decreases s.len(),
{
    if s.len() > 0 {
        lemma_h_index_none(s.drop_first());
    }
}

/// Appending text without a separator extends the last piece.
pub proof fn lemma_split_extend(z: Seq<char>, y: Seq<char>, sep: char)
    requires
        forall|i: int| 0 <= i < y.len() ==> y[i] != sep,
    ensures
        split_on(z + y, sep) == split_on(z, sep).update(
            split_on(z, sep).len() - 1,
            split_on(z, sep).last() + y,
        ),
    decreases y.len(),
{
    lemma_split_on_nonempty(z, sep);
    if y.len() == 0 {
        assert(z + y =~= z);
        assert(split_on(z, sep).last() + y =~= split_on(z, sep).last());
        assert(split_on(z, sep).update(split_on(z, sep).len() - 1, split_on(z, sep).last())
            =~= split_on(z, sep));
    } else {
        lemma_split_extend(z, y.drop_last(), sep);
        assert((z + y).drop_last() =~= z + y.drop_last());
        let r = split_on(z, sep);
        let r1 = r.update(r.len() - 1, r.last() + y.drop_last());
        assert((r.last() + y.drop_last()).push(y.last()) =~= r.last() + y);
        assert(r1.update(r1.len() - 1, r1.last().push(y.last())) =~= r.update(
            r.len() - 1,
            r.last() + y,
        ));
    }
}

/// Splitting `x`, a separator, then `y` (neither holding a separator) gives `[x, y]`.
pub proof fn lemma_split_two(x: Seq<char>, y: Seq<char>, sep: char)
    requires
        forall|i: int| 0 <= i < x.len() ==> x[i] != sep,
        forall|i: int| 0 <= i < y.len() ==> y[i] != sep,
    ensures
        split_on(x + seq![sep] + y, sep) == seq![x, y],
{
    let e = Seq::<char>::empty();
    lemma_split_extend(e, x, sep);
    assert(e + x =~= x);
    assert(split_on(e, sep) =~= seq![e]);
    assert(split_on(x, sep) =~= seq![x]);
    let xs = x + seq![sep];
    assert(xs.drop_last() =~= x);
    assert(split_on(xs, sep) =~= seq![x, e]);
    lemma_split_extend(xs, y, sep);
    assert(seq![x, e].update(1, e + y) =~= seq![x, y]);
}

/// Three pieces, as `lemma_split_two`.
pub proof fn lemma_split_three(x: Seq<char>, y: Seq<char>, z: Seq<char>, sep: char)
    requires
        forall|i: int| 0 <= i < x.len() ==> x[i] != sep,
        forall|i: int| 0 <= i < y.len() ==> y[i] != sep,
        forall|i: int| 0 <= i < z.len() ==> z[i] != sep,
    ensures
        split_on(x + seq![sep] + y + seq![sep] + z, sep) == seq![x, y, z],
{
    let e = Seq::<char>::empty();
    lemma_split_two(x, y, sep);
    let xy = x + seq![sep] + y;
    let xys = xy + seq![sep];
    assert(xys.drop_last() =~= xy);
    assert(split_on(xys, sep) =~= seq![x, y, e]);
    lemma_split_extend(xys, z, sep);
    assert(seq![x, y, e].update(2, e + z) =~= seq![x, y, z]);
}

/// A string of digits reads back as its value.
pub proof fn lemma_parse_digits(s: Seq<char>)
    requires
        s.len() > 0,
        all_digits(s),
        digits_value(s) <= u32::MAX,
    ensures
        parse_u32(s) == Some(digits_value(s) as u32),
        trim(s) == s,
{
    assert(is_digit(s[0]));
    assert(is_digit(s.last()));
    lemma_trim_noop(s);
}

/// Lexicographic order of strings by code point, the order of `str::cmp`
/// (UTF-8 keeps the order of code points).
pub open spec fn seq_less(a: Seq<char>, b: Seq<char>) -> bool
    decreases a.len(),
{
    if a.len() == 0 {
        b.len() > 0
    } else if b.len() == 0 {
        false
    } else if a[0] != b[0] {
        a[0] < b[0]
    } else {
        seq_less(a.drop_first(), b.drop_first())
    }
}

pub proof fn lemma_seq_less_irreflexive(a: Seq<char>)
    ensures
        !seq_less(a, a),
    decreases a.len(),
{
    if a.len() > 0 {
        lemma_seq_less_irreflexive(a.drop_first());
    }
}

pub proof fn lemma_seq_less_asymmetric(a: Seq<char>, b: Seq<char>)
    ensures
        !(seq_less(a, b) && seq_less(b, a)),
    decreases a.len(),
{
    if a.len() > 0 && b.len() > 0 && a[0] == b[0] {
        lemma_seq_less_asymmetric(a.drop_first(), b.drop_first());
    }
}

pub proof fn lemma_seq_less_transitive(a: Seq<char>, b: Seq<char>, c: Seq<char>)
    requires
        seq_less(a, b),
        seq_less(b, c),
    ensures
        seq_less(a, c),
    decreases a.len(),
{
    if a.len() > 0 && b.len() > 0 && c.len() > 0 && a[0] == b[0] && b[0] == c[0] {
        lemma_seq_less_transitive(a.drop_first(), b.drop_first(), c.drop_first());
    }
}

pub proof fn lemma_seq_less_total(a: Seq<char>, b: Seq<char>)
    ensures
        a == b || seq_less(a, b) || seq_less(b, a),
    decreases a.len(),
{
    if a.len() > 0 && b.len() > 0 && a[0] == b[0] {
        lemma_seq_less_total(a.drop_first(), b.drop_first());
        if a.drop_first() == b.drop_first() {
            assert(a =~= seq![a[0]] + a.drop_first());
            assert(b =~= seq![b[0]] + b.drop_first());
        }
    } else if a.len() == 0 && b.len() == 0 {
        assert(a =~= b);
    }
}

/// Whether `a` comes before `b` by code point.
pub fn vec_less(a: &Vec<char>, b: &Vec<char>) -> (r: bool)
    ensures
        r == seq_less(a@, b@),
{
    let mut i: usize = 0;
    assert(a@.skip(0) =~= a@);
    assert(b@.skip(0) =~= b@);
    while i < a.len() && i < b.len() && a[i] == b[i]
        invariant
            0 <= i <= a.len(),
            i <= b.len(),
            seq_less(a@, b@) == seq_less(a@.skip(i as int), b@.skip(i as int)),
        decreases a.len() - i,
    {
        assert(a@.skip(i as int).drop_first() =~= a@.skip(i + 1));
        assert(b@.skip(i as int).drop_first() =~= b@.skip(i + 1));
        i += 1;
    }
    if i == a.len() {
        i < b.len()
    } else if i == b.len() {
        false
    } else {
        a[i] < b[i]
    }
}

/// The views of a sequence of strings.
pub open spec fn string_views(s: Seq<String>) -> Seq<Seq<char>> {
    s.map_values(|x: String| x@)
}

/// Strictly increasing by code point, hence without repeats.
pub open spec fn strictly_sorted(s: Seq<Seq<char>>) -> bool {
    forall|i: int, j: int| 0 <= i < j < s.len() ==> seq_less(#[trigger] s[i], #[trigger] s[j])
}

/// The strings of `v`, sorted by code point, each once.
pub fn sort_dedup_strings(v: Vec<String>) -> (r: Vec<String>)
    ensures
        strictly_sorted(string_views(r@)),
        string_views(r@).to_set() == string_views(v@).to_set(),
{
    let mut out: Vec<String> = Vec::new();
    let mut k: usize = 0;
    let mut src = v;
    let ghost orig = string_views(src@);
    let n = src.len();
    while k < n
        invariant
            n == src.len(),
            0 <= k <= n,
            orig == string_views(src@),
            strictly_sorted(string_views(out@)),
            string_views(out@).to_set() == orig.take(k as int).to_set(),
        decreases n - k,
    {
        let item = src[k].clone();
        let ghost iv = item@;
        assert(iv == orig[k as int]);
        let iw = chars_of(item.as_str());
        // find the insertion point: first element not less than item
        let mut p: usize = 0;
        let ghost ov = string_views(out@);
        let mut searching = true;
        while searching && p < out.len()
            invariant
                0 <= p <= out.len(),
                ov == string_views(out@),
                iw@ == iv,
                forall|q: int| 0 <= q < p ==> seq_less(#[trigger] ov[q], iv),
                !searching ==> p < out.len() && !seq_less(ov[p as int], iv),
            decreases out.len() - p + (if searching {
                1int
            } else {
                0int
            }),
        {
            let ow = chars_of(out[p].as_str());
            if vec_less(&ow, &iw) {
                p += 1;
            } else {
                searching = false;
            }
        }
        let ghost old_out = out@;
        assert(orig.take(k + 1) =~= orig.take(k as int).push(iv));
        if p < out.len() {
            let dup = {
                let ow = chars_of(out[p].as_str());
                seq_eq(&ow, &iw)
            };
            if dup {
                assert(orig.take(k + 1).to_set() =~= orig.take(k as int).to_set()) by {
                    assert(ov[p as int] == iv);
                    assert(ov.to_set().contains(ov[p as int]));
                    assert(orig.take(k as int).push(iv).to_set() =~= orig.take(
                        k as int,
                    ).to_set().insert(iv));
                }
                k += 1;
                continue;
            }
            proof {
                lemma_seq_less_total(ov[p as int], iv);
            }
        }
        proof {
            if p < ov.len() {
                assert(seq_less(iv, ov[p as int]));
            }
            assert forall|m: int| p <= m < ov.len() implies seq_less(iv, #[trigger] ov[m]) by {
                if m > p {
                    lemma_seq_less_transitive(iv, ov[p as int], ov[m]);
                }
            }
        }
        out.insert(p, item);
        proof {
            let nv = string_views(out@);
            assert(nv =~= ov.insert(p as int, iv));
            assert forall|i: int, j: int| 0 <= i < j < nv.len() implies seq_less(
                #[trigger] nv[i],
                #[trigger] nv[j],
            ) by {
                if j < p {
                } else if i < p && j == p {
                } else if i < p && j > p {
                    assert(seq_less(iv, ov[j - 1]));
                    lemma_seq_less_transitive(ov[i], iv, ov[j - 1]);
                } else if i == p {
                    assert(seq_less(iv, ov[j - 1]));
                } else {
                }
            }
            assert forall|x: Seq<char>| nv.contains(x) <==> (ov.contains(x) || x == iv) by {
                if nv.contains(x) {
                    let w = choose|w: int| 0 <= w < nv.len() && nv[w] == x;
                    if w < p {
                        assert(ov[w] == x);
                    } else if w > p {
                        assert(ov[w - 1] == x);
                    }
                }
                if ov.contains(x) {
                    let w = choose|w: int| 0 <= w < ov.len() && ov[w] == x;
                    if w < p {
                        assert(nv[w] == x);
                    } else {
                        assert(nv[w + 1] == x);
                    }
                }
                if x == iv {
                    assert(nv[p as int] == x);
                }
            }
            assert(nv.to_set() =~= ov.to_set().insert(iv));
            orig.take(k as int).lemma_push_to_set_commute(iv);
        }
        k += 1;
    }
    assert(orig.take(n as int) =~= orig);
    out
}

/// The maximal runs of non-whitespace characters of `s`, as
/// `str::split_whitespace` yields them.
pub open spec fn ws_words(s: Seq<char>) -> Seq<Seq<char>>
    decreases s.len(),
{
    if s.len() == 0 {
        Seq::empty()
    } else {
        let r = ws_words(s.drop_last());
        let c = s.last();
        if is_ws(c) {
            r
        } else if s.len() >= 2 && !is_ws(s[s.len() - 2]) {
            r.update(r.len() - 1, r.last().push(c))
        } else {
            r.push(seq![c])
        }
    }
}

/// The words of `v[lo..hi]` split on whitespace.
pub fn split_whitespace_range(v: &Vec<char>, lo: usize, hi: usize) -> (r: Vec<Vec<char>>)
    requires
        lo <= hi <= v@.len(),
    ensures
        views(r@) == ws_words(v@.subrange(lo as int, hi as int)),
{
    let mut out: Vec<Vec<char>> = Vec::new();
    let mut cur: Vec<char> = Vec::new();
    let mut in_word = false;
    let mut i = lo;
    assert(v@.subrange(lo as int, lo as int) =~= Seq::<char>::empty());
    while i < hi
        invariant
            lo <= i <= hi <= v@.len(),
            in_word == (i > lo && !is_ws(v@[i - 1])),
            in_word ==> views(out@).push(cur@) == ws_words(v@.subrange(lo as int, i as int)),
            !in_word ==> views(out@) == ws_words(v@.subrange(lo as int, i as int)),
        decreases hi - i,
    {
        let ghost t = v@.subrange(lo as int, i + 1);
        assert(t.drop_last() =~= v@.subrange(lo as int, i as int));
        let c = v[i];
        let ghost old_out = views(out@);
        let ghost old_cur = cur@;
        if is_whitespace_char(c) {
            if in_word {
                let w = cur;
                out.push(w);
                assert(views(out@) =~= old_out.push(old_cur));
                cur = Vec::new();
            }
            in_word = false;
        } else {
            if in_word {
                assert(t[t.len() - 2] == v@[i - 1]);
                cur.push(c);
                assert(views(out@).push(cur@) =~= old_out.push(old_cur).update(
                    old_out.len() as int,
                    old_cur.push(c),
                ));
            } else {
                if i > lo {
                    assert(t[t.len() - 2] == v@[i - 1]);
                }
                cur = Vec::new();
                cur.push(c);
                assert(views(out@).push(cur@) =~= old_out.push(seq![c]));
            }
            in_word = true;
        }
        i += 1;
    }
    if in_word {
        let ghost old_out = views(out@);
        let ghost old_cur = cur@;
        out.push(cur);
        assert(views(out@) =~= old_out.push(old_cur));
    }
    out
}

/// The words of `ws`, each followed by a space but the last.
pub open spec fn join_spaced(ws: Seq<Seq<char>>) -> Seq<char>
    decreases ws.len(),
{
    if ws.len() == 0 {
        Seq::empty()
    } else if ws.len() == 1 {
        ws[0]
    } else {
        join_spaced(ws.drop_last()) + seq![' '] + ws.last()
    }
}

/// The characters of `words` joined with single spaces, as `[String]::join(" ")`.
pub fn join_with_spaces(words: &[String]) -> (r: Vec<char>)
    ensures
        r@ == join_spaced(string_views(words@)),
{
    let mut out: Vec<char> = Vec::new();
    let mut i: usize = 0;
    let ghost ws = string_views(words@);
    assert(ws.take(0) =~= Seq::<Seq<char>>::empty());
    while i < words.len()
        invariant
            0 <= i <= words@.len(),
            ws == string_views(words@),
            out@ == join_spaced(ws.take(i as int)),
        decreases words@.len() - i,
    {
        let ghost before = out@;
        if i > 0 {
            out.push(' ');
        }
        push_str(&mut out, words[i].as_str());
        assert(ws.take(i + 1).drop_last() =~= ws.take(i as int));
        if i == 0 {
            assert(out@ =~= ws.take(1)[0]);
        } else {
            assert(out@ =~= before + seq![' '] + ws[i as int]);
        }
        i += 1;
    }
    assert(ws.take(words@.len() as int) =~= ws);
    out
}

/// `s` with its first character upper-cased: `first.to_uppercase() + rest`.
pub open spec fn capitalized(s: Seq<char>) -> Seq<char> {
    if s.len() == 0 {
        Seq::empty()
    } else {
        uppercase_char(s[0]) + s.drop_first()
    }
}

/// `s` with its first character upper-cased.
pub fn capitalize(s: &str) -> (r: String)
    ensures
        r@ == capitalized(s@),
{
    let v = chars_of(s);
    if v.len() == 0 {
        let e: Vec<char> = Vec::new();
        assert(e@ =~= capitalized(s@));
        return string_from_chars(&e);
    }
    let up = char_to_uppercase(v[0]);
    let mut out = chars_of(up.as_str());
    let mut i: usize = 1;
    let ghost u = out@;
    while i < v.len()
        invariant
            1 <= i <= v.len(),
            out@ == u + v@.subrange(1, i as int),
        decreases v.len() - i,
    {
        out.push(v[i]);
        i += 1;
        assert(out@ =~= u + v@.subrange(1, i as int));
    }
    assert(out@ =~= capitalized(s@));
    string_from_chars(&out)
}

} // verus!
